//! Payment: two batches with the customer in between.
//!
//! The first batch updates warehouse and district and reads the customer; the
//! second updates the customer, writes the history row and commits.
use vstd::prelude::*;
use vstd::utf8::encode_utf8;

use crate::binary32::{difference, hundredths_bits, quotient_pattern, sum};
use crate::checks::first;
use crate::profile::TransactionKind;
use crate::ranking::common::{
    BatchResults, SemanticResult, SemanticViolation, Violation, char_at, char_fault,
    expect_f32_add, expect_f32_sub, f32_add_fault, f32_at, f32_fault, f32_mismatch_fault,
    f32_sub_fault, hex8, int32_at, int32_fault, operation, operation_of, row_char, row_f32_bits,
    row_int32, rows_fault, single_row_fault, single_row_of, violated, violates, violation,
};
use crate::ranking::new_order::{bare_operation, int_pair, int_single, int_triple};
use crate::ranking::new_order_rows::{bad_credit, good_credit, is_credit};
use crate::ranking::row_checks::{
    bytes_agree, columns_fault, copy_bytes, describe_kind, int_text, kind_name, require_columns,
};
use crate::ranking::runner::{
    CustomerVersion, PaymentEvidence, RankedCommit, RankedTransactionOutcome,
};
use crate::ranking::statement_id::StatementId;
use crate::text::{
    decimal, hex_digits, join2, join3, join4, join5, join6, join7, lossy_text, quote_bytes,
    quoted, signed_decimal, unsigned_text,
};
use crate::time::{fixed_digits, push_fixed};
use crate::wire::{
    Operation, OperationModel, WireModel, WireValue, operation_models, row_model, rows_model,
};
use crate::workload::{
    CUSTOMERS_PER_DISTRICT, CustomerSelector, MAX_PAYMENT_CENTS, MIN_PAYMENT_CENTS, PaymentInput,
    RoutedTransaction,
};

verus! {

pub const STAGE_ONE_WAREHOUSE_BEFORE: usize = 1;

pub const STAGE_ONE_WAREHOUSE_AFTER: usize = 3;

pub const STAGE_ONE_DISTRICT_BEFORE: usize = 4;

pub const STAGE_ONE_DISTRICT_AFTER: usize = 6;

pub const STAGE_ONE_CUSTOMER: usize = 7;

pub const STAGE_TWO_CUSTOMER_AFTER: usize = 2;

/// Why the routing of a Payment is refused.
pub open spec fn payment_route_fault(route: RoutedTransaction, input: PaymentInput) -> Option<
    Violation,
> {
    first(
        violates(
            route.kind != TransactionKind::Payment,
            "Payment runner received "@ + kind_name(route.kind) + " route"@,
        ),
        first(
            violates(
                !(1 <= route.home_warehouse <= 50),
                "Payment home warehouse "@ + decimal(route.home_warehouse as nat)
                    + " is out of range"@,
            ),
            first(
                violates(
                    !(1 <= route.home_district <= 10),
                    "Payment home district "@ + decimal(route.home_district as nat)
                        + " is out of range"@,
                ),
                first(
                    violates(
                        route.payment_customer_warehouse != input.customer_warehouse,
                        "routed Payment customer warehouse "@ + decimal(
                            route.payment_customer_warehouse as nat,
                        ) + " does not match frozen input "@ + decimal(
                            input.customer_warehouse as nat,
                        ),
                    ),
                    first(
                        violates(
                            !(1 <= input.customer_warehouse <= 50),
                            "Payment customer warehouse "@ + decimal(
                                input.customer_warehouse as nat,
                            ) + " is out of range"@,
                        ),
                        violates(
                            !(1 <= input.customer_district <= 10),
                            "Payment customer district "@ + decimal(
                                input.customer_district as nat,
                            ) + " is out of range"@,
                        ),
                    ),
                ),
            ),
        ),
    )
}

/// Why the customer of a Payment is refused.
pub open spec fn payment_selector_fault(selector: CustomerSelector) -> Option<Violation> {
    match selector {
        CustomerSelector::Id(id) => violates(
            !(1 <= id <= 3_000),
            "Payment customer id "@ + decimal(id as nat) + " is out of range"@,
        ),
        CustomerSelector::LastName(name) => violates(
            name.bytes@.len() == 0 || name.bytes@.len() > 16,
            "Payment customer last name must contain 1..=16 bytes"@,
        ),
    }
}

/// Why a Payment is refused before anything is sent.
pub open spec fn payment_request_fault(
    route: RoutedTransaction,
    input: PaymentInput,
    timestamp: Seq<u8>,
) -> Option<Violation> {
    let expected = quotient_pattern(input.amount_cents as nat, 100);
    first(
        payment_route_fault(route, input),
        first(
            payment_selector_fault(input.customer),
            first(
                violates(
                    !(100 <= input.amount_cents <= 500_000),
                    "Payment amount "@ + decimal(input.amount_cents as nat)
                        + " cents is out of range"@,
                ),
                first(
                    violates(
                        input.amount_bits != expected,
                        "Payment bound amount bits 0x"@ + hex_digits(input.amount_bits as nat, 8)
                            + " do not match "@ + decimal(input.amount_cents as nat)
                            + " cents (0x"@ + hex_digits(expected as nat, 8) + ")"@,
                    ),
                    violates(
                        !(1 <= timestamp.len() <= 30),
                        "Payment timestamp length "@ + decimal(timestamp.len())
                            + " is outside 1..=30"@,
                    ),
                ),
            ),
        ),
    )
}

fn refused(before: &str, n: u64, after: &str) -> (r: SemanticViolation)
    ensures
        r@ == violation(before@ + decimal(n as nat) + after@),
{
    SemanticViolation::of(join3(before, unsigned_text(n).as_str(), after))
}

fn check_routing(route: &RoutedTransaction, input: &PaymentInput) -> (r: SemanticResult<()>)
    ensures
        violated(r) == payment_route_fault(*route, *input),
{
    if route.kind != TransactionKind::Payment {
        return Err(
            SemanticViolation::of(
                join3("Payment runner received ", describe_kind(route.kind), " route"),
            ),
        );
    }
    if route.home_warehouse < 1 || route.home_warehouse > 50 {
        return Err(
            refused("Payment home warehouse ", route.home_warehouse as u64, " is out of range"),
        );
    }
    if route.home_district < 1 || route.home_district > 10 {
        return Err(
            refused("Payment home district ", route.home_district as u64, " is out of range"),
        );
    }
    if route.payment_customer_warehouse != input.customer_warehouse {
        return Err(
            SemanticViolation::of(
                join4(
                    "routed Payment customer warehouse ",
                    unsigned_text(route.payment_customer_warehouse as u64).as_str(),
                    " does not match frozen input ",
                    unsigned_text(input.customer_warehouse as u64).as_str(),
                ),
            ),
        );
    }
    if input.customer_warehouse < 1 || input.customer_warehouse > 50 {
        return Err(
            refused(
                "Payment customer warehouse ",
                input.customer_warehouse as u64,
                " is out of range",
            ),
        );
    }
    if input.customer_district < 1 || input.customer_district > 10 {
        return Err(
            refused(
                "Payment customer district ",
                input.customer_district as u64,
                " is out of range",
            ),
        );
    }
    Ok(())
}

/// Checks a request before anything is sent.
pub fn validate_request(route: &RoutedTransaction, input: &PaymentInput, timestamp: &str) -> (r:
    SemanticResult<()>)
    ensures
        violated(r) == payment_request_fault(*route, *input, encode_utf8(timestamp@)),
{
    check_routing(route, input)?;
    match &input.customer {
        CustomerSelector::Id(id) => {
            if *id < 1 || *id > CUSTOMERS_PER_DISTRICT {
                return Err(refused("Payment customer id ", *id as u64, " is out of range"));
            }
        },
        CustomerSelector::LastName(name) => {
            if name.bytes.len() == 0 || name.bytes.len() > 16 {
                return Err(
                    SemanticViolation::new("Payment customer last name must contain 1..=16 bytes"),
                );
            }
        },
    }
    if input.amount_cents < MIN_PAYMENT_CENTS || input.amount_cents > MAX_PAYMENT_CENTS {
        return Err(refused("Payment amount ", input.amount_cents as u64, " cents is out of range"));
    }
    let expected: u32 = hundredths_bits(input.amount_cents);
    if input.amount_bits != expected {
        return Err(
            SemanticViolation::of(
                join7(
                    "Payment bound amount bits 0x",
                    hex8(input.amount_bits).as_str(),
                    " do not match ",
                    unsigned_text(input.amount_cents as u64).as_str(),
                    " cents (0x",
                    hex8(expected).as_str(),
                    ")",
                ),
            ),
        );
    }
    let length: usize = timestamp.as_bytes().len();
    if length < 1 || length > 30 {
        return Err(refused("Payment timestamp length ", length as u64, " is outside 1..=30"));
    }
    Ok(())
}

/// The lookup of a customer.
pub open spec fn customer_lookup(warehouse: u16, district: u8, selector: CustomerSelector) -> OperationModel {
    match selector {
        CustomerSelector::Id(id) => operation_of(
            StatementId::PaymentCustomerById,
            seq![
                WireModel::Int32(warehouse as i32),
                WireModel::Int32(district as i32),
                WireModel::Int32(id as i32),
            ],
        ),
        CustomerSelector::LastName(name) => operation_of(
            StatementId::PaymentCustomerByLast,
            seq![
                WireModel::Int32(warehouse as i32),
                WireModel::Int32(district as i32),
                WireModel::Char(name.bytes@),
            ],
        ),
    }
}

/// The first batch of a Payment.
pub open spec fn payment_first_batch(
    home_warehouse: u16,
    home_district: u8,
    customer_warehouse: u16,
    customer_district: u8,
    selector: CustomerSelector,
    amount: u32,
) -> Seq<OperationModel> {
    let w = WireModel::Int32(home_warehouse as i32);
    let d = WireModel::Int32(home_district as i32);
    seq![
        operation_of(StatementId::Begin, Seq::empty()),
        operation_of(StatementId::PaymentWarehouse, seq![w]),
        operation_of(StatementId::PaymentUpdateWarehouse, seq![WireModel::Float32(amount), w]),
        operation_of(StatementId::PaymentWarehouseAfter, seq![w]),
        operation_of(StatementId::PaymentDistrict, seq![w, d]),
        operation_of(StatementId::PaymentUpdateDistrict, seq![WireModel::Float32(amount), w, d]),
        operation_of(StatementId::PaymentDistrictAfter, seq![w, d]),
        customer_lookup(customer_warehouse, customer_district, selector),
    ]
}

/// Parameters from a list.
fn bound(id: StatementId, parameters: Vec<WireValue>, Ghost(models): Ghost<Seq<WireModel>>) -> (r:
    Operation)
    requires
        row_model(parameters@) =~= models,
    ensures
        r@ == operation_of(id, models),
{
    operation(id, parameters)
}

/// Builds the first batch.
pub fn build_stage_one(
    home_warehouse: u16,
    home_district: u8,
    customer_warehouse: u16,
    customer_district: u8,
    customer: &CustomerSelector,
    amount_bits: u32,
) -> (r: Vec<Operation>)
    ensures
        operation_models(r@) == payment_first_batch(
            home_warehouse,
            home_district,
            customer_warehouse,
            customer_district,
            *customer,
            amount_bits,
        ),
{
    let w: i32 = home_warehouse as i32;
    let d: i32 = home_district as i32;
    let ghost goal = payment_first_batch(
        home_warehouse,
        home_district,
        customer_warehouse,
        customer_district,
        *customer,
        amount_bits,
    );
    let mut operations: Vec<Operation> = Vec::new();
    operations.push(bare_operation(StatementId::Begin));
    operations.push(operation(StatementId::PaymentWarehouse, int_single(w)));
    operations.push(
        bound(
            StatementId::PaymentUpdateWarehouse,
            vec![WireValue::Float32(amount_bits), WireValue::Int32(w)],
            Ghost(goal[2].parameters),
        ),
    );
    operations.push(operation(StatementId::PaymentWarehouseAfter, int_single(w)));
    operations.push(operation(StatementId::PaymentDistrict, int_pair(w, d)));
    operations.push(
        bound(
            StatementId::PaymentUpdateDistrict,
            vec![WireValue::Float32(amount_bits), WireValue::Int32(w), WireValue::Int32(d)],
            Ghost(goal[5].parameters),
        ),
    );
    operations.push(operation(StatementId::PaymentDistrictAfter, int_pair(w, d)));
    match customer {
        CustomerSelector::Id(id) => {
            operations.push(
                operation(
                    StatementId::PaymentCustomerById,
                    int_triple(customer_warehouse as i32, customer_district as i32, *id as i32),
                ),
            );
        },
        CustomerSelector::LastName(name) => {
            operations.push(
                bound(
                    StatementId::PaymentCustomerByLast,
                    vec![
                        WireValue::Int32(customer_warehouse as i32),
                        WireValue::Int32(customer_district as i32),
                        WireValue::Char(copy_bytes(name.bytes.as_slice())),
                    ],
                    Ghost(goal[7].parameters),
                ),
            );
        },
    }
    assert(operation_models(operations@) =~= goal);
    operations
}

#[derive(Clone, Copy, Debug, PartialEq, Eq, Structural)]
pub enum CustomerCredit {
    Good,
    Bad,
}

/// A customer row as a Payment finds it.
#[derive(Clone, Debug, PartialEq, Eq)]
pub struct CustomerSnapshot {
    pub id: i32,
    pub first: Vec<u8>,
    pub last: Vec<u8>,
    pub credit: CustomerCredit,
    pub balance_bits: u32,
    pub ytd_payment_bits: u32,
    pub payment_count: i32,
    pub delivery_count: i32,
    pub data: Vec<u8>,
}

/// The content of a [`CustomerSnapshot`].
#[verifier::ext_equal]
pub struct PayerModel {
    pub id: i32,
    pub first: Seq<u8>,
    pub last: Seq<u8>,
    pub credit: CustomerCredit,
    pub balance_bits: u32,
    pub ytd_payment_bits: u32,
    pub payment_count: i32,
    pub delivery_count: i32,
    pub data: Seq<u8>,
}

impl View for CustomerSnapshot {
    type V = PayerModel;

    open spec fn view(&self) -> PayerModel {
        PayerModel {
            id: self.id,
            first: self.first@,
            last: self.last@,
            credit: self.credit,
            balance_bits: self.balance_bits,
            ytd_payment_bits: self.ytd_payment_bits,
            payment_count: self.payment_count,
            delivery_count: self.delivery_count,
            data: self.data@,
        }
    }
}

/// Why a customer row is refused.
pub open spec fn payer_fault(row: Seq<WireModel>) -> Option<Violation> {
    let c = "Payment customer"@;
    let id = int32_at(row, 0);
    let named = "Payment customer "@ + signed_decimal(id as int);
    first(
        columns_fault(row, 9, c),
        first(
            int32_fault(row, 0, c),
            first(
                violates(
                    !(1 <= id <= 3_000),
                    "Payment customer result id "@ + signed_decimal(id as int)
                        + " is out of range"@,
                ),
                first(
                    char_fault(row, 1, c),
                    first(
                        char_fault(row, 2, c),
                        first(
                            char_fault(row, 3, c),
                            first(
                                violates(
                                    char_at(row, 3) != good_credit() && char_at(row, 3)
                                        != bad_credit(),
                                    named + " has invalid c_credit "@ + quoted(lossy_text(char_at(row, 3))),
                                ),
                                payer_rest_fault(row, named),
                            ),
                        ),
                    ),
                ),
            ),
        ),
    )
}

/// Why the counters, data and amounts of a customer row are refused.
pub open spec fn payer_rest_fault(row: Seq<WireModel>, named: Seq<char>) -> Option<Violation> {
    let c = "Payment customer"@;
    first(
        int32_fault(row, 6, c),
        first(
            int32_fault(row, 7, c),
            first(
                violates(
                    int32_at(row, 6) < 0 || int32_at(row, 7) < 0,
                    named + " has negative logical version ("@ + signed_decimal(
                        int32_at(row, 6) as int,
                    ) + ","@ + signed_decimal(int32_at(row, 7) as int) + ")"@,
                ),
                first(
                    char_fault(row, 8, c),
                    first(
                        violates(
                            char_at(row, 8).len() > 50,
                            named + " c_data has "@ + decimal(char_at(row, 8).len())
                                + " bytes; maximum is 50"@,
                        ),
                        first(f32_fault(row, 4, c), f32_fault(row, 5, c)),
                    ),
                ),
            ),
        ),
    )
}

/// The customer in a row.
pub open spec fn payer_of(row: Seq<WireModel>) -> PayerModel {
    PayerModel {
        id: int32_at(row, 0),
        first: char_at(row, 1),
        last: char_at(row, 2),
        credit: if char_at(row, 3) == good_credit() {
            CustomerCredit::Good
        } else {
            CustomerCredit::Bad
        },
        balance_bits: f32_at(row, 4),
        ytd_payment_bits: f32_at(row, 5),
        payment_count: int32_at(row, 6),
        delivery_count: int32_at(row, 7),
        data: char_at(row, 8),
    }
}

fn parse_credit(value: &[u8], named: &str) -> (r: SemanticResult<CustomerCredit>)
    ensures
        violated(r) == violates(
            value@ != good_credit() && value@ != bad_credit(),
            named@ + " has invalid c_credit "@ + quoted(lossy_text(value@)),
        ),
        r matches Ok(credit) ==> credit == if value@ == good_credit() {
            CustomerCredit::Good
        } else {
            CustomerCredit::Bad
        },
{
    if !is_credit(value) {
        return Err(
            SemanticViolation::of(
                join3(named, " has invalid c_credit ", quote_bytes(value).as_str()),
            ),
        );
    }
    assert(value@.len() == 2);
    if value[0] == 71 {
        assert(value@ == good_credit());
        Ok(CustomerCredit::Good)
    } else {
        Ok(CustomerCredit::Bad)
    }
}

fn parse_customer(row: &[WireValue]) -> (r: SemanticResult<CustomerSnapshot>)
    ensures
        violated(r) == payer_fault(row_model(row@)),
        r matches Ok(customer) ==> customer@ == payer_of(row_model(row@)),
{
    let c = "Payment customer";
    require_columns(row, 9, c)?;
    let id: i32 = row_int32(row, 0, c)?;
    if id < 1 || id > 3_000 {
        return Err(
            SemanticViolation::of(
                join3("Payment customer result id ", int_text(id).as_str(), " is out of range"),
            ),
        );
    }
    let first_name = row_char(row, 1, c)?;
    let last_name = row_char(row, 2, c)?;
    let named = join2("Payment customer ", int_text(id).as_str());
    let credit = parse_credit(row_char(row, 3, c)?, named.as_str())?;
    let payment_count: i32 = row_int32(row, 6, c)?;
    let delivery_count: i32 = row_int32(row, 7, c)?;
    if payment_count < 0 || delivery_count < 0 {
        return Err(
            SemanticViolation::of(
                join6(
                    named.as_str(),
                    " has negative logical version (",
                    int_text(payment_count).as_str(),
                    ",",
                    int_text(delivery_count).as_str(),
                    ")",
                ),
            ),
        );
    }
    let data = row_char(row, 8, c)?;
    if data.len() > 50 {
        return Err(
            SemanticViolation::of(
                join4(
                    named.as_str(),
                    " c_data has ",
                    unsigned_text(data.len() as u64).as_str(),
                    " bytes; maximum is 50",
                ),
            ),
        );
    }
    let balance_bits: u32 = row_f32_bits(row, 4, c)?;
    let ytd_payment_bits: u32 = row_f32_bits(row, 5, c)?;
    Ok(
        CustomerSnapshot {
            id,
            first: copy_bytes(first_name),
            last: copy_bytes(last_name),
            credit,
            balance_bits,
            ytd_payment_bits,
            payment_count,
            delivery_count,
            data: copy_bytes(data),
        },
    )
}

/// Whether one list of bytes comes before another.
pub open spec fn bytes_before(a: Seq<u8>, b: Seq<u8>) -> bool
    decreases a.len(),
{
    if b.len() == 0 {
        false
    } else if a.len() == 0 {
        true
    } else if a[0] != b[0] {
        a[0] < b[0]
    } else {
        bytes_before(a.drop_first(), b.drop_first())
    }
}

/// Whether one customer comes before another: by first name, then by id.
pub open spec fn payer_before(a: PayerModel, b: PayerModel) -> bool {
    bytes_before(a.first, b.first) || (a.first == b.first && a.id < b.id)
}

pub(crate) fn is_before(a: &[u8], b: &[u8]) -> (r: bool)
    ensures
        r == bytes_before(a@, b@),
{
    let mut i: usize = 0;
    proof {
        assert(a@.subrange(0, a@.len() as int) =~= a@);
        assert(b@.subrange(0, b@.len() as int) =~= b@);
    }
    while i < a.len() && i < b.len()
        invariant
            i <= a@.len(),
            i <= b@.len(),
            bytes_before(a@, b@) == bytes_before(
                a@.subrange(i as int, a@.len() as int),
                b@.subrange(i as int, b@.len() as int),
            ),
        decreases a@.len() - i,
    {
        if a[i] != b[i] {
            return a[i] < b[i];
        }
        proof {
            let x = a@.subrange(i as int, a@.len() as int);
            let y = b@.subrange(i as int, b@.len() as int);
            assert(x.drop_first() =~= a@.subrange(i as int + 1, a@.len() as int));
            assert(y.drop_first() =~= b@.subrange(i as int + 1, b@.len() as int));
        }
        i = i + 1;
    }
    i < b.len()
}

fn comes_before(left: &CustomerSnapshot, right: &CustomerSnapshot) -> (r: bool)
    ensures
        r == payer_before(left@, right@),
{
    if is_before(left.first.as_slice(), right.first.as_slice()) {
        return true;
    }
    bytes_agree(left.first.as_slice(), right.first.as_slice()) && left.id < right.id
}

/// A list of customers with one more, behind those that do not come after it.
pub open spec fn with_payer(list: Seq<PayerModel>, customer: PayerModel) -> Seq<PayerModel>
    decreases list.len(),
{
    if list.len() == 0 || !payer_before(customer, list.last()) {
        list.push(customer)
    } else {
        with_payer(list.drop_last(), customer).push(list.last())
    }
}

/// The customers of the first `n` rows, in order.
pub open spec fn ordered_payers(rows: Seq<Seq<WireModel>>, n: int) -> Seq<PayerModel>
    decreases n,
{
    if n <= 0 {
        Seq::empty()
    } else {
        with_payer(ordered_payers(rows, n - 1), payer_of(rows[n - 1]))
    }
}

/// Why the rows from `i` on are refused in a lookup by surname.
pub open spec fn surname_rows_fault(rows: Seq<Seq<WireModel>>, last: Seq<u8>, i: int) -> Option<
    Violation,
>
    decreases rows.len() - i,
{
    if i >= rows.len() {
        None
    } else {
        first(
            payer_fault(rows[i]),
            first(
                violates(
                    char_at(rows[i], 2) != last,
                    "Payment surname lookup returned customer "@ + signed_decimal(
                        int32_at(rows[i], 0) as int,
                    ) + " with a different last name"@,
                ),
                surname_rows_fault(rows, last, i + 1),
            ),
        )
    }
}

/// Why the ordered customers from `i` on are refused: one comes twice.
pub open spec fn repeated_payer_fault(list: Seq<PayerModel>, i: int) -> Option<Violation>
    decreases list.len() - i,
{
    if i + 1 >= list.len() {
        None
    } else {
        first(
            violates(
                list[i].first == list[i + 1].first && list[i].id == list[i + 1].id,
                "Payment surname lookup returned duplicate (c_first, c_id) for customer "@
                    + signed_decimal(list[i + 1].id as int),
            ),
            repeated_payer_fault(list, i + 1),
        )
    }
}

/// Why a lookup by surname is refused.
pub open spec fn surname_fault(rows: Seq<Seq<WireModel>>, last: Seq<u8>) -> Option<Violation> {
    let list = ordered_payers(rows, rows.len() as int);
    first(
        surname_rows_fault(rows, last, 0),
        first(
            repeated_payer_fault(list, 0),
            violates(list.len() == 0, "customer surname lookup returned no rows"@),
        ),
    )
}

/// The lower median of the customers in order.
pub open spec fn median_payer(rows: Seq<Seq<WireModel>>) -> PayerModel {
    let list = ordered_payers(rows, rows.len() as int);
    list[(list.len() - 1) / 2]
}

/// The contents of a list of customers.
pub open spec fn payer_models(list: Seq<CustomerSnapshot>) -> Seq<PayerModel> {
    Seq::new(list.len(), |i: int| list[i]@)
}

proof fn lemma_payers_inserted(
    before: Seq<CustomerSnapshot>,
    after: Seq<CustomerSnapshot>,
    at: int,
    c: CustomerSnapshot,
)
    requires
        0 <= at <= before.len(),
        after == before.insert(at, c),
    ensures
        payer_models(after) == payer_models(before).insert(at, c@),
{
    assert(payer_models(after) =~= payer_models(before).insert(at, c@));
}

fn add_customer(list: &mut Vec<CustomerSnapshot>, customer: CustomerSnapshot)
    ensures
        payer_models(final(list)@) == with_payer(payer_models(old(list)@), customer@),
{
    let ghost before = list@;
    let ghost models = payer_models(before);
    let ghost len = models.len() as int;
    let mut n: usize = list.len();
    proof {
        assert(models.subrange(0, len) =~= models);
        assert(with_payer(models, customer@) =~= with_payer(models.subrange(0, len), customer@)
            + models.subrange(len, len));
    }
    while n > 0 && comes_before(&customer, &list[n - 1])
        invariant
            n <= before.len(),
            list@ == before,
            models == payer_models(before),
            len == models.len(),
            with_payer(models, customer@) == with_payer(
                models.subrange(0, n as int),
                customer@,
            ) + models.subrange(n as int, len),
        decreases n,
    {
        proof {
            let part = models.subrange(0, n as int);
            assert(part.last() == before[n - 1]@);
            assert(part.drop_last() =~= models.subrange(0, n - 1));
            assert(with_payer(part, customer@) + models.subrange(n as int, len) =~= with_payer(
                models.subrange(0, n - 1),
                customer@,
            ) + models.subrange(n - 1, len));
        }
        n = n - 1;
    }
    let ghost added = customer@;
    let ghost whole = customer;
    list.insert(n, customer);
    proof {
        lemma_payers_inserted(before, list@, n as int, whole);
        let part = models.subrange(0, n as int);
        if n > 0 {
            assert(part.last() == before[n - 1]@);
        }
        assert(with_payer(part, added) == part.push(added));
        assert(models.insert(n as int, added) =~= part.push(added) + models.subrange(
            n as int,
            len,
        ));
    }
}

fn check_repeats(list: &Vec<CustomerSnapshot>) -> (r: SemanticResult<()>)
    ensures
        violated(r) == repeated_payer_fault(payer_models(list@), 0),
{
    let ghost models = payer_models(list@);
    let mut i: usize = 0;
    while i < list.len() && i < list.len() - 1
        invariant
            i <= list@.len(),
            models == payer_models(list@),
            repeated_payer_fault(models, 0) == repeated_payer_fault(models, i as int),
        decreases list@.len() - i,
    {
        assert(models[i as int] == list@[i as int]@);
        assert(models[i as int + 1] == list@[i as int + 1]@);
        if bytes_agree(list[i].first.as_slice(), list[i + 1].first.as_slice()) && list[i].id
            == list[i + 1].id {
            return Err(
                SemanticViolation::of(
                    join2(
                        "Payment surname lookup returned duplicate (c_first, c_id) for customer ",
                        int_text(list[i + 1].id).as_str(),
                    ),
                ),
            );
        }
        i = i + 1;
    }
    Ok(())
}

/// Finds the customer of a surname: the lower median by first name and id.
pub fn select_last_name_customer(rows: &[Vec<WireValue>], expected_last: &[u8]) -> (r:
    SemanticResult<CustomerSnapshot>)
    ensures
        violated(r) == surname_fault(rows_model(rows@), expected_last@),
        r matches Ok(customer) ==> customer@ == median_payer(rows_model(rows@)),
{
    let ghost models = rows_model(rows@);
    let mut customers: Vec<CustomerSnapshot> = Vec::new();
    let mut i: usize = 0;
    assert(payer_models(customers@) =~= ordered_payers(models, 0));
    while i < rows.len()
        invariant
            i <= rows@.len(),
            models == rows_model(rows@),
            surname_rows_fault(models, expected_last@, 0) == surname_rows_fault(
                models,
                expected_last@,
                i as int,
            ),
            payer_models(customers@) == ordered_payers(models, i as int),
        decreases rows@.len() - i,
    {
        assert(models[i as int] == row_model(rows@[i as int]@));
        let customer = parse_customer(rows[i].as_slice())?;
        if !bytes_agree(customer.last.as_slice(), expected_last) {
            return Err(
                SemanticViolation::of(
                    join3(
                        "Payment surname lookup returned customer ",
                        int_text(customer.id).as_str(),
                        " with a different last name",
                    ),
                ),
            );
        }
        add_customer(&mut customers, customer);
        i = i + 1;
    }
    check_repeats(&customers)?;
    let ghost list = payer_models(customers@);
    if customers.len() == 0 {
        return Err(SemanticViolation::new("customer surname lookup returned no rows"));
    }
    let middle: usize = (customers.len() - 1) / 2;
    assert(list[middle as int] == customers@[middle as int]@);
    Ok(customers.swap_remove(middle))
}

/// Why a lookup by id is refused.
pub open spec fn id_lookup_fault(rows: Seq<Seq<WireModel>>, id: u16) -> Option<Violation> {
    first(
        violates(
            rows.len() != 1,
            "Payment customer id lookup returned "@ + decimal(rows.len())
                + " rows; expected exactly one"@,
        ),
        first(
            payer_fault(rows[0]),
            violates(
                int32_at(rows[0], 0) != id,
                "Payment customer id lookup requested "@ + decimal(id as nat) + ", returned "@
                    + signed_decimal(int32_at(rows[0], 0) as int),
            ),
        ),
    )
}

/// Why a lookup is refused.
pub open spec fn lookup_fault(rows: Seq<Seq<WireModel>>, selector: CustomerSelector) -> Option<
    Violation,
> {
    match selector {
        CustomerSelector::Id(id) => id_lookup_fault(rows, id),
        CustomerSelector::LastName(name) => surname_fault(rows, name.bytes@),
    }
}

/// The customer that a lookup finds.
pub open spec fn found_payer(rows: Seq<Seq<WireModel>>, selector: CustomerSelector) -> PayerModel {
    match selector {
        CustomerSelector::Id(_) => payer_of(rows[0]),
        CustomerSelector::LastName(_) => median_payer(rows),
    }
}

fn select_customer(rows: &[Vec<WireValue>], selector: &CustomerSelector) -> (r: SemanticResult<
    CustomerSnapshot,
>)
    ensures
        violated(r) == lookup_fault(rows_model(rows@), *selector),
        r matches Ok(customer) ==> customer@ == found_payer(rows_model(rows@), *selector),
{
    match selector {
        CustomerSelector::Id(id) => {
            if rows.len() != 1 {
                return Err(
                    refused(
                        "Payment customer id lookup returned ",
                        rows.len() as u64,
                        " rows; expected exactly one",
                    ),
                );
            }
            assert(rows_model(rows@)[0] == row_model(rows@[0]@));
            let customer = parse_customer(rows[0].as_slice())?;
            if customer.id != *id as i32 {
                return Err(
                    SemanticViolation::of(
                        join4(
                            "Payment customer id lookup requested ",
                            unsigned_text(*id as u64).as_str(),
                            ", returned ",
                            int_text(customer.id).as_str(),
                        ),
                    ),
                );
            }
            Ok(customer)
        },
        CustomerSelector::LastName(name) => select_last_name_customer(rows, name.bytes.as_slice()),
    }
}

/// What the first batch of a Payment found.
#[derive(Clone, Debug, PartialEq, Eq)]
pub struct PaymentSnapshot {
    pub warehouse_before_bits: u32,
    pub warehouse_after_bits: u32,
    pub district_before_bits: u32,
    pub district_after_bits: u32,
    pub warehouse_name: Vec<u8>,
    pub district_name: Vec<u8>,
    pub customer: CustomerSnapshot,
}

/// The content of a [`PaymentSnapshot`].
#[verifier::ext_equal]
pub struct PaymentFound {
    pub warehouse_before_bits: u32,
    pub warehouse_after_bits: u32,
    pub district_before_bits: u32,
    pub district_after_bits: u32,
    pub warehouse_name: Seq<u8>,
    pub district_name: Seq<u8>,
    pub customer: PayerModel,
}

impl View for PaymentSnapshot {
    type V = PaymentFound;

    open spec fn view(&self) -> PaymentFound {
        PaymentFound {
            warehouse_before_bits: self.warehouse_before_bits,
            warehouse_after_bits: self.warehouse_after_bits,
            district_before_bits: self.district_before_bits,
            district_after_bits: self.district_after_bits,
            warehouse_name: self.warehouse_name@,
            district_name: self.district_name@,
            customer: self.customer@,
        }
    }
}

/// Why the total of a warehouse or district is refused.
pub open spec fn ytd_rows_fault(
    results: Seq<Option<Seq<Seq<WireModel>>>>,
    before: int,
    after: int,
    before_context: Seq<char>,
    after_context: Seq<char>,
    column: Seq<char>,
    amount: u32,
) -> Option<Violation> {
    let old_row = single_row_of(results, before);
    let new_row = single_row_of(results, after);
    first(
        single_row_fault(results, before),
        first(
            columns_fault(old_row, 2, before_context),
            first(
                single_row_fault(results, after),
                first(
                    columns_fault(new_row, 1, after_context),
                    first(
                        f32_fault(old_row, 0, before_context),
                        first(
                            f32_fault(new_row, 0, after_context),
                            first(
                                f32_add_fault(f32_at(old_row, 0), amount),
                                first(
                                    f32_mismatch_fault(
                                        sum(f32_at(old_row, 0), amount)->0,
                                        f32_at(new_row, 0),
                                        column,
                                        "addition"@,
                                    ),
                                    char_fault(old_row, 1, before_context),
                                ),
                            ),
                        ),
                    ),
                ),
            ),
        ),
    )
}

/// A total before and after, with the row's name.
pub struct YtdRead {
    pub before_bits: u32,
    pub after_bits: u32,
    pub name: Vec<u8>,
}

fn read_ytd(
    results: &BatchResults,
    before: usize,
    after: usize,
    before_context: &str,
    after_context: &str,
    column: &str,
    amount_bits: u32,
) -> (r: SemanticResult<YtdRead>)
    ensures
        violated(r) == ytd_rows_fault(
            results@,
            before as int,
            after as int,
            before_context@,
            after_context@,
            column@,
            amount_bits,
        ),
        r matches Ok(read) ==> read.before_bits == f32_at(
            single_row_of(results@, before as int),
            0,
        ) && read.after_bits == f32_at(single_row_of(results@, after as int), 0) && read.name@
            == char_at(single_row_of(results@, before as int), 1),
{
    let old_row = results.single_row(before)?;
    require_columns(old_row, 2, before_context)?;
    let new_row = results.single_row(after)?;
    require_columns(new_row, 1, after_context)?;
    let before_bits: u32 = row_f32_bits(old_row, 0, before_context)?;
    let after_bits: u32 = row_f32_bits(new_row, 0, after_context)?;
    expect_f32_add(before_bits, amount_bits, after_bits, column)?;
    let name = row_char(old_row, 1, before_context)?;
    Ok(YtdRead { before_bits, after_bits, name: copy_bytes(name) })
}

/// Why the results of the first batch are refused.
pub open spec fn payment_first_fault(
    results: Seq<Option<Seq<Seq<WireModel>>>>,
    selector: CustomerSelector,
    amount: u32,
) -> Option<Violation> {
    first(
        ytd_rows_fault(
            results,
            1,
            3,
            "Payment warehouse before"@,
            "Payment warehouse after"@,
            "Payment warehouse.w_ytd"@,
            amount,
        ),
        first(
            ytd_rows_fault(
                results,
                4,
                6,
                "Payment district before"@,
                "Payment district after"@,
                "Payment district.d_ytd"@,
                amount,
            ),
            first(rows_fault(results, 7), lookup_fault(results[7]->0, selector)),
        ),
    )
}

/// What the results of the first batch say.
pub open spec fn payment_first_found(
    results: Seq<Option<Seq<Seq<WireModel>>>>,
    selector: CustomerSelector,
) -> PaymentFound {
    PaymentFound {
        warehouse_before_bits: f32_at(single_row_of(results, 1), 0),
        warehouse_after_bits: f32_at(single_row_of(results, 3), 0),
        district_before_bits: f32_at(single_row_of(results, 4), 0),
        district_after_bits: f32_at(single_row_of(results, 6), 0),
        warehouse_name: char_at(single_row_of(results, 1), 1),
        district_name: char_at(single_row_of(results, 4), 1),
        customer: found_payer(results[7]->0, selector),
    }
}

/// Checks what the first batch returned.
pub fn validate_stage_one(results: &BatchResults, selector: &CustomerSelector, amount_bits: u32) -> (r:
    SemanticResult<PaymentSnapshot>)
    ensures
        violated(r) == payment_first_fault(results@, *selector, amount_bits),
        r matches Ok(snapshot) ==> snapshot@ == payment_first_found(results@, *selector),
{
    let warehouse = read_ytd(
        results,
        STAGE_ONE_WAREHOUSE_BEFORE,
        STAGE_ONE_WAREHOUSE_AFTER,
        "Payment warehouse before",
        "Payment warehouse after",
        "Payment warehouse.w_ytd",
        amount_bits,
    )?;
    let district = read_ytd(
        results,
        STAGE_ONE_DISTRICT_BEFORE,
        STAGE_ONE_DISTRICT_AFTER,
        "Payment district before",
        "Payment district after",
        "Payment district.d_ytd",
        amount_bits,
    )?;
    let rows = results.rows(STAGE_ONE_CUSTOMER)?;
    let customer = select_customer(rows, selector)?;
    Ok(
        PaymentSnapshot {
            warehouse_before_bits: warehouse.before_bits,
            warehouse_after_bits: warehouse.after_bits,
            district_before_bits: district.before_bits,
            district_after_bits: district.after_bits,
            warehouse_name: warehouse.name,
            district_name: district.name,
            customer,
        },
    )
}

/// Four spaces.
pub open spec fn name_gap() -> Seq<u8> {
    seq![32u8, 32u8, 32u8, 32u8]
}

/// Why two names make no history data.
pub open spec fn history_fault(warehouse: Seq<u8>, district: Seq<u8>) -> Option<Violation> {
    violates(
        warehouse.len() > 10 || district.len() > 10,
        "Payment history names exceed CHAR(10): warehouse="@ + decimal(warehouse.len())
            + ", district="@ + decimal(district.len()),
    )
}

/// The history data of two names.
pub open spec fn history_of(warehouse: Seq<u8>, district: Seq<u8>) -> Seq<u8> {
    warehouse + name_gap() + district
}

fn push_bytes(out: &mut Vec<u8>, bytes: &[u8])
    ensures
        final(out)@ == old(out)@ + bytes@,
{
    let ghost before = out@;
    let mut i: usize = 0;
    while i < bytes.len()
        invariant
            i <= bytes@.len(),
            before == old(out)@,
            out@ =~= before + bytes@.subrange(0, i as int),
        decreases bytes@.len() - i,
    {
        out.push(bytes[i]);
        i = i + 1;
    }
    assert(out@ =~= before + bytes@);
}

fn history_data(warehouse_name: &[u8], district_name: &[u8]) -> (r: SemanticResult<Vec<u8>>)
    ensures
        violated(r) == history_fault(warehouse_name@, district_name@),
        r matches Ok(data) ==> data@ == history_of(warehouse_name@, district_name@) && data@.len()
            <= 24,
{
    if warehouse_name.len() > 10 || district_name.len() > 10 {
        return Err(
            SemanticViolation::of(
                join4(
                    "Payment history names exceed CHAR(10): warehouse=",
                    unsigned_text(warehouse_name.len() as u64).as_str(),
                    ", district=",
                    unsigned_text(district_name.len() as u64).as_str(),
                ),
            ),
        );
    }
    let gap: [u8; 4] = [32, 32, 32, 32];
    assert(gap@ =~= name_gap());
    let mut value: Vec<u8> = Vec::new();
    push_bytes(&mut value, warehouse_name);
    push_bytes(&mut value, gap.as_slice());
    push_bytes(&mut value, district_name);
    assert(value@ =~= history_of(warehouse_name@, district_name@));
    Ok(value)
}

/// The text that a Payment puts before the data of a customer with bad credit.
pub open spec fn credit_prefix(
    customer_id: i32,
    customer_district: u8,
    customer_warehouse: u16,
    home_district: u8,
    home_warehouse: u16,
    cents: u32,
) -> Seq<char> {
    signed_decimal(customer_id as int) + " "@ + decimal(customer_district as nat) + " "@ + decimal(
        customer_warehouse as nat,
    ) + " "@ + decimal(home_district as nat) + " "@ + decimal(home_warehouse as nat) + " "@
        + decimal((cents / 100) as nat) + "."@ + fixed_digits((cents % 100) as nat, 2) + " "@
}

/// The first fifty bytes.
pub open spec fn leading_fifty(bytes: Seq<u8>) -> Seq<u8> {
    if bytes.len() > 50 {
        bytes.subrange(0, 50)
    } else {
        bytes
    }
}

fn bad_credit_data(
    customer_id: i32,
    customer_district: u8,
    customer_warehouse: u16,
    home_district: u8,
    home_warehouse: u16,
    amount_cents: u32,
    old_data: &[u8],
) -> (r: Vec<u8>)
    ensures
        r@ == leading_fifty(
            encode_utf8(
                credit_prefix(
                    customer_id,
                    customer_district,
                    customer_warehouse,
                    home_district,
                    home_warehouse,
                    amount_cents,
                ),
            ) + old_data@,
        ),
{
    let head = join7(
        int_text(customer_id).as_str(),
        " ",
        unsigned_text(customer_district as u64).as_str(),
        " ",
        unsigned_text(customer_warehouse as u64).as_str(),
        " ",
        unsigned_text(home_district as u64).as_str(),
    );
    let mut prefix = join6(
        head.as_str(),
        " ",
        unsigned_text(home_warehouse as u64).as_str(),
        " ",
        unsigned_text((amount_cents / 100) as u64).as_str(),
        ".",
    );
    push_fixed(&mut prefix, (amount_cents % 100) as u64, 2);
    let whole = join2(prefix.as_str(), " ");
    let mut value: Vec<u8> = Vec::new();
    push_bytes(&mut value, whole.as_str().as_bytes());
    push_bytes(&mut value, old_data);
    let ghost full = encode_utf8(whole@) + old_data@;
    assert(value@ =~= full);
    if value.len() > 50 {
        value.truncate(50);
        assert(value@ =~= full.subrange(0, 50));
    }
    value
}

/// The second batch, with what it will have done.
#[derive(Clone, Debug, PartialEq, Eq)]
pub struct StageTwo {
    pub operations: Vec<Operation>,
    pub expected_customer_data: Vec<u8>,
    pub history_data: Vec<u8>,
    pub customer_is_bad_credit: bool,
}

/// The content of a [`StageTwo`].
#[verifier::ext_equal]
pub struct PaymentWrites {
    pub operations: Seq<OperationModel>,
    pub expected_customer_data: Seq<u8>,
    pub history_data: Seq<u8>,
    pub customer_is_bad_credit: bool,
}

impl View for StageTwo {
    type V = PaymentWrites;

    open spec fn view(&self) -> PaymentWrites {
        PaymentWrites {
            operations: operation_models(self.operations@),
            expected_customer_data: self.expected_customer_data@,
            history_data: self.history_data@,
            customer_is_bad_credit: self.customer_is_bad_credit,
        }
    }
}

/// The customer's data after a Payment: as it was, or with the Payment put
/// before it where the credit is bad.
pub open spec fn data_after(
    home_warehouse: u16,
    home_district: u8,
    customer_warehouse: u16,
    customer_district: u8,
    cents: u32,
    customer: PayerModel,
) -> Seq<u8> {
    match customer.credit {
        CustomerCredit::Good => customer.data,
        CustomerCredit::Bad => leading_fifty(
            encode_utf8(
                credit_prefix(
                    customer.id,
                    customer_district,
                    customer_warehouse,
                    home_district,
                    home_warehouse,
                    cents,
                ),
            ) + customer.data,
        ),
    }
}

/// The second batch of a Payment.
pub open spec fn payment_second_batch(
    home_warehouse: u16,
    home_district: u8,
    customer_warehouse: u16,
    customer_district: u8,
    cents: u32,
    amount: u32,
    timestamp: Seq<u8>,
    found: PaymentFound,
) -> PaymentWrites {
    let data = data_after(
        home_warehouse,
        home_district,
        customer_warehouse,
        customer_district,
        cents,
        found.customer,
    );
    let history = history_of(found.warehouse_name, found.district_name);
    let w = WireModel::Int32(customer_warehouse as i32);
    let d = WireModel::Int32(customer_district as i32);
    let id = WireModel::Int32(found.customer.id);
    PaymentWrites {
        operations: seq![
            match found.customer.credit {
                CustomerCredit::Good => operation_of(
                    StatementId::PaymentUpdateGoodCustomer,
                    seq![WireModel::Float32(amount), w, d, id],
                ),
                CustomerCredit::Bad => operation_of(
                    StatementId::PaymentUpdateBadCustomer,
                    seq![WireModel::Float32(amount), WireModel::Char(data), w, d, id],
                ),
            },
            operation_of(
                StatementId::PaymentInsertHistory,
                seq![
                    id,
                    d,
                    w,
                    WireModel::Int32(home_district as i32),
                    WireModel::Int32(home_warehouse as i32),
                    WireModel::Char(timestamp),
                    WireModel::Float32(amount),
                    WireModel::Char(history),
                ],
            ),
            operation_of(StatementId::PaymentCustomerAfter, seq![w, d, id]),
            operation_of(StatementId::Commit, Seq::empty()),
        ],
        expected_customer_data: data,
        history_data: history,
        customer_is_bad_credit: found.customer.credit == CustomerCredit::Bad,
    }
}

/// Builds the second batch.
pub fn build_stage_two(
    home_warehouse: u16,
    home_district: u8,
    customer_warehouse: u16,
    customer_district: u8,
    amount_cents: u32,
    amount_bits: u32,
    timestamp: &str,
    snapshot: &PaymentSnapshot,
) -> (r: SemanticResult<StageTwo>)
    ensures
        violated(r) == history_fault(snapshot@.warehouse_name, snapshot@.district_name),
        r matches Ok(stage) ==> stage@ == payment_second_batch(
            home_warehouse,
            home_district,
            customer_warehouse,
            customer_district,
            amount_cents,
            amount_bits,
            encode_utf8(timestamp@),
            snapshot@,
        ),
{
    let history = history_data(
        snapshot.warehouse_name.as_slice(),
        snapshot.district_name.as_slice(),
    )?;
    let ghost goal = payment_second_batch(
        home_warehouse,
        home_district,
        customer_warehouse,
        customer_district,
        amount_cents,
        amount_bits,
        encode_utf8(timestamp@),
        snapshot@,
    );
    let bad = match snapshot.customer.credit {
        CustomerCredit::Good => false,
        CustomerCredit::Bad => true,
    };
    let data = if bad {
        bad_credit_data(
            snapshot.customer.id,
            customer_district,
            customer_warehouse,
            home_district,
            home_warehouse,
            amount_cents,
            snapshot.customer.data.as_slice(),
        )
    } else {
        copy_bytes(snapshot.customer.data.as_slice())
    };
    let w: i32 = customer_warehouse as i32;
    let d: i32 = customer_district as i32;
    let id: i32 = snapshot.customer.id;
    let mut operations: Vec<Operation> = Vec::new();
    if bad {
        operations.push(
            bound(
                StatementId::PaymentUpdateBadCustomer,
                vec![
                    WireValue::Float32(amount_bits),
                    WireValue::Char(copy_bytes(data.as_slice())),
                    WireValue::Int32(w),
                    WireValue::Int32(d),
                    WireValue::Int32(id),
                ],
                Ghost(goal.operations[0].parameters),
            ),
        );
    } else {
        operations.push(
            bound(
                StatementId::PaymentUpdateGoodCustomer,
                vec![
                    WireValue::Float32(amount_bits),
                    WireValue::Int32(w),
                    WireValue::Int32(d),
                    WireValue::Int32(id),
                ],
                Ghost(goal.operations[0].parameters),
            ),
        );
    }
    operations.push(
        bound(
            StatementId::PaymentInsertHistory,
            vec![
                WireValue::Int32(id),
                WireValue::Int32(d),
                WireValue::Int32(w),
                WireValue::Int32(home_district as i32),
                WireValue::Int32(home_warehouse as i32),
                WireValue::Char(copy_bytes(timestamp.as_bytes())),
                WireValue::Float32(amount_bits),
                WireValue::Char(copy_bytes(history.as_slice())),
            ],
            Ghost(goal.operations[1].parameters),
        ),
    );
    operations.push(operation(StatementId::PaymentCustomerAfter, int_triple(w, d, id)));
    operations.push(bare_operation(StatementId::Commit));
    assert(operation_models(operations@) =~= goal.operations);
    let stage = StageTwo {
        operations,
        expected_customer_data: data,
        history_data: history,
        customer_is_bad_credit: bad,
    };
    assert(stage@ =~= goal);
    Ok(stage)
}

/// A customer row after a Payment.
#[derive(Clone, Copy, Debug, PartialEq, Eq, Structural)]
pub struct CustomerAfter {
    pub balance_bits: u32,
    pub ytd_payment_bits: u32,
    pub payment_count: i32,
    pub delivery_count: i32,
}

/// Why the amounts of the customer row are refused after a Payment.
pub open spec fn payer_amounts_fault(
    row: Seq<WireModel>,
    amount: u32,
    customer: PayerModel,
) -> Option<Violation> {
    let c = "Payment customer after"@;
    first(
        columns_fault(row, 5, c),
        first(
            f32_fault(row, 0, c),
            first(
                f32_fault(row, 1, c),
                first(
                    f32_sub_fault(customer.balance_bits, amount),
                    first(
                        f32_mismatch_fault(
                            difference(customer.balance_bits, amount)->0,
                            f32_at(row, 0),
                            "Payment customer.c_balance"@,
                            "subtraction"@,
                        ),
                        first(
                            f32_add_fault(customer.ytd_payment_bits, amount),
                            f32_mismatch_fault(
                                sum(customer.ytd_payment_bits, amount)->0,
                                f32_at(row, 1),
                                "Payment customer.c_ytd_payment"@,
                                "addition"@,
                            ),
                        ),
                    ),
                ),
            ),
        ),
    )
}

/// Why the counters and data of the customer row are refused after a Payment.
pub open spec fn payer_counters_fault(
    row: Seq<WireModel>,
    customer: PayerModel,
    data: Seq<u8>,
) -> Option<Violation> {
    let c = "Payment customer after"@;
    first(
        violates(customer.payment_count == i32::MAX, "Payment c_payment_cnt overflow"@),
        first(
            int32_fault(row, 2, c),
            first(
                violates(
                    int32_at(row, 2) != customer.payment_count + 1,
                    "Payment customer.c_payment_cnt mismatch: expected "@ + signed_decimal(
                        customer.payment_count + 1,
                    ) + ", got "@ + signed_decimal(int32_at(row, 2) as int),
                ),
                first(
                    int32_fault(row, 3, c),
                    first(
                        violates(
                            int32_at(row, 3) != customer.delivery_count,
                            "Payment customer.c_delivery_cnt changed from "@ + signed_decimal(
                                customer.delivery_count as int,
                            ) + " to "@ + signed_decimal(int32_at(row, 3) as int),
                        ),
                        first(
                            char_fault(row, 4, c),
                            violates(
                                char_at(row, 4) != data,
                                "Payment customer.c_data mismatch: expected "@ + decimal(
                                    data.len(),
                                ) + " bytes, got "@ + decimal(char_at(row, 4).len())
                                    + " bytes"@,
                            ),
                        ),
                    ),
                ),
            ),
        ),
    )
}

/// Why the results of the second batch are refused.
pub open spec fn payment_second_fault(
    results: Seq<Option<Seq<Seq<WireModel>>>>,
    amount: u32,
    customer: PayerModel,
    data: Seq<u8>,
) -> Option<Violation> {
    let row = single_row_of(results, 2);
    first(
        single_row_fault(results, 2),
        first(
            payer_amounts_fault(row, amount, customer),
            payer_counters_fault(row, customer, data),
        ),
    )
}

/// Checks what the second batch returned.
pub fn validate_stage_two(
    results: &BatchResults,
    amount_bits: u32,
    snapshot: &PaymentSnapshot,
    expected_customer_data: &[u8],
) -> (r: SemanticResult<CustomerAfter>)
    ensures
        violated(r) == payment_second_fault(
            results@,
            amount_bits,
            snapshot@.customer,
            expected_customer_data@,
        ),
        r matches Ok(after) ==> after == (CustomerAfter {
            balance_bits: f32_at(single_row_of(results@, 2), 0),
            ytd_payment_bits: f32_at(single_row_of(results@, 2), 1),
            payment_count: int32_at(single_row_of(results@, 2), 2),
            delivery_count: int32_at(single_row_of(results@, 2), 3),
        }),
{
    let c = "Payment customer after";
    let customer = &snapshot.customer;
    let row = results.single_row(STAGE_TWO_CUSTOMER_AFTER)?;
    require_columns(row, 5, c)?;
    let balance_bits: u32 = row_f32_bits(row, 0, c)?;
    let ytd_payment_bits: u32 = row_f32_bits(row, 1, c)?;
    expect_f32_sub(
        customer.balance_bits,
        amount_bits,
        balance_bits,
        "Payment customer.c_balance",
    )?;
    expect_f32_add(
        customer.ytd_payment_bits,
        amount_bits,
        ytd_payment_bits,
        "Payment customer.c_ytd_payment",
    )?;
    let expected_count: i32 = match customer.payment_count.checked_add(1) {
        Some(count) => count,
        None => {
            return Err(SemanticViolation::new("Payment c_payment_cnt overflow"));
        },
    };
    let payment_count: i32 = row_int32(row, 2, c)?;
    if payment_count != expected_count {
        return Err(
            SemanticViolation::of(
                join4(
                    "Payment customer.c_payment_cnt mismatch: expected ",
                    int_text(expected_count).as_str(),
                    ", got ",
                    int_text(payment_count).as_str(),
                ),
            ),
        );
    }
    let delivery_count: i32 = row_int32(row, 3, c)?;
    if delivery_count != customer.delivery_count {
        return Err(
            SemanticViolation::of(
                join4(
                    "Payment customer.c_delivery_cnt changed from ",
                    int_text(customer.delivery_count).as_str(),
                    " to ",
                    int_text(delivery_count).as_str(),
                ),
            ),
        );
    }
    let data = row_char(row, 4, c)?;
    if !bytes_agree(data, expected_customer_data) {
        return Err(
            SemanticViolation::of(
                join5(
                    "Payment customer.c_data mismatch: expected ",
                    unsigned_text(expected_customer_data.len() as u64).as_str(),
                    " bytes, got ",
                    unsigned_text(data.len() as u64).as_str(),
                    " bytes",
                ),
            ),
        );
    }
    Ok(CustomerAfter { balance_bits, ytd_payment_bits, payment_count, delivery_count })
}

/// Whether evidence says what a Payment has done.
pub open spec fn is_payment_evidence(
    e: PaymentEvidence,
    route: RoutedTransaction,
    input: PaymentInput,
    timestamp: Seq<u8>,
    found: PaymentFound,
    writes: PaymentWrites,
    after: CustomerAfter,
) -> bool {
    &&& e.warehouse_id == route.home_warehouse
    &&& e.district_id == route.home_district
    &&& e.customer_warehouse_id == input.customer_warehouse
    &&& e.customer_district_id == input.customer_district
    &&& e.customer_id == found.customer.id
    &&& e.amount_bits == input.amount_bits
    &&& e.warehouse_before_bits == found.warehouse_before_bits
    &&& e.warehouse_after_bits == found.warehouse_after_bits
    &&& e.district_before_bits == found.district_before_bits
    &&& e.district_after_bits == found.district_after_bits
    &&& e.customer_balance_before_bits == found.customer.balance_bits
    &&& e.customer_balance_after_bits == after.balance_bits
    &&& e.customer_ytd_before_bits == found.customer.ytd_payment_bits
    &&& e.customer_ytd_after_bits == after.ytd_payment_bits
    &&& e.customer_version_before == (CustomerVersion {
        payment_count: found.customer.payment_count,
        delivery_count: found.customer.delivery_count,
    })
    &&& e.customer_version_after == (CustomerVersion {
        payment_count: after.payment_count,
        delivery_count: after.delivery_count,
    })
    &&& e.history_timestamp@ == timestamp
    &&& e.history_data@ == writes.history_data
    &&& e.customer_is_bad_credit == writes.customer_is_bad_credit
    &&& e.customer_data_before@ == found.customer.data
    &&& e.customer_data_after@ == writes.expected_customer_data
}

/// What a Payment whose second batch went through has done.
pub fn payment_outcome(
    route: &RoutedTransaction,
    input: &PaymentInput,
    timestamp: &str,
    snapshot: PaymentSnapshot,
    stage_two: StageTwo,
    after: CustomerAfter,
) -> (r: RankedTransactionOutcome)
    ensures
        r matches RankedTransactionOutcome::Committed(RankedCommit::Payment(e))
            && is_payment_evidence(
            e,
            *route,
            *input,
            encode_utf8(timestamp@),
            snapshot@,
            stage_two@,
            after,
        ),
{
    let customer = snapshot.customer;
    RankedTransactionOutcome::Committed(
        RankedCommit::Payment(
            PaymentEvidence {
                warehouse_id: route.home_warehouse,
                district_id: route.home_district,
                customer_warehouse_id: input.customer_warehouse,
                customer_district_id: input.customer_district,
                customer_id: customer.id,
                amount_bits: input.amount_bits,
                warehouse_before_bits: snapshot.warehouse_before_bits,
                warehouse_after_bits: snapshot.warehouse_after_bits,
                district_before_bits: snapshot.district_before_bits,
                district_after_bits: snapshot.district_after_bits,
                customer_balance_before_bits: customer.balance_bits,
                customer_balance_after_bits: after.balance_bits,
                customer_ytd_before_bits: customer.ytd_payment_bits,
                customer_ytd_after_bits: after.ytd_payment_bits,
                customer_version_before: CustomerVersion {
                    payment_count: customer.payment_count,
                    delivery_count: customer.delivery_count,
                },
                customer_version_after: CustomerVersion {
                    payment_count: after.payment_count,
                    delivery_count: after.delivery_count,
                },
                history_timestamp: copy_bytes(timestamp.as_bytes()),
                history_data: stage_two.history_data,
                customer_is_bad_credit: stage_two.customer_is_bad_credit,
                customer_data_before: customer.data,
                customer_data_after: stage_two.expected_customer_data,
            },
        ),
    )
}

} // verus!
