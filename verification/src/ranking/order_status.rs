//! OrderStatus: the customer, the latest order and its lines, in three batches.
use vstd::prelude::*;

use crate::checks::first;
use crate::profile::ITEM_COUNT;
use crate::ranking::common::{
    BatchResults, SemanticResult, SemanticViolation, Violation, char_at, char_fault,
    customer_lower_median, f32_fault, int32_at, int32_fault, operation, operation_of, row_char,
    row_f32_bits, row_int32, rows_fault, single_row_fault, single_row_of, violated, violates,
};
use crate::ranking::delivery_locks::int_scalar_fault;
use crate::ranking::new_order::{bare_operation, int_triple};
use crate::ranking::payment::{bytes_before, is_before};
use crate::ranking::row_checks::{
    bytes_agree, char_range_fault, columns_fault, copy_bytes, int_text, require_char_range,
    require_columns,
};
use crate::ranking::statement_id::StatementId;
use crate::text::{decimal, join2, join3, join4, join5, join7, signed_decimal, unsigned_text};
use crate::wire::{
    Operation, OperationModel, WireModel, WireValue, operation_models, row_model, rows_model,
};
use crate::workload::{
    CUSTOMERS_PER_DISTRICT, CustomerSelector, MAX_ORDER_LINES, MIN_ORDER_LINES, OrderStatusInput,
    RoutedTransaction,
};

verus! {

pub const CUSTOMER_QUERY_OPERATION: usize = 1;

pub const LATEST_ORDER_QUERY_OPERATION: usize = 0;

pub const ORDER_QUERY_OPERATION: usize = 0;

pub const LINES_QUERY_OPERATION: usize = 1;

/// Why a number is refused: it is out of its range.
pub open spec fn outside_fault(label: Seq<char>, n: int, low: nat, high: nat) -> Option<Violation> {
    violates(
        !(low <= n <= high),
        label + " "@ + signed_decimal(n) + " is outside "@ + decimal(low) + "..="@ + decimal(high),
    )
}

fn require_inside(label: &str, n: i32, low: u32, high: u32) -> (r: SemanticResult<()>)
    ensures
        violated(r) == outside_fault(label@, n as int, low as nat, high as nat),
{
    if (n as i64) < low as i64 || n as i64 > high as i64 {
        return Err(
            SemanticViolation::of(
                join7(
                    label,
                    " ",
                    int_text(n).as_str(),
                    " is outside ",
                    unsigned_text(low as u64).as_str(),
                    "..=",
                    unsigned_text(high as u64).as_str(),
                ),
            ),
        );
    }
    Ok(())
}

/// Why the home of an OrderStatus is refused.
pub open spec fn partition_fault(route: RoutedTransaction) -> Option<Violation> {
    first(
        outside_fault("OrderStatus warehouse"@, route.home_warehouse as int, 1, 50),
        outside_fault("OrderStatus district"@, route.home_district as int, 1, 10),
    )
}

/// Checks the home of an OrderStatus.
pub fn validate_partition(route: &RoutedTransaction) -> (r: SemanticResult<()>)
    ensures
        violated(r) == partition_fault(*route),
{
    require_inside("OrderStatus warehouse", route.home_warehouse as i32, 1, 50)?;
    require_inside("OrderStatus district", route.home_district as i32, 1, 10)
}

/// Why a customer id is refused.
pub open spec fn customer_id_fault(id: int) -> Option<Violation> {
    outside_fault("OrderStatus customer id"@, id, 1, 3_000)
}

/// Why the selection of a customer is refused.
pub open spec fn status_selector_fault(selector: CustomerSelector) -> Option<Violation> {
    match selector {
        CustomerSelector::Id(id) => customer_id_fault(id as int),
        CustomerSelector::LastName(name) => char_range_fault(
            name.bytes@,
            1,
            16,
            "OrderStatus selected customer last name"@,
        ),
    }
}

/// The lookup of a customer.
pub open spec fn status_lookup(route: RoutedTransaction, selector: CustomerSelector) -> OperationModel {
    match selector {
        CustomerSelector::Id(id) => operation_of(
            StatementId::OrderStatusCustomerById,
            seq![
                WireModel::Int32(route.home_warehouse as i32),
                WireModel::Int32(route.home_district as i32),
                WireModel::Int32(id as i32),
            ],
        ),
        CustomerSelector::LastName(name) => operation_of(
            StatementId::OrderStatusCustomerByLast,
            seq![
                WireModel::Int32(route.home_warehouse as i32),
                WireModel::Int32(route.home_district as i32),
                WireModel::Char(name.bytes@),
            ],
        ),
    }
}

fn validate_customer_id(id: i32) -> (r: SemanticResult<()>)
    ensures
        violated(r) == customer_id_fault(id as int),
{
    require_inside("OrderStatus customer id", id, 1, CUSTOMERS_PER_DISTRICT as u32)
}

/// Builds the lookup of the customer, addressed by its full key.
pub fn customer_lookup_operation(route: &RoutedTransaction, input: &OrderStatusInput) -> (r:
    SemanticResult<Operation>)
    ensures
        violated(r) == status_selector_fault(input.customer),
        r matches Ok(o) ==> o@ == status_lookup(*route, input.customer),
{
    let w: i32 = route.home_warehouse as i32;
    let d: i32 = route.home_district as i32;
    match &input.customer {
        CustomerSelector::Id(id) => {
            validate_customer_id(*id as i32)?;
            Ok(operation(StatementId::OrderStatusCustomerById, int_triple(w, d, *id as i32)))
        },
        CustomerSelector::LastName(name) => {
            require_char_range(
                name.bytes.as_slice(),
                1,
                16,
                "OrderStatus selected customer last name",
            )?;
            let parameters = vec![
                WireValue::Int32(w),
                WireValue::Int32(d),
                WireValue::Char(copy_bytes(name.bytes.as_slice())),
            ];
            assert(row_model(parameters@) =~= status_lookup(*route, input.customer).parameters);
            Ok(operation(StatementId::OrderStatusCustomerByLast, parameters))
        },
    }
}

/// Builds the first batch: the customer.
pub fn stage_one_operations(route: &RoutedTransaction, input: &OrderStatusInput) -> (r:
    SemanticResult<Vec<Operation>>)
    ensures
        violated(r) == first(partition_fault(*route), status_selector_fault(input.customer)),
        r matches Ok(operations) ==> operation_models(operations@) == seq![
            operation_of(StatementId::Begin, Seq::empty()),
            status_lookup(*route, input.customer),
        ],
{
    validate_partition(route)?;
    let lookup = customer_lookup_operation(route, input)?;
    let operations = vec![bare_operation(StatementId::Begin), lookup];
    assert(operation_models(operations@) =~= seq![
        operation_of(StatementId::Begin, Seq::empty()),
        status_lookup(*route, input.customer),
    ]);
    Ok(operations)
}

/// The key of a row within its district.
pub open spec fn partition_key(route: RoutedTransaction, id: i32) -> Seq<WireModel> {
    seq![
        WireModel::Int32(route.home_warehouse as i32),
        WireModel::Int32(route.home_district as i32),
        WireModel::Int32(id),
    ]
}

/// Builds the second batch: the latest order of the customer.
pub fn stage_two_operations(route: &RoutedTransaction, customer_id: i32) -> (r: Vec<Operation>)
    ensures
        operation_models(r@) == seq![
            operation_of(StatementId::OrderStatusLatestOrder, partition_key(*route, customer_id)),
        ],
{
    let key = int_triple(route.home_warehouse as i32, route.home_district as i32, customer_id);
    let operations = vec![operation(StatementId::OrderStatusLatestOrder, key)];
    assert(operation_models(operations@) =~= seq![
        operation_of(StatementId::OrderStatusLatestOrder, partition_key(*route, customer_id)),
    ]);
    operations
}

/// Builds the third batch: the order, its lines and the commit.
pub fn stage_three_operations(route: &RoutedTransaction, order_id: i32) -> (r: Vec<Operation>)
    ensures
        operation_models(r@) == seq![
            operation_of(StatementId::OrderStatusOrder, partition_key(*route, order_id)),
            operation_of(StatementId::OrderStatusLines, partition_key(*route, order_id)),
            operation_of(StatementId::Commit, Seq::empty()),
        ],
{
    let w: i32 = route.home_warehouse as i32;
    let d: i32 = route.home_district as i32;
    let operations = vec![
        operation(StatementId::OrderStatusOrder, int_triple(w, d, order_id)),
        operation(StatementId::OrderStatusLines, int_triple(w, d, order_id)),
        bare_operation(StatementId::Commit),
    ];
    assert(operation_models(operations@) =~= seq![
        operation_of(StatementId::OrderStatusOrder, partition_key(*route, order_id)),
        operation_of(StatementId::OrderStatusLines, partition_key(*route, order_id)),
        operation_of(StatementId::Commit, Seq::empty()),
    ]);
    operations
}

/// Why the customer row at `index` is refused.
pub open spec fn status_row_fault(
    row: Seq<WireModel>,
    selector: CustomerSelector,
    index: int,
) -> Option<Violation> {
    let c = "OrderStatus customer row "@ + decimal(index as nat);
    first(
        columns_fault(row, 5, c),
        first(
            int32_fault(row, 0, c),
            first(
                customer_id_fault(int32_at(row, 0) as int),
                first(
                    f32_fault(row, 1, c),
                    first(
                        char_fault(row, 2, c),
                        first(
                            char_fault(row, 3, c),
                            first(char_fault(row, 4, c), status_names_fault(row, selector, c)),
                        ),
                    ),
                ),
            ),
        ),
    )
}

/// Why the names of a customer row are refused.
pub open spec fn status_names_fault(
    row: Seq<WireModel>,
    selector: CustomerSelector,
    context: Seq<char>,
) -> Option<Violation> {
    first(
        char_range_fault(char_at(row, 2), 1, 16, context + " c_first"@),
        first(
            char_range_fault(char_at(row, 3), 1, 2, context + " c_middle"@),
            first(
                char_range_fault(char_at(row, 4), 1, 16, context + " c_last"@),
                match selector {
                    CustomerSelector::Id(_) => None,
                    CustomerSelector::LastName(name) => violates(
                        char_at(row, 4) != name.bytes@,
                        context + " c_last does not match the selected surname"@,
                    ),
                },
            ),
        ),
    )
}

/// Why the customer rows from `i` on are refused.
pub open spec fn status_rows_fault(
    rows: Seq<Seq<WireModel>>,
    selector: CustomerSelector,
    i: int,
) -> Option<Violation>
    decreases rows.len() - i,
{
    if i >= rows.len() {
        None
    } else {
        first(
            status_row_fault(rows[i], selector, i),
            status_rows_fault(rows, selector, i + 1),
        )
    }
}

/// Whether one customer row comes strictly before another: by first name, then
/// by id.
pub open spec fn row_before(a: Seq<WireModel>, b: Seq<WireModel>) -> bool {
    bytes_before(char_at(a, 2), char_at(b, 2)) || (char_at(a, 2) == char_at(b, 2) && int32_at(a, 0)
        < int32_at(b, 0))
}

/// Whether customer rows are strictly ordered.
pub open spec fn rows_ordered(rows: Seq<Seq<WireModel>>) -> bool {
    forall|i: int| 0 <= i < rows.len() - 1 ==> #[trigger] row_before(rows[i], rows[i + 1])
}

/// Why the selection among customer rows is refused.
pub open spec fn status_selection_fault(
    rows: Seq<Seq<WireModel>>,
    selector: CustomerSelector,
) -> Option<Violation> {
    match selector {
        CustomerSelector::Id(id) => first(
            violates(
                rows.len() != 1,
                "OrderStatus customer-id lookup returned "@ + decimal(rows.len())
                    + " rows; expected exactly one"@,
            ),
            violates(
                int32_at(rows[0], 0) != id,
                "OrderStatus customer-id lookup returned "@ + signed_decimal(
                    int32_at(rows[0], 0) as int,
                ) + ", expected "@ + decimal(id as nat),
            ),
        ),
        CustomerSelector::LastName(_) => first(
            violates(
                !rows_ordered(rows),
                "OrderStatus surname rows are not strictly ordered by (c_first, c_id)"@,
            ),
            violates(rows.len() == 0, "customer surname lookup returned no rows"@),
        ),
    }
}

/// Why customer rows are refused.
pub open spec fn status_customer_fault(
    rows: Seq<Seq<WireModel>>,
    selector: CustomerSelector,
) -> Option<Violation> {
    first(status_rows_fault(rows, selector, 0), status_selection_fault(rows, selector))
}

/// The selected customer: the only row, or the lower median.
pub open spec fn selected_customer(rows: Seq<Seq<WireModel>>, selector: CustomerSelector) -> i32 {
    match selector {
        CustomerSelector::Id(id) => id as i32,
        CustomerSelector::LastName(_) => int32_at(rows[(rows.len() - 1) / 2], 0),
    }
}

/// A customer that was found.
#[derive(Clone, Debug, PartialEq, Eq)]
pub struct CustomerMatch {
    pub id: i32,
    pub first: Vec<u8>,
}

fn parse_customer_row(selector: &CustomerSelector, row: &[WireValue], row_index: usize) -> (r:
    SemanticResult<CustomerMatch>)
    ensures
        violated(r) == status_row_fault(row_model(row@), *selector, row_index as int),
        r matches Ok(found) ==> found.id == int32_at(row_model(row@), 0) && found.first@ == char_at(
            row_model(row@),
            2,
        ),
{
    let named = join2("OrderStatus customer row ", unsigned_text(row_index as u64).as_str());
    let c = named.as_str();
    require_columns(row, 5, c)?;
    let id: i32 = row_int32(row, 0, c)?;
    validate_customer_id(id)?;
    let _balance_bits: u32 = row_f32_bits(row, 1, c)?;
    let first_name = row_char(row, 2, c)?;
    let middle = row_char(row, 3, c)?;
    let last = row_char(row, 4, c)?;
    require_char_range(first_name, 1, 16, join2(c, " c_first").as_str())?;
    require_char_range(middle, 1, 2, join2(c, " c_middle").as_str())?;
    require_char_range(last, 1, 16, join2(c, " c_last").as_str())?;
    if let CustomerSelector::LastName(expected) = selector {
        if !bytes_agree(last, expected.bytes.as_slice()) {
            return Err(
                SemanticViolation::of(join2(c, " c_last does not match the selected surname")),
            );
        }
    }
    Ok(CustomerMatch { id, first: copy_bytes(first_name) })
}

/// The matches are those of the rows.
spec fn matches_rows(found: Seq<CustomerMatch>, rows: Seq<Seq<WireModel>>) -> bool {
    forall|i: int|
        0 <= i < found.len() ==> (#[trigger] found[i]).id == int32_at(rows[i], 0)
            && found[i].first@ == char_at(rows[i], 2)
}

fn are_ordered(found: &Vec<CustomerMatch>, Ghost(rows): Ghost<Seq<Seq<WireModel>>>) -> (r: bool)
    requires
        found@.len() == rows.len(),
        matches_rows(found@, rows),
    ensures
        r == rows_ordered(rows),
{
    let mut i: usize = 1;
    while i < found.len()
        invariant
            1 <= i,
            i <= found@.len() || found@.len() == 0,
            found@.len() == rows.len(),
            matches_rows(found@, rows),
            forall|k: int| 0 <= k < i - 1 && k < rows.len() - 1 ==> #[trigger] row_before(rows[k], rows[k + 1]),
        decreases found@.len() - i,
    {
        let before = is_before(found[i - 1].first.as_slice(), found[i].first.as_slice());
        let same = bytes_agree(found[i - 1].first.as_slice(), found[i].first.as_slice());
        if !(before || (same && found[i - 1].id < found[i].id)) {
            assert(!row_before(rows[i - 1], rows[i - 1 + 1]));
            return false;
        }
        i = i + 1;
    }
    true
}

/// Selects the customer: by id the only row, by surname the lower median.
pub fn select_customer_id(selector: &CustomerSelector, rows: SemanticResult<&[Vec<WireValue>]>) -> (r:
    SemanticResult<i32>)
    ensures
        violated(r) == match rows {
            Ok(list) => status_customer_fault(rows_model(list@), *selector),
            Err(error) => Some(error@),
        },
        r matches Ok(id) ==> id == selected_customer(rows_model(rows->Ok_0@), *selector),
{
    let ghost given = rows;
    let list = rows?;
    let ghost models = rows_model(list@);
    let mut found: Vec<CustomerMatch> = Vec::new();
    let mut i: usize = 0;
    while i < list.len()
        invariant
            i <= list@.len(),
            given == Ok::<&[Vec<WireValue>], SemanticViolation>(list),
            given == rows,
            models == rows_model(list@),
            found@.len() == i,
            matches_rows(found@, models),
            status_rows_fault(models, *selector, 0) == status_rows_fault(
                models,
                *selector,
                i as int,
            ),
        decreases list@.len() - i,
    {
        assert(models[i as int] == row_model(list@[i as int]@));
        found.push(parse_customer_row(selector, list[i].as_slice(), i)?);
        i = i + 1;
    }
    match selector {
        CustomerSelector::Id(expected) => {
            if found.len() != 1 {
                return Err(
                    SemanticViolation::of(
                        join3(
                            "OrderStatus customer-id lookup returned ",
                            unsigned_text(found.len() as u64).as_str(),
                            " rows; expected exactly one",
                        ),
                    ),
                );
            }
            let id: i32 = found[0].id;
            if id != *expected as i32 {
                return Err(
                    SemanticViolation::of(
                        join4(
                            "OrderStatus customer-id lookup returned ",
                            int_text(id).as_str(),
                            ", expected ",
                            unsigned_text(*expected as u64).as_str(),
                        ),
                    ),
                );
            }
            Ok(id)
        },
        CustomerSelector::LastName(_) => {
            if !are_ordered(&found, Ghost(models)) {
                return Err(
                    SemanticViolation::new(
                        "OrderStatus surname rows are not strictly ordered by (c_first, c_id)",
                    ),
                );
            }
            let median = customer_lower_median(found.as_slice())?;
            Ok(median.id)
        },
    }
}

/// Why the latest order is refused.
pub open spec fn latest_order_fault(
    results: Seq<Option<Seq<Seq<WireModel>>>>,
    index: int,
) -> Option<Violation> {
    let id = int32_at(single_row_of(results, index), 0);
    first(
        int_scalar_fault(results, index),
        violates(
            id <= 0,
            "OrderStatus latest order id "@ + signed_decimal(id as int) + " must be positive"@,
        ),
    )
}

/// Reads the latest order.
pub fn latest_order_id(results: &BatchResults, operation_index: usize) -> (r: SemanticResult<i32>)
    ensures
        violated(r) == latest_order_fault(results@, operation_index as int),
        r matches Ok(id) ==> id == int32_at(single_row_of(results@, operation_index as int), 0),
{
    let order_id: i32 = results.single_int32(operation_index)?;
    if order_id <= 0 {
        return Err(
            SemanticViolation::of(
                join3(
                    "OrderStatus latest order id ",
                    int_text(order_id).as_str(),
                    " must be positive",
                ),
            ),
        );
    }
    Ok(order_id)
}

/// Why the row of an order is refused.
pub open spec fn status_order_fault(row: Seq<WireModel>, expected: i32) -> Option<Violation> {
    let c = "OrderStatus order row"@;
    first(
        columns_fault(row, 3, c),
        first(
            int32_fault(row, 0, c),
            first(
                violates(
                    int32_at(row, 0) != expected,
                    "OrderStatus order row id "@ + signed_decimal(int32_at(row, 0) as int)
                        + " does not match latest order "@ + signed_decimal(expected as int),
                ),
                first(
                    char_fault(row, 1, c),
                    first(
                        char_range_fault(char_at(row, 1), 1, 30, "OrderStatus o_entry_d"@),
                        first(
                            int32_fault(row, 2, c),
                            outside_fault(
                                "OrderStatus carrier id"@,
                                int32_at(row, 2) as int,
                                0,
                                10,
                            ),
                        ),
                    ),
                ),
            ),
        ),
    )
}

/// Checks the row of an order.
pub fn validate_order(row: &[WireValue], expected_order_id: i32) -> (r: SemanticResult<()>)
    ensures
        violated(r) == status_order_fault(row_model(row@), expected_order_id),
{
    let c = "OrderStatus order row";
    require_columns(row, 3, c)?;
    let order_id: i32 = row_int32(row, 0, c)?;
    if order_id != expected_order_id {
        return Err(
            SemanticViolation::of(
                join4(
                    "OrderStatus order row id ",
                    int_text(order_id).as_str(),
                    " does not match latest order ",
                    int_text(expected_order_id).as_str(),
                ),
            ),
        );
    }
    let entry = row_char(row, 1, c)?;
    require_char_range(entry, 1, 30, "OrderStatus o_entry_d")?;
    let carrier_id: i32 = row_int32(row, 2, c)?;
    require_inside("OrderStatus carrier id", carrier_id, 0, 10)
}

/// Why the line row at `index` is refused.
pub open spec fn status_line_fault(row: Seq<WireModel>, index: int) -> Option<Violation> {
    let c = "OrderStatus line row "@ + decimal(index as nat);
    first(
        columns_fault(row, 6, c),
        first(
            int32_fault(row, 0, c),
            first(
                violates(
                    int32_at(row, 0) != index + 1,
                    c + " has ol_number "@ + signed_decimal(int32_at(row, 0) as int)
                        + ", expected "@ + decimal((index + 1) as nat),
                ),
                first(
                    int32_fault(row, 1, c),
                    first(
                        outside_fault(c + " item id"@, int32_at(row, 1) as int, 1, 100_000),
                        status_line_rest_fault(row, c),
                    ),
                ),
            ),
        ),
    )
}

/// Why the supply, quantity, amount or delivery of a line row is refused.
pub open spec fn status_line_rest_fault(row: Seq<WireModel>, c: Seq<char>) -> Option<Violation> {
    first(
        int32_fault(row, 2, c),
        first(
            outside_fault(c + " supply warehouse"@, int32_at(row, 2) as int, 1, 50),
            first(
                int32_fault(row, 3, c),
                first(
                    outside_fault(c + " quantity"@, int32_at(row, 3) as int, 1, 10),
                    first(
                        f32_fault(row, 4, c),
                        first(
                            char_fault(row, 5, c),
                            violates(
                                char_at(row, 5).len() > 30,
                                c + " delivery timestamp is "@ + decimal(char_at(row, 5).len())
                                    + " bytes; maximum is 30"@,
                            ),
                        ),
                    ),
                ),
            ),
        ),
    )
}

/// Why the line rows from `i` on are refused.
pub open spec fn status_lines_from(rows: Seq<Seq<WireModel>>, i: int) -> Option<Violation>
    decreases rows.len() - i,
{
    if i >= rows.len() {
        None
    } else {
        first(status_line_fault(rows[i], i), status_lines_from(rows, i + 1))
    }
}

/// Why line rows are refused.
pub open spec fn status_lines_fault(rows: Seq<Seq<WireModel>>) -> Option<Violation> {
    first(
        violates(
            !(5 <= rows.len() <= 15),
            "OrderStatus returned "@ + decimal(rows.len()) + " order lines; expected 5..=15"@,
        ),
        status_lines_from(rows, 0),
    )
}

fn validate_line(row: &[WireValue], index: usize) -> (r: SemanticResult<()>)
    requires
        index < 15,
    ensures
        violated(r) == status_line_fault(row_model(row@), index as int),
{
    let named = join2("OrderStatus line row ", unsigned_text(index as u64).as_str());
    let c = named.as_str();
    require_columns(row, 6, c)?;
    let line_number: i32 = row_int32(row, 0, c)?;
    if line_number != index as i32 + 1 {
        return Err(
            SemanticViolation::of(
                join5(
                    c,
                    " has ol_number ",
                    int_text(line_number).as_str(),
                    ", expected ",
                    unsigned_text(index as u64 + 1).as_str(),
                ),
            ),
        );
    }
    let item_id: i32 = row_int32(row, 1, c)?;
    require_inside(join2(c, " item id").as_str(), item_id, 1, ITEM_COUNT)?;
    let supply_warehouse: i32 = row_int32(row, 2, c)?;
    require_inside(join2(c, " supply warehouse").as_str(), supply_warehouse, 1, 50)?;
    let quantity: i32 = row_int32(row, 3, c)?;
    require_inside(join2(c, " quantity").as_str(), quantity, 1, 10)?;
    let _amount_bits: u32 = row_f32_bits(row, 4, c)?;
    let delivery = row_char(row, 5, c)?;
    if delivery.len() > 30 {
        return Err(
            SemanticViolation::of(
                join4(
                    c,
                    " delivery timestamp is ",
                    unsigned_text(delivery.len() as u64).as_str(),
                    " bytes; maximum is 30",
                ),
            ),
        );
    }
    Ok(())
}

/// Checks the lines of an order: their number, sequence and values.
pub fn validate_lines(rows: &[Vec<WireValue>]) -> (r: SemanticResult<()>)
    ensures
        violated(r) == status_lines_fault(rows_model(rows@)),
{
    let ghost models = rows_model(rows@);
    if rows.len() < MIN_ORDER_LINES as usize || rows.len() > MAX_ORDER_LINES as usize {
        return Err(
            SemanticViolation::of(
                join3(
                    "OrderStatus returned ",
                    unsigned_text(rows.len() as u64).as_str(),
                    " order lines; expected 5..=15",
                ),
            ),
        );
    }
    let mut i: usize = 0;
    while i < rows.len()
        invariant
            i <= rows@.len(),
            5 <= rows@.len() <= 15,
            models == rows_model(rows@),
            status_lines_from(models, 0) == status_lines_from(models, i as int),
        decreases rows@.len() - i,
    {
        assert(models[i as int] == row_model(rows@[i as int]@));
        validate_line(rows[i].as_slice(), i)?;
        i = i + 1;
    }
    Ok(())
}

/// Checks the order and lines that the third batch read. The batch has
/// committed, so a violation is final.
pub fn validate_final_results(
    results: &BatchResults,
    order_operation: usize,
    lines_operation: usize,
    expected_order_id: i32,
) -> (r: SemanticResult<()>)
    ensures
        violated(r) == first(
            single_row_fault(results@, order_operation as int),
            first(
                status_order_fault(
                    single_row_of(results@, order_operation as int),
                    expected_order_id,
                ),
                first(
                    rows_fault(results@, lines_operation as int),
                    status_lines_fault(results@[lines_operation as int]->0),
                ),
            ),
        ),
{
    validate_order(results.single_row(order_operation)?, expected_order_id)?;
    validate_lines(results.rows(lines_operation)?)
}

} // verus!
