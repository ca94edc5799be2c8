//! What a Payment leaves in the tables.
use vstd::prelude::*;

use crate::ranking::common::{
    char_at, f32_at, int32_at, response_rows, single_row_fault, single_row_of,
};
use crate::ranking::flow::FlowNext;
use crate::ranking::new_order_rows::good_credit;
use crate::ranking::payment::{
    CustomerCredit, PayerModel, PaymentFound, PaymentWrites, is_payment_evidence, median_payer,
    name_gap, ordered_payers, payer_of, payment_first_batch, payment_first_fault,
    payment_first_found, payment_second_batch, surname_fault,
};
use crate::ranking::payment_flow::{PaymentCourse, payment_batch, payment_next};
use crate::ranking::payment_law::{law_payers_are_in_order, payers_of};
use crate::ranking::runner::PaymentEvidence;
use crate::ranking::statement_id::StatementId;
use crate::ranking::store_model::{
    Connection, CustomerRow, DistrictRow, HistoryRow, Store, WarehouseRow, changed, chars, effect,
    effects, executed_all, float, float_difference, float_sum, lemma_begun_batch,
    lemma_effects_prefix, lemma_ended_batch, lemma_no_effect, lemma_payment_effect,
    lemma_payment_reads, lemma_pays_district, lemma_pays_warehouse, number, row_after_payment,
    runs, stays_open,
};
use crate::ranking::store_queries::{
    answers_at, is_payer_named, lemma_payment_query, payer_cells, payers_named, queried,
};
use crate::wire::{BatchResponse, OperationModel, WireModel};
use crate::workload::{CustomerSelector, PaymentInput, RoutedTransaction};

verus! {

/// The warehouse row that a Payment leaves.
pub open spec fn warehouse_paid(row: WarehouseRow, amount: u32) -> WarehouseRow {
    WarehouseRow { w_ytd: float_sum(row.w_ytd, amount), ..row }
}

/// The district row that a Payment leaves.
pub open spec fn district_paid(row: DistrictRow, amount: u32) -> DistrictRow {
    DistrictRow { d_ytd: float_sum(row.d_ytd, amount), ..row }
}

/// The first batch of a Payment.
spec fn first_ops(route: RoutedTransaction, input: PaymentInput) -> Seq<OperationModel> {
    payment_first_batch(
        route.home_warehouse,
        route.home_district,
        input.customer_warehouse,
        input.customer_district,
        input.customer,
        input.amount_bits,
    )
}

/// The tables after each operation of the first batch.
proof fn lemma_first_effects(
    s: Store,
    route: RoutedTransaction,
    input: PaymentInput,
)
    ensures
        ({
            let ops = first_ops(route, input);
            let w = route.home_warehouse as int;
            let d = route.home_district as int;
            let paid = Store {
                warehouses: changed(
                    s.warehouses,
                    w,
                    warehouse_paid(s.warehouses[w], input.amount_bits),
                ),
                ..s
            };
            let both = Store {
                districts: changed(
                    s.districts,
                    (w, d),
                    district_paid(s.districts[(w, d)], input.amount_bits),
                ),
                ..paid
            };
            &&& ops.len() == 8
            &&& effects(s, ops, 1) == s
            &&& effects(s, ops, 2) == s
            &&& effects(s, ops, 3) == paid
            &&& effects(s, ops, 4) == paid
            &&& effects(s, ops, 5) == paid
            &&& effects(s, ops, 6) == both
            &&& effects(s, ops, 7) == both
            &&& effects(s, ops, 8) == both
        }),
{
    let ops = first_ops(route, input);
    let w = route.home_warehouse as int;
    let d = route.home_district as int;
    let e1 = effects(s, ops, 1);
    let e2 = effects(s, ops, 2);
    let e3 = effects(s, ops, 3);
    let e4 = effects(s, ops, 4);
    let e5 = effects(s, ops, 5);
    let e6 = effects(s, ops, 6);
    let e7 = effects(s, ops, 7);
    assert(effects(s, ops, 0) == s);
    assert(e1 == effect(s, ops[0]));
    assert(e2 == effect(e1, ops[1]));
    assert(e3 == effect(e2, ops[2]));
    assert(e4 == effect(e3, ops[3]));
    assert(e5 == effect(e4, ops[4]));
    assert(e6 == effect(e5, ops[5]));
    assert(e7 == effect(e6, ops[6]));
    assert(effects(s, ops, 8) == effect(e7, ops[7]));
    lemma_no_effect(s, ops[0]);
    lemma_payment_reads(e1, ops[1]);
    lemma_pays_warehouse(e2, ops[2]);
    lemma_payment_reads(e3, ops[3]);
    lemma_payment_reads(e4, ops[4]);
    lemma_pays_district(e5, ops[5]);
    lemma_payment_reads(e6, ops[6]);
    lemma_payment_reads(e7, ops[7]);
}

/// Law: the first batch of a Payment adds its amount to the totals of the home
/// warehouse and of the home district, and changes nothing else.
pub proof fn law_first_batch_pays_the_home_rows(
    s: Store,
    route: RoutedTransaction,
    input: PaymentInput,
)
    ensures
        ({
            let ops = payment_first_batch(
                route.home_warehouse,
                route.home_district,
                input.customer_warehouse,
                input.customer_district,
                input.customer,
                input.amount_bits,
            );
            let w = route.home_warehouse as int;
            let d = route.home_district as int;
            effects(s, ops, ops.len() as int) == (Store {
                warehouses: changed(
                    s.warehouses,
                    w,
                    warehouse_paid(s.warehouses[w], input.amount_bits),
                ),
                districts: changed(
                    s.districts,
                    (w, d),
                    district_paid(s.districts[(w, d)], input.amount_bits),
                ),
                ..s
            })
        }),
{
    lemma_first_effects(s, route, input);
}

/// The history row that a Payment leaves.
pub open spec fn history_paid(
    row: HistoryRow,
    route: RoutedTransaction,
    input: PaymentInput,
    customer: int,
    timestamp: Seq<u8>,
    warehouse_name: Seq<u8>,
    district_name: Seq<u8>,
) -> bool {
    &&& row.h_c_id == customer
    &&& row.h_c_d_id == input.customer_district
    &&& row.h_c_w_id == input.customer_warehouse
    &&& row.h_d_id == route.home_district
    &&& row.h_w_id == route.home_warehouse
    &&& row.h_date == timestamp
    &&& row.h_amount == input.amount_bits
    &&& row.h_data == warehouse_name + seq![32u8, 32u8, 32u8, 32u8] + district_name
}

/// The second batch of a Payment.
spec fn second_ops(
    route: RoutedTransaction,
    input: PaymentInput,
    timestamp: Seq<u8>,
    found: PaymentFound,
) -> PaymentWrites {
    payment_second_batch(
        route.home_warehouse,
        route.home_district,
        input.customer_warehouse,
        input.customer_district,
        input.amount_cents,
        input.amount_bits,
        timestamp,
        found,
    )
}

/// The customer row that a Payment leaves.
spec fn customer_paid(
    row: CustomerRow,
    input: PaymentInput,
    found: PaymentFound,
    data: Seq<u8>,
) -> CustomerRow {
    row_after_payment(
        row,
        input.amount_bits,
        if found.customer.credit == CustomerCredit::Good {
            row.c_data
        } else {
            data
        },
    )
}

/// The key of the customer of a Payment.
spec fn payer_key(input: PaymentInput, found: PaymentFound) -> (int, int, int) {
    (
        input.customer_warehouse as int,
        input.customer_district as int,
        found.customer.id as int,
    )
}

proof fn lemma_customer_update(
    s: Store,
    route: RoutedTransaction,
    input: PaymentInput,
    timestamp: Seq<u8>,
    found: PaymentFound,
)
    ensures
        ({
            let writes = second_ops(route, input, timestamp, found);
            let key = payer_key(input, found);
            effect(s, writes.operations[0]) == (Store {
                customers: changed(
                    s.customers,
                    key,
                    customer_paid(
                        s.customers[key],
                        input,
                        found,
                        writes.expected_customer_data,
                    ),
                ),
                ..s
            })
        }),
{
    lemma_payment_effect(s, second_ops(route, input, timestamp, found).operations[0]);
}

proof fn lemma_history_insert(
    s: Store,
    route: RoutedTransaction,
    input: PaymentInput,
    timestamp: Seq<u8>,
    found: PaymentFound,
)
    ensures
        ({
            let writes = second_ops(route, input, timestamp, found);
            let t = effect(s, writes.operations[1]);
            &&& t == (Store { history: t.history, ..s })
            &&& t.history == s.history.push(t.history.last())
            &&& t.history.len() == s.history.len() + 1
            &&& history_paid(
                t.history.last(),
                route,
                input,
                found.customer.id as int,
                timestamp,
                found.warehouse_name,
                found.district_name,
            )
        }),
{
    let op = second_ops(route, input, timestamp, found).operations[1];
    lemma_payment_effect(s, op);
    assert(name_gap() =~= seq![32u8, 32u8, 32u8, 32u8]);
    assert(effect(s, op).history =~= s.history.push(effect(s, op).history.last()));
}

proof fn lemma_second_shape(
    s: Store,
    route: RoutedTransaction,
    input: PaymentInput,
    timestamp: Seq<u8>,
    found: PaymentFound,
)
    ensures
        ({
            let ops = second_ops(route, input, timestamp, found).operations;
            &&& ops.len() == 4
            &&& stays_open(ops.drop_last())
            &&& runs(ops[3], StatementId::Commit)
            &&& effect(s, ops[2]) == s
        }),
{
    let ops = second_ops(route, input, timestamp, found).operations;
    lemma_payment_reads(s, ops[2]);
}

/// What the second batch makes of the tables before its commit.
proof fn lemma_second_effects(
    s: Store,
    route: RoutedTransaction,
    input: PaymentInput,
    timestamp: Seq<u8>,
    found: PaymentFound,
)
    ensures
        ({
            let writes = second_ops(route, input, timestamp, found);
            let key = payer_key(input, found);
            let t = effects(s, writes.operations, 3);
            &&& t == effects(s, writes.operations, 2)
            &&& t == (Store {
                customers: changed(
                    s.customers,
                    key,
                    customer_paid(
                        s.customers[key],
                        input,
                        found,
                        writes.expected_customer_data,
                    ),
                ),
                history: t.history,
                ..s
            })
            &&& t.history == s.history.push(t.history.last())
            &&& t.history.len() == s.history.len() + 1
            &&& history_paid(
                t.history.last(),
                route,
                input,
                found.customer.id as int,
                timestamp,
                found.warehouse_name,
                found.district_name,
            )
        }),
{
    let ops = second_ops(route, input, timestamp, found).operations;
    let e1 = effect(s, ops[0]);
    let e2 = effect(e1, ops[1]);
    assert(effects(s, ops, 0) == s);
    assert(effects(s, ops, 1) == e1);
    assert(effects(s, ops, 2) == e2);
    assert(effects(s, ops, 3) == effect(e2, ops[2]));
    lemma_customer_update(s, route, input, timestamp, found);
    lemma_history_insert(e1, route, input, timestamp, found);
    lemma_second_shape(e2, route, input, timestamp, found);
}

/// Law: a Payment charges its own customer. The committed second batch takes the
/// amount off the balance of the customer of the customer's own warehouse and
/// district, adds it to what that customer has paid and counts one payment more; the
/// data stay as they are where the credit is good. It stores one history row, of
/// that customer, the home district and the home warehouse, and nothing else.
pub proof fn law_payment_charges_its_customer(
    c: Connection,
    route: RoutedTransaction,
    input: PaymentInput,
    timestamp: Seq<u8>,
    found: PaymentFound,
)
    ensures
        ({
            let writes = payment_second_batch(
                route.home_warehouse,
                route.home_district,
                input.customer_warehouse,
                input.customer_district,
                input.amount_cents,
                input.amount_bits,
                timestamp,
                found,
            );
            let key = (
                input.customer_warehouse as int,
                input.customer_district as int,
                found.customer.id as int,
            );
            let s = c.open;
            let t = executed_all(c, writes.operations, writes.operations.len() as int).kept;
            let row = s.customers[key];
            let new_row = t.customers[key];
            &&& t.warehouses == s.warehouses
            &&& t.districts == s.districts
            &&& t.items == s.items
            &&& t.stock == s.stock
            &&& t.orders == s.orders
            &&& t.new_orders == s.new_orders
            &&& t.order_lines == s.order_lines
            &&& t.customers.dom() == s.customers.dom()
            &&& forall|other: (int, int, int)|
                other != key ==> #[trigger] t.customers[other] == s.customers[other]
            &&& s.customers.contains_key(key) ==> {
                &&& new_row.c_balance == float_difference(row.c_balance, input.amount_bits)
                &&& new_row.c_ytd_payment == float_sum(row.c_ytd_payment, input.amount_bits)
                &&& new_row.c_payment_cnt == row.c_payment_cnt + 1
                &&& new_row.c_delivery_cnt == row.c_delivery_cnt
                &&& new_row.c_first == row.c_first
                &&& new_row.c_middle == row.c_middle
                &&& new_row.c_last == row.c_last
                &&& new_row.c_credit == row.c_credit
                &&& new_row.c_discount == row.c_discount
                &&& found.customer.credit == CustomerCredit::Good ==> new_row.c_data == row.c_data
                &&& found.customer.credit == CustomerCredit::Bad ==> new_row.c_data
                    == writes.expected_customer_data
            }
            &&& t.history.len() == s.history.len() + 1
            &&& forall|i: int|
                0 <= i < s.history.len() ==> #[trigger] t.history[i] == s.history[i]
            &&& history_paid(
                t.history.last(),
                route,
                input,
                found.customer.id as int,
                timestamp,
                found.warehouse_name,
                found.district_name,
            )
        }),
{
    let ops = second_ops(route, input, timestamp, found).operations;
    let s = c.open;
    let key = (
        input.customer_warehouse as int,
        input.customer_district as int,
        found.customer.id as int,
    );
    lemma_second_effects(s, route, input, timestamp, found);
    lemma_second_shape(s, route, input, timestamp, found);
    assert(ops =~= ops.drop_last().push(ops[3]));
    lemma_ended_batch(c, ops.drop_last(), ops[3]);
    lemma_effects_prefix(s, ops, ops.drop_last(), 3);
    let t = executed_all(c, ops, 4).kept;
    assert(t.customers.dom() =~= s.customers.dom());
}

/// Law: a Payment looks up, updates and reads back one customer row. Whatever the
/// credit, the key that the second batch updates is the key that it reads back; it
/// is the key of the lookup, in the customer's warehouse and district; and it is the
/// key that the lookup by id asks for.
pub proof fn law_payment_keeps_to_one_customer(
    route: RoutedTransaction,
    input: PaymentInput,
    timestamp: Seq<u8>,
    found: PaymentFound,
)
    ensures
        ({
            let lookup = payment_first_batch(
                route.home_warehouse,
                route.home_district,
                input.customer_warehouse,
                input.customer_district,
                input.customer,
                input.amount_bits,
            )[7];
            let ops = payment_second_batch(
                route.home_warehouse,
                route.home_district,
                input.customer_warehouse,
                input.customer_district,
                input.amount_cents,
                input.amount_bits,
                timestamp,
                found,
            ).operations;
            let update = ops[0];
            let after = ops[2];
            let n = update.parameters.len() as int;
            let key = (number(update, n - 3), number(update, n - 2), number(update, n - 1));
            &&& runs(update, StatementId::PaymentUpdateGoodCustomer) && n == 4 || runs(
                update,
                StatementId::PaymentUpdateBadCustomer,
            ) && n == 5
            &&& runs(update, StatementId::PaymentUpdateGoodCustomer) <==> found.customer.credit
                == CustomerCredit::Good
            &&& float(update, 0) == input.amount_bits
            &&& runs(after, StatementId::PaymentCustomerAfter)
            &&& key == (number(after, 0), number(after, 1), number(after, 2))
            &&& key.0 == number(lookup, 0)
            &&& key.1 == number(lookup, 1)
            &&& key == (
                input.customer_warehouse as int,
                input.customer_district as int,
                found.customer.id as int,
            )
            &&& match input.customer {
                CustomerSelector::Id(id) => runs(lookup, StatementId::PaymentCustomerById)
                    && number(lookup, 2) == id,
                CustomerSelector::LastName(name) => runs(
                    lookup,
                    StatementId::PaymentCustomerByLast,
                ) && chars(lookup, 2) == name.bytes@,
            }
        }),
{
}

/// Whether the first batch was answered by the tables.
pub open spec fn first_answered(
    s: Store,
    ops: Seq<OperationModel>,
    selector: CustomerSelector,
    results: Seq<Option<Seq<Seq<WireModel>>>>,
) -> bool {
    &&& answers_at(s, ops, results, 1)
    &&& answers_at(s, ops, results, 3)
    &&& answers_at(s, ops, results, 4)
    &&& answers_at(s, ops, results, 6)
    &&& match selector {
        CustomerSelector::Id(_) => answers_at(s, ops, results, 7),
        CustomerSelector::LastName(_) => results[7] is Some && payers_named(
            effects(s, ops, 7),
            ops[7],
            results[7]->0,
        ),
    }
}

/// Whether a customer is the one of a row.
pub open spec fn payer_is(customer: PayerModel, row: CustomerRow) -> bool {
    &&& customer.first == row.c_first
    &&& customer.last == row.c_last
    &&& customer.credit == CustomerCredit::Good <==> row.c_credit == seq![71u8, 67u8]
    &&& customer.balance_bits == row.c_balance
    &&& customer.ytd_payment_bits == row.c_ytd_payment
    &&& customer.payment_count == row.c_payment_cnt as i32
    &&& customer.delivery_count == row.c_delivery_cnt as i32
    &&& customer.data == row.c_data
}

proof fn lemma_payer_cells(id: int, row: CustomerRow)
    requires
        i32::MIN <= id <= i32::MAX,
    ensures
        payer_of(payer_cells(id, row)).id == id,
        payer_is(payer_of(payer_cells(id, row)), row),
{
    assert(seq![71u8, 67u8] =~= good_credit());
}

/// Law: what a Payment takes from an accepted first batch is what the tables held:
/// the totals of its home rows before and after its amount was added, their names,
/// and the customer that it asked for, by id or as one of those with the surname.
pub proof fn law_payment_finds_what_is_stored(
    s: Store,
    route: RoutedTransaction,
    input: PaymentInput,
    results: Seq<Option<Seq<Seq<WireModel>>>>,
)
    requires
        first_answered(
            s,
            payment_first_batch(
                route.home_warehouse,
                route.home_district,
                input.customer_warehouse,
                input.customer_district,
                input.customer,
                input.amount_bits,
            ),
            input.customer,
            results,
        ),
        payment_first_fault(results, input.customer, input.amount_bits) is None,
    ensures
        ({
            let w = route.home_warehouse as int;
            let d = route.home_district as int;
            let found = payment_first_found(results, input.customer);
            let id = found.customer.id as int;
            let key = (input.customer_warehouse as int, input.customer_district as int, id);
            &&& s.warehouses.contains_key(w)
            &&& s.districts.contains_key((w, d))
            &&& found.warehouse_before_bits == s.warehouses[w].w_ytd
            &&& found.warehouse_after_bits == float_sum(s.warehouses[w].w_ytd, input.amount_bits)
            &&& found.warehouse_name == s.warehouses[w].w_name
            &&& found.district_before_bits == s.districts[(w, d)].d_ytd
            &&& found.district_after_bits == float_sum(s.districts[(w, d)].d_ytd, input.amount_bits)
            &&& found.district_name == s.districts[(w, d)].d_name
            &&& s.customers.contains_key(key)
            &&& payer_is(found.customer, s.customers[key])
            &&& match input.customer {
                CustomerSelector::Id(wanted) => id == wanted,
                CustomerSelector::LastName(name) => s.customers[key].c_last == name.bytes@,
            }
        }),
{
    let ops = first_ops(route, input);
    lemma_first_effects(s, route, input);
    lemma_payment_query(effects(s, ops, 1), ops[1]);
    lemma_payment_query(effects(s, ops, 3), ops[3]);
    lemma_payment_query(effects(s, ops, 4), ops[4]);
    lemma_payment_query(effects(s, ops, 6), ops[6]);
    match input.customer {
        CustomerSelector::Id(wanted) => {
            lemma_payment_query(effects(s, ops, 7), ops[7]);
            let key = (
                input.customer_warehouse as int,
                input.customer_district as int,
                wanted as int,
            );
            lemma_payer_cells(wanted as int, s.customers[key]);
        },
        CustomerSelector::LastName(name) => {
            lemma_surname_found(s, effects(s, ops, 7), ops[7], results[7]->0, name.bytes@);
        },
    }
}

/// The customer of an accepted lookup by surname is one that the tables hold.
proof fn lemma_surname_found(
    s: Store,
    t: Store,
    op: OperationModel,
    rows: Seq<Seq<WireModel>>,
    last: Seq<u8>,
)
    requires
        t.customers == s.customers,
        payers_named(t, op, rows),
        surname_fault(rows, last) is None,
        last == chars(op, 2),
    ensures
        ({
            let found = median_payer(rows);
            let key = (number(op, 0), number(op, 1), found.id as int);
            &&& s.customers.contains_key(key)
            &&& payer_is(found, s.customers[key])
            &&& s.customers[key].c_last == last
        }),
{
    law_payers_are_in_order(rows, last);
    let list = ordered_payers(rows, rows.len() as int);
    let found = median_payer(rows);
    list.to_multiset_ensures();
    payers_of(rows).to_multiset_ensures();
    assert(list.contains(found));
    assert(payers_of(rows).to_multiset().count(found) > 0);
    assert(payers_of(rows).contains(found));
    let i = choose|i: int| 0 <= i < payers_of(rows).len() && payers_of(rows)[i] == found;
    assert(found == payer_of(rows[i]));
    let id = choose|id: int| #[trigger] is_payer_named(t, op, rows[i], id);
    assert(is_payer_named(t, op, rows[i], id));
    lemma_payer_cells(id, s.customers[(number(op, 0), number(op, 1), id)]);
}

proof fn lemma_first_begins(route: RoutedTransaction, input: PaymentInput)
    ensures
        ({
            let ops = first_ops(route, input);
            &&& ops.len() == 8
            &&& runs(ops[0], StatementId::Begin)
            &&& stays_open(ops.drop_first())
        }),
{
}

/// Whether evidence says what the tables held before and after a Payment.
pub open spec fn evidence_stored(e: PaymentEvidence, s: Store, t: Store) -> bool {
    let w = e.warehouse_id as int;
    let d = e.district_id as int;
    let key = (
        e.customer_warehouse_id as int,
        e.customer_district_id as int,
        e.customer_id as int,
    );
    let before = s.customers[key];
    let after = t.customers[key];
    let history = t.history.last();
    &&& e.warehouse_before_bits == s.warehouses[w].w_ytd
    &&& e.warehouse_after_bits == t.warehouses[w].w_ytd
    &&& e.district_before_bits == s.districts[(w, d)].d_ytd
    &&& e.district_after_bits == t.districts[(w, d)].d_ytd
    &&& s.customers.contains_key(key)
    &&& e.customer_balance_before_bits == before.c_balance
    &&& e.customer_balance_after_bits == after.c_balance
    &&& e.customer_ytd_before_bits == before.c_ytd_payment
    &&& e.customer_ytd_after_bits == after.c_ytd_payment
    &&& e.customer_version_before.payment_count == before.c_payment_cnt as i32
    &&& e.customer_version_after.payment_count == after.c_payment_cnt as i32
    &&& e.customer_version_before.delivery_count == before.c_delivery_cnt as i32
    &&& e.customer_version_after.delivery_count == after.c_delivery_cnt as i32
    &&& e.customer_data_before@ == before.c_data
    &&& e.customer_data_after@ == after.c_data
    &&& e.customer_is_bad_credit <==> before.c_credit != seq![71u8, 67u8]
    &&& t.history.len() == s.history.len() + 1
    &&& history.h_c_id == e.customer_id
    &&& history.h_c_d_id == e.customer_district_id
    &&& history.h_c_w_id == e.customer_warehouse_id
    &&& history.h_d_id == e.district_id
    &&& history.h_w_id == e.warehouse_id
    &&& history.h_amount == e.amount_bits
    &&& history.h_date == e.history_timestamp@
    &&& history.h_data == e.history_data@
}

/// Law: the evidence of a Payment is what the tables held. Where the tables answer
/// both batches, a Payment that ends well reports its route, its input and, of every
/// row that it touched, what was stored before its first batch and what its commit
/// left.
#[verifier::spinoff_prover]
#[verifier::rlimit(60)]
pub proof fn law_payment_evidence_is_what_was_stored(
    c: Connection,
    m: PaymentCourse,
    first: BatchResponse,
    second: BatchResponse,
    e: PaymentEvidence,
)
    requires
        m.point is Read,
        first_answered(
            c.kept,
            payment_batch(m),
            m.input.customer,
            response_rows(first, payment_batch(m).len()),
        ),
        payment_next(m, first) matches FlowNext::Next(n) && {
            &&& n.point is Write
            &&& answers_at(
                executed_all(c, payment_batch(m), payment_batch(m).len() as int).open,
                payment_batch(n),
                response_rows(second, payment_batch(n).len()),
                2,
            )
            &&& payment_next(n, second) matches FlowNext::Finished(end) && is_payment_evidence(
                e,
                m.route,
                m.input,
                m.timestamp,
                end.found,
                end.writes,
                end.after,
            )
        },
    ensures
        ({
            let n = payment_next(m, first)->Next_0;
            let begun = executed_all(c, payment_batch(m), payment_batch(m).len() as int);
            let t = executed_all(begun, payment_batch(n), payment_batch(n).len() as int).kept;
            &&& e.warehouse_id == m.route.home_warehouse
            &&& e.district_id == m.route.home_district
            &&& e.customer_warehouse_id == m.input.customer_warehouse
            &&& e.customer_district_id == m.input.customer_district
            &&& e.amount_bits == m.input.amount_bits
            &&& e.history_timestamp@ == m.timestamp
            &&& m.input.customer matches CustomerSelector::Id(id) ==> e.customer_id == id
            &&& evidence_stored(e, c.kept, t)
        }),
{
    let ops = payment_batch(m);
    let s = c.kept;
    let results = response_rows(first, ops.len());
    let n = payment_next(m, first)->Next_0;
    let found = payment_first_found(results, m.input.customer);
    let begun = executed_all(c, ops, 8);
    lemma_first_begins(m.route, m.input);
    lemma_begun_batch(c, ops, 8);
    law_payment_finds_what_is_stored(s, m.route, m.input, results);
    lemma_first_effects(s, m.route, m.input);
    let mid = begun.open;
    let writes = second_ops(m.route, m.input, m.timestamp, found);
    let last = writes.operations;
    assert(payment_batch(n) == last);
    lemma_second_shape(mid, m.route, m.input, m.timestamp, found);
    lemma_second_effects(mid, m.route, m.input, m.timestamp, found);
    law_payment_charges_its_customer(begun, m.route, m.input, m.timestamp, found);
    assert(last =~= last.drop_last().push(last[3]));
    lemma_ended_batch(begun, last.drop_last(), last[3]);
    lemma_effects_prefix(mid, last, last.drop_last(), 3);
    lemma_payment_query(effects(mid, last, 2), last[2]);
    let key = payer_key(m.input, found);
    lemma_read_back(effects(mid, last, 2), last[2], response_rows(second, 4), key);
}

/// What is read back is what the row holds.
proof fn lemma_read_back(
    t: Store,
    op: OperationModel,
    results: Seq<Option<Seq<Seq<WireModel>>>>,
    key: (int, int, int),
)
    requires
        runs(op, StatementId::PaymentCustomerAfter),
        key == (number(op, 0), number(op, 1), number(op, 2)),
        results[2] == Some(queried(t, op)),
        single_row_fault(results, 2) is None,
    ensures
        ({
            let row = single_row_of(results, 2);
            &&& f32_at(row, 0) == t.customers[key].c_balance
            &&& f32_at(row, 1) == t.customers[key].c_ytd_payment
            &&& int32_at(row, 2) == t.customers[key].c_payment_cnt as i32
            &&& int32_at(row, 3) == t.customers[key].c_delivery_cnt as i32
            &&& char_at(row, 4) == t.customers[key].c_data
        }),
{
    lemma_payment_query(t, op);
}

} // verus!
