//! What an OrderStatus asks the tables for, and that right answers are accepted.
use vstd::prelude::*;

use crate::binary32::is_finite;
use crate::ranking::batch_law::law_rows_are_those_of_the_answer;
use crate::ranking::common::{response_fault, response_rows};
use crate::ranking::flow::FlowNext;
use crate::ranking::order_status::{
    row_before, selected_customer, status_customer_fault, status_lines_from, status_lookup,
    status_row_fault, status_rows_fault,
};
use crate::ranking::order_status_flow::{
    OrderStatusCourse, OrderStatusPoint, order_status_batch, order_status_next,
};
use crate::ranking::payment::bytes_before;
use crate::ranking::statement_id::StatementId;
use crate::ranking::store_model::{
    CustomerRow, LineRow, Store, chars, effect, effects, lemma_no_effect, number, runs,
};
use crate::ranking::store_queries::{
    answers_at, is_latest, lemma_status_query, queried, status_cells, status_lines,
};
use crate::wire::{BatchResponse, WireModel};
use crate::workload::{CustomerSelector, RoutedTransaction};

verus! {

/// A customer row with the names and the balance that the workload gives it.
pub open spec fn customer_well_formed(row: CustomerRow) -> bool {
    &&& 1 <= row.c_first.len() <= 16
    &&& 1 <= row.c_middle.len() <= 2
    &&& 1 <= row.c_last.len() <= 16
    &&& is_finite(row.c_balance)
}

/// A line row of the workload.
pub open spec fn line_well_formed(row: LineRow) -> bool {
    &&& 1 <= row.ol_i_id <= 100_000
    &&& 1 <= row.ol_supply_w_id <= 50
    &&& 1 <= row.ol_quantity <= 10
    &&& is_finite(row.ol_amount)
    &&& row.ol_delivery_d.len() <= 30
}

/// An order of the workload, with its lines.
pub open spec fn order_well_formed(s: Store, key: (int, int, int)) -> bool {
    let row = s.orders[key];
    &&& s.orders.contains_key(key)
    &&& 1 <= row.o_entry_d.len() <= 30
    &&& 0 <= row.o_carrier_id <= 10
    &&& 5 <= row.o_ol_cnt <= 15
    &&& forall|k: int|
        1 <= k <= row.o_ol_cnt ==> line_well_formed(
            #[trigger] s.order_lines[(key.0, key.1, key.2, k)],
        )
}

/// The home of an OrderStatus, as a key starts with it.
pub open spec fn home_key(route: RoutedTransaction, id: int) -> (int, int, int) {
    (route.home_warehouse as int, route.home_district as int, id)
}

/// Law: an OrderStatus by id looks up the customer that it was given. The lookup asks
/// for the home warehouse, the home district and that id; and where the tables hold
/// the customer, what they answer is accepted, and the customer is found.
pub proof fn law_status_finds_the_customer_it_was_given(
    s: Store,
    route: RoutedTransaction,
    id: u16,
)
    requires
        1 <= id <= 3_000,
        s.customers.contains_key(home_key(route, id as int)),
        customer_well_formed(s.customers[home_key(route, id as int)]),
    ensures
        ({
            let lookup = status_lookup(route, CustomerSelector::Id(id));
            let rows = queried(s, lookup);
            let row = s.customers[home_key(route, id as int)];
            &&& runs(lookup, StatementId::OrderStatusCustomerById)
            &&& (number(lookup, 0), number(lookup, 1), number(lookup, 2)) == home_key(
                route,
                id as int,
            )
            &&& rows == seq![status_cells(id as int, row)]
            &&& status_customer_fault(rows, CustomerSelector::Id(id)) is None
            &&& selected_customer(rows, CustomerSelector::Id(id)) == id
        }),
{
    let lookup = status_lookup(route, CustomerSelector::Id(id));
    lemma_status_query(s, lookup);
    let rows = queried(s, lookup);
    let row = s.customers[home_key(route, id as int)];
    lemma_customer_cells(id as int, row, CustomerSelector::Id(id), 0);
    reveal_with_fuel(status_rows_fault, 3);
    assert(rows[0] == status_cells(id as int, row));
}

/// A well-formed customer row is accepted.
proof fn lemma_customer_cells(id: int, row: CustomerRow, selector: CustomerSelector, i: int)
    requires
        1 <= id <= 3_000,
        0 <= i,
        customer_well_formed(row),
        selector matches CustomerSelector::LastName(name) ==> row.c_last == name.bytes@,
    ensures
        status_row_fault(status_cells(id, row), selector, i) is None,
{
}

/// Whether rows are customers of the home district with a surname, in order.
pub open spec fn surname_rows(
    s: Store,
    route: RoutedTransaction,
    ids: Seq<int>,
    last: Seq<u8>,
    rows: Seq<Seq<WireModel>>,
) -> bool {
    &&& rows.len() == ids.len()
    &&& forall|i: int|
        0 <= i < ids.len() ==> {
            let row = s.customers[home_key(route, #[trigger] ids[i])];
            &&& 1 <= ids[i] <= 3_000
            &&& s.customers.contains_key(home_key(route, ids[i]))
            &&& customer_well_formed(row)
            &&& row.c_last == last
            &&& rows[i] == status_cells(ids[i], row)
        }
    &&& forall|i: int|
        0 <= i < ids.len() - 1 ==> ({
            let a = s.customers[home_key(route, #[trigger] ids[i])];
            let b = s.customers[home_key(route, ids[i + 1])];
            bytes_before(a.c_first, b.c_first) || (a.c_first == b.c_first && ids[i] < ids[i + 1])
        })
}

/// Law: an OrderStatus by surname asks for the home warehouse, the home district and
/// that surname; and where the tables answer with the customers of that name, in the
/// order of first name and id, the answer is accepted and the middle one is taken, the
/// lower of two.
pub proof fn law_status_takes_the_middle_customer(
    s: Store,
    route: RoutedTransaction,
    selector: CustomerSelector,
    ids: Seq<int>,
    rows: Seq<Seq<WireModel>>,
)
    requires
        selector matches CustomerSelector::LastName(name) && surname_rows(
            s,
            route,
            ids,
            name.bytes@,
            rows,
        ),
        ids.len() > 0,
    ensures
        ({
            let lookup = status_lookup(route, selector);
            &&& runs(lookup, StatementId::OrderStatusCustomerByLast)
            &&& number(lookup, 0) == route.home_warehouse
            &&& number(lookup, 1) == route.home_district
            &&& chars(lookup, 2) == selector->LastName_0.bytes@
            &&& status_customer_fault(rows, selector) is None
            &&& selected_customer(rows, selector) == ids[(ids.len() - 1) / 2]
        }),
{
    lemma_named_rows(s, route, selector, ids, rows, 0);
    assert forall|i: int| 0 <= i < rows.len() - 1 implies #[trigger] row_before(
        rows[i],
        rows[i + 1],
    ) by {
        let a = s.customers[home_key(route, ids[i])];
        let b = s.customers[home_key(route, ids[i + 1])];
        assert(rows[i] == status_cells(ids[i], a));
        assert(rows[i + 1] == status_cells(ids[i + 1], b));
    }
    assert(rows[(ids.len() - 1) / 2] == status_cells(
        ids[(ids.len() - 1) / 2],
        s.customers[home_key(route, ids[(ids.len() - 1) / 2])],
    ));
}

proof fn lemma_named_rows(
    s: Store,
    route: RoutedTransaction,
    selector: CustomerSelector,
    ids: Seq<int>,
    rows: Seq<Seq<WireModel>>,
    i: int,
)
    requires
        0 <= i <= rows.len(),
        selector matches CustomerSelector::LastName(name) && surname_rows(
            s,
            route,
            ids,
            name.bytes@,
            rows,
        ),
    ensures
        status_rows_fault(rows, selector, i) is None,
    decreases rows.len() - i,
{
    if i < rows.len() {
        let row = s.customers[home_key(route, ids[i])];
        lemma_customer_cells(ids[i], row, selector, i);
        lemma_named_rows(s, route, selector, ids, rows, i + 1);
    }
}

/// The lines of a well-formed order are accepted.
proof fn lemma_lines_accepted(s: Store, key: (int, int, int), i: int)
    requires
        order_well_formed(s, key),
        0 <= i <= s.orders[key].o_ol_cnt,
    ensures
        status_lines_from(status_lines(s, key), i) is None,
    decreases s.orders[key].o_ol_cnt - i,
{
    if i < s.orders[key].o_ol_cnt {
        assert(line_well_formed(s.order_lines[(key.0, key.1, key.2, i + 1)]));
        lemma_lines_accepted(s, key, i + 1);
    }
}

/// Law: an OrderStatus reports the latest order of its customer. The second batch asks
/// for the latest order of the customer found, in the home district; the third for
/// that order and for its lines. Where the tables answer and hold the order, it is the
/// customer's latest, and the transaction ends well.
pub proof fn law_status_reports_the_latest_order(
    s: Store,
    m: OrderStatusCourse,
    customer_id: i32,
    o: int,
    second: BatchResponse,
    third: BatchResponse,
)
    requires
        m.point == (OrderStatusPoint::Latest { customer_id }),
        is_latest(s, home_key(m.route, customer_id as int), o),
        1 <= o <= i32::MAX,
        order_well_formed(s, home_key(m.route, o)),
        response_fault(second, 1) is None,
        answers_at(s, order_status_batch(m), response_rows(second, 1), 0),
        response_fault(third, 3) is None,
        ({
            let n = OrderStatusCourse {
                point: OrderStatusPoint::Read { order_id: o as i32 },
                ..m
            };
            &&& answers_at(s, order_status_batch(n), response_rows(third, 3), 0)
            &&& answers_at(s, order_status_batch(n), response_rows(third, 3), 1)
        }),
    ensures
        ({
            let n = OrderStatusCourse {
                point: OrderStatusPoint::Read { order_id: o as i32 },
                ..m
            };
            &&& order_status_next(m, second) == FlowNext::<OrderStatusCourse, ()>::Next(n)
            &&& order_status_next(n, third) == FlowNext::<OrderStatusCourse, ()>::Finished(())
        }),
{
    let n = OrderStatusCourse { point: OrderStatusPoint::Read { order_id: o as i32 }, ..m };
    let ops = order_status_batch(m);
    let customer = home_key(m.route, customer_id as int);
    lemma_status_query(s, ops[0]);
    assert(effects(s, ops, 0) == s);
    lemma_latest_once(s, customer, o);
    lemma_rows_len(second, 1);
    let last = order_status_batch(n);
    let key = home_key(m.route, o);
    assert(effects(s, last, 0) == s);
    lemma_no_effect(s, last[0]);
    assert(effects(s, last, 1) == effect(s, last[0]));
    lemma_status_query(s, last[0]);
    lemma_status_query(s, last[1]);
    lemma_lines_accepted(s, key, 0);
    lemma_rows_len(third, 3);
    assert(response_rows(third, 3)[1]->0 == status_lines(s, key));
}

proof fn lemma_rows_len(response: BatchResponse, n: nat)
    requires
        response_fault(response, n) is None,
    ensures
        response_rows(response, n).len() == n,
{
    law_rows_are_those_of_the_answer(response, n, 0);
}

/// A customer has one latest order.
proof fn lemma_latest_once(s: Store, customer: (int, int, int), o: int)
    requires
        is_latest(s, customer, o),
    ensures
        (choose|other: int| is_latest(s, customer, other)) == o,
{
    let other = choose|other: int| is_latest(s, customer, other);
    assert(is_latest(s, customer, other));
    assert(s.orders.contains_key((customer.0, customer.1, other)));
    assert(s.orders.contains_key((customer.0, customer.1, o)));
}

/// Law: the batches of an OrderStatus name one customer and one order. The key of each
/// of its queries starts with the home warehouse and the home district; the second
/// batch asks for the customer found, and both queries of the third for the order
/// found.
pub proof fn law_status_keys(m: OrderStatusCourse, id: i32)
    ensures
        ({
            let latest = order_status_batch(
                OrderStatusCourse { point: OrderStatusPoint::Latest { customer_id: id }, ..m },
            );
            let read = order_status_batch(
                OrderStatusCourse { point: OrderStatusPoint::Read { order_id: id }, ..m },
            );
            let key = home_key(m.route, id as int);
            &&& latest.len() == 1
            &&& runs(latest[0], StatementId::OrderStatusLatestOrder)
            &&& (number(latest[0], 0), number(latest[0], 1), number(latest[0], 2)) == key
            &&& read.len() == 3
            &&& runs(read[0], StatementId::OrderStatusOrder)
            &&& runs(read[1], StatementId::OrderStatusLines)
            &&& runs(read[2], StatementId::Commit)
            &&& (number(read[0], 0), number(read[0], 1), number(read[0], 2)) == key
            &&& (number(read[1], 0), number(read[1], 1), number(read[1], 2)) == key
        }),
{
}

} // verus!
