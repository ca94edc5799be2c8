//! What a Delivery leaves in the tables.
use vstd::prelude::*;

use crate::ranking::common::operation_of;
use crate::ranking::delivery::{
    DistrictClaim, LockedModel, all_order_updates, claim_reads, delivery_second_batch,
    delivery_third_batch, order_updates,
};
use crate::ranking::statement_id::StatementId;
use crate::ranking::store_model::{
    Connection, CustomerRow, LineRow, OrderRow, Store, changed, chars, dated_lines, effect,
    effects, executed_all, float, float_sum, lemma_credits_customer, lemma_dates_lines,
    lemma_delivery_reads, lemma_effects_joined, lemma_effects_prefix, lemma_ended_batch,
    lemma_leaves_queue, lemma_stamps_order, number, runs, stays_open,
};
use crate::wire::{OperationModel, WireModel};

verus! {

/// The key of a locked order.
pub open spec fn order_key(warehouse: u16, order: LockedModel) -> (int, int, int) {
    (warehouse as int, order.claim.district_id as int, order.claim.order_id as int)
}

/// The key of the customer of a locked order.
pub open spec fn customer_key(warehouse: u16, order: LockedModel) -> (int, int, int) {
    (warehouse as int, order.claim.district_id as int, order.customer_id as int)
}

/// The order row that a Delivery leaves.
pub open spec fn order_carried(row: OrderRow, carrier: u8) -> OrderRow {
    OrderRow { o_carrier_id: carrier as int, ..row }
}

/// The customer row that a Delivery leaves.
pub open spec fn customer_credited(row: CustomerRow, amount: u32) -> CustomerRow {
    CustomerRow {
        c_balance: float_sum(row.c_balance, amount),
        c_delivery_cnt: row.c_delivery_cnt + 1,
        ..row
    }
}

/// The tables after the updates of one order.
spec fn order_delivered(
    s: Store,
    warehouse: u16,
    carrier: u8,
    timestamp: Seq<u8>,
    order: LockedModel,
) -> Store {
    let key = order_key(warehouse, order);
    let payer = customer_key(warehouse, order);
    Store {
        new_orders: s.new_orders.remove(key),
        orders: changed(s.orders, key, order_carried(s.orders[key], carrier)),
        order_lines: dated_lines(s.order_lines, key, timestamp),
        customers: changed(
            s.customers,
            payer,
            customer_credited(s.customers[payer], order.amount_bits),
        ),
        ..s
    }
}

/// What the updates of one order do, step by step.
proof fn lemma_order_delivered(
    s: Store,
    warehouse: u16,
    carrier: u8,
    timestamp: Seq<u8>,
    order: LockedModel,
)
    ensures
        ({
            let ops = order_updates(warehouse, carrier, timestamp, order);
            let t = order_delivered(s, warehouse, carrier, timestamp, order);
            &&& effects(s, ops, 6) == t
            &&& effects(s, ops, 5) == t
            &&& effects(s, ops, 0) == s
        }),
{
    let ops = order_updates(warehouse, carrier, timestamp, order);
    let e1 = effects(s, ops, 1);
    let e2 = effects(s, ops, 2);
    let e3 = effects(s, ops, 3);
    let e4 = effects(s, ops, 4);
    let e5 = effects(s, ops, 5);
    assert(effects(s, ops, 0) == s);
    assert(e1 == effect(s, ops[0]));
    assert(e2 == effect(e1, ops[1]));
    assert(e3 == effect(e2, ops[2]));
    assert(e4 == effect(e3, ops[3]));
    assert(e5 == effect(e4, ops[4]));
    assert(effects(s, ops, 6) == effect(e5, ops[5]));
    lemma_delivery_reads(s, ops[0]);
    lemma_leaves_queue(e1, ops[1]);
    lemma_stamps_order(e2, ops[2]);
    lemma_dates_lines(e3, ops[3]);
    lemma_credits_customer(e4, ops[4]);
    lemma_delivery_reads(e5, ops[5]);
}

/// Whether no two locked orders are of the same district.
pub open spec fn districts_apart(orders: Seq<LockedModel>) -> bool {
    forall|i: int, j: int|
        0 <= i < j < orders.len() ==> (#[trigger] orders[i]).claim.district_id != (
        #[trigger] orders[j]).claim.district_id
}

/// Whether the tables of `t` are those of `s` once the first `n` orders are delivered.
pub open spec fn orders_delivered(
    s: Store,
    t: Store,
    warehouse: u16,
    carrier: u8,
    timestamp: Seq<u8>,
    orders: Seq<LockedModel>,
    n: int,
) -> bool {
    &&& t.warehouses == s.warehouses
    &&& t.districts == s.districts
    &&& t.history == s.history
    &&& t.items == s.items
    &&& t.stock == s.stock
    &&& t.orders.dom() == s.orders.dom()
    &&& t.order_lines.dom() == s.order_lines.dom()
    &&& t.customers.dom() == s.customers.dom()
    // The delivered orders leave the queue, with their carrier, dated lines and credit.
    &&& forall|i: int|
        0 <= i < n ==> !t.new_orders.contains(order_key(warehouse, #[trigger] orders[i]))
    &&& forall|i: int|
        0 <= i < n && s.orders.contains_key(order_key(warehouse, #[trigger] orders[i]))
            ==> t.orders[order_key(warehouse, orders[i])] == order_carried(
            s.orders[order_key(warehouse, orders[i])],
            carrier,
        )
    &&& forall|i: int, k: int|
        0 <= i < n && s.order_lines.contains_key(
            line_key(order_key(warehouse, #[trigger] orders[i]), k),
        ) ==> #[trigger] t.order_lines[line_key(order_key(warehouse, orders[i]), k)] == (LineRow {
            ol_delivery_d: timestamp,
            ..s.order_lines[line_key(order_key(warehouse, orders[i]), k)]
        })
    &&& forall|i: int|
        0 <= i < n && s.customers.contains_key(customer_key(warehouse, #[trigger] orders[i]))
            ==> t.customers[customer_key(warehouse, orders[i])] == customer_credited(
            s.customers[customer_key(warehouse, orders[i])],
            orders[i].amount_bits,
        )
    // Nothing else changes.
    &&& forall|key: (int, int, int)|
        (forall|i: int| 0 <= i < n ==> order_key(warehouse, #[trigger] orders[i]) != key) ==> (
        #[trigger] t.new_orders.contains(key) <==> s.new_orders.contains(key))
    &&& forall|key: (int, int, int)|
        (forall|i: int| 0 <= i < n ==> order_key(warehouse, #[trigger] orders[i]) != key)
            && s.orders.contains_key(key) ==> #[trigger] t.orders[key] == s.orders[key]
    &&& forall|key: (int, int, int), k: int|
        (forall|i: int| 0 <= i < n ==> order_key(warehouse, #[trigger] orders[i]) != key)
            && s.order_lines.contains_key(line_key(key, k)) ==> #[trigger] t.order_lines[line_key(
            key,
            k,
        )] == s.order_lines[line_key(key, k)]
    &&& forall|key: (int, int, int)|
        (forall|i: int| 0 <= i < n ==> customer_key(warehouse, #[trigger] orders[i]) != key)
            ==> #[trigger] t.customers[key] == s.customers[key]
}

/// The key of a line.
pub open spec fn line_key(key: (int, int, int), k: int) -> (int, int, int, int) {
    (key.0, key.1, key.2, k)
}

proof fn lemma_updates_len(
    warehouse: u16,
    carrier: u8,
    timestamp: Seq<u8>,
    orders: Seq<LockedModel>,
    n: int,
)
    requires
        0 <= n,
    ensures
        all_order_updates(warehouse, carrier, timestamp, orders, n).len() == 6 * n,
    decreases n,
{
    if n > 0 {
        lemma_updates_len(warehouse, carrier, timestamp, orders, n - 1);
    }
}

/// One more delivered order.
#[verifier::spinoff_prover]
proof fn lemma_one_more(
    s: Store,
    t: Store,
    warehouse: u16,
    carrier: u8,
    timestamp: Seq<u8>,
    orders: Seq<LockedModel>,
    n: int,
)
    requires
        0 < n <= orders.len(),
        districts_apart(orders),
        orders_delivered(s, t, warehouse, carrier, timestamp, orders, n - 1),
    ensures
        orders_delivered(
            s,
            order_delivered(t, warehouse, carrier, timestamp, orders[n - 1]),
            warehouse,
            carrier,
            timestamp,
            orders,
            n,
        ),
{
    let last = orders[n - 1];
    let u = order_delivered(t, warehouse, carrier, timestamp, last);
    let key = order_key(warehouse, last);
    let payer = customer_key(warehouse, last);
    assert forall|i: int| 0 <= i < n - 1 implies order_key(warehouse, #[trigger] orders[i]) != key
        && customer_key(warehouse, orders[i]) != payer by {
        assert(orders[i].claim.district_id != last.claim.district_id);
    }
    assert(t.orders[key] == s.orders[key] || !s.orders.contains_key(key));
    assert(t.customers[payer] == s.customers[payer]);
    assert(u.orders.dom() =~= s.orders.dom());
    assert(u.order_lines.dom() =~= s.order_lines.dom());
    assert(u.customers.dom() =~= s.customers.dom());
    assert forall|i: int, k: int|
        0 <= i < n && s.order_lines.contains_key(
            line_key(order_key(warehouse, #[trigger] orders[i]), k),
        ) implies #[trigger] u.order_lines[line_key(order_key(warehouse, orders[i]), k)] == (
    LineRow {
        ol_delivery_d: timestamp,
        ..s.order_lines[line_key(order_key(warehouse, orders[i]), k)]
    }) by {
        let at = line_key(order_key(warehouse, orders[i]), k);
        assert(t.order_lines.contains_key(at));
        assert(t.order_lines[at] == t.order_lines[at]);
    }
    assert forall|other: (int, int, int)|
        (forall|i: int| 0 <= i < n ==> order_key(warehouse, #[trigger] orders[i]) != other) implies (
    #[trigger] u.new_orders.contains(other) <==> s.new_orders.contains(other)) by {
        assert(order_key(warehouse, orders[n - 1]) != other);
        assert(t.new_orders.contains(other) <==> s.new_orders.contains(other));
    }
    assert forall|other: (int, int, int)|
        (forall|i: int| 0 <= i < n ==> order_key(warehouse, #[trigger] orders[i]) != other)
            && s.orders.contains_key(other) implies #[trigger] u.orders[other]
        == s.orders[other] by {
        assert(order_key(warehouse, orders[n - 1]) != other);
        assert(t.orders[other] == s.orders[other]);
    }
    assert forall|other: (int, int, int), k: int|
        (forall|i: int| 0 <= i < n ==> order_key(warehouse, #[trigger] orders[i]) != other)
            && s.order_lines.contains_key(line_key(other, k)) implies #[trigger]
    u.order_lines[line_key(other, k)] == s.order_lines[line_key(other, k)] by {
        assert(order_key(warehouse, orders[n - 1]) != other);
        assert(t.order_lines[line_key(other, k)] == s.order_lines[line_key(other, k)]);
    }
    assert forall|other: (int, int, int)|
        (forall|i: int|
            0 <= i < n ==> customer_key(warehouse, #[trigger] orders[i]) != other) implies
    #[trigger] u.customers[other] == s.customers[other] by {
        assert(customer_key(warehouse, orders[n - 1]) != other);
        assert(t.customers[other] == s.customers[other]);
    }
}

proof fn lemma_all_delivered(
    s: Store,
    warehouse: u16,
    carrier: u8,
    timestamp: Seq<u8>,
    orders: Seq<LockedModel>,
    n: int,
)
    requires
        0 <= n <= orders.len(),
        districts_apart(orders),
    ensures
        orders_delivered(
            s,
            effects(s, all_order_updates(warehouse, carrier, timestamp, orders, n), 6 * n),
            warehouse,
            carrier,
            timestamp,
            orders,
            n,
        ),
        stays_open(all_order_updates(warehouse, carrier, timestamp, orders, n)),
    decreases n,
{
    if n > 0 {
        lemma_all_delivered(s, warehouse, carrier, timestamp, orders, n - 1);
        lemma_updates_len(warehouse, carrier, timestamp, orders, n - 1);
        let before = all_order_updates(warehouse, carrier, timestamp, orders, n - 1);
        let more = order_updates(warehouse, carrier, timestamp, orders[n - 1]);
        lemma_effects_joined(s, before, more, 6);
        let t = effects(s, before, 6 * (n - 1));
        lemma_order_delivered(t, warehouse, carrier, timestamp, orders[n - 1]);
        lemma_one_more(s, t, warehouse, carrier, timestamp, orders, n);
        let all = all_order_updates(warehouse, carrier, timestamp, orders, n);
        assert forall|i: int| 0 <= i < all.len() implies !runs(
            #[trigger] all[i],
            StatementId::Commit,
        ) && !runs(all[i], StatementId::Abort) && !runs(all[i], StatementId::Begin) by {
            if i < before.len() {
                assert(all[i] == before[i]);
            } else {
                assert(all[i] == more[i - before.len()]);
            }
        }
    } else {
        assert(effects(s, all_order_updates(warehouse, carrier, timestamp, orders, 0), 0) == s);
    }
}

/// Law: a Delivery delivers the orders that it locked. The committed third batch takes
/// exactly these orders out of the queue, sets their carrier, dates all their lines
/// and credits the customer of each with the amount of its lines; every other row of
/// every table stays.
pub proof fn law_delivery_delivers_its_orders(
    c: Connection,
    warehouse: u16,
    carrier: u8,
    timestamp: Seq<u8>,
    orders: Seq<LockedModel>,
)
    requires
        districts_apart(orders),
    ensures
        ({
            let ops = delivery_third_batch(warehouse, carrier, timestamp, orders);
            orders_delivered(
                c.open,
                executed_all(c, ops, ops.len() as int).kept,
                warehouse,
                carrier,
                timestamp,
                orders,
                orders.len() as int,
            )
        }),
{
    let n = orders.len() as int;
    let ops = all_order_updates(warehouse, carrier, timestamp, orders, n);
    lemma_updates_len(warehouse, carrier, timestamp, orders, n);
    lemma_all_delivered(c.open, warehouse, carrier, timestamp, orders, n);
    lemma_ended_batch(c, ops, operation_of(StatementId::Commit, Seq::empty()));
}

/// Where the updates of an order stand.
proof fn lemma_update_at(
    warehouse: u16,
    carrier: u8,
    timestamp: Seq<u8>,
    orders: Seq<LockedModel>,
    n: int,
    i: int,
    k: int,
)
    requires
        0 <= i < n <= orders.len(),
        0 <= k < 6,
    ensures
        all_order_updates(warehouse, carrier, timestamp, orders, n)[6 * i + k] == order_updates(
            warehouse,
            carrier,
            timestamp,
            orders[i],
        )[k],
    decreases n,
{
    lemma_updates_len(warehouse, carrier, timestamp, orders, n - 1);
    if i < n - 1 {
        lemma_update_at(warehouse, carrier, timestamp, orders, n - 1, i, k);
    }
}

/// Where the reads of a claim stand.
pub proof fn lemma_claim_at(
    warehouse: u16,
    claims: Seq<DistrictClaim>,
    n: int,
    i: int,
    k: int,
)
    requires
        0 <= i < n <= claims.len(),
        0 <= k < 6,
    ensures
        delivery_second_batch(warehouse, claims, n).len() == 6 * n,
        delivery_second_batch(warehouse, claims, n)[6 * i + k] == claim_reads(
            warehouse,
            claims[i],
        )[k],
    decreases n,
{
    lemma_claims_len(warehouse, claims, n - 1);
    if i < n - 1 {
        lemma_claim_at(warehouse, claims, n - 1, i, k);
    }
}

proof fn lemma_claims_len(warehouse: u16, claims: Seq<DistrictClaim>, n: int)
    requires
        0 <= n <= claims.len(),
    ensures
        delivery_second_batch(warehouse, claims, n).len() == 6 * n,
    decreases n,
{
    if n > 0 {
        lemma_claims_len(warehouse, claims, n - 1);
    }
}

/// The key that an operation ends with.
pub open spec fn last_three(op: OperationModel) -> (int, int, int) {
    let n = op.parameters.len() as int;
    (number(op, n - 3), number(op, n - 2), number(op, n - 1))
}

/// Law: a Delivery keeps to the orders that it claimed. The key that the second batch
/// locks for a claim is the one that it counts, reads the order and the lines of, and
/// sums; and for the order that this claim locked the third batch deletes, stamps and
/// dates that same key.
pub proof fn law_delivery_keeps_to_its_claims(
    warehouse: u16,
    carrier: u8,
    timestamp: Seq<u8>,
    claims: Seq<DistrictClaim>,
    orders: Seq<LockedModel>,
    i: int,
)
    requires
        0 <= i < claims.len(),
        claims.len() == orders.len(),
        orders[i].claim == claims[i],
    ensures
        ({
            let reads = delivery_second_batch(warehouse, claims, claims.len() as int);
            let writes = delivery_third_batch(warehouse, carrier, timestamp, orders);
            let lock = reads[6 * i];
            let key = (
                warehouse as int,
                claims[i].district_id as int,
                claims[i].order_id as int,
            );
            let payer = (
                warehouse as int,
                claims[i].district_id as int,
                orders[i].customer_id as int,
            );
            &&& runs(lock, StatementId::DeliveryLockQueue)
            &&& last_three(lock) == key
            &&& forall|k: int|
                0 <= k < 6 ==> last_three(#[trigger] reads[6 * i + k]) == last_three(lock)
            &&& runs(writes[6 * i + 1], StatementId::DeliveryDeleteQueue)
            &&& last_three(writes[6 * i + 1]) == last_three(lock)
            &&& runs(writes[6 * i + 2], StatementId::DeliveryUpdateOrder)
            &&& last_three(writes[6 * i + 2]) == last_three(lock)
            &&& number(writes[6 * i + 2], 0) == carrier
            &&& runs(writes[6 * i + 3], StatementId::DeliveryUpdateLines)
            &&& last_three(writes[6 * i + 3]) == last_three(lock)
            &&& chars(writes[6 * i + 3], 0) == timestamp
            &&& runs(writes[6 * i], StatementId::DeliveryCustomer)
            &&& runs(writes[6 * i + 4], StatementId::DeliveryUpdateCustomer)
            &&& runs(writes[6 * i + 5], StatementId::DeliveryCustomerAfter)
            &&& last_three(writes[6 * i]) == payer
            &&& last_three(writes[6 * i + 4]) == payer
            &&& last_three(writes[6 * i + 5]) == payer
            &&& float(writes[6 * i + 4], 0) == orders[i].amount_bits
        }),
{
    let n = claims.len() as int;
    let reads = delivery_second_batch(warehouse, claims, n);
    lemma_claim_at(warehouse, claims, n, i, 0);
    assert forall|k: int| 0 <= k < 6 implies last_three(#[trigger] reads[6 * i + k]) == last_three(
        reads[6 * i],
    ) by {
        lemma_claim_at(warehouse, claims, n, i, k);
    }
    lemma_updates_len(warehouse, carrier, timestamp, orders, n);
    lemma_update_at(warehouse, carrier, timestamp, orders, n, i, 0);
    lemma_update_at(warehouse, carrier, timestamp, orders, n, i, 1);
    lemma_update_at(warehouse, carrier, timestamp, orders, n, i, 2);
    lemma_update_at(warehouse, carrier, timestamp, orders, n, i, 3);
    lemma_update_at(warehouse, carrier, timestamp, orders, n, i, 4);
    lemma_update_at(warehouse, carrier, timestamp, orders, n, i, 5);
}

/// The customer of an order before and after its updates.
pub proof fn lemma_customer_steps(
    s: Store,
    warehouse: u16,
    carrier: u8,
    timestamp: Seq<u8>,
    orders: Seq<LockedModel>,
    i: int,
)
    requires
        0 <= i < orders.len(),
        districts_apart(orders),
    ensures
        ({
            let ops = delivery_third_batch(warehouse, carrier, timestamp, orders);
            let payer = customer_key(warehouse, orders[i]);
            let before = effects(s, ops, 6 * i);
            let after = effects(s, ops, 6 * i + 5);
            &&& ops[6 * i] == operation_of(
                StatementId::DeliveryCustomer,
                seq![
                    WireModel::Int32(warehouse as i32),
                    WireModel::Int32(orders[i].claim.district_id as i32),
                    WireModel::Int32(orders[i].customer_id),
                ],
            )
            &&& ops[6 * i + 5] == operation_of(
                StatementId::DeliveryCustomerAfter,
                seq![
                    WireModel::Int32(warehouse as i32),
                    WireModel::Int32(orders[i].claim.district_id as i32),
                    WireModel::Int32(orders[i].customer_id),
                ],
            )
            &&& before.customers.dom() == s.customers.dom()
            &&& after.customers.dom() == s.customers.dom()
            &&& before.customers[payer] == s.customers[payer]
            &&& s.customers.contains_key(payer) ==> after.customers[payer] == customer_credited(
                s.customers[payer],
                orders[i].amount_bits,
            )
        }),
{
    let n = orders.len() as int;
    let all = all_order_updates(warehouse, carrier, timestamp, orders, n);
    let ops = delivery_third_batch(warehouse, carrier, timestamp, orders);
    let head = all_order_updates(warehouse, carrier, timestamp, orders, i);
    let more = order_updates(warehouse, carrier, timestamp, orders[i]);
    let payer = customer_key(warehouse, orders[i]);
    lemma_updates_len(warehouse, carrier, timestamp, orders, n);
    lemma_updates_len(warehouse, carrier, timestamp, orders, i);
    lemma_all_delivered(s, warehouse, carrier, timestamp, orders, i);
    lemma_updates_part(warehouse, carrier, timestamp, orders, n, i + 1);
    assert(all_order_updates(warehouse, carrier, timestamp, orders, i + 1) == head + more);
    lemma_effects_prefix(s, ops, head, 6 * i);
    lemma_effects_prefix(s, ops, head + more, 6 * i + 5);
    lemma_effects_joined(s, head, more, 5);
    let t = effects(s, head, 6 * i);
    lemma_order_delivered(t, warehouse, carrier, timestamp, orders[i]);
    assert forall|k: int| 0 <= k < i implies customer_key(warehouse, #[trigger] orders[k])
        != payer by {
        assert(orders[k].claim.district_id != orders[i].claim.district_id);
    }
    assert(t.customers[payer] == s.customers[payer]);
    lemma_update_at(warehouse, carrier, timestamp, orders, n, i, 0);
    lemma_update_at(warehouse, carrier, timestamp, orders, n, i, 5);
    let after = effects(s, ops, 6 * i + 5);
    assert(after == order_delivered(t, warehouse, carrier, timestamp, orders[i]));
    assert(after.customers.dom() =~= s.customers.dom());
}

/// The updates of fewer orders are the first of those of more.
proof fn lemma_updates_part(
    warehouse: u16,
    carrier: u8,
    timestamp: Seq<u8>,
    orders: Seq<LockedModel>,
    n: int,
    k: int,
)
    requires
        0 <= k <= n <= orders.len(),
    ensures
        forall|i: int|
            0 <= i < 6 * k ==> #[trigger] all_order_updates(
                warehouse,
                carrier,
                timestamp,
                orders,
                n,
            )[i] == all_order_updates(warehouse, carrier, timestamp, orders, k)[i],
    decreases n - k,
{
    if k < n {
        lemma_updates_part(warehouse, carrier, timestamp, orders, n - 1, k);
        lemma_updates_len(warehouse, carrier, timestamp, orders, n - 1);
    }
}

} // verus!
