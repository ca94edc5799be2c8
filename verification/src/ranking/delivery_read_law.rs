//! What a Delivery takes from the tables.
use vstd::prelude::*;

use crate::binary32::double_sum_pattern;
use crate::ranking::delivery::{
    DistrictClaim, LockedModel, StageTwoIndices, claim_indices, claim_reads, customer_indices,
    delivery_first_batch, delivery_second_batch, delivery_third_batch,
};
use crate::ranking::delivery_commit::{is_delivery_evidence, transition_fault, transition_of};
use crate::ranking::delivery_law::law_kept_claims_are_all_locked;
use crate::ranking::delivery_locks::{
    LockOutcome, delivery_second_fault, first_lost, line_amounts, lock_fault, lock_outcome,
    locked_order, locks_fault, queue_entries,
};
use crate::ranking::delivery_rows::{amount_sum_fault, claimed_order, claims_up_to};
use crate::ranking::delivery_store_law::{
    customer_key, districts_apart, law_delivery_delivers_its_orders, lemma_claim_at,
    lemma_customer_steps, order_key,
};
use crate::ranking::runner::DeliveredOrderEvidence;
use crate::ranking::store_model::{
    Connection, Store, effects, executed_all, lemma_delivery_reads, lemma_no_effect, number,
};
use crate::ranking::store_queries::{
    answers_at, delivery_lines, delivery_query, is_oldest, lemma_delivery_query, stored_amounts,
};
use crate::wire::WireModel;

verus! {

/// Whether the numbers of the undelivered orders are those of an INT32 column.
pub open spec fn queue_numbered(s: Store) -> bool {
    forall|w: int, d: int, o: int| #[trigger]
        s.new_orders.contains((w, d, o)) ==> 1 <= o <= i32::MAX
}

proof fn lemma_first_reads(s: Store, warehouse: u16, n: int)
    requires
        0 <= n <= 11,
    ensures
        effects(s, delivery_first_batch(warehouse), n) == s,
    decreases n,
{
    if n > 0 {
        lemma_first_reads(s, warehouse, n - 1);
        let op = delivery_first_batch(warehouse)[n - 1];
        if n == 1 {
            lemma_no_effect(s, op);
        } else {
            lemma_delivery_reads(s, op);
        }
    }
}

/// The claim of one district.
proof fn lemma_claim(
    s: Store,
    warehouse: u16,
    results: Seq<Option<Seq<Seq<WireModel>>>>,
    d: int,
)
    requires
        1 <= d <= 10,
        queue_numbered(s),
        answers_at(s, delivery_first_batch(warehouse), results, d),
    ensures
        match claimed_order(results[d]->0) {
            Some(o) => is_oldest(s, warehouse as int, d, o as int),
            None => forall|o: int| !is_oldest(s, warehouse as int, d, o),
        },
{
    let ops = delivery_first_batch(warehouse);
    lemma_first_reads(s, warehouse, d);
    lemma_delivery_query(s, ops[d]);
    let w = warehouse as int;
    assert(number(ops[d], 0) == w && number(ops[d], 1) == d);
    if exists|o: int| is_oldest(s, w, d, o) {
        let o = choose|o: int| is_oldest(s, w, d, o);
        assert(is_oldest(s, w, d, o));
    }
}

proof fn lemma_claims(
    s: Store,
    warehouse: u16,
    results: Seq<Option<Seq<Seq<WireModel>>>>,
    n: int,
)
    requires
        0 <= n <= 10,
        queue_numbered(s),
        forall|d: int|
            1 <= d <= 10 ==> #[trigger] answers_at(s, delivery_first_batch(warehouse), results, d),
    ensures
        ({
            let claims = claims_up_to(results, n);
            &&& forall|i: int|
                0 <= i < claims.len() ==> 1 <= (#[trigger] claims[i]).district_id <= n && is_oldest(
                    s,
                    warehouse as int,
                    claims[i].district_id as int,
                    claims[i].order_id as int,
                )
            &&& forall|i: int, j: int|
                0 <= i < j < claims.len() ==> (#[trigger] claims[i]).district_id < (
                #[trigger] claims[j]).district_id
            &&& forall|d: int, o: int|
                1 <= d <= n && #[trigger] is_oldest(s, warehouse as int, d, o) ==> exists|i: int|
                    0 <= i < claims.len() && (#[trigger] claims[i]).district_id == d
                        && claims[i].order_id == o
        }),
    decreases n,
{
    if n > 0 {
        lemma_claims(s, warehouse, results, n - 1);
        assert(answers_at(s, delivery_first_batch(warehouse), results, n));
        lemma_claim(s, warehouse, results, n);
        let before = claims_up_to(results, n - 1);
        let claims = claims_up_to(results, n);
        assert forall|d: int, o: int|
            1 <= d <= n && #[trigger] is_oldest(s, warehouse as int, d, o) implies exists|i: int|
            0 <= i < claims.len() && (#[trigger] claims[i]).district_id == d && claims[i].order_id
                == o by {
            if d < n {
                let i = choose|i: int|
                    0 <= i < before.len() && (#[trigger] before[i]).district_id == d
                        && before[i].order_id == o;
                assert(claims[i] == before[i]);
            } else {
                let last = claims[claims.len() - 1];
                assert(is_oldest(s, warehouse as int, d, last.order_id as int));
                assert(s.new_orders.contains((warehouse as int, d, o)));
                assert(s.new_orders.contains((warehouse as int, d, last.order_id as int)));
            }
        }
    }
}

/// Law: a Delivery claims the oldest order of each district that has one. Where the
/// tables answer the first batch, the claims are exactly these, in the order of the
/// districts.
pub proof fn law_claims_are_the_oldest_orders(
    s: Store,
    warehouse: u16,
    results: Seq<Option<Seq<Seq<WireModel>>>>,
)
    requires
        queue_numbered(s),
        forall|d: int|
            1 <= d <= 10 ==> #[trigger] answers_at(s, delivery_first_batch(warehouse), results, d),
    ensures
        ({
            let claims = claims_up_to(results, 10);
            &&& forall|i: int|
                0 <= i < claims.len() ==> 1 <= (#[trigger] claims[i]).district_id <= 10
                    && is_oldest(
                    s,
                    warehouse as int,
                    claims[i].district_id as int,
                    claims[i].order_id as int,
                )
            &&& forall|i: int, j: int|
                0 <= i < j < claims.len() ==> (#[trigger] claims[i]).district_id < (
                #[trigger] claims[j]).district_id
            &&& forall|d: int, o: int|
                1 <= d <= 10 && #[trigger] is_oldest(s, warehouse as int, d, o) ==> exists|i: int|
                    0 <= i < claims.len() && (#[trigger] claims[i]).district_id == d
                        && claims[i].order_id == o
        }),
{
    lemma_claims(s, warehouse, results, 10);
}

proof fn lemma_second_reads(s: Store, warehouse: u16, claims: Seq<DistrictClaim>, n: int)
    requires
        0 <= n <= 6 * claims.len(),
    ensures
        effects(s, delivery_second_batch(warehouse, claims, claims.len() as int), n) == s,
    decreases n,
{
    if n > 0 {
        lemma_second_reads(s, warehouse, claims, n - 1);
        let i = (n - 1) / 6;
        let k = (n - 1) % 6;
        lemma_claim_at(warehouse, claims, claims.len() as int, i, k);
        let op = delivery_second_batch(warehouse, claims, claims.len() as int)[n - 1];
        assert(op == claim_reads(warehouse, claims[i])[k]);
        lemma_delivery_reads(s, op);
    }
}

/// Whether the reads of a claim were answered by the tables.
pub open spec fn claim_answered(
    s: Store,
    warehouse: u16,
    claims: Seq<DistrictClaim>,
    results: Seq<Option<Seq<Seq<WireModel>>>>,
    i: int,
) -> bool {
    let ops = delivery_second_batch(warehouse, claims, claims.len() as int);
    &&& answers_at(s, ops, results, 6 * i + 1)
    &&& answers_at(s, ops, results, 6 * i + 2)
    &&& answers_at(s, ops, results, 6 * i + 3)
    &&& answers_at(s, ops, results, 6 * i + 4)
    &&& answers_at(s, ops, results, 6 * i + 5)
}

/// The key of a claim.
pub open spec fn claim_key(warehouse: u16, claim: DistrictClaim) -> (int, int, int) {
    (warehouse as int, claim.district_id as int, claim.order_id as int)
}

/// Whether a locked order says what the tables hold of it.
pub open spec fn locked_is_stored(s: Store, warehouse: u16, order: LockedModel) -> bool {
    let key = claim_key(warehouse, order.claim);
    let row = s.orders[key];
    &&& s.new_orders.contains(key)
    &&& s.orders.contains_key(key)
    &&& order.customer_id == row.o_c_id as i32
    &&& row.o_carrier_id as i32 == 0
    &&& 5 <= row.o_ol_cnt <= 15
    &&& order.line_count == row.o_ol_cnt
    &&& order.line_amount_bits == stored_amounts(s, key)
    &&& double_sum_pattern(stored_amounts(s, key)) == Some(order.amount_bits)
}

proof fn lemma_lock_accepted(
    results: Seq<Option<Seq<Seq<WireModel>>>>,
    claims: Seq<DistrictClaim>,
    indices: Seq<StageTwoIndices>,
    from: int,
    i: int,
)
    requires
        0 <= from <= i < claims.len(),
        locks_fault(results, claims, indices, from) is None,
    ensures
        lock_fault(results, claims[i], indices[i]) is None,
    decreases i - from,
{
    if from < i {
        lemma_lock_accepted(results, claims, indices, from + 1, i);
    }
}

/// What one accepted claim found.
proof fn lemma_locked(
    s: Store,
    warehouse: u16,
    claims: Seq<DistrictClaim>,
    results: Seq<Option<Seq<Seq<WireModel>>>>,
    i: int,
)
    requires
        0 <= i < claims.len() <= 10,
        claim_answered(s, warehouse, claims, results, i),
        lock_fault(results, claims[i], claim_indices(i)) is None,
        orders_sized(s),
    ensures
        queue_entries(results, claim_indices(i)) == 0 <==> !s.new_orders.contains(
            claim_key(warehouse, claims[i]),
        ),
        queue_entries(results, claim_indices(i)) != 0 ==> locked_is_stored(
            s,
            warehouse,
            locked_order(results, claims[i], claim_indices(i)),
        ),
{
    let n = claims.len() as int;
    let ops = delivery_second_batch(warehouse, claims, n);
    let key = claim_key(warehouse, claims[i]);
    lemma_claim_at(warehouse, claims, n, i, 2);
    lemma_claim_at(warehouse, claims, n, i, 3);
    lemma_claim_at(warehouse, claims, n, i, 4);
    lemma_claim_at(warehouse, claims, n, i, 5);
    lemma_second_reads(s, warehouse, claims, 6 * i + 2);
    lemma_second_reads(s, warehouse, claims, 6 * i + 3);
    lemma_second_reads(s, warehouse, claims, 6 * i + 4);
    lemma_delivery_query(s, ops[6 * i + 2]);
    lemma_delivery_query(s, ops[6 * i + 3]);
    lemma_delivery_query(s, ops[6 * i + 4]);
    assert(results[6 * i + 2]->0 == delivery_query(s, ops[6 * i + 2]));
    if queue_entries(results, claim_indices(i)) != 0 {
        let rows = results[6 * i + 4]->0;
        assert(rows == delivery_lines(s, key));
        assert(line_amounts(rows) =~= stored_amounts(s, key));
        lemma_sum_accepted(line_amounts(rows));
    }
}

proof fn lemma_sum_accepted(values: Seq<u32>)
    requires
        amount_sum_fault(values) is None,
    ensures
        double_sum_pattern(values) is Some,
{
}

/// Whether every order has a number of lines that an INT32 column holds.
pub open spec fn orders_sized(s: Store) -> bool {
    forall|key: (int, int, int)| #[trigger]
        s.orders.contains_key(key) ==> 0 <= s.orders[key].o_ol_cnt <= i32::MAX
}

/// Law: what a Delivery locks is what is stored. Where the tables answer the second
/// batch and it is accepted, a claim is given up exactly if it has left the queue;
/// and if none has, the locked orders are the claimed ones, in order, each with the
/// customer, the number of lines, the amounts and the sum that the tables hold.
pub proof fn law_locked_orders_are_stored(
    s: Store,
    warehouse: u16,
    claims: Seq<DistrictClaim>,
    results: Seq<Option<Seq<Seq<WireModel>>>>,
)
    requires
        claims.len() <= 10,
        orders_sized(s),
        forall|i: int|
            0 <= i < claims.len() ==> #[trigger] claim_answered(s, warehouse, claims, results, i),
        delivery_second_fault(
            results,
            claims,
            Seq::new(claims.len(), |i: int| claim_indices(i)),
        ) is None,
    ensures
        match lock_outcome(results, claims, Seq::new(claims.len(), |i: int| claim_indices(i))) {
            LockOutcome::ClaimLost(claim) => claims.contains(claim) && !s.new_orders.contains(
                claim_key(warehouse, claim),
            ),
            LockOutcome::Locked(orders) => {
                &&& orders.len() == claims.len()
                &&& forall|i: int|
                    0 <= i < claims.len() ==> (#[trigger] orders[i]).claim == claims[i]
                        && locked_is_stored(s, warehouse, orders[i])
            },
        },
{
    let indices = Seq::new(claims.len(), |i: int| claim_indices(i));
    let n = claims.len() as int;
    assert forall|i: int| 0 <= i < n implies (queue_entries(results, #[trigger] indices[i]) == 0
        <==> !s.new_orders.contains(claim_key(warehouse, claims[i]))) && (queue_entries(
        results,
        indices[i],
    ) != 0 ==> locked_is_stored(s, warehouse, locked_order(results, claims[i], indices[i]))) by {
        assert(claim_answered(s, warehouse, claims, results, i));
        lemma_lock_accepted(results, claims, indices, 0, i);
        lemma_locked(s, warehouse, claims, results, i);
    }
    if forall|k: int| 0 <= k < n ==> queue_entries(results, #[trigger] indices[k]) != 0 {
        law_kept_claims_are_all_locked(results, claims, indices);
    } else {
        let lost = lemma_some_lost(results, claims, indices, n);
        assert(indices[lost] == claim_indices(lost));
        assert(claims.contains(claims[lost]));
    }
}

/// The first claim that has left the queue.
proof fn lemma_some_lost(
    results: Seq<Option<Seq<Seq<WireModel>>>>,
    claims: Seq<DistrictClaim>,
    indices: Seq<StageTwoIndices>,
    n: int,
) -> (lost: int)
    requires
        0 <= n <= claims.len(),
        claims.len() == indices.len(),
        !(forall|k: int| 0 <= k < n ==> queue_entries(results, #[trigger] indices[k]) != 0),
    ensures
        0 <= lost < n,
        queue_entries(results, indices[lost]) == 0,
        first_lost(results, claims, indices, n) == Some(claims[lost]),
    decreases n,
{
    if n <= 0 {
        0
    } else if forall|k: int| 0 <= k < n - 1 ==> queue_entries(results, #[trigger] indices[k]) != 0 {
        lemma_none_lost_before(results, claims, indices, n - 1);
        n - 1
    } else {
        lemma_some_lost(results, claims, indices, n - 1)
    }
}

proof fn lemma_none_lost_before(
    results: Seq<Option<Seq<Seq<WireModel>>>>,
    claims: Seq<DistrictClaim>,
    indices: Seq<StageTwoIndices>,
    n: int,
)
    requires
        0 <= n <= indices.len(),
        forall|k: int| 0 <= k < n ==> queue_entries(results, #[trigger] indices[k]) != 0,
    ensures
        first_lost(results, claims, indices, n) is None,
    decreases n,
{
    if n > 0 {
        lemma_none_lost_before(results, claims, indices, n - 1);
        assert(queue_entries(results, indices[n - 1]) != 0);
    }
}

/// Whether evidence says what the tables held before and after a Delivery.
pub open spec fn delivery_stored(
    e: DeliveredOrderEvidence,
    s: Store,
    t: Store,
) -> bool {
    let key = (e.warehouse_id as int, e.district_id as int, e.order_id as int);
    let payer = (e.warehouse_id as int, e.district_id as int, e.customer_id as int);
    let before = s.customers[payer];
    let after = t.customers[payer];
    &&& s.customers.contains_key(payer)
    &&& !t.new_orders.contains(key)
    &&& e.customer_balance_before_bits == before.c_balance
    &&& e.customer_balance_after_bits == after.c_balance
    &&& e.customer_version_before.payment_count == before.c_payment_cnt as i32
    &&& e.customer_version_before.delivery_count == before.c_delivery_cnt as i32
    &&& e.customer_version_after.payment_count == after.c_payment_cnt as i32
    &&& e.customer_version_after.delivery_count == after.c_delivery_cnt as i32
}

/// Law: the evidence of a Delivery is what the tables held. Where the tables answer
/// the third batch and it is accepted, the evidence of each order has the order's own
/// key, customer, lines and amounts, and the customer's row as it was stored before
/// the batch and as the commit left it.
pub proof fn law_delivery_evidence_is_what_was_stored(
    c: Connection,
    warehouse: u16,
    carrier: u8,
    timestamp: Seq<u8>,
    orders: Seq<LockedModel>,
    results: Seq<Option<Seq<Seq<WireModel>>>>,
    i: int,
    e: DeliveredOrderEvidence,
)
    requires
        orders.len() <= 10,
        districts_apart(orders),
        0 <= i < orders.len(),
        answers_at(
            c.open,
            delivery_third_batch(warehouse, carrier, timestamp, orders),
            results,
            6 * i,
        ),
        answers_at(
            c.open,
            delivery_third_batch(warehouse, carrier, timestamp, orders),
            results,
            6 * i + 5,
        ),
        transition_fault(results, orders[i], customer_indices(i)) is None,
        is_delivery_evidence(
            e,
            warehouse,
            timestamp,
            orders[i],
            transition_of(results, customer_indices(i)),
        ),
    ensures
        ({
            let ops = delivery_third_batch(warehouse, carrier, timestamp, orders);
            &&& e.warehouse_id == warehouse
            &&& e.district_id == orders[i].claim.district_id
            &&& e.order_id == orders[i].claim.order_id
            &&& e.customer_id == orders[i].customer_id
            &&& e.line_count == orders[i].line_count
            &&& e.amount_bits == orders[i].amount_bits
            &&& e.line_amount_bits@ == orders[i].line_amount_bits
            &&& e.delivery_timestamp@ == timestamp
            &&& delivery_stored(e, c.open, executed_all(c, ops, ops.len() as int).kept)
        }),
{
    let s = c.open;
    let n = orders.len() as int;
    let ops = delivery_third_batch(warehouse, carrier, timestamp, orders);
    law_delivery_delivers_its_orders(c, warehouse, carrier, timestamp, orders);
    lemma_customer_steps(s, warehouse, carrier, timestamp, orders, i);
    let first = effects(s, ops, 6 * i);
    let last = effects(s, ops, 6 * i + 5);
    lemma_delivery_query(first, ops[6 * i]);
    lemma_delivery_query(last, ops[6 * i + 5]);
    let payer = customer_key(warehouse, orders[i]);
    assert(customer_key(warehouse, orders[i]) == payer);
    let t = executed_all(c, ops, ops.len() as int).kept;
    assert(first.customers[payer] == s.customers[payer]);
    assert(!t.new_orders.contains(order_key(warehouse, orders[i])));
}

} // verus!
