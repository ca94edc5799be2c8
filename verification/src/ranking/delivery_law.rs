//! What the batches of a Delivery keep between them.
use vstd::prelude::*;

use crate::ranking::common::operation_of;
use crate::ranking::delivery::{
    DistrictClaim, LockedModel, StageTwoIndices, all_order_updates, claim_indices, claim_reads,
    customer_indices, delivery_second_batch, delivery_third_batch, order_updates,
};
use crate::ranking::delivery_locks::{
    LockOutcome, first_lost, lock_outcome, locked_order, locked_orders, queue_entries,
};
use crate::ranking::statement_id::{StatementId, wire_number};
use crate::wire::WireModel;

verus! {

proof fn lemma_second_batch_at(warehouse: u16, claims: Seq<DistrictClaim>, n: int, i: int, k: int)
    requires
        0 <= i < n <= claims.len(),
        0 <= k < 6,
    ensures
        delivery_second_batch(warehouse, claims, n).len() == 6 * n,
        delivery_second_batch(warehouse, claims, n)[6 * i + k] == claim_reads(
            warehouse,
            claims[i],
        )[k],
    decreases n,
{
    let before = delivery_second_batch(warehouse, claims, n - 1);
    if n > 1 {
        lemma_second_batch_at(warehouse, claims, n - 1, 0, 0);
        if i < n - 1 {
            lemma_second_batch_at(warehouse, claims, n - 1, i, k);
        }
    } else {
        assert(before.len() == 0);
    }
    assert(before.len() == 6 * (n - 1));
}

/// Every result that is read from the second batch belongs to the statement it
/// is read as, with the full key of its claim.
pub proof fn law_reads_stand_at_their_indices(warehouse: u16, claims: Seq<DistrictClaim>, i: int)
    requires
        0 <= i < claims.len(),
        6 * claims.len() <= usize::MAX,
    ensures
        ({
            let batch = delivery_second_batch(warehouse, claims, claims.len() as int);
            let index = claim_indices(i);
            let key = seq![
                WireModel::Int32(warehouse as i32),
                WireModel::Int32(claims[i].district_id as i32),
                WireModel::Int32(claims[i].order_id),
            ];
            &&& batch.len() == 6 * claims.len()
            &&& batch[index.earlier_queue_count as int] == operation_of(
                StatementId::DeliveryEarlierQueueCount,
                key,
            )
            &&& batch[index.exact_queue_count as int] == operation_of(
                StatementId::DeliveryExactQueueCount,
                key,
            )
            &&& batch[index.order as int] == operation_of(StatementId::DeliveryOrder, key)
            &&& batch[index.line_rows as int] == operation_of(StatementId::DeliveryLineRows, key)
            &&& batch[index.line_sum as int] == operation_of(StatementId::DeliveryLineSum, key)
        }),
{
    let n = claims.len() as int;
    lemma_second_batch_at(warehouse, claims, n, i, 1);
    lemma_second_batch_at(warehouse, claims, n, i, 2);
    lemma_second_batch_at(warehouse, claims, n, i, 3);
    lemma_second_batch_at(warehouse, claims, n, i, 4);
    lemma_second_batch_at(warehouse, claims, n, i, 5);
}

proof fn lemma_updates_at(
    warehouse: u16,
    carrier: u8,
    timestamp: Seq<u8>,
    orders: Seq<LockedModel>,
    n: int,
    i: int,
    k: int,
)
    requires
        0 <= i < n <= orders.len(),
        0 <= k < 6,
    ensures
        all_order_updates(warehouse, carrier, timestamp, orders, n).len() == 6 * n,
        all_order_updates(warehouse, carrier, timestamp, orders, n)[6 * i + k] == order_updates(
            warehouse,
            carrier,
            timestamp,
            orders[i],
        )[k],
    decreases n,
{
    let before = all_order_updates(warehouse, carrier, timestamp, orders, n - 1);
    if n > 1 {
        lemma_updates_at(warehouse, carrier, timestamp, orders, n - 1, 0, 0);
        if i < n - 1 {
            lemma_updates_at(warehouse, carrier, timestamp, orders, n - 1, i, k);
        }
    } else {
        assert(before.len() == 0);
    }
    assert(before.len() == 6 * (n - 1));
}

/// The third batch reads a customer before and after its update, and only its
/// last statement commits.
pub proof fn law_customers_stand_at_their_indices(
    warehouse: u16,
    carrier: u8,
    timestamp: Seq<u8>,
    orders: Seq<LockedModel>,
    i: int,
)
    requires
        0 <= i < orders.len(),
        6 * orders.len() < usize::MAX,
    ensures
        ({
            let batch = delivery_third_batch(warehouse, carrier, timestamp, orders);
            let index = customer_indices(i);
            let order = orders[i];
            let customer = seq![
                WireModel::Int32(warehouse as i32),
                WireModel::Int32(order.claim.district_id as i32),
                WireModel::Int32(order.customer_id),
            ];
            &&& batch.len() == 6 * orders.len() + 1
            &&& batch[index.customer_before as int] == operation_of(
                StatementId::DeliveryCustomer,
                customer,
            )
            &&& batch[index.customer_after as int] == operation_of(
                StatementId::DeliveryCustomerAfter,
                customer,
            )
            &&& batch[index.customer_after - 1] == operation_of(
                StatementId::DeliveryUpdateCustomer,
                seq![WireModel::Float32(order.amount_bits)] + customer,
            )
            &&& index.customer_before < index.customer_after - 1
            &&& batch.last() == operation_of(StatementId::Commit, Seq::empty())
            &&& forall|p: int|
                0 <= p < batch.len() - 1 ==> (#[trigger] batch[p]).statement_id != wire_number(
                    StatementId::Commit,
                )
        }),
{
    let n = orders.len() as int;
    let batch = delivery_third_batch(warehouse, carrier, timestamp, orders);
    lemma_updates_at(warehouse, carrier, timestamp, orders, n, i, 0);
    lemma_updates_at(warehouse, carrier, timestamp, orders, n, i, 4);
    lemma_updates_at(warehouse, carrier, timestamp, orders, n, i, 5);
    let order = orders[i];
    let customer = seq![
        WireModel::Int32(warehouse as i32),
        WireModel::Int32(order.claim.district_id as i32),
        WireModel::Int32(order.customer_id),
    ];
    assert(batch[6 * i + 4].parameters =~= seq![WireModel::Float32(order.amount_bits)] + customer);
    assert forall|p: int| 0 <= p < batch.len() - 1 implies (#[trigger] batch[p]).statement_id
        != wire_number(StatementId::Commit) by {
        lemma_updates_at(warehouse, carrier, timestamp, orders, n, p / 6, p % 6);
    }
}

proof fn lemma_first_lost(
    results: Seq<Option<Seq<Seq<WireModel>>>>,
    claims: Seq<DistrictClaim>,
    indices: Seq<StageTwoIndices>,
    n: int,
    i: int,
)
    requires
        0 <= i < n <= claims.len(),
        queue_entries(results, indices[i]) == 0,
        forall|k: int| 0 <= k < i ==> queue_entries(results, #[trigger] indices[k]) != 0,
    ensures
        first_lost(results, claims, indices, n) == Some(claims[i]),
    decreases n,
{
    if i < n - 1 {
        lemma_first_lost(results, claims, indices, n - 1, i);
    } else {
        lemma_none_lost(results, claims, indices, i);
    }
}

proof fn lemma_none_lost(
    results: Seq<Option<Seq<Seq<WireModel>>>>,
    claims: Seq<DistrictClaim>,
    indices: Seq<StageTwoIndices>,
    n: int,
)
    requires
        0 <= n <= claims.len(),
        forall|k: int| 0 <= k < n ==> queue_entries(results, #[trigger] indices[k]) != 0,
    ensures
        first_lost(results, claims, indices, n) is None,
        locked_orders(results, claims, indices, n) =~= Seq::new(
            n as nat,
            |k: int| locked_order(results, claims[k], indices[k]),
        ),
    decreases n,
{
    if n > 0 {
        lemma_none_lost(results, claims, indices, n - 1);
        assert(queue_entries(results, indices[n - 1]) != 0);
    }
}

/// One claim that has left the queue gives up all of them, and the first such
/// claim is named.
pub proof fn law_lost_claim_gives_up_all(
    results: Seq<Option<Seq<Seq<WireModel>>>>,
    claims: Seq<DistrictClaim>,
    indices: Seq<StageTwoIndices>,
    i: int,
)
    requires
        0 <= i < claims.len(),
        claims.len() == indices.len(),
        queue_entries(results, indices[i]) == 0,
        forall|k: int| 0 <= k < i ==> queue_entries(results, #[trigger] indices[k]) != 0,
    ensures
        lock_outcome(results, claims, indices) == LockOutcome::ClaimLost(claims[i]),
{
    lemma_first_lost(results, claims, indices, claims.len() as int, i);
}

/// Where no claim has left the queue, every claim gives one locked order, in
/// the order of the claims.
pub proof fn law_kept_claims_are_all_locked(
    results: Seq<Option<Seq<Seq<WireModel>>>>,
    claims: Seq<DistrictClaim>,
    indices: Seq<StageTwoIndices>,
)
    requires
        claims.len() == indices.len(),
        forall|k: int|
            0 <= k < claims.len() ==> queue_entries(results, #[trigger] indices[k]) != 0,
    ensures
        lock_outcome(results, claims, indices) == LockOutcome::Locked(
            Seq::new(claims.len(), |k: int| locked_order(results, claims[k], indices[k])),
        ),
{
    lemma_none_lost(results, claims, indices, claims.len() as int);
}

} // verus!
