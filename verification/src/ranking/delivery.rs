//! Delivery: the batches that claim, lock and deliver one order per district.
//!
//! The first batch finds the oldest order of each of the ten districts, the
//! second locks and reads every order found, and the third applies all updates
//! and commits. Every row is addressed by its full key.
use vstd::prelude::*;
use vstd::utf8::encode_utf8;

use crate::ranking::common::{operation, operation_of};
use crate::ranking::new_order::{bare_operation, int_pair, int_triple, lemma_operations_pushed};
use crate::ranking::row_checks::copy_bytes;
use crate::ranking::statement_id::StatementId;
use crate::wire::{Operation, OperationModel, WireModel, WireValue, operation_models, row_model};

verus! {

/// An order that Delivery wants to deliver.
#[derive(Clone, Copy, Debug, PartialEq, Eq, Structural)]
pub struct DistrictClaim {
    pub district_id: u8,
    pub order_id: i32,
}

/// Where the second batch finds what it read of a claim.
#[derive(Clone, Copy, Debug, PartialEq, Eq, Structural)]
pub struct StageTwoIndices {
    pub earlier_queue_count: usize,
    pub exact_queue_count: usize,
    pub order: usize,
    pub line_rows: usize,
    pub line_sum: usize,
}

/// An order that is locked and checked.
#[derive(Clone, Debug, PartialEq, Eq)]
pub struct LockedOrder {
    pub claim: DistrictClaim,
    pub customer_id: i32,
    pub line_count: u8,
    pub amount_bits: u32,
    pub line_amount_bits: Vec<u32>,
}

/// The content of a [`LockedOrder`].
#[verifier::ext_equal]
pub struct LockedModel {
    pub claim: DistrictClaim,
    pub customer_id: i32,
    pub line_count: u8,
    pub amount_bits: u32,
    pub line_amount_bits: Seq<u32>,
}

impl View for LockedOrder {
    type V = LockedModel;

    open spec fn view(&self) -> LockedModel {
        LockedModel {
            claim: self.claim,
            customer_id: self.customer_id,
            line_count: self.line_count,
            amount_bits: self.amount_bits,
            line_amount_bits: self.line_amount_bits@,
        }
    }
}

/// The contents of a list of locked orders.
pub open spec fn locked_models(orders: Seq<LockedOrder>) -> Seq<LockedModel> {
    Seq::new(orders.len(), |i: int| orders[i]@)
}

/// Where the third batch finds the customer of an order.
#[derive(Clone, Copy, Debug, PartialEq, Eq, Structural)]
pub struct StageThreeIndex {
    pub customer_before: usize,
    pub customer_after: usize,
}

/// The lookup of the oldest order of a district.
pub open spec fn oldest_lookup(warehouse: u16, district: int) -> OperationModel {
    operation_of(
        StatementId::DeliveryOldestOrder,
        seq![WireModel::Int32(warehouse as i32), WireModel::Int32(district as i32)],
    )
}

/// The first batch.
pub open spec fn delivery_first_batch(warehouse: u16) -> Seq<OperationModel> {
    seq![operation_of(StatementId::Begin, Seq::empty())] + Seq::new(
        10,
        |i: int| oldest_lookup(warehouse, i + 1),
    )
}

/// Builds the first batch: one lookup per district.
pub fn stage_one_operations(warehouse_id: u16) -> (r: Vec<Operation>)
    ensures
        operation_models(r@) == delivery_first_batch(warehouse_id),
{
    let mut operations: Vec<Operation> = Vec::new();
    operations.push(bare_operation(StatementId::Begin));
    let ghost goal = delivery_first_batch(warehouse_id);
    let mut district: u8 = 1;
    while district <= 10
        invariant
            1 <= district <= 11,
            goal == delivery_first_batch(warehouse_id),
            operation_models(operations@) =~= goal.subrange(0, district as int),
        decreases 11 - district,
    {
        let lookup = operation(
            StatementId::DeliveryOldestOrder,
            int_pair(warehouse_id as i32, district as i32),
        );
        let ghost before = operations@;
        operations.push(lookup);
        proof {
            lemma_operations_pushed(before, operations@, lookup);
            assert(goal[district as int] == oldest_lookup(warehouse_id, district as int));
            assert(goal.subrange(0, district as int + 1) =~= goal.subrange(
                0,
                district as int,
            ).push(goal[district as int]));
        }
        district = district + 1;
    }
    assert(goal.subrange(0, 11) =~= goal);
    operations
}

/// The reads of one claim.
pub open spec fn claim_reads(warehouse: u16, claim: DistrictClaim) -> Seq<OperationModel> {
    let key = seq![
        WireModel::Int32(warehouse as i32),
        WireModel::Int32(claim.district_id as i32),
        WireModel::Int32(claim.order_id),
    ];
    seq![
        operation_of(StatementId::DeliveryLockQueue, key),
        operation_of(StatementId::DeliveryEarlierQueueCount, key),
        operation_of(StatementId::DeliveryExactQueueCount, key),
        operation_of(StatementId::DeliveryOrder, key),
        operation_of(StatementId::DeliveryLineRows, key),
        operation_of(StatementId::DeliveryLineSum, key),
    ]
}

/// The reads of the first `n` claims.
pub open spec fn delivery_second_batch(
    warehouse: u16,
    claims: Seq<DistrictClaim>,
    n: int,
) -> Seq<OperationModel>
    decreases n,
{
    if n <= 0 {
        Seq::empty()
    } else {
        delivery_second_batch(warehouse, claims, n - 1) + claim_reads(warehouse, claims[n - 1])
    }
}

/// Where the reads of the claim at `i` stand.
pub open spec fn claim_indices(i: int) -> StageTwoIndices {
    StageTwoIndices {
        earlier_queue_count: (6 * i + 1) as usize,
        exact_queue_count: (6 * i + 2) as usize,
        order: (6 * i + 3) as usize,
        line_rows: (6 * i + 4) as usize,
        line_sum: (6 * i + 5) as usize,
    }
}

fn push_claim_reads(operations: &mut Vec<Operation>, warehouse_id: u16, claim: DistrictClaim)
    ensures
        operation_models(final(operations)@) == operation_models(old(operations)@) + claim_reads(
            warehouse_id,
            claim,
        ),
        final(operations)@.len() == old(operations)@.len() + 6,
{
    let w: i32 = warehouse_id as i32;
    let d: i32 = claim.district_id as i32;
    let o: i32 = claim.order_id;
    let ghost before = operations@;
    operations.push(operation(StatementId::DeliveryLockQueue, int_triple(w, d, o)));
    operations.push(operation(StatementId::DeliveryEarlierQueueCount, int_triple(w, d, o)));
    operations.push(operation(StatementId::DeliveryExactQueueCount, int_triple(w, d, o)));
    operations.push(operation(StatementId::DeliveryOrder, int_triple(w, d, o)));
    operations.push(operation(StatementId::DeliveryLineRows, int_triple(w, d, o)));
    operations.push(operation(StatementId::DeliveryLineSum, int_triple(w, d, o)));
    assert(operation_models(operations@) =~= operation_models(before) + claim_reads(
        warehouse_id,
        claim,
    ));
}

/// Builds the second batch: it locks and reads every claim.
pub fn stage_two_operations(warehouse_id: u16, claims: &[DistrictClaim]) -> (r: (
    Vec<Operation>,
    Vec<StageTwoIndices>,
))
    requires
        6 * claims@.len() <= usize::MAX,
    ensures
        operation_models(r.0@) == delivery_second_batch(
            warehouse_id,
            claims@,
            claims@.len() as int,
        ),
        r.1@ == Seq::new(claims@.len(), |i: int| claim_indices(i)),
{
    let mut operations: Vec<Operation> = Vec::new();
    let mut indices: Vec<StageTwoIndices> = Vec::new();
    let mut i: usize = 0;
    assert(operation_models(operations@) =~= Seq::empty());
    while i < claims.len()
        invariant
            i <= claims@.len(),
            6 * claims@.len() <= usize::MAX,
            operations@.len() == 6 * i,
            operation_models(operations@) == delivery_second_batch(
                warehouse_id,
                claims@,
                i as int,
            ),
            indices@ =~= Seq::new(i as nat, |k: int| claim_indices(k)),
        decreases claims@.len() - i,
    {
        let base: usize = operations.len();
        push_claim_reads(&mut operations, warehouse_id, claims[i]);
        indices.push(
            StageTwoIndices {
                earlier_queue_count: base + 1,
                exact_queue_count: base + 2,
                order: base + 3,
                line_rows: base + 4,
                line_sum: base + 5,
            },
        );
        i = i + 1;
    }
    (operations, indices)
}

/// The updates of one order.
pub open spec fn order_updates(
    warehouse: u16,
    carrier: u8,
    timestamp: Seq<u8>,
    order: LockedModel,
) -> Seq<OperationModel> {
    let w = WireModel::Int32(warehouse as i32);
    let d = WireModel::Int32(order.claim.district_id as i32);
    let o = WireModel::Int32(order.claim.order_id);
    let c = WireModel::Int32(order.customer_id);
    seq![
        operation_of(StatementId::DeliveryCustomer, seq![w, d, c]),
        operation_of(StatementId::DeliveryDeleteQueue, seq![w, d, o]),
        operation_of(
            StatementId::DeliveryUpdateOrder,
            seq![WireModel::Int32(carrier as i32), w, d, o],
        ),
        operation_of(StatementId::DeliveryUpdateLines, seq![WireModel::Char(timestamp), w, d, o]),
        operation_of(
            StatementId::DeliveryUpdateCustomer,
            seq![WireModel::Float32(order.amount_bits), w, d, c],
        ),
        operation_of(StatementId::DeliveryCustomerAfter, seq![w, d, c]),
    ]
}

/// The updates of the first `n` orders.
pub open spec fn all_order_updates(
    warehouse: u16,
    carrier: u8,
    timestamp: Seq<u8>,
    orders: Seq<LockedModel>,
    n: int,
) -> Seq<OperationModel>
    decreases n,
{
    if n <= 0 {
        Seq::empty()
    } else {
        all_order_updates(warehouse, carrier, timestamp, orders, n - 1) + order_updates(
            warehouse,
            carrier,
            timestamp,
            orders[n - 1],
        )
    }
}

/// The third batch.
pub open spec fn delivery_third_batch(
    warehouse: u16,
    carrier: u8,
    timestamp: Seq<u8>,
    orders: Seq<LockedModel>,
) -> Seq<OperationModel> {
    all_order_updates(warehouse, carrier, timestamp, orders, orders.len() as int).push(
        operation_of(StatementId::Commit, Seq::empty()),
    )
}

/// Where the customer of the order at `i` stands.
pub open spec fn customer_indices(i: int) -> StageThreeIndex {
    StageThreeIndex { customer_before: (6 * i) as usize, customer_after: (6 * i + 5) as usize }
}

fn keyed_operation(id: StatementId, value: WireValue, a: i32, b: i32, c: i32) -> (r: Operation)
    ensures
        r@ == operation_of(
            id,
            seq![value@, WireModel::Int32(a), WireModel::Int32(b), WireModel::Int32(c)],
        ),
{
    let ghost head = value@;
    let parameters = vec![value, WireValue::Int32(a), WireValue::Int32(b), WireValue::Int32(c)];
    assert(row_model(parameters@) =~= seq![
        head,
        WireModel::Int32(a),
        WireModel::Int32(b),
        WireModel::Int32(c),
    ]);
    operation(id, parameters)
}

fn push_order_updates(
    operations: &mut Vec<Operation>,
    warehouse_id: u16,
    carrier_id: u8,
    timestamp: &str,
    order: &LockedOrder,
)
    ensures
        operation_models(final(operations)@) == operation_models(old(operations)@) + order_updates(
            warehouse_id,
            carrier_id,
            encode_utf8(timestamp@),
            order@,
        ),
        final(operations)@.len() == old(operations)@.len() + 6,
{
    let w: i32 = warehouse_id as i32;
    let d: i32 = order.claim.district_id as i32;
    let o: i32 = order.claim.order_id;
    let c: i32 = order.customer_id;
    let ghost before = operations@;
    operations.push(operation(StatementId::DeliveryCustomer, int_triple(w, d, c)));
    operations.push(operation(StatementId::DeliveryDeleteQueue, int_triple(w, d, o)));
    operations.push(
        keyed_operation(
            StatementId::DeliveryUpdateOrder,
            WireValue::Int32(carrier_id as i32),
            w,
            d,
            o,
        ),
    );
    operations.push(
        keyed_operation(
            StatementId::DeliveryUpdateLines,
            WireValue::Char(copy_bytes(timestamp.as_bytes())),
            w,
            d,
            o,
        ),
    );
    operations.push(
        keyed_operation(
            StatementId::DeliveryUpdateCustomer,
            WireValue::Float32(order.amount_bits),
            w,
            d,
            c,
        ),
    );
    operations.push(operation(StatementId::DeliveryCustomerAfter, int_triple(w, d, c)));
    assert(operation_models(operations@) =~= operation_models(before) + order_updates(
        warehouse_id,
        carrier_id,
        encode_utf8(timestamp@),
        order@,
    ));
}

/// Builds the third batch: it delivers every locked order and commits.
pub fn stage_three_operations(
    warehouse_id: u16,
    carrier_id: u8,
    timestamp: &str,
    orders: &[LockedOrder],
) -> (r: (Vec<Operation>, Vec<StageThreeIndex>))
    requires
        6 * orders@.len() < usize::MAX,
    ensures
        operation_models(r.0@) == delivery_third_batch(
            warehouse_id,
            carrier_id,
            encode_utf8(timestamp@),
            locked_models(orders@),
        ),
        r.1@ == Seq::new(orders@.len(), |i: int| customer_indices(i)),
{
    let mut operations: Vec<Operation> = Vec::new();
    let mut indices: Vec<StageThreeIndex> = Vec::new();
    let ghost models = locked_models(orders@);
    let mut i: usize = 0;
    assert(operation_models(operations@) =~= Seq::empty());
    while i < orders.len()
        invariant
            i <= orders@.len(),
            6 * orders@.len() < usize::MAX,
            models == locked_models(orders@),
            operations@.len() == 6 * i,
            operation_models(operations@) == all_order_updates(
                warehouse_id,
                carrier_id,
                encode_utf8(timestamp@),
                models,
                i as int,
            ),
            indices@ =~= Seq::new(i as nat, |k: int| customer_indices(k)),
        decreases orders@.len() - i,
    {
        let base: usize = operations.len();
        assert(models[i as int] == orders@[i as int]@);
        push_order_updates(&mut operations, warehouse_id, carrier_id, timestamp, &orders[i]);
        indices.push(StageThreeIndex { customer_before: base, customer_after: base + 5 });
        i = i + 1;
    }
    let ghost before = operations@;
    let commit = bare_operation(StatementId::Commit);
    operations.push(commit);
    proof {
        lemma_operations_pushed(before, operations@, commit);
    }
    (operations, indices)
}

} // verus!
