//! Delivery: the customers before and after the orders were delivered.
use vstd::prelude::*;
use vstd::utf8::encode_utf8;

use crate::binary32::{sum, sum_bits};
use crate::checks::first;
use crate::ranking::common::{
    BatchResults, SemanticResult, SemanticViolation, Violation, f32_at, f32_fault, finite_f32,
    hex8, int32_at, int32_fault, non_finite_fault, row_f32_bits, row_int32, single_row_fault,
    single_row_of, violated, violates,
};
use crate::ranking::delivery::{LockedModel, LockedOrder, StageThreeIndex, locked_models};
use crate::ranking::row_checks::{copy_bytes, copy_patterns, int_text};
use crate::ranking::runner::{
    CustomerVersion, DeliveredOrderEvidence, RankedCommit, RankedTransactionOutcome,
};
use crate::text::{decimal, hex_digits, join2, join4, join5, join6, signed_decimal, unsigned_text};
use crate::wire::{WireModel, WireValue, row_model};

verus! {

/// The columns of a customer that a delivery changes or keeps.
#[derive(Clone, Copy, Debug, PartialEq, Eq, Structural)]
pub struct CustomerReading {
    pub balance_bits: u32,
    pub payment_count: i32,
    pub delivery_count: i32,
}

/// A customer before and after a delivery.
#[derive(Clone, Copy, Debug, PartialEq, Eq, Structural)]
pub struct CustomerTransition {
    pub before: CustomerReading,
    pub after: CustomerReading,
}

/// Why the row of a customer is refused.
pub open spec fn reading_fault(row: Seq<WireModel>, context: Seq<char>) -> Option<Violation> {
    first(
        violates(
            row.len() != 3,
            context + " returned "@ + decimal(row.len()) + " columns; expected three"@,
        ),
        first(
            f32_fault(row, 0, context),
            first(
                int32_fault(row, 1, context),
                first(
                    int32_fault(row, 2, context),
                    violates(
                        int32_at(row, 1) < 0 || int32_at(row, 2) < 0,
                        context + " has negative logical version ("@ + signed_decimal(
                            int32_at(row, 1) as int,
                        ) + ","@ + signed_decimal(int32_at(row, 2) as int) + ")"@,
                    ),
                ),
            ),
        ),
    )
}

/// The customer in a row.
pub open spec fn reading_of(row: Seq<WireModel>) -> CustomerReading {
    CustomerReading {
        balance_bits: f32_at(row, 0),
        payment_count: int32_at(row, 1),
        delivery_count: int32_at(row, 2),
    }
}

fn parse_customer_snapshot(row: &[WireValue], context: &str) -> (r: SemanticResult<CustomerReading>)
    ensures
        violated(r) == reading_fault(row_model(row@), context@),
        r matches Ok(reading) ==> reading == reading_of(row_model(row@)),
{
    if row.len() != 3 {
        return Err(
            SemanticViolation::of(
                join4(
                    context,
                    " returned ",
                    unsigned_text(row.len() as u64).as_str(),
                    " columns; expected three",
                ),
            ),
        );
    }
    let balance_bits: u32 = row_f32_bits(row, 0, context)?;
    let payment_count: i32 = row_int32(row, 1, context)?;
    let delivery_count: i32 = row_int32(row, 2, context)?;
    if payment_count < 0 || delivery_count < 0 {
        return Err(
            SemanticViolation::of(
                join6(
                    context,
                    " has negative logical version (",
                    int_text(payment_count).as_str(),
                    ",",
                    int_text(delivery_count).as_str(),
                    ")",
                ),
            ),
        );
    }
    Ok(CustomerReading { balance_bits, payment_count, delivery_count })
}

/// Why a balance after a delivery is refused: it is not the old balance plus
/// the amount, to the last bit.
pub open spec fn delivered_balance_fault(
    before: u32,
    amount: u32,
    actual: u32,
    context: Seq<char>,
) -> Option<Violation> {
    first(
        non_finite_fault(context + " before balance"@, before),
        first(
            non_finite_fault(context + " amount"@, amount),
            first(
                violates(
                    sum(before, amount) is None,
                    context + " relative balance update produced a non-finite FLOAT32"@,
                ),
                first(
                    non_finite_fault(context + " actual balance"@, actual),
                    violates(
                        sum(before, amount) != Some(actual),
                        context + " relative balance update mismatch: expected bits 0x"@
                            + hex_digits(sum(before, amount)->0 as nat, 8) + ", got 0x"@
                            + hex_digits(actual as nat, 8),
                    ),
                ),
            ),
        ),
    )
}

/// Why the counters after a delivery are refused: payments stay, and one
/// delivery is added.
pub open spec fn delivered_counts_fault(
    before: CustomerReading,
    actual: CustomerReading,
    context: Seq<char>,
) -> Option<Violation> {
    first(
        violates(
            actual.payment_count != before.payment_count,
            context + " payment count changed from "@ + signed_decimal(before.payment_count as int)
                + " to "@ + signed_decimal(actual.payment_count as int),
        ),
        first(
            violates(
                before.delivery_count == i32::MAX,
                context + " delivery count overflowed INT32"@,
            ),
            violates(
                actual.delivery_count != before.delivery_count + 1,
                context + " delivery count mismatch: expected "@ + signed_decimal(
                    before.delivery_count + 1,
                ) + ", got "@ + signed_decimal(actual.delivery_count as int),
            ),
        ),
    )
}

/// Why a customer after a delivery is refused.
pub open spec fn delivered_customer_fault(
    before: CustomerReading,
    amount: u32,
    actual: CustomerReading,
    context: Seq<char>,
) -> Option<Violation> {
    first(
        delivered_balance_fault(before.balance_bits, amount, actual.balance_bits, context),
        delivered_counts_fault(before, actual, context),
    )
}

fn check_balance(before: u32, amount: u32, actual: u32, context: &str) -> (r: SemanticResult<()>)
    ensures
        violated(r) == delivered_balance_fault(before, amount, actual, context@),
{
    finite_f32(before, join2(context, " before balance").as_str())?;
    finite_f32(amount, join2(context, " amount").as_str())?;
    let expected: u32 = match sum_bits(before, amount) {
        Some(bits) => bits,
        None => {
            return Err(
                SemanticViolation::of(
                    join2(context, " relative balance update produced a non-finite FLOAT32"),
                ),
            );
        },
    };
    finite_f32(actual, join2(context, " actual balance").as_str())?;
    if actual != expected {
        return Err(
            SemanticViolation::of(
                join5(
                    context,
                    " relative balance update mismatch: expected bits 0x",
                    hex8(expected).as_str(),
                    ", got 0x",
                    hex8(actual).as_str(),
                ),
            ),
        );
    }
    Ok(())
}

/// Checks a customer after a delivery.
pub fn validate_customer_after(
    before_balance_bits: u32,
    before_payment_count: i32,
    before_delivery_count: i32,
    amount_bits: u32,
    actual_balance_bits: u32,
    actual_payment_count: i32,
    actual_delivery_count: i32,
    context: &str,
) -> (r: SemanticResult<()>)
    ensures
        violated(r) == delivered_customer_fault(
            (CustomerReading {
                balance_bits: before_balance_bits,
                payment_count: before_payment_count,
                delivery_count: before_delivery_count,
            }),
            amount_bits,
            (CustomerReading {
                balance_bits: actual_balance_bits,
                payment_count: actual_payment_count,
                delivery_count: actual_delivery_count,
            }),
            context@,
        ),
{
    check_balance(before_balance_bits, amount_bits, actual_balance_bits, context)?;
    if actual_payment_count != before_payment_count {
        return Err(
            SemanticViolation::of(
                join5(
                    context,
                    " payment count changed from ",
                    int_text(before_payment_count).as_str(),
                    " to ",
                    int_text(actual_payment_count).as_str(),
                ),
            ),
        );
    }
    if before_delivery_count == i32::MAX {
        return Err(
            SemanticViolation::of(join2(context, " delivery count overflowed INT32")),
        );
    }
    if actual_delivery_count != before_delivery_count + 1 {
        return Err(
            SemanticViolation::of(
                join5(
                    context,
                    " delivery count mismatch: expected ",
                    int_text(before_delivery_count + 1).as_str(),
                    ", got ",
                    int_text(actual_delivery_count).as_str(),
                ),
            ),
        );
    }
    Ok(())
}

/// How messages name a locked order.
pub open spec fn delivered_text(order: LockedModel) -> Seq<char> {
    "Delivery district "@ + decimal(order.claim.district_id as nat) + " order "@ + signed_decimal(
        order.claim.order_id as int,
    ) + " customer "@ + signed_decimal(order.customer_id as int)
}

/// Why the customer of a delivered order is refused.
pub open spec fn transition_fault(
    results: Seq<Option<Seq<Seq<WireModel>>>>,
    order: LockedModel,
    index: StageThreeIndex,
) -> Option<Violation> {
    let context = delivered_text(order);
    let before = single_row_of(results, index.customer_before as int);
    let after = single_row_of(results, index.customer_after as int);
    first(
        single_row_fault(results, index.customer_before as int),
        first(
            reading_fault(before, context + " before update"@),
            first(
                single_row_fault(results, index.customer_after as int),
                first(
                    reading_fault(after, context + " after update"@),
                    delivered_customer_fault(
                        reading_of(before),
                        order.amount_bits,
                        reading_of(after),
                        context,
                    ),
                ),
            ),
        ),
    )
}

/// Why the customers of the orders from `i` on are refused.
pub open spec fn transitions_fault(
    results: Seq<Option<Seq<Seq<WireModel>>>>,
    orders: Seq<LockedModel>,
    indices: Seq<StageThreeIndex>,
    i: int,
) -> Option<Violation>
    decreases orders.len() - i,
{
    if i >= orders.len() {
        None
    } else {
        first(
            transition_fault(results, orders[i], indices[i]),
            transitions_fault(results, orders, indices, i + 1),
        )
    }
}

/// Why the third batch is refused.
pub open spec fn delivery_third_fault(
    results: Seq<Option<Seq<Seq<WireModel>>>>,
    orders: Seq<LockedModel>,
    indices: Seq<StageThreeIndex>,
) -> Option<Violation> {
    first(
        violates(
            orders.len() != indices.len(),
            "Delivery stage-three planner retained "@ + decimal(orders.len()) + " orders but "@
                + decimal(indices.len()) + " index records"@,
        ),
        transitions_fault(results, orders, indices, 0),
    )
}

/// The customer of an order before and after its delivery.
pub open spec fn transition_of(
    results: Seq<Option<Seq<Seq<WireModel>>>>,
    index: StageThreeIndex,
) -> CustomerTransition {
    CustomerTransition {
        before: reading_of(single_row_of(results, index.customer_before as int)),
        after: reading_of(single_row_of(results, index.customer_after as int)),
    }
}

fn check_transition(results: &BatchResults, order: &LockedOrder, index: StageThreeIndex) -> (r:
    SemanticResult<CustomerTransition>)
    ensures
        violated(r) == transition_fault(results@, order@, index),
        r matches Ok(transition) ==> transition == transition_of(results@, index),
{
    let context = join6(
        "Delivery district ",
        unsigned_text(order.claim.district_id as u64).as_str(),
        " order ",
        int_text(order.claim.order_id).as_str(),
        " customer ",
        int_text(order.customer_id).as_str(),
    );
    let before = parse_customer_snapshot(
        results.single_row(index.customer_before)?,
        join2(context.as_str(), " before update").as_str(),
    )?;
    let after = parse_customer_snapshot(
        results.single_row(index.customer_after)?,
        join2(context.as_str(), " after update").as_str(),
    )?;
    validate_customer_after(
        before.balance_bits,
        before.payment_count,
        before.delivery_count,
        order.amount_bits,
        after.balance_bits,
        after.payment_count,
        after.delivery_count,
        context.as_str(),
    )?;
    Ok(CustomerTransition { before, after })
}

/// Checks what the third batch read of the customers. The batch has committed,
/// so a violation is final.
pub fn validate_stage_three(
    results: &BatchResults,
    orders: &[LockedOrder],
    indices: &[StageThreeIndex],
) -> (r: SemanticResult<Vec<CustomerTransition>>)
    ensures
        violated(r) == delivery_third_fault(results@, locked_models(orders@), indices@),
        r matches Ok(transitions) ==> transitions@ == Seq::new(
            orders@.len(),
            |i: int| transition_of(results@, indices@[i]),
        ),
{
    let ghost models = locked_models(orders@);
    if orders.len() != indices.len() {
        return Err(
            SemanticViolation::of(
                join5(
                    "Delivery stage-three planner retained ",
                    unsigned_text(orders.len() as u64).as_str(),
                    " orders but ",
                    unsigned_text(indices.len() as u64).as_str(),
                    " index records",
                ),
            ),
        );
    }
    let mut transitions: Vec<CustomerTransition> = Vec::new();
    let mut i: usize = 0;
    while i < orders.len()
        invariant
            i <= orders@.len() == indices@.len(),
            models == locked_models(orders@),
            transitions_fault(results@, models, indices@, 0) == transitions_fault(
                results@,
                models,
                indices@,
                i as int,
            ),
            transitions@ =~= Seq::new(i as nat, |k: int| transition_of(results@, indices@[k])),
        decreases orders@.len() - i,
    {
        assert(models[i as int] == orders@[i as int]@);
        transitions.push(check_transition(results, &orders[i], indices[i])?);
        i = i + 1;
    }
    Ok(transitions)
}

/// Whether evidence says how an order was delivered.
pub open spec fn is_delivery_evidence(
    e: DeliveredOrderEvidence,
    warehouse: u16,
    timestamp: Seq<u8>,
    order: LockedModel,
    transition: CustomerTransition,
) -> bool {
    &&& e.warehouse_id == warehouse
    &&& e.district_id == order.claim.district_id
    &&& e.order_id == order.claim.order_id
    &&& e.customer_id == order.customer_id
    &&& e.line_count == order.line_count
    &&& e.amount_bits == order.amount_bits
    &&& e.customer_balance_before_bits == transition.before.balance_bits
    &&& e.customer_balance_after_bits == transition.after.balance_bits
    &&& e.customer_version_before == (CustomerVersion {
        payment_count: transition.before.payment_count,
        delivery_count: transition.before.delivery_count,
    })
    &&& e.customer_version_after == (CustomerVersion {
        payment_count: transition.after.payment_count,
        delivery_count: transition.after.delivery_count,
    })
    &&& e.delivery_timestamp@ == timestamp
    &&& e.line_amount_bits@ == order.line_amount_bits
}

fn order_evidence(
    warehouse_id: u16,
    timestamp: &str,
    order: &LockedOrder,
    transition: CustomerTransition,
) -> (r: DeliveredOrderEvidence)
    ensures
        is_delivery_evidence(r, warehouse_id, encode_utf8(timestamp@), order@, transition),
{
    DeliveredOrderEvidence {
        warehouse_id,
        district_id: order.claim.district_id,
        order_id: order.claim.order_id,
        customer_id: order.customer_id,
        line_count: order.line_count,
        amount_bits: order.amount_bits,
        customer_balance_before_bits: transition.before.balance_bits,
        customer_balance_after_bits: transition.after.balance_bits,
        customer_version_before: CustomerVersion {
            payment_count: transition.before.payment_count,
            delivery_count: transition.before.delivery_count,
        },
        customer_version_after: CustomerVersion {
            payment_count: transition.after.payment_count,
            delivery_count: transition.after.delivery_count,
        },
        delivery_timestamp: copy_bytes(timestamp.as_bytes()),
        line_amount_bits: copy_patterns(order.line_amount_bits.as_slice()),
    }
}

/// What a Delivery whose third batch went through has done, order by order.
pub fn delivery_outcome(
    warehouse_id: u16,
    timestamp: &str,
    orders: &[LockedOrder],
    transitions: &[CustomerTransition],
) -> (r: RankedTransactionOutcome)
    requires
        orders@.len() == transitions@.len(),
    ensures
        r matches RankedTransactionOutcome::Committed(RankedCommit::Delivery(list)) && list@.len()
            == orders@.len() && forall|i: int|
            0 <= i < list@.len() ==> is_delivery_evidence(
                #[trigger] list@[i],
                warehouse_id,
                encode_utf8(timestamp@),
                orders@[i]@,
                transitions@[i],
            ),
{
    let mut evidence: Vec<DeliveredOrderEvidence> = Vec::new();
    let mut i: usize = 0;
    while i < orders.len()
        invariant
            i <= orders@.len() == transitions@.len(),
            evidence@.len() == i,
            forall|k: int|
                0 <= k < i ==> is_delivery_evidence(
                    #[trigger] evidence@[k],
                    warehouse_id,
                    encode_utf8(timestamp@),
                    orders@[k]@,
                    transitions@[k],
                ),
        decreases orders@.len() - i,
    {
        evidence.push(order_evidence(warehouse_id, timestamp, &orders[i], transitions[i]));
        i = i + 1;
    }
    RankedTransactionOutcome::Committed(RankedCommit::Delivery(evidence))
}

} // verus!
