//! What the plans of the transactions have in common with their batches.
use vstd::prelude::*;

use crate::ranking::order_status_flow::{OrderStatusCourse, order_status_batch};
use crate::ranking::payment::{CustomerCredit, PaymentFound, payment_second_batch};
use crate::ranking::stage_templates::{
    Multiplicity, StageModel, StepModel, delivery_empty_plan, delivery_plan,
    new_order_expected_rollback_plan, new_order_plan, order_status_plan, payment_plan,
    stock_level_plan,
};
use crate::ranking::statement_id::{StatementId, wire_number};
use crate::ranking::store_model::runs;
use crate::wire::OperationModel;
use crate::workload::{PaymentInput, RoutedTransaction};

verus! {

/// The statements of a step are in a family: their numbers on the wire are in its range.
pub open spec fn step_within(step: StepModel, low: int, high: int) -> bool {
    forall|k: int|
        0 <= k < step.alternatives.len() ==> low <= wire_number(#[trigger] step.alternatives[k])
            < high
}

/// Whether a step is one statement, once.
pub open spec fn is_single(step: StepModel, id: StatementId) -> bool {
    step.alternatives == seq![id] && step.multiplicity == Multiplicity::Once
}

/// Whether a step neither begins nor ends a transaction.
pub open spec fn is_inner(step: StepModel) -> bool {
    step_within(step, 10, 200)
}

/// Whether a plan begins a transaction first, commits it last, and does neither between.
pub open spec fn opens_and_closes(plan: Seq<StageModel>) -> bool {
    let last = plan.len() - 1;
    &&& plan.len() >= 2
    &&& is_single(plan[0].steps[0], StatementId::Begin)
    &&& is_single(plan[last].steps.last(), StatementId::Commit)
    &&& forall|i: int, k: int|
        0 <= i < plan.len() && 0 <= k < plan[i].steps.len() && !(i == 0 && k == 0) && !(i == last
            && k == plan[last].steps.len() - 1) ==> is_inner(#[trigger] plan[i].steps[k])
}

/// Law: every plan begins one transaction with its first step and commits it with its last.
pub proof fn law_plans_open_and_close()
    ensures
        opens_and_closes(new_order_plan()),
        opens_and_closes(payment_plan()),
        opens_and_closes(order_status_plan()),
        opens_and_closes(delivery_plan()),
        opens_and_closes(stock_level_plan()),
        is_single(new_order_expected_rollback_plan().steps[0], StatementId::Abort),
        is_single(delivery_empty_plan().steps[0], StatementId::Commit),
{
}

/// Whether an operation is the one statement of a step, or one of its alternatives.
pub open spec fn is_step(op: OperationModel, step: StepModel) -> bool {
    step.multiplicity == Multiplicity::Once && exists|k: int|
        0 <= k < step.alternatives.len() && runs(op, #[trigger] step.alternatives[k])
}

/// Whether the operations of a batch are the steps of a stage, one each.
pub open spec fn follows(ops: Seq<OperationModel>, stage: StageModel) -> bool {
    &&& ops.len() == stage.steps.len()
    &&& forall|i: int| 0 <= i < ops.len() ==> is_step(#[trigger] ops[i], stage.steps[i])
}

/// Law: the batches of an OrderStatus follow its plan, round trip by round trip, and the
/// second batch of a Payment follows the second round trip of its own.
pub proof fn law_batches_follow_their_plans(
    m: OrderStatusCourse,
    route: RoutedTransaction,
    input: PaymentInput,
    timestamp: Seq<u8>,
    found: PaymentFound,
)
    ensures
        m.point is Customer ==> follows(order_status_batch(m), order_status_plan()[0]),
        m.point is Latest ==> follows(order_status_batch(m), order_status_plan()[1]),
        m.point is Read ==> follows(order_status_batch(m), order_status_plan()[2]),
        follows(
            payment_second_batch(
                route.home_warehouse,
                route.home_district,
                input.customer_warehouse,
                input.customer_district,
                input.amount_cents,
                input.amount_bits,
                timestamp,
                found,
            ).operations,
            payment_plan()[1],
        ),
{
    if !(m.point is Abort) {
        let ops = order_status_batch(m);
        let k: int = if m.point is Customer {
            0
        } else if m.point is Latest {
            1
        } else {
            2
        };
        let stage = order_status_plan()[k];
        assert(ops.len() == stage.steps.len());
        assert forall|i: int| 0 <= i < ops.len() implies is_step(
            #[trigger] ops[i],
            stage.steps[i],
        ) by {
            if k == 0 && i == 1 && m.customer is LastName {
                assert(runs(ops[i], stage.steps[i].alternatives[1]));
            } else {
                assert(runs(ops[i], stage.steps[i].alternatives[0]));
            }
        }
    }
    let ops = payment_second_batch(
        route.home_warehouse,
        route.home_district,
        input.customer_warehouse,
        input.customer_district,
        input.amount_cents,
        input.amount_bits,
        timestamp,
        found,
    ).operations;
    let stage = payment_plan()[1];
    assert(ops.len() == 4);
    assert forall|i: int| 0 <= i < ops.len() implies is_step(
        #[trigger] ops[i],
        stage.steps[i],
    ) by {
        if i == 0 && found.customer.credit == CustomerCredit::Bad {
            assert(runs(ops[i], stage.steps[i].alternatives[1]));
        } else {
            assert(runs(ops[i], stage.steps[i].alternatives[0]));
        }
    }
}

} // verus!
