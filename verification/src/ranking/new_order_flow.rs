//! The course of a NewOrder, from answer to answer.
use vstd::prelude::*;
use vstd::utf8::encode_utf8;

use crate::checks::first;
use crate::ranking::common::{
    BatchResults, SemanticViolation, accept_batch, response_fault, response_rows,
};
use crate::ranking::flow::{
    FlowFault, FlowNext, FlowStep, RankedTransactionError, abort_batch, abort_operations,
    after_abort, copy_operations, end_abort, open_error, open_fault,
};
use crate::ranking::new_order::{
    OrderPlan, StageOneModel, StageOnePlan, ValidatedInput, build_stage_one, first_batch,
    frozen_lines_fault, order_input_fault, order_line_fault, planned_line, planned_order,
    validate_input,
};
use crate::ranking::new_order_rows::{
    MaterializedOrder, ReadOrder, first_results_fault, first_results_order, line_read_fault,
    line_reads_fault, parse_stage_one, read_line, read_lines,
};
use crate::ranking::new_order_writes::{
    StageTwoModel, StageTwoPlan, build_stage_two, is_order_evidence, order_outcome,
    quantities_fit, second_batch, second_batch_fault, second_results_fault,
    validate_stage_two_stock_readbacks,
};
use crate::ranking::order_status_flow::after_read;
use crate::ranking::runner::{RankedCommit, RankedTransactionOutcome};
use crate::wire::{BatchResponse, Operation, OperationModel, WireModel, operation_models};
use crate::workload::{NewOrderInput, OrderLineInput, RoutedTransaction};

verus! {

/// What a NewOrder waits for.
#[allow(inconsistent_fields)]
#[derive(Clone, Debug, PartialEq, Eq)]
pub enum NewOrderStage {
    /// The items and stock rows.
    Read { plan: StageOnePlan },
    /// The writes and their commit or abort.
    Write { read: MaterializedOrder, plan: StageTwoPlan },
    /// The abort after a failure.
    Abort(RankedTransactionError),
}

/// The content of a [`NewOrderStage`].
#[allow(inconsistent_fields)]
#[verifier::ext_equal]
pub enum NewOrderPoint {
    Read { plan: StageOneModel },
    Write { read: ReadOrder, plan: StageTwoModel },
    Abort(FlowFault),
}

impl View for NewOrderStage {
    type V = NewOrderPoint;

    open spec fn view(&self) -> NewOrderPoint {
        match *self {
            NewOrderStage::Read { plan } => NewOrderPoint::Read { plan: plan@ },
            NewOrderStage::Write { read, plan } => NewOrderPoint::Write { read: read@, plan: plan@ },
            NewOrderStage::Abort(error) => NewOrderPoint::Abort(error@),
        }
    }
}

/// A NewOrder under way, with the batch that is sent next.
#[derive(Clone, Debug, PartialEq, Eq)]
pub struct NewOrderFlow {
    pub order: ValidatedInput,
    pub batch: Vec<Operation>,
    pub stage: NewOrderStage,
}

/// The content of a [`NewOrderFlow`].
#[verifier::ext_equal]
pub struct NewOrderCourse {
    pub order: OrderPlan,
    pub point: NewOrderPoint,
}

impl View for NewOrderFlow {
    type V = NewOrderCourse;

    open spec fn view(&self) -> NewOrderCourse {
        NewOrderCourse { order: self.order@, point: self.stage@ }
    }
}

/// The batch that belongs to a point.
pub open spec fn new_order_batch(m: NewOrderCourse) -> Seq<OperationModel> {
    match m.point {
        NewOrderPoint::Read { plan } => plan.operations,
        NewOrderPoint::Write { plan, .. } => plan.operations,
        NewOrderPoint::Abort(_) => abort_batch(),
    }
}

/// An order that was checked before anything was sent.
pub open spec fn order_sound(order: OrderPlan) -> bool {
    &&& 1 <= order.warehouse_id <= 50
    &&& 1 <= order.district_id <= 10
    &&& 5 <= order.lines.len() <= 15
    &&& forall|i: int|
        0 <= i < order.lines.len() ==> 1 <= (#[trigger] order.lines[i]).quantity <= 10
}

impl NewOrderFlow {
    /// The batch is the one of the stage, and the order was checked.
    pub open spec fn wf(self) -> bool {
        &&& operation_models(self.batch@) == new_order_batch(self@)
        &&& order_sound(self@.order)
    }
}

/// What the outcome of a NewOrder is made of.
#[verifier::ext_equal]
pub struct NewOrderEnd {
    pub read: ReadOrder,
    pub plan: StageTwoModel,
}

/// The same NewOrder at another point.
pub open spec fn new_order_at(m: NewOrderCourse, point: NewOrderPoint) -> FlowNext<
    NewOrderCourse,
    NewOrderEnd,
> {
    FlowNext::Next(NewOrderCourse { point, ..m })
}

/// What follows the reads.
pub open spec fn after_order_read(
    m: NewOrderCourse,
    plan: StageOneModel,
    results: Seq<Option<Seq<Seq<WireModel>>>>,
) -> FlowNext<NewOrderCourse, NewOrderEnd> {
    let read = first_results_order(m.order, plan, results);
    match first(first_results_fault(m.order, plan, results), second_batch_fault(m.order, read)) {
        Some(violation) => new_order_at(m, NewOrderPoint::Abort(open_fault(violation))),
        None => new_order_at(
            m,
            NewOrderPoint::Write { read, plan: second_batch(m.order, read) },
        ),
    }
}

/// What follows the writes. They are committed or rolled back, so nothing is
/// aborted.
pub open spec fn after_order_write(
    read: ReadOrder,
    plan: StageTwoModel,
    results: Seq<Option<Seq<Seq<WireModel>>>>,
) -> FlowNext<NewOrderCourse, NewOrderEnd> {
    match second_results_fault(results, plan) {
        Some(violation) => FlowNext::Failed(FlowFault::Semantic(violation)),
        None => FlowNext::Finished(NewOrderEnd { read, plan }),
    }
}

/// What follows an answer.
pub open spec fn new_order_next(m: NewOrderCourse, response: BatchResponse) -> FlowNext<
    NewOrderCourse,
    NewOrderEnd,
> {
    let n = new_order_batch(m).len();
    let fault = response_fault(response, n);
    let results = response_rows(response, n);
    match m.point {
        NewOrderPoint::Abort(pending) => FlowNext::Failed(after_abort(pending, fault)),
        point => match fault {
            Some(batch) => FlowNext::Failed(FlowFault::Batch(batch)),
            None => match point {
                NewOrderPoint::Read { plan } => after_order_read(m, plan, results),
                NewOrderPoint::Write { read, plan } => after_order_write(read, plan, results),
                NewOrderPoint::Abort(pending) => FlowNext::Failed(pending),
            },
        },
    }
}

/// Whether an outcome is that of a NewOrder: a rollback where one is expected,
/// or the evidence of the order.
pub open spec fn is_order_outcome(
    outcome: RankedTransactionOutcome,
    order: OrderPlan,
    end: NewOrderEnd,
) -> bool {
    if order.expected_rollback {
        outcome is ExpectedRollback
    } else {
        outcome matches RankedTransactionOutcome::Committed(RankedCommit::NewOrder(evidence))
            && is_order_evidence(evidence, order, end.read, end.plan)
    }
}

/// Whether a step is the one that follows.
pub open spec fn is_new_order_step(
    m: NewOrderCourse,
    next: FlowNext<NewOrderCourse, NewOrderEnd>,
    step: FlowStep<NewOrderFlow>,
) -> bool {
    match step {
        FlowStep::Next(flow) => flow.wf() && next == FlowNext::<NewOrderCourse, NewOrderEnd>::Next(
            flow@,
        ),
        FlowStep::Done(Err(error)) => next == FlowNext::<NewOrderCourse, NewOrderEnd>::Failed(
            error@,
        ),
        FlowStep::Done(Ok(outcome)) => next matches FlowNext::Finished(end) && is_order_outcome(
            outcome,
            m.order,
            end,
        ),
    }
}

proof fn lemma_frozen_lines(lines: Seq<OrderLineInput>, i: int, k: int)
    requires
        0 <= i <= k < lines.len(),
        frozen_lines_fault(lines, i) is None,
    ensures
        order_line_fault(lines, k) is None,
    decreases lines.len() - i,
{
    if i < k {
        lemma_frozen_lines(lines, i + 1, k);
    }
}

/// An input that is accepted is planned soundly.
proof fn lemma_planned_sound(route: RoutedTransaction, input: NewOrderInput, timestamp: Seq<u8>)
    requires
        order_input_fault(route, input, timestamp) is None,
    ensures
        order_sound(planned_order(route, input, timestamp)),
{
    let order = planned_order(route, input, timestamp);
    assert forall|i: int| 0 <= i < order.lines.len() implies 1 <= (
    #[trigger] order.lines[i]).quantity <= 10 by {
        lemma_frozen_lines(input.lines@, 0, i);
        assert(order.lines[i] == planned_line(input.lines@[i]));
    }
}

proof fn lemma_line_reads(
    order: OrderPlan,
    plan: StageOneModel,
    results: Seq<Option<Seq<Seq<WireModel>>>>,
    i: int,
    k: int,
)
    requires
        0 <= i <= k < order.lines.len(),
        line_reads_fault(order, plan, results, i) is None,
    ensures
        line_read_fault(order, plan, results, k) is None,
    decreases order.lines.len() - i,
{
    if i < k {
        lemma_line_reads(order, plan, results, i + 1, k);
    }
}

/// What was read for an order stays in the range of the stock arithmetic.
proof fn lemma_reads_fit(
    order: OrderPlan,
    plan: StageOneModel,
    results: Seq<Option<Seq<Seq<WireModel>>>>,
    n: int,
)
    requires
        order_sound(order),
        line_reads_fault(order, plan, results, 0) is None,
        0 <= n <= order.lines.len(),
    ensures
        quantities_fit(read_lines(order, plan, results, n)),
    decreases n,
{
    if n > 0 {
        lemma_reads_fit(order, plan, results, n - 1);
        lemma_line_reads(order, plan, results, 0, n - 1);
        if !order.lines[n - 1].invalid_item {
            let line = read_line(order, plan, results, n - 1);
            assert(1 <= order.lines[n - 1].quantity <= 10);
            assert(line.initial_stock.quantity >= 0);
        }
    }
}

impl NewOrderFlow {
    /// A NewOrder before its first batch.
    pub fn start(route: &RoutedTransaction, input: &NewOrderInput, timestamp: &str) -> (r: Result<
        Self,
        RankedTransactionError,
    >)
        ensures
            match order_input_fault(*route, *input, encode_utf8(timestamp@)) {
                Some(violation) => r matches Err(error) && error@ == FlowFault::Semantic(violation),
                None => r matches Ok(flow) && flow.wf() && flow@.order == planned_order(
                    *route,
                    *input,
                    encode_utf8(timestamp@),
                ) && flow@.point == (NewOrderPoint::Read { plan: first_batch(flow@.order) }),
            },
    {
        let order = match validate_input(route, input, timestamp) {
            Ok(order) => order,
            Err(violation) => {
                return Err(RankedTransactionError::Semantic(violation));
            },
        };
        proof {
            lemma_planned_sound(*route, *input, encode_utf8(timestamp@));
        }
        let plan = build_stage_one(&order);
        let batch = copy_operations(&plan.operations);
        Ok(NewOrderFlow { order, batch, stage: NewOrderStage::Read { plan } })
    }

    fn after_read(order: ValidatedInput, plan: &StageOnePlan, results: &BatchResults) -> (r:
        FlowStep<NewOrderFlow>)
        requires
            order_sound(order@),
        ensures
            is_new_order_step(
                (NewOrderCourse { order: order@, point: NewOrderPoint::Read { plan: plan@ } }),
                after_order_read(
                    (NewOrderCourse { order: order@, point: NewOrderPoint::Read { plan: plan@ } }),
                    plan@,
                    results@,
                ),
                r,
            ),
    {
        let read = match parse_stage_one(&order, plan, results) {
            Ok(read) => read,
            Err(violation) => {
                return FlowStep::Next(aborted(order, violation));
            },
        };
        proof {
            lemma_reads_fit(order@, plan@, results@, order@.lines.len() as int);
        }
        let writes = match build_stage_two(&order, &read) {
            Ok(writes) => writes,
            Err(violation) => {
                return FlowStep::Next(aborted(order, violation));
            },
        };
        let batch = copy_operations(&writes.operations);
        FlowStep::Next(
            NewOrderFlow { order, batch, stage: NewOrderStage::Write { read, plan: writes } },
        )
    }

    /// Goes on with the answer to the batch.
    pub fn advance(self, response: BatchResponse) -> (r: FlowStep<NewOrderFlow>)
        requires
            self.wf(),
        ensures
            is_new_order_step(self@, new_order_next(self@, response), r),
    {
        let answer = accept_batch(response, self.batch.as_slice());
        let NewOrderFlow { order, batch, stage } = self;
        match stage {
            NewOrderStage::Abort(pending) => FlowStep::Done(Err(end_abort(pending, answer))),
            NewOrderStage::Read { plan } => {
                let results = match answer {
                    Ok(results) => results,
                    Err(error) => {
                        return FlowStep::Done(Err(RankedTransactionError::Batch(error)));
                    },
                };
                NewOrderFlow::after_read(order, &plan, &results)
            },
            NewOrderStage::Write { read, plan } => {
                let results = match answer {
                    Ok(results) => results,
                    Err(error) => {
                        return FlowStep::Done(Err(RankedTransactionError::Batch(error)));
                    },
                };
                match validate_stage_two_stock_readbacks(&results, &plan) {
                    Ok(()) => FlowStep::Done(Ok(order_outcome(order, &read, plan))),
                    Err(violation) => FlowStep::Done(
                        Err(RankedTransactionError::Semantic(violation)),
                    ),
                }
            },
        }
    }
}

fn aborted(order: ValidatedInput, violation: SemanticViolation) -> (r: NewOrderFlow)
    requires
        order_sound(order@),
    ensures
        r.wf(),
        r@ == (NewOrderCourse {
            order: order@,
            point: NewOrderPoint::Abort(open_fault(violation@)),
        }),
{
    NewOrderFlow {
        order,
        batch: abort_operations(),
        stage: NewOrderStage::Abort(open_error(violation)),
    }
}

} // verus!
