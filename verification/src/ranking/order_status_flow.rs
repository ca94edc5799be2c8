//! The course of an OrderStatus, from answer to answer.
use vstd::prelude::*;

use crate::checks::first;
use crate::ranking::common::{
    BatchResults, SemanticViolation, accept_batch, int32_at, operation_of, response_fault,
    response_rows, rows_fault, single_row_fault, single_row_of,
};
use crate::ranking::flow::{
    FlowFault, FlowNext, FlowStep, RankedTransactionError, abort_batch, abort_operations,
    after_abort, end_abort, open_error, open_fault,
};
use crate::ranking::order_status::{
    CUSTOMER_QUERY_OPERATION, LATEST_ORDER_QUERY_OPERATION, LINES_QUERY_OPERATION,
    ORDER_QUERY_OPERATION, latest_order_fault, latest_order_id, partition_fault, partition_key,
    select_customer_id, selected_customer, stage_one_operations, stage_three_operations,
    stage_two_operations, status_customer_fault, status_lines_fault, status_lookup,
    status_order_fault, status_selector_fault, validate_final_results,
};
use crate::ranking::runner::{RankedCommit, RankedTransactionOutcome};
use crate::ranking::statement_id::StatementId;
use crate::wire::{BatchResponse, Operation, OperationModel, WireModel, operation_models};
use crate::workload::{CustomerSelector, OrderStatusInput, RoutedTransaction};

verus! {

/// What an OrderStatus waits for.
#[derive(Clone, Debug, PartialEq, Eq)]
pub enum OrderStatusStage {
    /// The customer.
    Customer,
    /// The latest order of the customer.
    Latest { customer_id: i32 },
    /// The order, its lines and the commit.
    Read { order_id: i32 },
    /// The abort after a failure.
    Abort(RankedTransactionError),
}

/// The content of an [`OrderStatusStage`].
#[verifier::ext_equal]
pub enum OrderStatusPoint {
    Customer,
    Latest { customer_id: i32 },
    Read { order_id: i32 },
    Abort(FlowFault),
}

impl View for OrderStatusStage {
    type V = OrderStatusPoint;

    open spec fn view(&self) -> OrderStatusPoint {
        match *self {
            OrderStatusStage::Customer => OrderStatusPoint::Customer,
            OrderStatusStage::Latest { customer_id } => OrderStatusPoint::Latest { customer_id },
            OrderStatusStage::Read { order_id } => OrderStatusPoint::Read { order_id },
            OrderStatusStage::Abort(error) => OrderStatusPoint::Abort(error@),
        }
    }
}

/// An OrderStatus under way, with the batch that is sent next.
#[derive(Clone, Debug, PartialEq, Eq)]
pub struct OrderStatusFlow {
    pub route: RoutedTransaction,
    pub customer: CustomerSelector,
    pub batch: Vec<Operation>,
    pub stage: OrderStatusStage,
}

/// The content of an [`OrderStatusFlow`].
#[verifier::ext_equal]
pub struct OrderStatusCourse {
    pub route: RoutedTransaction,
    pub customer: CustomerSelector,
    pub point: OrderStatusPoint,
}

impl View for OrderStatusFlow {
    type V = OrderStatusCourse;

    open spec fn view(&self) -> OrderStatusCourse {
        OrderStatusCourse { route: self.route, customer: self.customer, point: self.stage@ }
    }
}

/// The batch that belongs to a point.
pub open spec fn order_status_batch(m: OrderStatusCourse) -> Seq<OperationModel> {
    match m.point {
        OrderStatusPoint::Customer => seq![
            operation_of(StatementId::Begin, Seq::empty()),
            status_lookup(m.route, m.customer),
        ],
        OrderStatusPoint::Latest { customer_id } => seq![
            operation_of(StatementId::OrderStatusLatestOrder, partition_key(m.route, customer_id)),
        ],
        OrderStatusPoint::Read { order_id } => seq![
            operation_of(StatementId::OrderStatusOrder, partition_key(m.route, order_id)),
            operation_of(StatementId::OrderStatusLines, partition_key(m.route, order_id)),
            operation_of(StatementId::Commit, Seq::empty()),
        ],
        OrderStatusPoint::Abort(_) => abort_batch(),
    }
}

impl OrderStatusFlow {
    /// The batch is the one of the stage.
    pub open spec fn wf(self) -> bool {
        operation_models(self.batch@) == order_status_batch(self@)
    }
}

/// The same OrderStatus at another point.
pub open spec fn order_status_at(m: OrderStatusCourse, point: OrderStatusPoint) -> FlowNext<
    OrderStatusCourse,
    (),
> {
    FlowNext::Next(OrderStatusCourse { point, ..m })
}

/// What follows the customer.
pub open spec fn after_customer(
    m: OrderStatusCourse,
    results: Seq<Option<Seq<Seq<WireModel>>>>,
) -> FlowNext<OrderStatusCourse, ()> {
    match first(rows_fault(results, 1), status_customer_fault(results[1]->0, m.customer)) {
        Some(violation) => order_status_at(m, OrderStatusPoint::Abort(open_fault(violation))),
        None => order_status_at(
            m,
            OrderStatusPoint::Latest {
                customer_id: selected_customer(results[1]->0, m.customer),
            },
        ),
    }
}

/// What follows the latest order.
pub open spec fn after_latest(
    m: OrderStatusCourse,
    results: Seq<Option<Seq<Seq<WireModel>>>>,
) -> FlowNext<OrderStatusCourse, ()> {
    match latest_order_fault(results, 0) {
        Some(violation) => order_status_at(m, OrderStatusPoint::Abort(open_fault(violation))),
        None => order_status_at(
            m,
            OrderStatusPoint::Read { order_id: int32_at(single_row_of(results, 0), 0) },
        ),
    }
}

/// What follows the order. It is committed, so nothing is aborted.
pub open spec fn after_read(order_id: i32, results: Seq<Option<Seq<Seq<WireModel>>>>) -> FlowNext<
    OrderStatusCourse,
    (),
> {
    match first(
        single_row_fault(results, 0),
        first(
            status_order_fault(single_row_of(results, 0), order_id),
            first(rows_fault(results, 1), status_lines_fault(results[1]->0)),
        ),
    ) {
        Some(violation) => FlowNext::Failed(FlowFault::Semantic(violation)),
        None => FlowNext::Finished(()),
    }
}

/// What follows an answer.
pub open spec fn order_status_next(m: OrderStatusCourse, response: BatchResponse) -> FlowNext<
    OrderStatusCourse,
    (),
> {
    let n = order_status_batch(m).len();
    let fault = response_fault(response, n);
    let results = response_rows(response, n);
    match m.point {
        OrderStatusPoint::Abort(pending) => FlowNext::Failed(after_abort(pending, fault)),
        point => match fault {
            Some(batch) => FlowNext::Failed(FlowFault::Batch(batch)),
            None => match point {
                OrderStatusPoint::Latest { .. } => after_latest(m, results),
                OrderStatusPoint::Read { order_id } => after_read(order_id, results),
                _ => after_customer(m, results),
            },
        },
    }
}

/// Whether a step is the one that follows.
pub open spec fn is_order_status_step(
    next: FlowNext<OrderStatusCourse, ()>,
    step: FlowStep<OrderStatusFlow>,
) -> bool {
    match step {
        FlowStep::Next(flow) => flow.wf() && next == FlowNext::<OrderStatusCourse, ()>::Next(flow@),
        FlowStep::Done(Err(error)) => next == FlowNext::<OrderStatusCourse, ()>::Failed(error@),
        FlowStep::Done(Ok(outcome)) => next == FlowNext::<OrderStatusCourse, ()>::Finished(())
            && outcome == RankedTransactionOutcome::Committed(RankedCommit::OrderStatus),
    }
}

impl OrderStatusFlow {
    /// An OrderStatus before its first batch.
    pub fn start(route: &RoutedTransaction, input: OrderStatusInput) -> (r: Result<
        Self,
        RankedTransactionError,
    >)
        ensures
            match first(partition_fault(*route), status_selector_fault(input.customer)) {
                Some(violation) => r matches Err(error) && error@ == FlowFault::Semantic(violation),
                None => r matches Ok(flow) && flow.wf() && flow@ == (OrderStatusCourse {
                    route: *route,
                    customer: input.customer,
                    point: OrderStatusPoint::Customer,
                }),
            },
    {
        match stage_one_operations(route, &input) {
            Ok(batch) => Ok(
                OrderStatusFlow {
                    route: *route,
                    customer: input.customer,
                    batch,
                    stage: OrderStatusStage::Customer,
                },
            ),
            Err(violation) => Err(RankedTransactionError::Semantic(violation)),
        }
    }

    fn at(self, batch: Vec<Operation>, stage: OrderStatusStage) -> (r: Self)
        requires
            operation_models(batch@) == order_status_batch(
                OrderStatusCourse { point: stage@, ..self@ },
            ),
        ensures
            r.wf(),
            r@ == (OrderStatusCourse { point: stage@, ..self@ }),
    {
        OrderStatusFlow { route: self.route, customer: self.customer, batch, stage }
    }

    fn abort(self, violation: SemanticViolation) -> (r: Self)
        ensures
            r.wf(),
            r@ == (OrderStatusCourse {
                point: OrderStatusPoint::Abort(open_fault(violation@)),
                ..self@
            }),
    {
        self.at(abort_operations(), OrderStatusStage::Abort(open_error(violation)))
    }

    fn after_customer(self, results: &BatchResults) -> (r: FlowStep<OrderStatusFlow>)
        ensures
            is_order_status_step(after_customer(self@, results@), r),
    {
        match select_customer_id(&self.customer, results.rows(CUSTOMER_QUERY_OPERATION)) {
            Ok(customer_id) => {
                let batch = stage_two_operations(&self.route, customer_id);
                FlowStep::Next(self.at(batch, OrderStatusStage::Latest { customer_id }))
            },
            Err(violation) => FlowStep::Next(self.abort(violation)),
        }
    }

    fn after_latest(self, results: &BatchResults) -> (r: FlowStep<OrderStatusFlow>)
        ensures
            is_order_status_step(after_latest(self@, results@), r),
    {
        match latest_order_id(results, LATEST_ORDER_QUERY_OPERATION) {
            Ok(order_id) => {
                let batch = stage_three_operations(&self.route, order_id);
                FlowStep::Next(self.at(batch, OrderStatusStage::Read { order_id }))
            },
            Err(violation) => FlowStep::Next(self.abort(violation)),
        }
    }

    /// Goes on with the answer to the batch.
    pub fn advance(self, response: BatchResponse) -> (r: FlowStep<OrderStatusFlow>)
        requires
            self.wf(),
        ensures
            is_order_status_step(order_status_next(self@, response), r),
    {
        let answer = accept_batch(response, self.batch.as_slice());
        let OrderStatusFlow { route, customer, batch, stage } = self;
        match stage {
            OrderStatusStage::Abort(pending) => FlowStep::Done(Err(end_abort(pending, answer))),
            other => {
                let results = match answer {
                    Ok(results) => results,
                    Err(error) => {
                        return FlowStep::Done(Err(RankedTransactionError::Batch(error)));
                    },
                };
                match other {
                    OrderStatusStage::Read { order_id } => {
                        match validate_final_results(
                            &results,
                            ORDER_QUERY_OPERATION,
                            LINES_QUERY_OPERATION,
                            order_id,
                        ) {
                            Ok(()) => FlowStep::Done(
                                Ok(RankedTransactionOutcome::Committed(RankedCommit::OrderStatus)),
                            ),
                            Err(violation) => FlowStep::Done(
                                Err(RankedTransactionError::Semantic(violation)),
                            ),
                        }
                    },
                    OrderStatusStage::Latest { customer_id } => {
                        let rest = OrderStatusFlow {
                            route,
                            customer,
                            batch,
                            stage: OrderStatusStage::Latest { customer_id },
                        };
                        rest.after_latest(&results)
                    },
                    rest_stage => {
                        let rest = OrderStatusFlow { route, customer, batch, stage: rest_stage };
                        rest.after_customer(&results)
                    },
                }
            },
        }
    }
}

} // verus!
