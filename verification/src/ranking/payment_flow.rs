//! The course of a Payment, from answer to answer.
use vstd::prelude::*;
use vstd::utf8::encode_utf8;

use crate::checks::first;
use crate::ranking::common::{
    BatchResults, SemanticViolation, accept_batch, f32_at, int32_at, response_fault,
    response_rows, single_row_of,
};
use crate::ranking::flow::{
    FlowFault, FlowNext, FlowStep, RankedTransactionError, abort_batch, abort_operations,
    after_abort, copy_operations, end_abort, open_error, open_fault,
};
use crate::ranking::payment::{
    CustomerAfter, PaymentFound, PaymentSnapshot, PaymentWrites, StageTwo, build_stage_one,
    build_stage_two, history_fault, is_payment_evidence, payment_first_batch, payment_first_fault,
    payment_first_found, payment_outcome, payment_request_fault, payment_second_batch,
    payment_second_fault, validate_request, validate_stage_one, validate_stage_two,
};
use crate::ranking::runner::{RankedCommit, RankedTransactionOutcome};
use crate::wire::{BatchResponse, Operation, OperationModel, WireModel, operation_models};
use crate::workload::{PaymentInput, RoutedTransaction};

verus! {

/// What a Payment waits for.
#[derive(Clone, Debug, PartialEq, Eq)]
pub enum PaymentStage {
    /// The totals and the customer.
    Read,
    /// The writes and their commit.
    Write { snapshot: PaymentSnapshot, writes: StageTwo },
    /// The abort after a failure.
    Abort(RankedTransactionError),
}

/// The content of a [`PaymentStage`].
#[verifier::ext_equal]
pub enum PaymentPoint {
    Read,
    Write { found: PaymentFound, writes: PaymentWrites },
    Abort(FlowFault),
}

impl View for PaymentStage {
    type V = PaymentPoint;

    open spec fn view(&self) -> PaymentPoint {
        match *self {
            PaymentStage::Read => PaymentPoint::Read,
            PaymentStage::Write { snapshot, writes } => PaymentPoint::Write {
                found: snapshot@,
                writes: writes@,
            },
            PaymentStage::Abort(error) => PaymentPoint::Abort(error@),
        }
    }
}

/// A Payment under way, with the batch that is sent next.
#[derive(Clone, Debug, PartialEq, Eq)]
pub struct PaymentFlow {
    pub route: RoutedTransaction,
    pub input: PaymentInput,
    pub timestamp: String,
    pub batch: Vec<Operation>,
    pub stage: PaymentStage,
}

/// The content of a [`PaymentFlow`].
#[verifier::ext_equal]
pub struct PaymentCourse {
    pub route: RoutedTransaction,
    pub input: PaymentInput,
    pub timestamp: Seq<u8>,
    pub point: PaymentPoint,
}

impl View for PaymentFlow {
    type V = PaymentCourse;

    open spec fn view(&self) -> PaymentCourse {
        PaymentCourse {
            route: self.route,
            input: self.input,
            timestamp: encode_utf8(self.timestamp@),
            point: self.stage@,
        }
    }
}

/// The batch that belongs to a point.
pub open spec fn payment_batch(m: PaymentCourse) -> Seq<OperationModel> {
    match m.point {
        PaymentPoint::Read => payment_first_batch(
            m.route.home_warehouse,
            m.route.home_district,
            m.input.customer_warehouse,
            m.input.customer_district,
            m.input.customer,
            m.input.amount_bits,
        ),
        PaymentPoint::Write { writes, .. } => writes.operations,
        PaymentPoint::Abort(_) => abort_batch(),
    }
}

impl PaymentFlow {
    /// The batch is the one of the stage.
    pub open spec fn wf(self) -> bool {
        operation_models(self.batch@) == payment_batch(self@)
    }
}

/// What the outcome of a Payment is made of.
#[verifier::ext_equal]
pub struct PaymentEnd {
    pub found: PaymentFound,
    pub writes: PaymentWrites,
    pub after: CustomerAfter,
}

/// The same Payment at another point.
pub open spec fn payment_at(m: PaymentCourse, point: PaymentPoint) -> FlowNext<
    PaymentCourse,
    PaymentEnd,
> {
    FlowNext::Next(PaymentCourse { point, ..m })
}

/// The writes of a Payment.
pub open spec fn payment_writes(m: PaymentCourse, found: PaymentFound) -> PaymentWrites {
    payment_second_batch(
        m.route.home_warehouse,
        m.route.home_district,
        m.input.customer_warehouse,
        m.input.customer_district,
        m.input.amount_cents,
        m.input.amount_bits,
        m.timestamp,
        found,
    )
}

/// What follows the reads.
pub open spec fn after_payment_read(
    m: PaymentCourse,
    results: Seq<Option<Seq<Seq<WireModel>>>>,
) -> FlowNext<PaymentCourse, PaymentEnd> {
    let found = payment_first_found(results, m.input.customer);
    match first(
        payment_first_fault(results, m.input.customer, m.input.amount_bits),
        history_fault(found.warehouse_name, found.district_name),
    ) {
        Some(violation) => payment_at(m, PaymentPoint::Abort(open_fault(violation))),
        None => payment_at(m, PaymentPoint::Write { found, writes: payment_writes(m, found) }),
    }
}

/// What follows the writes. They are committed, so nothing is aborted.
pub open spec fn after_payment_write(
    m: PaymentCourse,
    found: PaymentFound,
    writes: PaymentWrites,
    results: Seq<Option<Seq<Seq<WireModel>>>>,
) -> FlowNext<PaymentCourse, PaymentEnd> {
    match payment_second_fault(
        results,
        m.input.amount_bits,
        found.customer,
        writes.expected_customer_data,
    ) {
        Some(violation) => FlowNext::Failed(FlowFault::Semantic(violation)),
        None => FlowNext::Finished(
            PaymentEnd {
                found,
                writes,
                after: CustomerAfter {
                    balance_bits: f32_at(single_row_of(results, 2), 0),
                    ytd_payment_bits: f32_at(single_row_of(results, 2), 1),
                    payment_count: int32_at(single_row_of(results, 2), 2),
                    delivery_count: int32_at(single_row_of(results, 2), 3),
                },
            },
        ),
    }
}

/// What follows an answer.
pub open spec fn payment_next(m: PaymentCourse, response: BatchResponse) -> FlowNext<
    PaymentCourse,
    PaymentEnd,
> {
    let n = payment_batch(m).len();
    let fault = response_fault(response, n);
    let results = response_rows(response, n);
    match m.point {
        PaymentPoint::Abort(pending) => FlowNext::Failed(after_abort(pending, fault)),
        point => match fault {
            Some(batch) => FlowNext::Failed(FlowFault::Batch(batch)),
            None => match point {
                PaymentPoint::Write { found, writes } => after_payment_write(
                    m,
                    found,
                    writes,
                    results,
                ),
                _ => after_payment_read(m, results),
            },
        },
    }
}

/// Whether a step is the one that follows.
pub open spec fn is_payment_step(
    m: PaymentCourse,
    next: FlowNext<PaymentCourse, PaymentEnd>,
    step: FlowStep<PaymentFlow>,
) -> bool {
    match step {
        FlowStep::Next(flow) => flow.wf() && next == FlowNext::<PaymentCourse, PaymentEnd>::Next(
            flow@,
        ),
        FlowStep::Done(Err(error)) => next == FlowNext::<PaymentCourse, PaymentEnd>::Failed(error@),
        FlowStep::Done(Ok(outcome)) => next matches FlowNext::Finished(end) && (
        outcome matches RankedTransactionOutcome::Committed(RankedCommit::Payment(e))
            && is_payment_evidence(
            e,
            m.route,
            m.input,
            m.timestamp,
            end.found,
            end.writes,
            end.after,
        )),
    }
}

impl PaymentFlow {
    /// A Payment before its first batch.
    pub fn start(route: &RoutedTransaction, input: PaymentInput, timestamp: &str) -> (r: Result<
        Self,
        RankedTransactionError,
    >)
        ensures
            match payment_request_fault(*route, input, encode_utf8(timestamp@)) {
                Some(violation) => r matches Err(error) && error@ == FlowFault::Semantic(violation),
                None => r matches Ok(flow) && flow.wf() && flow@ == (PaymentCourse {
                    route: *route,
                    input,
                    timestamp: encode_utf8(timestamp@),
                    point: PaymentPoint::Read,
                }),
            },
    {
        match validate_request(route, &input, timestamp) {
            Ok(()) => {},
            Err(violation) => {
                return Err(RankedTransactionError::Semantic(violation));
            },
        }
        let batch = build_stage_one(
            route.home_warehouse,
            route.home_district,
            input.customer_warehouse,
            input.customer_district,
            &input.customer,
            input.amount_bits,
        );
        Ok(
            PaymentFlow {
                route: *route,
                input,
                timestamp: timestamp.to_owned(),
                batch,
                stage: PaymentStage::Read,
            },
        )
    }

    fn abort(self, violation: SemanticViolation) -> (r: Self)
        ensures
            r.wf(),
            r@ == (PaymentCourse { point: PaymentPoint::Abort(open_fault(violation@)), ..self@ }),
    {
        PaymentFlow {
            route: self.route,
            input: self.input,
            timestamp: self.timestamp,
            batch: abort_operations(),
            stage: PaymentStage::Abort(open_error(violation)),
        }
    }

    fn after_read(self, results: &BatchResults) -> (r: FlowStep<PaymentFlow>)
        ensures
            is_payment_step(self@, after_payment_read(self@, results@), r),
    {
        let snapshot = match validate_stage_one(
            results,
            &self.input.customer,
            self.input.amount_bits,
        ) {
            Ok(snapshot) => snapshot,
            Err(violation) => {
                return FlowStep::Next(self.abort(violation));
            },
        };
        let writes = match build_stage_two(
            self.route.home_warehouse,
            self.route.home_district,
            self.input.customer_warehouse,
            self.input.customer_district,
            self.input.amount_cents,
            self.input.amount_bits,
            self.timestamp.as_str(),
            &snapshot,
        ) {
            Ok(writes) => writes,
            Err(violation) => {
                return FlowStep::Next(self.abort(violation));
            },
        };
        let batch = copy_operations(&writes.operations);
        FlowStep::Next(
            PaymentFlow {
                route: self.route,
                input: self.input,
                timestamp: self.timestamp,
                batch,
                stage: PaymentStage::Write { snapshot, writes },
            },
        )
    }

    /// Goes on with the answer to the batch.
    pub fn advance(self, response: BatchResponse) -> (r: FlowStep<PaymentFlow>)
        requires
            self.wf(),
        ensures
            is_payment_step(self@, payment_next(self@, response), r),
    {
        let answer = accept_batch(response, self.batch.as_slice());
        let PaymentFlow { route, input, timestamp, batch, stage } = self;
        match stage {
            PaymentStage::Abort(pending) => FlowStep::Done(Err(end_abort(pending, answer))),
            other => {
                let results = match answer {
                    Ok(results) => results,
                    Err(error) => {
                        return FlowStep::Done(Err(RankedTransactionError::Batch(error)));
                    },
                };
                match other {
                    PaymentStage::Write { snapshot, writes } => {
                        match validate_stage_two(
                            &results,
                            input.amount_bits,
                            &snapshot,
                            writes.expected_customer_data.as_slice(),
                        ) {
                            Ok(after) => FlowStep::Done(
                                Ok(
                                    payment_outcome(
                                        &route,
                                        &input,
                                        timestamp.as_str(),
                                        snapshot,
                                        writes,
                                        after,
                                    ),
                                ),
                            ),
                            Err(violation) => FlowStep::Done(
                                Err(RankedTransactionError::Semantic(violation)),
                            ),
                        }
                    },
                    rest_stage => {
                        let rest = PaymentFlow {
                            route,
                            input,
                            timestamp,
                            batch,
                            stage: rest_stage,
                        };
                        rest.after_read(&results)
                    },
                }
            },
        }
    }
}

} // verus!
