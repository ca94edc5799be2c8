//! The course of a Delivery, from answer to answer.
use vstd::prelude::*;
use vstd::utf8::encode_utf8;

use crate::ranking::common::{
    BatchResults, Violation, accept_batch, operation_of, response_fault, response_rows,
};
use crate::ranking::delivery::{
    DistrictClaim, LockedModel, LockedOrder, StageThreeIndex, StageTwoIndices, claim_indices,
    customer_indices, delivery_first_batch, delivery_second_batch, delivery_third_batch,
    locked_models, stage_one_operations, stage_three_operations, stage_two_operations,
};
use crate::ranking::delivery_commit::{
    CustomerTransition, delivery_outcome, delivery_third_fault, is_delivery_evidence,
    transition_of, validate_stage_three,
};
use crate::ranking::delivery_locks::{
    LockOutcome, StageTwoOutcome, claim_text, delivery_second_fault, lock_outcome, locked_orders,
    lost_claim_diagnostic, parse_stage_two,
};
use crate::ranking::delivery_rows::{claims_up_to, oldest_orders_fault, parse_stage_one};
use crate::ranking::flow::{
    FlowFault, FlowNext, FlowStep, RankedTransactionError, abort_batch, abort_operations,
    after_abort, end_abort, open_error, open_fault,
};
use crate::ranking::new_order::bare_operation;
use crate::ranking::runner::{RankedCommit, RankedTransactionOutcome};
use crate::ranking::statement_id::StatementId;
use crate::wire::{BatchResponse, Operation, OperationModel, WireModel, operation_models};
use crate::workload::{DeliveryInput, RoutedTransaction};

verus! {

/// What a Delivery waits for.
#[allow(inconsistent_fields)]
#[derive(Clone, Debug, PartialEq, Eq)]
pub enum DeliveryStage {
    /// The oldest order of each district.
    Claim,
    /// The locks of the claims.
    Lock { claims: Vec<DistrictClaim>, indices: Vec<StageTwoIndices> },
    /// The updates and their commit.
    Deliver { orders: Vec<LockedOrder>, indices: Vec<StageThreeIndex> },
    /// The commit of a Delivery without claims.
    CommitEmpty,
    /// The abort after a failure.
    Abort(RankedTransactionError),
}

/// The content of a [`DeliveryStage`].
#[allow(inconsistent_fields)]
#[verifier::ext_equal]
pub enum DeliveryPoint {
    Claim,
    Lock { claims: Seq<DistrictClaim>, indices: Seq<StageTwoIndices> },
    Deliver { orders: Seq<LockedModel>, indices: Seq<StageThreeIndex> },
    CommitEmpty,
    Abort(FlowFault),
}

impl View for DeliveryStage {
    type V = DeliveryPoint;

    open spec fn view(&self) -> DeliveryPoint {
        match *self {
            DeliveryStage::Claim => DeliveryPoint::Claim,
            DeliveryStage::Lock { claims, indices } => DeliveryPoint::Lock {
                claims: claims@,
                indices: indices@,
            },
            DeliveryStage::Deliver { orders, indices } => DeliveryPoint::Deliver {
                orders: locked_models(orders@),
                indices: indices@,
            },
            DeliveryStage::CommitEmpty => DeliveryPoint::CommitEmpty,
            DeliveryStage::Abort(error) => DeliveryPoint::Abort(error@),
        }
    }
}

/// A Delivery under way, with the batch that is sent next.
#[derive(Clone, Debug, PartialEq, Eq)]
pub struct DeliveryFlow {
    pub warehouse_id: u16,
    pub carrier_id: u8,
    pub timestamp: String,
    pub batch: Vec<Operation>,
    pub stage: DeliveryStage,
}

/// The content of a [`DeliveryFlow`].
#[verifier::ext_equal]
pub struct DeliveryCourse {
    pub warehouse_id: u16,
    pub carrier_id: u8,
    pub timestamp: Seq<u8>,
    pub point: DeliveryPoint,
}

impl View for DeliveryFlow {
    type V = DeliveryCourse;

    open spec fn view(&self) -> DeliveryCourse {
        DeliveryCourse {
            warehouse_id: self.warehouse_id,
            carrier_id: self.carrier_id,
            timestamp: encode_utf8(self.timestamp@),
            point: self.stage@,
        }
    }
}

/// The batch that belongs to a point.
pub open spec fn delivery_batch(m: DeliveryCourse) -> Seq<OperationModel> {
    match m.point {
        DeliveryPoint::Claim => delivery_first_batch(m.warehouse_id),
        DeliveryPoint::Lock { claims, .. } => delivery_second_batch(
            m.warehouse_id,
            claims,
            claims.len() as int,
        ),
        DeliveryPoint::Deliver { orders, .. } => delivery_third_batch(
            m.warehouse_id,
            m.carrier_id,
            m.timestamp,
            orders,
        ),
        DeliveryPoint::CommitEmpty => seq![operation_of(StatementId::Commit, Seq::empty())],
        DeliveryPoint::Abort(_) => abort_batch(),
    }
}

/// The claims fit: one per district at most.
pub open spec fn delivery_point_sound(p: DeliveryPoint) -> bool {
    match p {
        DeliveryPoint::Lock { claims, indices } => claims.len() <= 10 && indices == Seq::new(
            claims.len(),
            |i: int| claim_indices(i),
        ),
        DeliveryPoint::Deliver { orders, indices } => orders.len() <= 10 && indices == Seq::new(
            orders.len(),
            |i: int| customer_indices(i),
        ),
        _ => true,
    }
}

impl DeliveryFlow {
    /// The batch is the one of the stage.
    pub open spec fn wf(self) -> bool {
        &&& operation_models(self.batch@) == delivery_batch(self@)
        &&& delivery_point_sound(self@.point)
    }
}

/// The same Delivery at another point.
pub open spec fn delivery_at(m: DeliveryCourse, point: DeliveryPoint) -> DeliveryCourse {
    DeliveryCourse { point, ..m }
}

/// A Delivery that is aborted for a violation.
pub open spec fn delivery_aborts(m: DeliveryCourse, violation: Violation) -> FlowNext<
    DeliveryCourse,
    DeliveryEnd,
> {
    FlowNext::Next(delivery_at(m, DeliveryPoint::Abort(open_fault(violation))))
}

/// What the outcome of a Delivery is made of.
#[verifier::ext_equal]
pub struct DeliveryEnd {
    pub orders: Seq<LockedModel>,
    pub transitions: Seq<CustomerTransition>,
}

/// What follows the claims.
pub open spec fn after_claims(
    m: DeliveryCourse,
    results: Seq<Option<Seq<Seq<WireModel>>>>,
) -> FlowNext<DeliveryCourse, DeliveryEnd> {
    match oldest_orders_fault(results, 1) {
        Some(violation) => delivery_aborts(m, violation),
        None => {
            let claims = claims_up_to(results, 10);
            if claims.len() == 0 {
                FlowNext::Next(delivery_at(m, DeliveryPoint::CommitEmpty))
            } else {
                FlowNext::Next(
                    delivery_at(
                        m,
                        DeliveryPoint::Lock {
                            claims,
                            indices: Seq::new(claims.len(), |i: int| claim_indices(i)),
                        },
                    ),
                )
            }
        },
    }
}

/// What follows the locks: a lost claim gives everything up.
pub open spec fn after_locks(
    m: DeliveryCourse,
    claims: Seq<DistrictClaim>,
    indices: Seq<StageTwoIndices>,
    results: Seq<Option<Seq<Seq<WireModel>>>>,
) -> FlowNext<DeliveryCourse, DeliveryEnd> {
    match delivery_second_fault(results, claims, indices) {
        Some(violation) => delivery_aborts(m, violation),
        None => match lock_outcome(results, claims, indices) {
            LockOutcome::ClaimLost(claim) => FlowNext::Next(
                delivery_at(
                    m,
                    DeliveryPoint::Abort(
                        FlowFault::Contention(
                            claim_text(claim) + " disappeared before queue confirmation"@,
                        ),
                    ),
                ),
            ),
            LockOutcome::Locked(orders) => FlowNext::Next(
                delivery_at(
                    m,
                    DeliveryPoint::Deliver {
                        orders,
                        indices: Seq::new(orders.len(), |i: int| customer_indices(i)),
                    },
                ),
            ),
        },
    }
}

/// What follows the updates. They are committed, so nothing is aborted.
pub open spec fn after_updates(
    orders: Seq<LockedModel>,
    indices: Seq<StageThreeIndex>,
    results: Seq<Option<Seq<Seq<WireModel>>>>,
) -> FlowNext<DeliveryCourse, DeliveryEnd> {
    match delivery_third_fault(results, orders, indices) {
        Some(violation) => FlowNext::Failed(FlowFault::Semantic(violation)),
        None => FlowNext::Finished(
            DeliveryEnd {
                orders,
                transitions: Seq::new(
                    orders.len(),
                    |i: int| transition_of(results, indices[i]),
                ),
            },
        ),
    }
}

/// What follows an answer.
pub open spec fn delivery_next(m: DeliveryCourse, response: BatchResponse) -> FlowNext<
    DeliveryCourse,
    DeliveryEnd,
> {
    let n = delivery_batch(m).len();
    let fault = response_fault(response, n);
    let results = response_rows(response, n);
    match m.point {
        DeliveryPoint::Abort(pending) => FlowNext::Failed(after_abort(pending, fault)),
        point => match fault {
            Some(batch) => FlowNext::Failed(FlowFault::Batch(batch)),
            None => match point {
                DeliveryPoint::Claim => after_claims(m, results),
                DeliveryPoint::Lock { claims, indices } => after_locks(m, claims, indices, results),
                DeliveryPoint::Deliver { orders, indices } => after_updates(
                    orders,
                    indices,
                    results,
                ),
                _ => FlowNext::Finished(
                    DeliveryEnd { orders: Seq::empty(), transitions: Seq::empty() },
                ),
            },
        },
    }
}

/// Whether an outcome reports the orders of a Delivery.
pub open spec fn is_delivery_outcome(
    outcome: RankedTransactionOutcome,
    m: DeliveryCourse,
    end: DeliveryEnd,
) -> bool {
    outcome matches RankedTransactionOutcome::Committed(RankedCommit::Delivery(list))
        && list@.len() == end.orders.len() && forall|i: int|
        0 <= i < list@.len() ==> is_delivery_evidence(
            #[trigger] list@[i],
            m.warehouse_id,
            m.timestamp,
            end.orders[i],
            end.transitions[i],
        )
}

/// Whether a step is the one that follows.
pub open spec fn is_delivery_step(
    m: DeliveryCourse,
    next: FlowNext<DeliveryCourse, DeliveryEnd>,
    step: FlowStep<DeliveryFlow>,
) -> bool {
    match step {
        FlowStep::Next(flow) => flow.wf() && next == FlowNext::<DeliveryCourse, DeliveryEnd>::Next(
            flow@,
        ),
        FlowStep::Done(Err(error)) => next == FlowNext::<DeliveryCourse, DeliveryEnd>::Failed(
            error@,
        ),
        FlowStep::Done(Ok(outcome)) => next matches FlowNext::Finished(end) && is_delivery_outcome(
            outcome,
            m,
            end,
        ),
    }
}

impl DeliveryFlow {
    /// A Delivery before its first batch.
    pub fn start(route: &RoutedTransaction, input: &DeliveryInput, timestamp: &str) -> (r: Self)
        ensures
            r.wf(),
            r@ == (DeliveryCourse {
                warehouse_id: route.home_warehouse,
                carrier_id: input.carrier_id,
                timestamp: encode_utf8(timestamp@),
                point: DeliveryPoint::Claim,
            }),
    {
        DeliveryFlow {
            warehouse_id: route.home_warehouse,
            carrier_id: input.carrier_id,
            timestamp: timestamp.to_owned(),
            batch: stage_one_operations(route.home_warehouse),
            stage: DeliveryStage::Claim,
        }
    }

    fn abort(self, error: RankedTransactionError) -> (r: Self)
        ensures
            r.wf(),
            r@ == delivery_at(self@, DeliveryPoint::Abort(error@)),
    {
        DeliveryFlow {
            warehouse_id: self.warehouse_id,
            carrier_id: self.carrier_id,
            timestamp: self.timestamp,
            batch: abort_operations(),
            stage: DeliveryStage::Abort(error),
        }
    }

    fn after_claims(self, results: &BatchResults) -> (r: FlowStep<DeliveryFlow>)
        ensures
            is_delivery_step(self@, after_claims(self@, results@), r),
    {
        let claims = match parse_stage_one(results) {
            Ok(claims) => claims,
            Err(violation) => {
                return FlowStep::Next(self.abort(open_error(violation)));
            },
        };
        if claims.len() == 0 {
            let batch = vec![bare_operation(StatementId::Commit)];
            assert(operation_models(batch@) =~= seq![
                operation_of(StatementId::Commit, Seq::empty()),
            ]);
            return FlowStep::Next(
                DeliveryFlow {
                    warehouse_id: self.warehouse_id,
                    carrier_id: self.carrier_id,
                    timestamp: self.timestamp,
                    batch,
                    stage: DeliveryStage::CommitEmpty,
                },
            );
        }
        let (batch, indices) = stage_two_operations(self.warehouse_id, claims.as_slice());
        FlowStep::Next(
            DeliveryFlow {
                warehouse_id: self.warehouse_id,
                carrier_id: self.carrier_id,
                timestamp: self.timestamp,
                batch,
                stage: DeliveryStage::Lock { claims, indices },
            },
        )
    }

    fn after_locks(
        self,
        claims: &[DistrictClaim],
        indices: &[StageTwoIndices],
        results: &BatchResults,
    ) -> (r: FlowStep<DeliveryFlow>)
        requires
            claims@.len() <= 10,
            claims@.len() == indices@.len(),
        ensures
            is_delivery_step(self@, after_locks(self@, claims@, indices@, results@), r),
    {
        let outcome = match parse_stage_two(results, claims, indices) {
            Ok(outcome) => outcome,
            Err(violation) => {
                return FlowStep::Next(self.abort(open_error(violation)));
            },
        };
        match outcome {
            StageTwoOutcome::ClaimLost(claim) => FlowStep::Next(
                self.abort(RankedTransactionError::Contention(lost_claim_diagnostic(claim))),
            ),
            StageTwoOutcome::Locked(orders) => {
                proof {
                    lemma_locked_len(results@, claims@, indices@, claims@.len() as int);
                }
                let (batch, places) = stage_three_operations(
                    self.warehouse_id,
                    self.carrier_id,
                    self.timestamp.as_str(),
                    orders.as_slice(),
                );
                FlowStep::Next(
                    DeliveryFlow {
                        warehouse_id: self.warehouse_id,
                        carrier_id: self.carrier_id,
                        timestamp: self.timestamp,
                        batch,
                        stage: DeliveryStage::Deliver { orders, indices: places },
                    },
                )
            },
        }
    }

    /// Goes on with the answer to the batch.
    pub fn advance(self, response: BatchResponse) -> (r: FlowStep<DeliveryFlow>)
        requires
            self.wf(),
        ensures
            is_delivery_step(self@, delivery_next(self@, response), r),
    {
        let ghost course = self@;
        let answer = accept_batch(response, self.batch.as_slice());
        let DeliveryFlow { warehouse_id, carrier_id, timestamp, batch, stage } = self;
        match stage {
            DeliveryStage::Abort(pending) => FlowStep::Done(Err(end_abort(pending, answer))),
            other => {
                let results = match answer {
                    Ok(results) => results,
                    Err(error) => {
                        return FlowStep::Done(Err(RankedTransactionError::Batch(error)));
                    },
                };
                let rest = DeliveryFlow {
                    warehouse_id,
                    carrier_id,
                    timestamp,
                    batch,
                    stage: DeliveryStage::Claim,
                };
                match other {
                    DeliveryStage::Claim => rest.after_claims(&results),
                    DeliveryStage::Lock { claims, indices } => rest.after_locks(
                        claims.as_slice(),
                        indices.as_slice(),
                        &results,
                    ),
                    DeliveryStage::Deliver { orders, indices } => {
                        match validate_stage_three(
                            &results,
                            orders.as_slice(),
                            indices.as_slice(),
                        ) {
                            Ok(transitions) => FlowStep::Done(
                                Ok(
                                    delivery_outcome(
                                        rest.warehouse_id,
                                        rest.timestamp.as_str(),
                                        orders.as_slice(),
                                        transitions.as_slice(),
                                    ),
                                ),
                            ),
                            Err(violation) => FlowStep::Done(
                                Err(RankedTransactionError::Semantic(violation)),
                            ),
                        }
                    },
                    _ => FlowStep::Done(
                        Ok(
                            RankedTransactionOutcome::Committed(
                                RankedCommit::Delivery(Vec::new()),
                            ),
                        ),
                    ),
                }
            },
        }
    }
}

proof fn lemma_locked_len(
    results: Seq<Option<Seq<Seq<WireModel>>>>,
    claims: Seq<DistrictClaim>,
    indices: Seq<StageTwoIndices>,
    n: int,
)
    requires
        0 <= n,
    ensures
        locked_orders(results, claims, indices, n).len() <= n,
    decreases n,
{
    if n > 0 {
        lemma_locked_len(results, claims, indices, n - 1);
    }
}

} // verus!
