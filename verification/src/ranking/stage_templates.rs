//! The plan of each transaction: its stages, and the statements of each.
use vstd::prelude::*;

use crate::ranking::statement_id::StatementId;

verus! {

/// How often a step is expanded.
#[derive(Clone, Copy, Debug, PartialEq, Eq, Structural)]
pub enum Multiplicity {
    Once,
    PerOrderLine,
    SortedUniqueStock,
    TenDistricts,
    PerClaimedDistrict,
}

/// One step of a plan. A single alternative is mandatory; of several, exactly
/// one is chosen per expansion.
#[derive(Clone, Debug, PartialEq, Eq)]
pub struct PlanStep {
    pub alternatives: Vec<StatementId>,
    pub multiplicity: Multiplicity,
}

/// One round trip of a plan.
#[derive(Clone, Debug, PartialEq, Eq)]
pub struct StageTemplate {
    pub round_trip: u8,
    pub steps: Vec<PlanStep>,
}

/// The content of a [`PlanStep`].
#[verifier::ext_equal]
pub struct StepModel {
    pub alternatives: Seq<StatementId>,
    pub multiplicity: Multiplicity,
}

/// The content of a [`StageTemplate`].
#[verifier::ext_equal]
pub struct StageModel {
    pub round_trip: u8,
    pub steps: Seq<StepModel>,
}

impl View for PlanStep {
    type V = StepModel;

    open spec fn view(&self) -> StepModel {
        StepModel { alternatives: self.alternatives@, multiplicity: self.multiplicity }
    }
}

/// The contents of a list of steps.
pub open spec fn step_models(steps: Seq<PlanStep>) -> Seq<StepModel> {
    Seq::new(steps.len(), |i: int| steps[i]@)
}

impl View for StageTemplate {
    type V = StageModel;

    open spec fn view(&self) -> StageModel {
        StageModel { round_trip: self.round_trip, steps: step_models(self.steps@) }
    }
}

/// The contents of a list of stages.
pub open spec fn stage_models(stages: Seq<StageTemplate>) -> Seq<StageModel> {
    Seq::new(stages.len(), |i: int| stages[i]@)
}

/// A step of one statement.
pub open spec fn step_of(id: StatementId, multiplicity: Multiplicity) -> StepModel {
    StepModel { alternatives: seq![id], multiplicity }
}

/// A step of one of two statements.
pub open spec fn choice_of(
    a: StatementId,
    b: StatementId,
    multiplicity: Multiplicity,
) -> StepModel {
    StepModel { alternatives: seq![a, b], multiplicity }
}

fn step(id: StatementId, multiplicity: Multiplicity) -> (r: PlanStep)
    ensures
        r@ == step_of(id, multiplicity),
{
    let r = PlanStep { alternatives: vec![id], multiplicity };
    assert(r@ =~= step_of(id, multiplicity));
    r
}

fn choice(a: StatementId, b: StatementId, multiplicity: Multiplicity) -> (r: PlanStep)
    ensures
        r@ == choice_of(a, b, multiplicity),
{
    let r = PlanStep { alternatives: vec![a, b], multiplicity };
    assert(r@ =~= choice_of(a, b, multiplicity));
    r
}

/// A NewOrder that commits.
pub open spec fn new_order_plan() -> Seq<StageModel> {
    seq![
        StageModel {
            round_trip: 1,
            steps: seq![
                step_of(StatementId::Begin, Multiplicity::Once),
                step_of(StatementId::NewOrderHome, Multiplicity::Once),
                step_of(StatementId::StockLevelNextOrder, Multiplicity::Once),
                step_of(StatementId::NewOrderLockStock, Multiplicity::SortedUniqueStock),
                step_of(StatementId::NewOrderItem, Multiplicity::PerOrderLine),
                step_of(StatementId::NewOrderStock, Multiplicity::PerOrderLine),
            ],
        },
        StageModel {
            round_trip: 2,
            steps: seq![
                step_of(StatementId::NewOrderAdvanceDistrict, Multiplicity::Once),
                step_of(StatementId::NewOrderInsertOrder, Multiplicity::Once),
                step_of(StatementId::NewOrderInsertQueue, Multiplicity::Once),
                choice_of(
                    StatementId::NewOrderUpdateStockNormal,
                    StatementId::NewOrderUpdateStockWrapped,
                    Multiplicity::PerOrderLine,
                ),
                step_of(StatementId::NewOrderInsertLine, Multiplicity::PerOrderLine),
                step_of(StatementId::Commit, Multiplicity::Once),
            ],
        },
    ]
}

/// A NewOrder that commits.
pub fn new_order_stages() -> (r: Vec<StageTemplate>)
    ensures
        stage_models(r@) == new_order_plan(),
{
    let stages = vec![
        StageTemplate {
            round_trip: 1,
            steps: vec![
                step(StatementId::Begin, Multiplicity::Once),
                step(StatementId::NewOrderHome, Multiplicity::Once),
                step(StatementId::StockLevelNextOrder, Multiplicity::Once),
                step(StatementId::NewOrderLockStock, Multiplicity::SortedUniqueStock),
                step(StatementId::NewOrderItem, Multiplicity::PerOrderLine),
                step(StatementId::NewOrderStock, Multiplicity::PerOrderLine),
            ],
        },
        StageTemplate {
            round_trip: 2,
            steps: vec![
                step(StatementId::NewOrderAdvanceDistrict, Multiplicity::Once),
                step(StatementId::NewOrderInsertOrder, Multiplicity::Once),
                step(StatementId::NewOrderInsertQueue, Multiplicity::Once),
                choice(
                    StatementId::NewOrderUpdateStockNormal,
                    StatementId::NewOrderUpdateStockWrapped,
                    Multiplicity::PerOrderLine,
                ),
                step(StatementId::NewOrderInsertLine, Multiplicity::PerOrderLine),
                step(StatementId::Commit, Multiplicity::Once),
            ],
        },
    ];
    assert(stage_models(stages@) =~~= new_order_plan());
    stages
}

/// A Payment.
pub open spec fn payment_plan() -> Seq<StageModel> {
    seq![
        StageModel {
            round_trip: 1,
            steps: seq![
                step_of(StatementId::Begin, Multiplicity::Once),
                step_of(StatementId::PaymentWarehouse, Multiplicity::Once),
                step_of(StatementId::PaymentUpdateWarehouse, Multiplicity::Once),
                step_of(StatementId::PaymentWarehouse, Multiplicity::Once),
                step_of(StatementId::PaymentDistrict, Multiplicity::Once),
                step_of(StatementId::PaymentUpdateDistrict, Multiplicity::Once),
                step_of(StatementId::PaymentDistrict, Multiplicity::Once),
                choice_of(
                    StatementId::PaymentCustomerById,
                    StatementId::PaymentCustomerByLast,
                    Multiplicity::Once,
                ),
            ],
        },
        StageModel {
            round_trip: 2,
            steps: seq![
                choice_of(
                    StatementId::PaymentUpdateGoodCustomer,
                    StatementId::PaymentUpdateBadCustomer,
                    Multiplicity::Once,
                ),
                step_of(StatementId::PaymentInsertHistory, Multiplicity::Once),
                step_of(StatementId::PaymentCustomerAfter, Multiplicity::Once),
                step_of(StatementId::Commit, Multiplicity::Once),
            ],
        },
    ]
}

/// A Payment.
pub fn payment_stages() -> (r: Vec<StageTemplate>)
    ensures
        stage_models(r@) == payment_plan(),
{
    let stages = vec![
        StageTemplate {
            round_trip: 1,
            steps: vec![
                step(StatementId::Begin, Multiplicity::Once),
                step(StatementId::PaymentWarehouse, Multiplicity::Once),
                step(StatementId::PaymentUpdateWarehouse, Multiplicity::Once),
                step(StatementId::PaymentWarehouse, Multiplicity::Once),
                step(StatementId::PaymentDistrict, Multiplicity::Once),
                step(StatementId::PaymentUpdateDistrict, Multiplicity::Once),
                step(StatementId::PaymentDistrict, Multiplicity::Once),
                choice(
                    StatementId::PaymentCustomerById,
                    StatementId::PaymentCustomerByLast,
                    Multiplicity::Once,
                ),
            ],
        },
        StageTemplate {
            round_trip: 2,
            steps: vec![
                choice(
                    StatementId::PaymentUpdateGoodCustomer,
                    StatementId::PaymentUpdateBadCustomer,
                    Multiplicity::Once,
                ),
                step(StatementId::PaymentInsertHistory, Multiplicity::Once),
                step(StatementId::PaymentCustomerAfter, Multiplicity::Once),
                step(StatementId::Commit, Multiplicity::Once),
            ],
        },
    ];
    assert(stage_models(stages@) =~~= payment_plan());
    stages
}

/// An OrderStatus.
pub open spec fn order_status_plan() -> Seq<StageModel> {
    seq![
        StageModel {
            round_trip: 1,
            steps: seq![
                step_of(StatementId::Begin, Multiplicity::Once),
                choice_of(
                    StatementId::OrderStatusCustomerById,
                    StatementId::OrderStatusCustomerByLast,
                    Multiplicity::Once,
                ),
            ],
        },
        StageModel {
            round_trip: 2,
            steps: seq![
                step_of(StatementId::OrderStatusLatestOrder, Multiplicity::Once),
            ],
        },
        StageModel {
            round_trip: 3,
            steps: seq![
                step_of(StatementId::OrderStatusOrder, Multiplicity::Once),
                step_of(StatementId::OrderStatusLines, Multiplicity::Once),
                step_of(StatementId::Commit, Multiplicity::Once),
            ],
        },
    ]
}

/// An OrderStatus.
pub fn order_status_stages() -> (r: Vec<StageTemplate>)
    ensures
        stage_models(r@) == order_status_plan(),
{
    let stages = vec![
        StageTemplate {
            round_trip: 1,
            steps: vec![
                step(StatementId::Begin, Multiplicity::Once),
                choice(
                    StatementId::OrderStatusCustomerById,
                    StatementId::OrderStatusCustomerByLast,
                    Multiplicity::Once,
                ),
            ],
        },
        StageTemplate {
            round_trip: 2,
            steps: vec![
                step(StatementId::OrderStatusLatestOrder, Multiplicity::Once),
            ],
        },
        StageTemplate {
            round_trip: 3,
            steps: vec![
                step(StatementId::OrderStatusOrder, Multiplicity::Once),
                step(StatementId::OrderStatusLines, Multiplicity::Once),
                step(StatementId::Commit, Multiplicity::Once),
            ],
        },
    ];
    assert(stage_models(stages@) =~~= order_status_plan());
    stages
}

/// A Delivery with claims.
pub open spec fn delivery_plan() -> Seq<StageModel> {
    seq![
        StageModel {
            round_trip: 1,
            steps: seq![
                step_of(StatementId::Begin, Multiplicity::Once),
                step_of(StatementId::DeliveryOldestOrder, Multiplicity::TenDistricts),
            ],
        },
        StageModel {
            round_trip: 2,
            steps: seq![
                step_of(StatementId::DeliveryLockQueue, Multiplicity::PerClaimedDistrict),
                step_of(StatementId::DeliveryConfirmQueue, Multiplicity::PerClaimedDistrict),
                step_of(StatementId::DeliveryOrder, Multiplicity::PerClaimedDistrict),
                step_of(StatementId::DeliveryCustomer, Multiplicity::PerClaimedDistrict),
                step_of(StatementId::DeliveryLineRows, Multiplicity::PerClaimedDistrict),
                step_of(StatementId::DeliveryLineSum, Multiplicity::PerClaimedDistrict),
            ],
        },
        StageModel {
            round_trip: 3,
            steps: seq![
                step_of(StatementId::DeliveryDeleteQueue, Multiplicity::PerClaimedDistrict),
                step_of(StatementId::DeliveryUpdateOrder, Multiplicity::PerClaimedDistrict),
                step_of(StatementId::DeliveryUpdateLines, Multiplicity::PerClaimedDistrict),
                step_of(StatementId::DeliveryUpdateCustomer, Multiplicity::PerClaimedDistrict),
                step_of(StatementId::DeliveryCustomerAfter, Multiplicity::PerClaimedDistrict),
                step_of(StatementId::Commit, Multiplicity::Once),
            ],
        },
    ]
}

/// A Delivery with claims.
pub fn delivery_stages() -> (r: Vec<StageTemplate>)
    ensures
        stage_models(r@) == delivery_plan(),
{
    let stages = vec![
        StageTemplate {
            round_trip: 1,
            steps: vec![
                step(StatementId::Begin, Multiplicity::Once),
                step(StatementId::DeliveryOldestOrder, Multiplicity::TenDistricts),
            ],
        },
        StageTemplate {
            round_trip: 2,
            steps: vec![
                step(StatementId::DeliveryLockQueue, Multiplicity::PerClaimedDistrict),
                step(StatementId::DeliveryConfirmQueue, Multiplicity::PerClaimedDistrict),
                step(StatementId::DeliveryOrder, Multiplicity::PerClaimedDistrict),
                step(StatementId::DeliveryCustomer, Multiplicity::PerClaimedDistrict),
                step(StatementId::DeliveryLineRows, Multiplicity::PerClaimedDistrict),
                step(StatementId::DeliveryLineSum, Multiplicity::PerClaimedDistrict),
            ],
        },
        StageTemplate {
            round_trip: 3,
            steps: vec![
                step(StatementId::DeliveryDeleteQueue, Multiplicity::PerClaimedDistrict),
                step(StatementId::DeliveryUpdateOrder, Multiplicity::PerClaimedDistrict),
                step(StatementId::DeliveryUpdateLines, Multiplicity::PerClaimedDistrict),
                step(StatementId::DeliveryUpdateCustomer, Multiplicity::PerClaimedDistrict),
                step(StatementId::DeliveryCustomerAfter, Multiplicity::PerClaimedDistrict),
                step(StatementId::Commit, Multiplicity::Once),
            ],
        },
    ];
    assert(stage_models(stages@) =~~= delivery_plan());
    stages
}

/// A StockLevel.
pub open spec fn stock_level_plan() -> Seq<StageModel> {
    seq![
        StageModel {
            round_trip: 1,
            steps: seq![
                step_of(StatementId::Begin, Multiplicity::Once),
                step_of(StatementId::StockLevelNextOrder, Multiplicity::Once),
            ],
        },
        StageModel {
            round_trip: 2,
            steps: seq![
                step_of(StatementId::StockLevelCount, Multiplicity::Once),
                step_of(StatementId::Commit, Multiplicity::Once),
            ],
        },
    ]
}

/// A StockLevel.
pub fn stock_level_stages() -> (r: Vec<StageTemplate>)
    ensures
        stage_models(r@) == stock_level_plan(),
{
    let stages = vec![
        StageTemplate {
            round_trip: 1,
            steps: vec![
                step(StatementId::Begin, Multiplicity::Once),
                step(StatementId::StockLevelNextOrder, Multiplicity::Once),
            ],
        },
        StageTemplate {
            round_trip: 2,
            steps: vec![
                step(StatementId::StockLevelCount, Multiplicity::Once),
                step(StatementId::Commit, Multiplicity::Once),
            ],
        },
    ];
    assert(stage_models(stages@) =~~= stock_level_plan());
    stages
}

/// The second round trip of a NewOrder that rolls back.
pub open spec fn new_order_expected_rollback_plan() -> StageModel {
    StageModel { round_trip: 2, steps: seq![step_of(StatementId::Abort, Multiplicity::Once)] }
}

/// The second round trip of a NewOrder that rolls back.
pub fn new_order_expected_rollback_stage() -> (r: StageTemplate)
    ensures
        r@ == new_order_expected_rollback_plan(),
{
    let stage = StageTemplate {
        round_trip: 2,
        steps: vec![step(StatementId::Abort, Multiplicity::Once)],
    };
    assert(stage@ =~~= new_order_expected_rollback_plan());
    stage
}

/// The second round trip of a Delivery without claims.
pub open spec fn delivery_empty_plan() -> StageModel {
    StageModel { round_trip: 2, steps: seq![step_of(StatementId::Commit, Multiplicity::Once)] }
}

/// The second round trip of a Delivery without claims.
pub fn delivery_empty_stage() -> (r: StageTemplate)
    ensures
        r@ == delivery_empty_plan(),
{
    let stage = StageTemplate {
        round_trip: 2,
        steps: vec![step(StatementId::Commit, Multiplicity::Once)],
    };
    assert(stage@ =~~= delivery_empty_plan());
    stage
}

/// Whether the stages of a plan are numbered from one on, and none of them is
/// empty.
pub open spec fn is_dense(plan: Seq<StageModel>) -> bool {
    &&& forall|i: int| 0 <= i < plan.len() ==> (#[trigger] plan[i]).round_trip == i + 1
    &&& forall|i: int| 0 <= i < plan.len() ==> (#[trigger] plan[i]).steps.len() > 0
    &&& forall|i: int, k: int|
        0 <= i < plan.len() && 0 <= k < plan[i].steps.len() ==> (
        #[trigger] plan[i].steps[k]).alternatives.len() > 0
}

/// The stages of every plan are numbered from one on; none of them is empty,
/// and every step has a statement.
pub proof fn law_plans_are_dense()
    ensures
        is_dense(new_order_plan()),
        is_dense(payment_plan()),
        is_dense(order_status_plan()),
        is_dense(delivery_plan()),
        is_dense(stock_level_plan()),
{
}

} // verus!
