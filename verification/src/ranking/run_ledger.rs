//! The ledger of one run: aggregates, partitions and the events behind them.
use vstd::prelude::*;

use crate::ranking::identity_set::IdentitySet;
use crate::ranking::ledger::{
    CUSTOMERS_PER_DISTRICT, CommittedLedger, DeliveredOrderDelta, DeliveryDelta, EventModel,
    LedgerClass, LedgerError, LedgerEvent, LedgerFault, NewOrderDelta, NewOrderLineDelta,
    PARTITION_COUNT, PartitionDelta, PartitionKey, add_fault, amount_ok, amounts_fault,
    bits_fault, checked_add, delivered_order_fault, delivered_orders_fault,
    delivery_partition_delta, delta_add_fault, delta_sum, either, ensure_extend_capacity,
    event_fault, extend_fault, fails, fault, identity, new_order_partition_delta, no_delta,
    normal_class, partition_fault, partition_index, partition_position, tail_class,
    validate_amount_bits,
};
use crate::ranking::ledger_events::{
    OrderModel, OutcomeModel, event_from_ticket, event_outcome, order_model, order_models,
    outcome_model, terminal_fault, ticket_event,
};
use crate::ranking::runner::{DeliveredOrderEvidence, RankedCommit, RankedTransactionOutcome};
use crate::workload::TransactionTicket;

verus! {


/// Lossless committed-work evidence for one ranked run.
///
/// Each worker owns a local `RunLedger` and calls [`RunLedger::record`] only
/// after a transaction has reached its terminal result. The coordinator then
/// merges worker ledgers in a stable worker-id order.
#[derive(Clone, Debug, Eq, PartialEq)]
pub struct RunLedger {
    pub new_orders: i64,
    pub new_order_lines: i64,
    pub remote_new_order_lines: i64,
    pub stock_ytd_delta: i64,
    pub payments: i64,
    pub delivery_commits: i64,
    pub delivered_orders: i64,
    pub delivered_order_lines: i64,
    pub order_status_commits: i64,
    pub stock_level_commits: i64,
    pub expected_rollbacks: i64,
    pub new_order_line_amount_bits: Vec<u32>,
    pub payment_amount_bits: Vec<u32>,
    pub delivery_customer_amount_bits: Vec<u32>,
    pub partitions: Vec<PartitionDelta>,
    pub events: Vec<LedgerEvent>,
}

/// The content of a [`RunLedger`].
#[verifier::ext_equal]
pub struct LedgerModel {
    pub new_orders: i64,
    pub new_order_lines: i64,
    pub remote_new_order_lines: i64,
    pub stock_ytd_delta: i64,
    pub payments: i64,
    pub delivery_commits: i64,
    pub delivered_orders: i64,
    pub delivered_order_lines: i64,
    pub order_status_commits: i64,
    pub stock_level_commits: i64,
    pub expected_rollbacks: i64,
    pub new_order_line_amount_bits: Seq<u32>,
    pub payment_amount_bits: Seq<u32>,
    pub delivery_customer_amount_bits: Seq<u32>,
    pub partitions: Seq<PartitionDelta>,
    pub events: Seq<EventModel>,
}

/// The contents of a list of events.
pub open spec fn event_models(events: Seq<LedgerEvent>) -> Seq<EventModel> {
    Seq::new(events.len(), |i: int| events[i]@)
}

impl View for RunLedger {
    type V = LedgerModel;

    open spec fn view(&self) -> LedgerModel {
        LedgerModel {
            new_orders: self.new_orders,
            new_order_lines: self.new_order_lines,
            remote_new_order_lines: self.remote_new_order_lines,
            stock_ytd_delta: self.stock_ytd_delta,
            payments: self.payments,
            delivery_commits: self.delivery_commits,
            delivered_orders: self.delivered_orders,
            delivered_order_lines: self.delivered_order_lines,
            order_status_commits: self.order_status_commits,
            stock_level_commits: self.stock_level_commits,
            expected_rollbacks: self.expected_rollbacks,
            new_order_line_amount_bits: self.new_order_line_amount_bits@,
            payment_amount_bits: self.payment_amount_bits@,
            delivery_customer_amount_bits: self.delivery_customer_amount_bits@,
            partitions: self.partitions@,
            events: event_models(self.events@),
        }
    }
}

/// The ledger of a run in which nothing happened.
pub open spec fn empty_ledger() -> LedgerModel {
    LedgerModel {
        new_orders: 0,
        new_order_lines: 0,
        remote_new_order_lines: 0,
        stock_ytd_delta: 0,
        payments: 0,
        delivery_commits: 0,
        delivered_orders: 0,
        delivered_order_lines: 0,
        order_status_commits: 0,
        stock_level_commits: 0,
        expected_rollbacks: 0,
        new_order_line_amount_bits: Seq::empty(),
        payment_amount_bits: Seq::empty(),
        delivery_customer_amount_bits: Seq::empty(),
        partitions: Seq::new(500, |i: int| no_delta()),
        events: Seq::empty(),
    }
}

/// Whether every partition has its slot.
pub open spec fn shaped(m: LedgerModel) -> bool {
    m.partitions.len() == 500
}

/// Position of a delivered order's partition.
pub open spec fn order_position(order: OrderModel) -> int {
    partition_position(order.warehouse_id as int, order.district_id as int)
}

/// Whether the partition of order `i` occurs among the orders before it.
pub open spec fn order_repeats(orders: Seq<OrderModel>, i: int) -> bool {
    exists|j: int| 0 <= j < i && #[trigger] order_position(orders[j]) == order_position(orders[i])
}

pub open spec fn applied_order_fault(
    partitions: Seq<PartitionDelta>,
    orders: Seq<OrderModel>,
    i: int,
) -> Option<LedgerFault> {
    let order = orders[i];
    either(
        fails(
            order.warehouse_id != orders[0].warehouse_id,
            LedgerFault::InvalidEvidence("one Delivery commit spans multiple warehouses"@),
        ),
        either(
            partition_fault(order.warehouse_id as i32, order.district_id as i32),
            either(
                fails(
                    order_repeats(orders, i),
                    LedgerFault::InvalidEvidence("Delivery processed a district more than once"@),
                ),
                either(
                    fails(
                        order.order_id <= 0,
                        LedgerFault::InvalidEvidence("Delivery order_id must be positive"@),
                    ),
                    either(
                        fails(
                            !(1 <= order.customer_id <= CUSTOMERS_PER_DISTRICT),
                            LedgerFault::InvalidEvidence(
                                "Delivery customer_id is outside 1..=3000"@,
                            ),
                        ),
                        either(
                            fails(
                                !(5 <= order.line_count <= 15),
                                LedgerFault::InvalidEvidence("Delivery line_count must be 5..=15"@),
                            ),
                            either(
                                fails(
                                    !amount_ok(order.amount_bits),
                                    bits_fault("Delivery customer amount"@, order.amount_bits),
                                ),
                                delta_add_fault(
                                    partitions[order_position(order)],
                                    delivery_partition_delta(order.line_count as i64),
                                ),
                            ),
                        ),
                    ),
                ),
            ),
        ),
    )
}

/// The first order from position `i` on that cannot be applied.
pub open spec fn applied_orders_fault(
    partitions: Seq<PartitionDelta>,
    orders: Seq<OrderModel>,
    i: int,
) -> Option<LedgerFault>
    decreases orders.len() - i,
{
    if i < 0 || i >= orders.len() {
        None
    } else {
        either(
            applied_order_fault(partitions, orders, i),
            applied_orders_fault(partitions, orders, i + 1),
        )
    }
}

/// Sum of the line counts of the first `n` orders.
pub open spec fn lines_delivered(orders: Seq<OrderModel>, n: int) -> int
    decreases n,
{
    if n <= 0 {
        0
    } else {
        lines_delivered(orders, n - 1) + orders[n - 1].line_count
    }
}

/// The partitions after the first `n` orders.
pub open spec fn delivered_partitions(
    partitions: Seq<PartitionDelta>,
    orders: Seq<OrderModel>,
    n: int,
) -> Seq<PartitionDelta>
    decreases n,
{
    if n <= 0 {
        partitions
    } else {
        let position = order_position(orders[n - 1]);
        delivered_partitions(partitions, orders, n - 1).update(
            position,
            delta_sum(
                partitions[position],
                delivery_partition_delta(orders[n - 1].line_count as i64),
            ),
        )
    }
}

pub open spec fn order_amounts(orders: Seq<OrderModel>) -> Seq<u32> {
    Seq::new(orders.len(), |i: int| orders[i].amount_bits)
}

/// Why an outcome cannot be applied to a ledger.
pub open spec fn apply_fault(m: LedgerModel, outcome: OutcomeModel) -> Option<LedgerFault> {
    match outcome {
        OutcomeModel::ExpectedRollback => add_fault(
            m.expected_rollbacks as int,
            1,
            "expected_rollbacks"@,
        ),
        OutcomeModel::NewOrder {
            warehouse_id,
            district_id,
            order_id,
            line_count,
            remote_line_count,
            stock_ytd_delta,
            amounts,
        } => either(
            either(
                partition_fault(warehouse_id as i32, district_id as i32),
                either(
                    fails(
                        order_id <= 0,
                        LedgerFault::InvalidEvidence("NewOrder order_id must be positive"@),
                    ),
                    either(
                        fails(
                            !(5 <= line_count <= 15),
                            LedgerFault::InvalidEvidence("NewOrder line_count must be 5..=15"@),
                        ),
                        either(
                            fails(
                                remote_line_count > line_count,
                                LedgerFault::InvalidEvidence(
                                    "NewOrder remote lines exceed all lines"@,
                                ),
                            ),
                            either(
                                fails(
                                    amounts.len() != line_count,
                                    LedgerFault::InvalidEvidence(
                                        "NewOrder amount-bit count differs from line_count"@,
                                    ),
                                ),
                                either(
                                    amounts_fault("NewOrder line amount"@, amounts, 0),
                                    fails(
                                        !(line_count <= stock_ytd_delta <= line_count * 10),
                                        LedgerFault::InvalidEvidence(
                                            "NewOrder stock_ytd_delta must equal 1..=10 per line"@,
                                        ),
                                    ),
                                ),
                            ),
                        ),
                    ),
                ),
            ),
            either(
                add_fault(m.new_orders as int, 1, "new_orders"@),
                either(
                    add_fault(m.new_order_lines as int, line_count as int, "new_order_lines"@),
                    either(
                        add_fault(
                            m.remote_new_order_lines as int,
                            remote_line_count as int,
                            "remote_new_order_lines"@,
                        ),
                        either(
                            add_fault(
                                m.stock_ytd_delta as int,
                                stock_ytd_delta as int,
                                "stock_ytd_delta"@,
                            ),
                            either(
                                delta_add_fault(
                                    m.partitions[partition_position(
                                        warehouse_id as int,
                                        district_id as int,
                                    )],
                                    new_order_partition_delta(line_count as i64),
                                ),
                                extend_fault(
                                    m.new_order_line_amount_bits.len(),
                                    amounts.len(),
                                    "new_order_line_amount_bits"@,
                                ),
                            ),
                        ),
                    ),
                ),
            ),
        ),
        OutcomeModel::Payment {
            warehouse_id,
            district_id,
            customer_warehouse_id,
            customer_district_id,
            customer_id,
            amount_bits,
        } => either(
            partition_fault(warehouse_id as i32, district_id as i32),
            either(
                partition_fault(customer_warehouse_id as i32, customer_district_id as i32),
                either(
                    fails(
                        !(1 <= customer_id <= CUSTOMERS_PER_DISTRICT),
                        LedgerFault::InvalidEvidence("Payment customer_id is outside 1..=3000"@),
                    ),
                    either(
                        fails(!amount_ok(amount_bits), bits_fault("Payment amount"@, amount_bits)),
                        either(
                            add_fault(m.payments as int, 1, "payments"@),
                            extend_fault(m.payment_amount_bits.len(), 1, "payment_amount_bits"@),
                        ),
                    ),
                ),
            ),
        ),
        OutcomeModel::OrderStatus => add_fault(
            m.order_status_commits as int,
            1,
            "order_status_commits"@,
        ),
        OutcomeModel::StockLevel { low_stock_count } => either(
            fails(
                !(0 <= low_stock_count <= 300),
                LedgerFault::InvalidEvidence("StockLevel low_stock_count must be in 0..=300"@),
            ),
            add_fault(m.stock_level_commits as int, 1, "stock_level_commits"@),
        ),
        OutcomeModel::Delivery(orders) => either(
            fails(
                orders.len() > 10,
                LedgerFault::InvalidEvidence(
                    "Delivery processed more than one order per district"@,
                ),
            ),
            either(
                add_fault(m.delivery_commits as int, 1, "delivery_commits"@),
                either(
                    applied_orders_fault(m.partitions, orders, 0),
                    either(
                        add_fault(
                            m.delivered_orders as int,
                            orders.len() as int,
                            "delivered_orders"@,
                        ),
                        either(
                            add_fault(
                                m.delivered_order_lines as int,
                                lines_delivered(orders, orders.len() as int),
                                "delivered_order_lines"@,
                            ),
                            extend_fault(
                                m.delivery_customer_amount_bits.len(),
                                orders.len(),
                                "delivery_customer_amount_bits"@,
                            ),
                        ),
                    ),
                ),
            ),
        ),
    }
}

/// The ledger after an outcome that can be applied.
pub open spec fn applied(m: LedgerModel, outcome: OutcomeModel) -> LedgerModel {
    match outcome {
        OutcomeModel::ExpectedRollback => LedgerModel {
            expected_rollbacks: (m.expected_rollbacks + 1) as i64,
            ..m
        },
        OutcomeModel::NewOrder {
            warehouse_id,
            district_id,
            order_id,
            line_count,
            remote_line_count,
            stock_ytd_delta,
            amounts,
        } => {
            let position = partition_position(warehouse_id as int, district_id as int);
            LedgerModel {
                new_orders: (m.new_orders + 1) as i64,
                new_order_lines: (m.new_order_lines + line_count) as i64,
                remote_new_order_lines: (m.remote_new_order_lines + remote_line_count) as i64,
                stock_ytd_delta: (m.stock_ytd_delta + stock_ytd_delta) as i64,
                partitions: m.partitions.update(
                    position,
                    delta_sum(
                        m.partitions[position],
                        new_order_partition_delta(line_count as i64),
                    ),
                ),
                new_order_line_amount_bits: m.new_order_line_amount_bits + amounts,
                ..m
            }
        },
        OutcomeModel::Payment {
            warehouse_id,
            district_id,
            customer_warehouse_id,
            customer_district_id,
            customer_id,
            amount_bits,
        } => LedgerModel {
            payments: (m.payments + 1) as i64,
            payment_amount_bits: m.payment_amount_bits.push(amount_bits),
            ..m
        },
        OutcomeModel::OrderStatus => LedgerModel {
            order_status_commits: (m.order_status_commits + 1) as i64,
            ..m
        },
        OutcomeModel::StockLevel { low_stock_count } => LedgerModel {
            stock_level_commits: (m.stock_level_commits + 1) as i64,
            ..m
        },
        OutcomeModel::Delivery(orders) => LedgerModel {
            delivery_commits: (m.delivery_commits + 1) as i64,
            delivered_orders: (m.delivered_orders + orders.len()) as i64,
            delivered_order_lines: (m.delivered_order_lines + lines_delivered(
                orders,
                orders.len() as int,
            )) as i64,
            partitions: delivered_partitions(m.partitions, orders, orders.len() as int),
            delivery_customer_amount_bits: m.delivery_customer_amount_bits + order_amounts(orders),
            ..m
        },
    }
}

/// One staged partition value.
#[derive(Clone, Copy)]
pub struct PartitionUpdate {
    pub index: usize,
    pub delta: PartitionDelta,
}

impl Default for RunLedger {
    fn default() -> (r: Self)
        ensures
            r@ == empty_ledger(),
            shaped(r@),
            events_valid(r@.events),
    {
        let mut partitions: Vec<PartitionDelta> = Vec::new();
        let mut i: usize = 0;
        while i < PARTITION_COUNT
            invariant
                i <= 500,
                partitions@ == Seq::new(i as nat, |k: int| no_delta()),
            decreases 500 - i,
        {
            partitions.push(PartitionDelta::default());
            i = i + 1;
        }
        let r = Self {
            new_orders: 0,
            new_order_lines: 0,
            remote_new_order_lines: 0,
            stock_ytd_delta: 0,
            payments: 0,
            delivery_commits: 0,
            delivered_orders: 0,
            delivered_order_lines: 0,
            order_status_commits: 0,
            stock_level_commits: 0,
            expected_rollbacks: 0,
            new_order_line_amount_bits: Vec::new(),
            payment_amount_bits: Vec::new(),
            delivery_customer_amount_bits: Vec::new(),
            partitions,
            events: Vec::new(),
        };
        assert(r@ =~= empty_ledger());
        r
    }
}

/// Stages the partition values of a Delivery without touching the ledger.
fn stage_orders(partitions: &Vec<PartitionDelta>, orders: &Vec<DeliveredOrderEvidence>) -> (r:
    Result<(i64, Vec<PartitionUpdate>), LedgerError>)
    requires
        partitions@.len() == 500,
        orders@.len() <= 10,
    ensures
        fault(r) == applied_orders_fault(partitions@, order_models(orders@), 0),
        r matches Ok((lines, updates)) ==> {
            let models = order_models(orders@);
            &&& lines == lines_delivered(models, models.len() as int)
            &&& updates@.len() == orders@.len()
            &&& forall|k: int|
                0 <= k < updates@.len() ==> {
                    &&& (#[trigger] updates@[k]).index == order_position(models[k])
                    &&& updates@[k].index < 500
                    &&& updates@[k].delta == delta_sum(
                        partitions@[order_position(models[k])],
                        delivery_partition_delta(models[k].line_count as i64),
                    )
                }
        },
{
    let ghost models = order_models(orders@);
    let mut delivered_lines: i64 = 0;
    let mut updates: Vec<PartitionUpdate> = Vec::new();
    let mut i: usize = 0;
    while i < orders.len()
        invariant
            i <= orders.len() <= 10,
            partitions@.len() == 500,
            models == order_models(orders@),
            applied_orders_fault(partitions@, models, 0) == applied_orders_fault(
                partitions@,
                models,
                i as int,
            ),
            0 <= delivered_lines <= 15 * i,
            delivered_lines == lines_delivered(models, i as int),
            updates@.len() == i,
            forall|k: int|
                0 <= k < i ==> {
                    &&& (#[trigger] updates@[k]).index == order_position(models[k])
                    &&& updates@[k].index < 500
                    &&& updates@[k].delta == delta_sum(
                        partitions@[order_position(models[k])],
                        delivery_partition_delta(models[k].line_count as i64),
                    )
                },
        decreases orders.len() - i,
    {
        let order = &orders[i];
        assert(models[i as int] == order_model(orders@[i as int]));
        assert(models[0] == order_model(orders@[0]));
        if order.warehouse_id != orders[0].warehouse_id {
            return Err(
                LedgerError::InvalidEvidence("one Delivery commit spans multiple warehouses"),
            );
        }
        let index: usize = partition_index(order.warehouse_id as i32, order.district_id as i32)?;
        let mut j: usize = 0;
        while j < i
            invariant
                j <= i == updates@.len(),
                i < models.len(),
                index == order_position(models[i as int]),
                models[i as int].warehouse_id == models[0].warehouse_id,
                partition_fault(
                    models[i as int].warehouse_id as i32,
                    models[i as int].district_id as i32,
                ) is None,
                applied_orders_fault(partitions@, models, 0) == applied_orders_fault(
                    partitions@,
                    models,
                    i as int,
                ),
                models == order_models(orders@),
                forall|k: int|
                    0 <= k < i ==> (#[trigger] updates@[k]).index == order_position(models[k]),
                forall|k: int| 0 <= k < j ==> #[trigger] order_position(models[k]) != index,
            decreases i - j,
        {
            if updates[j].index == index {
                proof {
                    assert(order_position(models[j as int]) == order_position(models[i as int]));
                }
                return Err(
                    LedgerError::InvalidEvidence("Delivery processed a district more than once"),
                );
            }
            j = j + 1;
        }
        if order.order_id <= 0 {
            return Err(LedgerError::InvalidEvidence("Delivery order_id must be positive"));
        }
        if order.customer_id < 1 || order.customer_id as i64 > CUSTOMERS_PER_DISTRICT {
            return Err(LedgerError::InvalidEvidence("Delivery customer_id is outside 1..=3000"));
        }
        let line_count: i64 = order.line_count as i64;
        if line_count < 5 || line_count > 15 {
            return Err(LedgerError::InvalidEvidence("Delivery line_count must be 5..=15"));
        }
        validate_one_amount("Delivery customer amount", order.amount_bits)?;
        delivered_lines = delivered_lines + line_count;
        let delta = partitions[index].checked_add(
            PartitionDelta {
                new_orders: 0,
                new_order_lines: 0,
                delivered_orders: 1,
                delivered_order_lines: line_count,
            },
        )?;
        updates.push(PartitionUpdate { index, delta });
        i = i + 1;
    }
    Ok((delivered_lines, updates))
}

fn validate_one_amount(name: &str, bits: u32) -> (r: Result<(), LedgerError>)
    ensures
        fault(r) == fails(!amount_ok(bits), bits_fault(name@, bits)),
{
    let one: [u32; 1] = [bits];
    let r = validate_amount_bits(name, &one);
    proof {
        reveal_with_fuel(amounts_fault, 2);
        assert(one@[0] == bits);
    }
    r
}

impl RunLedger {
    /// Accounts for one terminal; nothing changes when it fails.
    pub fn apply_outcome(&mut self, outcome: &RankedTransactionOutcome) -> (r: Result<
        (),
        LedgerError,
    >)
        requires
            shaped(old(self)@),
        ensures
            fault(r) == apply_fault(old(self)@, outcome_model(*outcome)),
            final(self)@ == if r is Ok {
                applied(old(self)@, outcome_model(*outcome))
            } else {
                old(self)@
            },
            shaped(final(self)@),
            final(self).events == old(self).events,
    {
        let ghost before = self@;
        match outcome {
            RankedTransactionOutcome::ExpectedRollback => {
                self.expected_rollbacks = checked_add(
                    self.expected_rollbacks,
                    1,
                    "expected_rollbacks",
                )?;
                Ok(())
            },
            RankedTransactionOutcome::Committed(RankedCommit::NewOrder(evidence)) => {
                let index: usize = partition_index(
                    evidence.warehouse_id as i32,
                    evidence.district_id as i32,
                )?;
                if evidence.order_id <= 0 {
                    return Err(LedgerError::InvalidEvidence("NewOrder order_id must be positive"));
                }
                let line_count: i64 = evidence.line_count as i64;
                if line_count < 5 || line_count > 15 {
                    return Err(LedgerError::InvalidEvidence("NewOrder line_count must be 5..=15"));
                }
                let remote_line_count: i64 = evidence.remote_line_count as i64;
                if remote_line_count > line_count {
                    return Err(
                        LedgerError::InvalidEvidence("NewOrder remote lines exceed all lines"),
                    );
                }
                if evidence.line_amount_bits.len() != evidence.line_count as usize {
                    return Err(
                        LedgerError::InvalidEvidence(
                            "NewOrder amount-bit count differs from line_count",
                        ),
                    );
                }
                validate_amount_bits(
                    "NewOrder line amount",
                    evidence.line_amount_bits.as_slice(),
                )?;
                let stock_delta: i64 = evidence.stock_ytd_delta as i64;
                if stock_delta < line_count || stock_delta > line_count * 10 {
                    return Err(
                        LedgerError::InvalidEvidence(
                            "NewOrder stock_ytd_delta must equal 1..=10 per line",
                        ),
                    );
                }
                let new_orders: i64 = checked_add(self.new_orders, 1, "new_orders")?;
                let new_order_lines: i64 = checked_add(
                    self.new_order_lines,
                    line_count,
                    "new_order_lines",
                )?;
                let remote_new_order_lines: i64 = checked_add(
                    self.remote_new_order_lines,
                    remote_line_count,
                    "remote_new_order_lines",
                )?;
                let stock_ytd_delta: i64 = checked_add(
                    self.stock_ytd_delta,
                    stock_delta,
                    "stock_ytd_delta",
                )?;
                let partition = self.partitions[index].checked_add(
                    PartitionDelta {
                        new_orders: 1,
                        new_order_lines: line_count,
                        delivered_orders: 0,
                        delivered_order_lines: 0,
                    },
                )?;
                ensure_extend_capacity(
                    self.new_order_line_amount_bits.len(),
                    evidence.line_amount_bits.len(),
                    "new_order_line_amount_bits",
                )?;
                self.new_orders = new_orders;
                self.new_order_lines = new_order_lines;
                self.remote_new_order_lines = remote_new_order_lines;
                self.stock_ytd_delta = stock_ytd_delta;
                self.partitions.set(index, partition);
                append_words(&mut self.new_order_line_amount_bits, &evidence.line_amount_bits);
                proof {
                    assert(self@ =~= applied(before, outcome_model(*outcome)));
                }
                Ok(())
            },
            RankedTransactionOutcome::Committed(RankedCommit::Payment(evidence)) => {
                partition_index(evidence.warehouse_id as i32, evidence.district_id as i32)?;
                partition_index(
                    evidence.customer_warehouse_id as i32,
                    evidence.customer_district_id as i32,
                )?;
                if evidence.customer_id < 1 || evidence.customer_id as i64
                    > CUSTOMERS_PER_DISTRICT {
                    return Err(
                        LedgerError::InvalidEvidence("Payment customer_id is outside 1..=3000"),
                    );
                }
                validate_one_amount("Payment amount", evidence.amount_bits)?;
                let payments: i64 = checked_add(self.payments, 1, "payments")?;
                ensure_extend_capacity(self.payment_amount_bits.len(), 1, "payment_amount_bits")?;
                self.payments = payments;
                self.payment_amount_bits.push(evidence.amount_bits);
                Ok(())
            },
            RankedTransactionOutcome::Committed(RankedCommit::OrderStatus) => {
                self.order_status_commits = checked_add(
                    self.order_status_commits,
                    1,
                    "order_status_commits",
                )?;
                Ok(())
            },
            RankedTransactionOutcome::Committed(RankedCommit::StockLevel { low_stock_count }) => {
                if *low_stock_count < 0 || *low_stock_count > 300 {
                    return Err(
                        LedgerError::InvalidEvidence(
                            "StockLevel low_stock_count must be in 0..=300",
                        ),
                    );
                }
                self.stock_level_commits = checked_add(
                    self.stock_level_commits,
                    1,
                    "stock_level_commits",
                )?;
                Ok(())
            },
            RankedTransactionOutcome::Committed(RankedCommit::Delivery(orders)) => {
                if orders.len() > 10 {
                    return Err(
                        LedgerError::InvalidEvidence(
                            "Delivery processed more than one order per district",
                        ),
                    );
                }
                let ghost models = order_models(orders@);
                let delivery_commits: i64 = checked_add(
                    self.delivery_commits,
                    1,
                    "delivery_commits",
                )?;
                let (delivered_lines, updates) = stage_orders(&self.partitions, orders)?;
                let delivered_orders: i64 = checked_add(
                    self.delivered_orders,
                    orders.len() as i64,
                    "delivered_orders",
                )?;
                let delivered_order_lines: i64 = checked_add(
                    self.delivered_order_lines,
                    delivered_lines,
                    "delivered_order_lines",
                )?;
                ensure_extend_capacity(
                    self.delivery_customer_amount_bits.len(),
                    orders.len(),
                    "delivery_customer_amount_bits",
                )?;
                self.delivery_commits = delivery_commits;
                self.delivered_orders = delivered_orders;
                self.delivered_order_lines = delivered_order_lines;
                let mut i: usize = 0;
                let ghost mid = self@;
                while i < updates.len()
                    invariant
                        i <= updates.len() == orders@.len(),
                        models == order_models(orders@),
                        before.partitions.len() == 500,
                        self.partitions@ == delivered_partitions(
                            before.partitions,
                            models,
                            i as int,
                        ),
                        self.partitions@.len() == 500,
                        self.delivery_customer_amount_bits@ == before.delivery_customer_amount_bits
                            + order_amounts(models).subrange(0, i as int),
                        self@ == (LedgerModel {
                            partitions: self@.partitions,
                            delivery_customer_amount_bits: self@.delivery_customer_amount_bits,
                            ..mid
                        }),
                        self.events == old(self).events,
                        forall|k: int|
                            0 <= k < updates@.len() ==> {
                                &&& (#[trigger] updates@[k]).index == order_position(models[k])
                                &&& updates@[k].index < 500
                                &&& updates@[k].delta == delta_sum(
                                    before.partitions[order_position(models[k])],
                                    delivery_partition_delta(models[k].line_count as i64),
                                )
                            },
                    decreases updates.len() - i,
                {
                    assert(models[i as int] == order_model(orders@[i as int]));
                    self.partitions.set(updates[i].index, updates[i].delta);
                    self.delivery_customer_amount_bits.push(orders[i].amount_bits);
                    proof {
                        assert(order_amounts(models).subrange(0, i as int + 1) =~= order_amounts(
                            models,
                        ).subrange(0, i as int).push(orders@[i as int].amount_bits));
                        assert(self.delivery_customer_amount_bits@
                            =~= before.delivery_customer_amount_bits + order_amounts(
                            models,
                        ).subrange(0, i as int + 1));
                    }
                    i = i + 1;
                }
                proof {
                    assert(order_amounts(models).subrange(0, i as int) =~= order_amounts(models));
                    assert(self@ =~= applied(before, outcome_model(*outcome)));
                }
                Ok(())
            },
        }
    }
}

/// Appends a list of words.
pub fn append_words(target: &mut Vec<u32>, words: &Vec<u32>)
    requires
        old(target)@.len() + words@.len() <= usize::MAX,
    ensures
        final(target)@ == old(target)@ + words@,
{
    let mut i: usize = 0;
    proof {
        assert(target@ =~= old(target)@ + words@.subrange(0, 0));
    }
    while i < words.len()
        invariant
            i <= words.len(),
            target@ == old(target)@ + words@.subrange(0, i as int),
        decreases words.len() - i,
    {
        target.push(words[i]);
        proof {
            assert(target@ =~= old(target)@ + words@.subrange(0, i as int + 1));
        }
        i = i + 1;
    }
    proof {
        assert(words@.subrange(0, i as int) =~= words@);
    }
}


/// Whether an identity occurs among the first `n` events.
pub open spec fn seen(events: Seq<EventModel>, n: int, id: (u64, u16, u64)) -> bool {
    exists|k: int| 0 <= k < n && identity(#[trigger] events[k].meta()) == id
}

/// Whether an event of `b` repeats one of `a` or an earlier one of `b`.
pub open spec fn identities_clash(a: Seq<EventModel>, b: Seq<EventModel>) -> bool {
    exists|j: int|
        0 <= j < b.len() && {
            let id = identity((#[trigger] b[j]).meta());
            seen(a, a.len() as int, id) || seen(b, j, id)
        }
}

/// The first partition from position `i` on whose sum overflows.
pub open spec fn partitions_sum_fault(
    a: Seq<PartitionDelta>,
    b: Seq<PartitionDelta>,
    i: int,
) -> Option<LedgerFault>
    decreases a.len() - i,
{
    if i < 0 || i >= a.len() {
        None
    } else {
        either(delta_add_fault(a[i], b[i]), partitions_sum_fault(a, b, i + 1))
    }
}

/// Why two ledgers cannot be merged.
pub open spec fn merge_fault(a: LedgerModel, b: LedgerModel) -> Option<LedgerFault> {
    either(
        fails(
            identities_clash(a.events, b.events),
            LedgerFault::Inconsistent(
                "duplicate terminal event identity across worker ledgers"@,
            ),
        ),
        either(merge_counters_fault(a, b), merge_vectors_fault(a, b)),
    )
}

pub open spec fn merge_counters_fault(a: LedgerModel, b: LedgerModel) -> Option<LedgerFault> {
    either(
        add_fault(a.new_orders as int, b.new_orders as int, "new_orders"@),
        either(
            add_fault(a.new_order_lines as int, b.new_order_lines as int, "new_order_lines"@),
            either(
                add_fault(
                    a.remote_new_order_lines as int,
                    b.remote_new_order_lines as int,
                    "remote_new_order_lines"@,
                ),
                either(
                    add_fault(
                        a.stock_ytd_delta as int,
                        b.stock_ytd_delta as int,
                        "stock_ytd_delta"@,
                    ),
                    either(
                        add_fault(a.payments as int, b.payments as int, "payments"@),
                        either(
                            add_fault(
                                a.delivery_commits as int,
                                b.delivery_commits as int,
                                "delivery_commits"@,
                            ),
                            merge_late_counters_fault(a, b),
                        ),
                    ),
                ),
            ),
        ),
    )
}

pub open spec fn merge_late_counters_fault(a: LedgerModel, b: LedgerModel) -> Option<LedgerFault> {
    either(
        add_fault(a.delivered_orders as int, b.delivered_orders as int, "delivered_orders"@),
        either(
            add_fault(
                a.delivered_order_lines as int,
                b.delivered_order_lines as int,
                "delivered_order_lines"@,
            ),
            either(
                add_fault(
                    a.order_status_commits as int,
                    b.order_status_commits as int,
                    "order_status_commits"@,
                ),
                either(
                    add_fault(
                        a.stock_level_commits as int,
                        b.stock_level_commits as int,
                        "stock_level_commits"@,
                    ),
                    add_fault(
                        a.expected_rollbacks as int,
                        b.expected_rollbacks as int,
                        "expected_rollbacks"@,
                    ),
                ),
            ),
        ),
    )
}

pub open spec fn merge_vectors_fault(a: LedgerModel, b: LedgerModel) -> Option<LedgerFault> {
    either(
        partitions_sum_fault(a.partitions, b.partitions, 0),
        either(
            extend_fault(
                a.new_order_line_amount_bits.len(),
                b.new_order_line_amount_bits.len(),
                "new_order_line_amount_bits"@,
            ),
            either(
                extend_fault(
                    a.payment_amount_bits.len(),
                    b.payment_amount_bits.len(),
                    "payment_amount_bits"@,
                ),
                either(
                    extend_fault(
                        a.delivery_customer_amount_bits.len(),
                        b.delivery_customer_amount_bits.len(),
                        "delivery_customer_amount_bits"@,
                    ),
                    extend_fault(a.events.len(), b.events.len(), "ledger events"@),
                ),
            ),
        ),
    )
}

/// Partition by partition sum.
pub open spec fn partitions_sum(a: Seq<PartitionDelta>, b: Seq<PartitionDelta>) -> Seq<
    PartitionDelta,
> {
    Seq::new(a.len(), |i: int| delta_sum(a[i], b[i]))
}

/// The sum of two ledgers: counters add, lists append.
pub open spec fn merged(a: LedgerModel, b: LedgerModel) -> LedgerModel {
    LedgerModel {
        new_orders: (a.new_orders + b.new_orders) as i64,
        new_order_lines: (a.new_order_lines + b.new_order_lines) as i64,
        remote_new_order_lines: (a.remote_new_order_lines + b.remote_new_order_lines) as i64,
        stock_ytd_delta: (a.stock_ytd_delta + b.stock_ytd_delta) as i64,
        payments: (a.payments + b.payments) as i64,
        delivery_commits: (a.delivery_commits + b.delivery_commits) as i64,
        delivered_orders: (a.delivered_orders + b.delivered_orders) as i64,
        delivered_order_lines: (a.delivered_order_lines + b.delivered_order_lines) as i64,
        order_status_commits: (a.order_status_commits + b.order_status_commits) as i64,
        stock_level_commits: (a.stock_level_commits + b.stock_level_commits) as i64,
        expected_rollbacks: (a.expected_rollbacks + b.expected_rollbacks) as i64,
        new_order_line_amount_bits: a.new_order_line_amount_bits + b.new_order_line_amount_bits,
        payment_amount_bits: a.payment_amount_bits + b.payment_amount_bits,
        delivery_customer_amount_bits: a.delivery_customer_amount_bits
            + b.delivery_customer_amount_bits,
        partitions: partitions_sum(a.partitions, b.partitions),
        events: a.events + b.events,
    }
}

/// Copies an event.
pub fn copy_event(event: &LedgerEvent) -> (r: LedgerEvent)
    ensures
        r@ == event@,
{
    match event {
        LedgerEvent::NewOrder(delta) => {
            let mut lines: Vec<NewOrderLineDelta> = Vec::new();
            let mut i: usize = 0;
            while i < delta.lines.len()
                invariant
                    i <= delta.lines.len(),
                    lines@ == delta.lines@.subrange(0, i as int),
                decreases delta.lines.len() - i,
            {
                lines.push(delta.lines[i]);
                i = i + 1;
            }
            assert(lines@ =~= delta.lines@);
            LedgerEvent::NewOrder(
                NewOrderDelta {
                    meta: delta.meta,
                    warehouse_id: delta.warehouse_id,
                    district_id: delta.district_id,
                    order_id: delta.order_id,
                    customer_id: delta.customer_id,
                    lines,
                },
            )
        },
        LedgerEvent::Payment(delta) => LedgerEvent::Payment(*delta),
        LedgerEvent::Delivery(delta) => {
            let mut orders: Vec<DeliveredOrderDelta> = Vec::new();
            let mut i: usize = 0;
            while i < delta.orders.len()
                invariant
                    i <= delta.orders.len(),
                    orders@ == delta.orders@.subrange(0, i as int),
                decreases delta.orders.len() - i,
            {
                orders.push(delta.orders[i]);
                i = i + 1;
            }
            assert(orders@ =~= delta.orders@);
            LedgerEvent::Delivery(
                DeliveryDelta {
                    meta: delta.meta,
                    warehouse_id: delta.warehouse_id,
                    carrier_id: delta.carrier_id,
                    orders,
                },
            )
        },
        LedgerEvent::OrderStatus { meta } => LedgerEvent::OrderStatus { meta: *meta },
        LedgerEvent::StockLevel { meta, low_stock_count } => LedgerEvent::StockLevel {
            meta: *meta,
            low_stock_count: *low_stock_count,
        },
        LedgerEvent::ExpectedRollback { meta, warehouse_id, district_id } =>
            LedgerEvent::ExpectedRollback {
            meta: *meta,
            warehouse_id: *warehouse_id,
            district_id: *district_id,
        },
    }
}

/// Whether an event of `b` repeats one of `a` or an earlier one of `b`.
fn events_clash(a: &Vec<LedgerEvent>, b: &Vec<LedgerEvent>) -> (r: bool)
    ensures
        r == identities_clash(event_models(a@), event_models(b@)),
{
    let ghost ma = event_models(a@);
    let ghost mb = event_models(b@);
    let mut ids = IdentitySet::new();
    let mut i: usize = 0;
    while i < a.len()
        invariant
            i <= a.len(),
            ma == event_models(a@),
            forall|id: (u64, u16, u64)| #[trigger] ids@.contains(id) <==> seen(ma, i as int, id),
        decreases a.len() - i,
    {
        let meta = a[i].meta();
        let ghost before = ids@;
        ids.insert((meta.stage, meta.client_id, meta.txn_no));
        proof {
            let added = (meta.stage, meta.client_id, meta.txn_no);
            assert(identity(ma[i as int].meta()) == added);
            assert forall|id: (u64, u16, u64)| #[trigger] ids@.contains(id) <==> seen(
                ma,
                i as int + 1,
                id,
            ) by {
                lemma_seen_step(ma, i as int, id);
            }
        }
        i = i + 1;
    }
    let mut j: usize = 0;
    while j < b.len()
        invariant
            j <= b.len(),
            ma == event_models(a@),
            mb == event_models(b@),
            forall|id: (u64, u16, u64)| #[trigger]
                ids@.contains(id) <==> seen(ma, ma.len() as int, id) || seen(mb, j as int, id),
            forall|k: int|
                0 <= k < j ==> {
                    let id = identity((#[trigger] mb[k]).meta());
                    !seen(ma, ma.len() as int, id) && !seen(mb, k, id)
                },
        decreases b.len() - j,
    {
        let meta = b[j].meta();
        let ghost added = (meta.stage, meta.client_id, meta.txn_no);
        assert(identity(mb[j as int].meta()) == added);
        if !ids.insert((meta.stage, meta.client_id, meta.txn_no)) {
            return true;
        }
        proof {
            assert forall|id: (u64, u16, u64)| #[trigger] ids@.contains(id) <==> seen(
                ma,
                ma.len() as int,
                id,
            ) || seen(mb, j as int + 1, id) by {
                lemma_seen_step(mb, j as int, id);
            }
        }
        j = j + 1;
    }
    false
}

pub proof fn lemma_seen_step(events: Seq<EventModel>, n: int, id: (u64, u16, u64))
    requires
        0 <= n < events.len(),
    ensures
        seen(events, n + 1, id) <==> seen(events, n, id) || identity(events[n].meta()) == id,
{
    if seen(events, n + 1, id) && identity(events[n].meta()) != id {
        let k = choose|k: int|
            0 <= k < n + 1 && identity(#[trigger] events[k].meta()) == id;
        assert(0 <= k < n && identity(events[k].meta()) == id);
    }
    if seen(events, n, id) {
        let k = choose|k: int| 0 <= k < n && identity(#[trigger] events[k].meta()) == id;
        assert(0 <= k < n + 1 && identity(events[k].meta()) == id);
    }
}

/// What recording a terminal does: the outcome is applied, the event appended.
pub open spec fn record_fault(
    m: LedgerModel,
    class: LedgerClass,
    ticket: TransactionTicket,
    outcome: RankedTransactionOutcome,
) -> Option<LedgerFault> {
    either(
        terminal_fault(class, ticket, outcome),
        either(
            extend_fault(m.events.len(), 1, "ledger events"@),
            apply_fault(m, outcome_model(outcome)),
        ),
    )
}

/// The ledger after a recorded terminal.
pub open spec fn recorded(
    m: LedgerModel,
    class: LedgerClass,
    ticket: TransactionTicket,
    outcome: RankedTransactionOutcome,
) -> LedgerModel {
    let next = applied(m, outcome_model(outcome));
    LedgerModel { events: m.events.push(ticket_event(class, ticket, outcome)), ..next }
}

/// The keyed partitions in key order.
pub open spec fn keyed_partitions(partitions: Seq<PartitionDelta>) -> Seq<
    (PartitionKey, PartitionDelta),
> {
    Seq::new(
        partitions.len(),
        |i: int|
            (
                PartitionKey {
                    warehouse_id: (i / 10 + 1) as i32,
                    district_id: (i % 10 + 1) as i32,
                },
                partitions[i],
            ),
    )
}

/// The counters that the consistency phases read.
pub open spec fn committed_counts(m: LedgerModel) -> CommittedLedger {
    CommittedLedger {
        new_orders: m.new_orders,
        new_order_lines: m.new_order_lines,
        remote_new_order_lines: m.remote_new_order_lines,
        payments: m.payments,
        delivered_orders: m.delivered_orders,
        delivered_order_lines: m.delivered_order_lines,
    }
}

/// The events of formal windows, in order, among the first `n`.
pub open spec fn ranked_events(events: Seq<EventModel>, n: int) -> Seq<EventModel>
    decreases n,
{
    if n <= 0 {
        Seq::empty()
    } else if events[n - 1].meta().class.ranked() {
        ranked_events(events, n - 1).push(events[n - 1])
    } else {
        ranked_events(events, n - 1)
    }
}

/// The empty ledger after applying `n` events, and keeping them.
pub open spec fn replayed(events: Seq<EventModel>, n: int) -> LedgerModel
    decreases n,
{
    if n <= 0 {
        empty_ledger()
    } else {
        let before = replayed(events, n - 1);
        LedgerModel {
            events: before.events.push(events[n - 1]),
            ..applied(before, event_outcome(events[n - 1]))
        }
    }
}

/// The first event from position `i` on that cannot be applied in turn.
pub open spec fn replay_fault(events: Seq<EventModel>, i: int, name: Seq<char>) -> Option<
    LedgerFault,
>
    decreases events.len() - i,
{
    if i < 0 || i >= events.len() {
        None
    } else {
        either(
            either(
                extend_fault(i as nat, 1, name),
                apply_fault(replayed(events, i), event_outcome(events[i])),
            ),
            replay_fault(events, i + 1, name),
        )
    }
}

/// Every event satisfies the event rules.
pub open spec fn events_valid(events: Seq<EventModel>) -> bool {
    forall|i: int| 0 <= i < events.len() ==> event_fault(#[trigger] events[i]) is None
}

proof fn lemma_replayed_shape(events: Seq<EventModel>, n: int)
    requires
        0 <= n <= events.len(),
        events_valid(events),
    ensures
        shaped(replayed(events, n)),
        replayed(events, n).events == events.subrange(0, n),
    decreases n,
{
    if n > 0 {
        lemma_replayed_shape(events, n - 1);
        assert(events.subrange(0, n) =~= events.subrange(0, n - 1).push(events[n - 1]));
        let before = replayed(events, n - 1);
        assert(event_fault(events[n - 1]) is None);
        match event_outcome(events[n - 1]) {
            OutcomeModel::Delivery(orders) => {
                lemma_delivered_shape(before.partitions, events[n - 1], orders.len() as int);
            },
            _ => {},
        }
    } else {
        assert(events.subrange(0, 0) =~= Seq::empty());
    }
}

proof fn lemma_delivered_shape(partitions: Seq<PartitionDelta>, event: EventModel, n: int)
    requires
        partitions.len() == 500,
        event_fault(event) is None,
        event is Delivery,
        0 <= n <= event->Delivery_0.orders.len(),
    ensures
        event_outcome(event) matches OutcomeModel::Delivery(orders) && delivered_partitions(
            partitions,
            orders,
            n,
        ).len() == 500,
    decreases n,
{
    if n > 0 {
        lemma_delivered_shape(partitions, event, n - 1);
        let delta = event->Delivery_0;
        lemma_delivered_order_fault_none(delta.warehouse_id, delta.orders, 0, n - 1);
    }
}

/// A clean list has no faulty member.
pub proof fn lemma_delivered_order_fault_none(
    warehouse_id: u16,
    orders: Seq<DeliveredOrderDelta>,
    i: int,
    k: int,
)
    requires
        0 <= i <= k < orders.len(),
        delivered_orders_fault(warehouse_id, orders, i) is None,
    ensures
        delivered_order_fault(warehouse_id, orders, k) is None,
    decreases k - i,
{
    if i < k {
        lemma_delivered_order_fault_none(warehouse_id, orders, i + 1, k);
    }
}

impl RunLedger {
    pub fn new_orders(&self) -> (r: i64)
        ensures
            r == self@.new_orders,
    {
        self.new_orders
    }

    pub fn new_order_lines(&self) -> (r: i64)
        ensures
            r == self@.new_order_lines,
    {
        self.new_order_lines
    }

    pub fn remote_new_order_lines(&self) -> (r: i64)
        ensures
            r == self@.remote_new_order_lines,
    {
        self.remote_new_order_lines
    }

    /// Exact sum of the integral quantities bound to committed stock YTD
    /// updates. This can be converted to binary32 without a decimal round trip.
    pub fn stock_ytd_delta(&self) -> (r: i64)
        ensures
            r == self@.stock_ytd_delta,
    {
        self.stock_ytd_delta
    }

    pub fn payments(&self) -> (r: i64)
        ensures
            r == self@.payments,
    {
        self.payments
    }

    pub fn delivery_commits(&self) -> (r: i64)
        ensures
            r == self@.delivery_commits,
    {
        self.delivery_commits
    }

    pub fn delivered_orders(&self) -> (r: i64)
        ensures
            r == self@.delivered_orders,
    {
        self.delivered_orders
    }

    pub fn delivered_order_lines(&self) -> (r: i64)
        ensures
            r == self@.delivered_order_lines,
    {
        self.delivered_order_lines
    }

    pub fn order_status_commits(&self) -> (r: i64)
        ensures
            r == self@.order_status_commits,
    {
        self.order_status_commits
    }

    pub fn stock_level_commits(&self) -> (r: i64)
        ensures
            r == self@.stock_level_commits,
    {
        self.stock_level_commits
    }

    pub fn expected_rollbacks(&self) -> (r: i64)
        ensures
            r == self@.expected_rollbacks,
    {
        self.expected_rollbacks
    }

    pub fn new_order_line_amount_bits(&self) -> (r: &[u32])
        ensures
            r@ == self@.new_order_line_amount_bits,
    {
        self.new_order_line_amount_bits.as_slice()
    }

    pub fn payment_amount_bits(&self) -> (r: &[u32])
        ensures
            r@ == self@.payment_amount_bits,
    {
        self.payment_amount_bits.as_slice()
    }

    pub fn delivery_customer_amount_bits(&self) -> (r: &[u32])
        ensures
            r@ == self@.delivery_customer_amount_bits,
    {
        self.delivery_customer_amount_bits.as_slice()
    }

    pub fn events(&self) -> (r: &[LedgerEvent])
        ensures
            r@ == self.events@,
            event_models(r@) == self@.events,
    {
        self.events.as_slice()
    }

    pub fn partition_delta(&self, warehouse_id: i32, district_id: i32) -> (r: Result<
        PartitionDelta,
        LedgerError,
    >)
        requires
            shaped(self@),
        ensures
            fault(r) == partition_fault(warehouse_id, district_id),
            r matches Ok(delta) ==> delta == self@.partitions[partition_position(
                warehouse_id as int,
                district_id as int,
            )],
    {
        let index: usize = partition_index(warehouse_id, district_id)?;
        Ok(self.partitions[index])
    }

    pub fn partition_deltas(&self) -> (r: Vec<(PartitionKey, PartitionDelta)>)
        requires
            shaped(self@),
        ensures
            r@ == keyed_partitions(self@.partitions),
    {
        let mut r: Vec<(PartitionKey, PartitionDelta)> = Vec::new();
        let mut i: usize = 0;
        while i < self.partitions.len()
            invariant
                i <= self.partitions.len() == 500,
                r@ == keyed_partitions(self@.partitions).subrange(0, i as int),
            decreases self.partitions.len() - i,
        {
            let key = PartitionKey {
                warehouse_id: (i / 10) as i32 + 1,
                district_id: (i % 10) as i32 + 1,
            };
            r.push((key, self.partitions[i]));
            assert(r@ =~= keyed_partitions(self@.partitions).subrange(0, i as int + 1));
            i = i + 1;
        }
        assert(r@ =~= keyed_partitions(self@.partitions));
        r
    }

    /// Record one confirmed terminal using the normal class derived from its
    /// frozen stage.
    ///
    /// Retryable abort attempts must not be passed here. Only the eventual
    /// commit or the transaction's specified expected rollback is durable
    /// workload evidence.
    pub fn record(&mut self, ticket: &TransactionTicket, outcome: &RankedTransactionOutcome) -> (r:
        Result<(), LedgerError>)
        requires
            shaped(old(self)@),
        ensures
            fault(r) == record_fault(
                old(self)@,
                normal_class(ticket.route.stage.number),
                *ticket,
                *outcome,
            ),
            final(self)@ == if r is Ok {
                recorded(
                    old(self)@,
                    normal_class(ticket.route.stage.number),
                    *ticket,
                    *outcome,
                )
            } else {
                old(self)@
            },
            shaped(final(self)@),
            events_valid(old(self)@.events) ==> events_valid(final(self)@.events),
    {
        let class = LedgerClass::normal_for_stage(ticket.route().stage);
        self.record_as(class, ticket, outcome)
    }

    /// Record a confirmed terminal that arrived after its phase deadline.
    ///
    /// A tail commit never contributes to ranked accounting, but it did mutate
    /// the database and must remain in online and recovery expectations.
    pub fn record_grace_tail(
        &mut self,
        ticket: &TransactionTicket,
        outcome: &RankedTransactionOutcome,
    ) -> (r: Result<(), LedgerError>)
        requires
            shaped(old(self)@),
        ensures
            fault(r) == record_fault(
                old(self)@,
                tail_class(ticket.route.stage.number),
                *ticket,
                *outcome,
            ),
            final(self)@ == if r is Ok {
                recorded(old(self)@, tail_class(ticket.route.stage.number), *ticket, *outcome)
            } else {
                old(self)@
            },
            shaped(final(self)@),
            events_valid(old(self)@.events) ==> events_valid(final(self)@.events),
    {
        let class = LedgerClass::tail_for_stage(ticket.route().stage);
        self.record_as(class, ticket, outcome)
    }

    pub fn record_as(
        &mut self,
        class: LedgerClass,
        ticket: &TransactionTicket,
        outcome: &RankedTransactionOutcome,
    ) -> (r: Result<(), LedgerError>)
        requires
            shaped(old(self)@),
        ensures
            fault(r) == record_fault(old(self)@, class, *ticket, *outcome),
            final(self)@ == if r is Ok {
                recorded(old(self)@, class, *ticket, *outcome)
            } else {
                old(self)@
            },
            shaped(final(self)@),
            events_valid(old(self)@.events) ==> events_valid(final(self)@.events),
    {
        let event = event_from_ticket(class, ticket, outcome)?;
        ensure_extend_capacity(self.events.len(), 1, "ledger events")?;
        self.apply_outcome(outcome)?;
        let ghost mid = *self;
        self.events.push(event);
        proof {
            assert(event_models(self.events@) =~= event_models(mid.events@).push(event@));
            assert(self@ =~= recorded(old(self)@, class, *ticket, *outcome));
        }
        Ok(())
    }

    /// Merge one worker-local ledger. Merge workers in stable worker-id order
    /// when byte-for-byte persistence reproducibility is desired.
    pub fn merge(&mut self, other: &Self) -> (r: Result<(), LedgerError>)
        requires
            shaped(old(self)@),
            shaped(other@),
        ensures
            fault(r) == merge_fault(old(self)@, other@),
            final(self)@ == if r is Ok {
                merged(old(self)@, other@)
            } else {
                old(self)@
            },
            shaped(final(self)@),
            events_valid(old(self)@.events) && events_valid(other@.events) ==> events_valid(
                final(self)@.events,
            ),
    {
        let ghost before = self@;
        if events_clash(&self.events, &other.events) {
            return Err(
                LedgerError::Inconsistent(
                    "duplicate terminal event identity across worker ledgers".to_owned(),
                ),
            );
        }
        let new_orders: i64 = checked_add(self.new_orders, other.new_orders, "new_orders")?;
        let new_order_lines: i64 = checked_add(
            self.new_order_lines,
            other.new_order_lines,
            "new_order_lines",
        )?;
        let remote_new_order_lines: i64 = checked_add(
            self.remote_new_order_lines,
            other.remote_new_order_lines,
            "remote_new_order_lines",
        )?;
        let stock_ytd_delta: i64 = checked_add(
            self.stock_ytd_delta,
            other.stock_ytd_delta,
            "stock_ytd_delta",
        )?;
        let payments: i64 = checked_add(self.payments, other.payments, "payments")?;
        let delivery_commits: i64 = checked_add(
            self.delivery_commits,
            other.delivery_commits,
            "delivery_commits",
        )?;
        let delivered_orders: i64 = checked_add(
            self.delivered_orders,
            other.delivered_orders,
            "delivered_orders",
        )?;
        let delivered_order_lines: i64 = checked_add(
            self.delivered_order_lines,
            other.delivered_order_lines,
            "delivered_order_lines",
        )?;
        let order_status_commits: i64 = checked_add(
            self.order_status_commits,
            other.order_status_commits,
            "order_status_commits",
        )?;
        let stock_level_commits: i64 = checked_add(
            self.stock_level_commits,
            other.stock_level_commits,
            "stock_level_commits",
        )?;
        let expected_rollbacks: i64 = checked_add(
            self.expected_rollbacks,
            other.expected_rollbacks,
            "expected_rollbacks",
        )?;
        let partitions = sum_partitions(&self.partitions, &other.partitions)?;
        ensure_extend_capacity(
            self.new_order_line_amount_bits.len(),
            other.new_order_line_amount_bits.len(),
            "new_order_line_amount_bits",
        )?;
        ensure_extend_capacity(
            self.payment_amount_bits.len(),
            other.payment_amount_bits.len(),
            "payment_amount_bits",
        )?;
        ensure_extend_capacity(
            self.delivery_customer_amount_bits.len(),
            other.delivery_customer_amount_bits.len(),
            "delivery_customer_amount_bits",
        )?;
        ensure_extend_capacity(self.events.len(), other.events.len(), "ledger events")?;
        self.new_orders = new_orders;
        self.new_order_lines = new_order_lines;
        self.remote_new_order_lines = remote_new_order_lines;
        self.stock_ytd_delta = stock_ytd_delta;
        self.payments = payments;
        self.delivery_commits = delivery_commits;
        self.delivered_orders = delivered_orders;
        self.delivered_order_lines = delivered_order_lines;
        self.order_status_commits = order_status_commits;
        self.stock_level_commits = stock_level_commits;
        self.expected_rollbacks = expected_rollbacks;
        self.partitions = partitions;
        append_words(&mut self.new_order_line_amount_bits, &other.new_order_line_amount_bits);
        append_words(&mut self.payment_amount_bits, &other.payment_amount_bits);
        append_words(
            &mut self.delivery_customer_amount_bits,
            &other.delivery_customer_amount_bits,
        );
        append_events(&mut self.events, &other.events);
        proof {
            assert(self@ =~= merged(before, other@));
        }
        Ok(())
    }

    /// Merges a list of ledgers, in order.
    pub fn merge_all(ledgers: Vec<Self>) -> (r: Result<Self, LedgerError>)
        requires
            forall|i: int| 0 <= i < ledgers@.len() ==> shaped((#[trigger] ledgers@[i])@),
        ensures
            fault(r) == merge_all_fault(ledger_models(ledgers@), 0),
            r matches Ok(ledger) ==> ledger@ == merged_prefix(
                ledger_models(ledgers@),
                ledgers@.len() as int,
            ) && shaped(ledger@),
            r is Ok && (forall|i: int|
                0 <= i < ledgers@.len() ==> events_valid((#[trigger] ledgers@[i])@.events))
                ==> events_valid(r->Ok_0@.events),
    {
        let mut total = Self::default();
        let ghost models = ledger_models(ledgers@);
        let mut i: usize = 0;
        while i < ledgers.len()
            invariant
                i <= ledgers.len(),
                models == ledger_models(ledgers@),
                shaped(total@),
                total@ == merged_prefix(models, i as int),
                merge_all_fault(models, 0) == merge_all_fault(models, i as int),
                forall|k: int| 0 <= k < ledgers@.len() ==> shaped((#[trigger] ledgers@[k])@),
                (forall|k: int|
                    0 <= k < ledgers@.len() ==> events_valid((#[trigger] ledgers@[k])@.events))
                    ==> events_valid(total@.events),
            decreases ledgers.len() - i,
        {
            assert(models[i as int] == ledgers@[i as int]@);
            total.merge(&ledgers[i])?;
            i = i + 1;
        }
        Ok(total)
    }

    pub fn to_committed_ledger(&self) -> (r: CommittedLedger)
        ensures
            r == committed_counts(self@),
    {
        CommittedLedger {
            new_orders: self.new_orders,
            new_order_lines: self.new_order_lines,
            remote_new_order_lines: self.remote_new_order_lines,
            payments: self.payments,
            delivered_orders: self.delivered_orders,
            delivered_order_lines: self.delivered_order_lines,
        }
    }

    /// Return a ledger containing only in-deadline formal-window terminals.
    ///
    /// Warmup and tail commits remain in `self` because they changed physical
    /// state, but are intentionally excluded from this ranked projection.
    pub fn ranked_projection(&self) -> (r: Result<Self, LedgerError>)
        requires
            events_valid(self@.events),
        ensures
            ({
                let ranked = ranked_events(self@.events, self@.events.len() as int);
                &&& fault(r) == replay_fault(ranked, 0, "ranked ledger events"@)
                &&& r matches Ok(ledger) ==> ledger@ == replayed(ranked, ranked.len() as int)
                    && shaped(ledger@) && events_valid(ledger@.events)
            }),
    {
        let mut ranked = Self::default();
        let ghost all = self@.events;
        let ghost chosen = ranked_events(all, all.len() as int);
        proof {
            lemma_ranked_prefix(all, 0, all.len() as int);
        }
        let mut i: usize = 0;
        while i < self.events.len()
            invariant
                i <= self.events.len(),
                all == self@.events,
                all.len() == self.events@.len(),
                chosen == ranked_events(all, all.len() as int),
                events_valid(all),
                ranked_events(all, i as int).len() <= chosen.len(),
                ranked_events(all, i as int) == chosen.subrange(
                    0,
                    ranked_events(all, i as int).len() as int,
                ),
                shaped(ranked@),
                events_valid(ranked@.events),
                ranked@ == replayed(chosen, ranked_events(all, i as int).len() as int),
                ranked@.events.len() == ranked_events(all, i as int).len(),
                replay_fault(chosen, 0, "ranked ledger events"@) == replay_fault(
                    chosen,
                    ranked_events(all, i as int).len() as int,
                    "ranked ledger events"@,
                ),
            decreases self.events.len() - i,
        {
            let ghost n = ranked_events(all, i as int).len() as int;
            assert(all[i as int] == self.events@[i as int]@);
            proof {
                lemma_ranked_prefix(all, i as int + 1, all.len() as int);
            }
            if self.events[i].meta().class.is_ranked() {
                proof {
                    let next = ranked_events(all, i as int + 1);
                    assert(next == ranked_events(all, i as int).push(all[i as int]));
                    assert(chosen[n] == next[n]);
                }
                ensure_extend_capacity(ranked.events.len(), 1, "ranked ledger events")?;
                ranked.apply_outcome(&self.events[i].to_outcome())?;
                let ghost mid = ranked;
                ranked.events.push(copy_event(&self.events[i]));
                proof {
                    assert(event_models(ranked.events@) =~= event_models(mid.events@).push(
                        all[i as int],
                    ));
                    assert(ranked@ =~= replayed(chosen, n + 1));
                }
            }
            i = i + 1;
        }
        proof {
            assert(chosen.subrange(0, chosen.len() as int) =~= chosen);
        }
        Ok(ranked)
    }

    pub fn to_ranked_committed_ledger(&self) -> (r: Result<CommittedLedger, LedgerError>)
        requires
            events_valid(self@.events),
        ensures
            ({
                let ranked = ranked_events(self@.events, self@.events.len() as int);
                &&& fault(r) == replay_fault(ranked, 0, "ranked ledger events"@)
                &&& r matches Ok(counts) ==> counts == committed_counts(
                    replayed(ranked, ranked.len() as int),
                )
            }),
    {
        Ok(self.ranked_projection()?.to_committed_ledger())
    }

    pub fn ranked_partition_deltas(&self) -> (r: Result<
        Vec<(PartitionKey, PartitionDelta)>,
        LedgerError,
    >)
        requires
            events_valid(self@.events),
        ensures
            ({
                let ranked = ranked_events(self@.events, self@.events.len() as int);
                &&& fault(r) == replay_fault(ranked, 0, "ranked ledger events"@)
                &&& r matches Ok(deltas) ==> deltas@ == keyed_partitions(
                    replayed(ranked, ranked.len() as int).partitions,
                )
            }),
    {
        Ok(self.ranked_projection()?.partition_deltas())
    }
}

/// Earlier choices are a prefix of later ones.
proof fn lemma_ranked_prefix(events: Seq<EventModel>, i: int, n: int)
    requires
        0 <= i <= n <= events.len(),
    ensures
        ranked_events(events, i).len() <= ranked_events(events, n).len(),
        ranked_events(events, i) == ranked_events(events, n).subrange(
            0,
            ranked_events(events, i).len() as int,
        ),
    decreases n - i,
{
    if i == n {
        assert(ranked_events(events, n).subrange(0, ranked_events(events, n).len() as int)
            =~= ranked_events(events, n));
    } else {
        lemma_ranked_prefix(events, i, n - 1);
        assert(ranked_events(events, n).subrange(0, ranked_events(events, i).len() as int)
            =~= ranked_events(events, n - 1).subrange(0, ranked_events(events, i).len() as int));
    }
}

/// The contents of a list of ledgers.
pub open spec fn ledger_models(ledgers: Seq<RunLedger>) -> Seq<LedgerModel> {
    Seq::new(ledgers.len(), |i: int| ledgers[i]@)
}

/// The sum of the first `n` ledgers.
pub open spec fn merged_prefix(ledgers: Seq<LedgerModel>, n: int) -> LedgerModel
    decreases n,
{
    if n <= 0 {
        empty_ledger()
    } else {
        merged(merged_prefix(ledgers, n - 1), ledgers[n - 1])
    }
}

/// The first ledger from position `i` on that cannot be merged in turn.
pub open spec fn merge_all_fault(ledgers: Seq<LedgerModel>, i: int) -> Option<LedgerFault>
    decreases ledgers.len() - i,
{
    if i < 0 || i >= ledgers.len() {
        None
    } else {
        either(
            merge_fault(merged_prefix(ledgers, i), ledgers[i]),
            merge_all_fault(ledgers, i + 1),
        )
    }
}

fn sum_partitions(a: &Vec<PartitionDelta>, b: &Vec<PartitionDelta>) -> (r: Result<
    Vec<PartitionDelta>,
    LedgerError,
>)
    requires
        a@.len() == b@.len(),
    ensures
        fault(r) == partitions_sum_fault(a@, b@, 0),
        r matches Ok(total) ==> total@ == partitions_sum(a@, b@),
{
    let mut total: Vec<PartitionDelta> = Vec::new();
    let mut i: usize = 0;
    while i < a.len()
        invariant
            i <= a.len() == b.len(),
            total@ == partitions_sum(a@, b@).subrange(0, i as int),
            partitions_sum_fault(a@, b@, 0) == partitions_sum_fault(a@, b@, i as int),
        decreases a.len() - i,
    {
        total.push(a[i].checked_add(b[i])?);
        assert(total@ =~= partitions_sum(a@, b@).subrange(0, i as int + 1));
        i = i + 1;
    }
    assert(total@ =~= partitions_sum(a@, b@));
    Ok(total)
}

fn append_events(target: &mut Vec<LedgerEvent>, events: &Vec<LedgerEvent>)
    requires
        old(target)@.len() + events@.len() <= usize::MAX,
    ensures
        event_models(final(target)@) == event_models(old(target)@) + event_models(events@),
{
    let ghost base = event_models(old(target)@);
    let ghost more = event_models(events@);
    let mut i: usize = 0;
    proof {
        assert(event_models(target@) =~= base + more.subrange(0, 0));
    }
    while i < events.len()
        invariant
            i <= events.len(),
            more == event_models(events@),
            event_models(target@) == base + more.subrange(0, i as int),
        decreases events.len() - i,
    {
        let ghost before = target@;
        target.push(copy_event(&events[i]));
        proof {
            assert(event_models(target@) =~= event_models(before).push(more[i as int]));
            assert(event_models(target@) =~= base + more.subrange(0, i as int + 1));
        }
        i = i + 1;
    }
    proof {
        assert(more.subrange(0, i as int) =~= more);
    }
}

impl From<&RunLedger> for CommittedLedger {
    fn from(ledger: &RunLedger) -> (r: Self) {
        ledger.to_committed_ledger()
    }
}

impl vstd::std_specs::convert::FromSpecImpl<&RunLedger> for CommittedLedger {
    open spec fn obeys_from_spec() -> bool {
        true
    }

    open spec fn from_spec(ledger: &RunLedger) -> Self {
        committed_counts(ledger@)
    }
}

} // verus!
