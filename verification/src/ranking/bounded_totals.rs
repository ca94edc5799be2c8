//! Physical totals of terminals: per class and per partition.
use vstd::prelude::*;

use crate::accumulator::FloatError;
use crate::checks::{first, refusal, refused_if};
use crate::ranking::ledger::DISTRICTS_PER_WAREHOUSE;
use crate::workload::{MAX_ITEM_QUANTITY, MAX_ORDER_LINES, MIN_ORDER_LINES};

verus! {

#[derive(Clone, Copy, Debug, PartialEq, Eq)]
pub enum BoundedStatsError {
    InvalidEvidence(&'static str),
    InvalidPartitionKey { warehouse_id: i32, district_id: i32 },
    Overflow(&'static str),
    InvalidFloatBits { field: &'static str, bits: u32 },
    Inconsistent(&'static str),
    Float { field: &'static str, source: FloatError },
}

/// Per-class transaction and physical mutation totals.
///
/// `new_order_commits` and `new_orders` stay separate even though both advance
/// by one for a committed NewOrder: the first counts terminals, the second
/// order rows.
#[derive(Clone, Copy, Debug, PartialEq, Eq, Structural)]
pub struct ClassTotals {
    pub new_order_commits: u64,
    pub payment_commits: u64,
    pub order_status_commits: u64,
    pub delivery_commits: u64,
    pub stock_level_commits: u64,
    pub expected_rollbacks: u64,
    pub new_orders: u64,
    pub new_order_lines: u64,
    pub remote_new_order_lines: u64,
    pub stock_quantity_delta: u64,
    pub delivered_orders: u64,
    pub delivered_order_lines: u64,
}

/// Physical deltas of one `(warehouse, district)` partition.
#[derive(Clone, Copy, Debug, PartialEq, Eq, Structural)]
pub struct PartitionTotals {
    pub new_orders: u64,
    pub new_order_lines: u64,
    pub delivered_orders: u64,
    pub delivered_order_lines: u64,
}

/// Totals of nothing.
pub open spec fn no_totals() -> ClassTotals {
    ClassTotals {
        new_order_commits: 0,
        payment_commits: 0,
        order_status_commits: 0,
        delivery_commits: 0,
        stock_level_commits: 0,
        expected_rollbacks: 0,
        new_orders: 0,
        new_order_lines: 0,
        remote_new_order_lines: 0,
        stock_quantity_delta: 0,
        delivered_orders: 0,
        delivered_order_lines: 0,
    }
}

/// Deltas of nothing.
pub open spec fn no_partition() -> PartitionTotals {
    PartitionTotals {
        new_orders: 0,
        new_order_lines: 0,
        delivered_orders: 0,
        delivered_order_lines: 0,
    }
}

/// Whether a sum leaves the counter.
pub open spec fn sum_fault(a: u64, b: u64, field: &'static str) -> Option<BoundedStatsError> {
    refused_if(a + b > u64::MAX, BoundedStatsError::Overflow(field))
}

/// Whether a product leaves the counter.
pub open spec fn product_fault(a: u64, b: int, field: &'static str) -> Option<BoundedStatsError> {
    refused_if(a * b > u64::MAX, BoundedStatsError::Overflow(field))
}

pub(crate) fn add_counters(left: u64, right: u64, field: &'static str) -> (r: Result<
    u64,
    BoundedStatsError,
>)
    ensures
        refusal(r) == sum_fault(left, right, field),
        r matches Ok(total) ==> total == left + right,
{
    match left.checked_add(right) {
        Some(total) => Ok(total),
        None => Err(BoundedStatsError::Overflow(field)),
    }
}

fn multiply_counter(left: u64, right: u64, field: &'static str) -> (r: Result<
    u64,
    BoundedStatsError,
>)
    ensures
        refusal(r) == product_fault(left, right as int, field),
        r matches Ok(total) ==> total == left * right,
{
    match left.checked_mul(right) {
        Some(total) => Ok(total),
        None => Err(BoundedStatsError::Overflow(field)),
    }
}

/// Whether `lines` lines can belong to `orders` orders.
pub open spec fn line_total_fault(orders: u64, lines: u64, field: &'static str) -> Option<
    BoundedStatsError,
> {
    first(
        product_fault(orders, 5, field),
        first(
            product_fault(orders, 15, field),
            refused_if(
                !(5 * orders <= lines <= 15 * orders),
                BoundedStatsError::Inconsistent("order line total is outside 5..=15 per order"),
            ),
        ),
    )
}

fn check_line_total(orders: u64, lines: u64, field: &'static str) -> (r: Result<
    (),
    BoundedStatsError,
>)
    ensures
        refusal(r) == line_total_fault(orders, lines, field),
{
    let minimum: u64 = multiply_counter(orders, MIN_ORDER_LINES as u64, field)?;
    let maximum: u64 = multiply_counter(orders, MAX_ORDER_LINES as u64, field)?;
    assert(minimum == 5 * orders) by (nonlinear_arith)
        requires
            minimum == orders * 5,
    ;
    assert(maximum == 15 * orders) by (nonlinear_arith)
        requires
            maximum == orders * 15,
    ;
    if lines < minimum || lines > maximum {
        return Err(BoundedStatsError::Inconsistent("order line total is outside 5..=15 per order"));
    }
    Ok(())
}

/// The first counter of two class totals whose sum overflows.
pub open spec fn class_sum_fault(a: ClassTotals, b: ClassTotals) -> Option<BoundedStatsError> {
    first(
        sum_fault(a.new_order_commits, b.new_order_commits, "new_order_commits"),
        first(
            sum_fault(a.payment_commits, b.payment_commits, "payment_commits"),
            first(
                sum_fault(a.order_status_commits, b.order_status_commits, "order_status_commits"),
                first(
                    sum_fault(a.delivery_commits, b.delivery_commits, "delivery_commits"),
                    first(
                        sum_fault(a.stock_level_commits, b.stock_level_commits, "stock_level_commits"),
                        first(
                            sum_fault(a.expected_rollbacks, b.expected_rollbacks, "expected_rollbacks"),
                            first(
                                sum_fault(a.new_orders, b.new_orders, "new_orders"),
                                first(
                                    sum_fault(a.new_order_lines, b.new_order_lines, "new_order_lines"),
                                    first(
                                        sum_fault(a.remote_new_order_lines, b.remote_new_order_lines, "remote_new_order_lines"),
                                        first(
                                            sum_fault(a.stock_quantity_delta, b.stock_quantity_delta, "stock_quantity_delta"),
                                            first(
                                                sum_fault(a.delivered_orders, b.delivered_orders, "delivered_orders"),
                                                sum_fault(a.delivered_order_lines, b.delivered_order_lines, "delivered_order_lines"),
                                            ),
                                        ),
                                    ),
                                ),
                            ),
                        ),
                    ),
                ),
            ),
        ),
    )
}

/// The sum of two class totals.
pub open spec fn class_sum(a: ClassTotals, b: ClassTotals) -> ClassTotals {
    ClassTotals {
        new_order_commits: (a.new_order_commits + b.new_order_commits) as u64,
        payment_commits: (a.payment_commits + b.payment_commits) as u64,
        order_status_commits: (a.order_status_commits + b.order_status_commits) as u64,
        delivery_commits: (a.delivery_commits + b.delivery_commits) as u64,
        stock_level_commits: (a.stock_level_commits + b.stock_level_commits) as u64,
        expected_rollbacks: (a.expected_rollbacks + b.expected_rollbacks) as u64,
        new_orders: (a.new_orders + b.new_orders) as u64,
        new_order_lines: (a.new_order_lines + b.new_order_lines) as u64,
        remote_new_order_lines: (a.remote_new_order_lines + b.remote_new_order_lines) as u64,
        stock_quantity_delta: (a.stock_quantity_delta + b.stock_quantity_delta) as u64,
        delivered_orders: (a.delivered_orders + b.delivered_orders) as u64,
        delivered_order_lines: (a.delivered_order_lines + b.delivered_order_lines) as u64,
    }
}

/// The first counter of two partition totals whose sum overflows.
pub open spec fn partition_sum_fault(a: PartitionTotals, b: PartitionTotals) -> Option<
    BoundedStatsError,
> {
    first(
        sum_fault(a.new_orders, b.new_orders, "partition new_orders"),
        first(
            sum_fault(a.new_order_lines, b.new_order_lines, "partition new_order_lines"),
            first(
                sum_fault(a.delivered_orders, b.delivered_orders, "partition delivered_orders"),
                sum_fault(a.delivered_order_lines, b.delivered_order_lines, "partition delivered_order_lines"),
            ),
        ),
    )
}

/// The sum of two partition totals.
pub open spec fn partition_sum(a: PartitionTotals, b: PartitionTotals) -> PartitionTotals {
    PartitionTotals {
        new_orders: (a.new_orders + b.new_orders) as u64,
        new_order_lines: (a.new_order_lines + b.new_order_lines) as u64,
        delivered_orders: (a.delivered_orders + b.delivered_orders) as u64,
        delivered_order_lines: (a.delivered_order_lines + b.delivered_order_lines) as u64,
    }
}

/// Why class totals contradict themselves.
pub open spec fn class_totals_fault(c: ClassTotals) -> Option<BoundedStatsError> {
    first(
        refused_if(
            c.new_order_commits != c.new_orders,
            BoundedStatsError::Inconsistent("NewOrder commit and physical order totals differ"),
        ),
        first(
            line_total_fault(c.new_orders, c.new_order_lines, "committed NewOrder"),
            first(
                refused_if(
                    c.remote_new_order_lines > c.new_order_lines,
                    BoundedStatsError::Inconsistent(
                        "remote NewOrder lines exceed all NewOrder lines",
                    ),
                ),
                first(
                    product_fault(c.new_order_lines, 10, "stock quantity"),
                    first(
                        refused_if(
                            !(c.new_order_lines <= c.stock_quantity_delta <= 10
                                * c.new_order_lines),
                            BoundedStatsError::Inconsistent(
                                "stock quantity delta is outside 1..=10 per NewOrder line",
                            ),
                        ),
                        first(
                            line_total_fault(
                                c.delivered_orders,
                                c.delivered_order_lines,
                                "delivered order",
                            ),
                            first(
                                product_fault(
                                    c.delivery_commits,
                                    10,
                                    "Delivery orders per commit",
                                ),
                                refused_if(
                                    c.delivered_orders > 10 * c.delivery_commits,
                                    BoundedStatsError::Inconsistent(
                                        "delivered orders exceed ten per Delivery commit",
                                    ),
                                ),
                            ),
                        ),
                    ),
                ),
            ),
        ),
    )
}

/// Why partition totals contradict themselves.
pub open spec fn partition_totals_fault(p: PartitionTotals) -> Option<BoundedStatsError> {
    first(
        line_total_fault(p.new_orders, p.new_order_lines, "partition committed NewOrder"),
        line_total_fault(
            p.delivered_orders,
            p.delivered_order_lines,
            "partition delivered order",
        ),
    )
}

impl ClassTotals {
    /// Totals of nothing.
    pub fn none() -> (r: Self)
        ensures
            r == no_totals(),
    {
        ClassTotals {
            new_order_commits: 0,
            payment_commits: 0,
            order_status_commits: 0,
            delivery_commits: 0,
            stock_level_commits: 0,
            expected_rollbacks: 0,
            new_orders: 0,
            new_order_lines: 0,
            remote_new_order_lines: 0,
            stock_quantity_delta: 0,
            delivered_orders: 0,
            delivered_order_lines: 0,
        }
    }

    pub fn checked_add(self, other: Self) -> (r: Result<Self, BoundedStatsError>)
        ensures
            refusal(r) == class_sum_fault(self, other),
            r matches Ok(total) ==> total == class_sum(self, other),
    {
        let new_order_commits: u64 = add_counters(
            self.new_order_commits,
            other.new_order_commits,
            "new_order_commits",
        )?;
        let payment_commits: u64 = add_counters(
            self.payment_commits,
            other.payment_commits,
            "payment_commits",
        )?;
        let order_status_commits: u64 = add_counters(
            self.order_status_commits,
            other.order_status_commits,
            "order_status_commits",
        )?;
        let delivery_commits: u64 = add_counters(
            self.delivery_commits,
            other.delivery_commits,
            "delivery_commits",
        )?;
        let stock_level_commits: u64 = add_counters(
            self.stock_level_commits,
            other.stock_level_commits,
            "stock_level_commits",
        )?;
        let expected_rollbacks: u64 = add_counters(
            self.expected_rollbacks,
            other.expected_rollbacks,
            "expected_rollbacks",
        )?;
        let new_orders: u64 = add_counters(
            self.new_orders,
            other.new_orders,
            "new_orders",
        )?;
        let new_order_lines: u64 = add_counters(
            self.new_order_lines,
            other.new_order_lines,
            "new_order_lines",
        )?;
        let remote_new_order_lines: u64 = add_counters(
            self.remote_new_order_lines,
            other.remote_new_order_lines,
            "remote_new_order_lines",
        )?;
        let stock_quantity_delta: u64 = add_counters(
            self.stock_quantity_delta,
            other.stock_quantity_delta,
            "stock_quantity_delta",
        )?;
        let delivered_orders: u64 = add_counters(
            self.delivered_orders,
            other.delivered_orders,
            "delivered_orders",
        )?;
        let delivered_order_lines: u64 = add_counters(
            self.delivered_order_lines,
            other.delivered_order_lines,
            "delivered_order_lines",
        )?;
        Ok(
            ClassTotals {
                new_order_commits,
                payment_commits,
                order_status_commits,
                delivery_commits,
                stock_level_commits,
                expected_rollbacks,
                new_orders,
                new_order_lines,
                remote_new_order_lines,
                stock_quantity_delta,
                delivered_orders,
                delivered_order_lines,
            },
        )
    }

    pub fn validate(self) -> (r: Result<(), BoundedStatsError>)
        ensures
            refusal(r) == class_totals_fault(self),
    {
        if self.new_order_commits != self.new_orders {
            return Err(
                BoundedStatsError::Inconsistent("NewOrder commit and physical order totals differ"),
            );
        }
        check_line_total(self.new_orders, self.new_order_lines, "committed NewOrder")?;
        if self.remote_new_order_lines > self.new_order_lines {
            return Err(
                BoundedStatsError::Inconsistent("remote NewOrder lines exceed all NewOrder lines"),
            );
        }
        let most_stock: u64 = multiply_counter(
            self.new_order_lines,
            MAX_ITEM_QUANTITY as u64,
            "stock quantity",
        )?;
        if self.stock_quantity_delta < self.new_order_lines || self.stock_quantity_delta
            > most_stock {
            return Err(
                BoundedStatsError::Inconsistent(
                    "stock quantity delta is outside 1..=10 per NewOrder line",
                ),
            );
        }
        check_line_total(self.delivered_orders, self.delivered_order_lines, "delivered order")?;
        let most_delivered: u64 = multiply_counter(
            self.delivery_commits,
            DISTRICTS_PER_WAREHOUSE as u64,
            "Delivery orders per commit",
        )?;
        if self.delivered_orders > most_delivered {
            return Err(
                BoundedStatsError::Inconsistent("delivered orders exceed ten per Delivery commit"),
            );
        }
        Ok(())
    }
}

impl PartitionTotals {
    /// Deltas of nothing.
    pub fn none() -> (r: Self)
        ensures
            r == no_partition(),
    {
        PartitionTotals {
            new_orders: 0,
            new_order_lines: 0,
            delivered_orders: 0,
            delivered_order_lines: 0,
        }
    }

    pub fn checked_add(self, other: Self) -> (r: Result<Self, BoundedStatsError>)
        ensures
            refusal(r) == partition_sum_fault(self, other),
            r matches Ok(total) ==> total == partition_sum(self, other),
    {
        let new_orders: u64 = add_counters(
            self.new_orders,
            other.new_orders,
            "partition new_orders",
        )?;
        let new_order_lines: u64 = add_counters(
            self.new_order_lines,
            other.new_order_lines,
            "partition new_order_lines",
        )?;
        let delivered_orders: u64 = add_counters(
            self.delivered_orders,
            other.delivered_orders,
            "partition delivered_orders",
        )?;
        let delivered_order_lines: u64 = add_counters(
            self.delivered_order_lines,
            other.delivered_order_lines,
            "partition delivered_order_lines",
        )?;
        Ok(PartitionTotals { new_orders, new_order_lines, delivered_orders, delivered_order_lines })
    }

    pub fn validate(self) -> (r: Result<(), BoundedStatsError>)
        ensures
            refusal(r) == partition_totals_fault(self),
    {
        check_line_total(self.new_orders, self.new_order_lines, "partition committed NewOrder")?;
        check_line_total(
            self.delivered_orders,
            self.delivered_order_lines,
            "partition delivered order",
        )
    }
}

} // verus!
