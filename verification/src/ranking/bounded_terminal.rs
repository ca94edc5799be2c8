//! What one confirmed terminal adds to the physical totals.
use vstd::prelude::*;

use crate::accumulator::{FloatError, sum_f32_as_f64_once};
use crate::binary32::{
    all_finite, difference, difference_bits, double_sum_pattern, finite, is_finite, sum, sum_bits,
};
use crate::checks::{first, refusal, refused_if};
use crate::profile::{ITEM_COUNT, OFFICIAL_CLIENTS};
use crate::ranking::bounded_totals::{
    BoundedStatsError, ClassTotals, PartitionTotals, no_partition, no_totals,
};
use crate::ranking::ledger::{
    DISTRICTS_PER_WAREHOUSE, FINAL_WAREHOUSES, LedgerClass, in_domain, is_positive_amount,
    partition_position, positive_amount,
};
use crate::ranking::runner::{
    CustomerVersion, DeliveredOrderEvidence, NewOrderEvidence, PaymentEvidence, RankedCommit,
    RankedTransactionOutcome,
};
use crate::workload::{
    CustomerSelector, DeliveryInput, MAX_CARRIER_ID, MAX_ITEM_QUANTITY, MAX_ORDER_LINES,
    MIN_CARRIER_ID, MIN_ITEM_QUANTITY, MIN_ORDER_LINES, NewOrderInput, OrderLineInput,
    PaymentInput, RoutedTransaction, TransactionParameters, TransactionTicket,
};

verus! {

/// 1000.
pub const LARGEST_NEW_ORDER_LINE: u32 = 0x447A_0000;

/// 5000.
pub const LARGEST_PAYMENT: u32 = 0x459C_4000;

/// 10000.
pub const LARGEST_DELIVERY_LINE: u32 = 0x461C_4000;

/// 150000.
pub const LARGEST_DELIVERY: u32 = 0x4812_7C00;

/// An increment of one partition.
#[derive(Clone, Copy, Debug, PartialEq, Eq, Structural)]
pub struct PartitionIncrement {
    pub index: usize,
    pub delta: PartitionTotals,
}

/// What a terminal adds.
pub struct TerminalDelta<'a> {
    pub class_index: usize,
    pub class_totals: ClassTotals,
    pub partitions: Vec<PartitionIncrement>,
    pub payment_amount: Option<u32>,
    pub line_amounts: Option<&'a Vec<u32>>,
    pub delivery_amounts: Vec<u32>,
}

/// The content of a [`TerminalDelta`].
#[verifier::ext_equal]
pub struct DeltaModel {
    pub class_index: int,
    pub class_totals: ClassTotals,
    pub partitions: Seq<PartitionIncrement>,
    pub payment_amount: Option<u32>,
    pub line_amounts: Seq<u32>,
    pub delivery_amounts: Seq<u32>,
}

impl<'a> View for TerminalDelta<'a> {
    type V = DeltaModel;

    open spec fn view(&self) -> DeltaModel {
        DeltaModel {
            class_index: self.class_index as int,
            class_totals: self.class_totals,
            partitions: self.partitions@,
            payment_amount: self.payment_amount,
            line_amounts: match self.line_amounts {
                Some(amounts) => amounts@,
                None => Seq::empty(),
            },
            delivery_amounts: self.delivery_amounts@,
        }
    }
}

/// The slot of a class, if it has one.
pub open spec fn class_slot(class: LedgerClass) -> Option<int> {
    match class {
        LedgerClass::Warmup => Some(0),
        LedgerClass::RankedWindow(window) => if window < 3 {
            Some(1 + window)
        } else {
            None
        },
        LedgerClass::WarmupTail => Some(4),
        LedgerClass::RankedTail(window) => if window < 3 {
            Some(5 + window)
        } else {
            None
        },
        LedgerClass::NonRanked => Some(8),
    }
}

/// Why a class has no slot.
pub open spec fn slot_fault(class: LedgerClass) -> Option<BoundedStatsError> {
    refused_if(
        class_slot(class) is None,
        BoundedStatsError::InvalidEvidence("ranked ledger class index must be 0..=2"),
    )
}

pub(crate) fn class_index_without_stage(class: LedgerClass) -> (r: Result<
    usize,
    BoundedStatsError,
>)
    ensures
        refusal(r) == slot_fault(class),
        r matches Ok(index) ==> class_slot(class) == Some(index as int) && index < 9,
{
    match class {
        LedgerClass::Warmup => Ok(0),
        LedgerClass::RankedWindow(window) if window < 3 => Ok(1 + window as usize),
        LedgerClass::WarmupTail => Ok(4),
        LedgerClass::RankedTail(window) if window < 3 => Ok(5 + window as usize),
        LedgerClass::NonRanked => Ok(8),
        _ => Err(BoundedStatsError::InvalidEvidence("ranked ledger class index must be 0..=2")),
    }
}

/// Whether a class belongs to a stage.
pub open spec fn stage_fits(class: LedgerClass, stage: u64) -> bool {
    match class {
        LedgerClass::Warmup => stage == 0,
        LedgerClass::WarmupTail => stage == 0,
        LedgerClass::RankedWindow(window) => window < 3 && stage == window + 1,
        LedgerClass::RankedTail(window) => window < 3 && stage == window + 1,
        LedgerClass::NonRanked => stage > 3,
    }
}

/// Why a class is refused for a stage.
pub open spec fn stage_fault(class: LedgerClass, stage: u64) -> Option<BoundedStatsError> {
    first(
        slot_fault(class),
        refused_if(
            !stage_fits(class, stage),
            BoundedStatsError::InvalidEvidence(
                "ledger class does not match the frozen ticket stage",
            ),
        ),
    )
}

fn class_index(class: LedgerClass, stage: u64) -> (r: Result<usize, BoundedStatsError>)
    ensures
        refusal(r) == stage_fault(class, stage),
        r matches Ok(index) ==> class_slot(class) == Some(index as int) && index < 9,
{
    let index: usize = class_index_without_stage(class)?;
    let valid = match class {
        LedgerClass::Warmup => stage == 0,
        LedgerClass::WarmupTail => stage == 0,
        LedgerClass::RankedWindow(window) => window < 3 && stage == window as u64 + 1,
        LedgerClass::RankedTail(window) => window < 3 && stage == window as u64 + 1,
        LedgerClass::NonRanked => stage > 3,
    };
    if !valid {
        return Err(
            BoundedStatsError::InvalidEvidence(
                "ledger class does not match the frozen ticket stage",
            ),
        );
    }
    Ok(index)
}

/// Why a pair names no partition.
pub open spec fn key_fault(warehouse_id: i32, district_id: i32) -> Option<BoundedStatsError> {
    refused_if(
        !in_domain(warehouse_id as int, district_id as int),
        BoundedStatsError::InvalidPartitionKey { warehouse_id, district_id },
    )
}

pub(crate) fn partition_slot(warehouse_id: i32, district_id: i32) -> (r: Result<
    usize,
    BoundedStatsError,
>)
    ensures
        refusal(r) == key_fault(warehouse_id, district_id),
        r matches Ok(index) ==> index == partition_position(
            warehouse_id as int,
            district_id as int,
        ) && index < 500,
{
    if warehouse_id < 1 || warehouse_id > FINAL_WAREHOUSES || district_id < 1 || district_id
        > DISTRICTS_PER_WAREHOUSE {
        return Err(BoundedStatsError::InvalidPartitionKey { warehouse_id, district_id });
    }
    Ok(((warehouse_id - 1) * DISTRICTS_PER_WAREHOUSE + district_id - 1) as usize)
}

/// Why an amount is refused.
pub open spec fn positive_fault(field: &'static str, bits: u32, maximum: u32) -> Option<
    BoundedStatsError,
> {
    refused_if(
        !positive_amount(bits, maximum),
        BoundedStatsError::InvalidFloatBits { field, bits },
    )
}

fn check_positive(field: &'static str, bits: u32, maximum: u32) -> (r: Result<
    (),
    BoundedStatsError,
>)
    requires
        is_finite(maximum),
    ensures
        refusal(r) == positive_fault(field, bits, maximum),
{
    if is_positive_amount(bits, maximum) {
        Ok(())
    } else {
        Err(BoundedStatsError::InvalidFloatBits { field, bits })
    }
}

/// Why a pattern is refused as a value.
pub open spec fn infinite_fault(field: &'static str, bits: u32) -> Option<BoundedStatsError> {
    refused_if(!is_finite(bits), BoundedStatsError::InvalidFloatBits { field, bits })
}

fn check_finite(field: &'static str, bits: u32) -> (r: Result<(), BoundedStatsError>)
    ensures
        refusal(r) == infinite_fault(field, bits),
{
    if finite(bits) {
        Ok(())
    } else {
        Err(BoundedStatsError::InvalidFloatBits { field, bits })
    }
}

/// Why `after` is refused as `before` with `delta` added.
pub open spec fn addition_fault(field: &'static str, before: u32, delta: u32, after: u32) -> Option<
    BoundedStatsError,
> {
    first(
        infinite_fault(field, before),
        first(
            infinite_fault(field, delta),
            first(
                infinite_fault(field, after),
                refused_if(
                    sum(before, delta) != Some(after),
                    BoundedStatsError::Inconsistent("relative FLOAT32 addition is not exact RNE"),
                ),
            ),
        ),
    )
}

fn check_addition(field: &'static str, before: u32, delta: u32, after: u32) -> (r: Result<
    (),
    BoundedStatsError,
>)
    ensures
        refusal(r) == addition_fault(field, before, delta, after),
{
    check_finite(field, before)?;
    check_finite(field, delta)?;
    check_finite(field, after)?;
    match sum_bits(before, delta) {
        Some(bits) if bits == after => Ok(()),
        _ => Err(BoundedStatsError::Inconsistent("relative FLOAT32 addition is not exact RNE")),
    }
}

/// Why `after` is refused as `before` with `delta` taken away.
pub open spec fn subtraction_fault(
    field: &'static str,
    before: u32,
    delta: u32,
    after: u32,
) -> Option<BoundedStatsError> {
    first(
        infinite_fault(field, before),
        first(
            infinite_fault(field, delta),
            first(
                infinite_fault(field, after),
                refused_if(
                    difference(before, delta) != Some(after),
                    BoundedStatsError::Inconsistent(
                        "relative FLOAT32 subtraction is not exact RNE",
                    ),
                ),
            ),
        ),
    )
}

fn check_subtraction(field: &'static str, before: u32, delta: u32, after: u32) -> (r: Result<
    (),
    BoundedStatsError,
>)
    ensures
        refusal(r) == subtraction_fault(field, before, delta, after),
{
    check_finite(field, before)?;
    check_finite(field, delta)?;
    check_finite(field, after)?;
    match difference_bits(before, delta) {
        Some(bits) if bits == after => Ok(()),
        _ => Err(BoundedStatsError::Inconsistent("relative FLOAT32 subtraction is not exact RNE")),
    }
}

/// The counter that a transaction advances.
#[derive(Clone, Copy, Debug, PartialEq, Eq, Structural)]
pub enum CustomerCounter {
    Payment,
    Delivery,
}

/// Why a customer's counters are refused: one advances by one, the other
/// stays.
pub open spec fn version_fault(
    before: CustomerVersion,
    after: CustomerVersion,
    counter: CustomerCounter,
) -> Option<BoundedStatsError> {
    first(
        refused_if(
            before.payment_count < 0 || before.delivery_count < 0 || after.payment_count < 0
                || after.delivery_count < 0,
            BoundedStatsError::InvalidEvidence("customer transaction count must be non-negative"),
        ),
        match counter {
            CustomerCounter::Payment => first(
                refused_if(
                    before.delivery_count != after.delivery_count,
                    BoundedStatsError::Inconsistent("Payment changed c_delivery_cnt"),
                ),
                refused_if(
                    before.payment_count + 1 != after.payment_count,
                    BoundedStatsError::Inconsistent(
                        "Payment c_payment_cnt is not exactly before + 1",
                    ),
                ),
            ),
            CustomerCounter::Delivery => first(
                refused_if(
                    before.payment_count != after.payment_count,
                    BoundedStatsError::Inconsistent("Delivery changed c_payment_cnt"),
                ),
                refused_if(
                    before.delivery_count + 1 != after.delivery_count,
                    BoundedStatsError::Inconsistent(
                        "Delivery c_delivery_cnt is not exactly before + 1",
                    ),
                ),
            ),
        },
    )
}

fn check_version(before: CustomerVersion, after: CustomerVersion, counter: CustomerCounter) -> (r:
    Result<(), BoundedStatsError>)
    ensures
        refusal(r) == version_fault(before, after, counter),
{
    if before.payment_count < 0 || before.delivery_count < 0 || after.payment_count < 0
        || after.delivery_count < 0 {
        return Err(
            BoundedStatsError::InvalidEvidence("customer transaction count must be non-negative"),
        );
    }
    match counter {
        CustomerCounter::Payment => {
            if before.delivery_count != after.delivery_count {
                return Err(BoundedStatsError::Inconsistent("Payment changed c_delivery_cnt"));
            }
            if before.payment_count.checked_add(1) != Some(after.payment_count) {
                return Err(
                    BoundedStatsError::Inconsistent(
                        "Payment c_payment_cnt is not exactly before + 1",
                    ),
                );
            }
        },
        CustomerCounter::Delivery => {
            if before.payment_count != after.payment_count {
                return Err(BoundedStatsError::Inconsistent("Delivery changed c_payment_cnt"));
            }
            if before.delivery_count.checked_add(1) != Some(after.delivery_count) {
                return Err(
                    BoundedStatsError::Inconsistent(
                        "Delivery c_delivery_cnt is not exactly before + 1",
                    ),
                );
            }
        },
    }
    Ok(())
}

/// Whether a NewOrder input is one that must roll back.
pub open spec fn frozen_rollback(input: NewOrderInput) -> bool {
    input.expected_rollback && input.lines@.len() > 0 && input.lines@.last().invalid()
}

/// How many of the first `n` lines come from another warehouse.
pub open spec fn remote_lines(lines: Seq<OrderLineInput>, home: u16, n: int) -> nat
    decreases n,
{
    if n <= 0 {
        0
    } else {
        remote_lines(lines, home, n - 1) + if lines[n - 1].supply_warehouse != home {
            1nat
        } else {
            0nat
        }
    }
}

/// The quantity of the first `n` lines.
pub open spec fn total_quantity(lines: Seq<OrderLineInput>, n: int) -> nat
    decreases n,
{
    if n <= 0 {
        0
    } else {
        total_quantity(lines, n - 1) + lines[n - 1].quantity as nat
    }
}

/// Why the lines from `i` on are refused.
pub open spec fn order_lines_fault(
    lines: Seq<OrderLineInput>,
    amounts: Seq<u32>,
    i: int,
) -> Option<BoundedStatsError>
    decreases lines.len() - i,
{
    if i >= lines.len() {
        None
    } else {
        let line = lines[i];
        first(
            refused_if(
                line.number != i + 1 || line.invalid() || !(1 <= line.item_id <= ITEM_COUNT) || !(
                MIN_ITEM_QUANTITY <= line.quantity <= MAX_ITEM_QUANTITY),
                BoundedStatsError::InvalidEvidence(
                    "committed NewOrder contains an invalid frozen line",
                ),
            ),
            first(
                key_fault(line.supply_warehouse as i32, 1),
                first(
                    positive_fault("NewOrder line amount", amounts[i], LARGEST_NEW_ORDER_LINE),
                    order_lines_fault(lines, amounts, i + 1),
                ),
            ),
        )
    }
}

/// Why a committed NewOrder is refused.
pub open spec fn committed_order_fault(
    route: RoutedTransaction,
    input: NewOrderInput,
    evidence: NewOrderEvidence,
) -> Option<BoundedStatsError> {
    let lines = input.lines@;
    let n = lines.len() as int;
    first(
        refused_if(
            input.expected_rollback,
            BoundedStatsError::InvalidEvidence("expected-rollback NewOrder cannot be committed"),
        ),
        first(
            refused_if(
                evidence.warehouse_id != route.home_warehouse || evidence.district_id
                    != route.home_district || evidence.line_count != n
                    || evidence.line_amount_bits@.len() != n,
                BoundedStatsError::InvalidEvidence(
                    "NewOrder outcome does not match its frozen ticket",
                ),
            ),
            first(
                refused_if(
                    evidence.order_id <= 0,
                    BoundedStatsError::InvalidEvidence("NewOrder order_id must be positive"),
                ),
                first(
                    refused_if(
                        !(1 <= input.customer_id <= 3_000),
                        BoundedStatsError::InvalidEvidence(
                            "NewOrder customer_id is outside 1..=3000",
                        ),
                    ),
                    first(
                        refused_if(
                            !(5 <= n <= 15),
                            BoundedStatsError::InvalidEvidence(
                                "NewOrder line count must be 5..=15",
                            ),
                        ),
                        first(
                            order_lines_fault(lines, evidence.line_amount_bits@, 0),
                            refused_if(
                                remote_lines(lines, route.home_warehouse, n)
                                    != evidence.remote_line_count || total_quantity(lines, n)
                                    != evidence.stock_ytd_delta || input.all_local != (
                                remote_lines(lines, route.home_warehouse, n) == 0),
                                BoundedStatsError::InvalidEvidence(
                                    "NewOrder derived totals differ from outcome evidence",
                                ),
                            ),
                        ),
                    ),
                ),
            ),
        ),
    )
}

/// What a committed NewOrder adds.
pub open spec fn committed_order_delta(
    slot: int,
    route: RoutedTransaction,
    input: NewOrderInput,
    evidence: NewOrderEvidence,
) -> DeltaModel {
    let lines = input.lines@;
    let n = lines.len() as int;
    DeltaModel {
        class_index: slot,
        class_totals: ClassTotals {
            new_order_commits: 1,
            new_orders: 1,
            new_order_lines: n as u64,
            remote_new_order_lines: remote_lines(lines, route.home_warehouse, n) as u64,
            stock_quantity_delta: total_quantity(lines, n) as u64,
            ..no_totals()
        },
        partitions: seq![
            PartitionIncrement {
                index: partition_position(
                    route.home_warehouse as int,
                    route.home_district as int,
                ) as usize,
                delta: PartitionTotals {
                    new_orders: 1,
                    new_order_lines: n as u64,
                    ..no_partition()
                },
            },
        ],
        payment_amount: None,
        line_amounts: evidence.line_amount_bits@,
        delivery_amounts: Seq::empty(),
    }
}

/// A delta that only counts.
pub open spec fn counted_delta(slot: int, class_totals: ClassTotals) -> DeltaModel {
    DeltaModel {
        class_index: slot,
        class_totals,
        partitions: Seq::empty(),
        payment_amount: None,
        line_amounts: Seq::empty(),
        delivery_amounts: Seq::empty(),
    }
}

fn counted<'a>(class_index: usize, class_totals: ClassTotals) -> (r: TerminalDelta<'a>)
    ensures
        r@ == counted_delta(class_index as int, class_totals),
{
    TerminalDelta {
        class_index,
        class_totals,
        partitions: Vec::new(),
        payment_amount: None,
        line_amounts: None,
        delivery_amounts: Vec::new(),
    }
}

fn from_new_order<'a>(
    slot: usize,
    route: &RoutedTransaction,
    input: &NewOrderInput,
    evidence: &'a NewOrderEvidence,
) -> (r: Result<TerminalDelta<'a>, BoundedStatsError>)
    requires
        in_domain(route.home_warehouse as int, route.home_district as int),
    ensures
        refusal(r) == committed_order_fault(*route, *input, *evidence),
        r matches Ok(delta) ==> delta@ == committed_order_delta(
            slot as int,
            *route,
            *input,
            *evidence,
        ),
{
    if input.expected_rollback {
        return Err(
            BoundedStatsError::InvalidEvidence("expected-rollback NewOrder cannot be committed"),
        );
    }
    let n: usize = input.lines.len();
    if evidence.warehouse_id != route.home_warehouse || evidence.district_id
        != route.home_district || evidence.line_count as usize != n
        || evidence.line_amount_bits.len() != n {
        return Err(
            BoundedStatsError::InvalidEvidence("NewOrder outcome does not match its frozen ticket"),
        );
    }
    if evidence.order_id <= 0 {
        return Err(BoundedStatsError::InvalidEvidence("NewOrder order_id must be positive"));
    }
    if input.customer_id < 1 || input.customer_id > 3_000 {
        return Err(BoundedStatsError::InvalidEvidence("NewOrder customer_id is outside 1..=3000"));
    }
    if n < MIN_ORDER_LINES as usize || n > MAX_ORDER_LINES as usize {
        return Err(BoundedStatsError::InvalidEvidence("NewOrder line count must be 5..=15"));
    }
    let ghost lines = input.lines@;
    let ghost amounts = evidence.line_amount_bits@;
    let ghost total_fault = order_lines_fault(lines, amounts, 0);
    let mut remote: u64 = 0;
    let mut quantity: u64 = 0;
    let mut i: usize = 0;
    while i < n
        invariant
            i <= n <= 15,
            lines == input.lines@,
            amounts == evidence.line_amount_bits@,
            lines.len() == n,
            amounts.len() == n,
            total_fault == order_lines_fault(lines, amounts, i as int),
            committed_order_fault(*route, *input, *evidence) == first(
                total_fault,
                refused_if(
                    remote_lines(lines, route.home_warehouse, n as int)
                        != evidence.remote_line_count || total_quantity(lines, n as int)
                        != evidence.stock_ytd_delta || input.all_local != (remote_lines(
                        lines,
                        route.home_warehouse,
                        n as int,
                    ) == 0),
                    BoundedStatsError::InvalidEvidence(
                        "NewOrder derived totals differ from outcome evidence",
                    ),
                ),
            ),
            remote == remote_lines(lines, route.home_warehouse, i as int),
            quantity == total_quantity(lines, i as int),
            remote <= i,
            quantity <= 10 * i,
        decreases n - i,
    {
        let line = &input.lines[i];
        if line.number as usize != i + 1 || line.is_invalid_item() || line.item_id < 1
            || line.item_id > ITEM_COUNT || line.quantity < MIN_ITEM_QUANTITY || line.quantity
            > MAX_ITEM_QUANTITY {
            return Err(
                BoundedStatsError::InvalidEvidence(
                    "committed NewOrder contains an invalid frozen line",
                ),
            );
        }
        let _supply: usize = partition_slot(line.supply_warehouse as i32, 1)?;
        check_positive(
            "NewOrder line amount",
            evidence.line_amount_bits[i],
            LARGEST_NEW_ORDER_LINE,
        )?;
        if line.supply_warehouse != route.home_warehouse {
            remote = remote + 1;
        }
        quantity = quantity + line.quantity as u64;
        i = i + 1;
    }
    if remote != evidence.remote_line_count as u64 || quantity != evidence.stock_ytd_delta as u64
        || input.all_local != (remote == 0) {
        return Err(
            BoundedStatsError::InvalidEvidence(
                "NewOrder derived totals differ from outcome evidence",
            ),
        );
    }
    let index: usize = partition_slot(route.home_warehouse as i32, route.home_district as i32)?;
    let mut class_totals = ClassTotals::none();
    class_totals.new_order_commits = 1;
    class_totals.new_orders = 1;
    class_totals.new_order_lines = n as u64;
    class_totals.remote_new_order_lines = remote;
    class_totals.stock_quantity_delta = quantity;
    let mut own = PartitionTotals::none();
    own.new_orders = 1;
    own.new_order_lines = n as u64;
    let mut delta = counted(slot, class_totals);
    delta.partitions.push(PartitionIncrement { index, delta: own });
    delta.line_amounts = Some(&evidence.line_amount_bits);
    assert(delta@ =~= committed_order_delta(slot as int, *route, *input, *evidence));
    Ok(delta)
}

/// Why a committed Payment is refused.
pub open spec fn committed_payment_fault(
    route: RoutedTransaction,
    input: PaymentInput,
    e: PaymentEvidence,
) -> Option<BoundedStatsError> {
    first(
        refused_if(
            e.warehouse_id != route.home_warehouse || e.district_id != route.home_district
                || e.customer_warehouse_id != input.customer_warehouse || e.customer_district_id
                != input.customer_district || e.amount_bits != input.amount_bits,
            BoundedStatsError::InvalidEvidence("Payment outcome does not match its frozen ticket"),
        ),
        first(
            key_fault(e.customer_warehouse_id as i32, e.customer_district_id as i32),
            first(
                refused_if(
                    e.customer_warehouse_id == e.warehouse_id && e.customer_district_id
                        != e.district_id,
                    BoundedStatsError::InvalidEvidence(
                        "local Payment customer district differs from home",
                    ),
                ),
                first(
                    refused_if(
                        !(1 <= e.customer_id <= 3_000),
                        BoundedStatsError::InvalidEvidence(
                            "Payment customer_id is outside 1..=3000",
                        ),
                    ),
                    first(
                        refused_if(
                            input.customer matches CustomerSelector::Id(id) && id
                                != e.customer_id,
                            BoundedStatsError::InvalidEvidence(
                                "Payment resolved customer differs from frozen id selector",
                            ),
                        ),
                        committed_payment_values_fault(e),
                    ),
                ),
            ),
        ),
    )
}

/// Why the amounts and counters of a Payment are refused.
pub open spec fn committed_payment_values_fault(e: PaymentEvidence) -> Option<BoundedStatsError> {
    first(
        positive_fault("Payment amount", e.amount_bits, LARGEST_PAYMENT),
        first(
            addition_fault(
                "Payment warehouse w_ytd",
                e.warehouse_before_bits,
                e.amount_bits,
                e.warehouse_after_bits,
            ),
            first(
                addition_fault(
                    "Payment district d_ytd",
                    e.district_before_bits,
                    e.amount_bits,
                    e.district_after_bits,
                ),
                first(
                    subtraction_fault(
                        "Payment customer c_balance",
                        e.customer_balance_before_bits,
                        e.amount_bits,
                        e.customer_balance_after_bits,
                    ),
                    first(
                        addition_fault(
                            "Payment customer c_ytd_payment",
                            e.customer_ytd_before_bits,
                            e.amount_bits,
                            e.customer_ytd_after_bits,
                        ),
                        version_fault(
                            e.customer_version_before,
                            e.customer_version_after,
                            CustomerCounter::Payment,
                        ),
                    ),
                ),
            ),
        ),
    )
}

/// What a committed Payment adds.
pub open spec fn committed_payment_delta(slot: int, e: PaymentEvidence) -> DeltaModel {
    DeltaModel {
        payment_amount: Some(e.amount_bits),
        ..counted_delta(slot, (ClassTotals { payment_commits: 1, ..no_totals() }))
    }
}

fn from_payment<'a>(
    slot: usize,
    route: &RoutedTransaction,
    input: &PaymentInput,
    evidence: &PaymentEvidence,
) -> (r: Result<TerminalDelta<'a>, BoundedStatsError>)
    ensures
        refusal(r) == committed_payment_fault(*route, *input, *evidence),
        r matches Ok(delta) ==> delta@ == committed_payment_delta(slot as int, *evidence),
{
    if evidence.warehouse_id != route.home_warehouse || evidence.district_id
        != route.home_district || evidence.customer_warehouse_id != input.customer_warehouse
        || evidence.customer_district_id != input.customer_district || evidence.amount_bits
        != input.amount_bits {
        return Err(
            BoundedStatsError::InvalidEvidence("Payment outcome does not match its frozen ticket"),
        );
    }
    let _customer: usize = partition_slot(
        evidence.customer_warehouse_id as i32,
        evidence.customer_district_id as i32,
    )?;
    if evidence.customer_warehouse_id == evidence.warehouse_id && evidence.customer_district_id
        != evidence.district_id {
        return Err(
            BoundedStatsError::InvalidEvidence("local Payment customer district differs from home"),
        );
    }
    if evidence.customer_id < 1 || evidence.customer_id > 3_000 {
        return Err(BoundedStatsError::InvalidEvidence("Payment customer_id is outside 1..=3000"));
    }
    if let CustomerSelector::Id(id) = &input.customer {
        if *id as i32 != evidence.customer_id {
            return Err(
                BoundedStatsError::InvalidEvidence(
                    "Payment resolved customer differs from frozen id selector",
                ),
            );
        }
    }
    check_positive("Payment amount", evidence.amount_bits, LARGEST_PAYMENT)?;
    check_addition(
        "Payment warehouse w_ytd",
        evidence.warehouse_before_bits,
        evidence.amount_bits,
        evidence.warehouse_after_bits,
    )?;
    check_addition(
        "Payment district d_ytd",
        evidence.district_before_bits,
        evidence.amount_bits,
        evidence.district_after_bits,
    )?;
    check_subtraction(
        "Payment customer c_balance",
        evidence.customer_balance_before_bits,
        evidence.amount_bits,
        evidence.customer_balance_after_bits,
    )?;
    check_addition(
        "Payment customer c_ytd_payment",
        evidence.customer_ytd_before_bits,
        evidence.amount_bits,
        evidence.customer_ytd_after_bits,
    )?;
    check_version(
        evidence.customer_version_before,
        evidence.customer_version_after,
        CustomerCounter::Payment,
    )?;
    let mut class_totals = ClassTotals::none();
    class_totals.payment_commits = 1;
    let mut delta = counted(slot, class_totals);
    delta.payment_amount = Some(evidence.amount_bits);
    Ok(delta)
}

/// Why the amounts from `i` on are refused as delivered lines.
pub open spec fn delivered_amounts_fault(amounts: Seq<u32>, i: int) -> Option<BoundedStatsError>
    decreases amounts.len() - i,
{
    if i >= amounts.len() {
        None
    } else {
        first(
            positive_fault("Delivery line amount", amounts[i], LARGEST_DELIVERY_LINE),
            delivered_amounts_fault(amounts, i + 1),
        )
    }
}

fn check_delivered_amounts(amounts: &Vec<u32>) -> (r: Result<(), BoundedStatsError>)
    ensures
        refusal(r) == delivered_amounts_fault(amounts@, 0),
        r is Ok ==> all_finite(amounts@),
{
    let mut i: usize = 0;
    while i < amounts.len()
        invariant
            i <= amounts@.len(),
            delivered_amounts_fault(amounts@, 0) == delivered_amounts_fault(amounts@, i as int),
            forall|k: int| 0 <= k < i ==> is_finite(#[trigger] amounts@[k]),
        decreases amounts@.len() - i,
    {
        check_positive("Delivery line amount", amounts[i], LARGEST_DELIVERY_LINE)?;
        i = i + 1;
    }
    Ok(())
}

/// Whether an earlier order is of the district of order `i`.
pub open spec fn repeats_district(orders: Seq<DeliveredOrderEvidence>, i: int) -> bool {
    exists|j: int| 0 <= j < i && (#[trigger] orders[j]).district_id == orders[i].district_id
}

/// Why the sum, balance and counters of a delivered order are refused.
pub open spec fn delivered_values_fault(o: DeliveredOrderEvidence) -> Option<BoundedStatsError> {
    first(
        delivered_amounts_fault(o.line_amount_bits@, 0),
        match double_sum_pattern(o.line_amount_bits@) {
            None => Some(
                BoundedStatsError::Float {
                    field: "Delivery line amount sum",
                    source: FloatError::Overflow,
                },
            ),
            Some(bits) => first(
                refused_if(
                    bits != o.amount_bits,
                    BoundedStatsError::InvalidEvidence(
                        "Delivery customer amount differs from exact order-line sum",
                    ),
                ),
                first(
                    positive_fault("Delivery customer amount", o.amount_bits, LARGEST_DELIVERY),
                    first(
                        addition_fault(
                            "Delivery customer c_balance",
                            o.customer_balance_before_bits,
                            o.amount_bits,
                            o.customer_balance_after_bits,
                        ),
                        version_fault(
                            o.customer_version_before,
                            o.customer_version_after,
                            CustomerCounter::Delivery,
                        ),
                    ),
                ),
            ),
        },
    )
}

fn check_delivered_values(o: &DeliveredOrderEvidence) -> (r: Result<(), BoundedStatsError>)
    ensures
        refusal(r) == delivered_values_fault(*o),
{
    check_delivered_amounts(&o.line_amount_bits)?;
    let expected: u32 = match sum_f32_as_f64_once(o.line_amount_bits.as_slice()) {
        Ok(bits) => bits,
        Err(source) => {
            return Err(BoundedStatsError::Float { field: "Delivery line amount sum", source });
        },
    };
    if expected != o.amount_bits {
        return Err(
            BoundedStatsError::InvalidEvidence(
                "Delivery customer amount differs from exact order-line sum",
            ),
        );
    }
    check_positive("Delivery customer amount", o.amount_bits, LARGEST_DELIVERY)?;
    check_addition(
        "Delivery customer c_balance",
        o.customer_balance_before_bits,
        o.amount_bits,
        o.customer_balance_after_bits,
    )?;
    check_version(
        o.customer_version_before,
        o.customer_version_after,
        CustomerCounter::Delivery,
    )
}

/// Why delivered order `i` is refused.
pub open spec fn one_delivered_fault(home: u16, orders: Seq<DeliveredOrderEvidence>, i: int) -> Option<
    BoundedStatsError,
> {
    let o = orders[i];
    first(
        refused_if(
            o.warehouse_id != home,
            BoundedStatsError::InvalidEvidence(
                "Delivery outcome warehouse differs from frozen ticket",
            ),
        ),
        first(
            key_fault(o.warehouse_id as i32, o.district_id as i32),
            first(
                refused_if(
                    repeats_district(orders, i),
                    BoundedStatsError::InvalidEvidence(
                        "Delivery processed a district more than once",
                    ),
                ),
                first(
                    refused_if(
                        o.order_id <= 0,
                        BoundedStatsError::InvalidEvidence("Delivery order_id must be positive"),
                    ),
                    first(
                        refused_if(
                            !(1 <= o.customer_id <= 3_000),
                            BoundedStatsError::InvalidEvidence(
                                "Delivery customer_id is outside 1..=3000",
                            ),
                        ),
                        first(
                            refused_if(
                                !(MIN_ORDER_LINES <= o.line_count <= MAX_ORDER_LINES),
                                BoundedStatsError::InvalidEvidence(
                                    "Delivery line count must be 5..=15",
                                ),
                            ),
                            first(
                                refused_if(
                                    o.line_amount_bits@.len() != o.line_count,
                                    BoundedStatsError::InvalidEvidence(
                                        "Delivery amount-bit count differs from line_count",
                                    ),
                                ),
                                delivered_values_fault(o),
                            ),
                        ),
                    ),
                ),
            ),
        ),
    )
}

/// Why the delivered orders from `i` on are refused.
pub open spec fn delivered_list_fault(
    home: u16,
    orders: Seq<DeliveredOrderEvidence>,
    i: int,
) -> Option<BoundedStatsError>
    decreases orders.len() - i,
{
    if i >= orders.len() {
        None
    } else {
        first(one_delivered_fault(home, orders, i), delivered_list_fault(home, orders, i + 1))
    }
}

/// Why a committed Delivery is refused.
pub open spec fn committed_delivery_fault(
    route: RoutedTransaction,
    input: DeliveryInput,
    orders: Seq<DeliveredOrderEvidence>,
) -> Option<BoundedStatsError> {
    first(
        refused_if(
            !(MIN_CARRIER_ID <= input.carrier_id <= MAX_CARRIER_ID),
            BoundedStatsError::InvalidEvidence("Delivery carrier_id is outside 1..=10"),
        ),
        first(
            refused_if(
                orders.len() > 10,
                BoundedStatsError::InvalidEvidence(
                    "Delivery processed more than one order per district",
                ),
            ),
            delivered_list_fault(route.home_warehouse, orders, 0),
        ),
    )
}

/// Lines of the first `n` delivered orders.
pub open spec fn delivered_lines(orders: Seq<DeliveredOrderEvidence>, n: int) -> nat
    decreases n,
{
    if n <= 0 {
        0
    } else {
        delivered_lines(orders, n - 1) + orders[n - 1].line_count as nat
    }
}

/// What one delivered order adds to its partition.
pub open spec fn delivered_increment(o: DeliveredOrderEvidence) -> PartitionIncrement {
    PartitionIncrement {
        index: partition_position(o.warehouse_id as int, o.district_id as int) as usize,
        delta: PartitionTotals {
            delivered_orders: 1,
            delivered_order_lines: o.line_count as u64,
            ..no_partition()
        },
    }
}

/// What a committed Delivery adds.
pub open spec fn committed_delivery_delta(
    slot: int,
    orders: Seq<DeliveredOrderEvidence>,
) -> DeltaModel {
    DeltaModel {
        class_index: slot,
        class_totals: ClassTotals {
            delivery_commits: 1,
            delivered_orders: orders.len() as u64,
            delivered_order_lines: delivered_lines(orders, orders.len() as int) as u64,
            ..no_totals()
        },
        partitions: Seq::new(orders.len(), |i: int| delivered_increment(orders[i])),
        payment_amount: None,
        line_amounts: Seq::empty(),
        delivery_amounts: Seq::new(orders.len(), |i: int| orders[i].amount_bits),
    }
}

fn district_repeats(orders: &Vec<DeliveredOrderEvidence>, i: usize) -> (r: bool)
    requires
        i < orders@.len(),
    ensures
        r == repeats_district(orders@, i as int),
{
    let mut j: usize = 0;
    while j < i
        invariant
            j <= i < orders@.len(),
            forall|k: int|
                0 <= k < j ==> (#[trigger] orders@[k]).district_id != orders@[i as int].district_id,
        decreases i - j,
    {
        if orders[j].district_id == orders[i].district_id {
            return true;
        }
        j = j + 1;
    }
    false
}

fn check_delivered_order(home: u16, orders: &Vec<DeliveredOrderEvidence>, i: usize) -> (r: Result<
    usize,
    BoundedStatsError,
>)
    requires
        i < orders@.len(),
    ensures
        refusal(r) == one_delivered_fault(home, orders@, i as int),
        r matches Ok(slot) ==> slot == partition_position(
            orders@[i as int].warehouse_id as int,
            orders@[i as int].district_id as int,
        ),
{
    let o = &orders[i];
    if o.warehouse_id != home {
        return Err(
            BoundedStatsError::InvalidEvidence(
                "Delivery outcome warehouse differs from frozen ticket",
            ),
        );
    }
    let slot: usize = partition_slot(o.warehouse_id as i32, o.district_id as i32)?;
    if district_repeats(orders, i) {
        return Err(
            BoundedStatsError::InvalidEvidence("Delivery processed a district more than once"),
        );
    }
    if o.order_id <= 0 {
        return Err(BoundedStatsError::InvalidEvidence("Delivery order_id must be positive"));
    }
    if o.customer_id < 1 || o.customer_id > 3_000 {
        return Err(BoundedStatsError::InvalidEvidence("Delivery customer_id is outside 1..=3000"));
    }
    if o.line_count < MIN_ORDER_LINES || o.line_count > MAX_ORDER_LINES {
        return Err(BoundedStatsError::InvalidEvidence("Delivery line count must be 5..=15"));
    }
    if o.line_amount_bits.len() != o.line_count as usize {
        return Err(
            BoundedStatsError::InvalidEvidence("Delivery amount-bit count differs from line_count"),
        );
    }
    check_delivered_values(o)?;
    Ok(slot)
}

fn from_delivery<'a>(
    class_slot: usize,
    route: &RoutedTransaction,
    input: &DeliveryInput,
    orders: &Vec<DeliveredOrderEvidence>,
) -> (r: Result<TerminalDelta<'a>, BoundedStatsError>)
    ensures
        refusal(r) == committed_delivery_fault(*route, *input, orders@),
        r matches Ok(delta) ==> delta@ == committed_delivery_delta(class_slot as int, orders@),
{
    if input.carrier_id < MIN_CARRIER_ID || input.carrier_id > MAX_CARRIER_ID {
        return Err(BoundedStatsError::InvalidEvidence("Delivery carrier_id is outside 1..=10"));
    }
    if orders.len() > 10 {
        return Err(
            BoundedStatsError::InvalidEvidence(
                "Delivery processed more than one order per district",
            ),
        );
    }
    let ghost goal = committed_delivery_delta(class_slot as int, orders@);
    let ghost home = route.home_warehouse;
    let mut partitions: Vec<PartitionIncrement> = Vec::new();
    let mut amounts: Vec<u32> = Vec::new();
    let mut lines: u64 = 0;
    let mut i: usize = 0;
    while i < orders.len()
        invariant
            i <= orders@.len() <= 10,
            home == route.home_warehouse,
            goal == committed_delivery_delta(class_slot as int, orders@),
            committed_delivery_fault(*route, *input, orders@) == delivered_list_fault(
                home,
                orders@,
                i as int,
            ),
            lines == delivered_lines(orders@, i as int),
            lines <= 255 * i,
            partitions@ =~= goal.partitions.subrange(0, i as int),
            amounts@ =~= goal.delivery_amounts.subrange(0, i as int),
        decreases orders@.len() - i,
    {
        let slot: usize = check_delivered_order(route.home_warehouse, orders, i)?;
        let mut own = PartitionTotals::none();
        own.delivered_orders = 1;
        own.delivered_order_lines = orders[i].line_count as u64;
        partitions.push(PartitionIncrement { index: slot, delta: own });
        amounts.push(orders[i].amount_bits);
        lines = lines + orders[i].line_count as u64;
        i = i + 1;
    }
    let mut class_totals = ClassTotals::none();
    class_totals.delivery_commits = 1;
    class_totals.delivered_orders = orders.len() as u64;
    class_totals.delivered_order_lines = lines;
    let mut delta = counted(class_slot, class_totals);
    delta.partitions = partitions;
    delta.delivery_amounts = amounts;
    assert(delta@ =~= goal);
    Ok(delta)
}

/// Why a terminal is refused by its kind.
pub open spec fn outcome_fault(ticket: TransactionTicket, outcome: RankedTransactionOutcome) -> Option<
    BoundedStatsError,
> {
    match (ticket.parameters, outcome) {
        (
            TransactionParameters::NewOrder(input),
            RankedTransactionOutcome::ExpectedRollback,
        ) => refused_if(
            !frozen_rollback(input),
            BoundedStatsError::InvalidEvidence(
                "business rollback does not match the frozen invalid-item ticket",
            ),
        ),
        (
            TransactionParameters::NewOrder(input),
            RankedTransactionOutcome::Committed(RankedCommit::NewOrder(evidence)),
        ) => committed_order_fault(ticket.route, input, evidence),
        (
            TransactionParameters::Payment(input),
            RankedTransactionOutcome::Committed(RankedCommit::Payment(evidence)),
        ) => committed_payment_fault(ticket.route, input, evidence),
        (
            TransactionParameters::OrderStatus(_),
            RankedTransactionOutcome::Committed(RankedCommit::OrderStatus),
        ) => None,
        (
            TransactionParameters::Delivery(input),
            RankedTransactionOutcome::Committed(RankedCommit::Delivery(orders)),
        ) => committed_delivery_fault(ticket.route, input, orders@),
        (
            TransactionParameters::StockLevel(_),
            RankedTransactionOutcome::Committed(RankedCommit::StockLevel { low_stock_count }),
        ) => refused_if(
            !(0 <= low_stock_count <= 300),
            BoundedStatsError::InvalidEvidence("StockLevel low_stock_count must be in 0..=300"),
        ),
        _ => Some(
            BoundedStatsError::InvalidEvidence(
                "terminal outcome kind does not match its frozen ticket",
            ),
        ),
    }
}

/// Why a terminal is refused.
pub open spec fn bounded_terminal_fault(
    class: LedgerClass,
    ticket: TransactionTicket,
    outcome: RankedTransactionOutcome,
) -> Option<BoundedStatsError> {
    first(
        stage_fault(class, ticket.route.stage.number),
        first(
            refused_if(
                ticket.route.client_id >= OFFICIAL_CLIENTS,
                BoundedStatsError::InvalidEvidence(
                    "ticket client_id is outside the final client domain",
                ),
            ),
            first(
                key_fault(ticket.route.home_warehouse as i32, ticket.route.home_district as i32),
                outcome_fault(ticket, outcome),
            ),
        ),
    )
}

/// What an accepted terminal adds.
pub open spec fn terminal_delta(
    class: LedgerClass,
    ticket: TransactionTicket,
    outcome: RankedTransactionOutcome,
) -> DeltaModel {
    let slot = class_slot(class)->0;
    match (ticket.parameters, outcome) {
        (
            TransactionParameters::NewOrder(input),
            RankedTransactionOutcome::Committed(RankedCommit::NewOrder(evidence)),
        ) => committed_order_delta(slot, ticket.route, input, evidence),
        (_, RankedTransactionOutcome::Committed(RankedCommit::Payment(evidence))) => {
            committed_payment_delta(slot, evidence)
        },
        (_, RankedTransactionOutcome::Committed(RankedCommit::OrderStatus)) => counted_delta(
            slot,
            (ClassTotals { order_status_commits: 1, ..no_totals() }),
        ),
        (_, RankedTransactionOutcome::Committed(RankedCommit::Delivery(orders))) => {
            committed_delivery_delta(slot, orders@)
        },
        (_, RankedTransactionOutcome::Committed(RankedCommit::StockLevel { .. })) => counted_delta(
            slot,
            (ClassTotals { stock_level_commits: 1, ..no_totals() }),
        ),
        _ => counted_delta(slot, (ClassTotals { expected_rollbacks: 1, ..no_totals() })),
    }
}

impl<'a> TerminalDelta<'a> {
    /// Validates a terminal and derives what it adds.
    pub fn from_terminal(
        class: LedgerClass,
        ticket: &'a TransactionTicket,
        outcome: &'a RankedTransactionOutcome,
    ) -> (r: Result<Self, BoundedStatsError>)
        ensures
            refusal(r) == bounded_terminal_fault(class, *ticket, *outcome),
            r matches Ok(delta) ==> delta@ == terminal_delta(class, *ticket, *outcome)
                && delta.class_index < 9,
    {
        let route = &ticket.route;
        let slot: usize = class_index(class, route.stage.value())?;
        if route.client_id >= OFFICIAL_CLIENTS {
            return Err(
                BoundedStatsError::InvalidEvidence(
                    "ticket client_id is outside the final client domain",
                ),
            );
        }
        let _home: usize = partition_slot(route.home_warehouse as i32, route.home_district as i32)?;
        match (&ticket.parameters, outcome) {
            (
                TransactionParameters::NewOrder(input),
                RankedTransactionOutcome::ExpectedRollback,
            ) => {
                let n: usize = input.lines.len();
                if !input.expected_rollback || n == 0 || !input.lines[n - 1].is_invalid_item() {
                    return Err(
                        BoundedStatsError::InvalidEvidence(
                            "business rollback does not match the frozen invalid-item ticket",
                        ),
                    );
                }
                let mut totals = ClassTotals::none();
                totals.expected_rollbacks = 1;
                Ok(counted(slot, totals))
            },
            (
                TransactionParameters::NewOrder(input),
                RankedTransactionOutcome::Committed(RankedCommit::NewOrder(evidence)),
            ) => from_new_order(slot, route, input, evidence),
            (
                TransactionParameters::Payment(input),
                RankedTransactionOutcome::Committed(RankedCommit::Payment(evidence)),
            ) => from_payment(slot, route, input, evidence),
            (
                TransactionParameters::OrderStatus(_),
                RankedTransactionOutcome::Committed(RankedCommit::OrderStatus),
            ) => {
                let mut totals = ClassTotals::none();
                totals.order_status_commits = 1;
                Ok(counted(slot, totals))
            },
            (
                TransactionParameters::Delivery(input),
                RankedTransactionOutcome::Committed(RankedCommit::Delivery(orders)),
            ) => from_delivery(slot, route, input, orders),
            (
                TransactionParameters::StockLevel(_),
                RankedTransactionOutcome::Committed(RankedCommit::StockLevel { low_stock_count }),
            ) => {
                if *low_stock_count < 0 || *low_stock_count > 300 {
                    return Err(
                        BoundedStatsError::InvalidEvidence(
                            "StockLevel low_stock_count must be in 0..=300",
                        ),
                    );
                }
                let mut totals = ClassTotals::none();
                totals.stock_level_commits = 1;
                Ok(counted(slot, totals))
            },
            _ => Err(
                BoundedStatsError::InvalidEvidence(
                    "terminal outcome kind does not match its frozen ticket",
                ),
            ),
        }
    }
}

} // verus!
