//! NewOrder: the second batch and its evidence.
use vstd::prelude::*;

use crate::binary32::{
    INFINITY_BITS, finite, integer_bits, integer_pattern, is_finite, sum, sum_bits,
};
use crate::checks::first;
use crate::ranking::common::{
    BatchResults, SemanticResult, SemanticViolation, Violation, f32_fault, int32_fault, operation,
    operation_of, row_f32_bits, row_int32, single_row_fault, single_row_of, violated, violates,
};
use crate::ranking::new_order::{
    LinePlan, OrderPlan, ValidatedInput, bare_operation, int_pair, int_triple,
    lemma_operations_pushed, stock_key_of,
};
use crate::ranking::new_order_rows::{
    MAX_STOCK_QUANTITY, MIN_STOCK_QUANTITY, MaterializedLine, MaterializedModel,
    MaterializedOrder, ReadOrder, describe_stock_place, line_models, stock_place, version_at,
};
use crate::ranking::row_checks::{columns_fault, copy_bytes, int_text, require_columns};
use crate::ranking::runner::{
    NewOrderEvidence, RankedCommit, RankedTransactionOutcome, RecoveryNewOrderLineEvidence,
    StockVersion,
};
use crate::ranking::statement_id::{StatementId, wire_number};
use crate::ranking::stock_chain::restocked;
use crate::text::{decimal, join3, join4, join5, join6, signed_decimal, unsigned_text};
use crate::wire::{Operation, OperationModel, WireModel, WireValue, operation_models, row_model};

verus! {

/// The carrier of an order that is not delivered.
pub const UNDELIVERED_CARRIER_ID: i32 = 0;

/// The delivery date of an order that is not delivered.
pub const UNDELIVERED_DATE: &'static str = "";

/// The content of a line's evidence.
#[verifier::ext_equal]
pub struct RecoveryLine {
    pub number: u8,
    pub item_id: u32,
    pub supply_warehouse: u16,
    pub quantity: u8,
    pub amount_bits: u32,
    pub district_info: Seq<u8>,
    pub stock_before: StockVersion,
    pub stock_after: StockVersion,
}

impl View for RecoveryNewOrderLineEvidence {
    type V = RecoveryLine;

    open spec fn view(&self) -> RecoveryLine {
        RecoveryLine {
            number: self.number,
            item_id: self.item_id,
            supply_warehouse: self.supply_warehouse,
            quantity: self.quantity,
            amount_bits: self.amount_bits,
            district_info: self.district_info@,
            stock_before: self.stock_before,
            stock_after: self.stock_after,
        }
    }
}

/// The contents of a list of evidence lines.
pub open spec fn recovery_models(lines: Seq<RecoveryNewOrderLineEvidence>) -> Seq<RecoveryLine> {
    Seq::new(lines.len(), |i: int| lines[i]@)
}

/// The second batch, with what it will have done.
#[derive(Clone, Debug, PartialEq, Eq)]
pub struct StageTwoPlan {
    pub operations: Vec<Operation>,
    pub stock_after_results: Vec<usize>,
    pub remote_line_count: u8,
    pub stock_ytd_delta: u32,
    pub recovery_lines: Vec<RecoveryNewOrderLineEvidence>,
}

/// The content of a [`StageTwoPlan`].
#[verifier::ext_equal]
pub struct StageTwoModel {
    pub operations: Seq<OperationModel>,
    pub stock_after_results: Seq<usize>,
    pub remote_line_count: u8,
    pub stock_ytd_delta: u32,
    pub recovery_lines: Seq<RecoveryLine>,
}

impl View for StageTwoPlan {
    type V = StageTwoModel;

    open spec fn view(&self) -> StageTwoModel {
        StageTwoModel {
            operations: operation_models(self.operations@),
            stock_after_results: self.stock_after_results@,
            remote_line_count: self.remote_line_count,
            stock_ytd_delta: self.stock_ytd_delta,
            recovery_lines: recovery_models(self.recovery_lines@),
        }
    }
}

/// One if a line comes from another warehouse.
pub open spec fn remote_flag(order: OrderPlan, plan: LinePlan) -> i32 {
    if plan.supply_warehouse != order.warehouse_id {
        1
    } else {
        0
    }
}

/// A non-negative total with a quantity added; an overflow is infinite.
pub open spec fn ytd_with(bits: u32, quantity: i32) -> u32 {
    if !is_finite(bits) {
        bits
    } else {
        match sum(bits, integer_pattern(quantity as int)) {
            Some(total) => total,
            None => INFINITY_BITS,
        }
    }
}

/// The stock row after a line.
pub open spec fn sold(before: StockVersion, order: OrderPlan, plan: LinePlan) -> StockVersion {
    StockVersion {
        quantity: restocked(before.quantity as int, plan.quantity as int) as i32,
        ytd_bits: ytd_with(before.ytd_bits, plan.quantity),
        order_count: (before.order_count + 1) as i32,
        remote_count: (before.remote_count + remote_flag(order, plan)) as i32,
    }
}

/// The last of the first `n` lines on a stock row.
pub open spec fn last_on_row(lines: Seq<MaterializedModel>, n: int, key: (i32, i32)) -> Option<int>
    decreases n,
{
    if n <= 0 {
        None
    } else if stock_key_of(lines[n - 1].plan) == key {
        Some(n - 1)
    } else {
        last_on_row(lines, n - 1, key)
    }
}

pub proof fn lemma_last_on_row(lines: Seq<MaterializedModel>, n: int, key: (i32, i32))
    ensures
        last_on_row(lines, n, key) matches Some(j) ==> 0 <= j < n && stock_key_of(lines[j].plan)
            == key,
    decreases n,
{
    if n > 0 {
        lemma_last_on_row(lines, n - 1, key);
    }
}

/// The stock row before line `k`: as read, or as an earlier line left it.
pub open spec fn stock_before(order: OrderPlan, lines: Seq<MaterializedModel>, k: int) -> StockVersion
    decreases k, 0int,
    via stock_before_decreases
{
    match last_on_row(lines, k, stock_key_of(lines[k].plan)) {
        Some(j) => stock_after(order, lines, j),
        None => lines[k].initial_stock,
    }
}

#[via_fn]
proof fn stock_before_decreases(order: OrderPlan, lines: Seq<MaterializedModel>, k: int) {
    lemma_last_on_row(lines, k, stock_key_of(lines[k].plan));
}

/// The stock row after line `k`.
pub open spec fn stock_after(order: OrderPlan, lines: Seq<MaterializedModel>, k: int) -> StockVersion
    decreases k, 1int,
{
    sold(stock_before(order, lines, k), order, lines[k].plan)
}

/// How many of the first `n` lines come from another warehouse.
pub open spec fn remote_count(order: OrderPlan, lines: Seq<MaterializedModel>, n: int) -> int
    decreases n,
{
    if n <= 0 {
        0
    } else {
        remote_count(order, lines, n - 1) + remote_flag(order, lines[n - 1].plan)
    }
}

/// The quantity of the first `n` lines.
pub open spec fn quantity_sum(lines: Seq<MaterializedModel>, n: int) -> int
    decreases n,
{
    if n <= 0 {
        0
    } else {
        quantity_sum(lines, n - 1) + lines[n - 1].plan.quantity
    }
}

/// Why line `k` cannot be written.
pub open spec fn write_fault(order: OrderPlan, lines: Seq<MaterializedModel>, k: int) -> Option<
    Violation,
> {
    let plan = lines[k].plan;
    let before = stock_before(order, lines, k);
    let quantity = restocked(before.quantity as int, plan.quantity as int);
    first(
        violates(
            !(10 <= quantity <= 100),
            stock_place(stock_key_of(plan)) + " relative update produced out-of-range quantity "@
                + signed_decimal(quantity),
        ),
        first(
            violates(
                before.order_count == i32::MAX,
                "New-Order stock order count overflow"@,
            ),
            first(
                violates(
                    before.remote_count + remote_flag(order, plan) > i32::MAX,
                    "New-Order stock remote count overflow"@,
                ),
                first(
                    violates(
                        remote_count(order, lines, k + 1) > u8::MAX,
                        "New-Order remote line count overflow"@,
                    ),
                    first(
                        violates(
                            quantity_sum(lines, k + 1) > u32::MAX,
                            "New-Order stock YTD delta overflow"@,
                        ),
                        first(
                            violates(
                                plan.item_id < 0,
                                "New-Order item id does not fit UINT32"@,
                            ),
                            first(
                                violates(
                                    !(0 <= plan.supply_warehouse <= u16::MAX),
                                    "New-Order supply warehouse does not fit UINT16"@,
                                ),
                                violates(
                                    plan.quantity > u8::MAX,
                                    "New-Order quantity does not fit UINT8"@,
                                ),
                            ),
                        ),
                    ),
                ),
            ),
        ),
    )
}

/// Why the lines from `k` on cannot be written.
pub open spec fn writes_fault(order: OrderPlan, lines: Seq<MaterializedModel>, k: int) -> Option<
    Violation,
>
    decreases lines.len() - k,
{
    if k >= lines.len() {
        None
    } else {
        first(write_fault(order, lines, k), writes_fault(order, lines, k + 1))
    }
}

/// The stock update of line `k`, by the quantity that it finds.
pub open spec fn stock_update(order: OrderPlan, lines: Seq<MaterializedModel>, k: int) -> OperationModel {
    let plan = lines[k].plan;
    operation_of(
        if stock_before(order, lines, k).quantity >= plan.quantity + 10 {
            StatementId::NewOrderUpdateStockNormal
        } else {
            StatementId::NewOrderUpdateStockWrapped
        },
        seq![
            WireModel::Int32(plan.quantity),
            WireModel::Float32(integer_pattern(plan.quantity as int)),
            WireModel::Int32(remote_flag(order, plan)),
            WireModel::Int32(plan.supply_warehouse),
            WireModel::Int32(plan.item_id),
            WireModel::Int32((plan.quantity + 10) as i32),
        ],
    )
}

/// The row of line `k`.
pub open spec fn line_insert(
    order: OrderPlan,
    order_id: i32,
    lines: Seq<MaterializedModel>,
    k: int,
) -> OperationModel {
    let plan = lines[k].plan;
    operation_of(
        StatementId::NewOrderInsertLine,
        seq![
            WireModel::Int32(order_id),
            WireModel::Int32(order.district_id),
            WireModel::Int32(order.warehouse_id),
            WireModel::Int32(plan.number as i32),
            WireModel::Int32(plan.item_id),
            WireModel::Int32(plan.supply_warehouse),
            WireModel::Char(Seq::empty()),
            WireModel::Int32(plan.quantity),
            WireModel::Float32(lines[k].amount_bits),
            WireModel::Char(lines[k].district_info),
        ],
    )
}

/// The writes of the first `n` lines.
pub open spec fn line_writes(
    order: OrderPlan,
    order_id: i32,
    lines: Seq<MaterializedModel>,
    n: int,
) -> Seq<OperationModel>
    decreases n,
{
    if n <= 0 {
        Seq::empty()
    } else {
        line_writes(order, order_id, lines, n - 1).push(stock_update(order, lines, n - 1)).push(
            line_insert(order, order_id, lines, n - 1),
        )
    }
}

/// The evidence of line `k`.
pub open spec fn recovery_line(order: OrderPlan, lines: Seq<MaterializedModel>, k: int) -> RecoveryLine {
    let plan = lines[k].plan;
    RecoveryLine {
        number: plan.number,
        item_id: plan.item_id as u32,
        supply_warehouse: plan.supply_warehouse as u16,
        quantity: plan.quantity as u8,
        amount_bits: lines[k].amount_bits,
        district_info: lines[k].district_info,
        stock_before: stock_before(order, lines, k),
        stock_after: stock_after(order, lines, k),
    }
}

/// The writes before the lines: district, order and queue.
pub open spec fn order_writes(order: OrderPlan, order_id: i32) -> Seq<OperationModel> {
    seq![
        operation_of(
            StatementId::NewOrderAdvanceDistrict,
            seq![WireModel::Int32(order.warehouse_id), WireModel::Int32(order.district_id)],
        ),
        operation_of(
            StatementId::NewOrderInsertOrder,
            seq![
                WireModel::Int32(order_id),
                WireModel::Int32(order.district_id),
                WireModel::Int32(order.warehouse_id),
                WireModel::Int32(order.customer_id),
                WireModel::Char(order.timestamp),
                WireModel::Int32(UNDELIVERED_CARRIER_ID),
                WireModel::Int32(order.lines.len() as i32),
                WireModel::Int32(order.all_local),
            ],
        ),
        operation_of(
            StatementId::NewOrderInsertQueue,
            seq![
                WireModel::Int32(order_id),
                WireModel::Int32(order.district_id),
                WireModel::Int32(order.warehouse_id),
            ],
        ),
    ]
}

/// The last operation: commit, or the abort of an expected rollback.
pub open spec fn terminal_operation(order: OrderPlan) -> OperationModel {
    operation_of(
        if order.expected_rollback {
            StatementId::Abort
        } else {
            StatementId::Commit
        },
        Seq::empty(),
    )
}

/// Why the second batch cannot be built.
pub open spec fn second_batch_fault(order: OrderPlan, read: ReadOrder) -> Option<Violation> {
    first(
        violates(
            order.lines.len() > i32::MAX,
            "New-Order line count does not fit INT32"@,
        ),
        writes_fault(order, read.lines, 0),
    )
}

/// The second batch.
pub open spec fn second_batch(order: OrderPlan, read: ReadOrder) -> StageTwoModel {
    let n = read.lines.len() as int;
    StageTwoModel {
        operations: (order_writes(order, read.order_id) + line_writes(
            order,
            read.order_id,
            read.lines,
            n,
        )).push(terminal_operation(order)),
        stock_after_results: Seq::empty(),
        remote_line_count: remote_count(order, read.lines, n) as u8,
        stock_ytd_delta: quantity_sum(read.lines, n) as u32,
        recovery_lines: Seq::new(
            read.lines.len(),
            |k: int| recovery_line(order, read.lines, k),
        ),
    }
}

/// Quantities for which the stock arithmetic stays in range.
pub open spec fn quantities_fit(lines: Seq<MaterializedModel>) -> bool {
    forall|k: int|
        0 <= k < lines.len() ==> 0 <= (#[trigger] lines[k]).plan.quantity <= i32::MAX - 10
            && lines[k].initial_stock.quantity >= 0
}

/// The second batch of an order ends its transaction: with a commit, or with an
/// abort where a rollback is expected, and with nothing else anywhere.
pub proof fn law_second_batch_ends_once(order: OrderPlan, read: ReadOrder)
    ensures
        second_batch(order, read).operations.last() == terminal_operation(order),
        forall|i: int|
            0 <= i < second_batch(order, read).operations.len() - 1 ==> (#[trigger] second_batch(
                order,
                read,
            ).operations[i]).statement_id != wire_number(StatementId::Commit)
                && second_batch(order, read).operations[i].statement_id != wire_number(
                StatementId::Abort,
            ),
{
    let head = order_writes(order, read.order_id);
    let n = read.lines.len() as int;
    let writes = line_writes(order, read.order_id, read.lines, n);
    lemma_writes_do_not_end(order, read.order_id, read.lines, n);
    assert forall|i: int| 0 <= i < second_batch(order, read).operations.len() - 1 implies (
    #[trigger] second_batch(order, read).operations[i]).statement_id != wire_number(
        StatementId::Commit,
    ) && second_batch(order, read).operations[i].statement_id != wire_number(
        StatementId::Abort,
    ) by {
        let operations = second_batch(order, read).operations;
        if i < 3 {
            assert(operations[i] == head[i]);
        } else {
            assert(operations[i] == writes[i - 3]);
        }
    }
}

proof fn lemma_writes_do_not_end(
    order: OrderPlan,
    order_id: i32,
    lines: Seq<MaterializedModel>,
    n: int,
)
    requires
        0 <= n,
    ensures
        forall|i: int|
            0 <= i < line_writes(order, order_id, lines, n).len() ==> (#[trigger] line_writes(
                order,
                order_id,
                lines,
                n,
            )[i]).statement_id != wire_number(StatementId::Commit) && line_writes(
                order,
                order_id,
                lines,
                n,
            )[i].statement_id != wire_number(StatementId::Abort),
    decreases n,
{
    if n > 0 {
        lemma_writes_do_not_end(order, order_id, lines, n - 1);
        let before = line_writes(order, order_id, lines, n - 1);
        let all = line_writes(order, order_id, lines, n);
        assert forall|i: int| 0 <= i < all.len() implies (#[trigger] all[i]).statement_id
            != wire_number(StatementId::Commit) && all[i].statement_id != wire_number(
            StatementId::Abort,
        ) by {
            if i < before.len() {
                assert(all[i] == before[i]);
            } else if i == before.len() {
                assert(all[i] == stock_update(order, lines, n - 1));
            } else {
                assert(all[i] == line_insert(order, order_id, lines, n - 1));
            }
        }
    }
}

fn add_ytd(bits: u32, quantity: i32) -> (r: u32)
    ensures
        r == ytd_with(bits, quantity),
{
    if !finite(bits) {
        return bits;
    }
    match sum_bits(bits, integer_bits(quantity)) {
        Some(total) => total,
        None => INFINITY_BITS,
    }
}

/// The stock row before line `k`, from the evidence of the lines before it.
fn current_stock(
    lines: &Vec<MaterializedLine>,
    recovery: &Vec<RecoveryNewOrderLineEvidence>,
    k: usize,
    Ghost(order): Ghost<OrderPlan>,
) -> (r: StockVersion)
    requires
        k < lines@.len(),
        recovery@.len() == k,
        forall|j: int|
            0 <= j < k ==> (#[trigger] recovery@[j]).stock_after == stock_after(
                order,
                line_models(lines@),
                j,
            ),
    ensures
        r == stock_before(order, line_models(lines@), k as int),
{
    let ghost models = line_models(lines@);
    let plan = lines[k].plan;
    let ghost key = stock_key_of(plan);
    let mut j: usize = k;
    while j > 0
        invariant
            j <= k < lines@.len(),
            recovery@.len() == k,
            models == line_models(lines@),
            plan == models[k as int].plan,
            key == stock_key_of(plan),
            last_on_row(models, k as int, key) == last_on_row(models, j as int, key),
            forall|m: int|
                0 <= m < k ==> (#[trigger] recovery@[m]).stock_after == stock_after(
                    order,
                    models,
                    m,
                ),
        decreases j,
    {
        let other = lines[j - 1].plan;
        assert(models[j - 1].plan == other);
        if other.supply_warehouse == plan.supply_warehouse && other.item_id == plan.item_id {
            assert(recovery@[j - 1].stock_after == stock_after(order, models, j - 1));
            return recovery[j - 1].stock_after;
        }
        j = j - 1;
    }
    lines[k].initial_stock
}

/// The stock row after a line, once it is checked.
fn sell(before: StockVersion, plan: LinePlan, remote: i32) -> (r: SemanticResult<StockVersion>)
    requires
        0 <= plan.quantity <= i32::MAX - 10,
        before.quantity >= 0,
        0 <= remote <= 1,
    ensures
        violated(r) == first(
            violates(
                !(10 <= restocked(before.quantity as int, plan.quantity as int) <= 100),
                stock_place(stock_key_of(plan))
                    + " relative update produced out-of-range quantity "@ + signed_decimal(
                    restocked(before.quantity as int, plan.quantity as int),
                ),
            ),
            first(
                violates(
                    before.order_count == i32::MAX,
                    "New-Order stock order count overflow"@,
                ),
                violates(
                    before.remote_count + remote > i32::MAX,
                    "New-Order stock remote count overflow"@,
                ),
            ),
        ),
        r matches Ok(after) ==> after == (StockVersion {
            quantity: restocked(before.quantity as int, plan.quantity as int) as i32,
            ytd_bits: ytd_with(before.ytd_bits, plan.quantity),
            order_count: (before.order_count + 1) as i32,
            remote_count: (before.remote_count + remote) as i32,
        }),
{
    let quantity: i32 = if before.quantity >= plan.quantity + 10 {
        before.quantity - plan.quantity
    } else {
        before.quantity - plan.quantity + 91
    };
    if quantity < MIN_STOCK_QUANTITY || quantity > MAX_STOCK_QUANTITY {
        return Err(
            SemanticViolation::of(
                join3(
                    describe_stock_place(plan.supply_warehouse, plan.item_id).as_str(),
                    " relative update produced out-of-range quantity ",
                    int_text(quantity).as_str(),
                ),
            ),
        );
    }
    let order_count: i32 = match before.order_count.checked_add(1) {
        Some(count) => count,
        None => {
            return Err(SemanticViolation::new("New-Order stock order count overflow"));
        },
    };
    let remote_count: i32 = match before.remote_count.checked_add(remote) {
        Some(count) => count,
        None => {
            return Err(SemanticViolation::new("New-Order stock remote count overflow"));
        },
    };
    Ok(
        StockVersion {
            quantity,
            ytd_bits: add_ytd(before.ytd_bits, plan.quantity),
            order_count,
            remote_count,
        },
    )
}

fn order_operations(input: &ValidatedInput, order_id: i32, line_count: i32) -> (r: Vec<Operation>)
    requires
        line_count == input@.lines.len(),
    ensures
        operation_models(r@) == order_writes(input@, order_id),
{
    let mut operations: Vec<Operation> = Vec::new();
    operations.push(
        operation(
            StatementId::NewOrderAdvanceDistrict,
            int_pair(input.warehouse_id, input.district_id),
        ),
    );
    let parameters = vec![
        WireValue::Int32(order_id),
        WireValue::Int32(input.district_id),
        WireValue::Int32(input.warehouse_id),
        WireValue::Int32(input.customer_id),
        WireValue::Char(copy_bytes(input.timestamp.as_slice())),
        WireValue::Int32(UNDELIVERED_CARRIER_ID),
        WireValue::Int32(line_count),
        WireValue::Int32(input.all_local),
    ];
    assert(row_model(parameters@) =~= order_writes(input@, order_id)[1].parameters);
    operations.push(operation(StatementId::NewOrderInsertOrder, parameters));
    operations.push(
        operation(
            StatementId::NewOrderInsertQueue,
            int_triple(order_id, input.district_id, input.warehouse_id),
        ),
    );
    assert(operation_models(operations@) =~= order_writes(input@, order_id));
    operations
}

fn update_operation(plan: LinePlan, remote: i32, normal: bool) -> (r: Operation)
    requires
        plan.quantity <= i32::MAX - 10,
    ensures
        r@ == operation_of(
            if normal {
                StatementId::NewOrderUpdateStockNormal
            } else {
                StatementId::NewOrderUpdateStockWrapped
            },
            seq![
                WireModel::Int32(plan.quantity),
                WireModel::Float32(integer_pattern(plan.quantity as int)),
                WireModel::Int32(remote),
                WireModel::Int32(plan.supply_warehouse),
                WireModel::Int32(plan.item_id),
                WireModel::Int32((plan.quantity + 10) as i32),
            ],
        ),
{
    let parameters = vec![
        WireValue::Int32(plan.quantity),
        WireValue::Float32(integer_bits(plan.quantity)),
        WireValue::Int32(remote),
        WireValue::Int32(plan.supply_warehouse),
        WireValue::Int32(plan.item_id),
        WireValue::Int32(plan.quantity + 10),
    ];
    assert(row_model(parameters@) =~= seq![
        WireModel::Int32(plan.quantity),
        WireModel::Float32(integer_pattern(plan.quantity as int)),
        WireModel::Int32(remote),
        WireModel::Int32(plan.supply_warehouse),
        WireModel::Int32(plan.item_id),
        WireModel::Int32((plan.quantity + 10) as i32),
    ]);
    operation(
        if normal {
            StatementId::NewOrderUpdateStockNormal
        } else {
            StatementId::NewOrderUpdateStockWrapped
        },
        parameters,
    )
}

fn insert_operation(input: &ValidatedInput, order_id: i32, lines: &Vec<MaterializedLine>, k: usize) -> (r:
    Operation)
    requires
        k < lines@.len(),
    ensures
        r@ == line_insert(input@, order_id, line_models(lines@), k as int),
{
    let line = &lines[k];
    let parameters = vec![
        WireValue::Int32(order_id),
        WireValue::Int32(input.district_id),
        WireValue::Int32(input.warehouse_id),
        WireValue::Int32(line.plan.number as i32),
        WireValue::Int32(line.plan.item_id),
        WireValue::Int32(line.plan.supply_warehouse),
        WireValue::Char(copy_bytes(UNDELIVERED_DATE.as_bytes())),
        WireValue::Int32(line.plan.quantity),
        WireValue::Float32(line.amount_bits),
        WireValue::Char(copy_bytes(line.district_info.as_slice())),
    ];
    let ghost goal = line_insert(input@, order_id, line_models(lines@), k as int);
    assert(parameters@[6]@ == WireModel::Char(Seq::empty())) by {
        reveal_strlit("");
        assert(UNDELIVERED_DATE@ == ""@);
        assert(parameters@[6]->Char_0@ =~= Seq::empty());
    }
    assert(row_model(parameters@) =~= goal.parameters);
    operation(StatementId::NewOrderInsertLine, parameters)
}

fn check_narrow(plan: LinePlan) -> (r: SemanticResult<()>)
    requires
        plan.quantity >= 0,
    ensures
        violated(r) == first(
            violates(plan.item_id < 0, "New-Order item id does not fit UINT32"@),
            first(
                violates(
                    !(0 <= plan.supply_warehouse <= u16::MAX),
                    "New-Order supply warehouse does not fit UINT16"@,
                ),
                violates(plan.quantity > u8::MAX, "New-Order quantity does not fit UINT8"@),
            ),
        ),
{
    if plan.item_id < 0 {
        return Err(SemanticViolation::new("New-Order item id does not fit UINT32"));
    }
    if plan.supply_warehouse < 0 || plan.supply_warehouse > 65_535 {
        return Err(SemanticViolation::new("New-Order supply warehouse does not fit UINT16"));
    }
    if plan.quantity > 255 {
        return Err(SemanticViolation::new("New-Order quantity does not fit UINT8"));
    }
    Ok(())
}

/// A line that was written leaves a stock of ten to a hundred.
proof fn lemma_stock_before_fits(order: OrderPlan, lines: Seq<MaterializedModel>, k: int)
    requires
        0 <= k < lines.len(),
        quantities_fit(lines),
        forall|j: int| 0 <= j < k ==> write_fault(order, lines, j) is None,
    ensures
        stock_before(order, lines, k).quantity >= 0,
{
    let key = stock_key_of(lines[k].plan);
    lemma_last_on_row(lines, k, key);
    if let Some(j) = last_on_row(lines, k, key) {
        assert(write_fault(order, lines, j) is None);
    }
}

/// Builds the second batch.
pub fn build_stage_two(input: &ValidatedInput, materialized: &MaterializedOrder) -> (r:
    SemanticResult<StageTwoPlan>)
    requires
        quantities_fit(materialized@.lines),
    ensures
        violated(r) == second_batch_fault(input@, materialized@),
        r matches Ok(plan) ==> plan@ == second_batch(input@, materialized@),
{
    if input.lines.len() > 0x7FFF_FFFF {
        return Err(SemanticViolation::new("New-Order line count does not fit INT32"));
    }
    let ghost order = input@;
    let ghost read = materialized@;
    let ghost lines = read.lines;
    let ghost head = order_writes(order, read.order_id);
    let order_id: i32 = materialized.order_id;
    let mut operations = order_operations(input, order_id, input.lines.len() as i32);
    let mut remote_line_count: u8 = 0;
    let mut stock_ytd_delta: u32 = 0;
    let mut recovery_lines: Vec<RecoveryNewOrderLineEvidence> = Vec::new();
    let n: usize = materialized.lines.len();
    let mut k: usize = 0;
    assert(operation_models(operations@) =~= head + line_writes(order, order_id, lines, 0));
    while k < n
        invariant
            k <= n,
            n == lines.len(),
            order == input@,
            read == materialized@,
            lines == read.lines,
            order_id == read.order_id,
            head == order_writes(order, order_id),
            quantities_fit(lines),
            order.lines.len() <= i32::MAX,
            second_batch_fault(order, read) == writes_fault(order, lines, k as int),
            operation_models(operations@) == head + line_writes(
                order,
                order_id,
                lines,
                k as int,
            ),
            remote_line_count == remote_count(order, lines, k as int),
            stock_ytd_delta == quantity_sum(lines, k as int),
            recovery_models(recovery_lines@) =~= Seq::new(
                k as nat,
                |m: int| recovery_line(order, lines, m),
            ),
            recovery_lines@.len() == k,
            forall|j: int| 0 <= j < k ==> write_fault(order, lines, j) is None,
        decreases n - k,
    {
        let plan = materialized.lines[k].plan;
        assert(lines[k as int].plan == plan);
        proof {
            lemma_stock_before_fits(order, lines, k as int);
            assert forall|j: int| 0 <= j < k implies (#[trigger] recovery_lines@[j]).stock_after
                == stock_after(order, lines, j) by {
                assert(recovery_models(recovery_lines@)[j] == recovery_line(order, lines, j));
            }
        }
        let before = current_stock(&materialized.lines, &recovery_lines, k, Ghost(order));
        let remote: i32 = if plan.supply_warehouse != input.warehouse_id {
            1
        } else {
            0
        };
        let after = sell(before, plan, remote)?;
        remote_line_count = match remote_line_count.checked_add(remote as u8) {
            Some(count) => count,
            None => {
                return Err(SemanticViolation::new("New-Order remote line count overflow"));
            },
        };
        stock_ytd_delta = match stock_ytd_delta.checked_add(plan.quantity as u32) {
            Some(total) => total,
            None => {
                return Err(SemanticViolation::new("New-Order stock YTD delta overflow"));
            },
        };
        check_narrow(plan)?;
        let update = update_operation(plan, remote, before.quantity >= plan.quantity + 10);
        let insert = insert_operation(input, order_id, &materialized.lines, k);
        let ghost held = operations@;
        operations.push(update);
        let ghost middle = operations@;
        operations.push(insert);
        let evidence = RecoveryNewOrderLineEvidence {
            number: plan.number,
            item_id: plan.item_id as u32,
            supply_warehouse: plan.supply_warehouse as u16,
            quantity: plan.quantity as u8,
            amount_bits: materialized.lines[k].amount_bits,
            district_info: copy_bytes(materialized.lines[k].district_info.as_slice()),
            stock_before: before,
            stock_after: after,
        };
        let ghost kept = recovery_lines@;
        recovery_lines.push(evidence);
        proof {
            lemma_operations_pushed(held, middle, update);
            lemma_operations_pushed(middle, operations@, insert);
            assert(update@ == stock_update(order, lines, k as int));
            assert(operation_models(operations@) =~= head + line_writes(
                order,
                order_id,
                lines,
                k as int + 1,
            ));
            assert(evidence@ =~= recovery_line(order, lines, k as int));
            assert(recovery_models(recovery_lines@) =~= recovery_models(kept).push(evidence@));
        }
        k = k + 1;
    }
    let terminal = bare_operation(
        if input.expected_rollback {
            StatementId::Abort
        } else {
            StatementId::Commit
        },
    );
    let ghost held = operations@;
    operations.push(terminal);
    proof {
        lemma_operations_pushed(held, operations@, terminal);
    }
    let plan = StageTwoPlan {
        operations,
        stock_after_results: Vec::new(),
        remote_line_count,
        stock_ytd_delta,
        recovery_lines,
    };
    assert(plan@.recovery_lines =~= second_batch(order, read).recovery_lines);
    assert(plan@ =~= second_batch(order, read));
    Ok(plan)
}

/// A stock version in a message.
pub open spec fn stock_version_text(v: StockVersion) -> Seq<char> {
    "StockVersion { quantity: "@ + signed_decimal(v.quantity as int) + ", ytd_bits: "@ + decimal(
        v.ytd_bits as nat,
    ) + ", order_count: "@ + signed_decimal(v.order_count as int) + ", remote_count: "@
        + signed_decimal(v.remote_count as int) + " }"@
}

fn describe_version(v: StockVersion) -> (r: String)
    ensures
        r@ == stock_version_text(v),
{
    let head = join4(
        "StockVersion { quantity: ",
        int_text(v.quantity).as_str(),
        ", ytd_bits: ",
        unsigned_text(v.ytd_bits as u64).as_str(),
    );
    join6(
        head.as_str(),
        ", order_count: ",
        int_text(v.order_count).as_str(),
        ", remote_count: ",
        int_text(v.remote_count).as_str(),
        " }",
    )
}

/// The context of a read-back.
pub open spec fn readback_context(line: RecoveryLine) -> Seq<char> {
    "New-Order stock readback ("@ + decimal(line.supply_warehouse as nat) + ", "@ + decimal(
        line.item_id as nat,
    ) + ") after line "@ + decimal(line.number as nat)
}

/// Why the read-back of a line is refused.
pub open spec fn readback_fault(
    results: Seq<Option<Seq<Seq<WireModel>>>>,
    index: int,
    line: RecoveryLine,
) -> Option<Violation> {
    let c = readback_context(line);
    let row = single_row_of(results, index);
    first(
        single_row_fault(results, index),
        first(
            columns_fault(row, 15, c),
            first(
                int32_fault(row, 0, c),
                first(
                    f32_fault(row, 1, c),
                    first(
                        int32_fault(row, 2, c),
                        first(
                            int32_fault(row, 3, c),
                            violates(
                                version_at(row) != line.stock_after,
                                c + " was "@ + stock_version_text(version_at(row))
                                    + ", expected exact relative-update endpoint "@
                                    + stock_version_text(line.stock_after),
                            ),
                        ),
                    ),
                ),
            ),
        ),
    )
}

/// Why the read-backs from `i` on are refused.
pub open spec fn readbacks_fault(
    results: Seq<Option<Seq<Seq<WireModel>>>>,
    plan: StageTwoModel,
    i: int,
) -> Option<Violation>
    decreases plan.stock_after_results.len() - i,
{
    if i >= plan.stock_after_results.len() {
        None
    } else {
        first(
            readback_fault(results, plan.stock_after_results[i] as int, plan.recovery_lines[i]),
            readbacks_fault(results, plan, i + 1),
        )
    }
}

/// Why the results of the second batch are refused.
pub open spec fn second_results_fault(
    results: Seq<Option<Seq<Seq<WireModel>>>>,
    plan: StageTwoModel,
) -> Option<Violation> {
    if plan.stock_after_results.len() == 0 {
        None
    } else {
        first(
            violates(
                plan.stock_after_results.len() != plan.recovery_lines.len(),
                "New-Order stock readback map differs from recovery line count"@,
            ),
            readbacks_fault(results, plan, 0),
        )
    }
}

fn check_readback(results: &BatchResults, index: usize, line: &RecoveryNewOrderLineEvidence) -> (r:
    SemanticResult<()>)
    ensures
        violated(r) == readback_fault(results@, index as int, line@),
{
    let context = join6(
        "New-Order stock readback (",
        unsigned_text(line.supply_warehouse as u64).as_str(),
        ", ",
        unsigned_text(line.item_id as u64).as_str(),
        ") after line ",
        unsigned_text(line.number as u64).as_str(),
    );
    let c = context.as_str();
    let row = results.single_row(index)?;
    require_columns(row, 15, c)?;
    let quantity: i32 = row_int32(row, 0, c)?;
    let ytd_bits: u32 = row_f32_bits(row, 1, c)?;
    let order_count: i32 = row_int32(row, 2, c)?;
    let remote_count: i32 = row_int32(row, 3, c)?;
    let actual = StockVersion { quantity, ytd_bits, order_count, remote_count };
    if actual != line.stock_after {
        return Err(
            SemanticViolation::of(
                join5(
                    c,
                    " was ",
                    describe_version(actual).as_str(),
                    ", expected exact relative-update endpoint ",
                    describe_version(line.stock_after).as_str(),
                ),
            ),
        );
    }
    Ok(())
}

/// Checks the read-backs of the second batch, where it has any.
pub fn validate_stage_two_stock_readbacks(results: &BatchResults, plan: &StageTwoPlan) -> (r:
    SemanticResult<()>)
    ensures
        violated(r) == second_results_fault(results@, plan@),
{
    if plan.stock_after_results.len() == 0 {
        return Ok(());
    }
    if plan.stock_after_results.len() != plan.recovery_lines.len() {
        return Err(
            SemanticViolation::new(
                "New-Order stock readback map differs from recovery line count",
            ),
        );
    }
    let mut i: usize = 0;
    while i < plan.stock_after_results.len()
        invariant
            i <= plan.stock_after_results@.len() == plan.recovery_lines@.len(),
            second_results_fault(results@, plan@) == readbacks_fault(results@, plan@, i as int),
        decreases plan.stock_after_results@.len() - i,
    {
        check_readback(results, plan.stock_after_results[i], &plan.recovery_lines[i])?;
        i = i + 1;
    }
    Ok(())
}

/// The evidence of a committed order.
pub open spec fn is_order_evidence(
    evidence: NewOrderEvidence,
    order: OrderPlan,
    read: ReadOrder,
    plan: StageTwoModel,
) -> bool {
    &&& evidence.warehouse_id == order.warehouse_id
    &&& evidence.district_id == order.district_id
    &&& evidence.order_id == read.order_id
    &&& evidence.line_count == order.lines.len()
    &&& evidence.remote_line_count == plan.remote_line_count
    &&& evidence.stock_ytd_delta == plan.stock_ytd_delta
    &&& evidence.line_amount_bits@ == Seq::new(
        read.lines.len(),
        |i: int| read.lines[i].amount_bits,
    )
    &&& evidence.entry_timestamp@ == order.timestamp
    &&& recovery_models(evidence.recovery_lines@) == plan.recovery_lines
}

/// What a NewOrder whose second batch went through has done.
pub fn order_outcome(
    input: ValidatedInput,
    materialized: &MaterializedOrder,
    plan: StageTwoPlan,
) -> (r: RankedTransactionOutcome)
    requires
        0 <= input.warehouse_id <= 65_535,
        0 <= input.district_id <= 255,
        input@.lines.len() <= 255,
    ensures
        input.expected_rollback ==> r is ExpectedRollback,
        !input.expected_rollback ==> (r matches RankedTransactionOutcome::Committed(
            RankedCommit::NewOrder(evidence),
        ) && is_order_evidence(evidence, input@, materialized@, plan@)),
{
    if input.expected_rollback {
        return RankedTransactionOutcome::ExpectedRollback;
    }
    let ghost amounts = Seq::new(
        materialized@.lines.len(),
        |i: int| materialized@.lines[i].amount_bits,
    );
    let mut line_amount_bits: Vec<u32> = Vec::new();
    let mut i: usize = 0;
    while i < materialized.lines.len()
        invariant
            i <= materialized.lines@.len(),
            amounts == Seq::new(
                materialized@.lines.len(),
                |i: int| materialized@.lines[i].amount_bits,
            ),
            line_amount_bits@ =~= amounts.subrange(0, i as int),
        decreases materialized.lines@.len() - i,
    {
        assert(materialized@.lines[i as int] == materialized.lines@[i as int]@);
        line_amount_bits.push(materialized.lines[i].amount_bits);
        i = i + 1;
    }
    assert(line_amount_bits@ =~= amounts);
    RankedTransactionOutcome::Committed(
        RankedCommit::NewOrder(
            NewOrderEvidence {
                warehouse_id: input.warehouse_id as u16,
                district_id: input.district_id as u8,
                order_id: materialized.order_id,
                line_count: input.lines.len() as u8,
                remote_line_count: plan.remote_line_count,
                stock_ytd_delta: plan.stock_ytd_delta,
                line_amount_bits,
                entry_timestamp: input.timestamp,
                recovery_lines: plan.recovery_lines,
            },
        ),
    )
}

} // verus!
