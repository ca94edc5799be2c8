//! NewOrder: input and first batch.
//!
//! A NewOrder takes two batches.  The first locks the stock rows in a fixed
//! order and reads every item and stock row; the second only writes and ends
//! in a commit, or in the abort that an invalid item asks for.
use vstd::prelude::*;
use vstd::utf8::encode_utf8;

use crate::checks::first;
use crate::profile::{ITEM_COUNT, OFFICIAL_WAREHOUSES, TransactionKind};
use crate::ranking::common::{
    SemanticResult, SemanticViolation, Violation, operation, operation_of, violated, violates,
};
use crate::ranking::row_checks::{
    copy_bytes, describe_flag, describe_kind, flag_text, is_timestamp, kind_name, timestamp_fits,
};
use crate::ranking::statement_id::StatementId;
use crate::text::{decimal, join2, join3, join4, join5, join6, unsigned_text};
use crate::wire::{Operation, OperationModel, WireModel, WireValue, operation_models, row_model};
use crate::workload::{
    CUSTOMERS_PER_DISTRICT, MAX_ITEM_QUANTITY, MAX_ORDER_LINES, MIN_ITEM_QUANTITY,
    MIN_ORDER_LINES, NewOrderInput, OrderLineInput, RoutedTransaction,
};

verus! {

/// One order line as it is sent.
#[derive(Clone, Copy, Debug, PartialEq, Eq, Structural)]
pub struct LinePlan {
    pub number: u8,
    pub item_id: i32,
    pub supply_warehouse: i32,
    pub quantity: i32,
    pub invalid_item: bool,
}

/// The stock row of a line: warehouse and item.
pub open spec fn stock_key_of(line: LinePlan) -> (i32, i32) {
    (line.supply_warehouse, line.item_id)
}

/// A checked input.
#[derive(Clone, Debug, PartialEq, Eq)]
pub struct ValidatedInput {
    pub warehouse_id: i32,
    pub district_id: i32,
    pub customer_id: i32,
    pub timestamp: Vec<u8>,
    pub all_local: i32,
    pub expected_rollback: bool,
    pub lines: Vec<LinePlan>,
}

/// The content of a [`ValidatedInput`].
#[verifier::ext_equal]
pub struct OrderPlan {
    pub warehouse_id: i32,
    pub district_id: i32,
    pub customer_id: i32,
    pub timestamp: Seq<u8>,
    pub all_local: i32,
    pub expected_rollback: bool,
    pub lines: Seq<LinePlan>,
}

impl View for ValidatedInput {
    type V = OrderPlan;

    open spec fn view(&self) -> OrderPlan {
        OrderPlan {
            warehouse_id: self.warehouse_id,
            district_id: self.district_id,
            customer_id: self.customer_id,
            timestamp: self.timestamp@,
            all_local: self.all_local,
            expected_rollback: self.expected_rollback,
            lines: self.lines@,
        }
    }
}

/// Why the route of an order is refused.
pub open spec fn order_route_fault(route: RoutedTransaction) -> Option<Violation> {
    first(
        violates(
            route.kind != TransactionKind::NewOrder,
            "New-Order runner received "@ + kind_name(route.kind) + " route"@,
        ),
        first(
            violates(
                !(1 <= route.home_warehouse <= 50),
                "New-Order warehouse "@ + decimal(route.home_warehouse as nat)
                    + " is outside 1..=50"@,
            ),
            violates(
                !(1 <= route.home_district <= 10),
                "New-Order district "@ + decimal(route.home_district as nat)
                    + " is outside 1..=10"@,
            ),
        ),
    )
}

/// Why line `i` of an order is refused.
pub open spec fn order_line_fault(lines: Seq<OrderLineInput>, i: int) -> Option<Violation> {
    let line = lines[i];
    let named = "New-Order line "@ + decimal(line.number as nat);
    first(
        violates(
            line.number != i + 1,
            "New-Order line "@ + decimal((i + 1) as nat) + " has number "@ + decimal(
                line.number as nat,
            ) + ", expected "@ + decimal((i + 1) as nat),
        ),
        first(
            violates(
                !(1 <= line.supply_warehouse <= 50),
                named + " supply warehouse "@ + decimal(line.supply_warehouse as nat)
                    + " is outside 1..=50"@,
            ),
            first(
                violates(
                    !(1 <= line.quantity <= 10),
                    named + " quantity "@ + decimal(line.quantity as nat) + " is outside 1..=10"@,
                ),
                violates(
                    !line.invalid() && !(1 <= line.item_id <= 100_000),
                    named + " item "@ + decimal(line.item_id as nat) + " is outside 1..=100000"@,
                ),
            ),
        ),
    )
}

/// Why the lines from `i` on are refused.
pub open spec fn frozen_lines_fault(lines: Seq<OrderLineInput>, i: int) -> Option<Violation>
    decreases lines.len() - i,
{
    if i >= lines.len() {
        None
    } else {
        first(order_line_fault(lines, i), frozen_lines_fault(lines, i + 1))
    }
}

/// The positions of invalid items among the first `n` lines.
pub open spec fn invalid_positions(lines: Seq<OrderLineInput>, n: int) -> Seq<nat>
    decreases n,
{
    if n <= 0 {
        Seq::empty()
    } else if lines[n - 1].invalid() {
        invalid_positions(lines, n - 1).push((n - 1) as nat)
    } else {
        invalid_positions(lines, n - 1)
    }
}

/// The positions that an input must have.
pub open spec fn expected_positions(input: NewOrderInput) -> Seq<nat> {
    if input.expected_rollback {
        seq![(input.lines@.len() - 1) as nat]
    } else {
        Seq::empty()
    }
}

/// The first `n` numbers of a list, with commas.
pub open spec fn listed_text(numbers: Seq<nat>, n: int) -> Seq<char>
    decreases n,
{
    if n <= 0 {
        Seq::empty()
    } else if n == 1 {
        decimal(numbers[0])
    } else {
        listed_text(numbers, n - 1) + ", "@ + decimal(numbers[n - 1])
    }
}

/// A list of numbers in a message.
pub open spec fn positions_text(numbers: Seq<nat>) -> Seq<char> {
    "["@ + listed_text(numbers, numbers.len() as int) + "]"@
}

/// Whether every line comes from the home warehouse.
pub open spec fn lines_local(lines: Seq<OrderLineInput>, home: u16) -> bool {
    forall|i: int| 0 <= i < lines.len() ==> (#[trigger] lines[i]).supply_warehouse == home
}

/// Why an order is refused before anything is sent.
pub open spec fn order_input_fault(
    route: RoutedTransaction,
    input: NewOrderInput,
    timestamp: Seq<u8>,
) -> Option<Violation> {
    let lines = input.lines@;
    let n = lines.len();
    first(
        order_route_fault(route),
        first(
            violates(
                !(1 <= input.customer_id <= 3_000),
                "New-Order customer "@ + decimal(input.customer_id as nat)
                    + " is outside 1..=3000"@,
            ),
            first(
                violates(
                    !timestamp_fits(timestamp),
                    "New-Order timestamp must be a nonempty, NUL-free CHAR(30) value"@,
                ),
                first(
                    violates(
                        !(5 <= n <= 15),
                        "New-Order line count "@ + decimal(n) + " is outside 5..=15"@,
                    ),
                    first(
                        frozen_lines_fault(lines, 0),
                        first(
                            violates(
                                invalid_positions(lines, n as int) != expected_positions(input),
                                "New-Order invalid item positions "@ + positions_text(
                                    invalid_positions(lines, n as int),
                                ) + " do not match expected rollback "@ + flag_text(
                                    input.expected_rollback,
                                ),
                            ),
                            violates(
                                input.all_local != lines_local(lines, route.home_warehouse),
                                "New-Order all_local="@ + flag_text(input.all_local)
                                    + " does not match line routing ("@ + flag_text(
                                    lines_local(lines, route.home_warehouse),
                                ) + ")"@,
                            ),
                        ),
                    ),
                ),
            ),
        ),
    )
}

/// A line as it is sent.
pub open spec fn planned_line(line: OrderLineInput) -> LinePlan {
    LinePlan {
        number: line.number,
        item_id: line.item_id as i32,
        supply_warehouse: line.supply_warehouse as i32,
        quantity: line.quantity as i32,
        invalid_item: line.invalid(),
    }
}

/// An order as it is sent.
pub open spec fn planned_order(
    route: RoutedTransaction,
    input: NewOrderInput,
    timestamp: Seq<u8>,
) -> OrderPlan {
    OrderPlan {
        warehouse_id: route.home_warehouse as i32,
        district_id: route.home_district as i32,
        customer_id: input.customer_id as i32,
        timestamp,
        all_local: if input.all_local {
            1
        } else {
            0
        },
        expected_rollback: input.expected_rollback,
        lines: Seq::new(input.lines@.len(), |i: int| planned_line(input.lines@[i])),
    }
}

fn check_route(route: &RoutedTransaction) -> (r: SemanticResult<()>)
    ensures
        violated(r) == order_route_fault(*route),
{
    if route.kind != TransactionKind::NewOrder {
        return Err(
            SemanticViolation::of(
                join3("New-Order runner received ", describe_kind(route.kind), " route"),
            ),
        );
    }
    if route.home_warehouse < 1 || route.home_warehouse > OFFICIAL_WAREHOUSES {
        return Err(
            SemanticViolation::of(
                join3(
                    "New-Order warehouse ",
                    unsigned_text(route.home_warehouse as u64).as_str(),
                    " is outside 1..=50",
                ),
            ),
        );
    }
    if route.home_district < 1 || route.home_district > 10 {
        return Err(
            SemanticViolation::of(
                join3(
                    "New-Order district ",
                    unsigned_text(route.home_district as u64).as_str(),
                    " is outside 1..=10",
                ),
            ),
        );
    }
    Ok(())
}

fn check_line(lines: &Vec<OrderLineInput>, i: usize) -> (r: SemanticResult<()>)
    requires
        i < lines@.len() <= 15,
    ensures
        violated(r) == order_line_fault(lines@, i as int),
{
    let line = &lines[i];
    if line.number as usize != i + 1 {
        return Err(
            SemanticViolation::of(
                join6(
                    "New-Order line ",
                    unsigned_text(i as u64 + 1).as_str(),
                    " has number ",
                    unsigned_text(line.number as u64).as_str(),
                    ", expected ",
                    unsigned_text(i as u64 + 1).as_str(),
                ),
            ),
        );
    }
    let named = join2("New-Order line ", unsigned_text(line.number as u64).as_str());
    if line.supply_warehouse < 1 || line.supply_warehouse > OFFICIAL_WAREHOUSES {
        return Err(
            SemanticViolation::of(
                join4(
                    named.as_str(),
                    " supply warehouse ",
                    unsigned_text(line.supply_warehouse as u64).as_str(),
                    " is outside 1..=50",
                ),
            ),
        );
    }
    if line.quantity < MIN_ITEM_QUANTITY || line.quantity > MAX_ITEM_QUANTITY {
        return Err(
            SemanticViolation::of(
                join4(
                    named.as_str(),
                    " quantity ",
                    unsigned_text(line.quantity as u64).as_str(),
                    " is outside 1..=10",
                ),
            ),
        );
    }
    if !line.is_invalid_item() && (line.item_id == 0 || line.item_id > ITEM_COUNT) {
        return Err(
            SemanticViolation::of(
                join4(
                    named.as_str(),
                    " item ",
                    unsigned_text(line.item_id as u64).as_str(),
                    " is outside 1..=100000",
                ),
            ),
        );
    }
    Ok(())
}

/// The numbers of a list of positions.
pub open spec fn as_nats(positions: Seq<u64>) -> Seq<nat> {
    Seq::new(positions.len(), |i: int| positions[i] as nat)
}

fn describe_positions(positions: &Vec<u64>) -> (r: String)
    ensures
        r@ == positions_text(as_nats(positions@)),
{
    let ghost numbers = as_nats(positions@);
    let mut text = "".to_owned();
    proof {
        reveal_strlit("");
        assert(text@ =~= listed_text(numbers, 0));
    }
    let mut i: usize = 0;
    while i < positions.len()
        invariant
            i <= positions@.len(),
            numbers == as_nats(positions@),
            text@ == listed_text(numbers, i as int),
        decreases positions@.len() - i,
    {
        if i == 0 {
            text = unsigned_text(positions[i]);
        } else {
            text = join3(text.as_str(), ", ", unsigned_text(positions[i]).as_str());
        }
        i = i + 1;
    }
    join3("[", text.as_str(), "]")
}

fn plan_line(line: &OrderLineInput) -> (r: LinePlan)
    requires
        line.item_id <= 100_001,
    ensures
        r == planned_line(*line),
{
    LinePlan {
        number: line.number,
        item_id: line.item_id as i32,
        supply_warehouse: line.supply_warehouse as i32,
        quantity: line.quantity as i32,
        invalid_item: line.is_invalid_item(),
    }
}

/// Checks an input before anything is sent.
pub fn validate_input(route: &RoutedTransaction, input: &NewOrderInput, timestamp: &str) -> (r:
    SemanticResult<ValidatedInput>)
    ensures
        violated(r) == order_input_fault(*route, *input, encode_utf8(timestamp@)),
        r matches Ok(order) ==> order@ == planned_order(*route, *input, encode_utf8(timestamp@)),
{
    check_route(route)?;
    if input.customer_id < 1 || input.customer_id > CUSTOMERS_PER_DISTRICT {
        return Err(
            SemanticViolation::of(
                join3(
                    "New-Order customer ",
                    unsigned_text(input.customer_id as u64).as_str(),
                    " is outside 1..=3000",
                ),
            ),
        );
    }
    let bytes = timestamp.as_bytes();
    if !is_timestamp(bytes) {
        return Err(
            SemanticViolation::new(
                "New-Order timestamp must be a nonempty, NUL-free CHAR(30) value",
            ),
        );
    }
    let n: usize = input.lines.len();
    if n < MIN_ORDER_LINES as usize || n > MAX_ORDER_LINES as usize {
        return Err(
            SemanticViolation::of(
                join3("New-Order line count ", unsigned_text(n as u64).as_str(), " is outside 5..=15"),
            ),
        );
    }
    let ghost goal = planned_order(*route, *input, encode_utf8(timestamp@));
    let ghost line_faults = frozen_lines_fault(input.lines@, 0);
    let ghost whole = order_input_fault(*route, *input, encode_utf8(timestamp@));
    let mut lines: Vec<LinePlan> = Vec::new();
    let mut positions: Vec<u64> = Vec::new();
    let mut local = true;
    let mut i: usize = 0;
    while i < n
        invariant
            i <= n <= 15,
            n == input.lines@.len(),
            goal == planned_order(*route, *input, encode_utf8(timestamp@)),
            line_faults == frozen_lines_fault(input.lines@, i as int),
            whole == order_input_fault(*route, *input, encode_utf8(timestamp@)),
            line_faults is Some ==> whole == line_faults,
            lines@ =~= goal.lines.subrange(0, i as int),
            as_nats(positions@) =~= invalid_positions(input.lines@, i as int),
            local == (forall|k: int|
                0 <= k < i ==> (#[trigger] input.lines@[k]).supply_warehouse
                    == route.home_warehouse),
        decreases n - i,
    {
        check_line(&input.lines, i)?;
        let line = &input.lines[i];
        let ghost before = positions@;
        if line.is_invalid_item() {
            positions.push(i as u64);
            assert(as_nats(positions@) =~= as_nats(before).push(i as nat));
        }
        if line.supply_warehouse != route.home_warehouse {
            assert(input.lines@[i as int].supply_warehouse != route.home_warehouse);
            local = false;
        }
        lines.push(plan_line(line));
        i = i + 1;
    }
    let expected = if input.expected_rollback {
        positions.len() == 1 && positions[0] == n as u64 - 1
    } else {
        positions.len() == 0
    };
    assert(expected == (invalid_positions(input.lines@, n as int) == expected_positions(*input)))
        by {
        let found = as_nats(positions@);
        let wanted = expected_positions(*input);
        if expected {
            assert(found =~= wanted);
        } else if found == wanted {
            assert(found.len() == positions@.len());
            if input.expected_rollback {
                assert(found[0] == wanted[0]);
            }
        }
    }
    if !expected {
        return Err(
            SemanticViolation::of(
                join4(
                    "New-Order invalid item positions ",
                    describe_positions(&positions).as_str(),
                    " do not match expected rollback ",
                    describe_flag(input.expected_rollback),
                ),
            ),
        );
    }
    if input.all_local != local {
        return Err(
            SemanticViolation::of(
                join5(
                    "New-Order all_local=",
                    describe_flag(input.all_local),
                    " does not match line routing (",
                    describe_flag(local),
                    ")",
                ),
            ),
        );
    }
    let order = ValidatedInput {
        warehouse_id: route.home_warehouse as i32,
        district_id: route.home_district as i32,
        customer_id: input.customer_id as i32,
        timestamp: copy_bytes(bytes),
        all_local: if local {
            1
        } else {
            0
        },
        expected_rollback: input.expected_rollback,
        lines,
    };
    assert(order@ =~= goal);
    Ok(order)
}

/// Whether one stock row comes before another.
pub open spec fn key_before(a: (i32, i32), b: (i32, i32)) -> bool {
    a.0 < b.0 || (a.0 == b.0 && a.1 < b.1)
}

/// An ascending list of keys with one more, if it is new.
pub open spec fn with_key(keys: Seq<(i32, i32)>, key: (i32, i32)) -> Seq<(i32, i32)>
    decreases keys.len(),
{
    if keys.len() == 0 {
        seq![key]
    } else if keys.last() == key {
        keys
    } else if key_before(keys.last(), key) {
        keys.push(key)
    } else {
        with_key(keys.drop_last(), key).push(keys.last())
    }
}

/// The stock rows of the first `n` lines, each once, in order.
pub open spec fn sorted_keys(lines: Seq<LinePlan>, n: int) -> Seq<(i32, i32)>
    decreases n,
{
    if n <= 0 {
        Seq::empty()
    } else {
        with_key(sorted_keys(lines, n - 1), stock_key_of(lines[n - 1]))
    }
}

/// Whether keys go up.
pub open spec fn keys_ascend(keys: Seq<(i32, i32)>) -> bool {
    forall|i: int, j: int| 0 <= i < j < keys.len() ==> key_before(keys[i], keys[j])
}

proof fn lemma_with_key(keys: Seq<(i32, i32)>, key: (i32, i32))
    requires
        keys_ascend(keys),
    ensures
        keys_ascend(with_key(keys, key)),
        forall|k: (i32, i32)| #[trigger]
            with_key(keys, key).contains(k) <==> keys.contains(k) || k == key,
        with_key(keys, key).len() <= keys.len() + 1,
    decreases keys.len(),
{
    let next = with_key(keys, key);
    if keys.len() == 0 {
        assert(next[0] == key);
    } else if keys.last() == key {
        assert(keys[keys.len() - 1] == key);
    } else if key_before(keys.last(), key) {
        assert forall|k: (i32, i32)| next.contains(k) <==> keys.contains(k) || k == key by {
            if keys.contains(k) {
                let i = choose|i: int| 0 <= i < keys.len() && keys[i] == k;
                assert(next[i] == k);
            }
            assert(next[keys.len() as int] == key);
            if next.contains(k) {
                let i = choose|i: int| 0 <= i < next.len() && next[i] == k;
                if i < keys.len() {
                    assert(keys[i] == k);
                }
            }
        }
        assert forall|i: int, j: int| 0 <= i < j < next.len() implies key_before(
            next[i],
            next[j],
        ) by {
            if j == keys.len() && i < keys.len() - 1 {
                assert(key_before(keys[i], keys[keys.len() - 1]));
            }
        }
    } else {
        let front = keys.drop_last();
        let last = keys.last();
        let grown = with_key(front, key);
        assert forall|i: int, j: int| 0 <= i < j < front.len() implies key_before(
            front[i],
            front[j],
        ) by {
            assert(key_before(keys[i], keys[j]));
        }
        lemma_with_key(front, key);
        assert(next == grown.push(last));
        assert forall|k: (i32, i32)| next.contains(k) <==> keys.contains(k) || k == key by {
            if keys.contains(k) {
                let i = choose|i: int| 0 <= i < keys.len() && keys[i] == k;
                if i < front.len() {
                    assert(front[i] == k);
                    assert(grown.contains(k));
                    let m = choose|m: int| 0 <= m < grown.len() && grown[m] == k;
                    assert(next[m] == k);
                } else {
                    assert(next[grown.len() as int] == k);
                }
            }
            if k == key {
                assert(grown.contains(k));
                let m = choose|m: int| 0 <= m < grown.len() && grown[m] == k;
                assert(next[m] == k);
            }
            if next.contains(k) {
                let m = choose|m: int| 0 <= m < next.len() && next[m] == k;
                if m < grown.len() {
                    assert(grown[m] == k);
                    assert(grown.contains(k));
                    if front.contains(k) {
                        let i = choose|i: int| 0 <= i < front.len() && front[i] == k;
                        assert(keys[i] == k);
                    }
                } else {
                    assert(keys[keys.len() - 1] == k);
                }
            }
        }
        assert forall|i: int, j: int| 0 <= i < j < next.len() implies key_before(
            next[i],
            next[j],
        ) by {
            if j < grown.len() {
                assert(key_before(grown[i], grown[j]));
            } else {
                assert(grown.contains(grown[i]));
                if front.contains(grown[i]) {
                    let m = choose|m: int| 0 <= m < front.len() && front[m] == grown[i];
                    assert(key_before(keys[m], keys[keys.len() - 1]));
                }
            }
        }
    }
}

/// The locks of an order are its stock rows, each once, in ascending order.
pub proof fn law_locks_are_sorted_and_unique(lines: Seq<LinePlan>, n: int)
    requires
        0 <= n <= lines.len(),
    ensures
        keys_ascend(sorted_keys(lines, n)),
        forall|k: (i32, i32)| #[trigger]
            sorted_keys(lines, n).contains(k) <==> exists|i: int|
                0 <= i < n && stock_key_of(#[trigger] lines[i]) == k,
        sorted_keys(lines, n).len() <= n,
    decreases n,
{
    if n > 0 {
        law_locks_are_sorted_and_unique(lines, n - 1);
        let before = sorted_keys(lines, n - 1);
        let key = stock_key_of(lines[n - 1]);
        lemma_with_key(before, key);
        assert forall|k: (i32, i32)| #[trigger]
            sorted_keys(lines, n).contains(k) <==> exists|i: int|
            0 <= i < n && stock_key_of(#[trigger] lines[i]) == k by {
            assert(sorted_keys(lines, n).contains(k) <==> before.contains(k) || k == key);
            if before.contains(k) {
                let i = choose|i: int| 0 <= i < n - 1 && stock_key_of(#[trigger] lines[i]) == k;
                assert(stock_key_of(lines[i]) == k);
            }
            if k == key {
                assert(stock_key_of(lines[n - 1]) == k);
            }
            if exists|i: int| 0 <= i < n && stock_key_of(#[trigger] lines[i]) == k {
                let i = choose|i: int| 0 <= i < n && stock_key_of(#[trigger] lines[i]) == k;
                if i < n - 1 {
                    assert(before.contains(k));
                }
            }
        }
    } else {
        assert forall|k: (i32, i32)| #[trigger] sorted_keys(lines, n).contains(k) implies false by {}
    }
}

/// The results of one line's reads.
#[derive(Clone, Copy, Debug, PartialEq, Eq, Structural)]
pub struct LineQueryIndices {
    pub item: usize,
    pub stock: usize,
}

/// The first batch, with the places of its results.
#[derive(Clone, Debug, PartialEq, Eq)]
pub struct StageOnePlan {
    pub operations: Vec<Operation>,
    pub home_result: usize,
    pub line_results: Vec<LineQueryIndices>,
}

/// The content of a [`StageOnePlan`].
#[verifier::ext_equal]
pub struct StageOneModel {
    pub operations: Seq<OperationModel>,
    pub home_result: int,
    pub line_results: Seq<LineQueryIndices>,
}

impl View for StageOnePlan {
    type V = StageOneModel;

    open spec fn view(&self) -> StageOneModel {
        StageOneModel {
            operations: operation_models(self.operations@),
            home_result: self.home_result as int,
            line_results: self.line_results@,
        }
    }
}

/// The lock of one stock row.
pub open spec fn lock_operation(key: (i32, i32)) -> OperationModel {
    operation_of(
        StatementId::NewOrderLockStock,
        seq![WireModel::Int32(key.0), WireModel::Int32(key.1)],
    )
}

/// The reads of the first `n` lines: item, then stock.
pub open spec fn line_reads(lines: Seq<LinePlan>, n: int) -> Seq<OperationModel>
    decreases n,
{
    if n <= 0 {
        Seq::empty()
    } else {
        let line = lines[n - 1];
        line_reads(lines, n - 1).push(
            operation_of(StatementId::NewOrderItem, seq![WireModel::Int32(line.item_id)]),
        ).push(
            operation_of(
                StatementId::NewOrderStock,
                seq![WireModel::Int32(line.supply_warehouse), WireModel::Int32(line.item_id)],
            ),
        )
    }
}

/// The first batch of an order: begin, home, the locks, then the reads.
pub open spec fn first_batch(order: OrderPlan) -> StageOneModel {
    let n = order.lines.len();
    let keys = sorted_keys(order.lines, n as int);
    StageOneModel {
        operations: seq![
            operation_of(StatementId::Begin, Seq::empty()),
            operation_of(
                StatementId::NewOrderHome,
                seq![
                    WireModel::Int32(order.warehouse_id),
                    WireModel::Int32(order.district_id),
                    WireModel::Int32(order.customer_id),
                ],
            ),
        ] + Seq::new(keys.len(), |i: int| lock_operation(keys[i])) + line_reads(
            order.lines,
            n as int,
        ),
        home_result: 1,
        line_results: Seq::new(
            n,
            |i: int|
                LineQueryIndices {
                    item: (2 + keys.len() + 2 * i) as usize,
                    stock: (3 + keys.len() + 2 * i) as usize,
                },
        ),
    }
}

/// Puts a key into an ascending list, if it is new.
fn add_key(keys: &mut Vec<(i32, i32)>, key: (i32, i32))
    ensures
        final(keys)@ == with_key(old(keys)@, key),
{
    let ghost before = keys@;
    let mut n: usize = keys.len();
    proof {
        assert(before.subrange(0, before.len() as int) =~= before);
        assert(with_key(before.subrange(0, n as int), key) + before.subrange(
            n as int,
            before.len() as int,
        ) =~= with_key(before, key));
    }
    while n > 0 && (keys[n - 1].0 > key.0 || (keys[n - 1].0 == key.0 && keys[n - 1].1 > key.1))
        invariant
            n <= before.len(),
            keys@ == before,
            with_key(before, key) == with_key(before.subrange(0, n as int), key) + before.subrange(
                n as int,
                before.len() as int,
            ),
        decreases n,
    {
        proof {
            let part = before.subrange(0, n as int);
            assert(part.drop_last() =~= before.subrange(0, n - 1));
            assert(with_key(part, key) == with_key(part.drop_last(), key).push(part.last()));
            assert(with_key(part, key) + before.subrange(n as int, before.len() as int)
                =~= with_key(before.subrange(0, n - 1), key) + before.subrange(
                n - 1,
                before.len() as int,
            ));
        }
        n = n - 1;
    }
    if n > 0 && keys[n - 1].0 == key.0 && keys[n - 1].1 == key.1 {
        proof {
            let part = before.subrange(0, n as int);
            assert(part + before.subrange(n as int, before.len() as int) =~= before);
        }
        return;
    }
    keys.insert(n, key);
    proof {
        let part = before.subrange(0, n as int);
        if n == 0 {
            assert(with_key(part, key) =~= seq![key]);
        } else {
            assert(with_key(part, key) =~= part.push(key));
        }
        assert(keys@ =~= with_key(part, key) + before.subrange(n as int, before.len() as int));
    }
}

/// A list of operations grows by one.
pub proof fn lemma_operations_pushed(before: Seq<Operation>, after: Seq<Operation>, o: Operation)
    requires
        after == before.push(o),
    ensures
        operation_models(after) == operation_models(before).push(o@),
{
    assert(operation_models(after) =~= operation_models(before).push(o@));
}

/// Two INT32 parameters.
pub(crate) fn int_pair(a: i32, b: i32) -> (r: Vec<WireValue>)
    ensures
        row_model(r@) == seq![WireModel::Int32(a), WireModel::Int32(b)],
{
    let r = vec![WireValue::Int32(a), WireValue::Int32(b)];
    assert(row_model(r@) =~= seq![WireModel::Int32(a), WireModel::Int32(b)]);
    r
}

/// Three INT32 parameters.
pub(crate) fn int_triple(a: i32, b: i32, c: i32) -> (r: Vec<WireValue>)
    ensures
        row_model(r@) == seq![WireModel::Int32(a), WireModel::Int32(b), WireModel::Int32(c)],
{
    let r = vec![WireValue::Int32(a), WireValue::Int32(b), WireValue::Int32(c)];
    assert(row_model(r@) =~= seq![
        WireModel::Int32(a),
        WireModel::Int32(b),
        WireModel::Int32(c),
    ]);
    r
}

/// One INT32 parameter.
pub(crate) fn int_single(a: i32) -> (r: Vec<WireValue>)
    ensures
        row_model(r@) == seq![WireModel::Int32(a)],
{
    let r = vec![WireValue::Int32(a)];
    assert(row_model(r@) =~= seq![WireModel::Int32(a)]);
    r
}

/// An operation without parameters.
pub(crate) fn bare_operation(id: StatementId) -> (r: Operation)
    ensures
        r@ == operation_of(id, Seq::empty()),
{
    let r = operation(id, Vec::new());
    assert(r@.parameters =~= Seq::empty());
    r
}

/// Builds the first batch.
pub fn build_stage_one(input: &ValidatedInput) -> (r: StageOnePlan)
    requires
        input@.lines.len() <= 0x1000_0000,
    ensures
        r@ == first_batch(input@),
{
    let ghost goal = first_batch(input@);
    let mut operations: Vec<Operation> = Vec::new();
    operations.push(bare_operation(StatementId::Begin));
    operations.push(
        operation(
            StatementId::NewOrderHome,
            int_triple(input.warehouse_id, input.district_id, input.customer_id),
        ),
    );
    let mut keys: Vec<(i32, i32)> = Vec::new();
    let n: usize = input.lines.len();
    let mut i: usize = 0;
    while i < n
        invariant
            i <= n <= 0x1000_0000,
            n == input.lines@.len(),
            keys@ == sorted_keys(input.lines@, i as int),
        decreases n - i,
    {
        let line = input.lines[i];
        add_key(&mut keys, (line.supply_warehouse, line.item_id));
        i = i + 1;
    }
    proof {
        law_locks_are_sorted_and_unique(input.lines@, n as int);
        assert(operation_models(operations@) =~= goal.operations.subrange(0, 2));
    }
    let ghost locks = Seq::new(keys@.len(), |i: int| lock_operation(keys@[i]));
    let ghost head = goal.operations.subrange(0, 2);
    let mut k: usize = 0;
    while k < keys.len()
        invariant
            k <= keys@.len() <= 0x1000_0000,
            operations@.len() == 2 + k,
            locks == Seq::new(keys@.len(), |i: int| lock_operation(keys@[i])),
            operation_models(operations@) == head + locks.subrange(0, k as int),
        decreases keys@.len() - k,
    {
        let key = keys[k];
        let lock = operation(StatementId::NewOrderLockStock, int_pair(key.0, key.1));
        let ghost before = operations@;
        operations.push(lock);
        proof {
            lemma_operations_pushed(before, operations@, lock);
            assert(locks.subrange(0, k as int + 1) =~= locks.subrange(0, k as int).push(lock@));
            assert(operation_models(operations@) =~= head + locks.subrange(0, k as int + 1));
        }
        k = k + 1;
    }
    let mut line_results: Vec<LineQueryIndices> = Vec::new();
    let mut j: usize = 0;
    assert(locks.subrange(0, locks.len() as int) =~= locks);
    assert(operation_models(operations@) =~= head + locks + line_reads(input.lines@, 0));
    while j < n
        invariant
            j <= n <= 0x1000_0000,
            n == input.lines@.len(),
            keys@.len() <= 0x1000_0000,
            keys@ == sorted_keys(input.lines@, n as int),
            goal == first_batch(input@),
            operations@.len() == 2 + keys@.len() + 2 * j,
            operation_models(operations@) == head + locks + line_reads(input.lines@, j as int),
            line_results@ =~= goal.line_results.subrange(0, j as int),
        decreases n - j,
    {
        let line = input.lines[j];
        let item: usize = operations.len();
        let ghost before = operations@;
        let item_read = operation(StatementId::NewOrderItem, int_single(line.item_id));
        operations.push(item_read);
        let stock: usize = operations.len();
        let ghost middle = operations@;
        let stock_read = operation(
            StatementId::NewOrderStock,
            int_pair(line.supply_warehouse, line.item_id),
        );
        operations.push(stock_read);
        proof {
            lemma_operations_pushed(before, middle, item_read);
            lemma_operations_pushed(middle, operations@, stock_read);
            assert(operation_models(operations@) =~= head + locks + line_reads(
                input.lines@,
                j as int + 1,
            ));
        }
        line_results.push(LineQueryIndices { item, stock });
        j = j + 1;
    }
    let plan = StageOnePlan { operations, home_result: 1, line_results };
    assert(plan@.operations =~= goal.operations);
    assert(plan@ =~= goal);
    plan
}

} // verus!
