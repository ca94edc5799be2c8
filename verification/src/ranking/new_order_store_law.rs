//! What a NewOrder leaves in the tables.
use vstd::prelude::*;

use crate::binary32::is_finite;
use crate::ranking::new_order::{LinePlan, OrderPlan, stock_key_of};
use crate::ranking::new_order_rows::{MaterializedModel, ReadOrder};
use crate::ranking::new_order_writes::{
    last_on_row, line_insert, line_writes, order_writes, quantities_fit, second_batch,
    second_batch_fault, stock_after, stock_before, stock_update, terminal_operation, write_fault,
    writes_fault,
};
use crate::ranking::runner::StockVersion;
use crate::ranking::statement_id::StatementId;
use crate::ranking::store_model::{
    Connection, DistrictRow, LineRow, OrderRow, StockRow, Store, changed, chars, effect, effects,
    executed_all, float, lemma_effects_joined, lemma_effects_prefix, lemma_ended_batch,
    lemma_order_effect, number, runs, stays_open, stock_effect,
};
use crate::wire::OperationModel;

verus! {

/// The columns of a stock row that a version holds.
pub open spec fn row_is(row: StockRow, v: StockVersion) -> bool {
    &&& row.s_quantity == v.quantity
    &&& row.s_ytd == v.ytd_bits
    &&& row.s_order_cnt == v.order_count
    &&& row.s_remote_cnt == v.remote_count
}

/// The key of a line's stock row in the tables: its supply warehouse and its item.
pub open spec fn row_of(plan: LinePlan) -> (int, int) {
    (plan.supply_warehouse as int, plan.item_id as int)
}

/// Whether the lines say what the tables hold: the stock row of each is there, as it
/// was read.
pub open spec fn stock_as_read(s: Store, lines: Seq<MaterializedModel>) -> bool {
    forall|k: int|
        0 <= k < lines.len() ==> s.stock.contains_key(row_of((#[trigger] lines[k]).plan)) && row_is(
            s.stock[row_of(lines[k].plan)],
            lines[k].initial_stock,
        ) && is_finite(lines[k].initial_stock.ytd_bits)
}

/// Whether no two lines have the same number.
pub open spec fn numbered_apart(lines: Seq<MaterializedModel>) -> bool {
    forall|i: int, j: int|
        0 <= i < j < lines.len() ==> (#[trigger] lines[i]).plan.number != (
        #[trigger] lines[j]).plan.number
}

/// The row that a line leaves in the table of order lines.
pub open spec fn line_stored(row: LineRow, line: MaterializedModel) -> bool {
    &&& row.ol_i_id == line.plan.item_id
    &&& row.ol_supply_w_id == line.plan.supply_warehouse
    &&& row.ol_quantity == line.plan.quantity
    &&& row.ol_amount == line.amount_bits
    &&& row.ol_dist_info == line.district_info
    &&& row.ol_delivery_d.len() == 0
}

/// The order row that an order leaves.
pub open spec fn order_stored(order: OrderPlan) -> OrderRow {
    OrderRow {
        o_c_id: order.customer_id as int,
        o_entry_d: order.timestamp,
        o_carrier_id: 0,
        o_ol_cnt: order.lines.len() as i32 as int,
        o_all_local: order.all_local as int,
    }
}

/// The district row that an order leaves.
pub open spec fn district_advanced(row: DistrictRow) -> DistrictRow {
    DistrictRow { d_next_o_id: row.d_next_o_id + 1, ..row }
}

proof fn lemma_head(s: Store, order: OrderPlan, order_id: i32)
    ensures
        ({
            let w = order.warehouse_id as int;
            let d = order.district_id as int;
            let o = order_id as int;
            effects(s, order_writes(order, order_id), 3) == (Store {
                districts: changed(s.districts, (w, d), district_advanced(s.districts[(w, d)])),
                orders: s.orders.insert((w, d, o), order_stored(order)),
                new_orders: s.new_orders.insert((w, d, o)),
                ..s
            })
        }),
{
    let ops = order_writes(order, order_id);
    let one = effects(s, ops, 1);
    let two = effects(s, ops, 2);
    assert(effects(s, ops, 0) == s);
    assert(one == effect(s, ops[0]));
    assert(two == effect(one, ops[1]));
    assert(effects(s, ops, 3) == effect(two, ops[2]));
    lemma_order_effect(s, ops[0]);
    lemma_order_effect(one, ops[1]);
    lemma_order_effect(two, ops[2]);
}

/// The tables after the writes of the first `n` lines.
spec fn after_lines(
    s: Store,
    order: OrderPlan,
    order_id: i32,
    lines: Seq<MaterializedModel>,
    n: int,
) -> Store {
    effects(s, line_writes(order, order_id, lines, n), 2 * n)
}

proof fn lemma_writes_len(order: OrderPlan, order_id: i32, lines: Seq<MaterializedModel>, n: int)
    requires
        0 <= n,
    ensures
        line_writes(order, order_id, lines, n).len() == 2 * n,
    decreases n,
{
    if n > 0 {
        lemma_writes_len(order, order_id, lines, n - 1);
    }
}

proof fn lemma_next_line(
    s: Store,
    order: OrderPlan,
    order_id: i32,
    lines: Seq<MaterializedModel>,
    n: int,
)
    requires
        0 < n <= lines.len(),
    ensures
        after_lines(s, order, order_id, lines, n) == effect(
            effect(
                after_lines(s, order, order_id, lines, n - 1),
                stock_update(order, lines, n - 1),
            ),
            line_insert(order, order_id, lines, n - 1),
        ),
{
    let before = line_writes(order, order_id, lines, n - 1);
    let all = line_writes(order, order_id, lines, n);
    lemma_writes_len(order, order_id, lines, n - 1);
    lemma_effects_prefix(s, all, before, 2 * (n - 1));
    reveal_with_fuel(effects, 3);
    assert(all[2 * n - 2] == stock_update(order, lines, n - 1));
    assert(all[2 * n - 1] == line_insert(order, order_id, lines, n - 1));
}

pub proof fn lemma_write_accepted(order: OrderPlan, lines: Seq<MaterializedModel>, from: int, k: int)
    requires
        0 <= from <= k < lines.len(),
        writes_fault(order, lines, from) is None,
    ensures
        write_fault(order, lines, k) is None,
    decreases k - from,
{
    if from < k {
        lemma_write_accepted(order, lines, from + 1, k);
    }
}

/// The last of the lines on a row is one of them, and none after it is.
proof fn lemma_last(lines: Seq<MaterializedModel>, n: int, key: (i32, i32))
    requires
        0 <= n <= lines.len(),
    ensures
        match last_on_row(lines, n, key) {
            Some(j) => 0 <= j < n && stock_key_of(lines[j].plan) == key,
            None => forall|j: int| 0 <= j < n ==> stock_key_of((#[trigger] lines[j]).plan) != key,
        },
    decreases n,
{
    if n > 0 {
        lemma_last(lines, n - 1, key);
    }
}

/// What the insert of a line does.
proof fn lemma_insert_step(
    t: Store,
    order: OrderPlan,
    order_id: i32,
    lines: Seq<MaterializedModel>,
    k: int,
)
    ensures
        ({
            let key = (
                order.warehouse_id as int,
                order.district_id as int,
                order_id as int,
                lines[k].plan.number as int,
            );
            let u = effect(t, line_insert(order, order_id, lines, k));
            &&& u == (Store { order_lines: t.order_lines.insert(key, u.order_lines[key]), ..t })
            &&& line_stored(u.order_lines[key], lines[k])
        }),
{
    let op = line_insert(order, order_id, lines, k);
    lemma_order_effect(t, op);
}

/// A stock update changes no other table.
proof fn lemma_update_frame(t: Store, order: OrderPlan, lines: Seq<MaterializedModel>, k: int)
    ensures
        ({
            let u = effect(t, stock_update(order, lines, k));
            u == (Store { stock: u.stock, ..t })
        }),
{
    let op = stock_update(order, lines, k);
    lemma_order_effect(t, op);
    assert(effect(t, op) == stock_effect(t, op));
}

/// What the stock update of a line does to the row that it finds.
proof fn lemma_stock_step(
    t: Store,
    order: OrderPlan,
    lines: Seq<MaterializedModel>,
    k: int,
)
    requires
        0 <= k < lines.len(),
        quantities_fit(lines),
        write_fault(order, lines, k) is None,
        t.stock.contains_key(row_of(lines[k].plan)),
        row_is(t.stock[row_of(lines[k].plan)], stock_before(order, lines, k)),
        is_finite(stock_before(order, lines, k).ytd_bits),
        stock_before(order, lines, k).quantity >= 0,
    ensures
        ({
            let key = row_of(lines[k].plan);
            let u = effect(t, stock_update(order, lines, k));
            &&& u.stock.dom() == t.stock.dom()
            &&& row_is(u.stock[key], stock_after(order, lines, k))
            &&& u.stock[key].s_data == t.stock[key].s_data
            &&& u.stock[key].s_dist == t.stock[key].s_dist
            &&& forall|other: (int, int)|
                other != key ==> #[trigger] u.stock[other] == t.stock[other]
            &&& u == (Store { stock: u.stock, ..t })
        }),
{
    let plan = lines[k].plan;
    let key = row_of(plan);
    let op = stock_update(order, lines, k);
    let u = effect(t, op);
    lemma_order_effect(t, op);
    assert(u == stock_effect(t, op));
    assert(0 <= plan.quantity <= i32::MAX - 10);
    assert(number(op, 3) == key.0 && number(op, 4) == key.1);
    assert(u.stock.dom() =~= t.stock.dom());
}

/// What the tables hold of the stock after the first `n` lines.
spec fn stock_tracked(
    s: Store,
    t: Store,
    order: OrderPlan,
    lines: Seq<MaterializedModel>,
    n: int,
) -> bool {
    &&& t.stock.dom() == s.stock.dom()
    &&& forall|key: (i32, i32)|
        s.stock.contains_key((key.0 as int, key.1 as int)) ==> match #[trigger] last_on_row(
            lines,
            n,
            key,
        ) {
            Some(j) => row_is(
                t.stock[(key.0 as int, key.1 as int)],
                stock_after(order, lines, j),
            ),
            None => t.stock[(key.0 as int, key.1 as int)] == s.stock[(
                key.0 as int,
                key.1 as int,
            )],
        }
    &&& forall|key: (int, int)|
        (forall|j: int| 0 <= j < n ==> row_of((#[trigger] lines[j]).plan) != key)
            ==> #[trigger] t.stock[key] == s.stock[key]
    &&& forall|key: (int, int)|
        (#[trigger] t.stock[key]).s_data == s.stock[key].s_data && t.stock[key].s_dist
            == s.stock[key].s_dist
}

/// What the writes of the first `n` lines leave.
proof fn lemma_lines(
    s: Store,
    order: OrderPlan,
    order_id: i32,
    lines: Seq<MaterializedModel>,
    n: int,
)
    requires
        0 <= n <= lines.len(),
        quantities_fit(lines),
        writes_fault(order, lines, 0) is None,
        stock_as_read(s, lines),
        forall|k: int| 0 <= k < lines.len() ==> after_is_finite(order, lines, k),
    ensures
        ({
            let t = after_lines(s, order, order_id, lines, n);
            &&& stock_tracked(s, t, order, lines, n)
            &&& t == (Store { stock: t.stock, order_lines: t.order_lines, ..s })
        }),
    decreases n,
{
    if n > 0 {
        lemma_lines(s, order, order_id, lines, n - 1);
        lemma_next_line(s, order, order_id, lines, n);
        lemma_write_accepted(order, lines, 0, n - 1);
        let before = after_lines(s, order, order_id, lines, n - 1);
        let k = n - 1;
        let key = stock_key_of(lines[k].plan);
        lemma_last(lines, k, key);
        lemma_found(s, before, order, lines, k);
        lemma_stock_step(before, order, lines, k);
        let mid = effect(before, stock_update(order, lines, k));
        lemma_insert_step(mid, order, order_id, lines, k);
        let t = after_lines(s, order, order_id, lines, n);
        assert(t.stock == mid.stock);
        assert forall|other: (i32, i32)|
            s.stock.contains_key((other.0 as int, other.1 as int)) implies match #[trigger]
        last_on_row(lines, n, other) {
            Some(j) => row_is(
                t.stock[(other.0 as int, other.1 as int)],
                stock_after(order, lines, j),
            ),
            None => t.stock[(other.0 as int, other.1 as int)] == s.stock[(
                other.0 as int,
                other.1 as int,
            )],
        } by {
            assert(last_on_row(lines, k, other) == last_on_row(lines, k, other));
        }
        assert forall|other: (int, int)|
            (forall|j: int| 0 <= j < n ==> row_of((#[trigger] lines[j]).plan) != other) implies
        #[trigger] t.stock[other] == s.stock[other] by {
            assert(row_of(lines[k].plan) != other);
            assert(before.stock[other] == s.stock[other]);
        }
        assert forall|other: (int, int)|
            (#[trigger] t.stock[other]).s_data == s.stock[other].s_data && t.stock[other].s_dist
                == s.stock[other].s_dist by {
            assert(before.stock[other].s_data == s.stock[other].s_data);
        }
    }
}

/// Whether the total that a line leaves is finite.
pub open spec fn after_is_finite(order: OrderPlan, lines: Seq<MaterializedModel>, k: int) -> bool {
    is_finite(stock_after(order, lines, k).ytd_bits)
}

/// A line finds its row as the lines before it left it.
proof fn lemma_found(
    s: Store,
    t: Store,
    order: OrderPlan,
    lines: Seq<MaterializedModel>,
    k: int,
)
    requires
        0 <= k < lines.len(),
        quantities_fit(lines),
        writes_fault(order, lines, 0) is None,
        stock_as_read(s, lines),
        stock_tracked(s, t, order, lines, k),
        forall|j: int| 0 <= j < lines.len() ==> after_is_finite(order, lines, j),
    ensures
        t.stock.contains_key(row_of(lines[k].plan)),
        row_is(t.stock[row_of(lines[k].plan)], stock_before(order, lines, k)),
        is_finite(stock_before(order, lines, k).ytd_bits),
        stock_before(order, lines, k).quantity >= 0,
{
    let key = stock_key_of(lines[k].plan);
    lemma_last(lines, k, key);
    assert(s.stock.contains_key(row_of(lines[k].plan)));
    if let Some(j) = last_on_row(lines, k, key) {
        lemma_write_accepted(order, lines, 0, j);
        assert(after_is_finite(order, lines, j));
    }
}

/// What the writes of the first `n` lines leave in the table of order lines.
proof fn lemma_stored(
    s: Store,
    order: OrderPlan,
    order_id: i32,
    lines: Seq<MaterializedModel>,
    n: int,
)
    requires
        0 <= n <= lines.len(),
        numbered_apart(lines),
    ensures
        ({
            let w = order.warehouse_id as int;
            let d = order.district_id as int;
            let o = order_id as int;
            let t = after_lines(s, order, order_id, lines, n);
            &&& forall|k: int|
                0 <= k < n ==> t.order_lines.contains_key(
                    (w, d, o, (#[trigger] lines[k]).plan.number as int),
                ) && line_stored(
                    t.order_lines[(w, d, o, lines[k].plan.number as int)],
                    lines[k],
                )
            &&& forall|key: (int, int, int, int)|
                (forall|k: int|
                    0 <= k < n ==> (w, d, o, (#[trigger] lines[k]).plan.number as int) != key) ==> (
                #[trigger] t.order_lines.contains_key(key) <==> s.order_lines.contains_key(key))
                    && t.order_lines[key] == s.order_lines[key]
        }),
    decreases n,
{
    if n > 0 {
        lemma_stored(s, order, order_id, lines, n - 1);
        lemma_next_line(s, order, order_id, lines, n);
        let w = order.warehouse_id as int;
        let d = order.district_id as int;
        let o = order_id as int;
        let before = after_lines(s, order, order_id, lines, n - 1);
        let mid = effect(before, stock_update(order, lines, n - 1));
        lemma_update_frame(before, order, lines, n - 1);
        lemma_insert_step(mid, order, order_id, lines, n - 1);
        let t = after_lines(s, order, order_id, lines, n);
        assert(mid.order_lines == before.order_lines);
        assert forall|k: int| 0 <= k < n implies t.order_lines.contains_key(
            (w, d, o, (#[trigger] lines[k]).plan.number as int),
        ) && line_stored(t.order_lines[(w, d, o, lines[k].plan.number as int)], lines[k]) by {
            if k < n - 1 {
                assert(lines[k].plan.number != lines[n - 1].plan.number);
            }
        }
        assert forall|key: (int, int, int, int)|
            (forall|k: int|
                0 <= k < n ==> (w, d, o, (#[trigger] lines[k]).plan.number as int)
                    != key) implies (#[trigger] t.order_lines.contains_key(key)
            <==> s.order_lines.contains_key(key)) && t.order_lines[key]
            == s.order_lines[key] by {
            assert((w, d, o, lines[n - 1].plan.number as int) != key);
            assert(before.order_lines.contains_key(key) <==> s.order_lines.contains_key(key));
        }
    }
}

/// Whether the tables of `t` are those of `s` with an order in them: its row, its
/// place in the queue, its lines, the next number of its district, and the stock
/// that its lines took.
pub open spec fn order_kept(s: Store, t: Store, order: OrderPlan, read: ReadOrder) -> bool {
    let w = order.warehouse_id as int;
    let d = order.district_id as int;
    let o = read.order_id as int;
    let lines = read.lines;
    &&& t.warehouses == s.warehouses
    &&& t.customers == s.customers
    &&& t.history == s.history
    &&& t.items == s.items
    &&& t.districts == changed(s.districts, (w, d), district_advanced(s.districts[(w, d)]))
    &&& t.orders == s.orders.insert((w, d, o), order_stored(order))
    &&& t.new_orders == s.new_orders.insert((w, d, o))
    &&& forall|k: int|
        0 <= k < lines.len() ==> t.order_lines.contains_key(
            (w, d, o, (#[trigger] lines[k]).plan.number as int),
        ) && line_stored(t.order_lines[(w, d, o, lines[k].plan.number as int)], lines[k])
    &&& forall|key: (int, int, int, int)|
        (forall|k: int|
            0 <= k < lines.len() ==> (w, d, o, (#[trigger] lines[k]).plan.number as int) != key)
            ==> (#[trigger] t.order_lines.contains_key(key) <==> s.order_lines.contains_key(key))
            && t.order_lines[key] == s.order_lines[key]
    &&& t.stock.dom() == s.stock.dom()
    &&& forall|key: (int, int)|
        (forall|k: int| 0 <= k < lines.len() ==> row_of((#[trigger] lines[k]).plan) != key)
            ==> #[trigger] t.stock[key] == s.stock[key]
}

/// The operations of the second batch before its last one.
pub open spec fn second_writes(order: OrderPlan, read: ReadOrder) -> Seq<OperationModel> {
    second_batch(order, read).operations.drop_last()
}

proof fn lemma_second_writes(order: OrderPlan, read: ReadOrder)
    ensures
        ({
            let n = read.lines.len() as int;
            let ops = order_writes(order, read.order_id) + line_writes(
                order,
                read.order_id,
                read.lines,
                n,
            );
            &&& second_writes(order, read) == ops
            &&& ops.len() == 3 + 2 * n
            &&& second_batch(order, read).operations == ops.push(terminal_operation(order))
        }),
{
    let n = read.lines.len() as int;
    lemma_writes_len(order, read.order_id, read.lines, n);
    assert(second_writes(order, read) =~= order_writes(order, read.order_id) + line_writes(
        order,
        read.order_id,
        read.lines,
        n,
    ));
}

proof fn lemma_lines_stay_open(
    order: OrderPlan,
    order_id: i32,
    lines: Seq<MaterializedModel>,
    n: int,
)
    requires
        0 <= n <= lines.len(),
    ensures
        stays_open(line_writes(order, order_id, lines, n)),
    decreases n,
{
    if n > 0 {
        lemma_lines_stay_open(order, order_id, lines, n - 1);
        let before = line_writes(order, order_id, lines, n - 1);
        let all = line_writes(order, order_id, lines, n);
        assert forall|i: int| 0 <= i < all.len() implies !runs(
            #[trigger] all[i],
            StatementId::Commit,
        ) && !runs(all[i], StatementId::Abort) && !runs(all[i], StatementId::Begin) by {
            if i < before.len() {
                assert(all[i] == before[i]);
            }
        }
    }
}

proof fn lemma_writes_stay_open(order: OrderPlan, read: ReadOrder)
    ensures
        stays_open(second_writes(order, read)),
{
    let n = read.lines.len() as int;
    let head = order_writes(order, read.order_id);
    let tail = line_writes(order, read.order_id, read.lines, n);
    lemma_second_writes(order, read);
    lemma_lines_stay_open(order, read.order_id, read.lines, n);
    let all = second_writes(order, read);
    assert forall|i: int| 0 <= i < all.len() implies !runs(#[trigger] all[i], StatementId::Commit)
        && !runs(all[i], StatementId::Abort) && !runs(all[i], StatementId::Begin) by {
        if i < 3 {
            assert(all[i] == head[i]);
        } else {
            assert(all[i] == tail[i - 3]);
        }
    }
}

proof fn lemma_order_kept(s: Store, order: OrderPlan, read: ReadOrder)
    requires
        quantities_fit(read.lines),
        second_batch_fault(order, read) is None,
        stock_as_read(s, read.lines),
        numbered_apart(read.lines),
        forall|k: int| 0 <= k < read.lines.len() ==> after_is_finite(order, read.lines, k),
    ensures
        order_kept(
            s,
            effects(s, second_writes(order, read), second_writes(order, read).len() as int),
            order,
            read,
        ),
{
    let n = read.lines.len() as int;
    let head = order_writes(order, read.order_id);
    let tail = line_writes(order, read.order_id, read.lines, n);
    lemma_second_writes(order, read);
    lemma_effects_joined(s, head, tail, 2 * n);
    lemma_head(s, order, read.order_id);
    let mid = effects(s, head, 3);
    assert(stock_as_read(mid, read.lines));
    lemma_lines(mid, order, read.order_id, read.lines, n);
    lemma_stored(mid, order, read.order_id, read.lines, n);
}

/// Law: a NewOrder stores its order. Where the tables hold the stock as it was read,
/// the committed second batch leaves exactly this in them: the order under its
/// warehouse, district and number, for its customer, undelivered, with as many lines
/// as it has; the same key in the queue of undelivered orders; each line under its
/// number with its own item, supply warehouse, quantity and amount; the next order
/// number of the district; and changes to the stock rows of its lines alone.
pub proof fn law_new_order_stores_its_order(c: Connection, order: OrderPlan, read: ReadOrder)
    requires
        !order.expected_rollback,
        quantities_fit(read.lines),
        second_batch_fault(order, read) is None,
        stock_as_read(c.open, read.lines),
        numbered_apart(read.lines),
        forall|k: int| 0 <= k < read.lines.len() ==> after_is_finite(order, read.lines, k),
    ensures
        ({
            let ops = second_batch(order, read).operations;
            order_kept(c.open, executed_all(c, ops, ops.len() as int).kept, order, read)
        }),
{
    lemma_second_writes(order, read);
    lemma_writes_stay_open(order, read);
    lemma_order_kept(c.open, order, read);
    lemma_ended_batch(c, second_writes(order, read), terminal_operation(order));
}

/// Law: an expected rollback stores nothing. The second batch of an order with an
/// invalid item leaves what was committed before it.
pub proof fn law_rolled_back_order_stores_nothing(
    c: Connection,
    order: OrderPlan,
    read: ReadOrder,
)
    requires
        order.expected_rollback,
    ensures
        ({
            let ops = second_batch(order, read).operations;
            executed_all(c, ops, ops.len() as int) == (Connection { kept: c.kept, open: c.kept })
        }),
{
    lemma_second_writes(order, read);
    lemma_writes_stay_open(order, read);
    lemma_ended_batch(c, second_writes(order, read), terminal_operation(order));
}

/// Law: the evidence of a line is what the tables held. Before its stock update runs,
/// the row that the update addresses is the line's stock before; after it, its stock
/// after. The update and the insert that follows it name the same item and supply
/// warehouse.
pub proof fn law_line_evidence_is_what_was_stored(
    s: Store,
    order: OrderPlan,
    read: ReadOrder,
    k: int,
)
    requires
        quantities_fit(read.lines),
        second_batch_fault(order, read) is None,
        stock_as_read(s, read.lines),
        forall|j: int| 0 <= j < read.lines.len() ==> after_is_finite(order, read.lines, j),
        0 <= k < read.lines.len(),
    ensures
        ({
            let plan = second_batch(order, read);
            let update = plan.operations[3 + 2 * k];
            let insert = plan.operations[4 + 2 * k];
            let key = (number(update, 3), number(update, 4));
            let before = effects(s, plan.operations, 3 + 2 * k);
            let after = effects(s, plan.operations, 4 + 2 * k);
            let evidence = plan.recovery_lines[k];
            &&& runs(update, StatementId::NewOrderUpdateStockNormal) || runs(
                update,
                StatementId::NewOrderUpdateStockWrapped,
            )
            &&& runs(insert, StatementId::NewOrderInsertLine)
            &&& key == (read.lines[k].plan.supply_warehouse as int, read.lines[k].plan.item_id as int)
            &&& key == (number(insert, 5), number(insert, 4))
            &&& key == (evidence.supply_warehouse as int, evidence.item_id as int)
            &&& number(insert, 3) == evidence.number
            &&& number(insert, 7) == evidence.quantity
            &&& number(update, 0) == evidence.quantity
            &&& float(insert, 8) == evidence.amount_bits
            &&& chars(insert, 9) == evidence.district_info
            &&& row_is(before.stock[key], evidence.stock_before)
            &&& row_is(after.stock[key], evidence.stock_after)
        }),
{
    let n = read.lines.len() as int;
    let lines = read.lines;
    let head = order_writes(order, read.order_id);
    let tail = line_writes(order, read.order_id, lines, n);
    let ops = second_batch(order, read).operations;
    lemma_second_writes(order, read);
    lemma_writes_len(order, read.order_id, lines, n);
    lemma_line_at(order, read.order_id, lines, n, k);
    lemma_effects_prefix(s, ops, head + tail, 3 + 2 * k);
    lemma_effects_joined(s, head, tail, 2 * k);
    lemma_head(s, order, read.order_id);
    let mid = effects(s, head, 3);
    assert(stock_as_read(mid, lines));
    lemma_lines(mid, order, read.order_id, lines, k);
    lemma_writes_len(order, read.order_id, lines, k);
    lemma_part(order, read.order_id, lines, n, k);
    lemma_effects_prefix(mid, tail, line_writes(order, read.order_id, lines, k), 2 * k);
    let before = effects(s, ops, 3 + 2 * k);
    assert(before == after_lines(mid, order, read.order_id, lines, k));
    lemma_found(mid, before, order, lines, k);
    lemma_write_accepted(order, lines, 0, k);
    lemma_stock_step(before, order, lines, k);
    assert(ops[3 + 2 * k] == tail[2 * k]);
    assert(ops[4 + 2 * k] == tail[2 * k + 1]);
}

/// Where the writes of a line stand.
proof fn lemma_line_at(
    order: OrderPlan,
    order_id: i32,
    lines: Seq<MaterializedModel>,
    n: int,
    k: int,
)
    requires
        0 <= k < n <= lines.len(),
    ensures
        line_writes(order, order_id, lines, n)[2 * k] == stock_update(order, lines, k),
        line_writes(order, order_id, lines, n)[2 * k + 1] == line_insert(order, order_id, lines, k),
    decreases n,
{
    lemma_writes_len(order, order_id, lines, n - 1);
    if k < n - 1 {
        lemma_line_at(order, order_id, lines, n - 1, k);
    }
}

/// The writes of fewer lines are the first of those of more.
proof fn lemma_part(
    order: OrderPlan,
    order_id: i32,
    lines: Seq<MaterializedModel>,
    n: int,
    k: int,
)
    requires
        0 <= k <= n <= lines.len(),
    ensures
        forall|i: int|
            0 <= i < 2 * k ==> #[trigger] line_writes(order, order_id, lines, n)[i] == line_writes(
                order,
                order_id,
                lines,
                k,
            )[i],
    decreases n - k,
{
    if k < n {
        lemma_part(order, order_id, lines, n - 1, k);
        lemma_writes_len(order, order_id, lines, n - 1);
    }
}

} // verus!
