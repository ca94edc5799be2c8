//! Which updates a collector takes, and that those of the transactions are among them.
use vstd::prelude::*;

use crate::binary32::{
    abs, difference, integer_pattern, is_finite, lemma_pattern_of_value, negated, sum, sum_sign,
    unsigned_bits, value,
};
use crate::binary32_law::lemma_nearest;
use crate::consistency::{CustomerLogicalVersion, CustomerUpdateEvidence, CustomerUpdateKind};
use crate::ranking::customer_chain::{agrees, edge_fault, plain_zero};
use crate::ranking::new_order::{OrderPlan, stock_key_of};
use crate::ranking::new_order_rows::{MaterializedModel, ReadOrder};
use crate::ranking::new_order_store_law::{after_is_finite, lemma_write_accepted};
use crate::ranking::new_order_writes::{
    last_on_row, lemma_last_on_row, second_batch, second_batch_fault, stock_before, write_fault,
};
use crate::ranking::runner::{
    CustomerVersion, DeliveredOrderEvidence, PaymentEvidence, StockVersion,
};
use crate::ranking::stock_chain::stock_edge_fault;
use crate::ranking::terminal_law::{delivered_adds_up, payment_adds_up};

verus! {

/// Two finite patterns of the same value are the same, but for the sign of zero.
proof fn lemma_same_value(a: u32, b: u32)
    requires
        is_finite(a),
        is_finite(b),
    ensures
        plain_zero(a) == plain_zero(b) <==> value(a) == value(b),
{
    lemma_pattern_of_value(a);
    lemma_pattern_of_value(b);
    lemma_pattern_of_value(0);
    lemma_pattern_of_value(0x8000_0000);
    assert(unsigned_bits(0x8000_0000) == 0);
}

/// Whether a total moved by an amount, rounded once.
pub open spec fn moved(exact: Option<u32>, after: u32) -> bool {
    exact matches Some(bits) && is_finite(bits) && value(bits) == value(after)
}

proof fn lemma_moved(exact: Option<u32>, after: u32)
    requires
        is_finite(after),
        exact matches Some(bits) ==> is_finite(bits),
    ensures
        agrees(exact, after) <==> moved(exact, after),
{
    if let Some(bits) = exact {
        lemma_same_value(bits, after);
    }
}

proof fn lemma_sum_finite(a: u32, b: u32)
    ensures
        sum(a, b) matches Some(bits) ==> is_finite(bits),
{
    lemma_nearest(sum_sign(a, b), abs(value(a) + value(b)));
}

/// Law: a collector takes an update of a customer exactly if it is one: its own counter
/// goes up by one and the other stays, the amount is positive, a Payment takes it off the
/// balance and adds it to what was paid, and a Delivery adds it to the balance and says
/// nothing of what was paid.
pub proof fn law_customer_updates_are_taken_if_they_add_up(u: CustomerUpdateEvidence)
    ensures
        edge_fault(u) is None <==> {
            let before = u.before_version;
            let after = u.after_version;
            &&& before.payment_count >= 0 && before.delivery_count >= 0
            &&& is_finite(u.amount_bits) && value(u.amount_bits) > 0
            &&& is_finite(u.balance_before_bits) && is_finite(u.balance_after_bits)
            &&& match u.kind {
                CustomerUpdateKind::Payment => {
                    &&& after.payment_count == before.payment_count + 1
                    &&& after.delivery_count == before.delivery_count
                    &&& moved(
                        difference(u.balance_before_bits, u.amount_bits),
                        u.balance_after_bits,
                    )
                    &&& u.ytd_payment_before_bits matches Some(paid) && (
                    u.ytd_payment_after_bits matches Some(now) && is_finite(paid) && is_finite(now)
                        && moved(sum(paid, u.amount_bits), now))
                },
                CustomerUpdateKind::Delivery => {
                    &&& after.payment_count == before.payment_count
                    &&& after.delivery_count == before.delivery_count + 1
                    &&& moved(sum(u.balance_before_bits, u.amount_bits), u.balance_after_bits)
                    &&& u.ytd_payment_before_bits is None
                    &&& u.ytd_payment_after_bits is None
                },
            }
        },
{
    let a = u.balance_before_bits;
    if is_finite(u.amount_bits) && is_finite(a) && is_finite(u.balance_after_bits) {
        lemma_sum_finite(a, u.amount_bits);
        lemma_sum_finite(a, negated(u.amount_bits));
        lemma_moved(difference(a, u.amount_bits), u.balance_after_bits);
        lemma_moved(sum(a, u.amount_bits), u.balance_after_bits);
    }
    if let Some(paid) = u.ytd_payment_before_bits {
        if let Some(now) = u.ytd_payment_after_bits {
            if is_finite(u.amount_bits) && is_finite(paid) && is_finite(now) {
                lemma_sum_finite(paid, u.amount_bits);
                lemma_moved(sum(paid, u.amount_bits), now);
            }
        }
    }
}

/// Law: what a Payment says of its customer is an update that a collector takes, and so is
/// what a Delivery says of the customer of an order.
pub proof fn law_evidence_of_customers_is_taken(
    p: PaymentEvidence,
    d: DeliveredOrderEvidence,
    u: CustomerUpdateEvidence,
)
    ensures
        payment_adds_up(p) && u.kind == CustomerUpdateKind::Payment && u.amount_bits
            == p.amount_bits && u.balance_before_bits == p.customer_balance_before_bits
            && u.balance_after_bits == p.customer_balance_after_bits && u.ytd_payment_before_bits
            == Some(p.customer_ytd_before_bits) && u.ytd_payment_after_bits == Some(
            p.customer_ytd_after_bits,
        ) && is_version(u.before_version, p.customer_version_before) && is_version(
            u.after_version,
            p.customer_version_after,
        ) ==> edge_fault(u) is None,
        delivered_adds_up(d) && u.kind == CustomerUpdateKind::Delivery && u.amount_bits
            == d.amount_bits && u.balance_before_bits == d.customer_balance_before_bits
            && u.balance_after_bits == d.customer_balance_after_bits
            && u.ytd_payment_before_bits is None && u.ytd_payment_after_bits is None && is_version(
            u.before_version,
            d.customer_version_before,
        ) && is_version(u.after_version, d.customer_version_after) ==> edge_fault(u) is None,
{
    law_customer_updates_are_taken_if_they_add_up(u);
}

/// Whether two versions have the same counters.
pub open spec fn is_version(a: CustomerLogicalVersion, b: CustomerVersion) -> bool {
    a.payment_count == b.payment_count && a.delivery_count == b.delivery_count
}

/// Law: a collector takes an update of a stock row exactly if it is one: between one and
/// ten pieces go out, the order count goes up by one and the remote count by the line's
/// share, the total by the pieces, and the stock by the pieces or, where fewer than ten
/// would be left, up by ninety-one less the pieces.
pub proof fn law_stock_updates_are_taken_if_they_add_up(
    ordered: u8,
    remote: u8,
    before: StockVersion,
    after: StockVersion,
)
    ensures
        stock_edge_fault(ordered, remote, before, after) is None <==> {
            &&& 1 <= ordered <= 10
            &&& remote <= 1
            &&& before.order_count >= 0 && before.remote_count >= 0
            &&& after.order_count == before.order_count + 1
            &&& after.remote_count == before.remote_count + remote
            &&& 10 <= before.quantity <= 100
            &&& 10 <= after.quantity <= 100
            &&& after.quantity == before.quantity - ordered || after.quantity == before.quantity
                - ordered + 91
            &&& is_finite(before.ytd_bits) && is_finite(after.ytd_bits)
            &&& moved(sum(before.ytd_bits, integer_pattern(ordered as int)), after.ytd_bits)
        },
{
    if is_finite(before.ytd_bits) && is_finite(after.ytd_bits) {
        lemma_sum_finite(before.ytd_bits, integer_pattern(ordered as int));
        lemma_moved(sum(before.ytd_bits, integer_pattern(ordered as int)), after.ytd_bits);
    }
}

/// Whether a line was read in range.
pub open spec fn read_in_range(line: MaterializedModel) -> bool {
    &&& 1 <= line.plan.quantity <= 10
    &&& 10 <= line.initial_stock.quantity <= 100
    &&& 0 <= line.initial_stock.order_count
    &&& 0 <= line.initial_stock.remote_count
    &&& is_finite(line.initial_stock.ytd_bits)
}

/// The stock before a line is in range.
proof fn lemma_before_in_range(order: OrderPlan, lines: Seq<MaterializedModel>, k: int)
    requires
        0 <= k < lines.len(),
        forall|j: int| 0 <= j < lines.len() ==> read_in_range(#[trigger] lines[j]),
        forall|j: int| 0 <= j < lines.len() ==> #[trigger] write_fault(order, lines, j) is None,
        forall|j: int| 0 <= j < lines.len() ==> #[trigger] after_is_finite(order, lines, j),
    ensures
        ({
            let before = stock_before(order, lines, k);
            &&& 10 <= before.quantity <= 100
            &&& 0 <= before.order_count
            &&& 0 <= before.remote_count
            &&& is_finite(before.ytd_bits)
        }),
    decreases k,
{
    let key = stock_key_of(lines[k].plan);
    lemma_last_on_row(lines, k, key);
    assert(read_in_range(lines[k]));
    if let Some(j) = last_on_row(lines, k, key) {
        lemma_before_in_range(order, lines, j);
        assert(write_fault(order, lines, j) is None);
        assert(after_is_finite(order, lines, j));
        assert(read_in_range(lines[j]));
    }
}

/// Law: what a NewOrder says of the stock of its lines are updates that a collector takes,
/// each remote exactly if its line comes from another warehouse.
pub proof fn law_evidence_of_stock_is_taken(order: OrderPlan, read: ReadOrder, k: int)
    requires
        0 <= k < read.lines.len(),
        second_batch_fault(order, read) is None,
        forall|j: int| 0 <= j < read.lines.len() ==> read_in_range(#[trigger] read.lines[j]),
        forall|j: int|
            0 <= j < read.lines.len() ==> #[trigger] after_is_finite(order, read.lines, j),
    ensures
        ({
            let line = second_batch(order, read).recovery_lines[k];
            let remote = if line.supply_warehouse == order.warehouse_id {
                0u8
            } else {
                1u8
            };
            stock_edge_fault(line.quantity, remote, line.stock_before, line.stock_after) is None
        }),
{
    let lines = read.lines;
    assert forall|j: int| 0 <= j < lines.len() implies #[trigger] write_fault(order, lines, j)
        is None by {
        lemma_write_accepted(order, lines, 0, j);
    }
    lemma_before_in_range(order, lines, k);
    assert(write_fault(order, lines, k) is None);
    assert(after_is_finite(order, lines, k));
    assert(read_in_range(lines[k]));
}

} // verus!
