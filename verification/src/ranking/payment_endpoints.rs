//! Chains of Payment totals on the warehouse and district rows.
//!
//! Responses may arrive out of commit order. A bounded buffer keeps the
//! warehouse and the district edge of each Payment together and advances both
//! chains in one common serial order, so that contradictory orders of the two
//! rows do not pass.
use vstd::prelude::*;

use crate::binary32::{
    INFINITY_BITS, at_most, finite, is_finite, lemma_sum_moves_forward, order_key, sum, sum_bits,
    total_order_key, value,
};
use crate::checks::{first, refusal, refused_if};

verus! {

pub const MAX_PAYMENT_WAREHOUSES: u16 = 50;

pub const DISTRICTS_PER_WAREHOUSE: u8 = 10;

/// 300 000 in binary32.
pub const WAREHOUSE_YTD_ROOT_BITS: u32 = 0x4892_7c00;

/// 30 000 in binary32.
pub const DISTRICT_YTD_ROOT_BITS: u32 = 0x46ea_6000;

/// One relative update of a total, as a Payment read it.
#[derive(Clone, Copy, Debug, PartialEq, Eq, Structural)]
pub struct PaymentFloatEdge {
    pub before_bits: u32,
    pub after_bits: u32,
    pub amount_bits: u32,
}

/// The two edges of one successful Payment.
#[derive(Clone, Copy, Debug, PartialEq, Eq, Structural)]
pub struct PaymentTerminalEvidence {
    pub warehouse_id: u16,
    pub district_id: u8,
    pub warehouse: PaymentFloatEdge,
    pub district: PaymentFloatEdge,
}

#[derive(Clone, Debug, PartialEq, Eq)]
pub enum PaymentEndpointError {
    InvalidConfiguration(&'static str),
    InvalidKey { warehouse_id: u16, district_id: Option<u8> },
    NonFinite { domain: &'static str, field: &'static str },
    NonPositiveAmount { domain: &'static str },
    PairedAmountMismatch,
    FloatMismatch { domain: &'static str },
    StaleInterval { domain: &'static str },
    Fork { domain: &'static str },
    PendingLimit { actual: usize, limit: usize },
    Overflow(&'static str),
    Disconnected { pending_edges: usize },
    Poisoned,
    InvalidInvariant(&'static str),
}

/// How much a collector holds. The capacity is what its limit allows.
#[derive(Clone, Copy, Debug, PartialEq, Eq, Structural)]
pub struct PaymentCollectorStorage {
    pub warehouse_slots: usize,
    pub district_slots: usize,
    pub pending_edges: usize,
    pub pending_capacity: usize,
    pub terminal_count: u64,
}

/// The updates of one row, from its first total to its last.
#[derive(Clone, Copy, Debug, PartialEq, Eq, Structural)]
pub struct EndpointChain {
    pub root_bits: u32,
    pub endpoint_bits: u32,
    pub update_count: u64,
}

/// A checked update of one row.
#[derive(Clone, Copy, Debug, PartialEq, Eq, Structural)]
pub struct ValidatedEdge {
    pub before_bits: u32,
    pub after_bits: u32,
}

/// A Payment that waits for those before it.
#[derive(Clone, Copy, Debug, PartialEq, Eq, Structural)]
pub struct BufferedTerminal {
    pub warehouse_index: usize,
    pub district_index: usize,
    pub warehouse: ValidatedEdge,
    pub district: ValidatedEdge,
}

/// An update that rounds back to the total it started from.
pub open spec fn is_loop(edge: ValidatedEdge) -> bool {
    edge.before_bits == edge.after_bits
}

/// Two updates that lead away from the same total.
pub open spec fn clashes(a: ValidatedEdge, b: ValidatedEdge) -> bool {
    a.before_bits == b.before_bits && !is_loop(a) && !is_loop(b)
}

/// Why two Payments cannot both be: their updates fork a row.
pub open spec fn fork_between(left: BufferedTerminal, right: BufferedTerminal) -> Option<
    PaymentEndpointError,
> {
    first(
        refused_if(
            left.warehouse_index == right.warehouse_index && clashes(
                left.warehouse,
                right.warehouse,
            ),
            PaymentEndpointError::Fork { domain: "warehouse.w_ytd" },
        ),
        refused_if(
            left.district_index == right.district_index && clashes(left.district, right.district),
            PaymentEndpointError::Fork { domain: "district.d_ytd" },
        ),
    )
}

/// Why a Payment is refused beside those from `i` on.
pub open spec fn fork_fault(
    pending: Seq<BufferedTerminal>,
    terminal: BufferedTerminal,
    i: int,
) -> Option<PaymentEndpointError>
    decreases pending.len() - i,
{
    if i >= pending.len() {
        None
    } else {
        first(fork_between(pending[i], terminal), fork_fault(pending, terminal, i + 1))
    }
}

/// No two Payments fork a row.
pub open spec fn no_forks(pending: Seq<BufferedTerminal>) -> bool {
    forall|i: int, j: int|
        0 <= i < j < pending.len() ==> (#[trigger] fork_between(pending[i], pending[j])) is None
}

/// A Payment waits that keeps the total of its warehouse.
pub open spec fn warehouse_loop_waits(
    pending: Seq<BufferedTerminal>,
    terminal: BufferedTerminal,
) -> bool {
    exists|k: int|
        0 <= k < pending.len() && (#[trigger] pending[k]).warehouse_index
            == terminal.warehouse_index && pending[k].warehouse.before_bits
            == terminal.warehouse.before_bits && is_loop(pending[k].warehouse)
}

/// A Payment waits that keeps the total of its district.
pub open spec fn district_loop_waits(
    pending: Seq<BufferedTerminal>,
    terminal: BufferedTerminal,
) -> bool {
    exists|k: int|
        0 <= k < pending.len() && (#[trigger] pending[k]).district_index
            == terminal.district_index && pending[k].district.before_bits
            == terminal.district.before_bits && is_loop(pending[k].district)
}

/// The content of a [`PaymentEndpointCollector`].
#[verifier::ext_equal]
pub struct PaymentChains {
    pub warehouses: u16,
    pub terminal_limit: usize,
    pub warehouse_chains: Seq<EndpointChain>,
    pub district_chains: Seq<EndpointChain>,
    pub pending: Seq<BufferedTerminal>,
    pub terminal_count: u64,
    pub poisoned: bool,
}

/// A Payment can be the next on both of its rows: it starts where they end, and
/// updates that keep a total come before one that leaves it.
pub open spec fn is_minimal(m: PaymentChains, terminal: BufferedTerminal) -> bool {
    &&& terminal.warehouse.before_bits
        == m.warehouse_chains[terminal.warehouse_index as int].endpoint_bits
    &&& terminal.district.before_bits
        == m.district_chains[terminal.district_index as int].endpoint_bits
    &&& is_loop(terminal.warehouse) || !warehouse_loop_waits(m.pending, terminal)
    &&& is_loop(terminal.district) || !district_loop_waits(m.pending, terminal)
}

/// The first Payment from `i` on that can be the next.
pub open spec fn first_minimal(m: PaymentChains, i: int) -> Option<int>
    decreases m.pending.len() - i,
{
    if i >= m.pending.len() {
        None
    } else if is_minimal(m, m.pending[i]) {
        Some(i)
    } else {
        first_minimal(m, i + 1)
    }
}

/// A chain with one more update.
pub open spec fn extended(chain: EndpointChain, edge: ValidatedEdge) -> EndpointChain {
    EndpointChain {
        root_bits: chain.root_bits,
        endpoint_bits: edge.after_bits,
        update_count: (chain.update_count + 1) as u64,
    }
}

/// A list without the entry at `i`, whose place the last one takes.
pub open spec fn swap_removed<T>(s: Seq<T>, i: int) -> Seq<T> {
    s.update(i, s.last()).drop_last()
}

/// The chains after the Payment at `i`.
pub open spec fn advanced(m: PaymentChains, i: int) -> PaymentChains {
    let t = m.pending[i];
    let w = t.warehouse_index as int;
    let d = t.district_index as int;
    PaymentChains {
        warehouse_chains: m.warehouse_chains.update(
            w,
            extended(m.warehouse_chains[w], t.warehouse),
        ),
        district_chains: m.district_chains.update(d, extended(m.district_chains[d], t.district)),
        pending: swap_removed(m.pending, i),
        ..m
    }
}

/// Why a place is refused.
pub open spec fn payment_key_fault(warehouses: u16, warehouse_id: u16, district_id: u8) -> Option<
    PaymentEndpointError,
> {
    first(
        refused_if(
            warehouse_id == 0 || warehouse_id > warehouses,
            PaymentEndpointError::InvalidKey { warehouse_id, district_id: None },
        ),
        refused_if(
            district_id == 0 || district_id > 10,
            PaymentEndpointError::InvalidKey { warehouse_id, district_id: Some(district_id) },
        ),
    )
}

/// Why an edge is refused: it must add a positive amount, to the last bit.
pub open spec fn float_edge_fault(domain: &'static str, edge: PaymentFloatEdge) -> Option<
    PaymentEndpointError,
> {
    first(
        refused_if(
            !is_finite(edge.before_bits),
            PaymentEndpointError::NonFinite { domain, field: "before" },
        ),
        first(
            refused_if(
                !is_finite(edge.after_bits),
                PaymentEndpointError::NonFinite { domain, field: "after" },
            ),
            first(
                refused_if(
                    !is_finite(edge.amount_bits),
                    PaymentEndpointError::NonFinite { domain, field: "amount" },
                ),
                first(
                    refused_if(
                        value(edge.amount_bits) <= 0,
                        PaymentEndpointError::NonPositiveAmount { domain },
                    ),
                    refused_if(
                        sum(edge.before_bits, edge.amount_bits) != Some(edge.after_bits),
                        PaymentEndpointError::FloatMismatch { domain },
                    ),
                ),
            ),
        ),
    )
}

/// Why an edge is refused behind the end of its chain.
pub open spec fn stale_fault(domain: &'static str, before: u32, chain: EndpointChain) -> Option<
    PaymentEndpointError,
> {
    refused_if(
        total_order_key(before) < total_order_key(chain.endpoint_bits),
        PaymentEndpointError::StaleInterval { domain },
    )
}

/// The position of a district.
pub open spec fn district_place(warehouse_id: u16, district_id: u8) -> int {
    (warehouse_id - 1) * 10 + (district_id - 1)
}

/// The edge without its amount.
pub open spec fn checked_edge(edge: PaymentFloatEdge) -> ValidatedEdge {
    ValidatedEdge { before_bits: edge.before_bits, after_bits: edge.after_bits }
}

/// A Payment as it waits.
pub open spec fn buffered(t: PaymentTerminalEvidence) -> BufferedTerminal {
    BufferedTerminal {
        warehouse_index: (t.warehouse_id - 1) as usize,
        district_index: district_place(t.warehouse_id, t.district_id) as usize,
        warehouse: checked_edge(t.warehouse),
        district: checked_edge(t.district),
    }
}

/// Why a Payment is refused by itself.
pub open spec fn payment_edges_fault(warehouses: u16, t: PaymentTerminalEvidence) -> Option<
    PaymentEndpointError,
> {
    first(
        payment_key_fault(warehouses, t.warehouse_id, t.district_id),
        first(
            refused_if(
                t.warehouse.amount_bits != t.district.amount_bits,
                PaymentEndpointError::PairedAmountMismatch,
            ),
            first(
                float_edge_fault("warehouse.w_ytd", t.warehouse),
                float_edge_fault("district.d_ytd", t.district),
            ),
        ),
    )
}

/// Why a Payment is refused beside the chains.
pub open spec fn frontier_fault(m: PaymentChains, t: BufferedTerminal) -> Option<
    PaymentEndpointError,
> {
    first(
        stale_fault(
            "warehouse.w_ytd",
            t.warehouse.before_bits,
            m.warehouse_chains[t.warehouse_index as int],
        ),
        stale_fault(
            "district.d_ytd",
            t.district.before_bits,
            m.district_chains[t.district_index as int],
        ),
    )
}

/// The collector with one more Payment in its buffer.
pub open spec fn enqueued(m: PaymentChains, t: BufferedTerminal) -> PaymentChains {
    PaymentChains {
        pending: m.pending.push(t),
        terminal_count: (m.terminal_count + 1) as u64,
        ..m
    }
}

/// Why a Payment is refused.
pub open spec fn payment_record_fault(m: PaymentChains, t: PaymentTerminalEvidence) -> Option<
    PaymentEndpointError,
> {
    let b = buffered(t);
    first(
        refused_if(m.poisoned, PaymentEndpointError::Poisoned),
        first(
            payment_edges_fault(m.warehouses, t),
            first(
                frontier_fault(m, b),
                first(
                    refused_if(
                        m.terminal_count == u64::MAX,
                        PaymentEndpointError::Overflow("terminal count"),
                    ),
                    first(
                        fork_fault(m.pending, b, 0),
                        refused_if(
                            m.pending.len() + 1 > m.terminal_limit && first_minimal(
                                enqueued(m, b),
                                0,
                            ) is None,
                            PaymentEndpointError::PendingLimit {
                                actual: (2 * (m.pending.len() + 1)) as usize,
                                limit: (2 * m.terminal_limit) as usize,
                            },
                        ),
                    ),
                ),
            ),
        ),
    )
}

/// The collector after a Payment that is accepted: where the buffer is full,
/// the first Payment that can be the next leaves it.
pub open spec fn payment_recorded(m: PaymentChains, t: PaymentTerminalEvidence) -> PaymentChains {
    let queued = enqueued(m, buffered(t));
    if queued.pending.len() <= m.terminal_limit {
        queued
    } else {
        advanced(queued, first_minimal(queued, 0)->0)
    }
}

/// The chains after every Payment that can go.
pub open spec fn payments_drained(m: PaymentChains) -> PaymentChains
    decreases m.pending.len(),
    via payments_drained_decreases
{
    match first_minimal(m, 0) {
        Some(i) => payments_drained(advanced(m, i)),
        None => m,
    }
}

/// The first Payment that can be the next is one that can, and the first.
pub proof fn lemma_first_minimal(m: PaymentChains, i: int)
    requires
        0 <= i,
    ensures
        match first_minimal(m, i) {
            Some(k) => i <= k < m.pending.len() && is_minimal(m, m.pending[k]) && forall|j: int|
                i <= j < k ==> !is_minimal(m, #[trigger] m.pending[j]),
            None => forall|j: int|
                i <= j < m.pending.len() ==> !is_minimal(m, #[trigger] m.pending[j]),
        },
    decreases m.pending.len() - i,
{
    if i < m.pending.len() && !is_minimal(m, m.pending[i]) {
        lemma_first_minimal(m, i + 1);
    }
}

#[via_fn]
proof fn payments_drained_decreases(m: PaymentChains) {
    lemma_first_minimal(m, 0);
}

/// An update leads from one total to one that is not smaller, both positive.
pub open spec fn moves_forward(edge: ValidatedEdge) -> bool {
    edge.before_bits <= edge.after_bits < INFINITY_BITS
}

/// A chain starts at its root, never lies behind it, and leaves it only by
/// updates.
pub open spec fn chain_sound(chain: EndpointChain, root: u32) -> bool {
    &&& chain.root_bits == root
    &&& root <= chain.endpoint_bits < INFINITY_BITS
    &&& chain.update_count == 0 ==> chain.endpoint_bits == root
}

/// The updates of `n` chains from one on.
pub open spec fn updates_from(chains: Seq<EndpointChain>, from: int, n: int) -> nat
    decreases n,
{
    if n <= 0 {
        0
    } else {
        updates_from(chains, from, n - 1) + chains[from + n - 1].update_count as nat
    }
}

/// A Payment waits for rows that there are.
pub open spec fn terminal_sound(warehouses: u16, t: BufferedTerminal) -> bool {
    &&& t.warehouse_index < warehouses
    &&& t.district_index < 10 * warehouses
    &&& t.district_index / 10 == t.warehouse_index
    &&& moves_forward(t.warehouse)
    &&& moves_forward(t.district)
}

/// The chains agree with each other: each warehouse has the updates of its
/// districts.
pub open spec fn chains_sound(
    warehouses: u16,
    warehouse_chains: Seq<EndpointChain>,
    district_chains: Seq<EndpointChain>,
) -> bool {
    &&& 1 <= warehouses <= 50
    &&& warehouse_chains.len() == warehouses
    &&& district_chains.len() == 10 * warehouses
    &&& forall|i: int|
        0 <= i < warehouses ==> chain_sound(#[trigger] warehouse_chains[i], 0x4892_7c00)
    &&& forall|i: int|
        0 <= i < 10 * warehouses ==> chain_sound(#[trigger] district_chains[i], 0x46ea_6000)
    &&& forall|i: int|
        0 <= i < warehouses ==> (#[trigger] warehouse_chains[i]).update_count == updates_from(
            district_chains,
            10 * i,
            10,
        )
}

/// What every operation keeps.
pub open spec fn payments_sound(m: PaymentChains) -> bool {
    &&& chains_sound(m.warehouses, m.warehouse_chains, m.district_chains)
    &&& 1 <= m.terminal_limit <= 0xffff
    &&& m.pending.len() <= m.terminal_limit + 1
    &&& no_forks(m.pending)
    &&& forall|i: int|
        0 <= i < m.pending.len() ==> terminal_sound(m.warehouses, #[trigger] m.pending[i])
    &&& updates_from(m.warehouse_chains, 0, m.warehouses as int) + m.pending.len()
        == m.terminal_count
}

proof fn lemma_updates_include(chains: Seq<EndpointChain>, from: int, n: int, i: int)
    requires
        from <= i < from + n,
    ensures
        chains[i].update_count <= updates_from(chains, from, n),
    decreases n,
{
    if i < from + n - 1 {
        lemma_updates_include(chains, from, n - 1, i);
    }
}

proof fn lemma_updates_changed(
    chains: Seq<EndpointChain>,
    from: int,
    n: int,
    i: int,
    chain: EndpointChain,
)
    requires
        0 <= from,
        0 <= n,
        from + n <= chains.len(),
        0 <= i < chains.len(),
        chain.update_count == chains[i].update_count + 1,
    ensures
        updates_from(chains.update(i, chain), from, n) == updates_from(chains, from, n) + if from
            <= i < from + n {
            1int
        } else {
            0
        },
    decreases n,
{
    if n > 0 {
        lemma_updates_changed(chains, from, n - 1, i, chain);
    }
}

/// A Payment that goes keeps everything sound.
pub proof fn lemma_advanced_sound(m: PaymentChains, i: int)
    requires
        payments_sound(m),
        0 <= i < m.pending.len(),
        is_minimal(m, m.pending[i]),
    ensures
        payments_sound(advanced(m, i)),
        m.warehouse_chains[m.pending[i].warehouse_index as int].update_count < u64::MAX,
        m.district_chains[m.pending[i].district_index as int].update_count < u64::MAX,
{
    let t = m.pending[i];
    let next = advanced(m, i);
    let w = t.warehouse_index as int;
    let d = t.district_index as int;
    assert(terminal_sound(m.warehouses, t));
    lemma_updates_include(m.warehouse_chains, 0, m.warehouses as int, w);
    lemma_updates_include(m.district_chains, 10 * w, 10, d);
    assert(m.warehouse_chains[w].update_count == updates_from(m.district_chains, 10 * w, 10));
    let wc = extended(m.warehouse_chains[w], t.warehouse);
    let dc = extended(m.district_chains[d], t.district);
    lemma_updates_changed(m.warehouse_chains, 0, m.warehouses as int, w, wc);
    assert forall|k: int| 0 <= k < m.warehouses implies (
    #[trigger] next.warehouse_chains[k]).update_count == updates_from(
        next.district_chains,
        10 * k,
        10,
    ) by {
        lemma_updates_changed(m.district_chains, 10 * k, 10, d, dc);
        assert(m.warehouse_chains[k].update_count == updates_from(m.district_chains, 10 * k, 10));
    }
    assert(chain_sound(m.warehouse_chains[w], 0x4892_7c00));
    assert(chain_sound(m.district_chains[d], 0x46ea_6000));
    let last = m.pending.len() - 1;
    assert forall|a: int, b: int| 0 <= a < b < next.pending.len() implies (
    #[trigger] fork_between(next.pending[a], next.pending[b])) is None by {
        let x = if a == i {
            last
        } else {
            a
        };
        let y = if b == i {
            last
        } else {
            b
        };
        assert(next.pending[a] == m.pending[x]);
        assert(next.pending[b] == m.pending[y]);
        if x < y {
            assert(fork_between(m.pending[x], m.pending[y]) is None);
        } else {
            assert(fork_between(m.pending[y], m.pending[x]) is None);
        }
    }
    assert forall|k: int| 0 <= k < next.pending.len() implies terminal_sound(
        next.warehouses,
        #[trigger] next.pending[k],
    ) by {
        if k == i {
            assert(terminal_sound(m.warehouses, m.pending[last]));
        } else {
            assert(terminal_sound(m.warehouses, m.pending[k]));
        }
    }
}

proof fn lemma_fork_fault_none(pending: Seq<BufferedTerminal>, t: BufferedTerminal, i: int)
    requires
        0 <= i,
        fork_fault(pending, t, i) is None,
    ensures
        forall|k: int|
            i <= k < pending.len() ==> (#[trigger] fork_between(pending[k], t)) is None,
    decreases pending.len() - i,
{
    if i < pending.len() {
        lemma_fork_fault_none(pending, t, i + 1);
    }
}

/// A Payment that is accepted keeps everything sound.
pub proof fn lemma_enqueued_sound(m: PaymentChains, t: PaymentTerminalEvidence)
    requires
        payments_sound(m),
        m.pending.len() <= m.terminal_limit,
        payment_edges_fault(m.warehouses, t) is None,
        frontier_fault(m, buffered(t)) is None,
        m.terminal_count < u64::MAX,
        fork_fault(m.pending, buffered(t), 0) is None,
    ensures
        payments_sound(enqueued(m, buffered(t))),
        terminal_sound(m.warehouses, buffered(t)),
{
    let b = buffered(t);
    let next = enqueued(m, b);
    let w = t.warehouse_id - 1;
    let d = district_place(t.warehouse_id, t.district_id);
    assert(d / 10 == w);
    assert(chain_sound(m.warehouse_chains[w], 0x4892_7c00));
    assert(chain_sound(m.district_chains[d], 0x46ea_6000));
    lemma_sum_moves_forward(
        t.warehouse.before_bits,
        t.warehouse.amount_bits,
        t.warehouse.after_bits,
    );
    lemma_sum_moves_forward(t.district.before_bits, t.district.amount_bits, t.district.after_bits);
    lemma_fork_fault_none(m.pending, b, 0);
    assert forall|i: int, j: int| 0 <= i < j < next.pending.len() implies (
    #[trigger] fork_between(next.pending[i], next.pending[j])) is None by {
        if j < m.pending.len() {
            assert(fork_between(m.pending[i], m.pending[j]) is None);
        } else {
            assert(fork_between(m.pending[i], b) is None);
        }
    }
}

/// Collects the Payments of all workers in bounded memory.
///
/// At most one Payment per client stays in the buffer. Where one more arrives,
/// one must be able to go, or the collector is poisoned.
#[derive(Debug)]
pub struct PaymentEndpointCollector {
    pub warehouses: u16,
    pub terminal_limit: usize,
    pub warehouse_chains: Vec<EndpointChain>,
    pub district_chains: Vec<EndpointChain>,
    pub pending: Vec<BufferedTerminal>,
    pub terminal_count: u64,
    pub poisoned: bool,
}

impl View for PaymentEndpointCollector {
    type V = PaymentChains;

    open spec fn view(&self) -> PaymentChains {
        PaymentChains {
            warehouses: self.warehouses,
            terminal_limit: self.terminal_limit,
            warehouse_chains: self.warehouse_chains@,
            district_chains: self.district_chains@,
            pending: self.pending@,
            terminal_count: self.terminal_count,
            poisoned: self.poisoned,
        }
    }
}

/// What a collector holds, in numbers.
pub open spec fn payment_storage(m: PaymentChains) -> PaymentCollectorStorage {
    PaymentCollectorStorage {
        warehouse_slots: m.warehouse_chains.len() as usize,
        district_slots: m.district_chains.len() as usize,
        pending_edges: (2 * m.pending.len()) as usize,
        pending_capacity: (2 * m.terminal_limit) as usize,
        terminal_count: m.terminal_count,
    }
}

/// A collector between two calls.
pub open spec fn payment_collector_sound(m: PaymentChains) -> bool {
    payments_sound(m) && m.pending.len() <= m.terminal_limit
}

/// Why a collector is refused.
pub open spec fn payment_config_fault(warehouses: u16, clients: u16) -> Option<
    PaymentEndpointError,
> {
    first(
        refused_if(
            warehouses == 0 || warehouses > 50,
            PaymentEndpointError::InvalidConfiguration("warehouse count must be in 1..=50"),
        ),
        refused_if(
            clients == 0,
            PaymentEndpointError::InvalidConfiguration("client count must be positive"),
        ),
    )
}

/// A chain without updates.
pub open spec fn fresh_chain(root: u32) -> EndpointChain {
    EndpointChain { root_bits: root, endpoint_bits: root, update_count: 0 }
}

/// A collector without Payments.
pub open spec fn fresh_payments(warehouses: u16, clients: u16) -> PaymentChains {
    PaymentChains {
        warehouses,
        terminal_limit: clients as usize,
        warehouse_chains: Seq::new(warehouses as nat, |i: int| fresh_chain(0x4892_7c00)),
        district_chains: Seq::new((10 * warehouses) as nat, |i: int| fresh_chain(0x46ea_6000)),
        pending: Seq::empty(),
        terminal_count: 0,
        poisoned: false,
    }
}

fn fresh_chains(root_bits: u32, n: usize) -> (r: Vec<EndpointChain>)
    ensures
        r@ == Seq::new(n as nat, |i: int| fresh_chain(root_bits)),
{
    let mut chains: Vec<EndpointChain> = Vec::new();
    let mut i: usize = 0;
    while i < n
        invariant
            i <= n,
            chains@ =~= Seq::new(i as nat, |k: int| fresh_chain(root_bits)),
        decreases n - i,
    {
        chains.push(EndpointChain { root_bits, endpoint_bits: root_bits, update_count: 0 });
        i = i + 1;
    }
    chains
}

proof fn lemma_no_updates(chains: Seq<EndpointChain>, from: int, n: int)
    requires
        0 <= from,
        from + n <= chains.len(),
        forall|i: int| 0 <= i < chains.len() ==> (#[trigger] chains[i]).update_count == 0,
    ensures
        updates_from(chains, from, n) == 0,
    decreases n,
{
    if n > 0 {
        lemma_no_updates(chains, from, n - 1);
    }
}

/// A collector without Payments is sound.
pub proof fn lemma_fresh_payments_sound(warehouses: u16, clients: u16)
    requires
        payment_config_fault(warehouses, clients) is None,
    ensures
        payment_collector_sound(fresh_payments(warehouses, clients)),
{
    let m = fresh_payments(warehouses, clients);
    lemma_no_updates(m.warehouse_chains, 0, warehouses as int);
    assert forall|i: int| 0 <= i < warehouses implies (
    #[trigger] m.warehouse_chains[i]).update_count == updates_from(
        m.district_chains,
        10 * i,
        10,
    ) by {
        lemma_no_updates(m.district_chains, 10 * i, 10);
    }
}

fn require_finite(domain: &'static str, field: &'static str, bits: u32) -> (r: Result<
    (),
    PaymentEndpointError,
>)
    ensures
        refusal(r) == refused_if(
            !is_finite(bits),
            PaymentEndpointError::NonFinite { domain, field },
        ),
{
    if !finite(bits) {
        return Err(PaymentEndpointError::NonFinite { domain, field });
    }
    Ok(())
}

fn validate_edge(domain: &'static str, edge: PaymentFloatEdge) -> (r: Result<
    ValidatedEdge,
    PaymentEndpointError,
>)
    ensures
        refusal(r) == float_edge_fault(domain, edge),
        r matches Ok(e) ==> e == checked_edge(edge),
{
    require_finite(domain, "before", edge.before_bits)?;
    require_finite(domain, "after", edge.after_bits)?;
    require_finite(domain, "amount", edge.amount_bits)?;
    assert(value(0) == 0);
    if at_most(edge.amount_bits, 0) {
        return Err(PaymentEndpointError::NonPositiveAmount { domain });
    }
    let exact = match sum_bits(edge.before_bits, edge.amount_bits) {
        Some(bits) => bits == edge.after_bits,
        None => false,
    };
    if !exact {
        return Err(PaymentEndpointError::FloatMismatch { domain });
    }
    Ok(ValidatedEdge { before_bits: edge.before_bits, after_bits: edge.after_bits })
}

fn reject_behind_frontier(domain: &'static str, edge: ValidatedEdge, chain: EndpointChain) -> (r:
    Result<(), PaymentEndpointError>)
    ensures
        refusal(r) == stale_fault(domain, edge.before_bits, chain),
{
    if order_key(edge.before_bits) < order_key(chain.endpoint_bits) {
        return Err(PaymentEndpointError::StaleInterval { domain });
    }
    Ok(())
}

fn is_self_loop(edge: ValidatedEdge) -> (r: bool)
    ensures
        r == is_loop(edge),
{
    edge.before_bits == edge.after_bits
}

fn edges_clash(a: ValidatedEdge, b: ValidatedEdge) -> (r: bool)
    ensures
        r == clashes(a, b),
{
    a.before_bits == b.before_bits && !is_self_loop(a) && !is_self_loop(b)
}

fn validate_visible_forks(pending: &Vec<BufferedTerminal>, terminal: BufferedTerminal) -> (r:
    Result<(), PaymentEndpointError>)
    ensures
        refusal(r) == fork_fault(pending@, terminal, 0),
{
    let mut i: usize = 0;
    while i < pending.len()
        invariant
            i <= pending@.len(),
            fork_fault(pending@, terminal, 0) == fork_fault(pending@, terminal, i as int),
        decreases pending@.len() - i,
    {
        let left = pending[i];
        if left.warehouse_index == terminal.warehouse_index && edges_clash(
            left.warehouse,
            terminal.warehouse,
        ) {
            return Err(PaymentEndpointError::Fork { domain: "warehouse.w_ytd" });
        }
        if left.district_index == terminal.district_index && edges_clash(
            left.district,
            terminal.district,
        ) {
            return Err(PaymentEndpointError::Fork { domain: "district.d_ytd" });
        }
        i = i + 1;
    }
    Ok(())
}

impl PaymentEndpointCollector {
    pub fn new(warehouses: u16, clients: u16) -> (r: Result<Self, PaymentEndpointError>)
        ensures
            refusal(r) == payment_config_fault(warehouses, clients),
            r matches Ok(c) ==> c@ == fresh_payments(warehouses, clients) && payment_collector_sound(c@),
    {
        if warehouses == 0 || warehouses > MAX_PAYMENT_WAREHOUSES {
            return Err(
                PaymentEndpointError::InvalidConfiguration("warehouse count must be in 1..=50"),
            );
        }
        if clients == 0 {
            return Err(
                PaymentEndpointError::InvalidConfiguration("client count must be positive"),
            );
        }
        proof {
            lemma_fresh_payments_sound(warehouses, clients);
        }
        Ok(
            PaymentEndpointCollector {
                warehouses,
                terminal_limit: clients as usize,
                warehouse_chains: fresh_chains(WAREHOUSE_YTD_ROOT_BITS, warehouses as usize),
                district_chains: fresh_chains(DISTRICT_YTD_ROOT_BITS, warehouses as usize * 10),
                pending: Vec::new(),
                terminal_count: 0,
                poisoned: false,
            },
        )
    }

    fn check_terminal(&self, terminal: PaymentTerminalEvidence) -> (r: Result<
        BufferedTerminal,
        PaymentEndpointError,
    >)
        requires
            payment_collector_sound(self@),
        ensures
            refusal(r) == first(
                payment_edges_fault(self.warehouses, terminal),
                first(
                    frontier_fault(self@, buffered(terminal)),
                    first(
                        refused_if(
                            self.terminal_count == u64::MAX,
                            PaymentEndpointError::Overflow("terminal count"),
                        ),
                        fork_fault(self.pending@, buffered(terminal), 0),
                    ),
                ),
            ),
            r matches Ok(b) ==> b == buffered(terminal),
    {
        let warehouse_id: u16 = terminal.warehouse_id;
        let district_id: u8 = terminal.district_id;
        if warehouse_id == 0 || warehouse_id > self.warehouses {
            return Err(PaymentEndpointError::InvalidKey { warehouse_id, district_id: None });
        }
        if district_id == 0 || district_id > DISTRICTS_PER_WAREHOUSE {
            return Err(
                PaymentEndpointError::InvalidKey { warehouse_id, district_id: Some(district_id) },
            );
        }
        if terminal.warehouse.amount_bits != terminal.district.amount_bits {
            return Err(PaymentEndpointError::PairedAmountMismatch);
        }
        let warehouse = validate_edge("warehouse.w_ytd", terminal.warehouse)?;
        let district = validate_edge("district.d_ytd", terminal.district)?;
        let warehouse_index: usize = warehouse_id as usize - 1;
        let district_index: usize = warehouse_index * 10 + (district_id as usize - 1);
        reject_behind_frontier(
            "warehouse.w_ytd",
            warehouse,
            self.warehouse_chains[warehouse_index],
        )?;
        reject_behind_frontier("district.d_ytd", district, self.district_chains[district_index])?;
        if self.terminal_count == u64::MAX {
            return Err(PaymentEndpointError::Overflow("terminal count"));
        }
        let buffer = BufferedTerminal { warehouse_index, district_index, warehouse, district };
        validate_visible_forks(&self.pending, buffer)?;
        Ok(buffer)
    }

    fn has_warehouse_loop(&self, terminal: BufferedTerminal) -> (r: bool)
        ensures
            r == warehouse_loop_waits(self.pending@, terminal),
    {
        let mut k: usize = 0;
        while k < self.pending.len()
            invariant
                k <= self.pending@.len(),
                forall|j: int|
                    0 <= j < k ==> !((#[trigger] self.pending@[j]).warehouse_index
                        == terminal.warehouse_index && self.pending@[j].warehouse.before_bits
                        == terminal.warehouse.before_bits && is_loop(self.pending@[j].warehouse)),
            decreases self.pending@.len() - k,
        {
            let other = self.pending[k];
            if other.warehouse_index == terminal.warehouse_index && other.warehouse.before_bits
                == terminal.warehouse.before_bits && is_self_loop(other.warehouse) {
                assert(self.pending@[k as int].warehouse_index == terminal.warehouse_index);
                return true;
            }
            k = k + 1;
        }
        false
    }

    fn has_district_loop(&self, terminal: BufferedTerminal) -> (r: bool)
        ensures
            r == district_loop_waits(self.pending@, terminal),
    {
        let mut k: usize = 0;
        while k < self.pending.len()
            invariant
                k <= self.pending@.len(),
                forall|j: int|
                    0 <= j < k ==> !((#[trigger] self.pending@[j]).district_index
                        == terminal.district_index && self.pending@[j].district.before_bits
                        == terminal.district.before_bits && is_loop(self.pending@[j].district)),
            decreases self.pending@.len() - k,
        {
            let other = self.pending[k];
            if other.district_index == terminal.district_index && other.district.before_bits
                == terminal.district.before_bits && is_self_loop(other.district) {
                assert(self.pending@[k as int].district_index == terminal.district_index);
                return true;
            }
            k = k + 1;
        }
        false
    }

    fn terminal_is_minimal(&self, terminal: BufferedTerminal) -> (r: bool)
        requires
            terminal.warehouse_index < self.warehouse_chains@.len(),
            terminal.district_index < self.district_chains@.len(),
        ensures
            r == is_minimal(self@, terminal),
    {
        if terminal.warehouse.before_bits
            != self.warehouse_chains[terminal.warehouse_index].endpoint_bits
            || terminal.district.before_bits
            != self.district_chains[terminal.district_index].endpoint_bits {
            return false;
        }
        if !is_self_loop(terminal.warehouse) && self.has_warehouse_loop(terminal) {
            return false;
        }
        is_self_loop(terminal.district) || !self.has_district_loop(terminal)
    }

    /// Applies the first Payment that can be the next.
    fn apply_one_serializable(&mut self) -> (r: bool)
        requires
            payments_sound(old(self)@),
        ensures
            payments_sound(final(self)@),
            r == (first_minimal(old(self)@, 0) is Some),
            !r ==> final(self)@ == old(self)@,
            r ==> final(self)@ == advanced(old(self)@, first_minimal(old(self)@, 0)->0),
            r ==> final(self).pending@.len() + 1 == old(self).pending@.len(),
    {
        let mut i: usize = 0;
        let ghost before = self@;
        while i < self.pending.len()
            invariant
                i <= self.pending@.len(),
                self@ == before,
                before == old(self)@,
                payments_sound(before),
                first_minimal(before, 0) == first_minimal(before, i as int),
            decreases self.pending@.len() - i,
        {
            let terminal = self.pending[i];
            assert(terminal_sound(before.warehouses, before.pending[i as int]));
            if self.terminal_is_minimal(terminal) {
                proof {
                    lemma_advanced_sound(before, i as int);
                }
                let w: usize = terminal.warehouse_index;
                let d: usize = terminal.district_index;
                let warehouse = self.warehouse_chains[w];
                let district = self.district_chains[d];
                self.warehouse_chains.set(
                    w,
                    EndpointChain {
                        root_bits: warehouse.root_bits,
                        endpoint_bits: terminal.warehouse.after_bits,
                        update_count: warehouse.update_count + 1,
                    },
                );
                self.district_chains.set(
                    d,
                    EndpointChain {
                        root_bits: district.root_bits,
                        endpoint_bits: terminal.district.after_bits,
                        update_count: district.update_count + 1,
                    },
                );
                self.pending.swap_remove(i);
                assert(self@ =~= advanced(before, i as int));
                return true;
            }
            i = i + 1;
        }
        false
    }

    /// Checks a Payment and takes it in. A Payment that is refused changes
    /// nothing but poisons the collector.
    pub fn record_terminal(&mut self, terminal: PaymentTerminalEvidence) -> (r: Result<
        (),
        PaymentEndpointError,
    >)
        requires
            payment_collector_sound(old(self)@),
        ensures
            payment_collector_sound(final(self)@),
            refusal(r) == payment_record_fault(old(self)@, terminal),
            r is Ok ==> final(self)@ == payment_recorded(old(self)@, terminal),
            r is Err ==> final(self)@ == (PaymentChains { poisoned: true, ..old(self)@ }),
    {
        if self.poisoned {
            return Err(PaymentEndpointError::Poisoned);
        }
        let buffer = match self.check_terminal(terminal) {
            Ok(buffer) => buffer,
            Err(error) => {
                self.poisoned = true;
                return Err(error);
            },
        };
        let ghost before = self@;
        proof {
            lemma_enqueued_sound(before, terminal);
        }
        self.pending.push(buffer);
        self.terminal_count = self.terminal_count + 1;
        assert(self@ =~= enqueued(before, buffered(terminal)));
        if self.pending.len() > self.terminal_limit && !self.apply_one_serializable() {
            let actual: usize = self.pending.len() * 2;
            self.pending.pop();
            self.terminal_count = self.terminal_count - 1;
            self.poisoned = true;
            assert(self@ =~= (PaymentChains { poisoned: true, ..before }));
            return Err(
                PaymentEndpointError::PendingLimit { actual, limit: self.terminal_limit * 2 },
            );
        }
        Ok(())
    }

    pub fn storage(&self) -> (r: PaymentCollectorStorage)
        requires
            payment_collector_sound(self@),
        ensures
            r == payment_storage(self@),
    {
        PaymentCollectorStorage {
            warehouse_slots: self.warehouse_chains.len(),
            district_slots: self.district_chains.len(),
            pending_edges: self.pending.len() * 2,
            pending_capacity: self.terminal_limit * 2,
            terminal_count: self.terminal_count,
        }
    }
}

/// The content of a [`SealedPaymentEvidence`].
#[verifier::ext_equal]
pub struct SealedPayments {
    pub warehouses: u16,
    pub terminal_count: u64,
    pub warehouse_chains: Seq<EndpointChain>,
    pub district_chains: Seq<EndpointChain>,
}

/// The chains of all Payments, in one common order.
///
/// The fields are private and there is no way to decode such a value: the ends
/// of the chains and their lengths alone do not show that the updates of both
/// rows had the same amounts in the same order.
#[derive(Debug, PartialEq, Eq)]
pub struct SealedPaymentEvidence {
    warehouses: u16,
    terminal_count: u64,
    warehouse_endpoints: Vec<EndpointChain>,
    district_endpoints: Vec<EndpointChain>,
}

impl View for SealedPaymentEvidence {
    type V = SealedPayments;

    closed spec fn view(&self) -> SealedPayments {
        SealedPayments {
            warehouses: self.warehouses,
            terminal_count: self.terminal_count,
            warehouse_chains: self.warehouse_endpoints@,
            district_chains: self.district_endpoints@,
        }
    }
}

/// The chains that a collector seals.
pub open spec fn sealed_payments(m: PaymentChains) -> SealedPayments {
    let end = payments_drained(m);
    SealedPayments {
        warehouses: end.warehouses,
        terminal_count: end.terminal_count,
        warehouse_chains: end.warehouse_chains,
        district_chains: end.district_chains,
    }
}

/// Why a collector cannot be sealed.
pub open spec fn payment_seal_fault(m: PaymentChains) -> Option<PaymentEndpointError> {
    first(
        refused_if(m.poisoned, PaymentEndpointError::Poisoned),
        refused_if(
            payments_drained(m).pending.len() > 0,
            PaymentEndpointError::Disconnected {
                pending_edges: (2 * payments_drained(m).pending.len()) as usize,
            },
        ),
    )
}

/// The totals of sealed chains agree: every update of a warehouse is one of its
/// districts, and every Payment is one update of each.
pub open spec fn sealed_totals_agree(e: SealedPayments) -> bool {
    &&& chains_sound(e.warehouses, e.warehouse_chains, e.district_chains)
    &&& updates_from(e.warehouse_chains, 0, e.warehouses as int) == e.terminal_count
    &&& updates_from(e.district_chains, 0, 10 * e.warehouses) == e.terminal_count
}

proof fn lemma_updates_split(chains: Seq<EndpointChain>, from: int, n: int, m: int)
    requires
        0 <= n,
        0 <= m,
    ensures
        updates_from(chains, from, n + m) == updates_from(chains, from, n) + updates_from(
            chains,
            from + n,
            m,
        ),
    decreases m,
{
    if m > 0 {
        lemma_updates_split(chains, from, n, m - 1);
    }
}

proof fn lemma_district_total(
    warehouses: u16,
    warehouse_chains: Seq<EndpointChain>,
    district_chains: Seq<EndpointChain>,
    n: int,
)
    requires
        chains_sound(warehouses, warehouse_chains, district_chains),
        0 <= n <= warehouses,
    ensures
        updates_from(district_chains, 0, 10 * n) == updates_from(warehouse_chains, 0, n),
    decreases n,
{
    if n > 0 {
        lemma_district_total(warehouses, warehouse_chains, district_chains, n - 1);
        lemma_updates_split(district_chains, 0, 10 * (n - 1), 10);
        assert(warehouse_chains[n - 1].update_count == updates_from(
            district_chains,
            10 * (n - 1),
            10,
        ));
    }
}

impl PaymentEndpointCollector {
    /// Applies what is left in the buffer and closes the chains.
    pub fn seal(self) -> (r: Result<SealedPaymentEvidence, PaymentEndpointError>)
        requires
            payment_collector_sound(self@),
        ensures
            refusal(r) == payment_seal_fault(self@),
            r matches Ok(e) ==> e@ == sealed_payments(self@) && sealed_totals_agree(e@),
    {
        if self.poisoned {
            return Err(PaymentEndpointError::Poisoned);
        }
        let ghost goal = payments_drained(self@);
        let ghost given = self@;
        let mut rest = self;
        while rest.pending.len() > 0
            invariant
                payments_sound(rest@),
                payments_drained(rest@) == goal,
                goal == payments_drained(given),
                given == self@,
                !given.poisoned,
                rest@.terminal_limit == given.terminal_limit,
            decreases rest@.pending.len(),
        {
            let ghost before = rest@;
            if !rest.apply_one_serializable() {
                return Err(
                    PaymentEndpointError::Disconnected { pending_edges: rest.pending.len() * 2 },
                );
            }
        }
        proof {
            lemma_first_minimal(rest@, 0);
            lemma_district_total(
                rest.warehouses,
                rest.warehouse_chains@,
                rest.district_chains@,
                rest.warehouses as int,
            );
        }
        let PaymentEndpointCollector {
            warehouses,
            warehouse_chains,
            district_chains,
            terminal_count,
            ..
        } = rest;
        Ok(
            SealedPaymentEvidence {
                warehouses,
                terminal_count,
                warehouse_endpoints: warehouse_chains,
                district_endpoints: district_chains,
            },
        )
    }
}

/// A chain at a position, if there is one.
pub open spec fn chain_at(chains: Seq<EndpointChain>, i: int) -> Option<EndpointChain> {
    if 0 <= i < chains.len() {
        Some(chains[i])
    } else {
        None
    }
}

impl SealedPayments {
    /// The chain of a warehouse.
    pub open spec fn warehouse(self, warehouse_id: u16) -> Option<EndpointChain> {
        chain_at(self.warehouse_chains, warehouse_id - 1)
    }

    /// The chain of a district.
    pub open spec fn district(self, warehouse_id: u16, district_id: u8) -> Option<EndpointChain> {
        if 1 <= warehouse_id <= self.warehouses && 1 <= district_id <= 10 {
            chain_at(self.district_chains, district_place(warehouse_id, district_id))
        } else {
            None
        }
    }
}

impl SealedPaymentEvidence {
    pub fn warehouses(&self) -> (r: u16)
        ensures
            r == self@.warehouses,
    {
        self.warehouses
    }

    pub fn terminal_count(&self) -> (r: u64)
        ensures
            r == self@.terminal_count,
    {
        self.terminal_count
    }

    /// Every Payment updates one warehouse.
    pub fn warehouse_edge_count(&self) -> (r: u64)
        ensures
            r == self@.terminal_count,
    {
        self.terminal_count
    }

    /// Every Payment updates one district.
    pub fn district_edge_count(&self) -> (r: u64)
        ensures
            r == self@.terminal_count,
    {
        self.terminal_count
    }

    fn warehouse_chain(&self, warehouse_id: u16) -> (r: Option<EndpointChain>)
        ensures
            r == self@.warehouse(warehouse_id),
    {
        if warehouse_id == 0 || warehouse_id as usize > self.warehouse_endpoints.len() {
            return None;
        }
        Some(self.warehouse_endpoints[warehouse_id as usize - 1])
    }

    fn district_chain(&self, warehouse_id: u16, district_id: u8) -> (r: Option<EndpointChain>)
        ensures
            r == self@.district(warehouse_id, district_id),
    {
        if warehouse_id == 0 || warehouse_id > self.warehouses || district_id == 0 || district_id
            > DISTRICTS_PER_WAREHOUSE {
            return None;
        }
        let i: usize = (warehouse_id as usize - 1) * 10 + (district_id as usize - 1);
        if i >= self.district_endpoints.len() {
            return None;
        }
        Some(self.district_endpoints[i])
    }

    pub fn warehouse_endpoint_bits(&self, warehouse_id: u16) -> (r: Option<u32>)
        ensures
            r == match self@.warehouse(warehouse_id) {
                Some(chain) => Some(chain.endpoint_bits),
                None => None,
            },
    {
        match self.warehouse_chain(warehouse_id) {
            Some(chain) => Some(chain.endpoint_bits),
            None => None,
        }
    }

    pub fn warehouse_update_count(&self, warehouse_id: u16) -> (r: Option<u64>)
        ensures
            r == match self@.warehouse(warehouse_id) {
                Some(chain) => Some(chain.update_count),
                None => None,
            },
    {
        match self.warehouse_chain(warehouse_id) {
            Some(chain) => Some(chain.update_count),
            None => None,
        }
    }

    pub fn district_endpoint_bits(&self, warehouse_id: u16, district_id: u8) -> (r: Option<u32>)
        ensures
            r == match self@.district(warehouse_id, district_id) {
                Some(chain) => Some(chain.endpoint_bits),
                None => None,
            },
    {
        match self.district_chain(warehouse_id, district_id) {
            Some(chain) => Some(chain.endpoint_bits),
            None => None,
        }
    }

    pub fn district_update_count(&self, warehouse_id: u16, district_id: u8) -> (r: Option<u64>)
        ensures
            r == match self@.district(warehouse_id, district_id) {
                Some(chain) => Some(chain.update_count),
                None => None,
            },
    {
        match self.district_chain(warehouse_id, district_id) {
            Some(chain) => Some(chain.update_count),
            None => None,
        }
    }
}

} // verus!
