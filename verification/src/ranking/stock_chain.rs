//! The version chain of one stock row.
use vstd::prelude::*;

use crate::binary32::{integer_bits, integer_pattern, sum, sum_bits};
use crate::checks::{first, refused_if};
use crate::ranking::audit_digest::{
    Digest, add_digest, audit_digest, digest_of, digest_sum, law_digests_add_in_any_order,
};
use crate::ranking::customer_chain::{
    agrees, canonical_zero, edge_error, finite_fault_of, plain_zero, require_finite, values_agree,
};
use crate::ranking::interval_pending::{
    CollectorError, CollectorFault, Segment, collector_refusal, gapped, insert_pending,
    lemma_pended, lemma_pended_after, lemma_removed, pended, repeated,
};
use crate::ranking::runner::StockVersion;

verus! {

pub const STOCK_DIGEST_DOMAIN: u64 = 0x5354_4f43_4b5f_4544;

#[derive(Clone, Copy, Debug, PartialEq, Eq, PartialOrd, Ord, Structural)]
pub struct StockKey {
    pub warehouse_id: i32,
    pub item_id: i32,
}

/// A run of updates of one stock row.
#[derive(Clone, Copy, Debug, PartialEq, Eq, Structural)]
pub struct StockSegment {
    pub start_version: i64,
    pub end_version: i64,
    pub start: StockVersion,
    pub end: StockVersion,
    pub update_count: u64,
    pub digest: Digest,
}

/// Why a field of an update is refused as negative.
pub open spec fn negative_field_fault(field: &'static str, n: i32) -> Option<CollectorFault> {
    refused_if(n < 0, edge_error(CollectorError::InvalidStockEdge(field)))
}

fn check_field(field: &'static str, n: i32) -> (r: Result<(), CollectorError>)
    ensures
        collector_refusal(r) == negative_field_fault(field, n),
{
    if n < 0 {
        Err(CollectorError::InvalidStockEdge(field))
    } else {
        Ok(())
    }
}

/// The stock left after an order: taken off, or refilled by ninety-one when
/// fewer than ten would be left.
pub open spec fn restocked(before: int, ordered: int) -> int {
    if before >= ordered + 10 {
        before - ordered
    } else {
        before + 91 - ordered
    }
}

/// Why the counters of an update are refused.
pub open spec fn stock_counts_fault(
    ordered: u8,
    remote: u8,
    before: StockVersion,
    after: StockVersion,
) -> Option<CollectorFault> {
    first(
        refused_if(
            !(1 <= ordered <= 10),
            edge_error(CollectorError::InvalidStockEdge("ordered quantity is outside 1..=10")),
        ),
        first(
            refused_if(
                remote > 1,
                edge_error(CollectorError::InvalidStockEdge("remote increment is outside 0..=1")),
            ),
            first(
                negative_field_fault("before order count", before.order_count),
                first(
                    negative_field_fault("before remote count", before.remote_count),
                    first(
                        negative_field_fault("after order count", after.order_count),
                        first(
                            negative_field_fault("after remote count", after.remote_count),
                            first(
                                refused_if(
                                    before.order_count == i32::MAX,
                                    edge_error(CollectorError::Overflow("stock order count")),
                                ),
                                first(
                                    refused_if(
                                        after.order_count != before.order_count + 1,
                                        edge_error(
                                            CollectorError::InvalidStockEdge(
                                                "order count does not advance by one",
                                            ),
                                        ),
                                    ),
                                    first(
                                        refused_if(
                                            before.remote_count + remote > i32::MAX,
                                            edge_error(CollectorError::Overflow("stock remote count")),
                                        ),
                                        refused_if(
                                            after.remote_count != before.remote_count + remote,
                                            edge_error(
                                                CollectorError::InvalidStockEdge(
                                                    "remote count transition is wrong",
                                                ),
                                            ),
                                        ),
                                    ),
                                ),
                            ),
                        ),
                    ),
                ),
            ),
        ),
    )
}

/// Why the quantities of an update are refused.
pub open spec fn stock_values_fault(ordered: u8, before: StockVersion, after: StockVersion) -> Option<
    CollectorFault,
> {
    first(
        refused_if(
            !(10 <= before.quantity <= 100) || !(10 <= after.quantity <= 100),
            edge_error(CollectorError::InvalidStockEdge("quantity is outside 10..=100")),
        ),
        first(
            refused_if(
                after.quantity != restocked(before.quantity as int, ordered as int),
                edge_error(CollectorError::InvalidStockEdge("quantity transition is wrong")),
            ),
            first(
                finite_fault_of("stock YTD before", before.ytd_bits),
                first(
                    finite_fault_of("stock YTD after", after.ytd_bits),
                    refused_if(
                        !agrees(
                            sum(before.ytd_bits, integer_pattern(ordered as int)),
                            after.ytd_bits,
                        ),
                        edge_error(CollectorError::FloatMismatch("stock YTD")),
                    ),
                ),
            ),
        ),
    )
}

/// Why an update is refused.
pub open spec fn stock_edge_fault(
    ordered: u8,
    remote: u8,
    before: StockVersion,
    after: StockVersion,
) -> Option<CollectorFault> {
    first(
        stock_counts_fault(ordered, remote, before, after),
        stock_values_fault(ordered, before, after),
    )
}

/// A version with minus zero as zero.
pub open spec fn plain_stock(version: StockVersion) -> StockVersion {
    StockVersion { ytd_bits: plain_zero(version.ytd_bits), ..version }
}

fn canonical_stock(version: StockVersion) -> (r: StockVersion)
    ensures
        r == plain_stock(version),
{
    StockVersion {
        quantity: version.quantity,
        ytd_bits: canonical_zero(version.ytd_bits),
        order_count: version.order_count,
        remote_count: version.remote_count,
    }
}

/// The values behind the digest of an update.
pub open spec fn stock_digest_values(
    key: StockKey,
    ordered: u8,
    remote: u8,
    after: StockVersion,
) -> Seq<u64> {
    seq![
        key.warehouse_id as u64,
        key.item_id as u64,
        ordered as u64,
        remote as u64,
        after.quantity as u64,
        after.ytd_bits as u64,
        after.order_count as u64,
        after.remote_count as u64,
    ]
}

/// The run of one update.
pub open spec fn stock_edge_segment(
    seed: u64,
    key: StockKey,
    ordered: u8,
    remote: u8,
    before: StockVersion,
    after: StockVersion,
) -> StockSegment {
    StockSegment {
        start_version: before.order_count as i64,
        end_version: after.order_count as i64,
        start: plain_stock(before),
        end: plain_stock(after),
        update_count: 1,
        digest: digest_of(
            seed,
            STOCK_DIGEST_DOMAIN,
            stock_digest_values(key, ordered, remote, after),
        ),
    }
}

impl Segment for StockSegment {
    open spec fn from_version(&self) -> int {
        self.start_version as int
    }

    open spec fn to_version(&self) -> int {
        self.end_version as int
    }

    open spec fn sound(&self) -> bool {
        &&& self.start_version == self.start.order_count
        &&& self.end_version == self.end.order_count
        &&& 0 <= self.start_version < self.end_version
        &&& self.update_count == self.end_version - self.start_version
    }

    open spec fn composed(&self, next: &Self) -> Result<Self, CollectorFault> {
        if self.end_version != next.start_version || self.end != next.start {
            Err(edge_error(CollectorError::BoundaryMismatch("stock")))
        } else {
            Ok(
                StockSegment {
                    start_version: self.start_version,
                    end_version: next.end_version,
                    start: self.start,
                    end: next.end,
                    update_count: (self.update_count + next.update_count) as u64,
                    digest: digest_sum(self.digest, next.digest),
                },
            )
        }
    }

    open spec fn rows() -> &'static str {
        "stock"
    }

    fn start(&self) -> (r: i64) {
        self.start_version
    }

    fn end(&self) -> (r: i64) {
        self.end_version
    }

    fn domain() -> (r: &'static str) {
        "stock"
    }

    fn follow(self, next: Self) -> (r: Result<Self, CollectorError>) {
        if self.end_version != next.start_version || self.end != next.start {
            return Err(CollectorError::BoundaryMismatch("stock"));
        }
        Ok(
            StockSegment {
                start_version: self.start_version,
                end_version: next.end_version,
                start: self.start,
                end: next.end,
                update_count: self.update_count + next.update_count,
                digest: add_digest(self.digest, next.digest),
            },
        )
    }

    proof fn lemma_sound(&self) {
    }

    proof fn lemma_composed(&self, next: &Self) {
    }

    proof fn lemma_regroup(&self, second: &Self, third: &Self) {
        law_digests_add_in_any_order(self.digest, second.digest, third.digest);
    }
}

impl StockSegment {
    fn check_counts(
        ordered_quantity: u8,
        remote_increment: u8,
        before: StockVersion,
        after: StockVersion,
    ) -> (r: Result<(), CollectorError>)
        ensures
            collector_refusal(r) == stock_counts_fault(
                ordered_quantity,
                remote_increment,
                before,
                after,
            ),
    {
        if ordered_quantity < 1 || ordered_quantity > 10 {
            return Err(CollectorError::InvalidStockEdge("ordered quantity is outside 1..=10"));
        }
        if remote_increment > 1 {
            return Err(CollectorError::InvalidStockEdge("remote increment is outside 0..=1"));
        }
        check_field("before order count", before.order_count)?;
        check_field("before remote count", before.remote_count)?;
        check_field("after order count", after.order_count)?;
        check_field("after remote count", after.remote_count)?;
        match before.order_count.checked_add(1) {
            None => {
                return Err(CollectorError::Overflow("stock order count"));
            },
            Some(next) => if after.order_count != next {
                return Err(
                    CollectorError::InvalidStockEdge("order count does not advance by one"),
                );
            },
        }
        match before.remote_count.checked_add(remote_increment as i32) {
            None => Err(CollectorError::Overflow("stock remote count")),
            Some(next) => if after.remote_count != next {
                Err(CollectorError::InvalidStockEdge("remote count transition is wrong"))
            } else {
                Ok(())
            },
        }
    }

    fn check_values(ordered_quantity: u8, before: StockVersion, after: StockVersion) -> (r: Result<
        (),
        CollectorError,
    >)
        ensures
            collector_refusal(r) == stock_values_fault(ordered_quantity, before, after),
    {
        if before.quantity < 10 || before.quantity > 100 || after.quantity < 10 || after.quantity
            > 100 {
            return Err(CollectorError::InvalidStockEdge("quantity is outside 10..=100"));
        }
        let quantity: i32 = ordered_quantity as i32;
        let expected: i32 = if before.quantity >= quantity + 10 {
            before.quantity - quantity
        } else {
            before.quantity + 91 - quantity
        };
        if after.quantity != expected {
            return Err(CollectorError::InvalidStockEdge("quantity transition is wrong"));
        }
        require_finite("stock YTD before", before.ytd_bits)?;
        require_finite("stock YTD after", after.ytd_bits)?;
        let added = sum_bits(before.ytd_bits, integer_bits(quantity));
        if !values_agree(added, after.ytd_bits) {
            return Err(CollectorError::FloatMismatch("stock YTD"));
        }
        Ok(())
    }

    /// The run of one update, once it is checked.
    pub fn single(
        seed: u64,
        key: StockKey,
        ordered_quantity: u8,
        remote_increment: u8,
        before: StockVersion,
        after: StockVersion,
    ) -> (r: Result<Self, CollectorError>)
        ensures
            collector_refusal(r) == stock_edge_fault(
                ordered_quantity,
                remote_increment,
                before,
                after,
            ),
            r matches Ok(segment) ==> segment == stock_edge_segment(
                seed,
                key,
                ordered_quantity,
                remote_increment,
                before,
                after,
            ) && segment.sound() && segment.to_version() == segment.from_version() + 1,
    {
        Self::check_counts(ordered_quantity, remote_increment, before, after)?;
        Self::check_values(ordered_quantity, before, after)?;
        let values: [u64; 8] = [
            key.warehouse_id as u64,
            key.item_id as u64,
            ordered_quantity as u64,
            remote_increment as u64,
            after.quantity as u64,
            after.ytd_bits as u64,
            after.order_count as u64,
            after.remote_count as u64,
        ];
        assert(values@ =~= stock_digest_values(key, ordered_quantity, remote_increment, after));
        Ok(
            StockSegment {
                start_version: before.order_count as i64,
                end_version: after.order_count as i64,
                start: canonical_stock(before),
                end: canonical_stock(after),
                update_count: 1,
                digest: audit_digest(seed, STOCK_DIGEST_DOMAIN, values.as_slice()),
            },
        )
    }
}

/// What is known of a row from its first order on.
#[derive(Clone, Copy, Debug, PartialEq, Eq, Structural)]
pub struct StockPrefix {
    pub initial: StockVersion,
    pub endpoint: StockVersion,
    pub update_count: u64,
    pub digest: Digest,
}

/// The rooted prefix of a row, if its first order is known, and the runs that
/// wait behind it.
#[derive(Clone, Debug)]
pub struct StockChain {
    pub key: StockKey,
    pub prefix: Option<StockPrefix>,
    pub pending: Vec<StockSegment>,
}

/// The content of a [`StockChain`].
#[verifier::ext_equal]
pub struct StockChainModel {
    pub key: StockKey,
    pub prefix: Option<StockPrefix>,
    pub pending: Seq<StockSegment>,
}

impl View for StockChain {
    type V = StockChainModel;

    open spec fn view(&self) -> StockChainModel {
        StockChainModel { key: self.key, prefix: self.prefix, pending: self.pending@ }
    }
}

/// A chain after a change, with the refusal if there was one.
#[verifier::ext_equal]
pub struct StockChained {
    pub chain: StockChainModel,
    pub fault: Option<CollectorFault>,
}

/// A chain of which nothing is known.
pub open spec fn unknown_stock(key: StockKey) -> StockChainModel {
    StockChainModel { key, prefix: None, pending: Seq::empty() }
}

/// The orders behind a prefix.
pub open spec fn stock_end(prefix: Option<StockPrefix>) -> int {
    match prefix {
        Some(p) => p.endpoint.order_count as int,
        None => 0,
    }
}

/// The update count of a prefix is its order count.
pub open spec fn stock_prefix_sound(prefix: Option<StockPrefix>) -> bool {
    prefix matches Some(p) ==> p.endpoint.order_count >= 1 && p.update_count
        == p.endpoint.order_count
}

/// A rooted prefix with later, disjoint runs.
pub open spec fn stock_chain_sound(chain: StockChainModel) -> bool {
    &&& stock_prefix_sound(chain.prefix)
    &&& gapped(chain.pending)
    &&& forall|i: int|
        0 <= i < chain.pending.len() ==> (#[trigger] chain.pending[i]).from_version() > stock_end(
            chain.prefix,
        )
}

/// Sound runs of which none starts before the prefix ends.
pub open spec fn stock_drainable(chain: StockChainModel) -> bool {
    &&& stock_prefix_sound(chain.prefix)
    &&& gapped(chain.pending)
    &&& forall|i: int|
        0 <= i < chain.pending.len() ==> (#[trigger] chain.pending[i]).from_version() >= stock_end(
            chain.prefix,
        )
}

/// Why a run does not follow a prefix.
pub open spec fn stock_absorb_fault(prefix: StockPrefix, segment: StockSegment) -> Option<
    CollectorFault,
> {
    refused_if(
        prefix.endpoint != segment.start,
        edge_error(CollectorError::BoundaryMismatch("stock")),
    )
}

/// A prefix with a run after it.
pub open spec fn stock_absorbed(prefix: StockPrefix, segment: StockSegment) -> StockPrefix {
    StockPrefix {
        initial: prefix.initial,
        endpoint: segment.end,
        update_count: (prefix.update_count + segment.update_count) as u64,
        digest: digest_sum(prefix.digest, segment.digest),
    }
}

/// The prefix that a first run makes.
pub open spec fn stock_root(segment: StockSegment) -> StockPrefix {
    StockPrefix {
        initial: segment.start,
        endpoint: segment.end,
        update_count: segment.update_count,
        digest: segment.digest,
    }
}

/// The chain once the waiting runs that follow the prefix are in it.
pub open spec fn stock_drained(chain: StockChainModel) -> StockChained
    decreases chain.pending.len(),
{
    if chain.prefix is None || chain.pending.len() == 0 || chain.pending[0].from_version()
        != stock_end(chain.prefix) {
        StockChained { chain, fault: None }
    } else {
        let segment = chain.pending[0];
        let rest = chain.pending.remove(0);
        let prefix = chain.prefix->0;
        if stock_absorb_fault(prefix, segment) is Some {
            StockChained {
                chain: StockChainModel { pending: rest, ..chain },
                fault: stock_absorb_fault(prefix, segment),
            }
        } else {
            stock_drained(
                StockChainModel {
                    prefix: Some(stock_absorbed(prefix, segment)),
                    pending: rest,
                    ..chain
                },
            )
        }
    }
}

/// The chain once a run has come in.
pub open spec fn stock_inserted(chain: StockChainModel, segment: StockSegment) -> StockChained {
    let end = stock_end(chain.prefix);
    if chain.prefix is Some && segment.from_version() < end {
        StockChained { chain, fault: Some(repeated::<StockSegment>(segment.from_version())) }
    } else if segment.from_version() == end {
        match chain.prefix {
            Some(prefix) => if stock_absorb_fault(prefix, segment) is Some {
                StockChained { chain, fault: stock_absorb_fault(prefix, segment) }
            } else {
                stock_drained(
                    StockChainModel { prefix: Some(stock_absorbed(prefix, segment)), ..chain },
                )
            },
            None => stock_drained(
                StockChainModel { prefix: Some(stock_root(segment)), ..chain },
            ),
        }
    } else {
        let next = pended(chain.pending, segment);
        StockChained {
            chain: StockChainModel { pending: next.pending, ..chain },
            fault: next.fault,
        }
    }
}

proof fn lemma_stock_drain_step(chain: StockChainModel)
    requires
        stock_drainable(chain),
        chain.prefix is Some,
        chain.pending.len() > 0,
        chain.pending[0].from_version() == stock_end(chain.prefix),
    ensures
        ({
            let rest = chain.pending.remove(0);
            &&& chain.pending[0].sound()
            &&& stock_chain_sound(StockChainModel { pending: rest, ..chain })
            &&& stock_absorb_fault(chain.prefix->0, chain.pending[0]) is None ==> stock_drainable(
                StockChainModel {
                    prefix: Some(stock_absorbed(chain.prefix->0, chain.pending[0])),
                    pending: rest,
                    ..chain
                },
            )
        }),
{
    let segment = chain.pending[0];
    let rest = chain.pending.remove(0);
    lemma_removed(chain.pending, 0);
    assert(segment.sound());
    assert forall|i: int| 0 <= i < rest.len() implies (#[trigger] rest[i]).from_version()
        > segment.to_version() by {
        assert(rest[i] == chain.pending[i + 1]);
        assert(chain.pending[0].to_version() < chain.pending[i + 1].from_version());
    }
}

/// Draining leaves a sound chain.
pub proof fn lemma_stock_drained(chain: StockChainModel)
    requires
        stock_drainable(chain),
        chain.prefix is Some,
    ensures
        stock_chain_sound(stock_drained(chain).chain),
    decreases chain.pending.len(),
{
    if chain.pending.len() > 0 && chain.pending[0].from_version() == stock_end(chain.prefix) {
        lemma_stock_drain_step(chain);
        if stock_absorb_fault(chain.prefix->0, chain.pending[0]) is None {
            lemma_stock_drained(
                StockChainModel {
                    prefix: Some(stock_absorbed(chain.prefix->0, chain.pending[0])),
                    pending: chain.pending.remove(0),
                    ..chain
                },
            );
        }
    } else {
        assert forall|i: int| 0 <= i < chain.pending.len() implies (
        #[trigger] chain.pending[i]).from_version() > stock_end(chain.prefix) by {
            if i > 0 {
                chain.pending[0].lemma_sound();
                assert(chain.pending[0].to_version() < chain.pending[i].from_version());
            }
        }
    }
}

/// Whatever single update comes in, a chain stays sound.
pub proof fn law_stock_chain_stays_sound(chain: StockChainModel, segment: StockSegment)
    requires
        stock_chain_sound(chain),
        segment.sound(),
        segment.to_version() == segment.from_version() + 1,
    ensures
        stock_chain_sound(stock_inserted(chain, segment).chain),
{
    let end = stock_end(chain.prefix);
    if segment.from_version() == end {
        match chain.prefix {
            Some(prefix) => {
                if stock_absorb_fault(prefix, segment) is None {
                    lemma_stock_drained(
                        StockChainModel { prefix: Some(stock_absorbed(prefix, segment)), ..chain },
                    );
                }
            },
            None => {
                lemma_stock_drained(
                    StockChainModel { prefix: Some(stock_root(segment)), ..chain },
                );
            },
        }
    } else if segment.from_version() > end {
        lemma_pended(chain.pending, segment);
        lemma_pended_after(chain.pending, segment, end);
    }
}

impl StockChain {
    pub fn new(key: StockKey) -> (r: Self)
        ensures
            r@ == unknown_stock(key),
            stock_chain_sound(r@),
    {
        StockChain { key, prefix: None, pending: Vec::new() }
    }

    fn drain_pending(&mut self) -> (r: Result<(), CollectorError>)
        requires
            stock_drainable(old(self)@),
            old(self).prefix is Some,
        ensures
            (StockChained { chain: final(self)@, fault: collector_refusal(r) }) == stock_drained(
                old(self)@,
            ),
    {
        let ghost goal = stock_drained(self@);
        while self.pending.len() > 0
            invariant
                stock_drainable(self@),
                self.prefix is Some,
                goal == stock_drained(old(self)@),
                stock_drained(self@) == goal,
            decreases self.pending@.len(),
        {
            assert(self@.pending[0].sound());
            let prefix = match self.prefix {
                Some(prefix) => prefix,
                None => {
                    return Ok(());
                },
            };
            if self.pending[0].start() != prefix.endpoint.order_count as i64 {
                return Ok(());
            }
            proof {
                lemma_stock_drain_step(self@);
            }
            let segment = self.pending.remove(0);
            let grown = Self::absorb(prefix, segment)?;
            self.prefix = Some(grown);
        }
        Ok(())
    }

    fn absorb(prefix: StockPrefix, segment: StockSegment) -> (r: Result<StockPrefix, CollectorError>)
        requires
            stock_prefix_sound(Some(prefix)),
            segment.sound(),
        ensures
            collector_refusal(r) == stock_absorb_fault(prefix, segment),
            r matches Ok(grown) ==> grown == stock_absorbed(prefix, segment),
    {
        if prefix.endpoint != segment.start {
            return Err(CollectorError::BoundaryMismatch("stock"));
        }
        Ok(
            StockPrefix {
                initial: prefix.initial,
                endpoint: segment.end,
                update_count: prefix.update_count + segment.update_count,
                digest: add_digest(prefix.digest, segment.digest),
            },
        )
    }

    /// Takes a single update in.
    pub fn insert(&mut self, segment: StockSegment) -> (r: Result<(), CollectorError>)
        requires
            stock_chain_sound(old(self)@),
            segment.sound(),
            segment.to_version() == segment.from_version() + 1,
        ensures
            (StockChained { chain: final(self)@, fault: collector_refusal(r) }) == stock_inserted(
                old(self)@,
                segment,
            ),
            stock_chain_sound(final(self)@),
    {
        proof {
            law_stock_chain_stays_sound(self@, segment);
        }
        match self.prefix {
            Some(prefix) => {
                let end: i64 = prefix.endpoint.order_count as i64;
                if segment.start() < end {
                    return Err(
                        CollectorError::DuplicatePredecessor {
                            domain: "stock",
                            predecessor: segment.start(),
                        },
                    );
                }
                if segment.start() == end {
                    let grown = Self::absorb(prefix, segment)?;
                    self.prefix = Some(grown);
                    return self.drain_pending();
                }
            },
            None => {
                if segment.start() == 0 {
                    self.prefix = Some(
                        StockPrefix {
                            initial: segment.start,
                            endpoint: segment.end,
                            update_count: segment.update_count,
                            digest: segment.digest,
                        },
                    );
                    return self.drain_pending();
                }
            },
        }
        insert_pending(&mut self.pending, segment)
    }
}

} // verus!
