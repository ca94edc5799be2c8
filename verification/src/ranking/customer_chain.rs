//! The version chain of one customer row.
use vstd::prelude::*;

use crate::binary32::{
    at_most, difference, difference_bits, finite, is_finite, sum, sum_bits, value,
};
use crate::checks::{first, refused_if};
use crate::consistency::{
    CustomerLogicalVersion, CustomerUpdateEndpoint, CustomerUpdateEvidence, CustomerUpdateKind,
};
use crate::ranking::audit_digest::{
    Digest, add_digest, audit_digest, digest_of, digest_sum, law_digests_add_in_any_order,
};
use crate::ranking::identity_set::Identity;
use crate::ranking::interval_pending::{
    CollectorError, CollectorFault, Segment, collected, collector_refusal, gapped, insert_pending,
    lemma_pended, lemma_pended_after, lemma_removed, pended, repeated,
};

verus! {

/// -10.
pub const CUSTOMER_INITIAL_BALANCE_BITS: u32 = 0xC120_0000;

/// 10.
pub const CUSTOMER_INITIAL_YTD_BITS: u32 = 0x4120_0000;

pub const CUSTOMER_INITIAL_PAYMENT_COUNT: i32 = 1;

pub const CUSTOMER_INITIAL_DELIVERY_COUNT: i32 = 0;

pub const CUSTOMER_DIGEST_DOMAIN: u64 = 0x4355_5354_4f4d_4552;

#[derive(Clone, Copy, Debug, PartialEq, Eq, PartialOrd, Ord, Structural)]
pub struct CustomerKey {
    pub warehouse_id: i32,
    pub district_id: i32,
    pub customer_id: i32,
}

/// What a run does to the year-to-date payment: nothing, or from one value to
/// another.
#[derive(Clone, Copy, Debug, PartialEq, Eq, Structural)]
pub enum YtdSpan {
    Identity,
    Known { start_bits: u32, end_bits: u32 },
}

/// A run of updates of one customer row.
#[derive(Clone, Copy, Debug, PartialEq, Eq, Structural)]
pub struct CustomerSegment {
    pub start_total: i64,
    pub end_total: i64,
    pub start_version: CustomerLogicalVersion,
    pub end_version: CustomerLogicalVersion,
    pub start_balance_bits: u32,
    pub end_balance_bits: u32,
    pub ytd: YtdSpan,
    pub payment_updates: u64,
    pub delivery_updates: u64,
    pub digest: Digest,
}

/// Minus zero as zero.
pub open spec fn plain_zero(bits: u32) -> u32 {
    if bits == 0x8000_0000 {
        0
    } else {
        bits
    }
}

pub fn canonical_zero(bits: u32) -> (r: u32)
    ensures
        r == plain_zero(bits),
{
    if bits == 0x8000_0000 {
        0
    } else {
        bits
    }
}

/// Whether a rounded result and an observed one agree, with zeros alike.
pub open spec fn agrees(expected: Option<u32>, observed: u32) -> bool {
    expected matches Some(bits) && plain_zero(bits) == plain_zero(observed)
}

pub fn values_agree(expected: Option<u32>, observed: u32) -> (r: bool)
    ensures
        r == agrees(expected, observed),
{
    match expected {
        Some(bits) => canonical_zero(bits) == canonical_zero(observed),
        None => false,
    }
}

/// A fault with a text of its own.
pub open spec fn edge_error(error: CollectorError) -> CollectorFault {
    CollectorFault::Plain(error)
}

/// Why a pattern is refused as a value.
pub open spec fn finite_fault_of(field: &'static str, bits: u32) -> Option<CollectorFault> {
    refused_if(!is_finite(bits), edge_error(CollectorError::NonFinite { field, bits }))
}

pub fn require_finite(field: &'static str, bits: u32) -> (r: Result<(), CollectorError>)
    ensures
        collector_refusal(r) == finite_fault_of(field, bits),
{
    if finite(bits) {
        Ok(())
    } else {
        Err(CollectorError::NonFinite { field, bits })
    }
}

/// Why a version has no total.
pub open spec fn version_total_fault(version: CustomerLogicalVersion) -> Option<CollectorFault> {
    refused_if(
        version.payment_count < 0 || version.delivery_count < 0,
        edge_error(
            CollectorError::InvalidCustomerEdge("logical version contains a negative counter"),
        ),
    )
}

/// The updates behind a version.
pub open spec fn version_total(version: CustomerLogicalVersion) -> int {
    version.payment_count + version.delivery_count
}

fn customer_total(version: CustomerLogicalVersion) -> (r: Result<i64, CollectorError>)
    ensures
        collector_refusal(r) == version_total_fault(version),
        r matches Ok(total) ==> total == version_total(version),
{
    if version.payment_count < 0 || version.delivery_count < 0 {
        return Err(
            CollectorError::InvalidCustomerEdge("logical version contains a negative counter"),
        );
    }
    Ok(version.payment_count as i64 + version.delivery_count as i64)
}

/// Why the counters of an update are refused.
pub open spec fn edge_version_fault(u: CustomerUpdateEvidence) -> Option<CollectorFault> {
    first(
        version_total_fault(u.before_version),
        first(
            version_total_fault(u.after_version),
            first(
                refused_if(
                    version_total(u.after_version) != version_total(u.before_version) + 1,
                    edge_error(
                        CollectorError::InvalidCustomerEdge(
                            "logical version does not advance by one",
                        ),
                    ),
                ),
                match u.kind {
                    CustomerUpdateKind::Payment => first(
                        refused_if(
                            u.before_version.payment_count == i32::MAX,
                            edge_error(CollectorError::Overflow("customer payment version")),
                        ),
                        refused_if(
                            u.after_version.payment_count != u.before_version.payment_count + 1,
                            edge_error(
                                CollectorError::InvalidCustomerEdge(
                                    "wrong family counter advanced",
                                ),
                            ),
                        ),
                    ),
                    CustomerUpdateKind::Delivery => first(
                        refused_if(
                            u.before_version.delivery_count == i32::MAX,
                            edge_error(CollectorError::Overflow("customer delivery version")),
                        ),
                        refused_if(
                            u.after_version.delivery_count != u.before_version.delivery_count + 1,
                            edge_error(
                                CollectorError::InvalidCustomerEdge(
                                    "wrong family counter advanced",
                                ),
                            ),
                        ),
                    ),
                },
            ),
        ),
    )
}

/// Why the balance of an update is refused.
pub open spec fn edge_balance_fault(u: CustomerUpdateEvidence) -> Option<CollectorFault> {
    first(
        finite_fault_of("customer amount", u.amount_bits),
        first(
            refused_if(
                value(u.amount_bits) <= 0,
                edge_error(CollectorError::InvalidCustomerEdge("amount must be positive")),
            ),
            first(
                finite_fault_of("customer balance before", u.balance_before_bits),
                first(
                    finite_fault_of("customer balance after", u.balance_after_bits),
                    refused_if(
                        !agrees(
                            match u.kind {
                                CustomerUpdateKind::Payment => difference(
                                    u.balance_before_bits,
                                    u.amount_bits,
                                ),
                                CustomerUpdateKind::Delivery => sum(
                                    u.balance_before_bits,
                                    u.amount_bits,
                                ),
                            },
                            u.balance_after_bits,
                        ),
                        edge_error(CollectorError::FloatMismatch("customer balance")),
                    ),
                ),
            ),
        ),
    )
}

/// Why the year-to-date payment of an update is refused.
pub open spec fn edge_ytd_fault(u: CustomerUpdateEvidence) -> Option<CollectorFault> {
    match (u.kind, u.ytd_payment_before_bits, u.ytd_payment_after_bits) {
        (CustomerUpdateKind::Payment, Some(before), Some(after)) => first(
            finite_fault_of("customer YTD before", before),
            first(
                finite_fault_of("customer YTD after", after),
                refused_if(
                    !agrees(sum(before, u.amount_bits), after),
                    edge_error(CollectorError::FloatMismatch("customer YTD")),
                ),
            ),
        ),
        (CustomerUpdateKind::Payment, _, _) => Some(
            edge_error(CollectorError::InvalidCustomerEdge("Payment omitted YTD evidence")),
        ),
        (CustomerUpdateKind::Delivery, None, None) => None,
        (CustomerUpdateKind::Delivery, _, _) => Some(
            edge_error(
                CollectorError::InvalidCustomerEdge("Delivery supplied Payment-only YTD evidence"),
            ),
        ),
    }
}

/// Why an update is refused.
pub open spec fn edge_fault(u: CustomerUpdateEvidence) -> Option<CollectorFault> {
    first(edge_version_fault(u), first(edge_balance_fault(u), edge_ytd_fault(u)))
}

/// The bits of an optional value, or zero.
pub open spec fn bits_or_zero(bits: Option<u32>) -> u32 {
    match bits {
        Some(b) => b,
        None => 0,
    }
}

/// The run of one update.
pub open spec fn edge_segment(
    seed: u64,
    key: CustomerKey,
    u: CustomerUpdateEvidence,
) -> CustomerSegment {
    CustomerSegment {
        start_total: version_total(u.before_version) as i64,
        end_total: version_total(u.after_version) as i64,
        start_version: u.before_version,
        end_version: u.after_version,
        start_balance_bits: plain_zero(u.balance_before_bits),
        end_balance_bits: plain_zero(u.balance_after_bits),
        ytd: match (u.ytd_payment_before_bits, u.ytd_payment_after_bits) {
            (Some(before), Some(after)) => YtdSpan::Known {
                start_bits: plain_zero(before),
                end_bits: plain_zero(after),
            },
            _ => YtdSpan::Identity,
        },
        payment_updates: if u.kind == CustomerUpdateKind::Payment {
            1
        } else {
            0
        },
        delivery_updates: if u.kind == CustomerUpdateKind::Payment {
            0
        } else {
            1
        },
        digest: digest_of(
            seed,
            CUSTOMER_DIGEST_DOMAIN,
            seq![
                key.warehouse_id as u64,
                key.district_id as u64,
                key.customer_id as u64,
                u.before_version.payment_count as u64,
                u.before_version.delivery_count as u64,
                u.after_version.payment_count as u64,
                u.after_version.delivery_count as u64,
                u.amount_bits as u64,
                u.balance_before_bits as u64,
                u.balance_after_bits as u64,
                bits_or_zero(u.ytd_payment_before_bits) as u64,
                bits_or_zero(u.ytd_payment_after_bits) as u64,
            ],
        ),
    }
}

/// Two spans one after the other.
pub open spec fn spans_composed(left: YtdSpan, right: YtdSpan) -> Result<YtdSpan, CollectorFault> {
    match (left, right) {
        (YtdSpan::Identity, _) => Ok(right),
        (_, YtdSpan::Identity) => Ok(left),
        (
            YtdSpan::Known { start_bits, end_bits },
            YtdSpan::Known { start_bits: next_start, end_bits: next_end },
        ) => if end_bits != next_start {
            Err(edge_error(CollectorError::BoundaryMismatch("customer YTD")))
        } else {
            Ok(YtdSpan::Known { start_bits, end_bits: next_end })
        },
    }
}

fn compose_ytd(left: YtdSpan, right: YtdSpan) -> (r: Result<YtdSpan, CollectorError>)
    ensures
        collected(r) == spans_composed(left, right),
{
    match (left, right) {
        (YtdSpan::Identity, _) => Ok(right),
        (_, YtdSpan::Identity) => Ok(left),
        (
            YtdSpan::Known { start_bits, end_bits },
            YtdSpan::Known { start_bits: next_start, end_bits: next_end },
        ) => {
            if end_bits != next_start {
                return Err(CollectorError::BoundaryMismatch("customer YTD"));
            }
            Ok(YtdSpan::Known { start_bits, end_bits: next_end })
        },
    }
}

impl Segment for CustomerSegment {
    open spec fn from_version(&self) -> int {
        self.start_total as int
    }

    open spec fn to_version(&self) -> int {
        self.end_total as int
    }

    open spec fn sound(&self) -> bool {
        &&& 0 <= self.start_version.payment_count <= self.end_version.payment_count
        &&& 0 <= self.start_version.delivery_count <= self.end_version.delivery_count
        &&& self.start_total == version_total(self.start_version)
        &&& self.end_total == version_total(self.end_version)
        &&& self.start_total < self.end_total
        &&& plain_zero(self.end_balance_bits) == self.end_balance_bits
        &&& self.ytd matches YtdSpan::Known { end_bits, .. } ==> plain_zero(end_bits) == end_bits
        &&& self.payment_updates == self.end_version.payment_count
            - self.start_version.payment_count
        &&& self.delivery_updates == self.end_version.delivery_count
            - self.start_version.delivery_count
    }

    open spec fn composed(&self, next: &Self) -> Result<Self, CollectorFault> {
        if self.end_total != next.start_total || self.end_version != next.start_version
            || self.end_balance_bits != next.start_balance_bits {
            Err(edge_error(CollectorError::BoundaryMismatch("customer")))
        } else {
            match spans_composed(self.ytd, next.ytd) {
                Err(fault) => Err(fault),
                Ok(ytd) => Ok(
                    CustomerSegment {
                        start_total: self.start_total,
                        end_total: next.end_total,
                        start_version: self.start_version,
                        end_version: next.end_version,
                        start_balance_bits: self.start_balance_bits,
                        end_balance_bits: next.end_balance_bits,
                        ytd,
                        payment_updates: (self.payment_updates + next.payment_updates) as u64,
                        delivery_updates: (self.delivery_updates + next.delivery_updates) as u64,
                        digest: digest_sum(self.digest, next.digest),
                    },
                ),
            }
        }
    }

    open spec fn rows() -> &'static str {
        "customer"
    }

    fn start(&self) -> (r: i64) {
        self.start_total
    }

    fn end(&self) -> (r: i64) {
        self.end_total
    }

    fn domain() -> (r: &'static str) {
        "customer"
    }

    fn follow(self, next: Self) -> (r: Result<Self, CollectorError>) {
        if self.end_total != next.start_total || self.end_version != next.start_version
            || self.end_balance_bits != next.start_balance_bits {
            return Err(CollectorError::BoundaryMismatch("customer"));
        }
        let ytd = compose_ytd(self.ytd, next.ytd)?;
        Ok(
            CustomerSegment {
                start_total: self.start_total,
                end_total: next.end_total,
                start_version: self.start_version,
                end_version: next.end_version,
                start_balance_bits: self.start_balance_bits,
                end_balance_bits: next.end_balance_bits,
                ytd,
                payment_updates: self.payment_updates + next.payment_updates,
                delivery_updates: self.delivery_updates + next.delivery_updates,
                digest: add_digest(self.digest, next.digest),
            },
        )
    }

    proof fn lemma_sound(&self) {
    }

    proof fn lemma_composed(&self, next: &Self) {
    }

    proof fn lemma_regroup(&self, second: &Self, third: &Self) {
        law_digests_add_in_any_order(self.digest, second.digest, third.digest);
    }
}

impl CustomerSegment {
    fn check_versions(update: CustomerUpdateEvidence) -> (r: Result<(), CollectorError>)
        ensures
            collector_refusal(r) == edge_version_fault(update),
    {
        let start_total: i64 = customer_total(update.before_version)?;
        let end_total: i64 = customer_total(update.after_version)?;
        if end_total != start_total + 1 {
            return Err(
                CollectorError::InvalidCustomerEdge("logical version does not advance by one"),
            );
        }
        let (before, after, name) = match update.kind {
            CustomerUpdateKind::Payment => (
                update.before_version.payment_count,
                update.after_version.payment_count,
                "customer payment version",
            ),
            CustomerUpdateKind::Delivery => (
                update.before_version.delivery_count,
                update.after_version.delivery_count,
                "customer delivery version",
            ),
        };
        match before.checked_add(1) {
            None => Err(CollectorError::Overflow(name)),
            Some(next) => if after != next {
                Err(CollectorError::InvalidCustomerEdge("wrong family counter advanced"))
            } else {
                Ok(())
            },
        }
    }

    fn check_balance(update: CustomerUpdateEvidence) -> (r: Result<(), CollectorError>)
        ensures
            collector_refusal(r) == edge_balance_fault(update),
            r is Ok ==> is_finite(update.amount_bits),
    {
        require_finite("customer amount", update.amount_bits)?;
        if at_most(update.amount_bits, 0) {
            return Err(CollectorError::InvalidCustomerEdge("amount must be positive"));
        }
        require_finite("customer balance before", update.balance_before_bits)?;
        require_finite("customer balance after", update.balance_after_bits)?;
        let expected = match update.kind {
            CustomerUpdateKind::Payment => difference_bits(
                update.balance_before_bits,
                update.amount_bits,
            ),
            CustomerUpdateKind::Delivery => sum_bits(
                update.balance_before_bits,
                update.amount_bits,
            ),
        };
        if !values_agree(expected, update.balance_after_bits) {
            return Err(CollectorError::FloatMismatch("customer balance"));
        }
        Ok(())
    }

    /// The run of one update, once it is checked.
    pub fn single(seed: u64, key: CustomerKey, update: CustomerUpdateEvidence) -> (r: Result<
        Self,
        CollectorError,
    >)
        ensures
            collector_refusal(r) == edge_fault(update),
            r matches Ok(segment) ==> segment == edge_segment(seed, key, update)
                && segment.sound() && segment.to_version() == segment.from_version() + 1,
    {
        Self::check_versions(update)?;
        Self::check_balance(update)?;
        let payment = match update.kind {
            CustomerUpdateKind::Payment => true,
            CustomerUpdateKind::Delivery => false,
        };
        let ytd = match (
            update.kind,
            update.ytd_payment_before_bits,
            update.ytd_payment_after_bits,
        ) {
            (CustomerUpdateKind::Payment, Some(before), Some(after)) => {
                require_finite("customer YTD before", before)?;
                require_finite("customer YTD after", after)?;
                if !values_agree(sum_bits(before, update.amount_bits), after) {
                    return Err(CollectorError::FloatMismatch("customer YTD"));
                }
                YtdSpan::Known {
                    start_bits: canonical_zero(before),
                    end_bits: canonical_zero(after),
                }
            },
            (CustomerUpdateKind::Payment, _, _) => {
                return Err(CollectorError::InvalidCustomerEdge("Payment omitted YTD evidence"));
            },
            (CustomerUpdateKind::Delivery, None, None) => YtdSpan::Identity,
            (CustomerUpdateKind::Delivery, _, _) => {
                return Err(
                    CollectorError::InvalidCustomerEdge(
                        "Delivery supplied Payment-only YTD evidence",
                    ),
                );
            },
        };
        let values: [u64; 12] = [
            key.warehouse_id as u64,
            key.district_id as u64,
            key.customer_id as u64,
            update.before_version.payment_count as u64,
            update.before_version.delivery_count as u64,
            update.after_version.payment_count as u64,
            update.after_version.delivery_count as u64,
            update.amount_bits as u64,
            update.balance_before_bits as u64,
            update.balance_after_bits as u64,
            match update.ytd_payment_before_bits {
                Some(bits) => bits as u64,
                None => 0,
            },
            match update.ytd_payment_after_bits {
                Some(bits) => bits as u64,
                None => 0,
            },
        ];
        let digest = audit_digest(seed, CUSTOMER_DIGEST_DOMAIN, values.as_slice());
        let r = CustomerSegment {
            start_total: update.before_version.payment_count as i64
                + update.before_version.delivery_count as i64,
            end_total: update.after_version.payment_count as i64
                + update.after_version.delivery_count as i64,
            start_version: update.before_version,
            end_version: update.after_version,
            start_balance_bits: canonical_zero(update.balance_before_bits),
            end_balance_bits: canonical_zero(update.balance_after_bits),
            ytd,
            payment_updates: if payment {
                1
            } else {
                0
            },
            delivery_updates: if payment {
                0
            } else {
                1
            },
            digest,
        };
        assert(values@ =~= seq![
            key.warehouse_id as u64,
            key.district_id as u64,
            key.customer_id as u64,
            update.before_version.payment_count as u64,
            update.before_version.delivery_count as u64,
            update.after_version.payment_count as u64,
            update.after_version.delivery_count as u64,
            update.amount_bits as u64,
            update.balance_before_bits as u64,
            update.balance_after_bits as u64,
            bits_or_zero(update.ytd_payment_before_bits) as u64,
            bits_or_zero(update.ytd_payment_after_bits) as u64,
        ]);
        Ok(r)
    }
}

/// What is known of a row from its initial load on.
#[derive(Clone, Copy, Debug, PartialEq, Eq, Structural)]
pub struct CustomerPrefix {
    pub endpoint: CustomerUpdateEndpoint,
    pub payment_updates: u64,
    pub delivery_updates: u64,
    pub digest: Digest,
}

/// The rooted prefix of a row and the runs that wait behind it.
#[derive(Clone, Debug)]
pub struct CustomerChain {
    pub key: CustomerKey,
    pub prefix: CustomerPrefix,
    pub pending: Vec<CustomerSegment>,
}

/// The content of a [`CustomerChain`].
#[verifier::ext_equal]
pub struct CustomerChainModel {
    pub key: CustomerKey,
    pub prefix: CustomerPrefix,
    pub pending: Seq<CustomerSegment>,
}

impl View for CustomerChain {
    type V = CustomerChainModel;

    open spec fn view(&self) -> CustomerChainModel {
        CustomerChainModel { key: self.key, prefix: self.prefix, pending: self.pending@ }
    }
}

/// A chain after a change, with the refusal if there was one.
#[verifier::ext_equal]
pub struct CustomerChained {
    pub chain: CustomerChainModel,
    pub fault: Option<CollectorFault>,
}

/// A freshly loaded row.
pub open spec fn loaded_prefix() -> CustomerPrefix {
    CustomerPrefix {
        endpoint: CustomerUpdateEndpoint {
            version: CustomerLogicalVersion {
                payment_count: CUSTOMER_INITIAL_PAYMENT_COUNT,
                delivery_count: CUSTOMER_INITIAL_DELIVERY_COUNT,
            },
            balance_bits: CUSTOMER_INITIAL_BALANCE_BITS,
            ytd_payment_bits: CUSTOMER_INITIAL_YTD_BITS,
        },
        payment_updates: 0,
        delivery_updates: 0,
        digest: Digest::none(),
    }
}

/// A chain of which nothing is known.
pub open spec fn loaded_chain(key: CustomerKey) -> CustomerChainModel {
    CustomerChainModel { key, prefix: loaded_prefix(), pending: Seq::empty() }
}

/// The updates behind a prefix.
pub open spec fn prefix_end(prefix: CustomerPrefix) -> int {
    version_total(prefix.endpoint.version)
}

/// The update counts of a prefix are the advance of its counters.
pub open spec fn prefix_sound(prefix: CustomerPrefix) -> bool {
    let version = prefix.endpoint.version;
    &&& version.payment_count >= 1
    &&& version.delivery_count >= 0
    &&& prefix.payment_updates == version.payment_count - 1
    &&& prefix.delivery_updates == version.delivery_count
}

/// A rooted prefix with later, disjoint runs.
pub open spec fn customer_chain_sound(chain: CustomerChainModel) -> bool {
    &&& prefix_sound(chain.prefix)
    &&& gapped(chain.pending)
    &&& forall|i: int|
        0 <= i < chain.pending.len() ==> (#[trigger] chain.pending[i]).from_version() > prefix_end(
            chain.prefix,
        )
}

/// Why a run does not follow a prefix.
pub open spec fn absorb_fault(prefix: CustomerPrefix, segment: CustomerSegment) -> Option<
    CollectorFault,
> {
    first(
        refused_if(
            prefix.endpoint.version != segment.start_version || plain_zero(
                prefix.endpoint.balance_bits,
            ) != segment.start_balance_bits,
            edge_error(CollectorError::BoundaryMismatch("customer")),
        ),
        refused_if(
            segment.ytd matches YtdSpan::Known { start_bits, .. } && plain_zero(
                prefix.endpoint.ytd_payment_bits,
            ) != start_bits,
            edge_error(CollectorError::BoundaryMismatch("customer YTD")),
        ),
    )
}

/// A prefix with a run after it.
pub open spec fn absorbed(prefix: CustomerPrefix, segment: CustomerSegment) -> CustomerPrefix {
    CustomerPrefix {
        endpoint: CustomerUpdateEndpoint {
            version: segment.end_version,
            balance_bits: segment.end_balance_bits,
            ytd_payment_bits: match segment.ytd {
                YtdSpan::Identity => prefix.endpoint.ytd_payment_bits,
                YtdSpan::Known { end_bits, .. } => end_bits,
            },
        },
        payment_updates: (prefix.payment_updates + segment.payment_updates) as u64,
        delivery_updates: (prefix.delivery_updates + segment.delivery_updates) as u64,
        digest: digest_sum(prefix.digest, segment.digest),
    }
}

/// The chain once the waiting runs that follow the prefix are in it.
pub open spec fn customer_drained(chain: CustomerChainModel) -> CustomerChained
    decreases chain.pending.len(),
{
    if chain.pending.len() == 0 || chain.pending[0].from_version() != prefix_end(chain.prefix) {
        CustomerChained { chain, fault: None }
    } else {
        let segment = chain.pending[0];
        let rest = chain.pending.remove(0);
        if absorb_fault(chain.prefix, segment) is Some {
            CustomerChained {
                chain: CustomerChainModel { pending: rest, ..chain },
                fault: absorb_fault(chain.prefix, segment),
            }
        } else {
            customer_drained(
                CustomerChainModel {
                    prefix: absorbed(chain.prefix, segment),
                    pending: rest,
                    ..chain
                },
            )
        }
    }
}

/// The chain once a run has come in.
pub open spec fn customer_inserted(
    chain: CustomerChainModel,
    segment: CustomerSegment,
) -> CustomerChained {
    let end = prefix_end(chain.prefix);
    if segment.from_version() < end {
        CustomerChained {
            chain,
            fault: Some(repeated::<CustomerSegment>(segment.from_version())),
        }
    } else if segment.from_version() == end {
        if absorb_fault(chain.prefix, segment) is Some {
            CustomerChained { chain, fault: absorb_fault(chain.prefix, segment) }
        } else {
            customer_drained(
                CustomerChainModel { prefix: absorbed(chain.prefix, segment), ..chain },
            )
        }
    } else {
        let next = pended(chain.pending, segment);
        CustomerChained {
            chain: CustomerChainModel { pending: next.pending, ..chain },
            fault: next.fault,
        }
    }
}

proof fn lemma_absorbed(prefix: CustomerPrefix, segment: CustomerSegment)
    requires
        prefix_sound(prefix),
        segment.sound(),
        absorb_fault(prefix, segment) is None,
    ensures
        prefix_sound(absorbed(prefix, segment)),
        prefix_end(absorbed(prefix, segment)) == segment.to_version(),
{
}

/// Sound runs of which none starts before the prefix ends.
pub open spec fn drainable(chain: CustomerChainModel) -> bool {
    &&& prefix_sound(chain.prefix)
    &&& gapped(chain.pending)
    &&& forall|i: int|
        0 <= i < chain.pending.len() ==> (#[trigger] chain.pending[i]).from_version()
            >= prefix_end(chain.prefix)
}

proof fn lemma_drain_step(chain: CustomerChainModel)
    requires
        drainable(chain),
        chain.pending.len() > 0,
        chain.pending[0].from_version() == prefix_end(chain.prefix),
    ensures
        ({
            let rest = chain.pending.remove(0);
            &&& chain.pending[0].sound()
            &&& customer_chain_sound(CustomerChainModel { pending: rest, ..chain })
            &&& absorb_fault(chain.prefix, chain.pending[0]) is None ==> drainable(
                CustomerChainModel {
                    prefix: absorbed(chain.prefix, chain.pending[0]),
                    pending: rest,
                    ..chain
                },
            )
        }),
{
    let segment = chain.pending[0];
    let rest = chain.pending.remove(0);
    lemma_removed(chain.pending, 0);
    assert(segment.sound());
    if absorb_fault(chain.prefix, segment) is None {
        lemma_absorbed(chain.prefix, segment);
    }
    assert forall|i: int| 0 <= i < rest.len() implies (#[trigger] rest[i]).from_version()
        > segment.to_version() by {
        assert(rest[i] == chain.pending[i + 1]);
        assert(chain.pending[0].to_version() < chain.pending[i + 1].from_version());
    }
}

/// Draining leaves a sound chain.
pub proof fn lemma_customer_drained(chain: CustomerChainModel)
    requires
        drainable(chain),
    ensures
        customer_chain_sound(customer_drained(chain).chain),
    decreases chain.pending.len(),
{
    if chain.pending.len() > 0 && chain.pending[0].from_version() == prefix_end(chain.prefix) {
        lemma_drain_step(chain);
        if absorb_fault(chain.prefix, chain.pending[0]) is None {
            lemma_customer_drained(
                CustomerChainModel {
                    prefix: absorbed(chain.prefix, chain.pending[0]),
                    pending: chain.pending.remove(0),
                    ..chain
                },
            );
        }
    } else {
        assert forall|i: int| 0 <= i < chain.pending.len() implies (
        #[trigger] chain.pending[i]).from_version() > prefix_end(chain.prefix) by {
            if i > 0 {
                chain.pending[0].lemma_sound();
                assert(chain.pending[0].to_version() < chain.pending[i].from_version());
            }
        }
    }
}

/// Whatever single update comes in, a chain stays sound.
pub proof fn law_customer_chain_stays_sound(chain: CustomerChainModel, segment: CustomerSegment)
    requires
        customer_chain_sound(chain),
        segment.sound(),
        segment.to_version() == segment.from_version() + 1,
    ensures
        customer_chain_sound(customer_inserted(chain, segment).chain),
{
    let end = prefix_end(chain.prefix);
    if segment.from_version() == end {
        if absorb_fault(chain.prefix, segment) is None {
            lemma_absorbed(chain.prefix, segment);
            let grown = CustomerChainModel { prefix: absorbed(chain.prefix, segment), ..chain };
            lemma_customer_grown(chain, segment);
            lemma_customer_drained(grown);
        }
    } else if segment.from_version() > end {
        lemma_pended(chain.pending, segment);
        lemma_pended_after(chain.pending, segment, end);
    }
}

/// A unit run after the prefix does not pass the runs that wait.
proof fn lemma_customer_grown(chain: CustomerChainModel, segment: CustomerSegment)
    requires
        customer_chain_sound(chain),
        segment.sound(),
        segment.from_version() == prefix_end(chain.prefix),
        segment.to_version() == segment.from_version() + 1,
        absorb_fault(chain.prefix, segment) is None,
    ensures
        drainable(CustomerChainModel { prefix: absorbed(chain.prefix, segment), ..chain }),
{
    lemma_absorbed(chain.prefix, segment);
}

impl CustomerChain {
    pub fn new(key: CustomerKey) -> (r: Self)
        ensures
            r@ == loaded_chain(key),
            customer_chain_sound(r@),
    {
        CustomerChain {
            key,
            prefix: CustomerPrefix {
                endpoint: CustomerUpdateEndpoint {
                    version: CustomerLogicalVersion {
                        payment_count: CUSTOMER_INITIAL_PAYMENT_COUNT,
                        delivery_count: CUSTOMER_INITIAL_DELIVERY_COUNT,
                    },
                    balance_bits: CUSTOMER_INITIAL_BALANCE_BITS,
                    ytd_payment_bits: CUSTOMER_INITIAL_YTD_BITS,
                },
                payment_updates: 0,
                delivery_updates: 0,
                digest: Digest::empty(),
            },
            pending: Vec::new(),
        }
    }

    fn prefix_total(&self) -> (r: i64)
        requires
            prefix_sound(self.prefix),
        ensures
            r == prefix_end(self.prefix),
    {
        let version = self.prefix.endpoint.version;
        version.payment_count as i64 + version.delivery_count as i64
    }

    fn absorb(&mut self, segment: CustomerSegment) -> (r: Result<(), CollectorError>)
        requires
            prefix_sound(old(self).prefix),
            segment.sound(),
        ensures
            collector_refusal(r) == absorb_fault(old(self).prefix, segment),
            r is Err ==> *final(self) == *old(self),
            r is Ok ==> final(self)@ == (CustomerChainModel {
                prefix: absorbed(old(self).prefix, segment),
                ..old(self)@
            }),
    {
        let prefix = self.prefix;
        if prefix.endpoint.version != segment.start_version || canonical_zero(
            prefix.endpoint.balance_bits,
        ) != segment.start_balance_bits {
            return Err(CollectorError::BoundaryMismatch("customer"));
        }
        let ytd_payment_bits: u32 = match segment.ytd {
            YtdSpan::Identity => prefix.endpoint.ytd_payment_bits,
            YtdSpan::Known { start_bits, end_bits } => {
                if canonical_zero(prefix.endpoint.ytd_payment_bits) != start_bits {
                    return Err(CollectorError::BoundaryMismatch("customer YTD"));
                }
                end_bits
            },
        };
        self.prefix = CustomerPrefix {
            endpoint: CustomerUpdateEndpoint {
                version: segment.end_version,
                balance_bits: segment.end_balance_bits,
                ytd_payment_bits,
            },
            payment_updates: prefix.payment_updates + segment.payment_updates,
            delivery_updates: prefix.delivery_updates + segment.delivery_updates,
            digest: add_digest(prefix.digest, segment.digest),
        };
        Ok(())
    }

    fn drain_pending(&mut self) -> (r: Result<(), CollectorError>)
        requires
            drainable(old(self)@),
        ensures
            (CustomerChained { chain: final(self)@, fault: collector_refusal(r) })
                == customer_drained(old(self)@),
    {
        let ghost goal = customer_drained(self@);
        while self.pending.len() > 0
            invariant
                drainable(self@),
                goal == customer_drained(old(self)@),
                customer_drained(self@) == goal,
            decreases self.pending@.len(),
        {
            assert(self@.pending[0].sound());
            if self.pending[0].start() != self.prefix_total() {
                return Ok(());
            }
            proof {
                lemma_drain_step(self@);
            }
            let segment = self.pending.remove(0);
            self.absorb(segment)?;
        }
        Ok(())
    }

    /// Takes a single update in.
    pub fn insert(&mut self, segment: CustomerSegment) -> (r: Result<(), CollectorError>)
        requires
            customer_chain_sound(old(self)@),
            segment.sound(),
            segment.to_version() == segment.from_version() + 1,
        ensures
            (CustomerChained { chain: final(self)@, fault: collector_refusal(r) })
                == customer_inserted(old(self)@, segment),
            customer_chain_sound(final(self)@),
    {
        proof {
            law_customer_chain_stays_sound(self@, segment);
        }
        let end: i64 = self.prefix_total();
        if segment.start() < end {
            return Err(
                CollectorError::DuplicatePredecessor {
                    domain: "customer",
                    predecessor: segment.start(),
                },
            );
        }
        if segment.start() == end {
            proof {
                if absorb_fault(self.prefix, segment) is None {
                    lemma_customer_grown(self@, segment);
                }
            }
            self.absorb(segment)?;
            return self.drain_pending();
        }
        insert_pending(&mut self.pending, segment)
    }
}

} // verus!
