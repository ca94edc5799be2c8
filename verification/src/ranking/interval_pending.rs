//! Disjoint version intervals that wait for their predecessor.
use vstd::prelude::*;

verus! {

#[derive(Clone, Debug, PartialEq, Eq)]
pub enum CollectorError {
    InvalidConfiguration(&'static str),
    InvalidKey(String),
    InvalidCustomerEdge(&'static str),
    InvalidStockEdge(&'static str),
    BoundaryMismatch(&'static str),
    FloatMismatch(&'static str),
    NonFinite { field: &'static str, bits: u32 },
    DuplicatePredecessor { domain: &'static str, predecessor: i64 },
    Disconnected { domain: &'static str, key: String, pending: usize },
    PendingLimit { actual: usize, limit: usize },
    Overflow(&'static str),
}

/// The content of a [`CollectorError`].
#[verifier::ext_equal]
pub enum CollectorFault {
    Plain(CollectorError),
    InvalidKey(Seq<char>),
    Disconnected { domain: &'static str, key: Seq<char>, pending: usize },
}

impl View for CollectorError {
    type V = CollectorFault;

    open spec fn view(&self) -> CollectorFault {
        match *self {
            CollectorError::InvalidKey(key) => CollectorFault::InvalidKey(key@),
            CollectorError::Disconnected { domain, key, pending } => CollectorFault::Disconnected {
                domain,
                key: key@,
                pending,
            },
            other => CollectorFault::Plain(other),
        }
    }
}

/// A result with its error as content.
pub open spec fn collected<T>(r: Result<T, CollectorError>) -> Result<T, CollectorFault> {
    match r {
        Ok(value) => Ok(value),
        Err(error) => Err(error@),
    }
}

/// The refusal of a result.
pub open spec fn collector_refusal<T>(r: Result<T, CollectorError>) -> Option<CollectorFault> {
    match r {
        Ok(_) => None,
        Err(error) => Some(error@),
    }
}

/// A run of updates of one row, from one version to a later one.
pub trait Segment: Sized + Copy {
    /// The version before the run.
    spec fn from_version(&self) -> int;

    /// The version after the run.
    spec fn to_version(&self) -> int;

    /// The run is not empty and adds up.
    spec fn sound(&self) -> bool;

    /// The two runs as one.
    spec fn composed(&self, next: &Self) -> Result<Self, CollectorFault>;

    /// The name of the rows.
    spec fn rows() -> &'static str;

    fn start(&self) -> (r: i64)
        requires
            self.sound(),
        ensures
            r == self.from_version(),
    ;

    fn end(&self) -> (r: i64)
        requires
            self.sound(),
        ensures
            r == self.to_version(),
    ;

    fn domain() -> (r: &'static str)
        ensures
            r == Self::rows(),
    ;

    fn follow(self, next: Self) -> (r: Result<Self, CollectorError>)
        requires
            self.sound(),
            next.sound(),
        ensures
            collected(r) == self.composed(&next),
    ;

    proof fn lemma_sound(&self)
        requires
            self.sound(),
        ensures
            0 <= self.from_version() < self.to_version() <= i64::MAX,
    ;

    proof fn lemma_composed(&self, next: &Self)
        requires
            self.sound(),
            next.sound(),
            self.composed(next) is Ok,
        ensures
            self.composed(next)->Ok_0.sound(),
            self.composed(next)->Ok_0.from_version() == self.from_version(),
            self.composed(next)->Ok_0.to_version() == next.to_version(),
            self.to_version() == next.from_version(),
    ;

    /// Three runs become one from either end.
    proof fn lemma_regroup(&self, second: &Self, third: &Self)
        requires
            self.sound(),
            second.sound(),
            third.sound(),
        ensures
            (self.composed(second) is Ok && self.composed(second)->Ok_0.composed(third) is Ok) == (
            second.composed(third) is Ok && self.composed(&second.composed(third)->Ok_0) is Ok),
            self.composed(second) is Ok && self.composed(second)->Ok_0.composed(third) is Ok
                ==> self.composed(second)->Ok_0.composed(third)->Ok_0 == self.composed(
                &second.composed(third)->Ok_0,
            )->Ok_0,
    ;
}

/// A list after a change, with the refusal if there was one.
#[verifier::ext_equal]
pub struct Pended<S> {
    pub pending: Seq<S>,
    pub fault: Option<CollectorFault>,
}

/// How many segments start at or before a version, in an ascending list.
pub open spec fn starts_within<S: Segment>(pending: Seq<S>, version: int) -> int
    decreases pending.len(),
{
    if pending.len() == 0 {
        0
    } else if pending.last().from_version() <= version {
        pending.len() as int
    } else {
        starts_within(pending.drop_last(), version)
    }
}

/// Sound segments in ascending order with gaps between them.
pub open spec fn gapped<S: Segment>(pending: Seq<S>) -> bool {
    &&& forall|i: int| 0 <= i < pending.len() ==> (#[trigger] pending[i]).sound()
    &&& forall|i: int, j: int|
        0 <= i < j < pending.len() ==> (#[trigger] pending[i]).to_version() < (
        #[trigger] pending[j]).from_version()
}

/// A stale or repeated predecessor.
pub open spec fn repeated<S: Segment>(version: int) -> CollectorFault {
    CollectorFault::Plain(
        CollectorError::DuplicatePredecessor {
            domain: S::rows(),
            predecessor: version as i64,
        },
    )
}

/// A segment goes in at `at`, joined with the segment that follows.
pub open spec fn placed_at<S: Segment>(pending: Seq<S>, segment: S, at: int) -> Pended<S> {
    if at >= pending.len() {
        Pended { pending: pending.push(segment), fault: None }
    } else {
        let next = pending[at];
        if next.from_version() < segment.to_version() {
            Pended { pending, fault: Some(repeated::<S>(next.from_version())) }
        } else if next.from_version() == segment.to_version() {
            let rest = pending.remove(at);
            match segment.composed(&next) {
                Ok(joined) => Pended { pending: rest.insert(at, joined), fault: None },
                Err(fault) => Pended { pending: rest, fault: Some(fault) },
            }
        } else {
            Pended { pending: pending.insert(at, segment), fault: None }
        }
    }
}

/// A segment waits for its predecessor, joined with its neighbours.
pub open spec fn pended<S: Segment>(pending: Seq<S>, segment: S) -> Pended<S> {
    let n = starts_within(pending, segment.from_version());
    if n == 0 {
        placed_at(pending, segment, 0)
    } else {
        let previous = pending[n - 1];
        if previous.to_version() > segment.from_version() {
            Pended { pending, fault: Some(repeated::<S>(segment.from_version())) }
        } else if previous.to_version() == segment.from_version() {
            let rest = pending.remove(n - 1);
            match previous.composed(&segment) {
                Ok(joined) => placed_at(rest, joined, n - 1),
                Err(fault) => Pended { pending: rest, fault: Some(fault) },
            }
        } else {
            placed_at(pending, segment, n)
        }
    }
}

pub proof fn lemma_starts_within<S: Segment>(pending: Seq<S>, version: int)
    requires
        gapped(pending),
    ensures
        0 <= starts_within(pending, version) <= pending.len(),
        forall|i: int|
            0 <= i < starts_within(pending, version) ==> (#[trigger] pending[i]).from_version()
                <= version,
        forall|i: int|
            starts_within(pending, version) <= i < pending.len() ==> (
            #[trigger] pending[i]).from_version() > version,
    decreases pending.len(),
{
    if pending.len() > 0 {
        if pending.last().from_version() <= version {
            assert forall|i: int| 0 <= i < pending.len() implies (
            #[trigger] pending[i]).from_version() <= version by {
                if i < pending.len() - 1 {
                    pending[i].lemma_sound();
                    assert(pending[i].to_version() < pending[pending.len() - 1].from_version());
                }
            }
        } else {
            let front = pending.drop_last();
            assert forall|i: int, j: int| 0 <= i < j < front.len() implies (
            #[trigger] front[i]).to_version() < (#[trigger] front[j]).from_version() by {
                assert(pending[i].to_version() < pending[j].from_version());
            }
            assert forall|i: int| 0 <= i < front.len() implies (#[trigger] front[i]).sound() by {
                assert(pending[i].sound());
            }
            lemma_starts_within(front, version);
            assert forall|i: int|
                starts_within(pending, version) <= i < pending.len() implies (
            #[trigger] pending[i]).from_version() > version by {
                if i < pending.len() - 1 {
                    assert(front[i].from_version() > version);
                }
            }
            assert forall|i: int|
                0 <= i < starts_within(pending, version) implies (
            #[trigger] pending[i]).from_version() <= version by {
                assert(front[i].from_version() <= version);
            }
        }
    }
}

/// Taking a segment out leaves the gaps.
pub proof fn lemma_removed<S: Segment>(pending: Seq<S>, at: int)
    requires
        gapped(pending),
        0 <= at < pending.len(),
    ensures
        gapped(pending.remove(at)),
{
    let rest = pending.remove(at);
    assert forall|i: int| 0 <= i < rest.len() implies (#[trigger] rest[i]).sound() by {
        assert(rest[i] == pending[if i < at { i } else { i + 1 }]);
    }
    assert forall|i: int, j: int| 0 <= i < j < rest.len() implies (
    #[trigger] rest[i]).to_version() < (#[trigger] rest[j]).from_version() by {
        let a = if i < at { i } else { i + 1 };
        let b = if j < at { j } else { j + 1 };
        assert(pending[a].to_version() < pending[b].from_version());
    }
}

/// Putting a segment into a gap leaves gaps.
pub proof fn lemma_inserted<S: Segment>(pending: Seq<S>, at: int, segment: S)
    requires
        gapped(pending),
        0 <= at <= pending.len(),
        segment.sound(),
        forall|i: int|
            0 <= i < at ==> (#[trigger] pending[i]).to_version() < segment.from_version(),
        forall|i: int|
            at <= i < pending.len() ==> segment.to_version() < (
            #[trigger] pending[i]).from_version(),
    ensures
        gapped(pending.insert(at, segment)),
{
    let full = pending.insert(at, segment);
    assert forall|i: int| 0 <= i < full.len() implies (#[trigger] full[i]).sound() by {
        if i < at {
            assert(full[i] == pending[i]);
        } else if i > at {
            assert(full[i] == pending[i - 1]);
        }
    }
    assert forall|i: int, j: int| 0 <= i < j < full.len() implies (
    #[trigger] full[i]).to_version() < (#[trigger] full[j]).from_version() by {
        if i < at && j < at {
            assert(pending[i].to_version() < pending[j].from_version());
        } else if i < at && j > at {
            assert(pending[i].to_version() < pending[j - 1].from_version());
        } else if i > at {
            assert(pending[i - 1].to_version() < pending[j - 1].from_version());
        } else if j == at {
            assert(pending[i].to_version() < segment.from_version());
        } else {
            assert(segment.to_version() < pending[j - 1].from_version());
        }
    }
}

proof fn lemma_placed_at<S: Segment>(pending: Seq<S>, segment: S, at: int)
    requires
        gapped(pending),
        segment.sound(),
        0 <= at <= pending.len(),
        forall|i: int|
            0 <= i < at ==> (#[trigger] pending[i]).to_version() < segment.from_version(),
        forall|i: int|
            at <= i < pending.len() ==> (#[trigger] pending[i]).from_version()
                > segment.from_version(),
    ensures
        gapped(placed_at(pending, segment, at).pending),
{
    if at >= pending.len() {
        lemma_inserted(pending, at, segment);
        assert(pending.insert(at, segment) =~= pending.push(segment));
    } else {
        let next = pending[at];
        if next.from_version() == segment.to_version() {
            let rest = pending.remove(at);
            lemma_removed(pending, at);
            if let Ok(joined) = segment.composed(&next) {
                segment.lemma_composed(&next);
                assert forall|i: int| 0 <= i < at implies (#[trigger] rest[i]).to_version()
                    < joined.from_version() by {
                    assert(rest[i] == pending[i]);
                }
                assert forall|i: int| at <= i < rest.len() implies joined.to_version() < (
                #[trigger] rest[i]).from_version() by {
                    assert(rest[i] == pending[i + 1]);
                    assert(pending[at].to_version() < pending[i + 1].from_version());
                }
                lemma_inserted(rest, at, joined);
            }
        } else if next.from_version() > segment.to_version() {
            assert forall|i: int| at <= i < pending.len() implies segment.to_version() < (
            #[trigger] pending[i]).from_version() by {
                if i > at {
                    pending[at].lemma_sound();
                    assert(pending[at].to_version() < pending[i].from_version());
                }
            }
            lemma_inserted(pending, at, segment);
        }
    }
}

/// Whatever comes in, the list keeps its gaps.
pub proof fn lemma_pended<S: Segment>(pending: Seq<S>, segment: S)
    requires
        gapped(pending),
        segment.sound(),
    ensures
        gapped(pended(pending, segment).pending),
{
    lemma_starts_within(pending, segment.from_version());
    let n = starts_within(pending, segment.from_version());
    if n == 0 {
        lemma_placed_at(pending, segment, 0);
    } else {
        let previous = pending[n - 1];
        assert(previous.sound());
        if previous.to_version() == segment.from_version() {
            let rest = pending.remove(n - 1);
            lemma_removed(pending, n - 1);
            if let Ok(joined) = previous.composed(&segment) {
                previous.lemma_composed(&segment);
                previous.lemma_sound();
                assert forall|i: int| 0 <= i < n - 1 implies (#[trigger] rest[i]).to_version()
                    < joined.from_version() by {
                    assert(rest[i] == pending[i]);
                    assert(pending[i].to_version() < pending[n - 1].from_version());
                }
                assert forall|i: int| n - 1 <= i < rest.len() implies (
                #[trigger] rest[i]).from_version() > joined.from_version() by {
                    assert(rest[i] == pending[i + 1]);
                    assert(pending[n - 1].to_version() < pending[i + 1].from_version());
                }
                lemma_placed_at(rest, joined, n - 1);
            }
        } else if previous.to_version() < segment.from_version() {
            assert forall|i: int| 0 <= i < n implies (#[trigger] pending[i]).to_version()
                < segment.from_version() by {
                if i < n - 1 {
                    pending[n - 1].lemma_sound();
                    assert(pending[i].to_version() < pending[n - 1].from_version());
                }
            }
            lemma_placed_at(pending, segment, n);
        }
    }
}

proof fn lemma_placed_after<S: Segment>(pending: Seq<S>, segment: S, at: int, bound: int)
    requires
        gapped(pending),
        segment.sound(),
        0 <= at <= pending.len(),
        segment.from_version() > bound,
        forall|i: int| 0 <= i < pending.len() ==> (#[trigger] pending[i]).from_version() > bound,
    ensures
        forall|i: int|
            0 <= i < placed_at(pending, segment, at).pending.len() ==> (#[trigger] placed_at(
                pending,
                segment,
                at,
            ).pending[i]).from_version() > bound,
{
    if at < pending.len() {
        let next = pending[at];
        assert(next.sound());
        if let Ok(joined) = segment.composed(&next) {
            segment.lemma_composed(&next);
        }
    }
}

/// What waits after a version waits after it still.
pub proof fn lemma_pended_after<S: Segment>(pending: Seq<S>, segment: S, bound: int)
    requires
        gapped(pending),
        segment.sound(),
        segment.from_version() > bound,
        forall|i: int| 0 <= i < pending.len() ==> (#[trigger] pending[i]).from_version() > bound,
    ensures
        forall|i: int|
            0 <= i < pended(pending, segment).pending.len() ==> (#[trigger] pended(
                pending,
                segment,
            ).pending[i]).from_version() > bound,
{
    lemma_starts_within(pending, segment.from_version());
    let n = starts_within(pending, segment.from_version());
    if n == 0 {
        lemma_placed_after(pending, segment, 0, bound);
    } else {
        let previous = pending[n - 1];
        assert(previous.sound());
        if previous.to_version() == segment.from_version() {
            let rest = pending.remove(n - 1);
            lemma_removed(pending, n - 1);
            if let Ok(joined) = previous.composed(&segment) {
                previous.lemma_composed(&segment);
                lemma_placed_after(rest, joined, n - 1, bound);
            }
        } else if previous.to_version() < segment.from_version() {
            lemma_placed_after(pending, segment, n, bound);
        }
    }
}

fn place_at<S: Segment>(pending: &mut Vec<S>, segment: S, at: usize) -> (r: Result<
    (),
    CollectorError,
>)
    requires
        gapped(old(pending)@),
        segment.sound(),
        at <= old(pending)@.len(),
    ensures
        (Pended { pending: final(pending)@, fault: collector_refusal(r) }) == placed_at(
            old(pending)@,
            segment,
            at as int,
        ),
{
    if at >= pending.len() {
        pending.push(segment);
        return Ok(());
    }
    let next: S = pending[at];
    assert(pending@[at as int].sound());
    if next.start() < segment.end() {
        return Err(
            CollectorError::DuplicatePredecessor { domain: S::domain(), predecessor: next.start() },
        );
    }
    if next.start() == segment.end() {
        let _taken = pending.remove(at);
        let joined = segment.follow(next)?;
        pending.insert(at, joined);
        return Ok(());
    }
    pending.insert(at, segment);
    Ok(())
}

/// Lets a segment wait for its predecessor.
pub fn insert_pending<S: Segment>(pending: &mut Vec<S>, segment: S) -> (r: Result<
    (),
    CollectorError,
>)
    requires
        gapped(old(pending)@),
        segment.sound(),
    ensures
        (Pended { pending: final(pending)@, fault: collector_refusal(r) }) == pended(
            old(pending)@,
            segment,
        ),
        gapped(final(pending)@),
{
    let ghost before = pending@;
    proof {
        lemma_pended(before, segment);
        lemma_starts_within(before, segment.from_version());
        assert(before.subrange(0, before.len() as int) =~= before);
    }
    let mut n: usize = pending.len();
    while n > 0 && pending[n - 1].start() > segment.start()
        invariant
            n <= pending@.len(),
            pending@ == before,
            gapped(before),
            segment.sound(),
            starts_within(before, segment.from_version()) == starts_within(
                before.subrange(0, n as int),
                segment.from_version(),
            ),
            forall|i: int| 0 <= i < before.len() ==> (#[trigger] before[i]).sound(),
        decreases n,
    {
        proof {
            assert(before.subrange(0, n as int).drop_last() =~= before.subrange(0, n - 1));
        }
        n = n - 1;
    }
    if n == 0 {
        return place_at(pending, segment, 0);
    }
    let previous: S = pending[n - 1];
    assert(before[n - 1].sound());
    if previous.end() > segment.start() {
        return Err(
            CollectorError::DuplicatePredecessor {
                domain: S::domain(),
                predecessor: segment.start(),
            },
        );
    }
    if previous.end() == segment.start() {
        let _taken = pending.remove(n - 1);
        proof {
            lemma_removed(before, n - 1);
        }
        let joined = previous.follow(segment)?;
        proof {
            previous.lemma_composed(&segment);
        }
        return place_at(pending, joined, n - 1);
    }
    place_at(pending, segment, n)
}

} // verus!
