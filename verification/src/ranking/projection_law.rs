//! Projecting a ledger on its ranked windows twice changes nothing.
use vstd::prelude::*;

use crate::ranking::ledger::EventModel;
use crate::ranking::run_ledger::{ranked_events, replay_fault, replayed};

verus! {

/// Only events of formal windows are chosen, among them all of a list that holds
/// no others.
proof fn lemma_ranked_only(events: Seq<EventModel>, n: int)
    requires
        0 <= n <= events.len(),
    ensures
        forall|i: int|
            0 <= i < ranked_events(events, n).len() ==> (#[trigger] ranked_events(
                events,
                n,
            )[i]).meta().class.ranked(),
        (forall|i: int| 0 <= i < n ==> (#[trigger] events[i]).meta().class.ranked())
            ==> ranked_events(events, n) == events.subrange(0, n),
    decreases n,
{
    if n > 0 {
        lemma_ranked_only(events, n - 1);
        if forall|i: int| 0 <= i < n ==> (#[trigger] events[i]).meta().class.ranked() {
            assert(events[n - 1].meta().class.ranked());
            assert(ranked_events(events, n) =~= events.subrange(0, n));
        }
    } else {
        assert(ranked_events(events, n) =~= events.subrange(0, n));
    }
}

/// The events of a replayed ledger are those that were replayed.
proof fn lemma_replayed_events(events: Seq<EventModel>, n: int)
    requires
        0 <= n <= events.len(),
    ensures
        replayed(events, n).events == events.subrange(0, n),
    decreases n,
{
    if n > 0 {
        lemma_replayed_events(events, n - 1);
    }
    assert(replayed(events, n).events =~= events.subrange(0, n));
}

/// Law: the ranked projection of a ranked projection is itself. Every event of a
/// projection belongs to a formal window, and where a ledger can be projected its
/// projection can, with the same ledger as result.
pub proof fn law_projecting_twice_changes_nothing(events: Seq<EventModel>)
    requires
        replay_fault(
            ranked_events(events, events.len() as int),
            0,
            "ranked ledger events"@,
        ) is None,
    ensures
        ({
            let ranked = ranked_events(events, events.len() as int);
            let once = replayed(ranked, ranked.len() as int);
            let again = ranked_events(once.events, once.events.len() as int);
            &&& once.events == ranked
            &&& forall|i: int|
                0 <= i < once.events.len() ==> (#[trigger] once.events[i]).meta().class.ranked()
            &&& again == ranked
            &&& replay_fault(again, 0, "ranked ledger events"@) is None
            &&& replayed(again, again.len() as int) == once
        }),
{
    let ranked = ranked_events(events, events.len() as int);
    lemma_ranked_only(events, events.len() as int);
    lemma_replayed_events(ranked, ranked.len() as int);
    assert(ranked.subrange(0, ranked.len() as int) =~= ranked);
    lemma_ranked_only(ranked, ranked.len() as int);
}

} // verus!
