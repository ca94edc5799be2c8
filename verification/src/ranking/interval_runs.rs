//! Lists of waiting runs hold what came in, whatever the order.
use vstd::prelude::*;
use vstd::set_lib::{lemma_int_range, set_int_range};

use crate::ranking::interval_pending::{
    Segment, gapped, lemma_inserted, lemma_removed, lemma_starts_within, pended, placed_at,
    starts_within,
};

verus! {

/// Single updates by the version before them.
pub open spec fn edges_sound<S: Segment>(edges: Map<int, S>) -> bool {
    forall|v: int|
        edges.contains_key(v) ==> (#[trigger] edges[v]).sound() && edges[v].from_version() == v
            && edges[v].to_version() == v + 1
}

/// The updates from version `a` to version `b` as one run, if they join.
pub open spec fn run<S: Segment>(edges: Map<int, S>, a: int, b: int) -> Option<S>
    decreases b - a,
{
    if b <= a || !edges.contains_key(b - 1) {
        None
    } else if b == a + 1 {
        Some(edges[a])
    } else {
        match run(edges, a, b - 1) {
            None => None,
            Some(s) => match s.composed(&edges[b - 1]) {
                Ok(joined) => Some(joined),
                Err(_) => None,
            },
        }
    }
}

/// Whether a run contains the update after version `v`.
pub open spec fn holds<S: Segment>(s: S, v: int) -> bool {
    s.from_version() <= v < s.to_version()
}

/// Whether a run of a list contains the update after version `v`.
pub open spec fn held<S: Segment>(list: Seq<S>, v: int) -> bool {
    exists|i: int| 0 <= i < list.len() && holds(#[trigger] list[i], v)
}

/// Whether a list holds exactly these updates, as runs with gaps between them.
pub open spec fn spans<S: Segment>(list: Seq<S>, edges: Map<int, S>) -> bool {
    &&& gapped(list)
    &&& forall|i: int|
        0 <= i < list.len() ==> run(
            edges,
            (#[trigger] list[i]).from_version(),
            list[i].to_version(),
        ) == Some(list[i])
    &&& forall|v: int| #[trigger] edges.contains_key(v) <==> held(list, v)
}

/// Whether updates join wherever they meet.
pub open spec fn consistent_edges<S: Segment>(edges: Map<int, S>) -> bool {
    forall|a: int, b: int|
        a < b && (forall|v: int| a <= v < b ==> edges.contains_key(v)) ==> (#[trigger] run(
            edges,
            a,
            b,
        )) is Some
}

pub proof fn lemma_run_sound<S: Segment>(edges: Map<int, S>, a: int, b: int)
    requires
        edges_sound(edges),
        run(edges, a, b) is Some,
    ensures
        run(edges, a, b)->0.sound(),
        run(edges, a, b)->0.from_version() == a,
        run(edges, a, b)->0.to_version() == b,
        forall|v: int| a <= v < b ==> edges.contains_key(v),
    decreases b - a,
{
    assert(edges[b - 1].sound());
    if b > a + 1 {
        lemma_run_sound(edges, a, b - 1);
        run(edges, a, b - 1)->0.lemma_composed(&edges[b - 1]);
    }
}

/// Runs depend on their own updates only.
pub proof fn lemma_run_agrees<S: Segment>(x: Map<int, S>, y: Map<int, S>, a: int, b: int)
    requires
        forall|v: int|
            a <= v < b && #[trigger] x.contains_key(v) ==> y.contains_key(v) && x[v] == y[v],
        run(x, a, b) is Some,
    ensures
        run(y, a, b) == run(x, a, b),
    decreases b - a,
{
    if b > a + 1 {
        lemma_run_agrees(x, y, a, b - 1);
    }
}

/// Two neighbouring runs join exactly where their updates are one run.
pub proof fn lemma_run_join<S: Segment>(edges: Map<int, S>, a: int, m: int, b: int)
    requires
        edges_sound(edges),
        a < m < b,
        run(edges, a, m) is Some,
        run(edges, m, b) is Some,
    ensures
        run(edges, a, b) is Some <==> run(edges, a, m)->0.composed(&run(edges, m, b)->0) is Ok,
        run(edges, a, b) is Some ==> run(edges, a, b)->0 == run(edges, a, m)->0.composed(
            &run(edges, m, b)->0,
        )->Ok_0,
    decreases b - m,
{
    lemma_run_sound(edges, a, m);
    lemma_run_sound(edges, m, b);
    if b > m + 1 {
        lemma_run_sound(edges, m, b - 1);
        lemma_run_join(edges, a, m, b - 1);
        assert(edges[b - 1].sound());
        run(edges, a, m)->0.lemma_regroup(&run(edges, m, b - 1)->0, &edges[b - 1]);
    }
}

/// A part of a run is a run.
pub proof fn lemma_run_part<S: Segment>(edges: Map<int, S>, a: int, b: int, c: int, d: int)
    requires
        edges_sound(edges),
        a <= c < d <= b,
        run(edges, a, b) is Some,
    ensures
        run(edges, c, d) is Some,
    decreases b - a, d - c,
{
    lemma_run_sound(edges, a, b);
    if d < b {
        lemma_run_part(edges, a, b - 1, c, d);
    } else if a < c {
        if d > c + 1 {
            lemma_run_part(edges, a, b - 1, c, d - 1);
            lemma_run_part(edges, a, b - 1, a, c);
            lemma_run_sound(edges, a, c);
            lemma_run_sound(edges, c, d - 1);
            lemma_run_join(edges, a, c, d - 1);
            assert(edges[d - 1].sound());
            run(edges, a, c)->0.lemma_regroup(&run(edges, c, d - 1)->0, &edges[d - 1]);
        }
    }
}

proof fn lemma_held_insert<S: Segment>(list: Seq<S>, at: int, s: S, v: int)
    requires
        0 <= at <= list.len(),
    ensures
        held(list.insert(at, s), v) <==> held(list, v) || holds(s, v),
{
    let full = list.insert(at, s);
    if held(list, v) {
        let i = choose|i: int| 0 <= i < list.len() && holds(#[trigger] list[i], v);
        assert(full[if i < at {
            i
        } else {
            i + 1
        }] == list[i]);
        assert(holds(full[if i < at {
            i
        } else {
            i + 1
        }], v));
    }
    if holds(s, v) {
        assert(holds(full[at], v));
    }
    if held(full, v) {
        let i = choose|i: int| 0 <= i < full.len() && holds(#[trigger] full[i], v);
        if i < at {
            assert(holds(list[i], v));
        } else if i > at {
            assert(holds(list[i - 1], v));
        }
    }
}

proof fn lemma_held_remove<S: Segment>(list: Seq<S>, at: int, v: int)
    requires
        0 <= at < list.len(),
    ensures
        held(list, v) <==> held(list.remove(at), v) || holds(list[at], v),
{
    let rest = list.remove(at);
    lemma_held_insert(rest, at, list[at], v);
    assert(rest.insert(at, list[at]) =~= list);
}

/// Two lists of the same updates are the same.
pub proof fn lemma_spans_unique<S: Segment>(x: Seq<S>, y: Seq<S>, edges: Map<int, S>)
    requires
        edges_sound(edges),
        spans(x, edges),
        spans(y, edges),
    ensures
        x == y,
{
    lemma_spans_same(x, y, edges, x.len() as int);
    lemma_spans_same(y, x, edges, y.len() as int);
    assert(x.len() == y.len());
    assert(x =~= y);
}

/// The first `n` runs of one list are those of the other.
proof fn lemma_spans_same<S: Segment>(x: Seq<S>, y: Seq<S>, edges: Map<int, S>, n: int)
    requires
        edges_sound(edges),
        spans(x, edges),
        spans(y, edges),
        0 <= n <= x.len(),
    ensures
        n <= y.len(),
        forall|i: int| 0 <= i < n ==> x[i] == y[i],
    decreases n,
{
    if n > 0 {
        lemma_spans_same(x, y, edges, n - 1);
        let s = x[n - 1];
        let a = s.from_version();
        s.lemma_sound();
        assert(holds(x[n - 1], a));
        assert(edges.contains_key(a));
        assert(held(y, a));
        let j = choose|j: int| 0 <= j < y.len() && holds(#[trigger] y[j], a);
        if j < n - 1 {
            assert(x[j] == y[j]);
            assert(x[j].to_version() < x[n - 1].from_version());
            assert(false);
        }
        lemma_same_start(x, y, edges, n - 1);
        lemma_same_end(x, y, edges, n - 1);
    }
}

proof fn lemma_same_start<S: Segment>(x: Seq<S>, y: Seq<S>, edges: Map<int, S>, n: int)
    requires
        edges_sound(edges),
        spans(x, edges),
        spans(y, edges),
        0 <= n < x.len(),
        n < y.len(),
        forall|i: int| 0 <= i < n ==> x[i] == y[i],
    ensures
        x[n].from_version() == y[n].from_version(),
{
    lemma_start_not_after(x, y, edges, n);
    lemma_start_not_after(y, x, edges, n);
}

proof fn lemma_start_not_after<S: Segment>(x: Seq<S>, y: Seq<S>, edges: Map<int, S>, n: int)
    requires
        edges_sound(edges),
        spans(x, edges),
        spans(y, edges),
        0 <= n < x.len(),
        n < y.len(),
        forall|i: int| 0 <= i < n ==> x[i] == y[i],
    ensures
        y[n].from_version() <= x[n].from_version(),
{
    let a = x[n].from_version();
    x[n].lemma_sound();
    assert(holds(x[n], a));
    assert(edges.contains_key(a));
    let j = choose|j: int| 0 <= j < y.len() && holds(#[trigger] y[j], a);
    if j < n {
        assert(x[j] == y[j]);
        assert(x[j].to_version() < x[n].from_version());
    } else if j > n {
        y[n].lemma_sound();
        assert(y[n].to_version() < y[j].from_version());
    }
}

proof fn lemma_same_end<S: Segment>(x: Seq<S>, y: Seq<S>, edges: Map<int, S>, n: int)
    requires
        edges_sound(edges),
        spans(x, edges),
        spans(y, edges),
        0 <= n < x.len(),
        n < y.len(),
        x[n].from_version() == y[n].from_version(),
    ensures
        x[n] == y[n],
{
    lemma_end_not_after(x, y, edges, n);
    lemma_end_not_after(y, x, edges, n);
}

proof fn lemma_end_not_after<S: Segment>(x: Seq<S>, y: Seq<S>, edges: Map<int, S>, n: int)
    requires
        edges_sound(edges),
        spans(x, edges),
        spans(y, edges),
        0 <= n < x.len(),
        n < y.len(),
        x[n].from_version() == y[n].from_version(),
    ensures
        x[n].to_version() <= y[n].to_version(),
{
    let b = y[n].to_version();
    y[n].lemma_sound();
    x[n].lemma_sound();
    if x[n].to_version() > b {
        assert(holds(x[n], b));
        assert(edges.contains_key(b));
        let j = choose|j: int| 0 <= j < y.len() && holds(#[trigger] y[j], b);
        if j < n {
            assert(y[j].to_version() < y[n].from_version());
        } else if j > n {
            assert(y[n].to_version() < y[j].from_version());
        }
    }
}

/// A list with gaps to which a run is added between its neighbours.
proof fn lemma_spans_with<S: Segment>(
    rest: Seq<S>,
    at: int,
    s: S,
    before: Map<int, S>,
    after: Map<int, S>,
)
    requires
        edges_sound(after),
        0 <= at <= rest.len(),
        gapped(rest.insert(at, s)),
        run(after, s.from_version(), s.to_version()) == Some(s),
        forall|i: int|
            0 <= i < rest.len() ==> run(
                before,
                (#[trigger] rest[i]).from_version(),
                rest[i].to_version(),
            ) == Some(rest[i]),
        forall|v: int| #[trigger]
            before.contains_key(v) ==> after.contains_key(v) && after[v] == before[v],
        forall|v: int| #[trigger] after.contains_key(v) <==> held(rest, v) || holds(s, v),
    ensures
        spans(rest.insert(at, s), after),
{
    let full = rest.insert(at, s);
    assert forall|i: int| 0 <= i < full.len() implies run(
        after,
        (#[trigger] full[i]).from_version(),
        full[i].to_version(),
    ) == Some(full[i]) by {
        if i != at {
            let k = if i < at {
                i
            } else {
                i - 1
            };
            assert(full[i] == rest[k]);
            lemma_run_agrees(before, after, rest[k].from_version(), rest[k].to_version());
        }
    }
    assert forall|v: int| #[trigger] after.contains_key(v) <==> held(full, v) by {
        lemma_held_insert(rest, at, s, v);
    }
}

/// A run goes in between its neighbours and may join the one that follows.
proof fn lemma_placed_spans<S: Segment>(
    rest: Seq<S>,
    s: S,
    at: int,
    before: Map<int, S>,
    after: Map<int, S>,
)
    requires
        edges_sound(after),
        gapped(rest),
        s.sound(),
        0 <= at <= rest.len(),
        run(after, s.from_version(), s.to_version()) == Some(s),
        forall|i: int|
            0 <= i < rest.len() ==> run(
                before,
                (#[trigger] rest[i]).from_version(),
                rest[i].to_version(),
            ) == Some(rest[i]),
        forall|v: int| #[trigger]
            before.contains_key(v) ==> after.contains_key(v) && after[v] == before[v],
        forall|v: int| #[trigger] after.contains_key(v) <==> held(rest, v) || holds(s, v),
        forall|i: int| 0 <= i < at ==> (#[trigger] rest[i]).to_version() < s.from_version(),
        forall|i: int| at <= i < rest.len() ==> (#[trigger] rest[i]).from_version() >= s.to_version(),
    ensures
        placed_at(rest, s, at).fault is None ==> spans(placed_at(rest, s, at).pending, after),
        consistent_edges(after) ==> placed_at(rest, s, at).fault is None,
{
    if at >= rest.len() {
        lemma_inserted(rest, at, s);
        assert(rest.insert(at, s) =~= rest.push(s));
        lemma_spans_with(rest, at, s, before, after);
    } else {
        let next = rest[at];
        assert(next.sound());
        next.lemma_sound();
        s.lemma_sound();
        let a = s.from_version();
        let m = s.to_version();
        let b = next.to_version();
        if next.from_version() == m {
            let fewer = rest.remove(at);
            lemma_removed(rest, at);
            lemma_run_agrees(before, after, m, b);
            lemma_run_join(after, a, m, b);
            if consistent_edges(after) {
                lemma_run_sound(after, a, m);
                lemma_run_sound(after, m, b);
                assert forall|v: int| a <= v < b implies after.contains_key(v) by {}
                assert(run(after, a, b) is Some);
            }
            if let Ok(joined) = s.composed(&next) {
                s.lemma_composed(&next);
                assert forall|i: int| 0 <= i < at implies (#[trigger] fewer[i]).to_version()
                    < joined.from_version() by {
                    assert(fewer[i] == rest[i]);
                }
                assert forall|i: int| at <= i < fewer.len() implies joined.to_version() < (
                #[trigger] fewer[i]).from_version() by {
                    assert(fewer[i] == rest[i + 1]);
                    assert(rest[at].to_version() < rest[i + 1].from_version());
                }
                lemma_inserted(fewer, at, joined);
                assert forall|i: int| 0 <= i < fewer.len() implies run(
                    before,
                    (#[trigger] fewer[i]).from_version(),
                    fewer[i].to_version(),
                ) == Some(fewer[i]) by {
                    assert(fewer[i] == rest[if i < at {
                        i
                    } else {
                        i + 1
                    }]);
                }
                assert forall|v: int| #[trigger] after.contains_key(v) <==> held(fewer, v) || holds(
                    joined,
                    v,
                ) by {
                    lemma_held_remove(rest, at, v);
                }
                lemma_spans_with(fewer, at, joined, before, after);
            }
        } else {
            assert forall|i: int| at <= i < rest.len() implies s.to_version() < (
            #[trigger] rest[i]).from_version() by {
                if i > at {
                    assert(rest[at].to_version() < rest[i].from_version());
                }
            }
            lemma_inserted(rest, at, s);
            lemma_spans_with(rest, at, s, before, after);
        }
    }
}

/// The first `n` runs end at or before `v`, the others start after it.
spec fn splits_at<S: Segment>(list: Seq<S>, v: int, n: int) -> bool {
    &&& 0 <= n <= list.len()
    &&& forall|i: int| 0 <= i < n ==> (#[trigger] list[i]).to_version() <= v
    &&& forall|i: int| n <= i < list.len() ==> (#[trigger] list[i]).from_version() > v
}

/// A new update joins the run before it.
proof fn lemma_pended_joined<S: Segment>(list: Seq<S>, edges: Map<int, S>, e: S, n: int)
    requires
        edges_sound(edges),
        spans(list, edges),
        e.sound(),
        e.to_version() == e.from_version() + 1,
        !edges.contains_key(e.from_version()),
        splits_at(list, e.from_version(), n),
        n > 0,
        list[n - 1].to_version() == e.from_version(),
    ensures
        ({
            let after = edges.insert(e.from_version(), e);
            let rest = list.remove(n - 1);
            match list[n - 1].composed(&e) {
                Ok(joined) => {
                    let next = placed_at(rest, joined, n - 1);
                    &&& next.fault is None ==> spans(next.pending, after)
                    &&& consistent_edges(after) ==> next.fault is None
                },
                Err(_) => !consistent_edges(after),
            }
        }),
{
    let v = e.from_version();
    let after = edges.insert(v, e);
    assert(edges_sound(after));
    lemma_run_unit(after, v);
    let previous = list[n - 1];
    assert(previous.sound());
    let a = previous.from_version();
    let rest = list.remove(n - 1);
    lemma_removed(list, n - 1);
    lemma_run_agrees(edges, after, a, v);
    previous.lemma_sound();
    lemma_run_join(after, a, v, v + 1);
    if consistent_edges(after) {
        lemma_run_sound(after, a, v);
        assert forall|u: int| a <= u < v + 1 implies after.contains_key(u) by {}
        assert(run(after, a, v + 1) is Some);
    }
    if let Ok(joined) = previous.composed(&e) {
        previous.lemma_composed(&e);
        assert forall|i: int| 0 <= i < n - 1 implies (#[trigger] rest[i]).to_version()
            < joined.from_version() by {
            assert(rest[i] == list[i]);
            assert(list[i].to_version() < list[n - 1].from_version());
        }
        assert forall|i: int| n - 1 <= i < rest.len() implies (#[trigger] rest[i]).from_version()
            >= joined.to_version() by {
            assert(rest[i] == list[i + 1]);
        }
        assert forall|i: int| 0 <= i < rest.len() implies run(
            edges,
            (#[trigger] rest[i]).from_version(),
            rest[i].to_version(),
        ) == Some(rest[i]) by {
            assert(rest[i] == list[if i < n - 1 {
                i
            } else {
                i + 1
            }]);
        }
        assert forall|u: int| #[trigger] after.contains_key(u) <==> held(rest, u) || holds(
            joined,
            u,
        ) by {
            lemma_held_remove(list, n - 1, u);
            assert(edges.contains_key(u) <==> held(list, u));
        }
        lemma_placed_spans(rest, joined, n - 1, edges, after);
    }
}

/// A new update does not touch the run before it.
proof fn lemma_pended_apart<S: Segment>(list: Seq<S>, edges: Map<int, S>, e: S, n: int)
    requires
        edges_sound(edges),
        spans(list, edges),
        e.sound(),
        e.to_version() == e.from_version() + 1,
        !edges.contains_key(e.from_version()),
        splits_at(list, e.from_version(), n),
        n > 0 ==> list[n - 1].to_version() < e.from_version(),
    ensures
        ({
            let after = edges.insert(e.from_version(), e);
            let next = placed_at(list, e, n);
            &&& next.fault is None ==> spans(next.pending, after)
            &&& consistent_edges(after) ==> next.fault is None
        }),
{
    let v = e.from_version();
    let after = edges.insert(v, e);
    assert(edges_sound(after));
    lemma_run_unit(after, v);
    assert forall|i: int| 0 <= i < n implies (#[trigger] list[i]).to_version() < v by {
        if i < n - 1 {
            list[n - 1].lemma_sound();
            assert(list[i].to_version() < list[n - 1].from_version());
        }
    }
    assert forall|u: int| #[trigger] after.contains_key(u) <==> held(list, u) || holds(e, u) by {
        assert(edges.contains_key(u) <==> held(list, u));
    }
    lemma_placed_spans(list, e, n, edges, after);
}

/// An update that is accepted is new, and the list then holds it too.  An
/// update that is new and joins its neighbours is accepted.
pub proof fn lemma_pended_spans<S: Segment>(list: Seq<S>, edges: Map<int, S>, e: S)
    requires
        edges_sound(edges),
        spans(list, edges),
        e.sound(),
        e.to_version() == e.from_version() + 1,
    ensures
        pended(list, e).fault is None ==> !edges.contains_key(e.from_version()) && spans(
            pended(list, e).pending,
            edges.insert(e.from_version(), e),
        ),
        !edges.contains_key(e.from_version()) && consistent_edges(
            edges.insert(e.from_version(), e),
        ) ==> pended(list, e).fault is None,
{
    let v = e.from_version();
    lemma_starts_within(list, v);
    let n = starts_within(list, v);
    if edges.contains_key(v) {
        let i = choose|i: int| 0 <= i < list.len() && holds(#[trigger] list[i], v);
        assert(i < n);
        if i < n - 1 {
            assert(list[i].to_version() < list[n - 1].from_version());
        }
    } else {
        assert forall|i: int| 0 <= i < n implies (#[trigger] list[i]).to_version() <= v by {
            assert(!holds(list[i], v));
        }
        assert(splits_at(list, v, n));
        if n > 0 && list[n - 1].to_version() == v {
            lemma_pended_joined(list, edges, e, n);
        } else {
            lemma_pended_apart(list, edges, e, n);
        }
    }
}

proof fn lemma_run_unit<S: Segment>(edges: Map<int, S>, v: int)
    requires
        edges.contains_key(v),
    ensures
        run(edges, v, v + 1) == Some(edges[v]),
{
}

/// A list with one more run in front.
pub open spec fn behind<S>(front: S, list: Seq<S>) -> Seq<S> {
    seq![front] + list
}

proof fn lemma_starts_behind<S: Segment>(front: S, list: Seq<S>, version: int)
    requires
        front.from_version() <= version,
    ensures
        starts_within(behind(front, list), version) == starts_within(list, version) + 1,
    decreases list.len(),
{
    let full = behind(front, list);
    if list.len() == 0 {
        assert(full.last() == front);
    } else {
        assert(full.last() == list.last());
        if list.last().from_version() > version {
            assert(full.drop_last() =~= behind(front, list.drop_last()));
            lemma_starts_behind(front, list.drop_last(), version);
        }
    }
}

proof fn lemma_placed_behind<S: Segment>(front: S, list: Seq<S>, s: S, at: int)
    requires
        0 <= at <= list.len(),
    ensures
        placed_at(behind(front, list), s, at + 1).fault == placed_at(list, s, at).fault,
        placed_at(behind(front, list), s, at + 1).pending == behind(
            front,
            placed_at(list, s, at).pending,
        ),
{
    let full = behind(front, list);
    assert(full.push(s) =~= behind(front, list.push(s)));
    assert(full.insert(at + 1, s) =~= behind(front, list.insert(at, s)));
    if at < list.len() {
        assert(full[at + 1] == list[at]);
        let rest = list.remove(at);
        assert(full.remove(at + 1) =~= behind(front, rest));
        if let Ok(joined) = s.composed(&list[at]) {
            assert(behind(front, rest).insert(at + 1, joined) =~= behind(
                front,
                rest.insert(at, joined),
            ));
        }
    }
}

/// What comes in well after the first run passes it by.
pub proof fn lemma_pended_behind<S: Segment>(front: S, list: Seq<S>, s: S)
    requires
        gapped(behind(front, list)),
        s.sound(),
        front.to_version() < s.from_version(),
    ensures
        pended(behind(front, list), s).fault == pended(list, s).fault,
        pended(behind(front, list), s).pending == behind(front, pended(list, s).pending),
{
    let full = behind(front, list);
    assert(full[0] == front);
    assert(full[0].sound());
    front.lemma_sound();
    assert forall|i: int| 0 <= i < list.len() implies (#[trigger] list[i]).sound() by {
        assert(full[i + 1].sound());
    }
    assert forall|i: int, j: int| 0 <= i < j < list.len() implies (
    #[trigger] list[i]).to_version() < (#[trigger] list[j]).from_version() by {
        assert(full[i + 1].to_version() < full[j + 1].from_version());
    }
    lemma_starts_within(list, s.from_version());
    lemma_starts_behind(front, list, s.from_version());
    let n = starts_within(list, s.from_version());
    if n == 0 {
        lemma_placed_behind(front, list, s, 0);
    } else {
        assert(full[n] == list[n - 1]);
        let rest = list.remove(n - 1);
        assert(full.remove(n) =~= behind(front, rest));
        if list[n - 1].to_version() == s.from_version() {
            if let Ok(joined) = list[n - 1].composed(&s) {
                lemma_placed_behind(front, rest, joined, n - 1);
            }
        } else {
            lemma_placed_behind(front, list, s, n);
        }
    }
}

/// The first `n` updates by the version before them.
pub open spec fn edge_map<S: Segment>(edges: Seq<S>, n: int) -> Map<int, S>
    decreases n,
{
    if n <= 0 {
        Map::empty()
    } else {
        edge_map(edges, n - 1).insert(edges[n - 1].from_version(), edges[n - 1])
    }
}

/// Single sound updates.
pub open spec fn all_units<S: Segment>(edges: Seq<S>) -> bool {
    forall|i: int|
        0 <= i < edges.len() ==> (#[trigger] edges[i]).sound() && edges[i].to_version()
            == edges[i].from_version() + 1
}

/// No two updates follow the same version.
pub open spec fn starts_distinct<S: Segment>(edges: Seq<S>, n: int) -> bool {
    forall|i: int, j: int|
        0 <= i < j < n ==> (#[trigger] edges[i]).from_version() != (
        #[trigger] edges[j]).from_version()
}

pub proof fn lemma_edge_map<S: Segment>(edges: Seq<S>, n: int)
    requires
        all_units(edges),
        0 <= n <= edges.len(),
    ensures
        edges_sound(edge_map(edges, n)),
        forall|v: int| #[trigger]
            edge_map(edges, n).contains_key(v) ==> exists|i: int|
                0 <= i < n && #[trigger] edges[i] == edge_map(edges, n)[v],
        forall|i: int|
            0 <= i < n ==> edge_map(edges, n).contains_key((#[trigger] edges[i]).from_version()),
        starts_distinct(edges, n) ==> forall|i: int|
            0 <= i < n ==> edge_map(edges, n)[(#[trigger] edges[i]).from_version()] == edges[i],
    decreases n,
{
    if n > 0 {
        lemma_edge_map(edges, n - 1);
        assert(edges[n - 1].sound());
        let before = edge_map(edges, n - 1);
        let after = edge_map(edges, n);
        assert forall|v: int| #[trigger] after.contains_key(v) implies exists|i: int|
            0 <= i < n && #[trigger] edges[i] == after[v] by {
            if v == edges[n - 1].from_version() {
                assert(edges[n - 1] == after[v]);
            } else {
                assert(before.contains_key(v));
                let i = choose|i: int| 0 <= i < n - 1 && #[trigger] edges[i] == before[v];
                assert(edges[i] == after[v]);
            }
        }
    }
}

/// Rearranged updates are the same updates.
pub proof fn lemma_rearranged<S: Segment>(a: Seq<S>, b: Seq<S>)
    requires
        all_units(a),
        a.to_multiset() == b.to_multiset(),
        starts_distinct(a, a.len() as int),
    ensures
        all_units(b),
        a.len() == b.len(),
        starts_distinct(b, b.len() as int),
        edge_map(a, a.len() as int) == edge_map(b, b.len() as int),
{
    a.to_multiset_ensures();
    b.to_multiset_ensures();
    assert forall|x: S| a.contains(x) <==> b.contains(x) by {
        assert(a.contains(x) <==> a.to_multiset().count(x) > 0);
        assert(b.contains(x) <==> b.to_multiset().count(x) > 0);
    }
    assert forall|i: int| 0 <= i < b.len() implies (#[trigger] b[i]).sound() && b[i].to_version()
        == b[i].from_version() + 1 by {
        assert(b.contains(b[i]));
        let k = choose|k: int| 0 <= k < a.len() && a[k] == b[i];
        assert(a[k].sound());
    }
    assert(a.no_duplicates()) by {
        assert forall|i: int, j: int| 0 <= i < a.len() && 0 <= j < a.len() && i != j implies a[i]
            != a[j] by {
            if i < j {
                assert(a[i].from_version() != a[j].from_version());
            } else {
                assert(a[j].from_version() != a[i].from_version());
            }
        }
    }
    a.lemma_multiset_has_no_duplicates();
    b.lemma_multiset_has_no_duplicates_conv();
    assert forall|i: int, j: int| 0 <= i < j < b.len() implies (#[trigger] b[i]).from_version()
        != (#[trigger] b[j]).from_version() by {
        assert(b.contains(b[i]));
        assert(b.contains(b[j]));
        let k = choose|k: int| 0 <= k < a.len() && a[k] == b[i];
        let m = choose|m: int| 0 <= m < a.len() && a[m] == b[j];
        assert(k != m);
        if k < m {
            assert(a[k].from_version() != a[m].from_version());
        } else {
            assert(a[m].from_version() != a[k].from_version());
        }
    }
    lemma_edge_map(a, a.len() as int);
    lemma_edge_map(b, b.len() as int);
    let x = edge_map(a, a.len() as int);
    let y = edge_map(b, b.len() as int);
    assert forall|v: int| #[trigger] x.contains_key(v) implies y.contains_key(v) && y[v] == x[v] by {
        let i = choose|i: int| 0 <= i < a.len() && #[trigger] a[i] == x[v];
        assert(a.contains(a[i]));
        let k = choose|k: int| 0 <= k < b.len() && b[k] == a[i];
        assert(b[k].from_version() == v);
    }
    assert forall|v: int| #[trigger] y.contains_key(v) implies x.contains_key(v) && y[v] == x[v] by {
        let i = choose|i: int| 0 <= i < b.len() && #[trigger] b[i] == y[v];
        assert(b.contains(b[i]));
        let k = choose|k: int| 0 <= k < a.len() && a[k] == b[i];
        assert(a[k].from_version() == v);
    }
    assert(x =~= y);
}

/// A list without its first run.
pub proof fn lemma_behind_tail<S: Segment>(front: S, list: Seq<S>)
    requires
        gapped(behind(front, list)),
    ensures
        gapped(list),
        front.sound(),
        forall|i: int|
            0 <= i < list.len() ==> (#[trigger] list[i]).from_version() > front.to_version(),
{
    let full = behind(front, list);
    assert(full[0].sound());
    assert forall|i: int| 0 <= i < list.len() implies (#[trigger] list[i]).sound() by {
        assert(full[i + 1].sound());
    }
    assert forall|i: int, j: int| 0 <= i < j < list.len() implies (
    #[trigger] list[i]).to_version() < (#[trigger] list[j]).from_version() by {
        assert(full[i + 1].to_version() < full[j + 1].from_version());
    }
    assert forall|i: int| 0 <= i < list.len() implies (#[trigger] list[i]).from_version()
        > front.to_version() by {
        assert(full[0].to_version() < full[i + 1].from_version());
    }
}

/// What a list holds joins wherever it meets.
pub proof fn lemma_spanned_is_consistent<S: Segment>(list: Seq<S>, edges: Map<int, S>)
    requires
        edges_sound(edges),
        spans(list, edges),
    ensures
        consistent_edges(edges),
{
    assert forall|a: int, b: int|
        a < b && (forall|v: int| a <= v < b ==> edges.contains_key(v)) implies (#[trigger] run(
        edges,
        a,
        b,
    )) is Some by {
        assert(edges.contains_key(a));
        let i = choose|i: int| 0 <= i < list.len() && holds(#[trigger] list[i], a);
        list[i].lemma_sound();
        if list[i].to_version() < b {
            let end = list[i].to_version();
            assert(edges.contains_key(end));
            let j = choose|j: int| 0 <= j < list.len() && holds(#[trigger] list[j], end);
            if j < i {
                assert(list[j].to_version() < list[i].from_version());
            } else if j > i {
                assert(list[i].to_version() < list[j].from_version());
            }
            assert(false);
        }
        lemma_run_part(edges, list[i].from_version(), list[i].to_version(), a, b);
    }
}

/// Fewer updates join wherever they meet, too.
pub proof fn lemma_fewer_are_consistent<S: Segment>(fewer: Map<int, S>, edges: Map<int, S>)
    requires
        consistent_edges(edges),
        forall|v: int| #[trigger]
            fewer.contains_key(v) ==> edges.contains_key(v) && edges[v] == fewer[v],
    ensures
        consistent_edges(fewer),
{
    assert forall|a: int, b: int|
        a < b && (forall|v: int| a <= v < b ==> fewer.contains_key(v)) implies (#[trigger] run(
        fewer,
        a,
        b,
    )) is Some by {
        assert forall|v: int| a <= v < b implies edges.contains_key(v) by {
            assert(fewer.contains_key(v));
        }
        assert(run(edges, a, b) is Some);
        lemma_run_agrees_within(edges, fewer, a, b);
    }
}

proof fn lemma_run_agrees_within<S: Segment>(x: Map<int, S>, y: Map<int, S>, a: int, b: int)
    requires
        forall|v: int| a <= v < b ==> y.contains_key(v),
        forall|v: int| #[trigger] y.contains_key(v) ==> x.contains_key(v) && x[v] == y[v],
        run(x, a, b) is Some,
    ensures
        run(y, a, b) == run(x, a, b),
{
    assert forall|v: int| a <= v < b && #[trigger] x.contains_key(v) implies y.contains_key(v)
        && x[v] == y[v] by {
        assert(y.contains_key(v));
    }
    lemma_run_agrees(x, y, a, b);
}

/// The first `k` of some updates are among all of them.
pub proof fn lemma_prefix_of_edges<S: Segment>(edges: Seq<S>, k: int)
    requires
        all_units(edges),
        0 <= k <= edges.len(),
        starts_distinct(edges, edges.len() as int),
    ensures
        forall|v: int| #[trigger]
            edge_map(edges, k).contains_key(v) ==> edge_map(
                edges,
                edges.len() as int,
            ).contains_key(v) && edge_map(edges, edges.len() as int)[v] == edge_map(edges, k)[v],
{
    lemma_edge_map(edges, k);
    lemma_edge_map(edges, edges.len() as int);
    assert forall|v: int| #[trigger] edge_map(edges, k).contains_key(v) implies edge_map(
        edges,
        edges.len() as int,
    ).contains_key(v) && edge_map(edges, edges.len() as int)[v] == edge_map(edges, k)[v] by {
        let i = choose|i: int| 0 <= i < k && #[trigger] edges[i] == edge_map(edges, k)[v];
        assert(edges[i].from_version() == v);
    }
}

/// Updates that follow the versions from `a` to `b`, each once, are `b - a`.
pub proof fn lemma_edges_counted<S: Segment>(edges: Seq<S>, a: int, b: int)
    requires
        all_units(edges),
        starts_distinct(edges, edges.len() as int),
        a <= b,
        forall|v: int| #[trigger]
            edge_map(edges, edges.len() as int).contains_key(v) <==> a <= v < b,
    ensures
        edges.len() == b - a,
{
    let n = edges.len() as int;
    lemma_edge_map_len(edges, n);
    lemma_int_range(a, b);
    assert(edge_map(edges, n).dom() =~= set_int_range(a, b));
}

proof fn lemma_edge_map_len<S: Segment>(edges: Seq<S>, n: int)
    requires
        all_units(edges),
        0 <= n <= edges.len(),
        starts_distinct(edges, n),
    ensures
        edge_map(edges, n).dom().finite(),
        edge_map(edges, n).dom().len() == n,
    decreases n,
{
    if n > 0 {
        lemma_edge_map_len(edges, n - 1);
        lemma_edge_map(edges, n - 1);
        let v = edges[n - 1].from_version();
        let before = edge_map(edges, n - 1);
        if before.contains_key(v) {
            let i = choose|i: int| 0 <= i < n - 1 && #[trigger] edges[i] == before[v];
            assert(edges[i].from_version() == v);
            assert(edges[i].from_version() != edges[n - 1].from_version());
        }
        assert(edge_map(edges, n).dom() =~= before.dom().insert(v));
    }
}

} // verus!
