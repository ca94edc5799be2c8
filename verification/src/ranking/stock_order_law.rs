//! A stock chain does not depend on the order of its updates.
use vstd::prelude::*;

use crate::ranking::evidence_collector::stock_seal_fault;
use crate::ranking::interval_pending::{
    Segment, gapped, lemma_pended, lemma_pended_after, lemma_starts_within, pended, placed_at,
    starts_within,
};
use crate::ranking::interval_runs::{
    all_units, behind, consistent_edges, edge_map, held, holds, lemma_behind_tail, lemma_edge_map,
    lemma_edges_counted, lemma_fewer_are_consistent, lemma_pended_behind, lemma_pended_spans,
    lemma_prefix_of_edges, lemma_rearranged, lemma_spanned_is_consistent, lemma_spans_unique, run,
    spans, starts_distinct,
};
use crate::ranking::stock_chain::{
    StockChainModel, StockChained, StockKey, StockSegment, law_stock_chain_stays_sound,
    stock_absorbed, stock_chain_sound, stock_drained, stock_inserted, stock_root, unknown_stock,
};

verus! {

/// Whether a chain holds the runs of a list: the run from the load on in the
/// prefix, the others waiting.
pub open spec fn stock_lists(chain: StockChainModel, list: Seq<StockSegment>) -> bool {
    &&& gapped(list)
    &&& match chain.prefix {
        None => chain.pending == list && forall|i: int|
            0 <= i < list.len() ==> (#[trigger] list[i]).from_version() > 0,
        Some(prefix) => list.len() > 0 && list[0].from_version() == 0 && prefix == stock_root(
            list[0],
        ) && list == behind(list[0], chain.pending),
    }
}

/// The chain after the first `n` updates, up to the first that is refused.
pub open spec fn stock_fed(chain: StockChainModel, edges: Seq<StockSegment>, n: int) -> StockChained
    decreases n,
{
    if n <= 0 {
        StockChained { chain, fault: None }
    } else {
        let before = stock_fed(chain, edges, n - 1);
        if before.fault is Some {
            before
        } else {
            stock_inserted(before.chain, edges[n - 1])
        }
    }
}

/// Draining behind a grown prefix is placing the grown run in the list.
proof fn lemma_stock_drain_lists(
    key: StockKey,
    root: StockSegment,
    rest: Seq<StockSegment>,
)
    requires
        root.sound(),
        root.from_version() == 0,
        gapped(rest),
        forall|i: int|
            0 <= i < rest.len() ==> (#[trigger] rest[i]).from_version() >= root.to_version(),
        gapped(placed_at(rest, root, 0).pending),
    ensures
        ({
            let chain = StockChainModel { key, prefix: Some(stock_root(root)), pending: rest };
            let placed = placed_at(rest, root, 0);
            &&& stock_drained(chain).fault is None <==> placed.fault is None
            &&& placed.fault is None ==> stock_lists(stock_drained(chain).chain, placed.pending)
        }),
{
    let chain = StockChainModel { key, prefix: Some(stock_root(root)), pending: rest };
    let placed = placed_at(rest, root, 0);
    if rest.len() == 0 {
        assert(rest.push(root) =~= behind(root, rest));
    } else {
        let next = rest[0];
        assert(next.sound());
        if next.from_version() == root.to_version() {
            let fewer = rest.remove(0);
            if let Ok(joined) = root.composed(&next) {
                root.lemma_composed(&next);
                assert(fewer.insert(0, joined) =~= behind(joined, fewer));
                lemma_behind_tail(joined, fewer);
                let grown = StockChainModel {
                    key,
                    prefix: Some(stock_root(joined)),
                    pending: fewer,
                };
                assert(stock_absorbed(stock_root(root), next) == stock_root(joined));
                if fewer.len() > 0 {
                    assert(fewer[0].from_version() > joined.to_version());
                }
                assert(stock_drained(grown) == (StockChained { chain: grown, fault: None }));
            }
        } else {
            assert(rest.insert(0, root) =~= behind(root, rest));
        }
    }
}

/// An update goes into the chain exactly where it goes into the list.
proof fn lemma_stock_inserted_lists(
    chain: StockChainModel,
    list: Seq<StockSegment>,
    e: StockSegment,
)
    requires
        stock_chain_sound(chain),
        stock_lists(chain, list),
        e.sound(),
        e.to_version() == e.from_version() + 1,
    ensures
        stock_inserted(chain, e).fault is None <==> pended(list, e).fault is None,
        pended(list, e).fault is None ==> stock_lists(
            stock_inserted(chain, e).chain,
            pended(list, e).pending,
        ),
{
    let v = e.from_version();
    lemma_pended(list, e);
    lemma_starts_within(list, v);
    let n = starts_within(list, v);
    match chain.prefix {
        None => {
            if v == 0 {
                assert(n == 0) by {
                    if n > 0 {
                        assert(list[0].from_version() <= v);
                    }
                }
                lemma_stock_drain_lists(chain.key, e, list);
            } else {
                lemma_pended_after(list, e, 0);
            }
        },
        Some(prefix) => {
            let root = list[0];
            lemma_behind_tail(root, chain.pending);
            assert(list[0].from_version() <= v) by {
                e.lemma_sound();
            }
            if v <= root.to_version() {
                assert(n == 1) by {
                    if n == 0 {
                        assert(list[0].from_version() > v);
                    } else if n > 1 {
                        assert(list[1].from_version() <= v);
                        assert(list[1] == chain.pending[0]);
                    }
                }
                if v == root.to_version() {
                    assert(list.remove(0) =~= chain.pending);
                    if let Ok(joined) = root.composed(&e) {
                        root.lemma_composed(&e);
                        assert(stock_absorbed(prefix, e) == stock_root(joined));
                        lemma_stock_drain_lists(chain.key, joined, chain.pending);
                    }
                }
            } else {
                lemma_pended_behind(root, chain.pending, e);
                let next = pended(chain.pending, e).pending;
                assert(behind(root, next)[0] == root);
            }
        },
    }
}

/// An accepted sequence of updates is what the chain holds.
pub proof fn lemma_stock_fed(key: StockKey, edges: Seq<StockSegment>, n: int) -> (list: Seq<
    StockSegment,
>)
    requires
        all_units(edges),
        0 <= n <= edges.len(),
        stock_fed(unknown_stock(key), edges, n).fault is None,
    ensures
        stock_chain_sound(stock_fed(unknown_stock(key), edges, n).chain),
        stock_fed(unknown_stock(key), edges, n).chain.key == key,
        stock_lists(stock_fed(unknown_stock(key), edges, n).chain, list),
        spans(list, edge_map(edges, n)),
        starts_distinct(edges, n),
    decreases n,
{
    if n == 0 {
        let list = Seq::<StockSegment>::empty();
        assert(spans(list, edge_map(edges, 0)));
        list
    } else {
        let before = lemma_stock_fed(key, edges, n - 1);
        let chain = stock_fed(unknown_stock(key), edges, n - 1).chain;
        let e = edges[n - 1];
        assert(e.sound());
        law_stock_chain_stays_sound(chain, e);
        lemma_stock_inserted_lists(chain, before, e);
        lemma_edge_map(edges, n - 1);
        lemma_pended_spans(before, edge_map(edges, n - 1), e);
        lemma_stock_key_kept(chain, e);
        assert forall|i: int, j: int| 0 <= i < j < n implies (#[trigger] edges[i]).from_version()
            != (#[trigger] edges[j]).from_version() by {
            if j == n - 1 {
                assert(edge_map(edges, n - 1).contains_key(edges[i].from_version()));
            }
        }
        pended(before, e).pending
    }
}

proof fn lemma_stock_key_kept(chain: StockChainModel, e: StockSegment)
    ensures
        stock_inserted(chain, e).chain.key == chain.key,
{
    match chain.prefix {
        Some(prefix) => {
            lemma_stock_drain_key(
                StockChainModel { prefix: Some(stock_absorbed(prefix, e)), ..chain },
            );
        },
        None => {
            lemma_stock_drain_key(StockChainModel { prefix: Some(stock_root(e)), ..chain });
        },
    }
}

proof fn lemma_stock_drain_key(chain: StockChainModel)
    ensures
        stock_drained(chain).chain.key == chain.key,
    decreases chain.pending.len(),
{
    if chain.prefix is Some && chain.pending.len() > 0 {
        lemma_stock_drain_key(
            StockChainModel {
                prefix: Some(stock_absorbed(chain.prefix->0, chain.pending[0])),
                pending: chain.pending.remove(0),
                ..chain
            },
        );
    }
}

/// Updates that join wherever they meet are accepted in their order.
proof fn lemma_stock_accepts(key: StockKey, edges: Seq<StockSegment>, n: int)
    requires
        all_units(edges),
        0 <= n <= edges.len(),
        starts_distinct(edges, edges.len() as int),
        consistent_edges(edge_map(edges, edges.len() as int)),
    ensures
        stock_fed(unknown_stock(key), edges, n).fault is None,
    decreases n,
{
    if n > 0 {
        lemma_stock_accepts(key, edges, n - 1);
        let list = lemma_stock_fed(key, edges, n - 1);
        let chain = stock_fed(unknown_stock(key), edges, n - 1).chain;
        let e = edges[n - 1];
        assert(e.sound());
        lemma_edge_map(edges, n - 1);
        lemma_prefix_of_edges(edges, n);
        lemma_fewer_are_consistent(edge_map(edges, n), edge_map(edges, edges.len() as int));
        assert(!edge_map(edges, n - 1).contains_key(e.from_version())) by {
            if edge_map(edges, n - 1).contains_key(e.from_version()) {
                let i = choose|i: int|
                    0 <= i < n - 1 && #[trigger] edges[i] == edge_map(
                        edges,
                        n - 1,
                    )[e.from_version()];
                assert(edges[i].from_version() != edges[n - 1].from_version());
            }
        }
        lemma_pended_spans(list, edge_map(edges, n - 1), e);
        lemma_stock_inserted_lists(chain, list, e);
    }
}

/// The same updates of a stock row, in any order, make the same chain; and if
/// one order is accepted, every order is.
pub proof fn law_stock_order_does_not_matter(
    key: StockKey,
    a: Seq<StockSegment>,
    b: Seq<StockSegment>,
)
    requires
        all_units(a),
        a.to_multiset() == b.to_multiset(),
        stock_fed(unknown_stock(key), a, a.len() as int).fault is None,
    ensures
        stock_fed(unknown_stock(key), b, b.len() as int).fault is None,
        stock_fed(unknown_stock(key), b, b.len() as int).chain == stock_fed(
            unknown_stock(key),
            a,
            a.len() as int,
        ).chain,
{
    let x = lemma_stock_fed(key, a, a.len() as int);
    lemma_rearranged(a, b);
    lemma_edge_map(a, a.len() as int);
    lemma_spanned_is_consistent(x, edge_map(a, a.len() as int));
    lemma_stock_accepts(key, b, b.len() as int);
    let y = lemma_stock_fed(key, b, b.len() as int);
    lemma_spans_unique(x, y, edge_map(a, a.len() as int));
    let p = stock_fed(unknown_stock(key), a, a.len() as int).chain;
    let q = stock_fed(unknown_stock(key), b, b.len() as int).chain;
    if p.prefix is Some {
        assert(q.prefix is Some) by {
            if q.prefix is None {
                assert(x[0].from_version() > 0);
            }
        }
        assert(p.pending =~= x.subrange(1, x.len() as int));
        assert(q.pending =~= x.subrange(1, x.len() as int));
    } else {
        assert(q.prefix is None) by {
            if q.prefix is Some {
                assert(y[0].from_version() == 0);
                assert(x[0].from_version() > 0);
            }
        }
    }
    assert(p == q);
}

/// Law: a stock row for which nothing waits is one unbroken chain. Its updates
/// follow the versions from the first on, each once; joined in that order they
/// make the prefix.
pub proof fn law_sealed_stock_row_is_one_chain(key: StockKey, edges: Seq<StockSegment>)
    requires
        all_units(edges),
        edges.len() > 0,
        stock_fed(unknown_stock(key), edges, edges.len() as int).fault is None,
        stock_seal_fault(stock_fed(unknown_stock(key), edges, edges.len() as int).chain) is None,
    ensures
        starts_distinct(edges, edges.len() as int),
        exists|end: int|
            #![trigger run(edge_map(edges, edges.len() as int), 0, end)]
            {
                let prefix = stock_fed(unknown_stock(key), edges, edges.len() as int).chain.prefix;
                let updates = edge_map(edges, edges.len() as int);
                let whole = run(updates, 0, end);
                &&& forall|v: int| #[trigger] updates.contains_key(v) <==> 0 <= v < end
                &&& whole is Some
                &&& prefix == Some(stock_root(whole->0))
                &&& edges.len() == end
                &&& edges.len() == (prefix->0).update_count
            },
{
    let n = edges.len() as int;
    let list = lemma_stock_fed(key, edges, n);
    let updates = edge_map(edges, n);
    assert(list.len() == 1);
    let end = list[0].to_version();
    assert(run(updates, 0, end) == Some(list[0]));
    assert forall|v: int| #[trigger] updates.contains_key(v) <==> 0 <= v < end by {
        assert(held(list, v) <==> holds(list[0], v));
    }
    lemma_edges_counted(edges, 0, end);
}

} // verus!
