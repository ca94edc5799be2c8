//! A customer chain does not depend on the order of its updates.
use vstd::prelude::*;

use crate::ranking::customer_chain::{
    CustomerChainModel, CustomerChained, CustomerKey, CustomerSegment, absorb_fault, absorbed,
    customer_chain_sound, customer_drained, customer_inserted, law_customer_chain_stays_sound,
    loaded_chain, loaded_prefix, prefix_end,
};
use crate::ranking::interval_pending::{
    Segment, gapped, lemma_pended, lemma_pended_after, lemma_starts_within, pended, placed_at,
    starts_within,
};
use crate::ranking::interval_runs::{
    all_units, behind, edge_map, edges_sound, held, holds, lemma_behind_tail, lemma_edge_map,
    lemma_edges_counted, lemma_fewer_are_consistent, lemma_pended_behind, lemma_pended_spans,
    lemma_prefix_of_edges, lemma_rearranged, lemma_run_agrees, lemma_run_join, lemma_run_part,
    lemma_run_sound, lemma_spanned_is_consistent, lemma_spans_unique, run, spans, starts_distinct,
};

verus! {

/// The version of a freshly loaded row.
pub open spec fn loaded_version() -> int {
    prefix_end(loaded_prefix())
}

/// Whether a chain holds the runs of a list: the run from the load on in the
/// prefix, the others waiting.
pub open spec fn customer_lists(chain: CustomerChainModel, list: Seq<CustomerSegment>) -> bool {
    &&& gapped(list)
    &&& if prefix_end(chain.prefix) == loaded_version() {
        &&& chain.prefix == loaded_prefix()
        &&& chain.pending == list
        &&& forall|i: int|
            0 <= i < list.len() ==> (#[trigger] list[i]).from_version() > loaded_version()
    } else {
        &&& list.len() > 0
        &&& list[0].from_version() == loaded_version()
        &&& absorb_fault(loaded_prefix(), list[0]) is None
        &&& chain.prefix == absorbed(loaded_prefix(), list[0])
        &&& list == behind(list[0], chain.pending)
    }
}

/// Whether the run from the load on follows the loaded row.
pub open spec fn roots_well(list: Seq<CustomerSegment>) -> bool {
    list.len() > 0 && list[0].from_version() == loaded_version() ==> absorb_fault(
        loaded_prefix(),
        list[0],
    ) is None
}

/// The chain after the first `n` updates, up to the first that is refused.
pub open spec fn customer_fed(
    chain: CustomerChainModel,
    edges: Seq<CustomerSegment>,
    n: int,
) -> CustomerChained
    decreases n,
{
    if n <= 0 {
        CustomerChained { chain, fault: None }
    } else {
        let before = customer_fed(chain, edges, n - 1);
        if before.fault is Some {
            before
        } else {
            customer_inserted(before.chain, edges[n - 1])
        }
    }
}

/// A run behind a rooted run is in the prefix exactly where the two join and
/// the whole follows the loaded row.
proof fn lemma_absorb_twice(root: CustomerSegment, next: CustomerSegment)
    requires
        root.sound(),
        next.sound(),
        root.from_version() == loaded_version(),
        root.to_version() == next.from_version(),
    ensures
        ({
            let whole = root.composed(&next);
            let grown = absorbed(loaded_prefix(), root);
            &&& whole is Ok && absorb_fault(loaded_prefix(), whole->Ok_0) is None ==> absorb_fault(
                loaded_prefix(),
                root,
            ) is None
            &&& absorb_fault(loaded_prefix(), root) is None ==> (absorb_fault(grown, next) is None
                <==> whole is Ok && absorb_fault(loaded_prefix(), whole->Ok_0) is None)
            &&& absorb_fault(loaded_prefix(), root) is None && whole is Ok ==> absorbed(grown, next)
                == absorbed(loaded_prefix(), whole->Ok_0)
        }),
{
}

/// Draining behind a grown prefix is placing the grown run in the list.
proof fn lemma_customer_drain_lists(
    key: CustomerKey,
    root: CustomerSegment,
    rest: Seq<CustomerSegment>,
)
    requires
        root.sound(),
        root.from_version() == loaded_version(),
        absorb_fault(loaded_prefix(), root) is None,
        gapped(rest),
        forall|i: int|
            0 <= i < rest.len() ==> (#[trigger] rest[i]).from_version() >= root.to_version(),
        gapped(placed_at(rest, root, 0).pending),
    ensures
        ({
            let chain = CustomerChainModel {
                key,
                prefix: absorbed(loaded_prefix(), root),
                pending: rest,
            };
            let placed = placed_at(rest, root, 0);
            &&& customer_drained(chain).fault is None <==> placed.fault is None && roots_well(
                placed.pending,
            )
            &&& customer_drained(chain).fault is None ==> customer_lists(
                customer_drained(chain).chain,
                placed.pending,
            )
        }),
{
    let chain = CustomerChainModel {
        key,
        prefix: absorbed(loaded_prefix(), root),
        pending: rest,
    };
    root.lemma_sound();
    assert(prefix_end(chain.prefix) == root.to_version());
    if rest.len() == 0 {
        assert(rest.push(root) =~= behind(root, rest));
        assert(behind(root, rest)[0] == root);
    } else {
        let next = rest[0];
        assert(next.sound());
        if next.from_version() == root.to_version() {
            let fewer = rest.remove(0);
            lemma_absorb_twice(root, next);
            if let Ok(joined) = root.composed(&next) {
                root.lemma_composed(&next);
                next.lemma_sound();
                assert(fewer.insert(0, joined) =~= behind(joined, fewer));
                assert(behind(joined, fewer)[0] == joined);
                lemma_behind_tail(joined, fewer);
                let grown = CustomerChainModel {
                    key,
                    prefix: absorbed(loaded_prefix(), joined),
                    pending: fewer,
                };
                if fewer.len() > 0 {
                    assert(fewer[0].from_version() > joined.to_version());
                }
                assert(prefix_end(grown.prefix) == joined.to_version());
                assert(customer_drained(grown) == (CustomerChained { chain: grown, fault: None }));
            }
        } else {
            assert(rest.insert(0, root) =~= behind(root, rest));
            assert(behind(root, rest)[0] == root);
        }
    }
}

/// The first run of a list before and after a run is placed in front of it.
proof fn lemma_placed_root(rest: Seq<CustomerSegment>, root: CustomerSegment)
    requires
        root.sound(),
        root.from_version() == loaded_version(),
        gapped(rest),
        forall|i: int|
            0 <= i < rest.len() ==> (#[trigger] rest[i]).from_version() >= root.to_version(),
        placed_at(rest, root, 0).fault is None,
        roots_well(placed_at(rest, root, 0).pending),
    ensures
        absorb_fault(loaded_prefix(), root) is None,
{
    if rest.len() > 0 && rest[0].from_version() == root.to_version() {
        let next = rest[0];
        assert(next.sound());
        lemma_absorb_twice(root, next);
        root.lemma_composed(&next);
        assert(placed_at(rest, root, 0).pending[0] == root.composed(&next)->Ok_0);
    } else {
        assert(placed_at(rest, root, 0).pending[0] == root);
    }
}

/// An update goes into the chain exactly where it goes into the list and the
/// list still follows the loaded row.
proof fn lemma_customer_inserted_lists(
    chain: CustomerChainModel,
    list: Seq<CustomerSegment>,
    e: CustomerSegment,
)
    requires
        customer_chain_sound(chain),
        customer_lists(chain, list),
        e.sound(),
        e.to_version() == e.from_version() + 1,
    ensures
        customer_inserted(chain, e).fault is None <==> e.from_version() >= loaded_version()
            && pended(list, e).fault is None && roots_well(pended(list, e).pending),
        customer_inserted(chain, e).fault is None ==> customer_lists(
            customer_inserted(chain, e).chain,
            pended(list, e).pending,
        ),
{
    let v = e.from_version();
    lemma_pended(list, e);
    lemma_starts_within(list, v);
    let n = starts_within(list, v);
    if prefix_end(chain.prefix) == loaded_version() {
        if v == loaded_version() {
            assert(n == 0) by {
                if n > 0 {
                    assert(list[0].from_version() <= v);
                }
            }
            if absorb_fault(loaded_prefix(), e) is None {
                lemma_customer_drain_lists(chain.key, e, list);
            } else if placed_at(list, e, 0).fault is None && roots_well(
                placed_at(list, e, 0).pending,
            ) {
                lemma_placed_root(list, e);
            }
        } else if v > loaded_version() {
            lemma_pended_after(list, e, loaded_version());
        }
    } else {
        let root = list[0];
        lemma_behind_tail(root, chain.pending);
        assert(prefix_end(chain.prefix) == root.to_version());
        if loaded_version() <= v <= root.to_version() {
            assert(n == 1) by {
                if n == 0 {
                    assert(list[0].from_version() > v);
                } else if n > 1 {
                    assert(list[1].from_version() <= v);
                    assert(list[1] == chain.pending[0]);
                }
            }
            if v == root.to_version() {
                assert(list.remove(0) =~= chain.pending);
                lemma_absorb_twice(root, e);
                if let Ok(joined) = root.composed(&e) {
                    root.lemma_composed(&e);
                    if absorb_fault(loaded_prefix(), joined) is None {
                        lemma_customer_drain_lists(chain.key, joined, chain.pending);
                    } else if placed_at(chain.pending, joined, 0).fault is None && roots_well(
                        placed_at(chain.pending, joined, 0).pending,
                    ) {
                        lemma_placed_root(chain.pending, joined);
                    }
                }
            }
        } else if v > root.to_version() {
            lemma_pended_behind(root, chain.pending, e);
            let next = pended(chain.pending, e).pending;
            assert(behind(root, next)[0] == root);
        }
    }
}

/// An accepted sequence of updates is what the chain holds.
pub proof fn lemma_customer_fed(key: CustomerKey, edges: Seq<CustomerSegment>, n: int) -> (list: Seq<
    CustomerSegment,
>)
    requires
        all_units(edges),
        0 <= n <= edges.len(),
        customer_fed(loaded_chain(key), edges, n).fault is None,
    ensures
        customer_chain_sound(customer_fed(loaded_chain(key), edges, n).chain),
        customer_fed(loaded_chain(key), edges, n).chain.key == key,
        customer_lists(customer_fed(loaded_chain(key), edges, n).chain, list),
        roots_well(list),
        spans(list, edge_map(edges, n)),
        starts_distinct(edges, n),
        forall|i: int| 0 <= i < n ==> (#[trigger] edges[i]).from_version() >= loaded_version(),
    decreases n,
{
    if n == 0 {
        let list = Seq::<CustomerSegment>::empty();
        assert(spans(list, edge_map(edges, 0)));
        list
    } else {
        let before = lemma_customer_fed(key, edges, n - 1);
        let chain = customer_fed(loaded_chain(key), edges, n - 1).chain;
        let e = edges[n - 1];
        assert(e.sound());
        law_customer_chain_stays_sound(chain, e);
        lemma_customer_inserted_lists(chain, before, e);
        lemma_edge_map(edges, n - 1);
        lemma_pended_spans(before, edge_map(edges, n - 1), e);
        lemma_customer_key_kept(chain, e);
        assert forall|i: int, j: int| 0 <= i < j < n implies (#[trigger] edges[i]).from_version()
            != (#[trigger] edges[j]).from_version() by {
            if j == n - 1 {
                assert(edge_map(edges, n - 1).contains_key(edges[i].from_version()));
            }
        }
        pended(before, e).pending
    }
}

proof fn lemma_customer_key_kept(chain: CustomerChainModel, e: CustomerSegment)
    ensures
        customer_inserted(chain, e).chain.key == chain.key,
{
    lemma_customer_drain_key(
        CustomerChainModel { prefix: absorbed(chain.prefix, e), ..chain },
    );
}

proof fn lemma_customer_drain_key(chain: CustomerChainModel)
    ensures
        customer_drained(chain).chain.key == chain.key,
    decreases chain.pending.len(),
{
    if chain.pending.len() > 0 {
        lemma_customer_drain_key(
            CustomerChainModel {
                prefix: absorbed(chain.prefix, chain.pending[0]),
                pending: chain.pending.remove(0),
                ..chain
            },
        );
    }
}

/// A shorter run from the load on follows the loaded row where a longer one
/// does.
proof fn lemma_root_shortens(
    edges: Map<int, CustomerSegment>,
    a: int,
    m: int,
    b: int,
)
    requires
        edges_sound(edges),
        a == loaded_version(),
        a < m <= b,
        run(edges, a, b) is Some,
        absorb_fault(loaded_prefix(), run(edges, a, b)->0) is None,
    ensures
        run(edges, a, m) is Some,
        absorb_fault(loaded_prefix(), run(edges, a, m)->0) is None,
    decreases b - m,
{
    if m < b {
        lemma_run_part(edges, a, b, a, m);
        lemma_run_part(edges, a, b, m, b);
        lemma_run_sound(edges, a, m);
        lemma_run_sound(edges, m, b);
        lemma_run_join(edges, a, m, b);
        lemma_absorb_twice(run(edges, a, m)->0, run(edges, m, b)->0);
    }
}

/// Updates that join wherever they meet and follow the loaded row are accepted
/// in their order.
proof fn lemma_customer_accepts(
    key: CustomerKey,
    edges: Seq<CustomerSegment>,
    all: Seq<CustomerSegment>,
    n: int,
)
    requires
        all_units(edges),
        0 <= n <= edges.len(),
        starts_distinct(edges, edges.len() as int),
        spans(all, edge_map(edges, edges.len() as int)),
        roots_well(all),
        forall|i: int|
            0 <= i < edges.len() ==> (#[trigger] edges[i]).from_version() >= loaded_version(),
    ensures
        customer_fed(loaded_chain(key), edges, n).fault is None,
    decreases n,
{
    if n > 0 {
        lemma_customer_accepts(key, edges, all, n - 1);
        let list = lemma_customer_fed(key, edges, n - 1);
        let chain = customer_fed(loaded_chain(key), edges, n - 1).chain;
        let e = edges[n - 1];
        let full = edge_map(edges, edges.len() as int);
        assert(e.sound());
        lemma_edge_map(edges, n - 1);
        lemma_edge_map(edges, n);
        lemma_edge_map(edges, edges.len() as int);
        lemma_prefix_of_edges(edges, n);
        lemma_spanned_is_consistent(all, full);
        lemma_fewer_are_consistent(edge_map(edges, n), full);
        assert(!edge_map(edges, n - 1).contains_key(e.from_version())) by {
            if edge_map(edges, n - 1).contains_key(e.from_version()) {
                let i = choose|i: int|
                    0 <= i < n - 1 && #[trigger] edges[i] == edge_map(
                        edges,
                        n - 1,
                    )[e.from_version()];
                assert(edges[i].from_version() != edges[n - 1].from_version());
            }
        }
        lemma_pended_spans(list, edge_map(edges, n - 1), e);
        let next = pended(list, e).pending;
        assert(roots_well(next)) by {
            if next.len() > 0 && next[0].from_version() == loaded_version() {
                lemma_roots_well(next, edge_map(edges, n), all, full);
            }
        }
        lemma_customer_inserted_lists(chain, list, e);
    }
}

/// The run from the load on of fewer updates follows the loaded row where that
/// of all updates does.
proof fn lemma_roots_well(
    next: Seq<CustomerSegment>,
    fewer: Map<int, CustomerSegment>,
    all: Seq<CustomerSegment>,
    full: Map<int, CustomerSegment>,
)
    requires
        edges_sound(full),
        spans(next, fewer),
        spans(all, full),
        roots_well(all),
        next.len() > 0,
        next[0].from_version() == loaded_version(),
        forall|v: int| #[trigger]
            fewer.contains_key(v) ==> full.contains_key(v) && full[v] == fewer[v],
        forall|v: int| #[trigger] full.contains_key(v) ==> v >= loaded_version(),
    ensures
        absorb_fault(loaded_prefix(), next[0]) is None,
{
    let a = loaded_version();
    let m = next[0].to_version();
    assert(next[0].sound());
    next[0].lemma_sound();
    lemma_run_agrees(fewer, full, a, m);
    lemma_run_sound(full, a, m);
    assert(full.contains_key(a));
    let i = choose|i: int| 0 <= i < all.len() && holds(#[trigger] all[i], a);
    all[i].lemma_sound();
    assert(holds(all[i], all[i].from_version()));
    assert(full.contains_key(all[i].from_version()));
    assert(all[i].from_version() == a);
    if i > 0 {
        all[0].lemma_sound();
        assert(all[0].to_version() < all[i].from_version());
        assert(holds(all[0], all[0].from_version()));
        assert(full.contains_key(all[0].from_version()));
        assert(false);
    }
    let b = all[0].to_version();
    if m > b {
        assert(full.contains_key(b));
        let j = choose|j: int| 0 <= j < all.len() && holds(#[trigger] all[j], b);
        if j > 0 {
            assert(all[0].to_version() < all[j].from_version());
        }
        assert(false);
    }
    lemma_root_shortens(full, a, m, b);
}

/// The same updates of a customer row, in any order, make the same chain; and
/// if one order is accepted, every order is.
pub proof fn law_customer_order_does_not_matter(
    key: CustomerKey,
    a: Seq<CustomerSegment>,
    b: Seq<CustomerSegment>,
)
    requires
        all_units(a),
        a.to_multiset() == b.to_multiset(),
        customer_fed(loaded_chain(key), a, a.len() as int).fault is None,
    ensures
        customer_fed(loaded_chain(key), b, b.len() as int).fault is None,
        customer_fed(loaded_chain(key), b, b.len() as int).chain == customer_fed(
            loaded_chain(key),
            a,
            a.len() as int,
        ).chain,
{
    let x = lemma_customer_fed(key, a, a.len() as int);
    lemma_rearranged(a, b);
    lemma_edge_map(a, a.len() as int);
    assert forall|i: int| 0 <= i < b.len() implies (#[trigger] b[i]).from_version()
        >= loaded_version() by {
        lemma_edge_map(b, b.len() as int);
        let v = b[i].from_version();
        assert(edge_map(a, a.len() as int).contains_key(v));
        let k = choose|k: int|
            0 <= k < a.len() && #[trigger] a[k] == edge_map(a, a.len() as int)[v];
        assert(a[k].from_version() >= loaded_version());
    }
    lemma_customer_accepts(key, b, x, b.len() as int);
    let y = lemma_customer_fed(key, b, b.len() as int);
    lemma_spans_unique(x, y, edge_map(a, a.len() as int));
    let p = customer_fed(loaded_chain(key), a, a.len() as int).chain;
    let q = customer_fed(loaded_chain(key), b, b.len() as int).chain;
    if prefix_end(p.prefix) == loaded_version() {
        if prefix_end(q.prefix) != loaded_version() {
            assert(y[0].from_version() == loaded_version());
            assert(x[0].from_version() > loaded_version());
        }
    } else {
        if prefix_end(q.prefix) == loaded_version() {
            assert(x[0].from_version() > loaded_version());
        }
        assert(p.pending =~= x.subrange(1, x.len() as int));
        assert(q.pending =~= x.subrange(1, x.len() as int));
    }
    assert(p == q);
}

/// Law: a customer row for which nothing waits is one unbroken chain. Its
/// updates follow the versions from the loaded one on, each once; joined in that
/// order they follow the loaded row and make the prefix.
pub proof fn law_sealed_customer_row_is_one_chain(key: CustomerKey, edges: Seq<CustomerSegment>)
    requires
        all_units(edges),
        edges.len() > 0,
        customer_fed(loaded_chain(key), edges, edges.len() as int).fault is None,
        customer_fed(loaded_chain(key), edges, edges.len() as int).chain.pending.len() == 0,
    ensures
        starts_distinct(edges, edges.len() as int),
        ({
            let prefix = customer_fed(loaded_chain(key), edges, edges.len() as int).chain.prefix;
            let updates = edge_map(edges, edges.len() as int);
            let whole = run(updates, loaded_version(), prefix_end(prefix));
            &&& forall|v: int| #[trigger]
                updates.contains_key(v) <==> loaded_version() <= v < prefix_end(prefix)
            &&& whole is Some
            &&& absorb_fault(loaded_prefix(), whole->0) is None
            &&& prefix == absorbed(loaded_prefix(), whole->0)
            &&& edges.len() == prefix_end(prefix) - loaded_version()
            &&& edges.len() == prefix.payment_updates + prefix.delivery_updates
        }),
{
    let n = edges.len() as int;
    let list = lemma_customer_fed(key, edges, n);
    let chain = customer_fed(loaded_chain(key), edges, n).chain;
    let updates = edge_map(edges, n);
    lemma_edge_map(edges, n);
    assert(updates.contains_key(edges[0].from_version()));
    assert(held(list, edges[0].from_version()));
    assert(list.len() == 1);
    assert(list[0].sound());
    assert(prefix_end(chain.prefix) == list[0].to_version());
    assert forall|v: int| #[trigger] updates.contains_key(v) <==> loaded_version() <= v
        < prefix_end(chain.prefix) by {
        assert(held(list, v) <==> holds(list[0], v));
    }
    lemma_edges_counted(edges, loaded_version(), prefix_end(chain.prefix));
}

} // verus!
