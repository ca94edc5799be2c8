//! The customer of a surname does not depend on the order of the rows.
use vstd::prelude::*;

use crate::ranking::common::char_at;
use crate::ranking::payment::{
    PayerModel, bytes_before, median_payer, ordered_payers, payer_before, payer_fault, payer_of,
    repeated_payer_fault, surname_fault, surname_rows_fault, with_payer,
};
use crate::wire::WireModel;

verus! {

/// Of two different lists of bytes exactly one comes before the other.
pub proof fn lemma_bytes_total(a: Seq<u8>, b: Seq<u8>)
    ensures
        a == b ==> !bytes_before(a, b),
        a != b ==> bytes_before(a, b) != bytes_before(b, a),
    decreases a.len(),
{
    if a.len() == 0 || b.len() == 0 {
        if a.len() == 0 && b.len() == 0 {
            assert(a =~= b);
        }
    } else if a[0] == b[0] {
        lemma_bytes_total(a.drop_first(), b.drop_first());
        if a.drop_first() == b.drop_first() {
            assert(a =~= seq![a[0]] + a.drop_first());
            assert(b =~= seq![b[0]] + b.drop_first());
        }
    }
}

/// What comes before what comes before comes before.
pub proof fn lemma_bytes_transitive(a: Seq<u8>, b: Seq<u8>, c: Seq<u8>)
    requires
        bytes_before(a, b),
        bytes_before(b, c),
    ensures
        bytes_before(a, c),
    decreases a.len(),
{
    if a.len() > 0 && a[0] == b[0] && b[0] == c[0] {
        lemma_bytes_transitive(a.drop_first(), b.drop_first(), c.drop_first());
    }
}

proof fn lemma_payers_transitive(a: PayerModel, b: PayerModel, c: PayerModel)
    requires
        payer_before(a, b),
        payer_before(b, c),
    ensures
        payer_before(a, c),
{
    if bytes_before(a.first, b.first) && bytes_before(b.first, c.first) {
        lemma_bytes_transitive(a.first, b.first, c.first);
    }
}

/// Whether two customers have the same place in the order.
pub open spec fn same_place(a: PayerModel, b: PayerModel) -> bool {
    a.first == b.first && a.id == b.id
}

proof fn lemma_payers_total(a: PayerModel, b: PayerModel)
    ensures
        same_place(a, b) || payer_before(a, b) || payer_before(b, a),
        !(payer_before(a, b) && payer_before(b, a)),
        !payer_before(a, a),
{
    lemma_bytes_total(a.first, b.first);
    lemma_bytes_total(a.first, a.first);
}

/// No customer comes before an earlier one.
pub open spec fn in_order(list: Seq<PayerModel>) -> bool {
    forall|i: int, j: int| 0 <= i < j < list.len() ==> !payer_before(list[j], list[i])
}

/// Each customer comes before every later one.
pub open spec fn in_strict_order(list: Seq<PayerModel>) -> bool {
    forall|i: int, j: int| 0 <= i < j < list.len() ==> payer_before(list[i], list[j])
}

proof fn lemma_with_payer(list: Seq<PayerModel>, c: PayerModel)
    requires
        in_order(list),
    ensures
        in_order(with_payer(list, c)),
        with_payer(list, c).to_multiset() == list.to_multiset().insert(c),
    decreases list.len(),
{
    let next = with_payer(list, c);
    list.to_multiset_ensures();
    if list.len() == 0 || !payer_before(c, list.last()) {
        assert forall|i: int, j: int| 0 <= i < j < next.len() implies !payer_before(
            next[j],
            next[i],
        ) by {
            if j == list.len() {
                if i < list.len() - 1 && payer_before(c, list[i]) {
                    let last = list.last();
                    assert(!payer_before(last, list[i]));
                    lemma_payers_total(list[i], last);
                    if payer_before(list[i], last) {
                        lemma_payers_transitive(c, list[i], last);
                    }
                }
            }
        }
    } else {
        let front = list.drop_last();
        let last = list.last();
        assert forall|i: int, j: int| 0 <= i < j < front.len() implies !payer_before(
            front[j],
            front[i],
        ) by {
            assert(!payer_before(list[j], list[i]));
        }
        lemma_with_payer(front, c);
        let grown = with_payer(front, c);
        grown.to_multiset_ensures();
        front.to_multiset_ensures();
        assert(next == grown.push(last));
        assert(list =~= front.push(last));
        assert(next.to_multiset() =~= list.to_multiset().insert(c));
        assert forall|i: int, j: int| 0 <= i < j < next.len() implies !payer_before(
            next[j],
            next[i],
        ) by {
            if j < grown.len() {
                assert(!payer_before(grown[j], grown[i]));
            } else {
                assert(grown.contains(grown[i]));
                assert(grown.to_multiset().count(grown[i]) > 0);
                if grown[i] == c {
                    lemma_payers_total(last, c);
                } else {
                    assert(front.to_multiset().count(grown[i]) > 0);
                    assert(front.contains(grown[i]));
                    let m = choose|m: int| 0 <= m < front.len() && front[m] == grown[i];
                    assert(!payer_before(list[list.len() - 1], list[m]));
                }
            }
        }
    }
}

/// The customers of rows, as they come.
pub open spec fn payers_of(rows: Seq<Seq<WireModel>>) -> Seq<PayerModel> {
    rows.map_values(|row: Seq<WireModel>| payer_of(row))
}

proof fn lemma_ordered_payers(rows: Seq<Seq<WireModel>>, n: int)
    requires
        0 <= n <= rows.len(),
    ensures
        in_order(ordered_payers(rows, n)),
        ordered_payers(rows, n).to_multiset() == payers_of(rows).subrange(0, n).to_multiset(),
        ordered_payers(rows, n).len() == n,
    decreases n,
{
    let part = payers_of(rows).subrange(0, n);
    if n == 0 {
        assert(ordered_payers(rows, 0) =~= part);
    } else {
        lemma_ordered_payers(rows, n - 1);
        let before = payers_of(rows).subrange(0, n - 1);
        lemma_with_payer(ordered_payers(rows, n - 1), payer_of(rows[n - 1]));
        before.to_multiset_ensures();
        assert(part =~= before.push(payer_of(rows[n - 1])));
        ordered_payers(rows, n).to_multiset_ensures();
        part.to_multiset_ensures();
    }
}

proof fn lemma_no_repeats(list: Seq<PayerModel>, from: int)
    requires
        0 <= from,
        repeated_payer_fault(list, from) is None,
    ensures
        forall|i: int| from <= i < list.len() - 1 ==> !same_place(#[trigger] list[i], list[i + 1]),
    decreases list.len() - from,
{
    if from + 1 < list.len() {
        lemma_no_repeats(list, from + 1);
    }
}

proof fn lemma_strict(list: Seq<PayerModel>, i: int, j: int)
    requires
        in_order(list),
        forall|k: int| 0 <= k < list.len() - 1 ==> !same_place(#[trigger] list[k], list[k + 1]),
        0 <= i < j < list.len(),
    ensures
        payer_before(list[i], list[j]),
    decreases j - i,
{
    assert(!same_place(list[j - 1], list[j]));
    assert(!payer_before(list[j], list[j - 1]));
    lemma_payers_total(list[j - 1], list[j]);
    if i < j - 1 {
        lemma_strict(list, i, j - 1);
        lemma_payers_transitive(list[i], list[j - 1], list[j]);
    }
}

proof fn lemma_strict_lists(a: Seq<PayerModel>, b: Seq<PayerModel>)
    requires
        in_strict_order(a),
        in_strict_order(b),
        forall|x: PayerModel| a.contains(x) <==> b.contains(x),
    ensures
        a == b,
    decreases a.len(),
{
    if a.len() == 0 {
        if b.len() > 0 {
            assert(b.contains(b[0]));
        }
        assert(a =~= b);
    } else if b.len() == 0 {
        assert(a.contains(a[0]));
    } else {
        let x = a.last();
        let y = b.last();
        assert(a.contains(x) && b.contains(y));
        assert(b.contains(x) && a.contains(y));
        let i = choose|i: int| 0 <= i < b.len() && b[i] == x;
        let j = choose|j: int| 0 <= j < a.len() && a[j] == y;
        assert(x == y) by {
            if i < b.len() - 1 && j < a.len() - 1 {
                assert(payer_before(b[i], b[b.len() - 1]));
                assert(payer_before(a[j], a[a.len() - 1]));
                lemma_payers_total(x, y);
            }
        }
        let p = a.drop_last();
        let q = b.drop_last();
        assert forall|e: PayerModel| p.contains(e) implies q.contains(e) by {
            let n = choose|n: int| 0 <= n < p.len() && p[n] == e;
            assert(a[n] == e);
            assert(payer_before(a[n], a[a.len() - 1]));
            assert(a.contains(e));
            let m = choose|m: int| 0 <= m < b.len() && b[m] == e;
            lemma_payers_total(e, e);
            assert(q[m] == e);
        }
        assert forall|e: PayerModel| q.contains(e) implies p.contains(e) by {
            let n = choose|n: int| 0 <= n < q.len() && q[n] == e;
            assert(b[n] == e);
            assert(payer_before(b[n], b[b.len() - 1]));
            assert(b.contains(e));
            let m = choose|m: int| 0 <= m < a.len() && a[m] == e;
            lemma_payers_total(e, e);
            assert(p[m] == e);
        }
        assert forall|n: int, m: int| 0 <= n < m < p.len() implies payer_before(p[n], p[m]) by {
            assert(payer_before(a[n], a[m]));
        }
        assert forall|n: int, m: int| 0 <= n < m < q.len() implies payer_before(q[n], q[m]) by {
            assert(payer_before(b[n], b[m]));
        }
        lemma_strict_lists(p, q);
        assert(a =~= p.push(x));
        assert(b =~= q.push(y));
    }
}

/// Equal rows in another order list the same customers in order.
pub proof fn law_ordered_payers_ignore_row_order(
    a: Seq<Seq<WireModel>>,
    b: Seq<Seq<WireModel>>,
)
    requires
        a.to_multiset() == b.to_multiset(),
        repeated_payer_fault(ordered_payers(a, a.len() as int), 0) is None,
    ensures
        repeated_payer_fault(ordered_payers(b, b.len() as int), 0) is None,
        ordered_payers(a, a.len() as int) == ordered_payers(b, b.len() as int),
        median_payer(a) == median_payer(b),
{
    let x = ordered_payers(a, a.len() as int);
    let y = ordered_payers(b, b.len() as int);
    lemma_ordered_payers(a, a.len() as int);
    lemma_ordered_payers(b, b.len() as int);
    lemma_no_repeats(x, 0);
    assert forall|i: int, j: int| 0 <= i < j < x.len() implies payer_before(x[i], x[j]) by {
        lemma_strict(x, i, j);
    }
    let p = payers_of(a);
    let q = payers_of(b);
    assert(p.subrange(0, a.len() as int) =~= p);
    assert(q.subrange(0, b.len() as int) =~= q);
    lemma_mapped_multiset(a, b);
    x.to_multiset_ensures();
    y.to_multiset_ensures();
    assert forall|e: PayerModel| x.contains(e) <==> y.contains(e) by {
        assert(x.contains(e) <==> x.to_multiset().count(e) > 0);
        assert(y.contains(e) <==> y.to_multiset().count(e) > 0);
    }
    assert(x.no_duplicates()) by {
        assert forall|i: int, j: int| 0 <= i < x.len() && 0 <= j < x.len() && i != j implies x[i]
            != x[j] by {
            lemma_payers_total(x[i], x[j]);
            if i < j {
                assert(payer_before(x[i], x[j]));
            } else {
                assert(payer_before(x[j], x[i]));
            }
        }
    }
    x.lemma_multiset_has_no_duplicates();
    y.lemma_multiset_has_no_duplicates_conv();
    assert forall|i: int| 0 <= i < y.len() - 1 implies !same_place(#[trigger] y[i], y[i + 1]) by {
        assert(y.contains(y[i]) && y.contains(y[i + 1]));
        let m = choose|m: int| 0 <= m < x.len() && x[m] == y[i];
        let k = choose|k: int| 0 <= k < x.len() && x[k] == y[i + 1];
        assert(m != k);
        lemma_payers_total(x[m], x[k]);
        lemma_bytes_total(x[m].first, x[k].first);
        if m < k {
            assert(payer_before(x[m], x[k]));
        } else {
            assert(payer_before(x[k], x[m]));
        }
    }
    lemma_repeats_none(y, 0);
    assert forall|i: int, j: int| 0 <= i < j < y.len() implies payer_before(y[i], y[j]) by {
        lemma_strict(y, i, j);
    }
    lemma_strict_lists(x, y);
}

proof fn lemma_repeats_none(list: Seq<PayerModel>, from: int)
    requires
        0 <= from,
        forall|i: int| from <= i < list.len() - 1 ==> !same_place(#[trigger] list[i], list[i + 1]),
    ensures
        repeated_payer_fault(list, from) is None,
    decreases list.len() - from,
{
    if from + 1 < list.len() {
        assert(!same_place(list[from], list[from + 1]));
        lemma_repeats_none(list, from + 1);
    }
}

/// Equal rows in another order are the same customers in another order.
proof fn lemma_mapped_multiset(a: Seq<Seq<WireModel>>, b: Seq<Seq<WireModel>>)
    requires
        a.to_multiset() == b.to_multiset(),
    ensures
        payers_of(a).to_multiset() == payers_of(b).to_multiset(),
    decreases a.len(),
{
    a.to_multiset_ensures();
    b.to_multiset_ensures();
    if a.len() == 0 {
        assert(payers_of(a) =~= payers_of(b));
    } else {
        let row = a.last();
        let front = a.drop_last();
        assert(a =~= front.push(row));
        front.to_multiset_ensures();
        assert(a.contains(row));
        assert(a.to_multiset().count(row) > 0);
        assert(b.contains(row));
        let k = choose|k: int| 0 <= k < b.len() && b[k] == row;
        let rest = b.remove(k);
        assert(front.to_multiset() =~= rest.to_multiset()) by {
            assert(rest.to_multiset() == b.to_multiset().remove(row));
            assert(front.to_multiset().insert(row) == a.to_multiset());
        }
        lemma_mapped_multiset(front, rest);
        let p = payers_of(front);
        let q = payers_of(rest);
        p.to_multiset_ensures();
        payers_of(b).to_multiset_ensures();
        assert(payers_of(a) =~= p.push(payer_of(row)));
        assert(q =~= payers_of(b).remove(k));
        assert(payers_of(b).to_multiset() =~= q.to_multiset().insert(payer_of(row))) by {
            assert(payers_of(b)[k] == payer_of(row));
            assert(payers_of(b).contains(payer_of(row)));
            assert(payers_of(b).to_multiset().count(payer_of(row)) > 0);
        }
    }
}

/// Law: the customers behind a lookup by surname are those of the rows, in order
/// of first name and id; where the lookup is accepted no two share a place, and
/// the one it finds has half of the others, rounded down, before it.
pub proof fn law_payers_are_in_order(rows: Seq<Seq<WireModel>>, last: Seq<u8>)
    ensures
        in_order(ordered_payers(rows, rows.len() as int)),
        ordered_payers(rows, rows.len() as int).to_multiset() == payers_of(rows).to_multiset(),
        ordered_payers(rows, rows.len() as int).len() == rows.len(),
        surname_fault(rows, last) is None ==> in_strict_order(
            ordered_payers(rows, rows.len() as int),
        ) && median_payer(rows) == ordered_payers(rows, rows.len() as int)[(rows.len() - 1) / 2],
{
    let list = ordered_payers(rows, rows.len() as int);
    lemma_ordered_payers(rows, rows.len() as int);
    assert(payers_of(rows).subrange(0, rows.len() as int) =~= payers_of(rows));
    if surname_fault(rows, last) is None {
        lemma_no_repeats(list, 0);
        assert forall|i: int, j: int| 0 <= i < j < list.len() implies payer_before(
            list[i],
            list[j],
        ) by {
            lemma_strict(list, i, j);
        }
    }
}

/// A row that a lookup by surname accepts.
spec fn row_accepted(row: Seq<WireModel>, last: Seq<u8>) -> bool {
    payer_fault(row) is None && char_at(row, 2) == last
}

proof fn lemma_rows_accepted(rows: Seq<Seq<WireModel>>, last: Seq<u8>, from: int)
    requires
        0 <= from <= rows.len(),
    ensures
        surname_rows_fault(rows, last, from) is None <==> forall|i: int|
            from <= i < rows.len() ==> row_accepted(#[trigger] rows[i], last),
    decreases rows.len() - from,
{
    if from < rows.len() {
        lemma_rows_accepted(rows, last, from + 1);
        if surname_rows_fault(rows, last, from) is None {
            assert forall|i: int| from <= i < rows.len() implies row_accepted(
                #[trigger] rows[i],
                last,
            ) by {
                if i > from {
                    assert(from + 1 <= i);
                }
            }
        } else {
            assert(!row_accepted(rows[from], last) || surname_rows_fault(rows, last, from + 1)
                is Some);
        }
    }
}

/// Law: a lookup by surname is accepted, and finds the same customer, in every
/// order of its rows.
pub proof fn law_surname_lookup_ignores_row_order(
    a: Seq<Seq<WireModel>>,
    b: Seq<Seq<WireModel>>,
    last: Seq<u8>,
)
    requires
        a.to_multiset() == b.to_multiset(),
        surname_fault(a, last) is None,
    ensures
        surname_fault(b, last) is None,
        median_payer(a) == median_payer(b),
{
    lemma_rows_accepted(a, last, 0);
    lemma_rows_accepted(b, last, 0);
    a.to_multiset_ensures();
    b.to_multiset_ensures();
    assert forall|i: int| 0 <= i < b.len() implies row_accepted(#[trigger] b[i], last) by {
        assert(b.contains(b[i]));
        assert(a.to_multiset().count(b[i]) > 0);
        assert(a.contains(b[i]));
    }
    law_ordered_payers_ignore_row_order(a, b);
}

} // verus!
