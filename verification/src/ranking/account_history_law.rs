//! What holds of an account after any history, and of merging in any order.
use vstd::multiset::*;
use vstd::prelude::*;

use crate::ranking::bounded_laws::law_offer_keeps_consistent;
use crate::ranking::bounded_merge_law::{
    law_empty_account_is_neutral, law_merge_commutes, law_merge_regroups,
};
use crate::ranking::bounded_stats::{
    BoundedPhysicalStats, StatsModel, account_merge_fault, empty_stats, incremented,
    lemma_delta_in_domain, merge_list_fault, merged_list, offer_fault, stats_fault, stats_shaped,
    stats_sum, totals_fault, with_delta,
};
use crate::ranking::bounded_terminal::{DeltaModel, PartitionIncrement, terminal_delta};
use crate::ranking::bounded_totals::PartitionTotals;
use crate::ranking::ledger::{LedgerClass, PartitionDelta};
use crate::ranking::ledger_events::{OrderModel, OutcomeModel, outcome_model};
use crate::ranking::run_ledger::{
    LedgerModel, applied_orders_fault, delivered_partitions, empty_ledger, record_fault, recorded,
    shaped,
};
use crate::ranking::runner::RankedTransactionOutcome;
use crate::ranking::stats_ledger_law::{
    account_matches, law_account_matches_ledger, law_empty_account_matches_ledger,
    lemma_applied_order,
};
use crate::workload::TransactionTicket;

verus! {

/// How an account came about: from nothing, by terminals that it was offered and
/// accounts that it was merged with, accepted or refused.
pub enum AccountHistory {
    Empty,
    Offered {
        before: Box<AccountHistory>,
        class: LedgerClass,
        ticket: TransactionTicket,
        outcome: RankedTransactionOutcome,
    },
    Merged { before: Box<AccountHistory>, other: Box<AccountHistory> },
}

/// The account at the end of a history.
pub open spec fn account_of(h: AccountHistory) -> StatsModel
    decreases h,
{
    match h {
        AccountHistory::Empty => empty_stats(),
        AccountHistory::Offered { before, class, ticket, outcome } => {
            let s = account_of(*before);
            if offer_fault(s, class, ticket, outcome) is None {
                with_delta(s, terminal_delta(class, ticket, outcome))
            } else {
                s
            }
        },
        AccountHistory::Merged { before, other } => {
            let s = account_of(*before);
            let t = account_of(*other);
            if account_merge_fault(s, t) is None {
                stats_sum(s, t)
            } else {
                s
            }
        },
    }
}

/// Law: an account is consistent whatever was done to it.
pub proof fn law_every_account_is_consistent(h: AccountHistory)
    ensures
        stats_shaped(account_of(h)),
        stats_fault(account_of(h)) is None,
    decreases h,
{
    match h {
        AccountHistory::Empty => {
            law_empty_account_is_neutral(empty_stats());
        },
        AccountHistory::Offered { before, class, ticket, outcome } => {
            law_every_account_is_consistent(*before);
            let s = account_of(*before);
            if offer_fault(s, class, ticket, outcome) is None {
                law_offer_keeps_consistent(s, class, ticket, outcome);
                lemma_delta_in_domain(class, ticket, outcome);
                lemma_offer_shaped(s, terminal_delta(class, ticket, outcome));
            }
        },
        AccountHistory::Merged { before, other } => {
            law_every_account_is_consistent(*before);
            law_every_account_is_consistent(*other);
        },
    }
}

proof fn lemma_offer_shaped(s: StatsModel, d: DeltaModel)
    requires
        stats_shaped(s),
        0 <= d.class_index < 9,
        forall|i: int| 0 <= i < d.partitions.len() ==> (#[trigger] d.partitions[i]).index < 500,
    ensures
        stats_shaped(with_delta(s, d)),
{
    lemma_incremented_len(s.partitions, d.partitions, d.partitions.len() as int);
}

proof fn lemma_incremented_len(
    partitions: Seq<PartitionTotals>,
    increments: Seq<PartitionIncrement>,
    n: int,
)
    requires
        0 <= n <= increments.len(),
        partitions.len() == 500,
        forall|i: int| 0 <= i < increments.len() ==> (#[trigger] increments[i]).index < 500,
    ensures
        incremented(partitions, increments, n).len() == partitions.len(),
    decreases n,
{
    if n > 0 {
        lemma_incremented_len(partitions, increments, n - 1);
    }
}

/// One terminal as an account and a ledger are offered it.
pub struct OfferedTerminal {
    pub class: LedgerClass,
    pub ticket: TransactionTicket,
    pub outcome: RankedTransactionOutcome,
}

/// The account after the first `n` terminals, if it accepted them all.
pub open spec fn offered_all(list: Seq<OfferedTerminal>, n: int) -> Option<StatsModel>
    decreases n,
{
    if n <= 0 {
        Some(empty_stats())
    } else {
        let t = list[n - 1];
        match offered_all(list, n - 1) {
            Some(s) if offer_fault(s, t.class, t.ticket, t.outcome) is None => Some(
                with_delta(s, terminal_delta(t.class, t.ticket, t.outcome)),
            ),
            _ => None,
        }
    }
}

/// The ledger after the first `n` terminals, if it accepted them all.
pub open spec fn recorded_all(list: Seq<OfferedTerminal>, n: int) -> Option<LedgerModel>
    decreases n,
{
    if n <= 0 {
        Some(empty_ledger())
    } else {
        let t = list[n - 1];
        match recorded_all(list, n - 1) {
            Some(m) if record_fault(m, t.class, t.ticket, t.outcome) is None => Some(
                recorded(m, t.class, t.ticket, t.outcome),
            ),
            _ => None,
        }
    }
}

/// Law: an account and a ledger that accepted the same terminals say the same.
/// The account has totals, and they, every partition and every exact sum are
/// those of the ledger.
pub proof fn law_account_of_terminals_matches_ledger(list: Seq<OfferedTerminal>, n: int)
    requires
        0 <= n <= list.len(),
        offered_all(list, n) is Some,
        recorded_all(list, n) is Some,
    ensures
        stats_shaped(offered_all(list, n)->0),
        shaped(recorded_all(list, n)->0),
        stats_fault(offered_all(list, n)->0) is None,
        totals_fault((offered_all(list, n)->0).classes, 9) is None,
        account_matches(offered_all(list, n)->0, recorded_all(list, n)->0),
    decreases n,
{
    if n == 0 {
        law_empty_account_is_neutral(empty_stats());
        law_empty_account_matches_ledger();
    } else {
        law_account_of_terminals_matches_ledger(list, n - 1);
        let t = list[n - 1];
        let s = offered_all(list, n - 1)->0;
        let m = recorded_all(list, n - 1)->0;
        law_account_matches_ledger(s, m, t.class, t.ticket, t.outcome);
        law_offer_keeps_consistent(s, t.class, t.ticket, t.outcome);
        lemma_delta_in_domain(t.class, t.ticket, t.outcome);
        lemma_offer_shaped(s, terminal_delta(t.class, t.ticket, t.outcome));
        lemma_recorded_shaped(m, t.class, t.ticket, t.outcome);
    }
}

proof fn lemma_recorded_shaped(
    m: LedgerModel,
    class: LedgerClass,
    ticket: TransactionTicket,
    outcome: RankedTransactionOutcome,
)
    requires
        shaped(m),
        record_fault(m, class, ticket, outcome) is None,
    ensures
        shaped(recorded(m, class, ticket, outcome)),
{
    if let OutcomeModel::Delivery(orders) = outcome_model(outcome) {
        lemma_delivered_len(m.partitions, orders, orders.len() as int);
    }
}

proof fn lemma_delivered_len(partitions: Seq<PartitionDelta>, orders: Seq<OrderModel>, n: int)
    requires
        partitions.len() == 500,
        0 <= n <= orders.len(),
        applied_orders_fault(partitions, orders, 0) is None,
    ensures
        delivered_partitions(partitions, orders, n).len() == partitions.len(),
    decreases n,
{
    if n > 0 {
        lemma_delivered_len(partitions, orders, n - 1);
        lemma_applied_order(partitions, orders, 0, n - 1);
    }
}

/// Whether two accounts merge.
#[verifier::opaque]
spec fn merge_works(a: StatsModel, b: StatsModel) -> bool {
    account_merge_fault(a, b) is None
}

/// Whether the accounts from `i` on merge into another.
#[verifier::opaque]
spec fn merge_list_works(s: StatsModel, list: Seq<BoundedPhysicalStats>, i: int) -> bool {
    merge_list_fault(s, list, i) is None
}

proof fn lemma_step(s: StatsModel, list: Seq<BoundedPhysicalStats>, i: int)
    requires
        0 <= i <= list.len(),
    ensures
        merge_list_works(s, list, i) <==> i == list.len() || merge_works(s, list[i]@)
            && merge_list_works(stats_sum(s, list[i]@), list, i + 1),
{
    reveal(merge_works);
    reveal(merge_list_works);
}

proof fn lemma_sum_shaped(a: StatsModel, b: StatsModel)
    requires
        stats_shaped(a),
    ensures
        stats_shaped(stats_sum(a, b)),
{
}

/// Two accounts are added to a third in either order.
proof fn lemma_swap(s: StatsModel, x: StatsModel, y: StatsModel)
    requires
        stats_shaped(s),
        stats_shaped(x),
        stats_shaped(y),
        merge_works(s, x),
        merge_works(stats_sum(s, x), y),
    ensures
        merge_works(s, y),
        merge_works(stats_sum(s, y), x),
        stats_sum(stats_sum(s, y), x) == stats_sum(stats_sum(s, x), y),
{
    reveal(merge_works);
    law_merge_regroups(s, x, y);
    let xy = stats_sum(x, y);
    law_merge_commutes(s, xy);
    law_merge_regroups(x, y, s);
    law_merge_commutes(y, s);
    let ys = stats_sum(y, s);
    law_merge_commutes(x, ys);
}

proof fn lemma_shift(
    s: StatsModel,
    a: Seq<BoundedPhysicalStats>,
    b: Seq<BoundedPhysicalStats>,
    i: int,
)
    requires
        0 <= i <= b.len(),
        a.len() == b.len() + 1,
        forall|k: int| i <= k < b.len() ==> a[k + 1] == #[trigger] b[k],
    ensures
        merge_list_works(s, a, i + 1) == merge_list_works(s, b, i),
        merged_list(s, a, i + 1) == merged_list(s, b, i),
    decreases b.len() - i,
{
    lemma_step(s, a, i + 1);
    lemma_step(s, b, i);
    if i < b.len() {
        assert(a[i + 1] == b[i]);
        lemma_shift(stats_sum(s, b[i]@), a, b, i + 1);
    }
}

/// One account may be merged before all the others.
proof fn lemma_first(s: StatsModel, list: Seq<BoundedPhysicalStats>, i: int, j: int)
    requires
        stats_shaped(s),
        0 <= i <= j < list.len(),
        merge_list_works(s, list, i),
    ensures
        merge_works(s, list[j]@),
        merge_list_works(stats_sum(s, list[j]@), list.remove(j), i),
        merged_list(stats_sum(s, list[j]@), list.remove(j), i) == merged_list(s, list, i),
    decreases j - i,
{
    let x = list[j]@;
    let rest = list.remove(j);
    assert(stats_shaped(x));
    lemma_step(s, list, i);
    if i == j {
        lemma_shift(stats_sum(s, x), list, rest, i);
    } else {
        let y = list[i]@;
        assert(stats_shaped(y));
        assert(rest[i] == list[i]);
        lemma_sum_shaped(s, y);
        lemma_first(stats_sum(s, y), list, i + 1, j);
        lemma_swap(s, y, x);
        lemma_step(stats_sum(s, x), rest, i);
    }
}

proof fn lemma_merge_rearranged(
    s: StatsModel,
    a: Seq<BoundedPhysicalStats>,
    b: Seq<BoundedPhysicalStats>,
)
    requires
        stats_shaped(s),
        a.to_multiset() == b.to_multiset(),
        merge_list_works(s, a, 0),
    ensures
        merge_list_works(s, b, 0),
        merged_list(s, b, 0) == merged_list(s, a, 0),
    decreases b.len(),
{
    a.to_multiset_ensures();
    b.to_multiset_ensures();
    lemma_step(s, b, 0);
    if b.len() > 0 {
        let x = b[0];
        assert(b.contains(x));
        assert(a.to_multiset().count(x) > 0);
        assert(a.contains(x));
        let j = choose|j: int| 0 <= j < a.len() && a[j] == x;
        lemma_first(s, a, 0, j);
        assert(a.remove(j).to_multiset() =~= b.remove(0).to_multiset());
        assert(stats_shaped(x@));
        lemma_sum_shaped(s, x@);
        lemma_merge_rearranged(stats_sum(s, x@), a.remove(j), b.remove(0));
        lemma_shift(stats_sum(s, x@), b, b.remove(0), 0);
    }
}

proof fn lemma_merged_consistent(s: StatsModel, list: Seq<BoundedPhysicalStats>, i: int)
    requires
        stats_fault(s) is None,
        merge_list_fault(s, list, i) is None,
    ensures
        stats_fault(merged_list(s, list, i)) is None,
    decreases list.len() - i,
{
    if i < list.len() {
        lemma_merged_consistent(stats_sum(s, list[i]@), list, i + 1);
    }
}

/// Law: accounts merge in any order. Where a list of accounts merges, every
/// rearrangement of it does, with the same consistent result; no accounts make
/// the empty one.
pub proof fn law_merge_all_ignores_order(
    a: Seq<BoundedPhysicalStats>,
    b: Seq<BoundedPhysicalStats>,
)
    requires
        a.to_multiset() == b.to_multiset(),
        merge_list_fault(empty_stats(), a, 0) is None,
    ensures
        merge_list_fault(empty_stats(), b, 0) is None,
        merged_list(empty_stats(), b, 0) == merged_list(empty_stats(), a, 0),
        stats_fault(merged_list(empty_stats(), a, 0)) is None,
        a.len() == 0 ==> merged_list(empty_stats(), a, 0) == empty_stats(),
{
    reveal(merge_list_works);
    lemma_merge_rearranged(empty_stats(), a, b);
    law_empty_account_is_neutral(empty_stats());
    lemma_merged_consistent(empty_stats(), a, 0);
}

} // verus!
