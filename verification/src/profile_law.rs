//! What a profile holds of what was asked for.
use vstd::prelude::*;

use crate::profile::{
    Deviation, Final2026Profile, OverrideRow, SmokeOverrides, deviations_of, effective,
    law_deviations_record_every_change, override_rows, rejected,
};

verus! {

/// What was asked for, or else what is published.
pub open spec fn asked_or(requested: Option<int>, published: int) -> int {
    match requested {
        Some(n) => n,
        None => published,
    }
}

/// A number that may have been asked for.
pub open spec fn asked_small(n: Option<u16>) -> Option<int> {
    match n {
        Some(v) => Some(v as int),
        None => None,
    }
}

/// A number that may have been asked for.
pub open spec fn asked_byte(n: Option<u8>) -> Option<int> {
    match n {
        Some(v) => Some(v as int),
        None => None,
    }
}

/// A number that may have been asked for.
pub open spec fn asked_wide(n: Option<u64>) -> Option<int> {
    match n {
        Some(v) => Some(v as int),
        None => None,
    }
}

/// Law: a profile holds in each of its fields what was asked for that field, and else the
/// published value: 50 warehouses, 32 clients, half a minute of warmup, three windows of
/// two and a half minutes, a quarter of an hour to load and a minute and a half to
/// recover. It is the published one exactly if nothing else was asked for, and only a
/// warmup may be asked to be nothing.
pub proof fn law_profile_holds_what_was_asked(o: SmokeOverrides, p: Final2026Profile)
    requires
        p.has_values(override_rows(o)),
        p.deviation_list() == deviations_of(override_rows(o)),
    ensures
        ({
            let second: int = 1_000_000_000;
            &&& p.warehouses == asked_or(asked_small(o.warehouses), 50)
            &&& p.clients == asked_or(asked_small(o.clients), 32)
            &&& p.warmup.nanos == asked_or(asked_wide(o.warmup_seconds), 30) * second
            &&& p.measurement_windows == asked_or(asked_byte(o.measurement_windows), 3)
            &&& p.measurement_window.nanos == asked_or(asked_wide(o.measurement_seconds), 150)
                * second
            &&& p.load_budget.nanos == asked_or(asked_wide(o.load_budget_seconds), 900) * second
            &&& p.recovery_ready_budget.nanos == asked_or(
                asked_wide(o.recovery_ready_budget_seconds),
                90,
            ) * second
            &&& p.deviation_list().len() == 0 <==> {
                &&& p.warehouses == 50
                &&& p.clients == 32
                &&& p.warmup.nanos == 30 * second
                &&& p.measurement_windows == 3
                &&& p.measurement_window.nanos == 150 * second
                &&& p.load_budget.nanos == 900 * second
                &&& p.recovery_ready_budget.nanos == 90 * second
            }
        }),
        (exists|i: int| 0 <= i < 7 && rejected(#[trigger] override_rows(o)[i])) <==> {
            ||| o.warehouses == Some(0u16)
            ||| o.clients == Some(0u16)
            ||| o.measurement_windows == Some(0u8)
            ||| o.measurement_seconds == Some(0u64)
            ||| o.load_budget_seconds == Some(0u64)
            ||| o.recovery_ready_budget_seconds == Some(0u64)
        },
{
    let rows = override_rows(o);
    law_deviations_record_every_change(rows);
    assert((forall|i: int| 0 <= i < rows.len() ==> effective(#[trigger] rows[i])
        == rows[i].official) <==> {
        &&& effective(rows[0]) == rows[0].official
        &&& effective(rows[1]) == rows[1].official
        &&& effective(rows[2]) == rows[2].official
        &&& effective(rows[3]) == rows[3].official
        &&& effective(rows[4]) == rows[4].official
        &&& effective(rows[5]) == rows[5].official
        &&& effective(rows[6]) == rows[6].official
    });
    assert(rejected(rows[0]) <==> o.warehouses == Some(0u16));
    assert(rejected(rows[1]) <==> o.clients == Some(0u16));
    assert(!rejected(rows[2]));
    assert(rejected(rows[3]) <==> o.measurement_windows == Some(0u8));
    assert(rejected(rows[4]) <==> o.measurement_seconds == Some(0u64));
    assert(rejected(rows[5]) <==> o.load_budget_seconds == Some(0u64));
    assert(rejected(rows[6]) <==> o.recovery_ready_budget_seconds == Some(0u64));
}

/// Law: a deviation names what deviates. Every one has the published value and another
/// that was asked for, under the name of the field that it was asked for.
pub proof fn law_deviations_name_what_deviates(o: SmokeOverrides, d: Deviation)
    requires
        deviations_of(override_rows(o)).contains(d),
    ensures
        d.effective != d.official,
        ({
            ||| d.field == "warehouses" && d.official == 50 && asked_small(o.warehouses) == Some(
                d.effective as int,
            )
            ||| d.field == "clients" && d.official == 32 && asked_small(o.clients) == Some(
                d.effective as int,
            )
            ||| d.field == "warmup_seconds" && d.official == 30 && o.warmup_seconds == Some(
                d.effective,
            )
            ||| d.field == "measurement_windows" && d.official == 3 && asked_byte(
                o.measurement_windows,
            ) == Some(d.effective as int)
            ||| d.field == "measurement_seconds" && d.official == 150 && o.measurement_seconds
                == Some(d.effective)
            ||| d.field == "load_budget_seconds" && d.official == 900 && o.load_budget_seconds
                == Some(d.effective)
            ||| d.field == "recovery_ready_budget_seconds" && d.official == 90
                && o.recovery_ready_budget_seconds == Some(d.effective)
        }),
{
    let rows = override_rows(o);
    let k = lemma_from_a_row(rows, d);
    assert(k == 0 || k == 1 || k == 2 || k == 3 || k == 4 || k == 5 || k == 6);
}

proof fn lemma_from_a_row(rows: Seq<OverrideRow>, d: Deviation) -> (k: int)
    requires
        deviations_of(rows).contains(d),
    ensures
        0 <= k < rows.len(),
        effective(rows[k]) != rows[k].official,
        d.field == rows[k].field,
        d.official == rows[k].official,
        d.effective == effective(rows[k]),
    decreases rows.len(),
{
    let list = deviations_of(rows);
    let i = choose|i: int| 0 <= i < list.len() && list[i] == d;
    let before = deviations_of(rows.drop_last());
    if i < before.len() {
        assert(before[i] == d);
        lemma_from_a_row(rows.drop_last(), d)
    } else {
        rows.len() - 1
    }
}

} // verus!
