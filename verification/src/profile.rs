//! Public configuration of the 2026 final TPC-C run.
//!
//! The workload seed is not part of the configuration: callers bring their own.
use vstd::prelude::*;

use crate::text::join2;
use crate::time::Duration;

verus! {

pub const OFFICIAL_WAREHOUSES: u16 = 50;

pub const OFFICIAL_CLIENTS: u16 = 32;

pub const WARMUP_SECONDS: u64 = 30;

pub const MEASUREMENT_WINDOWS: u8 = 3;

pub const MEASUREMENT_SECONDS: u64 = 150;

pub const LOAD_BUDGET_SECONDS: u64 = 900;

pub const RECOVERY_READY_BUDGET_SECONDS: u64 = 90;

pub const ROUTING_SLOTS: usize = 160;

pub const ROUTING_WAVES: u64 = 5;

pub const HOT_WAREHOUSES: usize = 4;

pub const HOT_SLOTS_PER_WAREHOUSE: usize = 26;

pub const EXTRA_COLD_WAREHOUSES_PER_STAGE: usize = 10;

pub const DISTRICTS_PER_WAREHOUSE: u8 = 10;

pub const HOT_DISTRICT_PERCENT: u8 = 65;

pub const ITEM_COUNT: u32 = 100_000;

pub const HOT_ITEMS: usize = 24;

pub const HOT_ITEM_PERCENT: u8 = 25;

pub const NEW_ORDER_REMOTE_PERCENT: u8 = 8;

pub const PAYMENT_REMOTE_PERCENT: u8 = 30;

pub const COVERAGE_SAMPLE_THRESHOLD: u64 = 400;

pub const WINDOW_WAREHOUSE_COVERAGE: u16 = 45;

pub const COMBINED_WAREHOUSE_COVERAGE: u16 = 50;

#[derive(Debug, Clone, Copy, PartialEq, Eq, Hash, Structural)]
pub enum TransactionKind {
    NewOrder,
    Payment,
    OrderStatus,
    Delivery,
    StockLevel,
}

pub const TRANSACTION_MIX: [(TransactionKind, u8); 5] = [
    (TransactionKind::NewOrder, 45),
    (TransactionKind::Payment, 43),
    (TransactionKind::OrderStatus, 4),
    (TransactionKind::Delivery, 4),
    (TransactionKind::StockLevel, 4),
];

/// Sum of the first `count` weights of the mix.
pub open spec fn mix_prefix(count: int) -> int
    decreases count,
{
    if count <= 0 {
        0
    } else {
        mix_prefix(count - 1) + TRANSACTION_MIX[count - 1].1
    }
}

/// The kind whose share of `0..100` holds the bucket.
pub open spec fn kind_of_bucket(bucket: int) -> Option<TransactionKind> {
    if 0 <= bucket < 100 {
        let i = choose|i: int|
            0 <= i < 5 && mix_prefix(i) <= bucket && bucket < #[trigger] mix_prefix(i + 1);
        Some(TRANSACTION_MIX[i].0)
    } else {
        None
    }
}

proof fn lemma_mix_prefixes()
    ensures
        mix_prefix(0) == 0,
        mix_prefix(1) == 45,
        mix_prefix(2) == 88,
        mix_prefix(3) == 92,
        mix_prefix(4) == 96,
        mix_prefix(5) == 100,
{
    reveal_with_fuel(mix_prefix, 6);
}

/// The shares of the mix: 45, 43, 4, 4 and 4 of one hundred buckets.
pub proof fn law_mix_shares(bucket: int)
    requires
        0 <= bucket < 100,
    ensures
        kind_of_bucket(bucket) == Some(
            if bucket < 45 {
                TransactionKind::NewOrder
            } else if bucket < 88 {
                TransactionKind::Payment
            } else if bucket < 92 {
                TransactionKind::OrderStatus
            } else if bucket < 96 {
                TransactionKind::Delivery
            } else {
                TransactionKind::StockLevel
            },
        ),
{
    lemma_mix_prefixes();
    let want: int = if bucket < 45 {
        0
    } else if bucket < 88 {
        1
    } else if bucket < 92 {
        2
    } else if bucket < 96 {
        3
    } else {
        4
    };
    assert(mix_prefix(want) <= bucket && bucket < mix_prefix(want + 1));
    let i = choose|i: int|
        0 <= i < 5 && mix_prefix(i) <= bucket && bucket < #[trigger] mix_prefix(i + 1);
    assert(0 <= i < 5 && mix_prefix(i) <= bucket && bucket < mix_prefix(i + 1));
    assert(i == 0 || i == 1 || i == 2 || i == 3 || i == 4);
}

/// Maps an unbiased bucket in `0..100` onto the published transaction mix.
pub fn transaction_for_bucket(bucket: u8) -> (r: Option<TransactionKind>)
    ensures
        r == kind_of_bucket(bucket as int),
{
    if bucket >= 100 {
        return None;
    }
    proof {
        law_mix_shares(bucket as int);
        lemma_mix_prefixes();
    }
    let mix = TRANSACTION_MIX;
    let mut upper: u8 = 0;
    let mut i: usize = 0;
    while i < 5
        invariant
            i <= 5,
            mix == TRANSACTION_MIX,
            upper == mix_prefix(i as int),
            upper <= bucket < 100,
            mix_prefix(0) == 0,
            mix_prefix(1) == 45,
            mix_prefix(2) == 88,
            mix_prefix(3) == 92,
            mix_prefix(4) == 96,
            mix_prefix(5) == 100,
            kind_of_bucket(bucket as int) == Some(
                if bucket < 45 {
                    TransactionKind::NewOrder
                } else if bucket < 88 {
                    TransactionKind::Payment
                } else if bucket < 92 {
                    TransactionKind::OrderStatus
                } else if bucket < 96 {
                    TransactionKind::Delivery
                } else {
                    TransactionKind::StockLevel
                },
            ),
        decreases 5 - i,
    {
        let (kind, weight) = mix[i];
        assert(i == 0 || i == 1 || i == 2 || i == 3 || i == 4);
        assert(mix_prefix(i as int + 1) == upper + weight);
        upper = upper + weight;
        if bucket < upper {
            return Some(kind);
        }
        i = i + 1;
    }
    None
}

#[derive(Debug, Clone, Copy, PartialEq, Eq, Structural)]
pub enum CoverageScope {
    MeasurementWindow,
    CombinedWindows,
}

#[derive(Debug, Clone, Copy, PartialEq, Eq, Structural)]
pub struct CoverageRequirement {
    pub minimum_distinct_warehouses: u16,
    pub require_all_hot_warehouses: bool,
}

/// Warehouse minimum of a scope with enough samples.
pub open spec fn full_coverage(scope: CoverageScope) -> u16 {
    match scope {
        CoverageScope::MeasurementWindow => WINDOW_WAREHOUSE_COVERAGE,
        CoverageScope::CombinedWindows => COMBINED_WAREHOUSE_COVERAGE,
    }
}

/// The coverage gate: the full minimum from 400 samples on, a proportional
/// share rounded up below.
pub open spec fn coverage_for(scope: CoverageScope, samples: int) -> CoverageRequirement {
    if samples >= COVERAGE_SAMPLE_THRESHOLD {
        CoverageRequirement {
            minimum_distinct_warehouses: full_coverage(scope),
            require_all_hot_warehouses: true,
        }
    } else {
        CoverageRequirement {
            minimum_distinct_warehouses: ((full_coverage(scope) * samples
                + COVERAGE_SAMPLE_THRESHOLD - 1) / COVERAGE_SAMPLE_THRESHOLD as int) as u16,
            require_all_hot_warehouses: false,
        }
    }
}

/// The requirement is the least count whose share of the full minimum is not below
/// the share of samples.
pub proof fn law_coverage_is_ceiling(scope: CoverageScope, samples: int)
    requires
        0 <= samples < COVERAGE_SAMPLE_THRESHOLD,
    ensures
        ({
            let m = coverage_for(scope, samples).minimum_distinct_warehouses as int;
            &&& m * COVERAGE_SAMPLE_THRESHOLD >= full_coverage(scope) * samples
            &&& (m - 1) * COVERAGE_SAMPLE_THRESHOLD < full_coverage(scope) * samples
            &&& m <= full_coverage(scope)
        }),
{
}

/// Returns the public coverage gate for a completed-sample count.
///
/// Below 400 completed samples, the warehouse minimum is scaled with a
/// mathematical ceiling and the hot-warehouse requirement is disabled.
pub fn coverage_requirement(scope: CoverageScope, completed_samples: u64) -> (r:
    CoverageRequirement)
    ensures
        r == coverage_for(scope, completed_samples as int),
{
    let full_minimum: u16 = match scope {
        CoverageScope::MeasurementWindow => WINDOW_WAREHOUSE_COVERAGE,
        CoverageScope::CombinedWindows => COMBINED_WAREHOUSE_COVERAGE,
    };
    if completed_samples >= COVERAGE_SAMPLE_THRESHOLD {
        return CoverageRequirement {
            minimum_distinct_warehouses: full_minimum,
            require_all_hot_warehouses: true,
        };
    }
    assert(full_minimum as int * completed_samples as int <= 50 * 400) by (nonlinear_arith)
        requires
            full_minimum <= 50,
            completed_samples <= 400,
    ;
    let numerator: u128 = full_minimum as u128 * completed_samples as u128;
    let denominator: u128 = COVERAGE_SAMPLE_THRESHOLD as u128;
    let scaled: u128 = (numerator + denominator - 1) / denominator;
    CoverageRequirement {
        minimum_distinct_warehouses: scaled as u16,
        require_all_hot_warehouses: false,
    }
}

#[derive(Debug, Clone, Copy, PartialEq, Eq, Structural)]
pub enum Conformance {
    Official,
    DeviatedSmoke,
}

#[derive(Debug, Clone, Copy, PartialEq, Eq)]
pub struct Deviation {
    pub field: &'static str,
    pub official: u64,
    pub effective: u64,
}

#[derive(Debug, Clone, PartialEq, Eq)]
pub struct Final2026Profile {
    pub warehouses: u16,
    pub clients: u16,
    pub warmup: Duration,
    pub measurement_windows: u8,
    pub measurement_window: Duration,
    pub load_budget: Duration,
    pub recovery_ready_budget: Duration,
    pub deviations: Vec<Deviation>,
}

#[derive(Debug, Clone, Copy, Default, PartialEq, Eq)]
pub struct SmokeOverrides {
    pub warehouses: Option<u16>,
    pub clients: Option<u16>,
    pub warmup_seconds: Option<u64>,
    pub measurement_windows: Option<u8>,
    pub measurement_seconds: Option<u64>,
    pub load_budget_seconds: Option<u64>,
    pub recovery_ready_budget_seconds: Option<u64>,
}

#[derive(Debug, Clone, Copy, PartialEq, Eq)]
pub struct ProfileError {
    field: &'static str,
}

impl ProfileError {
    /// Name of the rejected field.
    pub closed spec fn field_name(self) -> &'static str {
        self.field
    }

    pub fn field(&self) -> (r: &'static str)
        ensures
            r == self.field_name(),
    {
        self.field
    }

    /// Text of the rejection.
    pub fn message(&self) -> (r: String)
        ensures
            r@ == self.field_name()@ + " must be greater than zero"@,
    {
        join2(self.field, " must be greater than zero")
    }
}

/// One overridable value: its name, published value, override, and whether
/// zero is allowed.
pub struct OverrideRow {
    pub field: &'static str,
    pub official: u64,
    pub requested: Option<u64>,
    pub allow_zero: bool,
}

/// The overridable values, in the order in which they are applied.
pub open spec fn override_rows(o: SmokeOverrides) -> Seq<OverrideRow> {
    seq![
        OverrideRow {
            field: "warehouses",
            official: OFFICIAL_WAREHOUSES as u64,
            requested: match o.warehouses {
                Some(v) => Some(v as u64),
                None => None,
            },
            allow_zero: false,
        },
        OverrideRow {
            field: "clients",
            official: OFFICIAL_CLIENTS as u64,
            requested: match o.clients {
                Some(v) => Some(v as u64),
                None => None,
            },
            allow_zero: false,
        },
        OverrideRow {
            field: "warmup_seconds",
            official: WARMUP_SECONDS,
            requested: o.warmup_seconds,
            allow_zero: true,
        },
        OverrideRow {
            field: "measurement_windows",
            official: MEASUREMENT_WINDOWS as u64,
            requested: match o.measurement_windows {
                Some(v) => Some(v as u64),
                None => None,
            },
            allow_zero: false,
        },
        OverrideRow {
            field: "measurement_seconds",
            official: MEASUREMENT_SECONDS,
            requested: o.measurement_seconds,
            allow_zero: false,
        },
        OverrideRow {
            field: "load_budget_seconds",
            official: LOAD_BUDGET_SECONDS,
            requested: o.load_budget_seconds,
            allow_zero: false,
        },
        OverrideRow {
            field: "recovery_ready_budget_seconds",
            official: RECOVERY_READY_BUDGET_SECONDS,
            requested: o.recovery_ready_budget_seconds,
            allow_zero: false,
        },
    ]
}

/// The value in force for a row.
pub open spec fn effective(row: OverrideRow) -> u64 {
    match row.requested {
        Some(v) => v,
        None => row.official,
    }
}

/// Whether a row is rejected.
pub open spec fn rejected(row: OverrideRow) -> bool {
    row.requested == Some(0u64) && !row.allow_zero
}

/// The rows whose effective value differs from the published one, in order.
pub open spec fn deviations_of(rows: Seq<OverrideRow>) -> Seq<Deviation>
    decreases rows.len(),
{
    if rows.len() == 0 {
        Seq::empty()
    } else {
        let before = deviations_of(rows.drop_last());
        let row = rows.last();
        if effective(row) != row.official {
            before.push(
                Deviation {
                    field: row.field,
                    official: row.official,
                    effective: effective(row),
                },
            )
        } else {
            before
        }
    }
}

impl Default for Final2026Profile {
    fn default() -> (r: Self)
        ensures
            r.is_official(),
    {
        Self::official()
    }
}

impl Final2026Profile {
    /// Recorded deviations.
    pub open spec fn deviation_list(&self) -> Seq<Deviation> {
        self.deviations@
    }

    /// Every field holds its published value and nothing deviates.
    pub open spec fn is_official(&self) -> bool {
        &&& self.has_values(override_rows(no_overrides()))
        &&& self.deviation_list() == Seq::<Deviation>::empty()
    }

    /// The fields hold the effective values of the rows.
    pub open spec fn has_values(&self, rows: Seq<OverrideRow>) -> bool {
        &&& self.warehouses == effective(rows[0])
        &&& self.clients == effective(rows[1])
        &&& self.warmup.nanos == effective(rows[2]) * 1_000_000_000
        &&& self.measurement_windows == effective(rows[3])
        &&& self.measurement_window.nanos == effective(rows[4]) * 1_000_000_000
        &&& self.load_budget.nanos == effective(rows[5]) * 1_000_000_000
        &&& self.recovery_ready_budget.nanos == effective(rows[6]) * 1_000_000_000
    }

    pub fn official() -> (r: Self)
        ensures
            r.is_official(),
    {
        Self {
            warehouses: OFFICIAL_WAREHOUSES,
            clients: OFFICIAL_CLIENTS,
            warmup: Duration::from_secs(WARMUP_SECONDS),
            measurement_windows: MEASUREMENT_WINDOWS,
            measurement_window: Duration::from_secs(MEASUREMENT_SECONDS),
            load_budget: Duration::from_secs(LOAD_BUDGET_SECONDS),
            recovery_ready_budget: Duration::from_secs(RECOVERY_READY_BUDGET_SECONDS),
            deviations: Vec::new(),
        }
    }

    /// Applies explicitly unranked smoke-test overrides.
    ///
    /// An override equal to the official value is not a deviation.  Any actual
    /// change makes `conformance()` return `DeviatedSmoke`.
    pub fn smoke(overrides: SmokeOverrides) -> (r: Result<Self, ProfileError>)
        ensures
            match r {
                Ok(profile) => {
                    let rows = override_rows(overrides);
                    &&& forall|i: int| 0 <= i < 7 ==> !rejected(#[trigger] rows[i])
                    &&& profile.has_values(rows)
                    &&& profile.deviation_list() == deviations_of(rows)
                },
                Err(error) => {
                    let rows = override_rows(overrides);
                    exists|i: int|
                        {
                            &&& 0 <= i < 7
                            &&& rejected(#[trigger] rows[i])
                            &&& error.field_name() == rows[i].field
                            &&& forall|j: int| 0 <= j < i ==> !rejected(#[trigger] rows[j])
                        }
                },
            },
    {
        let mut deviations: Vec<Deviation> = Vec::new();
        let ghost rows = override_rows(overrides);
        proof {
            assert(rows.take(0) =~= Seq::empty());
            assert forall|i: int| 0 <= i < 7 implies #[trigger] rows.take(i + 1).drop_last()
                =~= rows.take(i) && rows.take(i + 1).last() == rows[i] by {}
            assert(rows.take(7) =~= rows);
            reveal_with_fuel(deviations_of, 2);
            assert(rows.take(1).drop_last() =~= rows.take(0));
            assert(rows.take(2).drop_last() =~= rows.take(1));
            assert(rows.take(3).drop_last() =~= rows.take(2));
            assert(rows.take(4).drop_last() =~= rows.take(3));
            assert(rows.take(5).drop_last() =~= rows.take(4));
            assert(rows.take(6).drop_last() =~= rows.take(5));
            assert(rows.take(7).drop_last() =~= rows.take(6));
        }
        let warehouses = apply_small_override(
            overrides.warehouses,
            "warehouses",
            OFFICIAL_WAREHOUSES,
            &mut deviations,
        )?;
        assert(deviations@ == deviations_of(rows.take(1)));
        let clients = apply_small_override(
            overrides.clients,
            "clients",
            OFFICIAL_CLIENTS,
            &mut deviations,
        )?;
        assert(deviations@ == deviations_of(rows.take(2)));
        let warmup = apply_override(
            overrides.warmup_seconds,
            "warmup_seconds",
            WARMUP_SECONDS,
            true,
            &mut deviations,
        )?;
        assert(deviations@ == deviations_of(rows.take(3)));
        let requested_windows: Option<u16> = match overrides.measurement_windows {
            Some(v) => Some(v as u16),
            None => None,
        };
        let measurement_windows = apply_small_override(
            requested_windows,
            "measurement_windows",
            MEASUREMENT_WINDOWS as u16,
            &mut deviations,
        )?;
        assert(deviations@ == deviations_of(rows.take(4)));
        let measurement_window = apply_override(
            overrides.measurement_seconds,
            "measurement_seconds",
            MEASUREMENT_SECONDS,
            false,
            &mut deviations,
        )?;
        assert(deviations@ == deviations_of(rows.take(5)));
        let load_budget = apply_override(
            overrides.load_budget_seconds,
            "load_budget_seconds",
            LOAD_BUDGET_SECONDS,
            false,
            &mut deviations,
        )?;
        assert(deviations@ == deviations_of(rows.take(6)));
        let recovery_ready_budget = apply_override(
            overrides.recovery_ready_budget_seconds,
            "recovery_ready_budget_seconds",
            RECOVERY_READY_BUDGET_SECONDS,
            false,
            &mut deviations,
        )?;
        assert(deviations@ == deviations_of(rows.take(7)));
        Ok(
            Self {
                warehouses,
                clients,
                warmup: Duration::from_secs(warmup),
                measurement_windows: measurement_windows as u8,
                measurement_window: Duration::from_secs(measurement_window),
                load_budget: Duration::from_secs(load_budget),
                recovery_ready_budget: Duration::from_secs(recovery_ready_budget),
                deviations,
            },
        )
    }

    pub fn conformance(&self) -> (r: Conformance)
        ensures
            r == if self.deviation_list().len() == 0 {
                Conformance::Official
            } else {
                Conformance::DeviatedSmoke
            },
    {
        if self.deviations.is_empty() {
            Conformance::Official
        } else {
            Conformance::DeviatedSmoke
        }
    }

    pub fn is_ranked_configuration(&self) -> (r: bool)
        ensures
            r == (self.deviation_list().len() == 0),
    {
        self.conformance() == Conformance::Official
    }

    pub fn deviations(&self) -> (r: &[Deviation])
        ensures
            r@ == self.deviation_list(),
    {
        self.deviations.as_slice()
    }
}

/// No override at all.
pub open spec fn no_overrides() -> SmokeOverrides {
    SmokeOverrides {
        warehouses: None,
        clients: None,
        warmup_seconds: None,
        measurement_windows: None,
        measurement_seconds: None,
        load_budget_seconds: None,
        recovery_ready_budget_seconds: None,
    }
}

/// Overrides are never silent: nothing is recorded exactly when every
/// effective value is the published one.
pub proof fn law_deviations_record_every_change(rows: Seq<OverrideRow>)
    ensures
        deviations_of(rows).len() == 0 <==> forall|i: int|
            0 <= i < rows.len() ==> effective(#[trigger] rows[i]) == rows[i].official,
    decreases rows.len(),
{
    if rows.len() > 0 {
        law_deviations_record_every_change(rows.drop_last());
        assert forall|i: int| 0 <= i < rows.len() - 1 implies #[trigger] rows[i]
            == rows.drop_last()[i] by {}
        assert(rows.last() == rows[rows.len() - 1]);
        if deviations_of(rows).len() == 0 {
            assert forall|i: int| 0 <= i < rows.len() implies effective(#[trigger] rows[i])
                == rows[i].official by {
                if i < rows.len() - 1 {
                    assert(rows.drop_last()[i] == rows[i]);
                }
            }
        }
        if forall|i: int|
            0 <= i < rows.len() ==> effective(#[trigger] rows[i]) == rows[i].official {
            assert forall|i: int| 0 <= i < rows.drop_last().len() implies effective(
                #[trigger] rows.drop_last()[i],
            ) == rows.drop_last()[i].official by {
                assert(rows[i] == rows.drop_last()[i]);
            }
        }
    }
}

fn apply_override(
    value: Option<u64>,
    field: &'static str,
    official: u64,
    allow_zero: bool,
    deviations: &mut Vec<Deviation>,
) -> (r: Result<u64, ProfileError>)
    ensures
        ({
            let row = OverrideRow { field, official, requested: value, allow_zero };
            match r {
                Err(error) => rejected(row) && error.field_name() == field,
                Ok(chosen) => {
                    &&& !rejected(row)
                    &&& chosen == effective(row)
                    &&& final(deviations)@ == if effective(row) != official {
                        old(deviations)@.push(
                            Deviation { field, official, effective: effective(row) },
                        )
                    } else {
                        old(deviations)@
                    }
                },
            }
        }),
{
    match value {
        None => Ok(official),
        Some(value) => {
            if value == 0 && !allow_zero {
                return Err(ProfileError { field });
            }
            if value != official {
                deviations.push(Deviation { field, official, effective: value });
            }
            Ok(value)
        },
    }
}

fn apply_small_override(
    value: Option<u16>,
    field: &'static str,
    official: u16,
    deviations: &mut Vec<Deviation>,
) -> (r: Result<u16, ProfileError>)
    ensures
        ({
            let row = OverrideRow {
                field,
                official: official as u64,
                requested: match value {
                    Some(v) => Some(v as u64),
                    None => None,
                },
                allow_zero: false,
            };
            match r {
                Err(error) => rejected(row) && error.field_name() == field,
                Ok(chosen) => {
                    &&& !rejected(row)
                    &&& chosen == effective(row)
                    &&& value matches Some(v) ==> chosen == v
                    &&& value is None ==> chosen == official
                    &&& final(deviations)@ == if effective(row) != official {
                        old(deviations)@.push(
                            Deviation {
                                field,
                                official: official as u64,
                                effective: effective(row),
                            },
                        )
                    } else {
                        old(deviations)@
                    }
                },
            }
        }),
{
    let wide: Option<u64> = match value {
        Some(v) => Some(v as u64),
        None => None,
    };
    let chosen: u64 = apply_override(wide, field, official as u64, false, deviations)?;
    Ok(chosen as u16)
}

} // verus!
