use std::collections::HashMap;

use tpcc_ranking::profile::{
    coverage_requirement, transaction_for_bucket, Conformance, CoverageRequirement, CoverageScope,
    Final2026Profile, SmokeOverrides, TRANSACTION_MIX,
};
use tpcc_ranking::time::Duration;

#[test]
fn official_profile_is_exact_and_ranked() {
    let profile = Final2026Profile::official();
    assert_eq!(profile.warehouses, 50);
    assert_eq!(profile.clients, 32);
    assert_eq!(profile.warmup, Duration::from_secs(30));
    assert_eq!(profile.measurement_windows, 3);
    assert_eq!(profile.measurement_window, Duration::from_secs(150));
    assert_eq!(profile.load_budget, Duration::from_secs(900));
    assert_eq!(profile.recovery_ready_budget, Duration::from_secs(90));
    assert!(profile.is_ranked_configuration());
    assert!(profile.deviations().is_empty());
}

#[test]
fn transaction_buckets_match_the_published_mix_exactly() {
    let mut counts = HashMap::new();
    for bucket in 0..100 {
        *counts
            .entry(transaction_for_bucket(bucket).unwrap())
            .or_insert(0_u8) += 1;
    }
    for (kind, expected) in TRANSACTION_MIX {
        assert_eq!(counts[&kind], expected);
    }
    assert_eq!(transaction_for_bucket(100), None);
}

#[test]
fn coverage_boundary_uses_ceiling_and_only_full_runs_require_hot() {
    assert_eq!(
        coverage_requirement(CoverageScope::MeasurementWindow, 0),
        CoverageRequirement {
            minimum_distinct_warehouses: 0,
            require_all_hot_warehouses: false,
        }
    );
    assert_eq!(
        coverage_requirement(CoverageScope::MeasurementWindow, 1).minimum_distinct_warehouses,
        1
    );
    assert_eq!(
        coverage_requirement(CoverageScope::MeasurementWindow, 200).minimum_distinct_warehouses,
        23
    );
    assert_eq!(
        coverage_requirement(CoverageScope::CombinedWindows, 200).minimum_distinct_warehouses,
        25
    );
    assert!(
        !coverage_requirement(CoverageScope::CombinedWindows, 399).require_all_hot_warehouses
    );
    assert_eq!(
        coverage_requirement(CoverageScope::MeasurementWindow, 400),
        CoverageRequirement {
            minimum_distinct_warehouses: 45,
            require_all_hot_warehouses: true,
        }
    );
    assert_eq!(
        coverage_requirement(CoverageScope::CombinedWindows, 9_999),
        CoverageRequirement {
            minimum_distinct_warehouses: 50,
            require_all_hot_warehouses: true,
        }
    );
}

#[test]
fn smoke_overrides_are_never_silent() {
    let profile = Final2026Profile::smoke(SmokeOverrides {
        clients: Some(2),
        warmup_seconds: Some(0),
        measurement_seconds: Some(1),
        ..SmokeOverrides::default()
    })
    .unwrap();

    assert_eq!(profile.conformance(), Conformance::DeviatedSmoke);
    assert!(!profile.is_ranked_configuration());
    assert_eq!(
        profile
            .deviations()
            .iter()
            .map(|deviation| deviation.field)
            .collect::<Vec<_>>(),
        ["clients", "warmup_seconds", "measurement_seconds"]
    );
}

#[test]
fn invalid_smoke_override_is_rejected() {
    let error = Final2026Profile::smoke(SmokeOverrides {
        clients: Some(0),
        ..SmokeOverrides::default()
    })
    .unwrap_err();
    assert_eq!(error.field(), "clients");
}

#[test]
fn bucket_edges_follow_the_order_of_the_mix() {
    let mut start = 0;
    for (kind, share) in TRANSACTION_MIX {
        assert_eq!(transaction_for_bucket(start), Some(kind));
        assert_eq!(transaction_for_bucket(start + share - 1), Some(kind));
        start += share;
    }
    assert_eq!(start, 100);
    assert_eq!(transaction_for_bucket(255), None);
}

#[test]
fn refused_override_says_which_field() {
    let error = Final2026Profile::smoke(SmokeOverrides {
        measurement_windows: Some(0),
        ..SmokeOverrides::default()
    })
    .unwrap_err();
    assert_eq!(error.message(), "measurement_windows must be greater than zero");
}

#[test]
fn override_with_the_official_value_is_no_deviation() {
    let profile = Final2026Profile::smoke(SmokeOverrides {
        clients: Some(32),
        ..SmokeOverrides::default()
    })
    .unwrap();
    assert!(profile.deviations().is_empty());
}
