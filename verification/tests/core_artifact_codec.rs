use tpcc_ranking::consistency::{CustomerLogicalVersion, CustomerUpdateEndpoint};
use tpcc_ranking::ranking::bounded_stats::BoundedPhysicalStats;
use tpcc_ranking::ranking::canonical::{
    section_reader, section_writer, CanonicalReader, CanonicalWriter, CoreCodecError,
    IntervalError, SectionKind,
};
use tpcc_ranking::ranking::canonical_hex::{decode_lower_hex, encode_lower_hex};
use tpcc_ranking::ranking::core_artifact_codec::{
    decode_physical_stats_section, encode_physical_stats_section,
    MAX_PHYSICAL_STATS_SECTION_BYTES,
};
use tpcc_ranking::ranking::customer_chain::CustomerKey;
use tpcc_ranking::ranking::interval_restore::decode_interval_sections;
use tpcc_ranking::ranking::interval_sections::{
    decode_customer_interval_section, decode_stock_interval_section,
    encode_customer_interval_section, encode_stock_interval_section, CanonicalCustomerChain,
    CanonicalRejectedSample, CanonicalStockChain, IntervalMetadata, SampledIntervalEvidence,
    MAX_INTERVAL_SAMPLES, MAX_STOCK_INTERVAL_SECTION_BYTES,
};
use tpcc_ranking::ranking::runner::StockVersion;
use tpcc_ranking::ranking::stock_chain::StockKey;

const TEST_LOAD_SEED: u64 = 0x10ad_2026;
const TEST_SAMPLE_SEED: u64 = 0x5a6d_2026;

#[test]
fn primitive_codec_is_little_endian_and_strictly_consumed() {
    let mut writer = CanonicalWriter::new(19);
    writer.put_u8(0x12).unwrap();
    writer.put_u16(0x3456).unwrap();
    writer.put_u32(0x789a_bcde).unwrap();
    writer.put_i32(-2).unwrap();
    writer.put_u64(0x0102_0304_0506_0708).unwrap();
    let encoded = writer.finish();
    assert_eq!(
        encoded,
        [
            0x12, 0x56, 0x34, 0xde, 0xbc, 0x9a, 0x78, 0xfe, 0xff, 0xff, 0xff, 0x08, 0x07, 0x06,
            0x05, 0x04, 0x03, 0x02, 0x01,
        ]
    );

    let mut reader = CanonicalReader::new(&encoded);
    assert_eq!(reader.get_u8().unwrap(), 0x12);
    assert_eq!(reader.get_u16().unwrap(), 0x3456);
    assert_eq!(reader.get_u32().unwrap(), 0x789a_bcde);
    assert_eq!(reader.get_i32().unwrap(), -2);
    assert_eq!(reader.get_u64().unwrap(), 0x0102_0304_0506_0708);
    reader.finish().unwrap();
}

#[test]
fn primitive_codec_rejects_limit_truncation_and_trailing_bytes() {
    let mut writer = CanonicalWriter::new(1);
    assert!(writer.put_u16(1).is_err());

    let mut truncated = CanonicalReader::new(&[1, 2, 3]);
    assert!(matches!(
        truncated.get_u32(),
        Err(CoreCodecError::Truncated)
    ));

    let trailing = CanonicalReader::new(&[1]);
    assert!(matches!(
        trailing.finish(),
        Err(CoreCodecError::TrailingBytes { remaining: 1 })
    ));
}

#[test]
fn lower_hex_is_canonical_and_bounded_before_allocation() {
    let bytes = [0x00, 0x1f, 0xa5, 0xff];
    let encoded = encode_lower_hex(&bytes, bytes.len()).unwrap();
    assert_eq!(encoded, "001fa5ff");
    assert_eq!(decode_lower_hex(&encoded, bytes.len()).unwrap(), bytes);
    assert!(matches!(
        decode_lower_hex("001FA5FF", bytes.len()),
        Err(CoreCodecError::InvalidHexDigit)
    ));
    assert!(matches!(
        decode_lower_hex("0", bytes.len()),
        Err(CoreCodecError::InvalidHexLength)
    ));
    assert!(matches!(
        decode_lower_hex("0000", 1),
        Err(CoreCodecError::InvalidHexLength)
    ));
}

#[test]
fn section_header_rejects_unknown_kind_version_and_magic() {
    let valid = section_writer(SectionKind::PhysicalStats, 32)
        .unwrap()
        .finish();
    section_reader(&valid, SectionKind::PhysicalStats, 32).unwrap();

    let mut wrong_kind = valid.clone();
    wrong_kind[4] = 0xff;
    assert!(matches!(
        section_reader(&wrong_kind, SectionKind::PhysicalStats, 32),
        Err(CoreCodecError::UnexpectedSection { actual: 0xff, .. })
    ));

    let mut wrong_version = valid.clone();
    wrong_version[5..7].copy_from_slice(&2_u16.to_le_bytes());
    assert!(matches!(
        section_reader(&wrong_version, SectionKind::PhysicalStats, 32),
        Err(CoreCodecError::UnsupportedSectionVersion { actual: 2 })
    ));

    let mut wrong_magic = valid;
    wrong_magic[0] ^= 1;
    assert!(matches!(
        section_reader(&wrong_magic, SectionKind::PhysicalStats, 32),
        Err(CoreCodecError::InvalidMagic)
    ));
}

#[test]
fn physical_stats_section_round_trips_and_reencodes_identically() {
    let mut stats = BoundedPhysicalStats::default();
    stats.classes[0].payment_commits = 1;
    stats.payment_history_amounts[0]
        .add_bits(1.25_f32.to_bits())
        .unwrap();
    stats.validate().unwrap();

    let encoded = encode_physical_stats_section(&stats).unwrap();
    let restored = decode_physical_stats_section(&encoded).unwrap();
    assert_eq!(restored, stats);
    assert_eq!(encode_physical_stats_section(&restored).unwrap(), encoded);
}

#[test]
fn physical_stats_decoder_rejects_truncation_trailing_and_oversize() {
    let encoded = encode_physical_stats_section(&BoundedPhysicalStats::default()).unwrap();
    for end in [0, 1, 6, encoded.len() / 2, encoded.len() - 1] {
        assert!(
            decode_physical_stats_section(&encoded[..end]).is_err(),
            "accepted truncation at {end}"
        );
    }

    let mut trailing = encoded;
    trailing.push(0);
    assert!(matches!(
        decode_physical_stats_section(&trailing),
        Err(CoreCodecError::TrailingBytes { remaining: 1 })
    ));
    assert!(matches!(
        decode_physical_stats_section(&vec![0; MAX_PHYSICAL_STATS_SECTION_BYTES + 1]),
        Err(CoreCodecError::OversizedSection { .. })
    ));
}

#[test]
fn interval_sections_round_trip_and_reencode_identically() {
    let intervals = sample_intervals();
    let customers = encode_customer_interval_section(&intervals).unwrap();
    let stocks = encode_stock_interval_section(&intervals).unwrap();
    let restored = decode_interval_sections(&customers, &stocks, &loaded(TEST_LOAD_SEED)).unwrap();
    assert_eq!(
        encode_customer_interval_section(&restored).unwrap(),
        customers
    );
    assert_eq!(encode_stock_interval_section(&restored).unwrap(), stocks);
}

#[test]
fn interval_decoders_reject_unknown_truncated_trailing_and_oversized_sections() {
    let intervals = sample_intervals();
    let customers = encode_customer_interval_section(&intervals).unwrap();
    let stocks = encode_stock_interval_section(&intervals).unwrap();

    for end in [0, 1, 6, customers.len() - 1] {
        assert!(decode_customer_interval_section(&customers[..end]).is_err());
    }
    for end in [0, 1, 6, stocks.len() - 1] {
        assert!(decode_stock_interval_section(&stocks[..end]).is_err());
    }

    let mut customer_trailing = customers.clone();
    customer_trailing.push(0);
    assert!(matches!(
        decode_customer_interval_section(&customer_trailing),
        Err(CoreCodecError::TrailingBytes { remaining: 1 })
    ));
    let mut stock_trailing = stocks;
    stock_trailing.push(0);
    assert!(matches!(
        decode_stock_interval_section(&stock_trailing),
        Err(CoreCodecError::TrailingBytes { remaining: 1 })
    ));

    let mut unknown = customers;
    unknown[4] = 0xff;
    assert!(matches!(
        decode_customer_interval_section(&unknown),
        Err(CoreCodecError::UnexpectedSection { actual: 0xff, .. })
    ));
    assert!(matches!(
        decode_stock_interval_section(&vec![0; MAX_STOCK_INTERVAL_SECTION_BYTES + 1]),
        Err(CoreCodecError::OversizedSection { .. })
    ));
}

#[test]
fn interval_decoders_cap_counts_before_allocating_and_reject_bad_flags() {
    let intervals = sample_intervals();
    let mut customers = encode_customer_interval_section(&intervals).unwrap();
    // Header (7), metadata (14), update count (8), absent witness (1).
    customers[30..34].copy_from_slice(&(MAX_INTERVAL_SAMPLES + 1).to_le_bytes());
    assert!(matches!(
        decode_customer_interval_section(&customers),
        Err(CoreCodecError::OversizedCount {
            field: "customer interval samples",
            ..
        })
    ));

    let mut stocks = encode_stock_interval_section(&intervals).unwrap();
    stocks[29] = 2;
    assert!(matches!(
        decode_stock_interval_section(&stocks),
        Err(CoreCodecError::InvalidPresenceFlag {
            field: "Stock rejected sample",
            actual: 2,
        })
    ));
}

#[test]
fn interval_restore_binds_common_metadata_and_generated_stock_roots() {
    let intervals = sample_intervals();
    let customers = encode_customer_interval_section(&intervals).unwrap();
    let mut stocks = encode_stock_interval_section(&intervals).unwrap();
    // Header (7), warehouses (2), then sample_seed.
    stocks[9] ^= 1;
    assert!(matches!(
        decode_interval_sections(&customers, &stocks, &loaded(TEST_LOAD_SEED)),
        Err(CoreCodecError::MismatchedIntervalMetadata("sample seed"))
    ));

    let stocks = encode_stock_interval_section(&intervals).unwrap();
    let expected_quantity =
        initial_stock_quantity(TEST_LOAD_SEED, 1);
    let wrong_seed = (TEST_LOAD_SEED + 1..)
        .find(|seed| {
            initial_stock_quantity(*seed, 1) != expected_quantity
        })
        .unwrap();
    assert!(matches!(
        decode_interval_sections(&customers, &stocks, &loaded(wrong_seed)),
        Err(CoreCodecError::InvalidIntervals(
            IntervalError::StockRootMismatch { .. }
        ))
    ));
}

#[test]
fn interval_restore_rejects_reordered_and_duplicate_canonical_entries() {
    let intervals = sample_intervals();
    let customers = encode_customer_interval_section(&intervals).unwrap();
    let stocks = encode_stock_interval_section(&intervals).unwrap();
    // With no rejected witness the two fixed-size Customer entries begin
    // after 34 bytes and occupy 36 bytes each.
    let mut reordered = customers.clone();
    let first = reordered[34..70].to_vec();
    let second = reordered[70..106].to_vec();
    reordered[34..70].copy_from_slice(&second);
    reordered[70..106].copy_from_slice(&first);
    assert!(matches!(
        decode_interval_sections(&reordered, &stocks, &loaded(TEST_LOAD_SEED)),
        Err(CoreCodecError::InvalidIntervals(
            IntervalError::NonCanonicalSampleOrder { domain: "customer" }
        ))
    ));

    let mut duplicate = customers;
    let first = duplicate[34..70].to_vec();
    duplicate[70..106].copy_from_slice(&first);
    assert!(matches!(
        decode_interval_sections(&duplicate, &stocks, &loaded(TEST_LOAD_SEED)),
        Err(CoreCodecError::InvalidIntervals(
            IntervalError::NonCanonicalSampleOrder { domain: "customer" }
        ))
    ));
}

/// The quantity that a stock row of the only warehouse is loaded with.
fn initial_stock_quantity(seed: u64, item_id: i32) -> i32 {
    let mixed = (seed ^ item_id as u64).wrapping_mul(0x9e37_79b9_7f4a_7c15);
    10 + (mixed >> 40) as i32 % 91
}

fn loaded(seed: u64) -> Vec<i32> {
    (1..=100).map(|item_id| initial_stock_quantity(seed, item_id)).collect()
}

fn sample_intervals() -> SampledIntervalEvidence {
    let customers = [1, 2].map(|customer_id| CanonicalCustomerChain {
        key: CustomerKey {
            warehouse_id: 1,
            district_id: 1,
            customer_id,
        },
        sample_rank: TEST_SAMPLE_SEED + customer_id as u64,
        endpoint: CustomerUpdateEndpoint {
            version: CustomerLogicalVersion {
                payment_count: 2,
                delivery_count: 0,
            },
            balance_bits: (-11.0_f32).to_bits(),
            ytd_payment_bits: 11.0_f32.to_bits(),
        },
    });
    let stocks = [1, 2].map(|item_id| {
        let initial_quantity = initial_stock_quantity(TEST_LOAD_SEED, item_id);
        let initial = StockVersion {
            quantity: initial_quantity,
            ytd_bits: 0.0_f32.to_bits(),
            order_count: 0,
            remote_count: 0,
        };
        let endpoint = StockVersion {
            quantity: if initial_quantity >= 11 {
                initial_quantity - 1
            } else {
                initial_quantity + 90
            },
            ytd_bits: 1.0_f32.to_bits(),
            order_count: 1,
            remote_count: 0,
        };
        CanonicalStockChain {
            key: StockKey {
                warehouse_id: 1,
                item_id,
            },
            sample_rank: 7,
            initial,
            endpoint,
        }
    });
    SampledIntervalEvidence {
        metadata: IntervalMetadata {
            warehouses: 1,
            sample_seed: TEST_SAMPLE_SEED,
            policy_version: 1,
        },
        customer_update_count: 2,
        stock_update_count: 2,
        customer_rejected: None,
        stock_rejected: None,
        customers: customers.to_vec(),
        stocks: stocks.to_vec(),
    }
}

#[test]
fn rejected_samples_survive_both_sections() {
    let mut intervals = sample_intervals();
    intervals.customer_rejected = Some(CanonicalRejectedSample { rank: 99, key_index: 5 });
    intervals.stock_rejected = Some(CanonicalRejectedSample { rank: u64::MAX, key_index: 0 });
    let customers = encode_customer_interval_section(&intervals).unwrap();
    let stocks = encode_stock_interval_section(&intervals).unwrap();
    assert_eq!(
        decode_interval_sections(&customers, &stocks, &loaded(TEST_LOAD_SEED)).unwrap(),
        intervals
    );
}

#[test]
fn too_many_samples_are_not_written() {
    let mut intervals = sample_intervals();
    let entry = intervals.customers[0];
    intervals.customers = vec![entry; 65];
    assert_eq!(
        encode_customer_interval_section(&intervals).unwrap_err(),
        CoreCodecError::OversizedCount {
            field: "customer interval samples",
            actual: 65,
            maximum: 64,
        }
    );
}

#[test]
fn inconsistent_statistics_are_neither_written_nor_read() {
    let mut stats = BoundedPhysicalStats::default();
    stats.classes[0].payment_commits = 1;
    let error = encode_physical_stats_section(&stats).unwrap_err();
    assert!(matches!(error, CoreCodecError::InvalidPhysicalStats(_)));

    let mut encoded =
        encode_physical_stats_section(&BoundedPhysicalStats::default()).unwrap();
    // The second counter of the first class.
    encoded[15] = 1;
    assert!(matches!(
        decode_physical_stats_section(&encoded),
        Err(CoreCodecError::InvalidPhysicalStats(_))
    ));
    let mut long = encode_physical_stats_section(&BoundedPhysicalStats::default()).unwrap();
    // The word count of the first sum.
    long[7 + 16_864 + 8] = 7;
    let error = decode_physical_stats_section(&long).unwrap_err();
    assert_eq!(
        error.message(),
        "Payment/history amount count 7 exceeds the canonical limit 6"
    );
}

#[test]
fn sections_of_different_runs_do_not_join() {
    let intervals = sample_intervals();
    let customers = encode_customer_interval_section(&intervals).unwrap();
    let mut other = sample_intervals();
    other.metadata.policy_version = 2;
    let stocks = encode_stock_interval_section(&other).unwrap();
    assert_eq!(
        decode_interval_sections(&customers, &stocks, &loaded(TEST_LOAD_SEED))
            .unwrap_err()
            .message(),
        "customer and Stock interval sections disagree on sample policy version"
    );
}

#[test]
fn nothing_may_follow_a_section_of_statistics() {
    let section = encode_physical_stats_section(&BoundedPhysicalStats::default()).unwrap();
    let mut longer = section.clone();
    longer.extend_from_slice(&[1, 2, 3, 4, 5]);
    assert!(matches!(
        decode_physical_stats_section(&longer),
        Err(CoreCodecError::TrailingBytes { remaining: 5 })
    ));
    longer.resize(MAX_PHYSICAL_STATS_SECTION_BYTES + 3, 0);
    assert!(matches!(
        decode_physical_stats_section(&longer),
        Err(CoreCodecError::OversizedSection { actual, .. })
            if actual == MAX_PHYSICAL_STATS_SECTION_BYTES + 3
    ));
    for end in (0..section.len()).step_by(997) {
        assert!(decode_physical_stats_section(&section[..end]).is_err());
    }
}
