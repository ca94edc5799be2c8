//! The texts of the failures of the statistics, the collectors and the codec.
use vstd::prelude::*;

use crate::accumulator::FloatError;
use crate::ranking::bounded_totals::BoundedStatsError;
use crate::ranking::canonical::{CoreCodecError, IntervalError};
use crate::ranking::common::hex8;
use crate::ranking::interval_pending::CollectorError;
use crate::ranking::payment_endpoints::PaymentEndpointError;
use crate::text::{
    decimal, hex_digits, join2, join3, join4, join5, join6, signed_decimal, signed_text,
    unsigned_text,
};

verus! {

/// The text of a refused amount or sum.
pub open spec fn float_error_text(e: FloatError) -> Seq<char> {
    match e {
        FloatError::NonFinite { bits } => "non-finite FLOAT32 0x"@ + hex_digits(bits as nat, 8),
        FloatError::Negative { bits } => "negative FLOAT32 0x"@ + hex_digits(bits as nat, 8),
        FloatError::TermLimit => "too many terms"@,
        FloatError::InvalidWords => "invalid accumulator words"@,
        FloatError::Overflow => "sum beyond the finite range"@,
    }
}

impl FloatError {
    /// The text of the failure.
    pub fn message(&self) -> (r: String)
        ensures
            r@ == float_error_text(*self),
    {
        match self {
            FloatError::NonFinite { bits } => join2("non-finite FLOAT32 0x", hex8(*bits).as_str()),
            FloatError::Negative { bits } => join2("negative FLOAT32 0x", hex8(*bits).as_str()),
            FloatError::TermLimit => "too many terms".to_owned(),
            FloatError::InvalidWords => "invalid accumulator words".to_owned(),
            FloatError::Overflow => "sum beyond the finite range".to_owned(),
        }
    }
}

/// The text of refused statistics.
pub open spec fn stats_error_text(e: BoundedStatsError) -> Seq<char> {
    match e {
        BoundedStatsError::InvalidEvidence(what) => "invalid bounded physical evidence: "@ + what@,
        BoundedStatsError::InvalidPartitionKey { warehouse_id, district_id } =>
            "partition key is outside the final 50x10 domain: ("@
                + signed_decimal(warehouse_id as int) + ", "@ + signed_decimal(district_id as int)
                + ")"@,
        BoundedStatsError::Overflow(what) => "bounded physical counter overflow: "@ + what@,
        BoundedStatsError::InvalidFloatBits { field, bits } =>
            "invalid FLOAT32 bits for "@ + field@ + ": 0x"@ + hex_digits(bits as nat, 8),
        BoundedStatsError::Inconsistent(what) =>
            "inconsistent bounded physical evidence: "@ + what@,
        BoundedStatsError::Float { field, source } =>
            "cannot accumulate "@ + field@ + ": "@ + float_error_text(source),
    }
}

impl BoundedStatsError {
    /// The text of the failure.
    pub fn message(&self) -> (r: String)
        ensures
            r@ == stats_error_text(*self),
    {
        match self {
            BoundedStatsError::InvalidEvidence(what) => join2(
                "invalid bounded physical evidence: ",
                what,
            ),
            BoundedStatsError::InvalidPartitionKey { warehouse_id, district_id } => join5(
                "partition key is outside the final 50x10 domain: (",
                signed_text(*warehouse_id as i64).as_str(),
                ", ",
                signed_text(*district_id as i64).as_str(),
                ")",
            ),
            BoundedStatsError::Overflow(what) => join2("bounded physical counter overflow: ", what),
            BoundedStatsError::InvalidFloatBits { field, bits } => join4(
                "invalid FLOAT32 bits for ",
                field,
                ": 0x",
                hex8(*bits).as_str(),
            ),
            BoundedStatsError::Inconsistent(what) => join2(
                "inconsistent bounded physical evidence: ",
                what,
            ),
            BoundedStatsError::Float { field, source } => join4(
                "cannot accumulate ",
                field,
                ": ",
                source.message().as_str(),
            ),
        }
    }
}

/// An optional district in a message.
pub open spec fn district_text(district_id: Option<u8>) -> Seq<char> {
    match district_id {
        None => "None"@,
        Some(id) => "Some("@ + decimal(id as nat) + ")"@,
    }
}

fn describe_district(district_id: Option<u8>) -> (r: String)
    ensures
        r@ == district_text(district_id),
{
    match district_id {
        None => "None".to_owned(),
        Some(id) => join3("Some(", unsigned_text(id as u64).as_str(), ")"),
    }
}

/// The text of a refused Payment.
pub open spec fn payment_error_text(e: PaymentEndpointError) -> Seq<char> {
    match e {
        PaymentEndpointError::InvalidConfiguration(what) =>
            "invalid Payment endpoint configuration: "@ + what@,
        PaymentEndpointError::InvalidKey { warehouse_id, district_id } =>
            "invalid Payment endpoint key: warehouse "@ + decimal(warehouse_id as nat)
                + ", district "@ + district_text(district_id),
        PaymentEndpointError::NonFinite { domain, field } =>
            domain@ + " "@ + field@ + " is not a finite binary32 value"@,
        PaymentEndpointError::NonPositiveAmount { domain } =>
            domain@ + " Payment amount must be positive"@,
        PaymentEndpointError::PairedAmountMismatch =>
            "paired Warehouse and District Payment amounts differ"@,
        PaymentEndpointError::FloatMismatch { domain } =>
            domain@ + " relative update is not bit-exact binary32 RNE"@,
        PaymentEndpointError::StaleInterval { domain } =>
            domain@ + " interval starts behind the sealed reorder frontier"@,
        PaymentEndpointError::Fork { domain } =>
            domain@ + " has more than one forward interval from the same predecessor"@,
        PaymentEndpointError::PendingLimit { actual, limit } =>
            "Payment pending edge limit exceeded: "@ + decimal(actual as nat) + " > "@
                + decimal(limit as nat),
        PaymentEndpointError::Overflow(what) => "Payment endpoint counter overflow: "@ + what@,
        PaymentEndpointError::Disconnected { pending_edges } =>
            "Payment evidence has no common rooted terminal order ("@
                + decimal(pending_edges as nat) + " pending edges)"@,
        PaymentEndpointError::Poisoned => "Payment endpoint collector is poisoned"@,
        PaymentEndpointError::InvalidInvariant(what) =>
            "invalid sealed Payment endpoint invariant: "@ + what@,
    }
}

impl PaymentEndpointError {
    /// The text of the failure.
    pub fn message(&self) -> (r: String)
        ensures
            r@ == payment_error_text(*self),
    {
        match self {
            PaymentEndpointError::InvalidConfiguration(what) => join2(
                "invalid Payment endpoint configuration: ",
                what,
            ),
            PaymentEndpointError::InvalidKey { warehouse_id, district_id } => join4(
                "invalid Payment endpoint key: warehouse ",
                unsigned_text(*warehouse_id as u64).as_str(),
                ", district ",
                describe_district(*district_id).as_str(),
            ),
            PaymentEndpointError::NonFinite { domain, field } => join4(
                domain,
                " ",
                field,
                " is not a finite binary32 value",
            ),
            PaymentEndpointError::NonPositiveAmount { domain } => join2(
                domain,
                " Payment amount must be positive",
            ),
            PaymentEndpointError::PairedAmountMismatch => {
                "paired Warehouse and District Payment amounts differ".to_owned()
            },
            PaymentEndpointError::FloatMismatch { domain } => join2(
                domain,
                " relative update is not bit-exact binary32 RNE",
            ),
            PaymentEndpointError::StaleInterval { domain } => join2(
                domain,
                " interval starts behind the sealed reorder frontier",
            ),
            PaymentEndpointError::Fork { domain } => join2(
                domain,
                " has more than one forward interval from the same predecessor",
            ),
            PaymentEndpointError::PendingLimit { actual, limit } => join4(
                "Payment pending edge limit exceeded: ",
                unsigned_text(*actual as u64).as_str(),
                " > ",
                unsigned_text(*limit as u64).as_str(),
            ),
            PaymentEndpointError::Overflow(what) => join2(
                "Payment endpoint counter overflow: ",
                what,
            ),
            PaymentEndpointError::Disconnected { pending_edges } => join3(
                "Payment evidence has no common rooted terminal order (",
                unsigned_text(*pending_edges as u64).as_str(),
                " pending edges)",
            ),
            PaymentEndpointError::Poisoned => "Payment endpoint collector is poisoned".to_owned(),
            PaymentEndpointError::InvalidInvariant(what) => join2(
                "invalid sealed Payment endpoint invariant: ",
                what,
            ),
        }
    }
}

/// The text of refused samples.
pub open spec fn interval_error_text(e: IntervalError) -> Seq<char> {
    match e {
        IntervalError::NonCanonicalSampleOrder { domain } =>
            domain@ + " samples are not in canonical order"@,
        IntervalError::StockRootMismatch { warehouse_id, item_id } =>
            "stock ("@ + signed_decimal(warehouse_id as int) + ", "@
                + signed_decimal(item_id as int) + ") does not start at the loaded row"@,
    }
}

impl IntervalError {
    /// The text of the failure.
    pub fn message(&self) -> (r: String)
        ensures
            r@ == interval_error_text(*self),
    {
        match self {
            IntervalError::NonCanonicalSampleOrder { domain } => join2(
                domain,
                " samples are not in canonical order",
            ),
            IntervalError::StockRootMismatch { warehouse_id, item_id } => join5(
                "stock (",
                signed_text(*warehouse_id as i64).as_str(),
                ", ",
                signed_text(*item_id as i64).as_str(),
                ") does not start at the loaded row",
            ),
        }
    }
}

/// The text of refused bytes or values.
pub open spec fn codec_error_text(e: CoreCodecError) -> Seq<char> {
    match e {
        CoreCodecError::OversizedSection { section, actual, maximum } =>
            section@ + " section is oversized: "@ + decimal(actual as nat) + " bytes exceeds "@
                + decimal(maximum as nat),
        CoreCodecError::WriterLimit { maximum } =>
            "canonical section writer exceeded its "@ + decimal(maximum as nat) + "-byte limit"@,
        CoreCodecError::Truncated => "canonical section is truncated"@,
        CoreCodecError::InvalidMagic => "canonical section has invalid magic"@,
        CoreCodecError::UnexpectedSection { expected, actual } =>
            "canonical section kind "@ + decimal(actual as nat) + " is not the expected "@
                + expected@,
        CoreCodecError::UnsupportedSectionVersion { actual } =>
            "unsupported canonical section version "@ + decimal(actual as nat),
        CoreCodecError::TrailingBytes { remaining } =>
            "canonical section has "@ + decimal(remaining as nat) + " trailing bytes"@,
        CoreCodecError::OversizedCount { field, actual, maximum } =>
            field@ + " count "@ + decimal(actual as nat) + " exceeds the canonical limit "@
                + decimal(maximum as nat),
        CoreCodecError::InvalidHexLength => "canonical lower-hex input is odd-length or oversized"@,
        CoreCodecError::InvalidHexDigit =>
            "canonical lower-hex input contains a non-lowercase-hex byte"@,
        CoreCodecError::InvalidPhysicalStats(source) =>
            "invalid canonical bounded physical statistics: "@ + stats_error_text(source),
        CoreCodecError::InvalidAccumulator { field, source } =>
            "invalid canonical "@ + field@ + " accumulator: "@ + float_error_text(source),
        CoreCodecError::InvalidIntervals(source) =>
            "invalid canonical interval evidence: "@ + interval_error_text(source),
        CoreCodecError::MismatchedIntervalMetadata(what) =>
            "customer and Stock interval sections disagree on "@ + what@,
        CoreCodecError::InvalidPresenceFlag { field, actual } =>
            "canonical "@ + field@ + " presence flag has invalid value "@ + decimal(actual as nat),
    }
}

impl CoreCodecError {
    /// The text of the failure.
    pub fn message(&self) -> (r: String)
        ensures
            r@ == codec_error_text(*self),
    {
        match self {
            CoreCodecError::OversizedSection { section, actual, maximum } => join5(
                section,
                " section is oversized: ",
                unsigned_text(*actual as u64).as_str(),
                " bytes exceeds ",
                unsigned_text(*maximum as u64).as_str(),
            ),
            CoreCodecError::WriterLimit { maximum } => join3(
                "canonical section writer exceeded its ",
                unsigned_text(*maximum as u64).as_str(),
                "-byte limit",
            ),
            CoreCodecError::Truncated => "canonical section is truncated".to_owned(),
            CoreCodecError::InvalidMagic => "canonical section has invalid magic".to_owned(),
            CoreCodecError::UnexpectedSection { expected, actual } => join4(
                "canonical section kind ",
                unsigned_text(*actual as u64).as_str(),
                " is not the expected ",
                expected,
            ),
            CoreCodecError::UnsupportedSectionVersion { actual } => join2(
                "unsupported canonical section version ",
                unsigned_text(*actual as u64).as_str(),
            ),
            CoreCodecError::TrailingBytes { remaining } => join3(
                "canonical section has ",
                unsigned_text(*remaining as u64).as_str(),
                " trailing bytes",
            ),
            CoreCodecError::OversizedCount { field, actual, maximum } => join5(
                field,
                " count ",
                unsigned_text(*actual as u64).as_str(),
                " exceeds the canonical limit ",
                unsigned_text(*maximum as u64).as_str(),
            ),
            CoreCodecError::InvalidHexLength => {
                "canonical lower-hex input is odd-length or oversized".to_owned()
            },
            CoreCodecError::InvalidHexDigit => {
                "canonical lower-hex input contains a non-lowercase-hex byte".to_owned()
            },
            CoreCodecError::InvalidPhysicalStats(source) => join2(
                "invalid canonical bounded physical statistics: ",
                source.message().as_str(),
            ),
            CoreCodecError::InvalidAccumulator { field, source } => join4(
                "invalid canonical ",
                field,
                " accumulator: ",
                source.message().as_str(),
            ),
            CoreCodecError::InvalidIntervals(source) => join2(
                "invalid canonical interval evidence: ",
                source.message().as_str(),
            ),
            CoreCodecError::MismatchedIntervalMetadata(what) => join2(
                "customer and Stock interval sections disagree on ",
                what,
            ),
            CoreCodecError::InvalidPresenceFlag { field, actual } => join4(
                "canonical ",
                field,
                " presence flag has invalid value ",
                unsigned_text(*actual as u64).as_str(),
            ),
        }
    }
}

/// The text of refused evidence.
pub open spec fn collector_error_text(e: CollectorError) -> Seq<char> {
    match e {
        CollectorError::InvalidConfiguration(what) => "invalid collector configuration: "@ + what@,
        CollectorError::InvalidKey(key) => "invalid evidence key: "@ + key@,
        CollectorError::InvalidCustomerEdge(what) => "invalid customer edge: "@ + what@,
        CollectorError::InvalidStockEdge(what) => "invalid stock edge: "@ + what@,
        CollectorError::BoundaryMismatch(what) =>
            what@ + " boundary does not join the rooted version chain"@,
        CollectorError::FloatMismatch(what) =>
            what@ + " FLOAT32 evidence differs by at least one bit"@,
        CollectorError::NonFinite { field, bits } =>
            field@ + " is non-finite FLOAT32 0x"@ + hex_digits(bits as nat, 8),
        CollectorError::DuplicatePredecessor { domain, predecessor } =>
            domain@ + " chain has duplicate or stale predecessor "@
                + signed_decimal(predecessor as int),
        CollectorError::Disconnected { domain, key, pending } =>
            domain@ + " chain "@ + key@ + " has "@ + decimal(pending as nat)
                + " disconnected interval(s)"@,
        CollectorError::PendingLimit { actual, limit } =>
            "pending interval safety limit exceeded: "@ + decimal(actual as nat) + " > "@
                + decimal(limit as nat),
        CollectorError::Overflow(what) => "collector counter overflow: "@ + what@,
    }
}

impl CollectorError {
    /// The text of the failure.
    pub fn message(&self) -> (r: String)
        ensures
            r@ == collector_error_text(*self),
    {
        match self {
            CollectorError::InvalidConfiguration(what) => join2(
                "invalid collector configuration: ",
                what,
            ),
            CollectorError::InvalidKey(key) => join2("invalid evidence key: ", key.as_str()),
            CollectorError::InvalidCustomerEdge(what) => join2("invalid customer edge: ", what),
            CollectorError::InvalidStockEdge(what) => join2("invalid stock edge: ", what),
            CollectorError::BoundaryMismatch(what) => join2(
                what,
                " boundary does not join the rooted version chain",
            ),
            CollectorError::FloatMismatch(what) => join2(
                what,
                " FLOAT32 evidence differs by at least one bit",
            ),
            CollectorError::NonFinite { field, bits } => join3(
                field,
                " is non-finite FLOAT32 0x",
                hex8(*bits).as_str(),
            ),
            CollectorError::DuplicatePredecessor { domain, predecessor } => join3(
                domain,
                " chain has duplicate or stale predecessor ",
                signed_text(*predecessor as i64).as_str(),
            ),
            CollectorError::Disconnected { domain, key, pending } => join6(
                domain,
                " chain ",
                key.as_str(),
                " has ",
                unsigned_text(*pending as u64).as_str(),
                " disconnected interval(s)",
            ),
            CollectorError::PendingLimit { actual, limit } => join4(
                "pending interval safety limit exceeded: ",
                unsigned_text(*actual as u64).as_str(),
                " > ",
                unsigned_text(*limit as u64).as_str(),
            ),
            CollectorError::Overflow(what) => join2("collector counter overflow: ", what),
        }
    }
}

} // verus!
