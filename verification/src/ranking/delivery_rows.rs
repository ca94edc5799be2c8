//! Delivery: what its batches returned.
use vstd::prelude::*;
use vstd::utf8::encode_utf8;

use crate::binary32::{
    double_add, double_sum, double_sum_pattern, double_to_single, double_zero, is_double_total,
    is_finite,
};
use crate::checks::first;
use crate::ranking::common::{
    BatchResults, SemanticResult, SemanticViolation, Violation, finite_f32, kind_text,
    non_finite_fault, rows_fault, value_kind, violated, violates, violation,
};
use crate::ranking::delivery::DistrictClaim;
use crate::ranking::row_checks::int_text;
use crate::text::{decimal, join2, join3, join4, signed_decimal, unsigned_text};
use crate::wire::{WireModel, WireValue, row_model, rows_model};

verus! {

/// The order that a row of the first batch claims.
pub open spec fn claimed_order(rows: Seq<Seq<WireModel>>) -> Option<i32> {
    if rows.len() == 0 {
        None
    } else {
        match rows[0][0] {
            WireModel::Int32(id) => if id > 0 {
                Some(id)
            } else {
                None
            },
            _ => None,
        }
    }
}

/// Why the oldest order of a district is refused.
pub open spec fn oldest_rows_fault(rows: Seq<Seq<WireModel>>, district: int) -> Option<Violation> {
    let named = "Delivery oldest-order district "@ + decimal(district as nat);
    if rows.len() == 0 {
        None
    } else {
        first(
            violates(
                rows.len() > 1,
                named + " returned "@ + decimal(rows.len()) + " rows; expected at most one"@,
            ),
            first(
                violates(
                    rows[0].len() != 1,
                    named + " returned "@ + decimal(rows[0].len()) + " columns; expected one"@,
                ),
                match rows[0][0] {
                    WireModel::Null => None,
                    WireModel::Int32(id) => violates(
                        id < 0,
                        named + " returned invalid order id "@ + signed_decimal(id as int),
                    ),
                    other => Some(
                        violation(named + " expected INT32 or NULL, got "@ + kind_text(other)),
                    ),
                },
            ),
        )
    }
}

/// Why the first batch is refused, from a district on.
pub open spec fn oldest_orders_fault(
    results: Seq<Option<Seq<Seq<WireModel>>>>,
    district: int,
) -> Option<Violation>
    decreases 11 - district,
{
    if district > 10 {
        None
    } else {
        first(
            rows_fault(results, district),
            first(
                oldest_rows_fault(results[district]->0, district),
                oldest_orders_fault(results, district + 1),
            ),
        )
    }
}

/// The claims of the districts up to one.
pub open spec fn claims_up_to(
    results: Seq<Option<Seq<Seq<WireModel>>>>,
    district: int,
) -> Seq<DistrictClaim>
    decreases district,
{
    if district <= 0 {
        Seq::empty()
    } else {
        let before = claims_up_to(results, district - 1);
        match claimed_order(results[district]->0) {
            Some(order_id) => before.push(
                DistrictClaim { district_id: district as u8, order_id },
            ),
            None => before,
        }
    }
}

fn parse_oldest(rows: &[Vec<WireValue>], district_id: u8) -> (r: SemanticResult<Option<i32>>)
    ensures
        violated(r) == oldest_rows_fault(rows_model(rows@), district_id as int),
        r matches Ok(claim) ==> claim == claimed_order(rows_model(rows@)),
{
    if rows.len() == 0 {
        return Ok(None);
    }
    let named = join2("Delivery oldest-order district ", unsigned_text(district_id as u64).as_str());
    if rows.len() > 1 {
        return Err(
            SemanticViolation::of(
                join4(
                    named.as_str(),
                    " returned ",
                    unsigned_text(rows.len() as u64).as_str(),
                    " rows; expected at most one",
                ),
            ),
        );
    }
    let row = rows[0].as_slice();
    assert(rows_model(rows@)[0] == row_model(row@));
    if row.len() != 1 {
        return Err(
            SemanticViolation::of(
                join4(
                    named.as_str(),
                    " returned ",
                    unsigned_text(row.len() as u64).as_str(),
                    " columns; expected one",
                ),
            ),
        );
    }
    assert(row_model(row@)[0] == row@[0]@);
    match &row[0] {
        WireValue::Null => Ok(None),
        WireValue::Int32(id) => {
            if *id < 0 {
                Err(
                    SemanticViolation::of(
                        join3(named.as_str(), " returned invalid order id ", int_text(*id).as_str()),
                    ),
                )
            } else if *id == 0 {
                Ok(None)
            } else {
                Ok(Some(*id))
            }
        },
        other => Err(
            SemanticViolation::of(
                join3(named.as_str(), " expected INT32 or NULL, got ", value_kind(other)),
            ),
        ),
    }
}

/// Reads the claims from the first batch, in the order of the districts.
pub fn parse_stage_one(results: &BatchResults) -> (r: SemanticResult<Vec<DistrictClaim>>)
    ensures
        violated(r) == oldest_orders_fault(results@, 1),
        r matches Ok(claims) ==> claims@ == claims_up_to(results@, 10) && claims@.len() <= 10,
{
    let mut claims: Vec<DistrictClaim> = Vec::new();
    let mut district_id: u8 = 1;
    while district_id <= 10
        invariant
            1 <= district_id <= 11,
            oldest_orders_fault(results@, 1) == oldest_orders_fault(results@, district_id as int),
            claims@ == claims_up_to(results@, district_id - 1),
            claims@.len() < district_id,
        decreases 11 - district_id,
    {
        let rows = results.rows(district_id as usize)?;
        if let Some(order_id) = parse_oldest(rows, district_id)? {
            claims.push(DistrictClaim { district_id, order_id });
        }
        district_id = district_id + 1;
    }
    Ok(claims)
}

/// Why line amounts are refused from `i` on: a value or a partial sum is not
/// finite.
pub open spec fn amounts_fault(values: Seq<u32>, i: int) -> Option<Violation>
    decreases values.len() - i,
{
    if i >= values.len() {
        None
    } else {
        first(
            non_finite_fault("Delivery line amount "@ + decimal((i + 1) as nat), values[i]),
            first(
                violates(
                    double_sum(values.subrange(0, i + 1)) is None,
                    "Delivery line amount accumulation became non-finite at line "@ + decimal(
                        (i + 1) as nat,
                    ),
                ),
                amounts_fault(values, i + 1),
            ),
        )
    }
}

/// Why the sum of line amounts is refused.
pub open spec fn amount_sum_fault(values: Seq<u32>) -> Option<Violation> {
    first(
        amounts_fault(values, 0),
        violates(
            double_sum_pattern(values) is None,
            "Delivery line amount sum cannot be represented as finite FLOAT32"@,
        ),
    )
}

/// Adds line amounts in binary64, in order, and rounds the total once.
pub fn exact_f64_sum_to_f32_bits(values: &[u32]) -> (r: SemanticResult<u32>)
    ensures
        violated(r) == amount_sum_fault(values@),
        r matches Ok(bits) ==> double_sum_pattern(values@) == Some(bits) && is_finite(bits),
{
    let mut total = double_zero();
    let mut i: usize = 0;
    assert(values@.subrange(0, 0) =~= Seq::<u32>::empty());
    while i < values.len()
        invariant
            i <= values@.len(),
            is_double_total(total),
            double_sum(values@.subrange(0, i as int)) == Some(total.signed()),
            amounts_fault(values@, 0) == amounts_fault(values@, i as int),
        decreases values@.len() - i,
    {
        let line = unsigned_text(i as u64 + 1);
        finite_f32(values[i], join2("Delivery line amount ", line.as_str()).as_str())?;
        proof {
            let s = values@.subrange(0, i as int + 1);
            assert(s.drop_last() =~= values@.subrange(0, i as int));
            assert(s.last() == values@[i as int]);
        }
        match double_add(total, values[i]) {
            Some(next) => {
                total = next;
            },
            None => {
                return Err(
                    SemanticViolation::of(
                        join2(
                            "Delivery line amount accumulation became non-finite at line ",
                            line.as_str(),
                        ),
                    ),
                );
            },
        }
        i = i + 1;
    }
    assert(values@.subrange(0, i as int) =~= values@);
    match double_to_single(total) {
        Some(bits) => Ok(bits),
        None => Err(
            SemanticViolation::new(
                "Delivery line amount sum cannot be represented as finite FLOAT32",
            ),
        ),
    }
}

} // verus!
