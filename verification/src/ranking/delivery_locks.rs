//! Delivery: the orders that its second batch locked.
use vstd::prelude::*;

use crate::binary32::double_sum_pattern;
use crate::checks::first;
use crate::ranking::common::{
    BatchResults, SemanticResult, SemanticViolation, Violation, f32_at, f32_fault, hex8, int32_at,
    int32_fault, row_f32_bits, row_int32, rows_fault, scalar_fault, single_row_fault,
    single_row_of, violated, violates,
};
use crate::ranking::delivery::{
    DistrictClaim, LockedModel, LockedOrder, StageTwoIndices, locked_models,
};
use crate::ranking::delivery_rows::{amount_sum_fault, exact_f64_sum_to_f32_bits};
use crate::ranking::new_order_writes::UNDELIVERED_CARRIER_ID;
use crate::ranking::row_checks::int_text;
use crate::text::{
    decimal, hex_digits, join2, join3, join4, join5, join6, signed_decimal, unsigned_text,
};
use crate::wire::{WireModel, WireValue, row_model, rows_model};
use crate::workload::{MAX_ORDER_LINES, MIN_ORDER_LINES};

verus! {

/// What the second batch of a Delivery found.
#[derive(Clone, Debug, PartialEq, Eq)]
pub enum StageTwoOutcome {
    Locked(Vec<LockedOrder>),
    ClaimLost(DistrictClaim),
}

/// The content of a [`StageTwoOutcome`].
#[verifier::ext_equal]
pub enum LockOutcome {
    Locked(Seq<LockedModel>),
    ClaimLost(DistrictClaim),
}

impl View for StageTwoOutcome {
    type V = LockOutcome;

    open spec fn view(&self) -> LockOutcome {
        match *self {
            StageTwoOutcome::Locked(orders) => LockOutcome::Locked(locked_models(orders@)),
            StageTwoOutcome::ClaimLost(claim) => LockOutcome::ClaimLost(claim),
        }
    }
}

/// Why the only value at an index is refused as INT32.
pub open spec fn int_scalar_fault(results: Seq<Option<Seq<Seq<WireModel>>>>, index: int) -> Option<
    Violation,
> {
    first(
        scalar_fault(results, index),
        int32_fault(single_row_of(results, index), 0, "operation "@ + decimal(index as nat)),
    )
}

/// Why the only value at an index is refused as FLOAT32.
pub open spec fn f32_scalar_fault(results: Seq<Option<Seq<Seq<WireModel>>>>, index: int) -> Option<
    Violation,
> {
    first(
        scalar_fault(results, index),
        f32_fault(single_row_of(results, index), 0, "operation "@ + decimal(index as nat)),
    )
}

/// How messages name a claim.
pub open spec fn claim_text(claim: DistrictClaim) -> Seq<char> {
    "Delivery warehouse district "@ + decimal(claim.district_id as nat) + " order "@
        + signed_decimal(claim.order_id as int)
}

/// Why the row of an order is refused.
pub open spec fn claimed_row_fault(row: Seq<WireModel>, context: Seq<char>) -> Option<Violation> {
    let named = context + " order"@;
    let lines = int32_at(row, 2);
    first(
        violates(
            row.len() != 3,
            context + " order lookup returned "@ + decimal(row.len())
                + " columns; expected three"@,
        ),
        first(
            int32_fault(row, 0, named),
            first(
                violates(
                    int32_at(row, 0) <= 0,
                    context + " returned invalid customer id "@ + signed_decimal(
                        int32_at(row, 0) as int,
                    ),
                ),
                first(
                    int32_fault(row, 1, named),
                    first(
                        violates(
                            int32_at(row, 1) != 0,
                            context + " has carrier id "@ + signed_decimal(int32_at(row, 1) as int)
                                + "; expected undelivered carrier id 0"@,
                        ),
                        first(
                            int32_fault(row, 2, named),
                            first(
                                violates(
                                    lines < 0,
                                    context + " declared negative order-line count "@
                                        + signed_decimal(lines as int),
                                ),
                                violates(
                                    !(5 <= lines <= 15),
                                    context + " declared "@ + signed_decimal(lines as int)
                                        + " order lines; expected 5..=15"@,
                                ),
                            ),
                        ),
                    ),
                ),
            ),
        ),
    )
}

/// Why the line row at `k` is refused.
pub open spec fn claimed_line_fault(
    row: Seq<WireModel>,
    k: int,
    order_id: i32,
    context: Seq<char>,
) -> Option<Violation> {
    let named = context + " line "@ + decimal((k + 1) as nat);
    first(
        violates(
            row.len() != 3,
            context + " line row "@ + decimal((k + 1) as nat) + " returned "@ + decimal(row.len())
                + " columns; expected three"@,
        ),
        first(
            int32_fault(row, 0, named),
            first(
                violates(
                    int32_at(row, 0) != k + 1,
                    context + " line sequence expected "@ + decimal((k + 1) as nat) + ", got "@
                        + signed_decimal(int32_at(row, 0) as int),
                ),
                first(
                    int32_fault(row, 2, named + " order id"@),
                    first(
                        violates(
                            int32_at(row, 2) != order_id,
                            named + " belongs to order "@ + signed_decimal(
                                int32_at(row, 2) as int,
                            ),
                        ),
                        f32_fault(row, 1, named),
                    ),
                ),
            ),
        ),
    )
}

/// Why the line rows from `k` on are refused.
pub open spec fn claimed_lines_fault(
    rows: Seq<Seq<WireModel>>,
    k: int,
    order_id: i32,
    context: Seq<char>,
) -> Option<Violation>
    decreases rows.len() - k,
{
    if k >= rows.len() {
        None
    } else {
        first(
            claimed_line_fault(rows[k], k, order_id, context),
            claimed_lines_fault(rows, k + 1, order_id, context),
        )
    }
}

/// The amounts of line rows.
pub open spec fn line_amounts(rows: Seq<Seq<WireModel>>) -> Seq<u32> {
    Seq::new(rows.len(), |k: int| f32_at(rows[k], 1))
}

/// Why line rows are refused beside the number of lines that their order has.
pub open spec fn line_rows_fault(
    rows: Seq<Seq<WireModel>>,
    declared: i32,
    order_id: i32,
    context: Seq<char>,
) -> Option<Violation> {
    first(
        violates(
            !(5 <= rows.len() <= 15),
            context + " returned "@ + decimal(rows.len()) + " order lines; expected 5..=15"@,
        ),
        first(
            violates(
                rows.len() != declared,
                context + " declared "@ + signed_decimal(declared as int)
                    + " order lines but returned "@ + decimal(rows.len()),
            ),
            first(
                claimed_lines_fault(rows, 0, order_id, context),
                amount_sum_fault(line_amounts(rows)),
            ),
        ),
    )
}

/// Why a claim that is still in the queue is refused.
pub open spec fn kept_claim_fault(
    results: Seq<Option<Seq<Seq<WireModel>>>>,
    claim: DistrictClaim,
    index: StageTwoIndices,
) -> Option<Violation> {
    let context = claim_text(claim);
    let order = single_row_of(results, index.order as int);
    let rows = results[index.line_rows as int]->0;
    let amount = double_sum_pattern(line_amounts(rows))->0;
    let server = f32_at(single_row_of(results, index.line_sum as int), 0);
    first(
        single_row_fault(results, index.order as int),
        first(
            claimed_row_fault(order, context),
            first(
                rows_fault(results, index.line_rows as int),
                first(
                    line_rows_fault(rows, int32_at(order, 2), claim.order_id, context),
                    first(
                        f32_scalar_fault(results, index.line_sum as int),
                        violates(
                            server != amount,
                            context + " SUM(ol_amount) mismatch: expected bits 0x"@ + hex_digits(
                                amount as nat,
                                8,
                            ) + ", got 0x"@ + hex_digits(server as nat, 8),
                        ),
                    ),
                ),
            ),
        ),
    )
}

/// How often a claim is in the queue.
pub open spec fn queue_entries(
    results: Seq<Option<Seq<Seq<WireModel>>>>,
    index: StageTwoIndices,
) -> i32 {
    int32_at(single_row_of(results, index.exact_queue_count as int), 0)
}

/// Why a claim is refused.
pub open spec fn lock_fault(
    results: Seq<Option<Seq<Seq<WireModel>>>>,
    claim: DistrictClaim,
    index: StageTwoIndices,
) -> Option<Violation> {
    let context = claim_text(claim);
    let earlier = int32_at(single_row_of(results, index.earlier_queue_count as int), 0);
    let exact = queue_entries(results, index);
    first(
        int_scalar_fault(results, index.earlier_queue_count as int),
        first(
            violates(
                earlier != 0,
                context + " has "@ + signed_decimal(earlier as int)
                    + " earlier queue rows; expected zero"@,
            ),
            first(
                int_scalar_fault(results, index.exact_queue_count as int),
                if exact == 0 {
                    None
                } else {
                    first(
                        violates(
                            exact != 1,
                            context + " has "@ + signed_decimal(exact as int)
                                + " exact queue rows; expected one"@,
                        ),
                        kept_claim_fault(results, claim, index),
                    )
                },
            ),
        ),
    )
}

/// Why the claims from `i` on are refused.
pub open spec fn locks_fault(
    results: Seq<Option<Seq<Seq<WireModel>>>>,
    claims: Seq<DistrictClaim>,
    indices: Seq<StageTwoIndices>,
    i: int,
) -> Option<Violation>
    decreases claims.len() - i,
{
    if i >= claims.len() {
        None
    } else {
        first(
            lock_fault(results, claims[i], indices[i]),
            locks_fault(results, claims, indices, i + 1),
        )
    }
}

/// Why the second batch is refused.
pub open spec fn delivery_second_fault(
    results: Seq<Option<Seq<Seq<WireModel>>>>,
    claims: Seq<DistrictClaim>,
    indices: Seq<StageTwoIndices>,
) -> Option<Violation> {
    first(
        violates(
            claims.len() != indices.len(),
            "Delivery stage-two planner retained "@ + decimal(claims.len()) + " claims but "@
                + decimal(indices.len()) + " index records"@,
        ),
        locks_fault(results, claims, indices, 0),
    )
}

/// The order that a claim locked.
pub open spec fn locked_order(
    results: Seq<Option<Seq<Seq<WireModel>>>>,
    claim: DistrictClaim,
    index: StageTwoIndices,
) -> LockedModel {
    let rows = results[index.line_rows as int]->0;
    LockedModel {
        claim,
        customer_id: int32_at(single_row_of(results, index.order as int), 0),
        line_count: rows.len() as u8,
        amount_bits: double_sum_pattern(line_amounts(rows))->0,
        line_amount_bits: line_amounts(rows),
    }
}

/// The orders that the first `n` claims locked.
pub open spec fn locked_orders(
    results: Seq<Option<Seq<Seq<WireModel>>>>,
    claims: Seq<DistrictClaim>,
    indices: Seq<StageTwoIndices>,
    n: int,
) -> Seq<LockedModel>
    decreases n,
{
    if n <= 0 {
        Seq::empty()
    } else {
        let before = locked_orders(results, claims, indices, n - 1);
        if queue_entries(results, indices[n - 1]) == 0 {
            before
        } else {
            before.push(locked_order(results, claims[n - 1], indices[n - 1]))
        }
    }
}

/// The first of the first `n` claims that is no longer in the queue.
pub open spec fn first_lost(
    results: Seq<Option<Seq<Seq<WireModel>>>>,
    claims: Seq<DistrictClaim>,
    indices: Seq<StageTwoIndices>,
    n: int,
) -> Option<DistrictClaim>
    decreases n,
{
    if n <= 0 {
        None
    } else {
        first(
            first_lost(results, claims, indices, n - 1),
            if queue_entries(results, indices[n - 1]) == 0 {
                Some(claims[n - 1])
            } else {
                None
            },
        )
    }
}

/// What the second batch found: one lost claim gives all of them up.
pub open spec fn lock_outcome(
    results: Seq<Option<Seq<Seq<WireModel>>>>,
    claims: Seq<DistrictClaim>,
    indices: Seq<StageTwoIndices>,
) -> LockOutcome {
    let n = claims.len() as int;
    match first_lost(results, claims, indices, n) {
        Some(claim) => LockOutcome::ClaimLost(claim),
        None => LockOutcome::Locked(locked_orders(results, claims, indices, n)),
    }
}

fn describe_claim(claim: DistrictClaim) -> (r: String)
    ensures
        r@ == claim_text(claim),
{
    join4(
        "Delivery warehouse district ",
        unsigned_text(claim.district_id as u64).as_str(),
        " order ",
        int_text(claim.order_id).as_str(),
    )
}

/// The customer and number of lines of an order.
struct ClaimedOrder {
    customer_id: i32,
    lines: i32,
}

fn parse_order_row(row: &[WireValue], context: &str) -> (r: SemanticResult<ClaimedOrder>)
    ensures
        violated(r) == claimed_row_fault(row_model(row@), context@),
        r matches Ok(order) ==> order.customer_id == int32_at(row_model(row@), 0) && order.lines
            == int32_at(row_model(row@), 2),
{
    if row.len() != 3 {
        return Err(
            SemanticViolation::of(
                join4(
                    context,
                    " order lookup returned ",
                    unsigned_text(row.len() as u64).as_str(),
                    " columns; expected three",
                ),
            ),
        );
    }
    let named = join2(context, " order");
    let customer_id: i32 = row_int32(row, 0, named.as_str())?;
    if customer_id <= 0 {
        return Err(
            SemanticViolation::of(
                join3(context, " returned invalid customer id ", int_text(customer_id).as_str()),
            ),
        );
    }
    let carrier_id: i32 = row_int32(row, 1, named.as_str())?;
    if carrier_id != UNDELIVERED_CARRIER_ID {
        return Err(
            SemanticViolation::of(
                join4(
                    context,
                    " has carrier id ",
                    int_text(carrier_id).as_str(),
                    "; expected undelivered carrier id 0",
                ),
            ),
        );
    }
    let lines: i32 = row_int32(row, 2, named.as_str())?;
    if lines < 0 {
        return Err(
            SemanticViolation::of(
                join3(context, " declared negative order-line count ", int_text(lines).as_str()),
            ),
        );
    }
    if lines < 5 || lines > 15 {
        return Err(
            SemanticViolation::of(
                join4(
                    context,
                    " declared ",
                    int_text(lines).as_str(),
                    " order lines; expected 5..=15",
                ),
            ),
        );
    }
    Ok(ClaimedOrder { customer_id, lines })
}

fn parse_line_row(row: &[WireValue], k: usize, order_id: i32, context: &str) -> (r: SemanticResult<
    u32,
>)
    requires
        k < 15,
    ensures
        violated(r) == claimed_line_fault(row_model(row@), k as int, order_id, context@),
        r matches Ok(bits) ==> bits == f32_at(row_model(row@), 1),
{
    let number = unsigned_text(k as u64 + 1);
    if row.len() != 3 {
        return Err(
            SemanticViolation::of(
                join6(
                    context,
                    " line row ",
                    number.as_str(),
                    " returned ",
                    unsigned_text(row.len() as u64).as_str(),
                    " columns; expected three",
                ),
            ),
        );
    }
    let named = join3(context, " line ", number.as_str());
    let line_number: i32 = row_int32(row, 0, named.as_str())?;
    if line_number != k as i32 + 1 {
        return Err(
            SemanticViolation::of(
                join5(
                    context,
                    " line sequence expected ",
                    number.as_str(),
                    ", got ",
                    int_text(line_number).as_str(),
                ),
            ),
        );
    }
    let line_order_id: i32 = row_int32(row, 2, join2(named.as_str(), " order id").as_str())?;
    if line_order_id != order_id {
        return Err(
            SemanticViolation::of(
                join3(named.as_str(), " belongs to order ", int_text(line_order_id).as_str()),
            ),
        );
    }
    row_f32_bits(row, 1, named.as_str())
}

/// The amounts of an order's lines and their sum.
struct LineAmounts {
    values: Vec<u32>,
    sum_bits: u32,
}

fn parse_line_rows(rows: &[Vec<WireValue>], declared: i32, order_id: i32, context: &str) -> (r:
    SemanticResult<LineAmounts>)
    ensures
        violated(r) == line_rows_fault(rows_model(rows@), declared, order_id, context@),
        r matches Ok(amounts) ==> amounts.values@ == line_amounts(rows_model(rows@))
            && double_sum_pattern(amounts.values@) == Some(amounts.sum_bits) && rows@.len() <= 15,
{
    if rows.len() < MIN_ORDER_LINES as usize || rows.len() > MAX_ORDER_LINES as usize {
        return Err(
            SemanticViolation::of(
                join4(
                    context,
                    " returned ",
                    unsigned_text(rows.len() as u64).as_str(),
                    " order lines; expected 5..=15",
                ),
            ),
        );
    }
    if rows.len() as i32 != declared {
        return Err(
            SemanticViolation::of(
                join5(
                    context,
                    " declared ",
                    int_text(declared).as_str(),
                    " order lines but returned ",
                    unsigned_text(rows.len() as u64).as_str(),
                ),
            ),
        );
    }
    let ghost models = rows_model(rows@);
    let mut values: Vec<u32> = Vec::new();
    let mut k: usize = 0;
    while k < rows.len()
        invariant
            k <= rows@.len() <= 15,
            5 <= rows@.len() == declared,
            models == rows_model(rows@),
            values@ =~= line_amounts(models).subrange(0, k as int),
            claimed_lines_fault(models, 0, order_id, context@) == claimed_lines_fault(
                models,
                k as int,
                order_id,
                context@,
            ),
        decreases rows@.len() - k,
    {
        assert(models[k as int] == row_model(rows@[k as int]@));
        values.push(parse_line_row(rows[k].as_slice(), k, order_id, context)?);
        k = k + 1;
    }
    assert(values@ =~= line_amounts(models));
    let sum_bits: u32 = exact_f64_sum_to_f32_bits(values.as_slice())?;
    Ok(LineAmounts { values, sum_bits })
}

fn parse_kept_claim(results: &BatchResults, claim: DistrictClaim, index: StageTwoIndices) -> (r:
    SemanticResult<LockedOrder>)
    ensures
        violated(r) == kept_claim_fault(results@, claim, index),
        r matches Ok(order) ==> order@ == locked_order(results@, claim, index),
{
    let context = describe_claim(claim);
    let order = parse_order_row(results.single_row(index.order)?, context.as_str())?;
    let rows = results.rows(index.line_rows)?;
    let amounts = parse_line_rows(rows, order.lines, claim.order_id, context.as_str())?;
    let server_bits: u32 = results.single_f32_bits(index.line_sum)?;
    if server_bits != amounts.sum_bits {
        return Err(
            SemanticViolation::of(
                join5(
                    context.as_str(),
                    " SUM(ol_amount) mismatch: expected bits 0x",
                    hex8(amounts.sum_bits).as_str(),
                    ", got 0x",
                    hex8(server_bits).as_str(),
                ),
            ),
        );
    }
    Ok(
        LockedOrder {
            claim,
            customer_id: order.customer_id,
            line_count: rows.len() as u8,
            amount_bits: amounts.sum_bits,
            line_amount_bits: amounts.values,
        },
    )
}

fn parse_claim(results: &BatchResults, claim: DistrictClaim, index: StageTwoIndices) -> (r:
    SemanticResult<Option<LockedOrder>>)
    ensures
        violated(r) == lock_fault(results@, claim, index),
        r matches Ok(None) ==> queue_entries(results@, index) == 0,
        r matches Ok(Some(order)) ==> queue_entries(results@, index) != 0 && order@
            == locked_order(results@, claim, index),
{
    let context = describe_claim(claim);
    let earlier: i32 = results.single_int32(index.earlier_queue_count)?;
    if earlier != 0 {
        return Err(
            SemanticViolation::of(
                join4(
                    context.as_str(),
                    " has ",
                    int_text(earlier).as_str(),
                    " earlier queue rows; expected zero",
                ),
            ),
        );
    }
    let exact: i32 = results.single_int32(index.exact_queue_count)?;
    if exact == 0 {
        return Ok(None);
    }
    if exact != 1 {
        return Err(
            SemanticViolation::of(
                join4(
                    context.as_str(),
                    " has ",
                    int_text(exact).as_str(),
                    " exact queue rows; expected one",
                ),
            ),
        );
    }
    Ok(Some(parse_kept_claim(results, claim, index)?))
}

/// Reads what the second batch locked. Every claim is checked, also behind a
/// lost one.
pub fn parse_stage_two(
    results: &BatchResults,
    claims: &[DistrictClaim],
    indices: &[StageTwoIndices],
) -> (r: SemanticResult<StageTwoOutcome>)
    ensures
        violated(r) == delivery_second_fault(results@, claims@, indices@),
        r matches Ok(outcome) ==> outcome@ == lock_outcome(results@, claims@, indices@),
{
    if claims.len() != indices.len() {
        return Err(
            SemanticViolation::of(
                join5(
                    "Delivery stage-two planner retained ",
                    unsigned_text(claims.len() as u64).as_str(),
                    " claims but ",
                    unsigned_text(indices.len() as u64).as_str(),
                    " index records",
                ),
            ),
        );
    }
    let mut orders: Vec<LockedOrder> = Vec::new();
    let mut lost: Option<DistrictClaim> = None;
    let mut i: usize = 0;
    assert(locked_models(orders@) =~= Seq::empty());
    while i < claims.len()
        invariant
            i <= claims@.len() == indices@.len(),
            locks_fault(results@, claims@, indices@, 0) == locks_fault(
                results@,
                claims@,
                indices@,
                i as int,
            ),
            locked_models(orders@) == locked_orders(results@, claims@, indices@, i as int),
            lost == first_lost(results@, claims@, indices@, i as int),
        decreases claims@.len() - i,
    {
        match parse_claim(results, claims[i], indices[i])? {
            Some(order) => {
                let ghost before = orders@;
                let ghost model = order@;
                orders.push(order);
                assert(locked_models(orders@) =~= locked_models(before).push(model));
            },
            None => {
                if lost.is_none() {
                    lost = Some(claims[i]);
                }
            },
        }
        i = i + 1;
    }
    match lost {
        Some(claim) => Ok(StageTwoOutcome::ClaimLost(claim)),
        None => Ok(StageTwoOutcome::Locked(orders)),
    }
}

/// The diagnostic of a lost claim.
pub fn lost_claim_diagnostic(claim: DistrictClaim) -> (r: String)
    ensures
        r@ == claim_text(claim) + " disappeared before queue confirmation"@,
{
    join2(describe_claim(claim).as_str(), " disappeared before queue confirmation")
}

} // verus!
