//! NewOrder: what the first batch returned.
use vstd::prelude::*;

use crate::binary32::{at_most, integer_product, integer_product_bits, is_finite, value};
use crate::checks::first;
use crate::ranking::common::{
    BatchResults, SemanticResult, SemanticViolation, Violation, char_at, char_fault,
    exactly_one_row, f32_at, f32_fault, finite_f32, has_rows, int32_at, int32_fault,
    non_finite_fault, one_row_fault, row_char, row_f32_bits, row_int32, rows_fault,
    single_row_fault, single_row_of, violated, violates,
};
use crate::ranking::new_order::{
    LinePlan, OrderPlan, StageOneModel, StageOnePlan, ValidatedInput, stock_key_of,
};
use crate::ranking::row_checks::{
    FloatRange, bytes_agree, char_range_fault, columns_fault, copy_bytes, f32_range_fault,
    int_text, require_char_range, require_columns, require_f32_range,
};
use crate::ranking::runner::StockVersion;
use crate::text::{
    decimal, join2, join3, join4, join5, join6, lossy_text, quote_bytes, quoted, signed_decimal,
    unsigned_text,
};
use crate::time::{fixed_digits, push_fixed};
use crate::wire::{WireModel, WireValue, row_model, rows_model};

verus! {

pub const MIN_STOCK_QUANTITY: i32 = 10;

pub const MAX_STOCK_QUANTITY: i32 = 100;

/// A line with what was read for it.
#[derive(Clone, Debug, PartialEq, Eq)]
pub struct MaterializedLine {
    pub plan: LinePlan,
    pub initial_stock: StockVersion,
    pub amount_bits: u32,
    pub district_info: Vec<u8>,
}

/// The content of a [`MaterializedLine`].
#[verifier::ext_equal]
pub struct MaterializedModel {
    pub plan: LinePlan,
    pub initial_stock: StockVersion,
    pub amount_bits: u32,
    pub district_info: Seq<u8>,
}

impl View for MaterializedLine {
    type V = MaterializedModel;

    open spec fn view(&self) -> MaterializedModel {
        MaterializedModel {
            plan: self.plan,
            initial_stock: self.initial_stock,
            amount_bits: self.amount_bits,
            district_info: self.district_info@,
        }
    }
}

/// An order with what was read for it.
#[derive(Clone, Debug, PartialEq, Eq)]
pub struct MaterializedOrder {
    pub order_id: i32,
    pub lines: Vec<MaterializedLine>,
}

/// The contents of a list of lines.
pub open spec fn line_models(lines: Seq<MaterializedLine>) -> Seq<MaterializedModel> {
    Seq::new(lines.len(), |i: int| lines[i]@)
}

/// The content of a [`MaterializedOrder`].
#[verifier::ext_equal]
pub struct ReadOrder {
    pub order_id: i32,
    pub lines: Seq<MaterializedModel>,
}

impl View for MaterializedOrder {
    type V = ReadOrder;

    open spec fn view(&self) -> ReadOrder {
        ReadOrder { order_id: self.order_id, lines: line_models(self.lines@) }
    }
}

/// From 0 to 0.5.
pub open spec fn discount_range() -> FloatRange {
    FloatRange { minimum: 0, maximum: 0x3F00_0000, text: "0..=0.5" }
}

/// From 0 to 0.2.
pub open spec fn tax_range() -> FloatRange {
    FloatRange { minimum: 0, maximum: 0x3E4C_CCCD, text: "0..=0.2" }
}

/// From 1 to 100.
pub open spec fn price_range() -> FloatRange {
    FloatRange { minimum: 0x3F80_0000, maximum: 0x42C8_0000, text: "1..=100" }
}

/// `GC`.
pub open spec fn good_credit() -> Seq<u8> {
    seq![71u8, 67u8]
}

/// `BC`.
pub open spec fn bad_credit() -> Seq<u8> {
    seq![66u8, 67u8]
}

/// Whether a credit is good or bad.
pub(crate) fn is_credit(bytes: &[u8]) -> (r: bool)
    ensures
        r == (bytes@ == good_credit() || bytes@ == bad_credit()),
{
    let good: [u8; 2] = [71, 67];
    let bad: [u8; 2] = [66, 67];
    assert(good@ =~= good_credit());
    assert(bad@ =~= bad_credit());
    bytes_agree(bytes, good.as_slice()) || bytes_agree(bytes, bad.as_slice())
}

/// Why a customer's credit is refused.
pub open spec fn credit_fault(credit: Seq<u8>) -> Option<Violation> {
    violates(
        credit != good_credit() && credit != bad_credit(),
        "customer.c_credit must be GC or BC, got "@ + quoted(lossy_text(credit)),
    )
}

/// Why the home row is refused.
pub open spec fn home_fault(row: Seq<WireModel>) -> Option<Violation> {
    let c = "New-Order home"@;
    first(
        columns_fault(row, 6, c),
        first(
            f32_fault(row, 0, c),
            first(
                f32_range_fault(f32_at(row, 0), discount_range(), "customer.c_discount"@),
                first(
                    char_fault(row, 1, c),
                    first(
                        char_range_fault(char_at(row, 1), 1, 16, "customer.c_last"@),
                        first(
                            char_fault(row, 2, c),
                            first(credit_fault(char_at(row, 2)), home_rest_fault(row)),
                        ),
                    ),
                ),
            ),
        ),
    )
}

/// Why the taxes and the order number of the home row are refused.
pub open spec fn home_rest_fault(row: Seq<WireModel>) -> Option<Violation> {
    let c = "New-Order home"@;
    first(
        f32_fault(row, 3, c),
        first(
            f32_range_fault(f32_at(row, 3), tax_range(), "warehouse.w_tax"@),
            first(
                int32_fault(row, 4, c),
                first(
                    violates(
                        int32_at(row, 4) <= 0,
                        "district.d_next_o_id must be positive, got "@ + signed_decimal(
                            int32_at(row, 4) as int,
                        ),
                    ),
                    first(
                        f32_fault(row, 5, c),
                        f32_range_fault(f32_at(row, 5), tax_range(), "district.d_tax"@),
                    ),
                ),
            ),
        ),
    )
}

fn parse_home(row: &[WireValue]) -> (r: SemanticResult<i32>)
    ensures
        violated(r) == home_fault(row_model(row@)),
        r matches Ok(order_id) ==> order_id == int32_at(row_model(row@), 4),
{
    let c = "New-Order home";
    let tax = FloatRange { minimum: 0, maximum: 0x3E4C_CCCD, text: "0..=0.2" };
    require_columns(row, 6, c)?;
    let discount: u32 = row_f32_bits(row, 0, c)?;
    require_f32_range(
        discount,
        FloatRange { minimum: 0, maximum: 0x3F00_0000, text: "0..=0.5" },
        "customer.c_discount",
    )?;
    let last = row_char(row, 1, c)?;
    require_char_range(last, 1, 16, "customer.c_last")?;
    let credit = row_char(row, 2, c)?;
    if !is_credit(credit) {
        return Err(
            SemanticViolation::of(
                join2(
                    "customer.c_credit must be GC or BC, got ",
                    quote_bytes(credit).as_str(),
                ),
            ),
        );
    }
    let warehouse_tax: u32 = row_f32_bits(row, 3, c)?;
    require_f32_range(warehouse_tax, tax, "warehouse.w_tax")?;
    let order_id: i32 = row_int32(row, 4, c)?;
    if order_id <= 0 {
        return Err(
            SemanticViolation::of(
                join2("district.d_next_o_id must be positive, got ", int_text(order_id).as_str()),
            ),
        );
    }
    let district_tax: u32 = row_f32_bits(row, 5, c)?;
    require_f32_range(district_tax, tax, "district.d_tax")?;
    Ok(order_id)
}

/// The context of an item.
pub open spec fn item_context(item: i32) -> Seq<char> {
    "New-Order item "@ + signed_decimal(item as int)
}

/// Why the rows of an item are refused.
pub open spec fn item_rows_fault(rows: Seq<Seq<WireModel>>, item: i32) -> Option<Violation> {
    let c = item_context(item);
    let name = "item "@ + signed_decimal(item as int);
    let row = rows[0];
    first(
        one_row_fault(c, rows.len()),
        first(
            columns_fault(row, 3, c),
            first(
                f32_fault(row, 0, c),
                first(
                    f32_range_fault(f32_at(row, 0), price_range(), name + " i_price"@),
                    first(
                        char_fault(row, 1, c),
                        first(
                            char_range_fault(char_at(row, 1), 14, 24, name + " i_name"@),
                            first(
                                char_fault(row, 2, c),
                                char_range_fault(char_at(row, 2), 26, 50, name + " i_data"@),
                            ),
                        ),
                    ),
                ),
            ),
        ),
    )
}

fn parse_item(rows: &[Vec<WireValue>], item: i32) -> (r: SemanticResult<u32>)
    ensures
        violated(r) == item_rows_fault(rows_model(rows@), item),
        r matches Ok(price) ==> price == f32_at(rows_model(rows@)[0], 0) && is_finite(price),
{
    let context = join2("New-Order item ", int_text(item).as_str());
    let c = context.as_str();
    let name = join2("item ", int_text(item).as_str());
    let row = exactly_one_row(rows, c)?;
    assert(row_model(row@) == rows_model(rows@)[0]);
    require_columns(row, 3, c)?;
    let price: u32 = row_f32_bits(row, 0, c)?;
    require_f32_range(
        price,
        FloatRange { minimum: 0x3F80_0000, maximum: 0x42C8_0000, text: "1..=100" },
        join2(name.as_str(), " i_price").as_str(),
    )?;
    require_char_range(row_char(row, 1, c)?, 14, 24, join2(name.as_str(), " i_name").as_str())?;
    require_char_range(row_char(row, 2, c)?, 26, 50, join2(name.as_str(), " i_data").as_str())?;
    Ok(price)
}

/// A stock row in a message.
pub open spec fn stock_place(key: (i32, i32)) -> Seq<char> {
    "stock ("@ + signed_decimal(key.0 as int) + ", "@ + signed_decimal(key.1 as int) + ")"@
}

pub(crate) fn describe_stock_place(warehouse: i32, item: i32) -> (r: String)
    ensures
        r@ == stock_place((warehouse, item)),
{
    join5("stock (", int_text(warehouse).as_str(), ", ", int_text(item).as_str(), ")")
}

/// Why the district columns from `column` on are refused.
pub open spec fn district_columns_fault(
    row: Seq<WireModel>,
    context: Seq<char>,
    column: int,
) -> Option<Violation>
    decreases 15 - column,
{
    if column >= 15 {
        None
    } else {
        first(
            char_fault(row, column, context),
            first(
                char_range_fault(
                    char_at(row, column),
                    24,
                    24,
                    "stock.s_dist_"@ + fixed_digits((column - 4) as nat, 2),
                ),
                district_columns_fault(row, context, column + 1),
            ),
        )
    }
}

fn check_district_columns(row: &[WireValue], context: &str) -> (r: SemanticResult<()>)
    ensures
        violated(r) == district_columns_fault(row_model(row@), context@, 5),
        r is Ok ==> forall|column: int|
            5 <= column < 15 ==> column < row@.len() && (#[trigger] row_model(row@)[column]) is Char
                && char_at(row_model(row@), column).len() == 24,
{
    let mut column: usize = 5;
    while column < 15
        invariant
            5 <= column <= 15,
            district_columns_fault(row_model(row@), context@, 5) == district_columns_fault(
                row_model(row@),
                context@,
                column as int,
            ),
            forall|k: int|
                5 <= k < column ==> k < row@.len() && (#[trigger] row_model(row@)[k]) is Char
                    && char_at(row_model(row@), k).len() == 24,
        decreases 15 - column,
    {
        let bytes = row_char(row, column, context)?;
        let mut name = "stock.s_dist_".to_owned();
        push_fixed(&mut name, column as u64 - 4, 2);
        require_char_range(bytes, 24, 24, name.as_str())?;
        column = column + 1;
    }
    Ok(())
}

/// The version in a stock row.
pub open spec fn version_at(row: Seq<WireModel>) -> StockVersion {
    StockVersion {
        quantity: int32_at(row, 0),
        ytd_bits: f32_at(row, 1),
        order_count: int32_at(row, 2),
        remote_count: int32_at(row, 3),
    }
}

/// Why the version of a stock row is refused.
pub open spec fn stock_version_fault(row: Seq<WireModel>, key: (i32, i32)) -> Option<Violation> {
    let place = stock_place(key);
    let c = "New-Order "@ + place;
    let v = version_at(row);
    first(
        int32_fault(row, 0, c),
        first(
            violates(
                !(10 <= v.quantity <= 100),
                place + " quantity "@ + signed_decimal(v.quantity as int)
                    + " is outside 10..=100"@,
            ),
            first(
                f32_fault(row, 1, c),
                first(
                    violates(
                        value(v.ytd_bits) < 0,
                        place + " s_ytd must be finite and non-negative"@,
                    ),
                    first(
                        int32_fault(row, 2, c),
                        first(
                            int32_fault(row, 3, c),
                            violates(
                                v.order_count < 0 || v.remote_count < 0 || v.remote_count
                                    > v.order_count,
                                place + " has invalid counters ("@ + signed_decimal(
                                    v.order_count as int,
                                ) + ","@ + signed_decimal(v.remote_count as int) + ")"@,
                            ),
                        ),
                    ),
                ),
            ),
        ),
    )
}

/// Why the rows of a stock row are refused.
pub open spec fn stock_rows_fault(rows: Seq<Seq<WireModel>>, key: (i32, i32)) -> Option<Violation> {
    let c = "New-Order "@ + stock_place(key);
    let row = rows[0];
    first(
        one_row_fault(c, rows.len()),
        first(
            columns_fault(row, 15, c),
            first(
                stock_version_fault(row, key),
                first(
                    char_fault(row, 4, c),
                    first(
                        char_range_fault(char_at(row, 4), 26, 50, "stock.s_data"@),
                        district_columns_fault(row, c, 5),
                    ),
                ),
            ),
        ),
    )
}

fn parse_stock_version(row: &[WireValue], warehouse: i32, item: i32) -> (r: SemanticResult<
    StockVersion,
>)
    ensures
        violated(r) == stock_version_fault(row_model(row@), (warehouse, item)),
        r matches Ok(version) ==> version == version_at(row_model(row@)) && is_finite(
            version.ytd_bits,
        ) && 10 <= version.quantity <= 100,
{
    let place = describe_stock_place(warehouse, item);
    let context = join2("New-Order ", place.as_str());
    let c = context.as_str();
    let quantity: i32 = row_int32(row, 0, c)?;
    if quantity < MIN_STOCK_QUANTITY || quantity > MAX_STOCK_QUANTITY {
        return Err(
            SemanticViolation::of(
                join4(
                    place.as_str(),
                    " quantity ",
                    int_text(quantity).as_str(),
                    " is outside 10..=100",
                ),
            ),
        );
    }
    let ytd_bits: u32 = row_f32_bits(row, 1, c)?;
    if !at_most(0, ytd_bits) {
        return Err(
            SemanticViolation::of(
                join2(place.as_str(), " s_ytd must be finite and non-negative"),
            ),
        );
    }
    let order_count: i32 = row_int32(row, 2, c)?;
    let remote_count: i32 = row_int32(row, 3, c)?;
    if order_count < 0 || remote_count < 0 || remote_count > order_count {
        return Err(
            SemanticViolation::of(
                join6(
                    place.as_str(),
                    " has invalid counters (",
                    int_text(order_count).as_str(),
                    ",",
                    int_text(remote_count).as_str(),
                    ")",
                ),
            ),
        );
    }
    Ok(StockVersion { quantity, ytd_bits, order_count, remote_count })
}

/// What a stock row says: its version and the information of one district.
pub struct StockRead {
    pub version: StockVersion,
    pub district_info: Vec<u8>,
}

fn parse_stock(rows: &[Vec<WireValue>], warehouse: i32, item: i32, district: i32) -> (r:
    SemanticResult<StockRead>)
    requires
        1 <= district <= 10,
    ensures
        violated(r) == stock_rows_fault(rows_model(rows@), (warehouse, item)),
        r matches Ok(read) ==> read.version == version_at(rows_model(rows@)[0])
            && read.district_info@ == char_at(rows_model(rows@)[0], district + 4) && is_finite(
            read.version.ytd_bits,
        ),
{
    let place = describe_stock_place(warehouse, item);
    let context = join2("New-Order ", place.as_str());
    let c = context.as_str();
    let row = exactly_one_row(rows, c)?;
    assert(row_model(row@) == rows_model(rows@)[0]);
    require_columns(row, 15, c)?;
    let version = parse_stock_version(row, warehouse, item)?;
    require_char_range(row_char(row, 4, c)?, 26, 50, "stock.s_data")?;
    check_district_columns(row, c)?;
    assert(row_model(row@)[district + 4] is Char);
    let info = row_char(row, district as usize + 4, c)?;
    Ok(StockRead { version, district_info: copy_bytes(info) })
}

/// Why a product of a price and a quantity is refused.
pub open spec fn amount_refusal(price: u32, quantity: i32) -> Option<Violation> {
    first(
        non_finite_fault("item price"@, price),
        violates(
            integer_product(price, quantity as int) is None,
            "order-line amount multiplication produced a non-finite FLOAT32"@,
        ),
    )
}

/// Multiplies a price by a quantity with one rounding.
pub fn multiply_f32_bits(price_bits: u32, quantity: i32) -> (r: SemanticResult<u32>)
    ensures
        violated(r) == amount_refusal(price_bits, quantity),
        r matches Ok(bits) ==> integer_product(price_bits, quantity as int) == Some(bits),
{
    finite_f32(price_bits, "item price")?;
    match integer_product_bits(price_bits, quantity) {
        Some(bits) => Ok(bits),
        None => Err(
            SemanticViolation::new(
                "order-line amount multiplication produced a non-finite FLOAT32",
            ),
        ),
    }
}

/// The rows of the item of line `i`.
pub open spec fn item_rows(
    plan: StageOneModel,
    results: Seq<Option<Seq<Seq<WireModel>>>>,
    i: int,
) -> Seq<Seq<WireModel>> {
    results[plan.line_results[i].item as int]->0
}

/// The rows of the stock of line `i`.
pub open spec fn stock_rows(
    plan: StageOneModel,
    results: Seq<Option<Seq<Seq<WireModel>>>>,
    i: int,
) -> Seq<Seq<WireModel>> {
    results[plan.line_results[i].stock as int]->0
}

/// Whether an earlier valid line read the item of line `i` at another price.
pub open spec fn price_differs(
    order: OrderPlan,
    plan: StageOneModel,
    results: Seq<Option<Seq<Seq<WireModel>>>>,
    i: int,
) -> bool {
    exists|j: int|
        0 <= j < i && !(#[trigger] order.lines[j]).invalid_item && order.lines[j].item_id
            == order.lines[i].item_id && f32_at(item_rows(plan, results, j)[0], 0) != f32_at(
            item_rows(plan, results, i)[0],
            0,
        )
}

/// Whether an earlier valid line read the stock row of line `i` otherwise.
pub open spec fn stock_differs(
    order: OrderPlan,
    plan: StageOneModel,
    results: Seq<Option<Seq<Seq<WireModel>>>>,
    i: int,
) -> bool {
    exists|j: int|
        0 <= j < i && !(#[trigger] order.lines[j]).invalid_item && stock_key_of(order.lines[j])
            == stock_key_of(order.lines[i]) && (version_at(stock_rows(plan, results, j)[0])
            != version_at(stock_rows(plan, results, i)[0]) || char_at(
            stock_rows(plan, results, j)[0],
            order.district_id + 4,
        ) != char_at(stock_rows(plan, results, i)[0], order.district_id + 4))
}

/// Why the reads of a valid line are refused.
pub open spec fn valid_line_fault(
    order: OrderPlan,
    plan: StageOneModel,
    results: Seq<Option<Seq<Seq<WireModel>>>>,
    i: int,
) -> Option<Violation> {
    let line = order.lines[i];
    first(
        item_rows_fault(item_rows(plan, results, i), line.item_id),
        first(
            violates(
                price_differs(order, plan, results, i),
                "item "@ + signed_decimal(line.item_id as int)
                    + " returned inconsistent prices inside one snapshot"@,
            ),
            first(
                stock_rows_fault(stock_rows(plan, results, i), stock_key_of(line)),
                first(
                    violates(
                        stock_differs(order, plan, results, i),
                        stock_place(stock_key_of(line))
                            + " returned inconsistent rows inside one snapshot"@,
                    ),
                    amount_refusal(f32_at(item_rows(plan, results, i)[0], 0), line.quantity),
                ),
            ),
        ),
    )
}

/// Why the reads of line `i` are refused.
pub open spec fn line_read_fault(
    order: OrderPlan,
    plan: StageOneModel,
    results: Seq<Option<Seq<Seq<WireModel>>>>,
    i: int,
) -> Option<Violation> {
    let line = order.lines[i];
    first(
        rows_fault(results, plan.line_results[i].item as int),
        first(
            rows_fault(results, plan.line_results[i].stock as int),
            if line.invalid_item {
                violates(
                    item_rows(plan, results, i).len() > 0 || stock_rows(plan, results, i).len() > 0,
                    "invalid final item "@ + signed_decimal(line.item_id as int)
                        + " unexpectedly resolved to item or stock rows"@,
                )
            } else {
                valid_line_fault(order, plan, results, i)
            },
        ),
    )
}

/// Why the reads of the lines from `i` on are refused.
pub open spec fn line_reads_fault(
    order: OrderPlan,
    plan: StageOneModel,
    results: Seq<Option<Seq<Seq<WireModel>>>>,
    i: int,
) -> Option<Violation>
    decreases order.lines.len() - i,
{
    if i >= order.lines.len() {
        None
    } else {
        first(
            line_read_fault(order, plan, results, i),
            line_reads_fault(order, plan, results, i + 1),
        )
    }
}

/// A valid line with what was read for it.
pub open spec fn read_line(
    order: OrderPlan,
    plan: StageOneModel,
    results: Seq<Option<Seq<Seq<WireModel>>>>,
    i: int,
) -> MaterializedModel {
    let row = stock_rows(plan, results, i)[0];
    MaterializedModel {
        plan: order.lines[i],
        initial_stock: version_at(row),
        amount_bits: integer_product(
            f32_at(item_rows(plan, results, i)[0], 0),
            order.lines[i].quantity as int,
        )->0,
        district_info: char_at(row, order.district_id + 4),
    }
}

/// The valid ones of the first `n` lines with what was read for them.
pub open spec fn read_lines(
    order: OrderPlan,
    plan: StageOneModel,
    results: Seq<Option<Seq<Seq<WireModel>>>>,
    n: int,
) -> Seq<MaterializedModel>
    decreases n,
{
    if n <= 0 {
        Seq::empty()
    } else if order.lines[n - 1].invalid_item {
        read_lines(order, plan, results, n - 1)
    } else {
        read_lines(order, plan, results, n - 1).push(read_line(order, plan, results, n - 1))
    }
}

/// How many lines must have been read.
pub open spec fn expected_reads(order: OrderPlan) -> int {
    order.lines.len() - if order.expected_rollback {
        1int
    } else {
        0int
    }
}

/// Why the results of the first batch are refused.
pub open spec fn first_results_fault(
    order: OrderPlan,
    plan: StageOneModel,
    results: Seq<Option<Seq<Seq<WireModel>>>>,
) -> Option<Violation> {
    let n = order.lines.len() as int;
    first(
        violates(
            plan.line_results.len() != n,
            "New-Order stage-one result map does not match input lines"@,
        ),
        first(
            single_row_fault(results, plan.home_result),
            first(
                home_fault(single_row_of(results, plan.home_result)),
                first(
                    line_reads_fault(order, plan, results, 0),
                    violates(
                        read_lines(order, plan, results, n).len() != expected_reads(order),
                        "New-Order materialized "@ + decimal(
                            read_lines(order, plan, results, n).len(),
                        ) + " valid lines, expected "@ + decimal(expected_reads(order) as nat),
                    ),
                ),
            ),
        ),
    )
}

/// The order that the results of the first batch give.
pub open spec fn first_results_order(
    order: OrderPlan,
    plan: StageOneModel,
    results: Seq<Option<Seq<Seq<WireModel>>>>,
) -> ReadOrder {
    ReadOrder {
        order_id: int32_at(single_row_of(results, plan.home_result), 4),
        lines: read_lines(order, plan, results, order.lines.len() as int),
    }
}

/// What was read for a line, kept to compare with later lines.
struct SeenLine {
    item_id: i32,
    supply_warehouse: i32,
    price: u32,
    version: StockVersion,
    district_info: Vec<u8>,
}

/// Whether kept reads are those of the valid ones of the first `n` lines.
spec fn keeps(
    seen: Seq<SeenLine>,
    order: OrderPlan,
    plan: StageOneModel,
    results: Seq<Option<Seq<Seq<WireModel>>>>,
    n: int,
) -> bool
    decreases n,
{
    if n <= 0 {
        seen.len() == 0
    } else if order.lines[n - 1].invalid_item {
        keeps(seen, order, plan, results, n - 1)
    } else {
        &&& seen.len() > 0
        &&& keeps(seen.drop_last(), order, plan, results, n - 1)
        &&& seen.last().item_id == order.lines[n - 1].item_id
        &&& seen.last().supply_warehouse == order.lines[n - 1].supply_warehouse
        &&& seen.last().price == f32_at(item_rows(plan, results, n - 1)[0], 0)
        &&& seen.last().version == version_at(stock_rows(plan, results, n - 1)[0])
        &&& seen.last().district_info@ == char_at(
            stock_rows(plan, results, n - 1)[0],
            order.district_id + 4,
        )
    }
}

/// A kept read is that of a valid line.
proof fn lemma_kept_is_line(
    seen: Seq<SeenLine>,
    order: OrderPlan,
    plan: StageOneModel,
    results: Seq<Option<Seq<Seq<WireModel>>>>,
    n: int,
    k: int,
) -> (j: int)
    requires
        keeps(seen, order, plan, results, n),
        0 <= k < seen.len(),
    ensures
        0 <= j < n,
        !order.lines[j].invalid_item,
        seen[k].item_id == order.lines[j].item_id,
        seen[k].supply_warehouse == order.lines[j].supply_warehouse,
        seen[k].price == f32_at(item_rows(plan, results, j)[0], 0),
        seen[k].version == version_at(stock_rows(plan, results, j)[0]),
        seen[k].district_info@ == char_at(
            stock_rows(plan, results, j)[0],
            order.district_id + 4,
        ),
    decreases n,
{
    if order.lines[n - 1].invalid_item {
        lemma_kept_is_line(seen, order, plan, results, n - 1, k)
    } else if k == seen.len() - 1 {
        n - 1
    } else {
        assert(seen.drop_last()[k] == seen[k]);
        lemma_kept_is_line(seen.drop_last(), order, plan, results, n - 1, k)
    }
}

/// The read of a valid line is kept.
proof fn lemma_line_is_kept(
    seen: Seq<SeenLine>,
    order: OrderPlan,
    plan: StageOneModel,
    results: Seq<Option<Seq<Seq<WireModel>>>>,
    n: int,
    j: int,
) -> (k: int)
    requires
        keeps(seen, order, plan, results, n),
        0 <= j < n,
        !order.lines[j].invalid_item,
    ensures
        0 <= k < seen.len(),
        seen[k].item_id == order.lines[j].item_id,
        seen[k].supply_warehouse == order.lines[j].supply_warehouse,
        seen[k].price == f32_at(item_rows(plan, results, j)[0], 0),
        seen[k].version == version_at(stock_rows(plan, results, j)[0]),
        seen[k].district_info@ == char_at(
            stock_rows(plan, results, j)[0],
            order.district_id + 4,
        ),
    decreases n,
{
    if order.lines[n - 1].invalid_item {
        lemma_line_is_kept(seen, order, plan, results, n - 1, j)
    } else if j == n - 1 {
        seen.len() - 1
    } else {
        let k = lemma_line_is_kept(seen.drop_last(), order, plan, results, n - 1, j);
        assert(seen.drop_last()[k] == seen[k]);
        k
    }
}

fn price_was_other(seen: &Vec<SeenLine>, item_id: i32, price: u32) -> (r: bool)
    ensures
        r == exists|k: int|
            0 <= k < seen@.len() && (#[trigger] seen@[k]).item_id == item_id && seen@[k].price
                != price,
{
    let mut k: usize = 0;
    while k < seen.len()
        invariant
            k <= seen@.len(),
            forall|m: int|
                0 <= m < k ==> !((#[trigger] seen@[m]).item_id == item_id && seen@[m].price
                    != price),
        decreases seen@.len() - k,
    {
        if seen[k].item_id == item_id && seen[k].price != price {
            assert(seen@[k as int].item_id == item_id);
            return true;
        }
        k = k + 1;
    }
    false
}

fn stock_was_other(seen: &Vec<SeenLine>, warehouse: i32, item_id: i32, read: &StockRead) -> (r: bool)
    ensures
        r == exists|k: int|
            0 <= k < seen@.len() && (#[trigger] seen@[k]).item_id == item_id
                && seen@[k].supply_warehouse == warehouse && (seen@[k].version != read.version
                || seen@[k].district_info@ != read.district_info@),
{
    let mut k: usize = 0;
    while k < seen.len()
        invariant
            k <= seen@.len(),
            forall|m: int|
                0 <= m < k ==> !((#[trigger] seen@[m]).item_id == item_id
                    && seen@[m].supply_warehouse == warehouse && (seen@[m].version != read.version
                    || seen@[m].district_info@ != read.district_info@)),
        decreases seen@.len() - k,
    {
        if seen[k].item_id == item_id && seen[k].supply_warehouse == warehouse {
            let same = bytes_agree(seen[k].district_info.as_slice(), read.district_info.as_slice());
            if seen[k].version != read.version || !same {
                assert(seen@[k as int].item_id == item_id);
                return true;
            }
        }
        k = k + 1;
    }
    false
}

proof fn lemma_price_differs(
    seen: Seq<SeenLine>,
    order: OrderPlan,
    plan: StageOneModel,
    results: Seq<Option<Seq<Seq<WireModel>>>>,
    i: int,
)
    requires
        keeps(seen, order, plan, results, i),
    ensures
        price_differs(order, plan, results, i) == exists|k: int|
            0 <= k < seen.len() && (#[trigger] seen[k]).item_id == order.lines[i].item_id
                && seen[k].price != f32_at(item_rows(plan, results, i)[0], 0),
{
    if price_differs(order, plan, results, i) {
        let j = choose|j: int|
            0 <= j < i && !(#[trigger] order.lines[j]).invalid_item && order.lines[j].item_id
                == order.lines[i].item_id && f32_at(item_rows(plan, results, j)[0], 0) != f32_at(
                item_rows(plan, results, i)[0],
                0,
            );
        let k = lemma_line_is_kept(seen, order, plan, results, i, j);
        assert(seen[k].item_id == order.lines[i].item_id);
    }
    if exists|k: int|
        0 <= k < seen.len() && (#[trigger] seen[k]).item_id == order.lines[i].item_id
            && seen[k].price != f32_at(item_rows(plan, results, i)[0], 0) {
        let k = choose|k: int|
            0 <= k < seen.len() && (#[trigger] seen[k]).item_id == order.lines[i].item_id
                && seen[k].price != f32_at(item_rows(plan, results, i)[0], 0);
        let j = lemma_kept_is_line(seen, order, plan, results, i, k);
        assert(!order.lines[j].invalid_item);
    }
}

proof fn lemma_stock_differs(
    seen: Seq<SeenLine>,
    order: OrderPlan,
    plan: StageOneModel,
    results: Seq<Option<Seq<Seq<WireModel>>>>,
    i: int,
)
    requires
        keeps(seen, order, plan, results, i),
    ensures
        stock_differs(order, plan, results, i) == exists|k: int|
            0 <= k < seen.len() && (#[trigger] seen[k]).item_id == order.lines[i].item_id
                && seen[k].supply_warehouse == order.lines[i].supply_warehouse && (seen[k].version
                != version_at(stock_rows(plan, results, i)[0]) || seen[k].district_info@
                != char_at(stock_rows(plan, results, i)[0], order.district_id + 4)),
{
    let row = stock_rows(plan, results, i)[0];
    if stock_differs(order, plan, results, i) {
        let j = choose|j: int|
            0 <= j < i && !(#[trigger] order.lines[j]).invalid_item && stock_key_of(order.lines[j])
                == stock_key_of(order.lines[i]) && (version_at(stock_rows(plan, results, j)[0])
                != version_at(row) || char_at(
                stock_rows(plan, results, j)[0],
                order.district_id + 4,
            ) != char_at(row, order.district_id + 4));
        let k = lemma_line_is_kept(seen, order, plan, results, i, j);
        assert(seen[k].item_id == order.lines[i].item_id);
    }
    if exists|k: int|
        0 <= k < seen.len() && (#[trigger] seen[k]).item_id == order.lines[i].item_id
            && seen[k].supply_warehouse == order.lines[i].supply_warehouse && (seen[k].version
            != version_at(row) || seen[k].district_info@ != char_at(row, order.district_id + 4)) {
        let k = choose|k: int|
            0 <= k < seen.len() && (#[trigger] seen[k]).item_id == order.lines[i].item_id
                && seen[k].supply_warehouse == order.lines[i].supply_warehouse && (seen[k].version
                != version_at(row) || seen[k].district_info@ != char_at(
                row,
                order.district_id + 4,
            ));
        let j = lemma_kept_is_line(seen, order, plan, results, i, k);
        assert(!order.lines[j].invalid_item);
    }
}

/// Checks the reads of a valid line.
fn parse_valid_line(
    input: &ValidatedInput,
    plan: &StageOnePlan,
    results: &BatchResults,
    seen: &mut Vec<SeenLine>,
    i: usize,
) -> (r: SemanticResult<MaterializedLine>)
    requires
        i < input@.lines.len(),
        plan@.line_results.len() == input@.lines.len(),
        1 <= input.district_id <= 10,
        !input@.lines[i as int].invalid_item,
        keeps(old(seen)@, input@, plan@, results@, i as int),
        has_rows(results@, plan@.line_results[i as int].item as int),
        has_rows(results@, plan@.line_results[i as int].stock as int),
    ensures
        violated(r) == valid_line_fault(input@, plan@, results@, i as int),
        r matches Ok(line) ==> line@ == read_line(input@, plan@, results@, i as int) && keeps(
            final(seen)@,
            input@,
            plan@,
            results@,
            i as int + 1,
        ),
{
    let line = input.lines[i];
    let indices = plan.line_results[i];
    let item_rows = results.rows(indices.item)?;
    let stock_rows = results.rows(indices.stock)?;
    let price: u32 = parse_item(item_rows, line.item_id)?;
    proof {
        lemma_price_differs(seen@, input@, plan@, results@, i as int);
    }
    if price_was_other(seen, line.item_id, price) {
        return Err(
            SemanticViolation::of(
                join3(
                    "item ",
                    int_text(line.item_id).as_str(),
                    " returned inconsistent prices inside one snapshot",
                ),
            ),
        );
    }
    let read = parse_stock(stock_rows, line.supply_warehouse, line.item_id, input.district_id)?;
    proof {
        lemma_stock_differs(seen@, input@, plan@, results@, i as int);
    }
    if stock_was_other(seen, line.supply_warehouse, line.item_id, &read) {
        return Err(
            SemanticViolation::of(
                join2(
                    describe_stock_place(line.supply_warehouse, line.item_id).as_str(),
                    " returned inconsistent rows inside one snapshot",
                ),
            ),
        );
    }
    let amount_bits: u32 = multiply_f32_bits(price, line.quantity)?;
    let ghost before = seen@;
    seen.push(
        SeenLine {
            item_id: line.item_id,
            supply_warehouse: line.supply_warehouse,
            price,
            version: read.version,
            district_info: copy_bytes(read.district_info.as_slice()),
        },
    );
    assert(seen@.drop_last() =~= before);
    Ok(
        MaterializedLine {
            plan: line,
            initial_stock: read.version,
            amount_bits,
            district_info: read.district_info,
        },
    )
}

/// Checks what the first batch returned and takes the order from it.
pub fn parse_stage_one(input: &ValidatedInput, plan: &StageOnePlan, results: &BatchResults) -> (r:
    SemanticResult<MaterializedOrder>)
    requires
        1 <= input.district_id <= 10,
        input.expected_rollback ==> input@.lines.len() > 0,
    ensures
        violated(r) == first_results_fault(input@, plan@, results@),
        r matches Ok(order) ==> order@ == first_results_order(input@, plan@, results@),
{
    let n: usize = input.lines.len();
    if plan.line_results.len() != n {
        return Err(
            SemanticViolation::new("New-Order stage-one result map does not match input lines"),
        );
    }
    let home = results.single_row(plan.home_result)?;
    let order_id: i32 = parse_home(home)?;
    let mut seen: Vec<SeenLine> = Vec::new();
    let mut lines: Vec<MaterializedLine> = Vec::new();
    let ghost order = input@;
    let ghost model = plan@;
    let ghost found = results@;
    let ghost faults = line_reads_fault(order, model, found, 0);
    let ghost whole = first_results_fault(order, model, found);
    let mut i: usize = 0;
    while i < n
        invariant
            i <= n,
            n == order.lines.len(),
            order == input@,
            model == plan@,
            found == results@,
            model.line_results.len() == n,
            1 <= input.district_id <= 10,
            keeps(seen@, order, model, found, i as int),
            faults == line_reads_fault(order, model, found, i as int),
            whole == first_results_fault(order, model, found),
            faults is Some ==> whole == faults,
            line_models(lines@) == read_lines(order, model, found, i as int),
        decreases n - i,
    {
        let line = input.lines[i];
        let indices = plan.line_results[i];
        let item_rows = results.rows(indices.item)?;
        let stock_rows = results.rows(indices.stock)?;
        if line.invalid_item {
            if item_rows.len() > 0 || stock_rows.len() > 0 {
                return Err(
                    SemanticViolation::of(
                        join3(
                            "invalid final item ",
                            int_text(line.item_id).as_str(),
                            " unexpectedly resolved to item or stock rows",
                        ),
                    ),
                );
            }
        } else {
            let read = parse_valid_line(input, plan, results, &mut seen, i)?;
            let ghost before = lines@;
            lines.push(read);
            assert(line_models(lines@) =~= line_models(before).push(read@));
        }
        i = i + 1;
    }
    let expected: usize = if input.expected_rollback {
        n - 1
    } else {
        n
    };
    if lines.len() != expected {
        return Err(
            SemanticViolation::of(
                join4(
                    "New-Order materialized ",
                    unsigned_text(lines.len() as u64).as_str(),
                    " valid lines, expected ",
                    unsigned_text(expected as u64).as_str(),
                ),
            ),
        );
    }
    Ok(MaterializedOrder { order_id, lines })
}

} // verus!
