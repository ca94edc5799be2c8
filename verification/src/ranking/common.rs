//! Strict helpers shared by the transaction runners: complete execution,
//! retryable abort classification, operation-indexed query lookup and typed
//! semantic reads.
use vstd::prelude::*;

use crate::binary32::{difference, difference_bits, finite, is_finite, sum, sum_bits};
use crate::checks::{first, refused_if};
use crate::ranking::statement_id::{StatementId, wire_number};
use crate::text::{decimal, hex_digits, join2, join3, join4, join6, join7, push_hex, unsigned_text};
use crate::wire::{
    BatchQueryResult, BatchResponse, Operation, OperationModel, WireModel, WireValue, row_model,
    rows_model,
};

verus! {

/// The content of a typed operation.
pub open spec fn operation_of(id: StatementId, parameters: Seq<WireModel>) -> OperationModel {
    OperationModel { statement_id: wire_number(id), parameters }
}

/// Builds one typed prepared operation.
pub fn operation(statement_id: StatementId, parameters: Vec<WireValue>) -> (r: Operation)
    ensures
        r@ == operation_of(statement_id, row_model(parameters@)),
{
    Operation { statement_id: statement_id.wire_id(), parameters }
}

/// The only local cleanup operation.
pub fn abort_operation() -> (r: Operation)
    ensures
        r@ == operation_of(StatementId::Abort, Seq::empty()),
{
    let r = operation(StatementId::Abort, Vec::new());
    assert(r@.parameters =~= Seq::empty());
    r
}

/// A server-side or batch-envelope failure.
///
/// Only `RetryableAbort` may be retried with the same frozen input; every
/// other variant is fatal for that client.
#[derive(Clone, Debug, PartialEq, Eq)]
pub enum BatchExecutionError {
    RetryableAbort { executed_operations: u16, failed_operation: u16, diagnostic: String },
    FatalOperation { executed_operations: u16, failed_operation: u16, diagnostic: String },
    FatalTopLevel { diagnostic: String },
    FatalProtocol(String),
}

/// The content of a [`BatchExecutionError`].
#[verifier::ext_equal]
pub enum BatchFault {
    RetryableAbort { executed_operations: u16, failed_operation: u16, diagnostic: Seq<char> },
    FatalOperation { executed_operations: u16, failed_operation: u16, diagnostic: Seq<char> },
    FatalTopLevel { diagnostic: Seq<char> },
    FatalProtocol(Seq<char>),
}

impl View for BatchExecutionError {
    type V = BatchFault;

    open spec fn view(&self) -> BatchFault {
        match *self {
            BatchExecutionError::RetryableAbort {
                executed_operations,
                failed_operation,
                diagnostic,
            } => BatchFault::RetryableAbort {
                executed_operations,
                failed_operation,
                diagnostic: diagnostic@,
            },
            BatchExecutionError::FatalOperation {
                executed_operations,
                failed_operation,
                diagnostic,
            } => BatchFault::FatalOperation {
                executed_operations,
                failed_operation,
                diagnostic: diagnostic@,
            },
            BatchExecutionError::FatalTopLevel { diagnostic } => BatchFault::FatalTopLevel {
                diagnostic: diagnostic@,
            },
            BatchExecutionError::FatalProtocol(detail) => BatchFault::FatalProtocol(detail@),
        }
    }
}

/// The text of a failure.
pub open spec fn batch_fault_text(fault: BatchFault) -> Seq<char> {
    match fault {
        BatchFault::RetryableAbort { executed_operations, failed_operation, diagnostic } =>
            "retryable transaction abort at operation "@ + decimal(failed_operation as nat)
            + " after "@ + decimal(executed_operations as nat) + " operations: "@ + diagnostic,
        BatchFault::FatalOperation { executed_operations, failed_operation, diagnostic } =>
            "fatal batch error at operation "@ + decimal(failed_operation as nat) + " after "@
            + decimal(executed_operations as nat) + " operations: "@ + diagnostic,
        BatchFault::FatalTopLevel { diagnostic } => "fatal top-level batch error: "@ + diagnostic,
        BatchFault::FatalProtocol(detail) => "invalid BATCH_RESULT semantics: "@ + detail,
    }
}

impl BatchExecutionError {
    pub fn is_retryable_abort(&self) -> (r: bool)
        ensures
            r == (self@ is RetryableAbort),
    {
        matches!(self, BatchExecutionError::RetryableAbort { .. })
    }

    /// The text of the failure.
    pub fn message(&self) -> (r: String)
        ensures
            r@ == batch_fault_text(self@),
    {
        match self {
            BatchExecutionError::RetryableAbort {
                executed_operations,
                failed_operation,
                diagnostic,
            } => join6(
                "retryable transaction abort at operation ",
                unsigned_text(*failed_operation as u64).as_str(),
                " after ",
                unsigned_text(*executed_operations as u64).as_str(),
                " operations: ",
                diagnostic.as_str(),
            ),
            BatchExecutionError::FatalOperation {
                executed_operations,
                failed_operation,
                diagnostic,
            } => join6(
                "fatal batch error at operation ",
                unsigned_text(*failed_operation as u64).as_str(),
                " after ",
                unsigned_text(*executed_operations as u64).as_str(),
                " operations: ",
                diagnostic.as_str(),
            ),
            BatchExecutionError::FatalTopLevel { diagnostic } => join2(
                "fatal top-level batch error: ",
                diagnostic.as_str(),
            ),
            BatchExecutionError::FatalProtocol(detail) => join2(
                "invalid BATCH_RESULT semantics: ",
                detail.as_str(),
            ),
        }
    }
}

/// The refusal of a batch.
pub open spec fn batch_refusal<T>(r: Result<T, BatchExecutionError>) -> Option<BatchFault> {
    match r {
        Ok(_) => None,
        Err(error) => Some(error@),
    }
}

/// Query results of one complete batch, by the index of their operation.
#[derive(Clone, Debug, PartialEq, Eq)]
pub struct BatchResults {
    pub query_rows: Vec<Option<Vec<Vec<WireValue>>>>,
}

/// The rows of each operation that has any.
pub open spec fn results_model(query_rows: Seq<Option<Vec<Vec<WireValue>>>>) -> Seq<
    Option<Seq<Seq<WireModel>>>,
> {
    Seq::new(
        query_rows.len(),
        |i: int|
            match query_rows[i] {
                Some(rows) => Some(rows_model(rows@)),
                None => None,
            },
    )
}

impl View for BatchResults {
    type V = Seq<Option<Seq<Seq<WireModel>>>>;

    open spec fn view(&self) -> Seq<Option<Seq<Seq<WireModel>>>> {
        results_model(self.query_rows@)
    }
}

/// The results at an index are there.
pub open spec fn has_rows(results: Seq<Option<Seq<Seq<WireModel>>>>, index: int) -> bool {
    index < results.len() && results[index] is Some
}

/// A violation of the expected transaction semantics.
#[verifier::ext_equal]
pub struct Violation {
    pub message: Seq<char>,
    pub shown: Option<u32>,
    pub rest: Seq<char>,
    pub explicit_abort: bool,
}

/// A violation that needs no abort.
pub open spec fn violation(message: Seq<char>) -> Violation {
    Violation { message, shown: None, rest: Seq::empty(), explicit_abort: false }
}

/// A violation whose message shows a FLOAT32 value.
pub open spec fn float_violation(before: Seq<char>, bits: u32, after: Seq<char>) -> Violation {
    Violation { message: before, shown: Some(bits), rest: after, explicit_abort: false }
}

/// The message of a violation, where `decimal` is the value that it shows.
pub open spec fn violation_text(v: Violation, decimal: Seq<char>) -> Seq<char> {
    if v.shown is Some {
        v.message + decimal + v.rest
    } else {
        v.message
    }
}

/// A result that was valid on the wire but violates the expected transaction
/// semantics.
///
/// Where it is found inside an open transaction, the caller marks it and sends
/// [`abort_operation`] before it returns the failure.
///
/// A message that shows a FLOAT32 value in decimal is kept in two halves, with
/// the bits of the value between them: whoever prints it has the number type.
#[derive(Clone, Debug, PartialEq, Eq)]
pub struct SemanticViolation {
    pub message: String,
    pub shown: Option<u32>,
    pub rest: String,
    pub explicit_abort_required: bool,
}

impl View for SemanticViolation {
    type V = Violation;

    open spec fn view(&self) -> Violation {
        Violation {
            message: self.message@,
            shown: self.shown,
            rest: self.rest@,
            explicit_abort: self.explicit_abort_required,
        }
    }
}

pub type SemanticResult<T> = Result<T, SemanticViolation>;

/// The violation of a result.
pub open spec fn violated<T>(r: SemanticResult<T>) -> Option<Violation> {
    match r {
        Ok(_) => None,
        Err(error) => Some(error@),
    }
}

/// Stops with a message when `bad` holds.
pub open spec fn violates(bad: bool, message: Seq<char>) -> Option<Violation> {
    refused_if(bad, violation(message))
}

impl SemanticViolation {
    pub fn new(message: &str) -> (r: Self)
        ensures
            r@ == violation(message@),
    {
        SemanticViolation::of(message.to_owned())
    }

    /// A violation with a composed message.
    pub fn of(message: String) -> (r: Self)
        ensures
            r@ == violation(message@),
    {
        let r = SemanticViolation {
            message,
            shown: None,
            rest: String::new(),
            explicit_abort_required: false,
        };
        assert(r@ =~= violation(message@));
        r
    }

    /// A violation whose message shows the value with these bits.
    pub fn of_float(before: String, bits: u32, after: String) -> (r: Self)
        ensures
            r@ == float_violation(before@, bits, after@),
    {
        SemanticViolation {
            message: before,
            shown: Some(bits),
            rest: after,
            explicit_abort_required: false,
        }
    }

    /// The bits of the value that the message shows in decimal, if it shows one.
    pub fn shown_bits(&self) -> (r: Option<u32>)
        ensures
            r == self@.shown,
    {
        self.shown
    }

    /// The message, where `decimal` is the text of the value that it shows.
    pub fn message_with(&self, decimal: &str) -> (r: String)
        ensures
            r@ == violation_text(self@, decimal@),
    {
        match self.shown {
            Some(_) => join3(self.message.as_str(), decimal, self.rest.as_str()),
            None => self.message.as_str().to_owned(),
        }
    }

    /// The message of a violation that shows no value.

    pub fn message(&self) -> (r: &str)
        requires
            self@.shown is None,
        ensures
            r@ == violation_text(self@, Seq::empty()),
    {
        self.message.as_str()
    }

    pub fn requires_explicit_abort(&self) -> (r: bool)
        ensures
            r == self@.explicit_abort,
    {
        self.explicit_abort_required
    }

    pub fn require_explicit_abort(self) -> (r: Self)
        ensures
            r@ == (Violation { explicit_abort: true, ..self@ }),
    {
        SemanticViolation { explicit_abort_required: true, ..self }
    }
}

/// Marks a semantic read performed inside an open transaction.
pub trait SemanticResultExt<T>: Sized {
    fn require_explicit_abort(self) -> SemanticResult<T>;
}

impl<T> SemanticResultExt<T> for Result<T, SemanticViolation> {
    fn require_explicit_abort(self) -> (r: SemanticResult<T>)
        ensures
            self is Ok ==> r == self,
            self matches Err(error) ==> violated(r) == Some(
                Violation { explicit_abort: true, ..error@ },
            ),
    {
        match self {
            Ok(value) => Ok(value),
            Err(error) => Err(error.require_explicit_abort()),
        }
    }
}

/// Why an index has no rows.
pub open spec fn rows_fault(results: Seq<Option<Seq<Seq<WireModel>>>>, index: int) -> Option<
    Violation,
> {
    violates(
        !has_rows(results, index),
        "operation "@ + decimal(index as nat) + " has no query result"@,
    )
}

/// Why an index does not have exactly one row.
pub open spec fn single_row_fault(results: Seq<Option<Seq<Seq<WireModel>>>>, index: int) -> Option<
    Violation,
> {
    first(
        rows_fault(results, index),
        one_row_fault("operation "@ + decimal(index as nat), results[index]->0.len()),
    )
}

/// Why a number of rows is not one.
pub open spec fn one_row_fault(context: Seq<char>, rows: nat) -> Option<Violation> {
    first(
        violates(rows == 0, context + " returned no rows; expected exactly one"@),
        violates(
            rows != 1,
            context + " returned "@ + decimal(rows) + " rows; expected exactly one"@,
        ),
    )
}

/// The only row at an index.
pub open spec fn single_row_of(results: Seq<Option<Seq<Seq<WireModel>>>>, index: int) -> Seq<
    WireModel,
> {
    results[index]->0[0]
}

/// Why the only row at an index is not a single value.
pub open spec fn scalar_fault(results: Seq<Option<Seq<Seq<WireModel>>>>, index: int) -> Option<
    Violation,
> {
    first(
        single_row_fault(results, index),
        violates(
            single_row_of(results, index).len() != 1,
            "operation "@ + decimal(index as nat) + " returned "@ + decimal(
                single_row_of(results, index).len(),
            ) + " columns; expected exactly one"@,
        ),
    )
}

/// The name of a value's type.
pub open spec fn kind_text(value: WireModel) -> Seq<char> {
    match value {
        WireModel::Null => "NULL"@,
        WireModel::Int32(_) => "INT32"@,
        WireModel::Float32(_) => "FLOAT32"@,
        WireModel::Char(_) => "CHAR"@,
    }
}

/// The message of a row that is too short.
pub open spec fn missing_text(context: Seq<char>, column: int) -> Seq<char> {
    context + " has no column "@ + decimal(column as nat) + "; result row is too short"@
}

/// The message of a value of another type.
pub open spec fn wrong_type_text(
    context: Seq<char>,
    column: int,
    expected: Seq<char>,
    actual: WireModel,
) -> Seq<char> {
    context + " column "@ + decimal(column as nat) + " expected "@ + expected + ", got "@
        + kind_text(actual)
}

/// The message of a pattern that is no finite value.
pub open spec fn non_finite_text(context: Seq<char>, bits: u32) -> Seq<char> {
    context + " must be finite, got bits 0x"@ + hex_digits(bits as nat, 8)
}

/// Why a pattern is refused as a value.
pub open spec fn non_finite_fault(context: Seq<char>, bits: u32) -> Option<Violation> {
    violates(!is_finite(bits), non_finite_text(context, bits))
}

/// Why a column is refused as INT32.
pub open spec fn int32_fault(row: Seq<WireModel>, column: int, context: Seq<char>) -> Option<
    Violation,
> {
    if column >= row.len() {
        Some(violation(missing_text(context, column)))
    } else {
        violates(
            !(row[column] is Int32),
            wrong_type_text(context, column, "INT32"@, row[column]),
        )
    }
}

/// Why a column is refused as a finite FLOAT32.
pub open spec fn f32_fault(row: Seq<WireModel>, column: int, context: Seq<char>) -> Option<
    Violation,
> {
    if column >= row.len() {
        Some(violation(missing_text(context, column)))
    } else {
        match row[column] {
            WireModel::Float32(bits) => non_finite_fault(
                context + " column "@ + decimal(column as nat),
                bits,
            ),
            other => Some(violation(wrong_type_text(context, column, "FLOAT32"@, other))),
        }
    }
}

/// Why a column is refused as CHAR.
pub open spec fn char_fault(row: Seq<WireModel>, column: int, context: Seq<char>) -> Option<
    Violation,
> {
    if column >= row.len() {
        Some(violation(missing_text(context, column)))
    } else {
        violates(
            !(row[column] is Char),
            wrong_type_text(context, column, "CHAR"@, row[column]),
        )
    }
}

/// Why an index does not have exactly one INT32.
pub open spec fn single_int32_fault(results: Seq<Option<Seq<Seq<WireModel>>>>, index: int) -> Option<
    Violation,
> {
    first(
        scalar_fault(results, index),
        int32_fault(single_row_of(results, index), 0, "operation "@ + decimal(index as nat)),
    )
}

/// Why an index does not have exactly one finite FLOAT32.
pub open spec fn single_f32_fault(results: Seq<Option<Seq<Seq<WireModel>>>>, index: int) -> Option<
    Violation,
> {
    first(
        scalar_fault(results, index),
        f32_fault(single_row_of(results, index), 0, "operation "@ + decimal(index as nat)),
    )
}

/// Why an index does not have exactly one CHAR.
pub open spec fn single_char_fault(results: Seq<Option<Seq<Seq<WireModel>>>>, index: int) -> Option<
    Violation,
> {
    first(
        scalar_fault(results, index),
        char_fault(single_row_of(results, index), 0, "operation "@ + decimal(index as nat)),
    )
}

/// The number in a column.
pub open spec fn int32_at(row: Seq<WireModel>, column: int) -> i32 {
    row[column]->Int32_0
}

/// The bits in a column.
pub open spec fn f32_at(row: Seq<WireModel>, column: int) -> u32 {
    row[column]->Float32_0
}

/// The bytes in a column.
pub open spec fn char_at(row: Seq<WireModel>, column: int) -> Seq<u8> {
    row[column]->Char_0
}

pub(crate) fn value_kind(value: &WireValue) -> (r: &'static str)
    ensures
        r@ == kind_text(value@),
{
    match value {
        WireValue::Null => "NULL",
        WireValue::Int32(_) => "INT32",
        WireValue::Float32(_) => "FLOAT32",
        WireValue::Char(_) => "CHAR",
    }
}

fn missing_cell(context: &str, column_index: usize) -> (r: SemanticViolation)
    ensures
        r@ == violation(missing_text(context@, column_index as int)),
{
    SemanticViolation::of(
        join4(
            context,
            " has no column ",
            unsigned_text(column_index as u64).as_str(),
            "; result row is too short",
        ),
    )
}

fn wrong_cell_type(context: &str, column_index: usize, expected: &str, actual: &WireValue) -> (r:
    SemanticViolation)
    ensures
        r@ == violation(wrong_type_text(context@, column_index as int, expected@, actual@)),
{
    SemanticViolation::of(
        join7(
            context,
            " column ",
            unsigned_text(column_index as u64).as_str(),
            " expected ",
            expected,
            ", got ",
            value_kind(actual),
        ),
    )
}

pub(crate) fn finite_f32(bits: u32, context: &str) -> (r: SemanticResult<()>)
    ensures
        violated(r) == non_finite_fault(context@, bits),
{
    if finite(bits) {
        Ok(())
    } else {
        Err(
            SemanticViolation::of(
                join3(context, " must be finite, got bits 0x", hex8(bits).as_str()),
            ),
        )
    }
}

pub(crate) fn hex8(bits: u32) -> (r: String)
    ensures
        r@ == hex_digits(bits as nat, 8),
{
    let mut out = String::new();
    push_hex(&mut out, bits as u64, 8);
    assert(out@ =~= hex_digits(bits as nat, 8));
    out
}

pub fn row_int32(row: &[WireValue], column_index: usize, context: &str) -> (r: SemanticResult<i32>)
    ensures
        violated(r) == int32_fault(row_model(row@), column_index as int, context@),
        r matches Ok(n) ==> n == int32_at(row_model(row@), column_index as int),
{
    if column_index >= row.len() {
        return Err(missing_cell(context, column_index));
    }
    match &row[column_index] {
        WireValue::Int32(value) => Ok(*value),
        other => Err(wrong_cell_type(context, column_index, "INT32", other)),
    }
}

/// Reads raw binary32 bits and rejects non-finite values.
pub fn row_f32_bits(row: &[WireValue], column_index: usize, context: &str) -> (r: SemanticResult<
    u32,
>)
    ensures
        violated(r) == f32_fault(row_model(row@), column_index as int, context@),
        r matches Ok(bits) ==> bits == f32_at(row_model(row@), column_index as int) && is_finite(
            bits,
        ),
{
    if column_index >= row.len() {
        return Err(missing_cell(context, column_index));
    }
    match &row[column_index] {
        WireValue::Float32(bits) => {
            finite_f32(
                *bits,
                join3(context, " column ", unsigned_text(column_index as u64).as_str()).as_str(),
            )?;
            Ok(*bits)
        },
        other => Err(wrong_cell_type(context, column_index, "FLOAT32", other)),
    }
}

pub fn row_char<'a>(row: &'a [WireValue], column_index: usize, context: &str) -> (r: SemanticResult<
    &'a [u8],
>)
    ensures
        violated(r) == char_fault(row_model(row@), column_index as int, context@),
        r matches Ok(bytes) ==> bytes@ == char_at(row_model(row@), column_index as int),
{
    if column_index >= row.len() {
        return Err(missing_cell(context, column_index));
    }
    match &row[column_index] {
        WireValue::Char(value) => Ok(value.as_slice()),
        other => Err(wrong_cell_type(context, column_index, "CHAR", other)),
    }
}

fn operation_name(operation_index: usize) -> (r: String)
    ensures
        r@ == "operation "@ + decimal(operation_index as nat),
{
    join2("operation ", unsigned_text(operation_index as u64).as_str())
}

/// The only row of a query.
pub(crate) fn exactly_one_row<'a>(rows: &'a [Vec<WireValue>], context: &str) -> (r: SemanticResult<
    &'a [WireValue],
>)
    ensures
        violated(r) == one_row_fault(context@, rows@.len()),
        r matches Ok(row) ==> row@ == rows@[0]@,
{
    if rows.len() == 0 {
        return Err(
            SemanticViolation::of(join2(context, " returned no rows; expected exactly one")),
        );
    }
    if rows.len() != 1 {
        return Err(
            SemanticViolation::of(
                join4(
                    context,
                    " returned ",
                    unsigned_text(rows.len() as u64).as_str(),
                    " rows; expected exactly one",
                ),
            ),
        );
    }
    Ok(rows[0].as_slice())
}

impl BatchResults {
    pub fn operation_count(&self) -> (r: usize)
        ensures
            r == self@.len(),
    {
        self.query_rows.len()
    }

    /// Fetches all rows produced by a query operation.
    ///
    /// Missing results are violations: a command or a missing result is not an
    /// empty query result.
    pub fn rows(&self, operation_index: usize) -> (r: SemanticResult<&[Vec<WireValue>]>)
        ensures
            violated(r) == rows_fault(self@, operation_index as int),
            r matches Ok(rows) ==> has_rows(self@, operation_index as int) && rows_model(rows@)
                == self@[operation_index as int]->0,
    {
        if operation_index < self.query_rows.len() {
            if let Some(rows) = &self.query_rows[operation_index] {
                return Ok(rows.as_slice());
            }
        }
        Err(
            SemanticViolation::of(
                join2(operation_name(operation_index).as_str(), " has no query result"),
            ),
        )
    }

    /// Fetches exactly one row, of any number of columns.
    pub fn single_row(&self, operation_index: usize) -> (r: SemanticResult<&[WireValue]>)
        ensures
            violated(r) == single_row_fault(self@, operation_index as int),
            r matches Ok(row) ==> row_model(row@) == single_row_of(self@, operation_index as int),
    {
        let rows = self.rows(operation_index)?;
        exactly_one_row(rows, operation_name(operation_index).as_str())
    }

    fn single_scalar_row(&self, operation_index: usize) -> (r: SemanticResult<&[WireValue]>)
        ensures
            violated(r) == scalar_fault(self@, operation_index as int),
            r matches Ok(row) ==> row_model(row@) == single_row_of(self@, operation_index as int),
    {
        let row = self.single_row(operation_index)?;
        if row.len() != 1 {
            return Err(
                SemanticViolation::of(
                    join4(
                        operation_name(operation_index).as_str(),
                        " returned ",
                        unsigned_text(row.len() as u64).as_str(),
                        " columns; expected exactly one",
                    ),
                ),
            );
        }
        Ok(row)
    }

    pub fn single_int32(&self, operation_index: usize) -> (r: SemanticResult<i32>)
        ensures
            violated(r) == single_int32_fault(self@, operation_index as int),
            r matches Ok(n) ==> n == int32_at(single_row_of(self@, operation_index as int), 0),
    {
        let row = self.single_scalar_row(operation_index)?;
        row_int32(row, 0, operation_name(operation_index).as_str())
    }

    /// Returns the raw binary32 bits.
    pub fn single_f32_bits(&self, operation_index: usize) -> (r: SemanticResult<u32>)
        ensures
            violated(r) == single_f32_fault(self@, operation_index as int),
            r matches Ok(bits) ==> bits == f32_at(
                single_row_of(self@, operation_index as int),
                0,
            ),
    {
        let row = self.single_scalar_row(operation_index)?;
        row_f32_bits(row, 0, operation_name(operation_index).as_str())
    }

    pub fn single_char(&self, operation_index: usize) -> (r: SemanticResult<&[u8]>)
        ensures
            violated(r) == single_char_fault(self@, operation_index as int),
            r matches Ok(bytes) ==> bytes@ == char_at(
                single_row_of(self@, operation_index as int),
                0,
            ),
    {
        let row = self.single_scalar_row(operation_index)?;
        row_char(row, 0, operation_name(operation_index).as_str())
    }
}

/// Why the results from `i` on are refused; `last` is the index before them.
pub open spec fn result_indices_fault(
    results: Seq<BatchQueryResult>,
    operations: nat,
    last: int,
    i: int,
) -> Option<BatchFault>
    decreases results.len() - i,
{
    if i >= results.len() {
        None
    } else {
        let index = results[i].operation_index;
        first(
            refused_if(
                index >= operations,
                BatchFault::FatalProtocol(
                    "query result operation index "@ + decimal(index as nat)
                        + " is outside batch length "@ + decimal(operations),
                ),
            ),
            first(
                refused_if(
                    index <= last,
                    BatchFault::FatalProtocol(
                        "query result operation index "@ + decimal(index as nat)
                            + " is not strictly increasing"@,
                    ),
                ),
                result_indices_fault(results, operations, index as int, i + 1),
            ),
        )
    }
}

/// The rows by operation, from the results before `n`.
pub open spec fn indexed_rows(results: Seq<BatchQueryResult>, operations: nat, n: int) -> Seq<
    Option<Seq<Seq<WireModel>>>,
>
    decreases n,
{
    if n <= 0 {
        Seq::new(operations, |i: int| None)
    } else {
        indexed_rows(results, operations, n - 1).update(
            results[n - 1].operation_index as int,
            Some(rows_model(results[n - 1].rows@)),
        )
    }
}

/// Why a failure names a wrong operation.
pub open spec fn failed_index_fault(executed: u16, failed: u16, operations: nat) -> Option<
    BatchFault,
> {
    first(
        refused_if(
            failed != executed,
            BatchFault::FatalProtocol(
                "failed operation "@ + decimal(failed as nat)
                    + " does not equal executed operation count "@ + decimal(executed as nat),
            ),
        ),
        refused_if(
            failed >= operations,
            BatchFault::FatalProtocol(
                "failed operation "@ + decimal(failed as nat) + " is outside batch length "@
                    + decimal(operations),
            ),
        ),
    )
}

/// Why an answer to `operations` operations is no complete success.
pub open spec fn response_fault(response: BatchResponse, operations: nat) -> Option<BatchFault> {
    match response {
        BatchResponse::Complete { executed_operations, results } => first(
            refused_if(
                executed_operations != operations,
                BatchFault::FatalProtocol(
                    "successful batch executed "@ + decimal(executed_operations as nat)
                        + " operations, expected "@ + decimal(operations),
                ),
            ),
            result_indices_fault(results@, operations, -1, 0),
        ),
        BatchResponse::TransactionAbort { executed_operations, failed_operation, diagnostic } => {
            first(
                failed_index_fault(executed_operations, failed_operation, operations),
                Some(
                    BatchFault::RetryableAbort {
                        executed_operations,
                        failed_operation,
                        diagnostic: diagnostic@,
                    },
                ),
            )
        },
        BatchResponse::Error { executed_operations, failed_operation, diagnostic } => first(
            failed_index_fault(executed_operations, failed_operation, operations),
            Some(
                BatchFault::FatalOperation {
                    executed_operations,
                    failed_operation,
                    diagnostic: diagnostic@,
                },
            ),
        ),
        BatchResponse::TopLevelError { diagnostic } => Some(
            BatchFault::FatalTopLevel { diagnostic: diagnostic@ },
        ),
    }
}

/// The rows of a complete answer.
pub open spec fn response_rows(response: BatchResponse, operations: nat) -> Seq<
    Option<Seq<Seq<WireModel>>>,
> {
    indexed_rows(response->results@, operations, response->results@.len() as int)
}

/// Only a transaction abort is retried.
pub proof fn law_only_aborts_are_retryable(response: BatchResponse, operations: nat)
    ensures
        response_fault(response, operations) matches Some(fault) && fault is RetryableAbort
            ==> response is TransactionAbort,
{
    if let BatchResponse::Complete { results, .. } = response {
        lemma_indices_fault_kind(results@, operations, -1, 0);
    }
}

proof fn lemma_indices_fault_kind(
    results: Seq<BatchQueryResult>,
    operations: nat,
    last: int,
    i: int,
)
    requires
        0 <= i,
    ensures
        result_indices_fault(results, operations, last, i) matches Some(fault) ==> fault
            is FatalProtocol,
    decreases results.len() - i,
{
    if i < results.len() {
        lemma_indices_fault_kind(results, operations, results[i].operation_index as int, i + 1);
    }
}

fn protocol(detail: String) -> (r: BatchExecutionError)
    ensures
        r@ == BatchFault::FatalProtocol(detail@),
{
    BatchExecutionError::FatalProtocol(detail)
}

fn validate_failed_index(executed_operations: u16, failed_operation: u16, operations: usize) -> (r:
    Result<(), BatchExecutionError>)
    ensures
        batch_refusal(r) == failed_index_fault(
            executed_operations,
            failed_operation,
            operations as nat,
        ),
{
    if failed_operation != executed_operations {
        return Err(
            protocol(
                join4(
                    "failed operation ",
                    unsigned_text(failed_operation as u64).as_str(),
                    " does not equal executed operation count ",
                    unsigned_text(executed_operations as u64).as_str(),
                ),
            ),
        );
    }
    if failed_operation as usize >= operations {
        return Err(
            protocol(
                join4(
                    "failed operation ",
                    unsigned_text(failed_operation as u64).as_str(),
                    " is outside batch length ",
                    unsigned_text(operations as u64).as_str(),
                ),
            ),
        );
    }
    Ok(())
}

fn validate_indices(results: &Vec<BatchQueryResult>, operations: usize) -> (r: Result<
    (),
    BatchExecutionError,
>)
    ensures
        batch_refusal(r) == result_indices_fault(results@, operations as nat, -1, 0),
        r is Ok ==> forall|i: int|
            0 <= i < results@.len() ==> (#[trigger] results@[i]).operation_index < operations,
{
    let mut last: i64 = -1;
    let mut i: usize = 0;
    while i < results.len()
        invariant
            i <= results@.len(),
            result_indices_fault(results@, operations as nat, -1, 0) == result_indices_fault(
                results@,
                operations as nat,
                last as int,
                i as int,
            ),
            forall|k: int|
                0 <= k < i ==> (#[trigger] results@[k]).operation_index < operations,
        decreases results@.len() - i,
    {
        let index: u16 = results[i].operation_index;
        if index as usize >= operations {
            return Err(
                protocol(
                    join4(
                        "query result operation index ",
                        unsigned_text(index as u64).as_str(),
                        " is outside batch length ",
                        unsigned_text(operations as u64).as_str(),
                    ),
                ),
            );
        }
        if index as i64 <= last {
            return Err(
                protocol(
                    join3(
                        "query result operation index ",
                        unsigned_text(index as u64).as_str(),
                        " is not strictly increasing",
                    ),
                ),
            );
        }
        last = index as i64;
        i = i + 1;
    }
    Ok(())
}

/// Puts each result at the index of its operation.
fn index_results(results: Vec<BatchQueryResult>, operations: usize) -> (r: BatchResults)
    requires
        result_indices_fault(results@, operations as nat, -1, 0) is None,
        forall|i: int|
            0 <= i < results@.len() ==> (#[trigger] results@[i]).operation_index < operations,
    ensures
        r@ == indexed_rows(results@, operations as nat, results@.len() as int),
{
    let ghost all = results@;
    let mut rest = results;
    let mut query_rows: Vec<Option<Vec<Vec<WireValue>>>> = Vec::new();
    let mut k: usize = 0;
    while k < operations
        invariant
            k <= operations,
            query_rows@ == Seq::new(k as nat, |i: int| None::<Vec<Vec<WireValue>>>),
        decreases operations - k,
    {
        query_rows.push(None);
        k = k + 1;
    }
    let ghost mut done: int = 0;
    assert(rest@ =~= all.subrange(0, all.len() as int));
    assert(results_model(query_rows@) =~= indexed_rows(all, operations as nat, 0));
    while rest.len() > 0
        invariant
            0 <= done <= all.len(),
            rest@ == all.subrange(done, all.len() as int),
            query_rows@.len() == operations,
            forall|i: int|
                0 <= i < all.len() ==> (#[trigger] all[i]).operation_index < operations,
            results_model(query_rows@) == indexed_rows(all, operations as nat, done),
        decreases rest@.len(),
    {
        let result = rest.remove(0);
        assert(result == all[done]);
        let index: usize = result.operation_index as usize;
        let ghost before = query_rows@;
        query_rows.set(index, Some(result.rows));
        proof {
            assert(results_model(query_rows@) =~= results_model(before).update(
                index as int,
                Some(rows_model(all[done].rows@)),
            ));
            done = done + 1;
        }
        assert(rest@ =~= all.subrange(done, all.len() as int));
    }
    BatchResults { query_rows }
}

/// Accepts only a complete successful batch and keeps retryability exactly.
pub fn accept_batch(response: BatchResponse, operations: &[Operation]) -> (r: Result<
    BatchResults,
    BatchExecutionError,
>)
    ensures
        batch_refusal(r) == response_fault(response, operations@.len()),
        r matches Ok(results) ==> response is Complete && results@ == response_rows(
            response,
            operations@.len(),
        ),
{
    match response {
        BatchResponse::Complete { executed_operations, results } => {
            if executed_operations as usize != operations.len() {
                return Err(
                    protocol(
                        join4(
                            "successful batch executed ",
                            unsigned_text(executed_operations as u64).as_str(),
                            " operations, expected ",
                            unsigned_text(operations.len() as u64).as_str(),
                        ),
                    ),
                );
            }
            validate_indices(&results, operations.len())?;
            Ok(index_results(results, operations.len()))
        },
        BatchResponse::TransactionAbort { executed_operations, failed_operation, diagnostic } => {
            validate_failed_index(executed_operations, failed_operation, operations.len())?;
            Err(
                BatchExecutionError::RetryableAbort {
                    executed_operations,
                    failed_operation,
                    diagnostic,
                },
            )
        },
        BatchResponse::Error { executed_operations, failed_operation, diagnostic } => {
            validate_failed_index(executed_operations, failed_operation, operations.len())?;
            Err(
                BatchExecutionError::FatalOperation {
                    executed_operations,
                    failed_operation,
                    diagnostic,
                },
            )
        },
        BatchResponse::TopLevelError { diagnostic } => Err(
            BatchExecutionError::FatalTopLevel { diagnostic },
        ),
    }
}

/// Why a sum is refused.
pub open spec fn f32_add_fault(left: u32, right: u32) -> Option<Violation> {
    first(
        non_finite_fault("FLOAT32 add left operand"@, left),
        first(
            non_finite_fault("FLOAT32 add right operand"@, right),
            violates(
                sum(left, right) is None,
                "FLOAT32 addition produced a non-finite result"@,
            ),
        ),
    )
}

/// Why a difference is refused.
pub open spec fn f32_sub_fault(left: u32, right: u32) -> Option<Violation> {
    first(
        non_finite_fault("FLOAT32 subtract left operand"@, left),
        first(
            non_finite_fault("FLOAT32 subtract right operand"@, right),
            violates(
                difference(left, right) is None,
                "FLOAT32 subtraction produced a non-finite result"@,
            ),
        ),
    )
}

/// Performs exactly one binary32 addition.
pub fn f32_add_bits(left_bits: u32, right_bits: u32) -> (r: SemanticResult<u32>)
    ensures
        violated(r) == f32_add_fault(left_bits, right_bits),
        r matches Ok(bits) ==> sum(left_bits, right_bits) == Some(bits),
{
    finite_f32(left_bits, "FLOAT32 add left operand")?;
    finite_f32(right_bits, "FLOAT32 add right operand")?;
    match sum_bits(left_bits, right_bits) {
        Some(bits) => Ok(bits),
        None => Err(SemanticViolation::new("FLOAT32 addition produced a non-finite result")),
    }
}

/// Performs exactly one binary32 subtraction.
pub fn f32_sub_bits(left_bits: u32, right_bits: u32) -> (r: SemanticResult<u32>)
    ensures
        violated(r) == f32_sub_fault(left_bits, right_bits),
        r matches Ok(bits) ==> difference(left_bits, right_bits) == Some(bits),
{
    finite_f32(left_bits, "FLOAT32 subtract left operand")?;
    finite_f32(right_bits, "FLOAT32 subtract right operand")?;
    match difference_bits(left_bits, right_bits) {
        Some(bits) => Ok(bits),
        None => Err(SemanticViolation::new("FLOAT32 subtraction produced a non-finite result")),
    }
}

/// Why an observed value is not the expected one.
pub open spec fn f32_mismatch_fault(
    expected: u32,
    actual: u32,
    context: Seq<char>,
    name: Seq<char>,
) -> Option<Violation> {
    first(
        non_finite_fault(context + " actual value"@, actual),
        violates(
            actual != expected,
            context + " FLOAT32 "@ + name + " mismatch: expected bits 0x"@ + hex_digits(
                expected as nat,
                8,
            ) + ", got 0x"@ + hex_digits(actual as nat, 8),
        ),
    )
}

fn expect_f32_bits(expected_bits: u32, actual_bits: u32, context: &str, operation_name: &str) -> (r:
    SemanticResult<()>)
    ensures
        violated(r) == f32_mismatch_fault(
            expected_bits,
            actual_bits,
            context@,
            operation_name@,
        ),
{
    finite_f32(actual_bits, join2(context, " actual value").as_str())?;
    if actual_bits != expected_bits {
        return Err(
            SemanticViolation::of(
                join7(
                    context,
                    " FLOAT32 ",
                    operation_name,
                    " mismatch: expected bits 0x",
                    hex8(expected_bits).as_str(),
                    ", got 0x",
                    hex8(actual_bits).as_str(),
                ),
            ),
        );
    }
    Ok(())
}

pub fn expect_f32_add(before_bits: u32, delta_bits: u32, actual_bits: u32, context: &str) -> (r:
    SemanticResult<()>)
    ensures
        violated(r) == first(
            f32_add_fault(before_bits, delta_bits),
            f32_mismatch_fault(
                sum(before_bits, delta_bits)->0,
                actual_bits,
                context@,
                "addition"@,
            ),
        ),
{
    let expected: u32 = f32_add_bits(before_bits, delta_bits)?;
    expect_f32_bits(expected, actual_bits, context, "addition")
}

pub fn expect_f32_sub(before_bits: u32, delta_bits: u32, actual_bits: u32, context: &str) -> (r:
    SemanticResult<()>)
    ensures
        violated(r) == first(
            f32_sub_fault(before_bits, delta_bits),
            f32_mismatch_fault(
                difference(before_bits, delta_bits)->0,
                actual_bits,
                context@,
                "subtraction"@,
            ),
        ),
{
    let expected: u32 = f32_sub_bits(before_bits, delta_bits)?;
    expect_f32_bits(expected, actual_bits, context, "subtraction")
}

/// Selects the stable lower median from rows in order: `(n - 1) / 2`.
pub fn customer_lower_median<T>(ordered_rows: &[T]) -> (r: SemanticResult<&T>)
    ensures
        violated(r) == violates(
            ordered_rows@.len() == 0,
            "customer surname lookup returned no rows"@,
        ),
        r matches Ok(row) ==> *row == ordered_rows@[(ordered_rows@.len() - 1) / 2],
{
    if ordered_rows.len() == 0 {
        return Err(SemanticViolation::new("customer surname lookup returned no rows"));
    }
    Ok(&ordered_rows[(ordered_rows.len() - 1) / 2])
}

} // verus!
