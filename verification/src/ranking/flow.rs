//! How a transaction goes on: the failures that end it, and what an answer of
//! the server leads to.
//!
//! A flow holds the batch that is sent next. The answer to it leads to the next
//! batch or to the end.
use vstd::prelude::*;

use crate::ranking::common::{
    BatchExecutionError, BatchFault, BatchResults, SemanticViolation, Violation, abort_operation,
    batch_fault_text, batch_refusal, operation_of, violation_text,
};
use crate::ranking::row_checks::copy_bytes;
use crate::ranking::runner::RankedTransactionOutcome;
use crate::ranking::statement_id::StatementId;
use crate::wire::{Operation, OperationModel, WireValue, operation_models, row_model};

verus! {

/// Why a transaction ended without an outcome.
#[derive(Clone, Debug, PartialEq, Eq)]
pub enum RankedTransactionError {
    /// The server refused a batch, or its answer makes no sense.
    Batch(BatchExecutionError),
    /// An answer violates what the transaction expects.
    Semantic(SemanticViolation),
    /// Another transaction was faster, and this one was aborted.
    Contention(String),
}

/// The content of a [`RankedTransactionError`].
#[verifier::ext_equal]
pub enum FlowFault {
    Batch(BatchFault),
    Semantic(Violation),
    Contention(Seq<char>),
}

impl View for RankedTransactionError {
    type V = FlowFault;

    open spec fn view(&self) -> FlowFault {
        match *self {
            RankedTransactionError::Batch(error) => FlowFault::Batch(error@),
            RankedTransactionError::Semantic(error) => FlowFault::Semantic(error@),
            RankedTransactionError::Contention(diagnostic) => FlowFault::Contention(diagnostic@),
        }
    }
}

/// Whether a transaction may be tried again.
pub open spec fn is_retryable(fault: FlowFault) -> bool {
    match fault {
        FlowFault::Batch(batch) => batch is RetryableAbort,
        FlowFault::Semantic(_) => false,
        FlowFault::Contention(_) => true,
    }
}

/// The text of a failure, where `decimal` is the value that it shows.
pub open spec fn flow_fault_text(fault: FlowFault, decimal: Seq<char>) -> Seq<char> {
    match fault {
        FlowFault::Batch(batch) => batch_fault_text(batch),
        FlowFault::Semantic(violation) => violation_text(violation, decimal),
        FlowFault::Contention(diagnostic) => diagnostic,
    }
}

impl RankedTransactionError {
    pub fn is_retryable_abort(&self) -> (r: bool)
        ensures
            r == is_retryable(self@),
    {
        match self {
            RankedTransactionError::Batch(error) => error.is_retryable_abort(),
            RankedTransactionError::Semantic(_) => false,
            RankedTransactionError::Contention(_) => true,
        }
    }

    /// The bits of the FLOAT32 value that the text shows in decimal, if it shows
    /// one.
    pub fn shown_bits(&self) -> (r: Option<u32>)
        ensures
            r == (match self@ {
                FlowFault::Semantic(violation) => violation.shown,
                _ => None,
            }),
    {
        match self {
            RankedTransactionError::Semantic(error) => error.shown_bits(),
            _ => None,
        }
    }

    /// The text of the failure, where `decimal` is the text of the value that it
    /// shows.
    pub fn message_with(&self, decimal: &str) -> (r: String)
        ensures
            r@ == flow_fault_text(self@, decimal@),
    {
        match self {
            RankedTransactionError::Batch(error) => error.message(),
            RankedTransactionError::Semantic(error) => error.message_with(decimal),
            RankedTransactionError::Contention(diagnostic) => diagnostic.clone(),
        }
    }
}

/// What follows an answer: the next batch of a flow, a failure, or the end with
/// what its outcome is made of.
#[verifier::ext_equal]
pub enum FlowNext<M, D> {
    Next(M),
    Failed(FlowFault),
    Finished(D),
}

/// The step that a flow takes.
pub enum FlowStep<F> {
    /// Send the batch of this flow.
    Next(F),
    /// The transaction has ended.
    Done(Result<RankedTransactionOutcome, RankedTransactionError>),
}

/// A violation inside an open transaction.
pub open spec fn open_fault(violation: Violation) -> FlowFault {
    FlowFault::Semantic(Violation { explicit_abort: true, ..violation })
}

/// A violation inside an open transaction, marked for the abort.
pub(crate) fn open_error(violation: SemanticViolation) -> (r: RankedTransactionError)
    ensures
        r@ == open_fault(violation@),
{
    RankedTransactionError::Semantic(violation.require_explicit_abort())
}

/// The batch that aborts a transaction.
pub open spec fn abort_batch() -> Seq<OperationModel> {
    seq![operation_of(StatementId::Abort, Seq::empty())]
}

/// The batch that aborts a transaction.
pub(crate) fn abort_operations() -> (r: Vec<Operation>)
    ensures
        operation_models(r@) == abort_batch(),
{
    let r = vec![abort_operation()];
    assert(operation_models(r@) =~= abort_batch());
    r
}

/// How a transaction ends once the answer to its abort is there. A transaction
/// that lost against another may be tried again only if its abort went through.
pub open spec fn after_abort(pending: FlowFault, answer: Option<BatchFault>) -> FlowFault {
    match answer {
        Some(batch) => if pending is Contention {
            FlowFault::Batch(batch)
        } else {
            pending
        },
        None => pending,
    }
}

/// Ends a transaction once the answer to its abort is there.
pub(crate) fn end_abort(
    pending: RankedTransactionError,
    answer: Result<BatchResults, BatchExecutionError>,
) -> (r: RankedTransactionError)
    ensures
        r@ == after_abort(pending@, batch_refusal(answer)),
{
    match answer {
        Ok(_) => pending,
        Err(error) => match pending {
            RankedTransactionError::Contention(_) => RankedTransactionError::Batch(error),
            other => other,
        },
    }
}

/// A copy of a value.
fn copy_value(value: &WireValue) -> (r: WireValue)
    ensures
        r@ == value@,
{
    match value {
        WireValue::Null => WireValue::Null,
        WireValue::Int32(n) => WireValue::Int32(*n),
        WireValue::Float32(bits) => WireValue::Float32(*bits),
        WireValue::Char(bytes) => WireValue::Char(copy_bytes(bytes.as_slice())),
    }
}

/// A copy of an operation.
fn copy_operation(operation: &Operation) -> (r: Operation)
    ensures
        r@ == operation@,
{
    let mut parameters: Vec<WireValue> = Vec::new();
    let mut i: usize = 0;
    while i < operation.parameters.len()
        invariant
            i <= operation.parameters@.len(),
            row_model(parameters@) =~= row_model(operation.parameters@).subrange(0, i as int),
        decreases operation.parameters@.len() - i,
    {
        let ghost before = parameters@;
        let value = copy_value(&operation.parameters[i]);
        let ghost model = value@;
        parameters.push(value);
        assert(row_model(parameters@) =~= row_model(before).push(model));
        i = i + 1;
    }
    let r = Operation { statement_id: operation.statement_id, parameters };
    assert(r@ =~= operation@);
    r
}

/// A copy of a batch.
pub(crate) fn copy_operations(operations: &Vec<Operation>) -> (r: Vec<Operation>)
    ensures
        operation_models(r@) == operation_models(operations@),
{
    let mut copy: Vec<Operation> = Vec::new();
    let mut i: usize = 0;
    while i < operations.len()
        invariant
            i <= operations@.len(),
            operation_models(copy@) =~= operation_models(operations@).subrange(0, i as int),
        decreases operations@.len() - i,
    {
        let ghost before = copy@;
        let next = copy_operation(&operations[i]);
        let ghost model = next@;
        copy.push(next);
        assert(operation_models(copy@) =~= operation_models(before).push(model));
        i = i + 1;
    }
    assert(operation_models(copy@) =~= operation_models(operations@));
    copy
}

} // verus!
