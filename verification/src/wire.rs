//! Values, prepared statements and batches on the wire.
use vstd::prelude::*;

verus! {

#[derive(Clone, Copy, Debug, PartialEq, Eq, Structural)]
pub enum SqlType {
    Int32,
    Float32,
    Char,
}

/// A value on the wire; a FLOAT32 is its bit pattern.
#[derive(Clone, Debug, PartialEq, Eq)]
pub enum WireValue {
    Null,
    Int32(i32),
    Float32(u32),
    Char(Vec<u8>),
}

/// The content of a [`WireValue`].
pub enum WireModel {
    Null,
    Int32(i32),
    Float32(u32),
    Char(Seq<u8>),
}

impl View for WireValue {
    type V = WireModel;

    open spec fn view(&self) -> WireModel {
        match *self {
            WireValue::Null => WireModel::Null,
            WireValue::Int32(n) => WireModel::Int32(n),
            WireValue::Float32(bits) => WireModel::Float32(bits),
            WireValue::Char(bytes) => WireModel::Char(bytes@),
        }
    }
}

/// The contents of a list of values.
pub open spec fn row_model(row: Seq<WireValue>) -> Seq<WireModel> {
    Seq::new(row.len(), |i: int| row[i]@)
}

/// The contents of a list of rows.
pub open spec fn rows_model(rows: Seq<Vec<WireValue>>) -> Seq<Seq<WireModel>> {
    Seq::new(rows.len(), |i: int| row_model(rows[i]@))
}

/// One prepared operation with its bound parameters.
#[derive(Clone, Debug, PartialEq, Eq)]
pub struct Operation {
    pub statement_id: u16,
    pub parameters: Vec<WireValue>,
}

/// The content of an [`Operation`].
#[verifier::ext_equal]
pub struct OperationModel {
    pub statement_id: u16,
    pub parameters: Seq<WireModel>,
}

impl View for Operation {
    type V = OperationModel;

    open spec fn view(&self) -> OperationModel {
        OperationModel {
            statement_id: self.statement_id,
            parameters: row_model(self.parameters@),
        }
    }
}

/// The contents of a list of operations.
pub open spec fn operation_models(operations: Seq<Operation>) -> Seq<OperationModel> {
    Seq::new(operations.len(), |i: int| operations[i]@)
}

/// The rows of one query of a batch.
#[derive(Clone, Debug, PartialEq, Eq)]
pub struct BatchQueryResult {
    pub operation_index: u16,
    pub rows: Vec<Vec<WireValue>>,
}

/// The answer to one batch.
#[derive(Clone, Debug, PartialEq, Eq)]
pub enum BatchResponse {
    Complete { executed_operations: u16, results: Vec<BatchQueryResult> },
    TransactionAbort { executed_operations: u16, failed_operation: u16, diagnostic: String },
    Error { executed_operations: u16, failed_operation: u16, diagnostic: String },
    TopLevelError { diagnostic: String },
}

/// A declared result column.
#[derive(Clone, Debug, PartialEq, Eq)]
pub struct Column {
    pub name: String,
    pub sql_type: SqlType,
}

#[derive(Clone, Debug, PartialEq, Eq)]
pub enum StatementKind {
    Command,
    Query { columns: Vec<Column> },
}

/// A statement to prepare.
#[derive(Clone, Debug, PartialEq, Eq)]
pub struct Statement {
    pub id: u16,
    pub kind: StatementKind,
    pub param_types: Vec<SqlType>,
    pub sql: String,
}

} // verus!
