//! The catalogue of one run.
use vstd::prelude::*;

use crate::ranking::catalog::{
    ColumnModel, StatementModel, column_models, final2026_catalog, statement_models, statement_of,
};
use crate::ranking::catalog_checks::{catalog_fault, validate_runtime_catalog};
use crate::ranking::sql_text::{CatalogError, catalog_refusal};
use crate::ranking::statement_id::{StatementId, catalogue_ids, statement_key};
use crate::runtime_schema::{
    IDENTIFIER_COUNT, RuntimeSchema, StatementLayout, layout_fingerprint, layout_id, name_texts,
    rendered,
};
use crate::text::join2;
use crate::wire::{Column, SqlType, Statement, StatementKind};

verus! {

/// The columns of a query with the names of a run.
pub open spec fn runtime_columns(columns: Seq<ColumnModel>, names: Seq<Seq<char>>) -> Seq<
    ColumnModel,
> {
    Seq::new(
        columns.len(),
        |i: int| ColumnModel { name: rendered(columns[i].name, names), ..columns[i] },
    )
}

/// A statement with the numbers and names of a run: its number, its text and
/// its columns change together.
pub open spec fn runtime_statement(
    s: StatementModel,
    key: Seq<char>,
    layout: Seq<u16>,
    names: Seq<Seq<char>>,
) -> StatementModel {
    StatementModel {
        id: layout_id(layout, key, 0)->0,
        columns: match s.columns {
            None => None,
            Some(columns) => Some(runtime_columns(columns, names)),
        },
        param_types: s.param_types,
        sql: rendered(s.sql, names),
    }
}

/// The statements of a run.
pub open spec fn runtime_statements(
    ids: Seq<StatementId>,
    layout: Seq<u16>,
    names: Seq<Seq<char>>,
) -> Seq<StatementModel> {
    Seq::new(
        ids.len(),
        |i: int|
            runtime_statement(statement_of(ids[i]), statement_key(ids[i]), layout, names),
    )
}

/// The catalogue of a run.
pub open spec fn runtime_models(schema: RuntimeSchema) -> Seq<StatementModel> {
    runtime_statements(catalogue_ids(), schema.layout.ids@, name_texts(schema.names@))
}

/// Why a run has no catalogue.
pub open spec fn runtime_fault(schema: RuntimeSchema) -> Option<Seq<char>> {
    match schema.fault() {
        Some(text) => Some("invalid runtime schema: "@ + text),
        None => catalog_fault(runtime_models(schema), schema.layout.ids@),
    }
}

proof fn lemma_layout_knows(layout: Seq<u16>, i: int, k: int)
    requires
        0 <= k <= i < 42,
        layout.len() == 42,
        catalogue_ids().len() == 42,
    ensures
        layout_id(layout, statement_key(catalogue_ids()[i]), k) is Some,
    decreases i - k,
{
    let key = statement_key(catalogue_ids()[i]);
    if statement_key(catalogue_ids()[k]) != key {
        lemma_layout_knows(layout, i, k + 1);
    }
}

fn render_columns(schema: &RuntimeSchema, columns: &Vec<Column>) -> (r: Vec<Column>)
    requires
        schema.names@.len() == IDENTIFIER_COUNT,
    ensures
        column_models(r@) == runtime_columns(column_models(columns@), name_texts(schema.names@)),
{
    let ghost goal = runtime_columns(column_models(columns@), name_texts(schema.names@));
    let mut out: Vec<Column> = Vec::new();
    let mut i: usize = 0;
    while i < columns.len()
        invariant
            i <= columns@.len(),
            schema.names@.len() == IDENTIFIER_COUNT,
            goal == runtime_columns(column_models(columns@), name_texts(schema.names@)),
            column_models(out@) =~= goal.subrange(0, i as int),
        decreases columns@.len() - i,
    {
        let ghost before = out@;
        let column = Column {
            name: schema.render_sql(columns[i].name.as_str()),
            sql_type: columns[i].sql_type,
        };
        let ghost model = column@;
        out.push(column);
        assert(model =~= goal[i as int]);
        assert(column_models(out@) =~= column_models(before).push(model));
        i = i + 1;
    }
    assert(goal.subrange(0, i as int) =~= goal);
    out
}

fn render_statement(schema: &RuntimeSchema, statement: &Statement, key: &str) -> (r: Result<
    Statement,
    CatalogError,
>)
    requires
        schema.names@.len() == IDENTIFIER_COUNT,
        layout_id(schema.layout.ids@, key@, 0) is Some,
    ensures
        r matches Ok(s) && s@ == runtime_statement(
            statement@,
            key@,
            schema.layout.ids@,
            name_texts(schema.names@),
        ),
{
    let id: u16 = schema.statements().id(key)?;
    let kind = match &statement.kind {
        StatementKind::Command => StatementKind::Command,
        StatementKind::Query { columns } => StatementKind::Query {
            columns: render_columns(schema, columns),
        },
    };
    Ok(
        Statement {
            id,
            kind,
            param_types: copy_types(&statement.param_types),
            sql: schema.render_sql(statement.sql.as_str()),
        },
    )
}

fn copy_types(types: &Vec<SqlType>) -> (r: Vec<SqlType>)
    ensures
        r@ == types@,
{
    let mut out: Vec<SqlType> = Vec::new();
    let mut i: usize = 0;
    while i < types.len()
        invariant
            i <= types@.len(),
            out@ =~= types@.subrange(0, i as int),
        decreases types@.len() - i,
    {
        out.push(types[i]);
        i = i + 1;
    }
    assert(out@ =~= types@);
    out
}

/// Renders the catalogue of a run: the statements keep their meaning, and take
/// their numbers, identifiers and column names from one schema.
pub fn runtime_catalog(schema: &RuntimeSchema) -> (r: Result<Vec<Statement>, CatalogError>)
    ensures
        catalog_refusal(r) == runtime_fault(*schema),
        r matches Ok(list) ==> statement_models(list@) == runtime_models(*schema),
{
    match schema.validate() {
        Ok(()) => {},
        Err(error) => {
            return Err(
                CatalogError::of(join2("invalid runtime schema: ", error.detail.as_str())),
            );
        },
    }
    let logical = final2026_catalog();
    let ids = StatementId::all();
    let ghost texts = name_texts(schema.names@);
    let ghost layout = schema.layout.ids@;
    let ghost goal = runtime_models(*schema);
    let ghost source = statement_models(logical@);
    proof {
        assert(ids@.len() == 42);
        assert(source.len() == logical@.len());
    }
    let mut catalog: Vec<Statement> = Vec::new();
    let mut i: usize = 0;
    while i < ids.len()
        invariant
            i <= ids@.len() == 42,
            ids@ == catalogue_ids(),
            logical@.len() == 42,
            source == statement_models(logical@),
            forall|k: int| 0 <= k < 42 ==> #[trigger] source[k] == statement_of(ids@[k]),
            texts == name_texts(schema.names@),
            layout == schema.layout.ids@,
            layout.len() == 42,
            schema.names@.len() == IDENTIFIER_COUNT,
            goal.len() == 42,
            forall|k: int|
                0 <= k < 42 ==> #[trigger] goal[k] == runtime_statement(
                    statement_of(ids@[k]),
                    statement_key(ids@[k]),
                    layout,
                    texts,
                ),
            statement_models(catalog@) =~= goal.subrange(0, i as int),
            schema.fault() is None,
        decreases ids@.len() - i,
    {
        proof {
            lemma_layout_knows(layout, i as int, 0);
            assert(source[i as int] == logical@[i as int]@);
        }
        let ghost before = catalog@;
        let statement = render_statement(schema, &logical[i], ids[i].key())?;
        let ghost model = statement@;
        catalog.push(statement);
        assert(model == goal[i as int]);
        assert(statement_models(catalog@) =~= statement_models(before).push(model));
        i = i + 1;
    }
    assert(goal.subrange(0, i as int) =~= goal);
    validate_runtime_catalog(catalog.as_slice(), schema)?;
    Ok(catalog)
}

/// One checked catalogue, derived once from the schema of a run.
///
/// All sessions share this value, so that numbers, texts and column names
/// cannot be mixed.
#[derive(Clone, Debug, PartialEq, Eq)]
pub struct RuntimeCatalog {
    pub schema_fingerprint: u64,
    pub statement_layout: StatementLayout,
    pub statements: Vec<Statement>,
}

impl RuntimeCatalog {
    pub fn from_schema(schema: &RuntimeSchema) -> (r: Result<Self, CatalogError>)
        ensures
            catalog_refusal(r) == runtime_fault(*schema),
            r matches Ok(catalog) ==> {
                &&& catalog.schema_fingerprint == layout_fingerprint(
                    schema.seed,
                    schema.layout.ids@,
                    schema.layout.ids@.len() as int,
                )
                &&& catalog.statement_layout.ids@ == schema.layout.ids@
                &&& statement_models(catalog.statements@) == runtime_models(*schema)
            },
    {
        let statements = runtime_catalog(schema)?;
        let mut ids: Vec<u16> = Vec::new();
        let mut i: usize = 0;
        while i < schema.layout.ids.len()
            invariant
                i <= schema.layout.ids@.len(),
                ids@ =~= schema.layout.ids@.subrange(0, i as int),
            decreases schema.layout.ids@.len() - i,
        {
            ids.push(schema.layout.ids[i]);
            i = i + 1;
        }
        assert(ids@ =~= schema.layout.ids@);
        Ok(
            RuntimeCatalog {
                schema_fingerprint: schema.fingerprint(),
                statement_layout: StatementLayout { ids },
                statements,
            },
        )
    }

    pub fn schema_fingerprint(&self) -> (r: u64)
        ensures
            r == self.schema_fingerprint,
    {
        self.schema_fingerprint
    }

    pub fn statement_layout(&self) -> (r: &StatementLayout)
        ensures
            *r == self.statement_layout,
    {
        &self.statement_layout
    }

    pub fn statements(&self) -> (r: &[Statement])
        ensures
            r@ == self.statements@,
    {
        self.statements.as_slice()
    }
}

} // verus!
