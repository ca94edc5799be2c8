//! Checks of a catalogue, and the catalogue of one run.
use vstd::prelude::*;
use vstd::utf8::encode_utf8;

use crate::checks::{first, refused_if};
use crate::fields::{chars_of, string_of};
use crate::ranking::catalog::{ColumnModel, StatementModel, column_models, statement_models};
use crate::ranking::sql_text::{
    CatalogError, catalog_refusal, contains_chars, contains_text, markers, markers_fault,
    parameter_ordinals, upper_chars, upper_text,
};
use crate::ranking::stage_templates::{
    PlanStep, StageModel, StageTemplate, StepModel, delivery_plan, delivery_stages,
    new_order_plan, new_order_stages, order_status_plan, order_status_stages, payment_plan,
    payment_stages, stage_models, step_models, stock_level_plan, stock_level_stages,
};
use crate::ranking::statement_id::{StatementId, catalogue_ids, statement_key, wire_number};
use crate::runtime_schema::{RuntimeSchema, StatementLayout, layout_id, unknown_key_text};
use crate::text::{decimal, join2, join3, join4, join5, unsigned_text};
use crate::wire::{Statement, StatementKind};

verus! {

/// Numbers one after the other, with a comma between two.
pub open spec fn items_text(list: Seq<usize>, n: int) -> Seq<char>
    decreases n,
{
    if n <= 0 {
        Seq::empty()
    } else if n == 1 {
        decimal(list[0] as nat)
    } else {
        items_text(list, n - 1) + ", "@ + decimal(list[n - 1] as nat)
    }
}

/// A set of numbers in a message.
pub open spec fn set_text(list: Seq<usize>) -> Seq<char> {
    "{"@ + items_text(list, list.len() as int) + "}"@
}

/// The numbers from one to `n`.
pub open spec fn dense_list(n: nat) -> Seq<usize> {
    Seq::new(n, |i: int| (i + 1) as usize)
}

/// Why the columns from `i` on are refused: the text does not name them.
pub open spec fn aliases_fault(
    columns: Seq<ColumnModel>,
    upper: Seq<char>,
    id: u16,
    i: int,
) -> Option<Seq<char>>
    decreases columns.len() - i,
{
    if i >= columns.len() {
        None
    } else {
        first(
            refused_if(
                !contains_text(upper, " AS "@ + upper_text(columns[i].name)),
                "query statement "@ + decimal(id as nat) + " does not project fixed alias "@
                    + columns[i].name,
            ),
            aliases_fault(columns, upper, id, i + 1),
        )
    }
}

/// Why the columns of a statement are refused.
pub open spec fn declared_fault(s: StatementModel) -> Option<Seq<char>> {
    match s.columns {
        None => None,
        Some(columns) => first(
            refused_if(
                columns.len() == 0,
                "query statement "@ + decimal(s.id as nat) + " has no declared columns"@,
            ),
            aliases_fault(columns, upper_text(s.sql), s.id, 0),
        ),
    }
}

/// Why the text of a statement is refused.
pub open spec fn sql_fault(s: StatementModel) -> Option<Seq<char>> {
    let upper = upper_text(s.sql);
    let ordinals = markers(encode_utf8(s.sql), 0, Seq::empty());
    let expected = dense_list(s.param_types.len());
    let named = "statement "@ + decimal(s.id as nat);
    first(
        refused_if(
            s.sql.len() == 0 || s.sql.contains('\0'),
            named + " has empty or NUL-containing SQL"@,
        ),
        first(
            refused_if(
                contains_text(upper, "OUTPUT_FILE"@) || contains_text(upper, "SET OUTPUT"@),
                named + " changes output-file state"@,
            ),
            first(
                markers_fault(encode_utf8(s.sql), 0),
                refused_if(
                    ordinals != expected,
                    named + " parameter markers "@ + set_text(ordinals)
                        + " do not match dense schema "@ + set_text(expected),
                ),
            ),
        ),
    )
}

/// Why the statements from `i` on are refused.
pub open spec fn statements_fault(list: Seq<StatementModel>, i: int) -> Option<Seq<char>>
    decreases list.len() - i,
{
    if i >= list.len() {
        None
    } else {
        first(
            refused_if(list[i].id == 0, "statement id 0 is reserved"@),
            first(
                refused_if(
                    exists|k: int| 0 <= k < i && (#[trigger] list[k]).id == list[i].id,
                    "duplicate statement id "@ + decimal(list[i].id as nat),
                ),
                first(
                    sql_fault(list[i]),
                    first(declared_fault(list[i]), statements_fault(list, i + 1)),
                ),
            ),
        )
    }
}

/// Whether a catalogue has a statement with a number.
pub open spec fn has_statement(list: Seq<StatementModel>, id: u16) -> bool {
    exists|k: int| 0 <= k < list.len() && (#[trigger] list[k]).id == id
}

/// Why the alternatives from `i` on are refused: a statement is absent.
pub open spec fn alternatives_fault(
    list: Seq<StatementModel>,
    layout: Seq<u16>,
    alternatives: Seq<StatementId>,
    i: int,
) -> Option<Seq<char>>
    decreases alternatives.len() - i,
{
    if i >= alternatives.len() {
        None
    } else {
        let key = statement_key(alternatives[i]);
        first(
            match layout_id(layout, key, 0) {
                None => Some(unknown_key_text(key)),
                Some(id) => refused_if(
                    !has_statement(list, id),
                    "stage references absent statement "@ + decimal(id as nat),
                ),
            },
            alternatives_fault(list, layout, alternatives, i + 1),
        )
    }
}

/// Why the steps from `i` on are refused.
pub open spec fn steps_fault(
    list: Seq<StatementModel>,
    layout: Seq<u16>,
    steps: Seq<StepModel>,
    i: int,
) -> Option<Seq<char>>
    decreases steps.len() - i,
{
    if i >= steps.len() {
        None
    } else {
        first(
            refused_if(
                steps[i].alternatives.len() == 0,
                "stage step must contain at least one alternative"@,
            ),
            first(
                alternatives_fault(list, layout, steps[i].alternatives, 0),
                steps_fault(list, layout, steps, i + 1),
            ),
        )
    }
}

/// Why the stages from `i` on are refused.
pub open spec fn stages_fault(
    list: Seq<StatementModel>,
    layout: Seq<u16>,
    stages: Seq<StageModel>,
    i: int,
) -> Option<Seq<char>>
    decreases stages.len() - i,
{
    if i >= stages.len() {
        None
    } else {
        first(
            refused_if(
                stages[i].round_trip != i + 1,
                "stage round trips must be dense and one-based"@,
            ),
            first(
                refused_if(
                    stages[i].steps.len() == 0,
                    "stage must contain at least one step"@,
                ),
                first(
                    steps_fault(list, layout, stages[i].steps, 0),
                    stages_fault(list, layout, stages, i + 1),
                ),
            ),
        )
    }
}

/// Why a catalogue does not serve the plans of all transactions.
pub open spec fn plans_fault(list: Seq<StatementModel>, layout: Seq<u16>) -> Option<Seq<char>> {
    first(
        stages_fault(list, layout, new_order_plan(), 0),
        first(
            stages_fault(list, layout, payment_plan(), 0),
            first(
                stages_fault(list, layout, order_status_plan(), 0),
                first(
                    stages_fault(list, layout, delivery_plan(), 0),
                    stages_fault(list, layout, stock_level_plan(), 0),
                ),
            ),
        ),
    )
}

/// Why a catalogue is refused.
pub open spec fn catalog_fault(list: Seq<StatementModel>, layout: Seq<u16>) -> Option<Seq<char>> {
    first(
        refused_if(
            list.len() == 0 || list.len() > 256,
            "catalogue must contain between 1 and 256 statements"@,
        ),
        first(statements_fault(list, 0), plans_fault(list, layout)),
    )
}

fn describe_set(list: &Vec<usize>) -> (r: String)
    ensures
        r@ == set_text(list@),
{
    let mut items = String::new();
    let mut i: usize = 0;
    assert(items@ =~= items_text(list@, 0));
    while i < list.len()
        invariant
            i <= list@.len(),
            items@ == items_text(list@, i as int),
        decreases list@.len() - i,
    {
        let number = unsigned_text(list[i] as u64);
        if i == 0 {
            items = number;
        } else {
            items = join3(items.as_str(), ", ", number.as_str());
        }
        i = i + 1;
    }
    join3("{", items.as_str(), "}")
}

fn dense_numbers(n: usize) -> (r: Vec<usize>)
    ensures
        r@ == dense_list(n as nat),
{
    let mut list: Vec<usize> = Vec::new();
    let mut i: usize = 0;
    while i < n
        invariant
            i <= n,
            list@ =~= dense_list(i as nat),
        decreases n - i,
    {
        list.push(i + 1);
        i = i + 1;
    }
    list
}

fn same_numbers(a: &Vec<usize>, b: &Vec<usize>) -> (r: bool)
    ensures
        r == (a@ == b@),
{
    if a.len() != b.len() {
        return false;
    }
    let mut i: usize = 0;
    while i < a.len()
        invariant
            i <= a@.len() == b@.len(),
            forall|k: int| 0 <= k < i ==> a@[k] == b@[k],
        decreases a@.len() - i,
    {
        if a[i] != b[i] {
            return false;
        }
        i = i + 1;
    }
    assert(a@ =~= b@);
    true
}

fn has_nul(text: &Vec<char>) -> (r: bool)
    ensures
        r == text@.contains('\0'),
{
    let mut i: usize = 0;
    while i < text.len()
        invariant
            i <= text@.len(),
            forall|k: int| 0 <= k < i ==> text@[k] != '\0',
        decreases text@.len() - i,
    {
        if text[i] == '\0' {
            assert(text@[i as int] == '\0');
            return true;
        }
        i = i + 1;
    }
    false
}

fn check_sql(statement: &Statement) -> (r: Result<(), CatalogError>)
    ensures
        catalog_refusal(r) == sql_fault(statement@),
{
    let named = join2("statement ", unsigned_text(statement.id as u64).as_str());
    let text = chars_of(statement.sql.as_str());
    if text.len() == 0 || has_nul(&text) {
        return Err(
            CatalogError::of(join2(named.as_str(), " has empty or NUL-containing SQL")),
        );
    }
    let upper = upper_chars(&text);
    if contains_chars(&upper, &chars_of("OUTPUT_FILE")) || contains_chars(
        &upper,
        &chars_of("SET OUTPUT"),
    ) {
        return Err(CatalogError::of(join2(named.as_str(), " changes output-file state")));
    }
    let ordinals = parameter_ordinals(statement.sql.as_str())?;
    let expected = dense_numbers(statement.param_types.len());
    if !same_numbers(&ordinals, &expected) {
        return Err(
            CatalogError::of(
                join5(
                    named.as_str(),
                    " parameter markers ",
                    describe_set(&ordinals).as_str(),
                    " do not match dense schema ",
                    describe_set(&expected).as_str(),
                ),
            ),
        );
    }
    Ok(())
}

fn check_columns(statement: &Statement) -> (r: Result<(), CatalogError>)
    ensures
        catalog_refusal(r) == declared_fault(statement@),
{
    match &statement.kind {
        StatementKind::Command => Ok(()),
        StatementKind::Query { columns } => {
            let ghost models = column_models(columns@);
            if columns.len() == 0 {
                return Err(
                    CatalogError::of(
                        join3(
                            "query statement ",
                            unsigned_text(statement.id as u64).as_str(),
                            " has no declared columns",
                        ),
                    ),
                );
            }
            let upper = upper_chars(&chars_of(statement.sql.as_str()));
            let mut i: usize = 0;
            while i < columns.len()
                invariant
                    i <= columns@.len(),
                    columns@.len() > 0,
                    models == column_models(columns@),
                    statement@.columns == Some(models),
                    upper@ == upper_text(statement@.sql),
                    aliases_fault(models, upper@, statement.id, 0) == aliases_fault(
                        models,
                        upper@,
                        statement.id,
                        i as int,
                    ),
                decreases columns@.len() - i,
            {
                assert(models[i as int].name == columns@[i as int].name@);
                let name = upper_chars(&chars_of(columns[i].name.as_str()));
                let name_text = string_of(name.as_slice());
                let alias = chars_of(join2(" AS ", name_text.as_str()).as_str());
                if !contains_chars(&upper, &alias) {
                    return Err(
                        CatalogError::of(
                            join4(
                                "query statement ",
                                unsigned_text(statement.id as u64).as_str(),
                                " does not project fixed alias ",
                                columns[i].name.as_str(),
                            ),
                        ),
                    );
                }
                i = i + 1;
            }
            Ok(())
        },
    }
}

fn is_listed(catalog: &[Statement], n: usize, id: u16) -> (r: bool)
    requires
        n <= catalog@.len(),
    ensures
        r == exists|k: int|
            0 <= k < n && (#[trigger] statement_models(catalog@)[k]).id == id,
{
    let mut k: usize = 0;
    while k < n
        invariant
            k <= n <= catalog@.len(),
            forall|j: int|
                0 <= j < k ==> (#[trigger] statement_models(catalog@)[j]).id != id,
        decreases n - k,
    {
        assert(statement_models(catalog@)[k as int].id == catalog@[k as int].id);
        if catalog[k].id == id {
            return true;
        }
        k = k + 1;
    }
    false
}

fn check_statements(catalog: &[Statement]) -> (r: Result<(), CatalogError>)
    ensures
        catalog_refusal(r) == statements_fault(statement_models(catalog@), 0),
{
    let ghost models = statement_models(catalog@);
    let mut i: usize = 0;
    while i < catalog.len()
        invariant
            i <= catalog@.len(),
            models == statement_models(catalog@),
            statements_fault(models, 0) == statements_fault(models, i as int),
        decreases catalog@.len() - i,
    {
        let statement = &catalog[i];
        assert(models[i as int] == statement@);
        if statement.id == 0 {
            return Err(CatalogError::new("statement id 0 is reserved"));
        }
        if is_listed(catalog, i, statement.id) {
            return Err(
                CatalogError::of(
                    join2("duplicate statement id ", unsigned_text(statement.id as u64).as_str()),
                ),
            );
        }
        check_sql(statement)?;
        check_columns(statement)?;
        i = i + 1;
    }
    Ok(())
}

fn check_alternatives(
    catalog: &[Statement],
    layout: &StatementLayout,
    alternatives: &Vec<StatementId>,
) -> (r: Result<(), CatalogError>)
    ensures
        catalog_refusal(r) == alternatives_fault(
            statement_models(catalog@),
            layout.ids@,
            alternatives@,
            0,
        ),
{
    let ghost models = statement_models(catalog@);
    let mut i: usize = 0;
    while i < alternatives.len()
        invariant
            i <= alternatives@.len(),
            models == statement_models(catalog@),
            alternatives_fault(models, layout.ids@, alternatives@, 0) == alternatives_fault(
                models,
                layout.ids@,
                alternatives@,
                i as int,
            ),
        decreases alternatives@.len() - i,
    {
        let id: u16 = layout.id(alternatives[i].key())?;
        if !is_listed(catalog, catalog.len(), id) {
            return Err(
                CatalogError::of(
                    join2("stage references absent statement ", unsigned_text(id as u64).as_str()),
                ),
            );
        }
        i = i + 1;
    }
    Ok(())
}

fn check_steps(catalog: &[Statement], layout: &StatementLayout, steps: &Vec<PlanStep>) -> (r: Result<
    (),
    CatalogError,
>)
    ensures
        catalog_refusal(r) == steps_fault(
            statement_models(catalog@),
            layout.ids@,
            step_models(steps@),
            0,
        ),
{
    let ghost models = statement_models(catalog@);
    let ghost plan = step_models(steps@);
    let mut i: usize = 0;
    while i < steps.len()
        invariant
            i <= steps@.len(),
            models == statement_models(catalog@),
            plan == step_models(steps@),
            steps_fault(models, layout.ids@, plan, 0) == steps_fault(
                models,
                layout.ids@,
                plan,
                i as int,
            ),
        decreases steps@.len() - i,
    {
        assert(plan[i as int] == steps@[i as int]@);
        if steps[i].alternatives.len() == 0 {
            return Err(CatalogError::new("stage step must contain at least one alternative"));
        }
        check_alternatives(catalog, layout, &steps[i].alternatives)?;
        i = i + 1;
    }
    Ok(())
}

fn check_stages(catalog: &[Statement], layout: &StatementLayout, stages: &Vec<StageTemplate>) -> (r:
    Result<(), CatalogError>)
    ensures
        catalog_refusal(r) == stages_fault(
            statement_models(catalog@),
            layout.ids@,
            stage_models(stages@),
            0,
        ),
{
    let ghost models = statement_models(catalog@);
    let ghost plan = stage_models(stages@);
    let mut i: usize = 0;
    while i < stages.len()
        invariant
            i <= stages@.len(),
            models == statement_models(catalog@),
            plan == stage_models(stages@),
            stages_fault(models, layout.ids@, plan, 0) == stages_fault(
                models,
                layout.ids@,
                plan,
                i as int,
            ),
        decreases stages@.len() - i,
    {
        assert(plan[i as int] == stages@[i as int]@);
        if stages[i].round_trip as u64 != i as u64 + 1 {
            return Err(CatalogError::new("stage round trips must be dense and one-based"));
        }
        if stages[i].steps.len() == 0 {
            return Err(CatalogError::new("stage must contain at least one step"));
        }
        check_steps(catalog, layout, &stages[i].steps)?;
        i = i + 1;
    }
    Ok(())
}

fn validate_stage_templates(catalog: &[Statement], layout: &StatementLayout) -> (r: Result<
    (),
    CatalogError,
>)
    ensures
        catalog_refusal(r) == plans_fault(statement_models(catalog@), layout.ids@),
{
    check_stages(catalog, layout, &new_order_stages())?;
    check_stages(catalog, layout, &payment_stages())?;
    check_stages(catalog, layout, &order_status_stages())?;
    check_stages(catalog, layout, &delivery_stages())?;
    check_stages(catalog, layout, &stock_level_stages())
}

fn validate_catalog_with(catalog: &[Statement], layout: &StatementLayout) -> (r: Result<
    (),
    CatalogError,
>)
    ensures
        catalog_refusal(r) == catalog_fault(statement_models(catalog@), layout.ids@),
{
    if catalog.len() == 0 || catalog.len() > 256 {
        return Err(CatalogError::new("catalogue must contain between 1 and 256 statements"));
    }
    check_statements(catalog)?;
    validate_stage_templates(catalog, layout)
}

/// The numbers of the statements on the wire.
pub open spec fn wire_layout() -> Seq<u16> {
    Seq::new(42, |i: int| wire_number(catalogue_ids()[i]))
}

/// Checks a catalogue with the numbers on the wire.
pub fn validate_catalog(catalog: &[Statement]) -> (r: Result<(), CatalogError>)
    ensures
        catalog_refusal(r) == catalog_fault(statement_models(catalog@), wire_layout()),
{
    validate_catalog_with(catalog, &StatementLayout::canonical())
}

/// Checks a catalogue with the numbers of one run.
pub fn validate_runtime_catalog(catalog: &[Statement], schema: &RuntimeSchema) -> (r: Result<
    (),
    CatalogError,
>)
    ensures
        catalog_refusal(r) == catalog_fault(statement_models(catalog@), schema.layout.ids@),
{
    validate_catalog_with(catalog, schema.statements())
}

} // verus!
