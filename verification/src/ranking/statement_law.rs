//! Every statement has a key of its own, and finds its own number.
use vstd::prelude::*;

use crate::ranking::catalog::{ColumnModel, StatementModel, statement_of};
use crate::ranking::runtime_catalog::runtime_models;
use crate::ranking::statement_id::{StatementId, catalogue_ids, statement_key};
use crate::runtime_schema::{RuntimeSchema, layout_fault, layout_id, name_texts, rendered};

verus! {

/// What tells keys apart: the length and three characters.
spec fn key_mark(s: Seq<char>) -> (nat, char, char, char) {
    (
        s.len(),
        s[0],
        if s.len() > 12 {
            s[12]
        } else {
            ' '
        },
        if s.len() > 17 {
            s[17]
        } else {
            ' '
        },
    )
}

/// The mark of a statement's key.
spec fn statement_mark(id: StatementId) -> (nat, char, char, char) {
    match id {
        StatementId::Begin => (5, 'b', ' ', ' '),
        StatementId::Commit => (6, 'c', ' ', ' '),
        StatementId::Abort => (5, 'a', ' ', ' '),
        StatementId::NewOrderHome => (14, 'n', 'm', ' '),
        StatementId::NewOrderLockStock => (20, 'n', 'c', 'o'),
        StatementId::NewOrderItem => (14, 'n', 'e', ' '),
        StatementId::NewOrderStock => (15, 'n', 'o', ' '),
        StatementId::NewOrderAdvanceDistrict => (26, 'n', 'v', '_'),
        StatementId::NewOrderInsertOrder => (22, 'n', 's', 'o'),
        StatementId::NewOrderInsertQueue => (22, 'n', 's', 'q'),
        StatementId::NewOrderUpdateStockNormal => (29, 'n', 'd', 's'),
        StatementId::NewOrderUpdateStockWrapped => (30, 'n', 'd', 's'),
        StatementId::NewOrderInsertLine => (21, 'n', 's', 'l'),
        StatementId::PaymentWarehouse => (17, 'p', 'h', ' '),
        StatementId::PaymentUpdateWarehouse => (24, 'p', 't', 'r'),
        StatementId::PaymentDistrict => (16, 'p', 'r', ' '),
        StatementId::PaymentUpdateDistrict => (23, 'p', 't', 's'),
        StatementId::PaymentCustomerById => (22, 'p', 'o', 'b'),
        StatementId::PaymentCustomerByLast => (24, 'p', 'o', 'b'),
        StatementId::PaymentUpdateGoodCustomer => (28, 'p', 't', 'o'),
        StatementId::PaymentUpdateBadCustomer => (27, 'p', 't', 'd'),
        StatementId::PaymentInsertHistory => (22, 'p', 'r', 's'),
        StatementId::PaymentCustomerAfter => (22, 'p', 'o', 'a'),
        StatementId::OrderStatusCustomerById => (27, 'o', '.', 'o'),
        StatementId::OrderStatusCustomerByLast => (29, 'o', '.', 'o'),
        StatementId::OrderStatusLatestOrder => (25, 'o', '.', 's'),
        StatementId::OrderStatusOrder => (18, 'o', '.', 'r'),
        StatementId::OrderStatusLines => (18, 'o', '.', 's'),
        StatementId::DeliveryOldestOrder => (21, 'd', 'e', 'r'),
        StatementId::DeliveryLockQueue => (19, 'd', 'k', 'u'),
        StatementId::DeliveryConfirmQueue => (22, 'd', 'f', 'q'),
        StatementId::DeliveryOrder => (14, 'd', 'e', ' '),
        StatementId::DeliveryCustomer => (17, 'd', 't', ' '),
        StatementId::DeliveryLineRows => (18, 'd', 'e', 's'),
        StatementId::DeliveryLineSum => (17, 'd', 'e', ' '),
        StatementId::DeliveryDeleteQueue => (21, 'd', 'e', 'u'),
        StatementId::DeliveryUpdateOrder => (21, 'd', 'a', 'r'),
        StatementId::DeliveryUpdateLines => (21, 'd', 'a', 'i'),
        StatementId::DeliveryUpdateCustomer => (24, 'd', 'a', 'u'),
        StatementId::DeliveryCustomerAfter => (23, 'd', 't', '_'),
        StatementId::StockLevelNextOrder => (22, 's', 'n', 'o'),
        StatementId::StockLevelCount => (17, 's', 'c', ' '),
        StatementId::PaymentWarehouseAfter => (23, 'p', 'h', '_'),
        StatementId::PaymentDistrictAfter => (22, 'p', 'r', 'a'),
        StatementId::DeliveryEarlierQueueCount => (28, 'd', 'l', 'q'),
        StatementId::DeliveryExactQueueCount => (26, 'd', 'c', 'e'),
    }
}

proof fn lemma_statement_mark(id: StatementId)
    ensures
        key_mark(statement_key(id)) == statement_mark(id),
{
    match id {
        StatementId::Begin => {
            reveal_strlit("begin");
        },
        StatementId::Commit => {
            reveal_strlit("commit");
        },
        StatementId::Abort => {
            reveal_strlit("abort");
        },
        StatementId::NewOrderHome => {
            reveal_strlit("new_order.home");
        },
        StatementId::NewOrderLockStock => {
            reveal_strlit("new_order.lock_stock");
        },
        StatementId::NewOrderItem => {
            reveal_strlit("new_order.item");
        },
        StatementId::NewOrderStock => {
            reveal_strlit("new_order.stock");
        },
        StatementId::NewOrderAdvanceDistrict => {
            reveal_strlit("new_order.advance_district");
        },
        StatementId::NewOrderInsertOrder => {
            reveal_strlit("new_order.insert_order");
        },
        StatementId::NewOrderInsertQueue => {
            reveal_strlit("new_order.insert_queue");
        },
        StatementId::NewOrderUpdateStockNormal => {
            reveal_strlit("new_order.update_stock_normal");
        },
        StatementId::NewOrderUpdateStockWrapped => {
            reveal_strlit("new_order.update_stock_wrapped");
        },
        StatementId::NewOrderInsertLine => {
            reveal_strlit("new_order.insert_line");
        },
        StatementId::PaymentWarehouse => {
            reveal_strlit("payment.warehouse");
        },
        StatementId::PaymentUpdateWarehouse => {
            reveal_strlit("payment.update_warehouse");
        },
        StatementId::PaymentDistrict => {
            reveal_strlit("payment.district");
        },
        StatementId::PaymentUpdateDistrict => {
            reveal_strlit("payment.update_district");
        },
        StatementId::PaymentCustomerById => {
            reveal_strlit("payment.customer_by_id");
        },
        StatementId::PaymentCustomerByLast => {
            reveal_strlit("payment.customer_by_last");
        },
        StatementId::PaymentUpdateGoodCustomer => {
            reveal_strlit("payment.update_good_customer");
        },
        StatementId::PaymentUpdateBadCustomer => {
            reveal_strlit("payment.update_bad_customer");
        },
        StatementId::PaymentInsertHistory => {
            reveal_strlit("payment.insert_history");
        },
        StatementId::PaymentCustomerAfter => {
            reveal_strlit("payment.customer_after");
        },
        StatementId::OrderStatusCustomerById => {
            reveal_strlit("order_status.customer_by_id");
        },
        StatementId::OrderStatusCustomerByLast => {
            reveal_strlit("order_status.customer_by_last");
        },
        StatementId::OrderStatusLatestOrder => {
            reveal_strlit("order_status.latest_order");
        },
        StatementId::OrderStatusOrder => {
            reveal_strlit("order_status.order");
        },
        StatementId::OrderStatusLines => {
            reveal_strlit("order_status.lines");
        },
        StatementId::DeliveryOldestOrder => {
            reveal_strlit("delivery.oldest_order");
        },
        StatementId::DeliveryLockQueue => {
            reveal_strlit("delivery.lock_queue");
        },
        StatementId::DeliveryConfirmQueue => {
            reveal_strlit("delivery.confirm_queue");
        },
        StatementId::DeliveryOrder => {
            reveal_strlit("delivery.order");
        },
        StatementId::DeliveryCustomer => {
            reveal_strlit("delivery.customer");
        },
        StatementId::DeliveryLineRows => {
            reveal_strlit("delivery.line_rows");
        },
        StatementId::DeliveryLineSum => {
            reveal_strlit("delivery.line_sum");
        },
        StatementId::DeliveryDeleteQueue => {
            reveal_strlit("delivery.delete_queue");
        },
        StatementId::DeliveryUpdateOrder => {
            reveal_strlit("delivery.update_order");
        },
        StatementId::DeliveryUpdateLines => {
            reveal_strlit("delivery.update_lines");
        },
        StatementId::DeliveryUpdateCustomer => {
            reveal_strlit("delivery.update_customer");
        },
        StatementId::DeliveryCustomerAfter => {
            reveal_strlit("delivery.customer_after");
        },
        StatementId::StockLevelNextOrder => {
            reveal_strlit("stock_level.next_order");
        },
        StatementId::StockLevelCount => {
            reveal_strlit("stock_level.count");
        },
        StatementId::PaymentWarehouseAfter => {
            reveal_strlit("payment.warehouse_after");
        },
        StatementId::PaymentDistrictAfter => {
            reveal_strlit("payment.district_after");
        },
        StatementId::DeliveryEarlierQueueCount => {
            reveal_strlit("delivery.earlier_queue_count");
        },
        StatementId::DeliveryExactQueueCount => {
            reveal_strlit("delivery.exact_queue_count");
        },
    }
}

proof fn lemma_marks_differ(a: StatementId, b: StatementId)
    requires
        statement_mark(a) == statement_mark(b),
    ensures
        a == b,
{
}

/// Different statements have different keys.
pub proof fn law_statement_keys_are_distinct(a: StatementId, b: StatementId)
    requires
        statement_key(a) == statement_key(b),
    ensures
        a == b,
{
    lemma_statement_mark(a);
    lemma_statement_mark(b);
    lemma_marks_differ(a, b);
}

proof fn lemma_ids_differ(i: int, j: int)
    requires
        0 <= i < 42,
        0 <= j < 42,
        catalogue_ids()[i] == catalogue_ids()[j],
    ensures
        i == j,
{
}

proof fn lemma_number_from(layout: Seq<u16>, i: int, k: int)
    requires
        0 <= k <= i < 42,
        layout.len() == 42,
    ensures
        layout_id(layout, statement_key(catalogue_ids()[i]), k) == Some(layout[i]),
    decreases i - k,
{
    let a = catalogue_ids()[i];
    let b = catalogue_ids()[k];
    if k < i {
        if statement_key(b) == statement_key(a) {
            law_statement_keys_are_distinct(a, b);
            lemma_ids_differ(i, k);
        }
        lemma_number_from(layout, i, k + 1);
    }
}

/// In every layout, each statement of the catalogue finds the number at its own
/// position.
pub proof fn law_statements_find_their_numbers(layout: Seq<u16>, i: int)
    requires
        0 <= i < 42,
        layout.len() == 42,
    ensures
        layout_id(layout, statement_key(catalogue_ids()[i]), 0) == Some(layout[i]),
{
    lemma_number_from(layout, i, 0);
}

/// The statements of a run have the numbers of its layout, one after the other,
/// and so no two of them have the same.
pub proof fn law_runtime_numbers_are_distinct(schema: RuntimeSchema, i: int, j: int)
    requires
        schema.fault() is None,
        0 <= i < j < 42,
    ensures
        runtime_models(schema)[i].id == schema.layout.ids@[i],
        runtime_models(schema)[j].id == schema.layout.ids@[j],
        runtime_models(schema)[i].id != runtime_models(schema)[j].id,
        runtime_models(schema)[i].id != 0,
{
    let ids = schema.layout.ids@;
    law_statements_find_their_numbers(ids, i);
    law_statements_find_their_numbers(ids, j);
    lemma_layout_apart(ids, 0, j);
    lemma_layout_apart(ids, 0, i);
    assert(ids[i] != ids[j]);
}

proof fn lemma_layout_apart(ids: Seq<u16>, k: int, j: int)
    requires
        0 <= k <= j < ids.len(),
        layout_fault(ids, k) is None,
    ensures
        ids[j] != 0,
        forall|i: int| 0 <= i < j ==> #[trigger] ids[i] != ids[j],
    decreases j - k,
{
    if k < j {
        lemma_layout_apart(ids, k + 1, j);
    }
}

/// Whether a column of a run is a column of the catalogue under the name of the
/// run.
pub open spec fn column_follows(
    c: ColumnModel,
    logical: ColumnModel,
    names: Seq<Seq<char>>,
) -> bool {
    c.name == rendered(logical.name, names) && c.sql_type == logical.sql_type
}

/// Whether a statement of a run is a statement of the catalogue with the number and
/// the names of the run.
pub open spec fn statement_follows(
    s: StatementModel,
    id: StatementId,
    layout: Seq<u16>,
    names: Seq<Seq<char>>,
) -> bool {
    let logical = statement_of(id);
    &&& s.id != 0
    &&& layout_id(layout, statement_key(id), 0) == Some(s.id)
    &&& s.sql == rendered(logical.sql, names)
    &&& s.param_types == logical.param_types
    &&& s.columns is None <==> logical.columns is None
    &&& s.columns matches Some(columns) ==> {
        &&& columns.len() == logical.columns->0.len()
        &&& forall|k: int|
            0 <= k < columns.len() ==> column_follows(
                #[trigger] columns[k],
                logical.columns->0[k],
                names,
            )
    }
}

/// Law: the catalogue of a run is the logical catalogue, statement by statement,
/// with the number that the run has for the statement's key, and with its text and
/// every column under the names of the run. No two numbers are the same and none is
/// zero.
pub proof fn law_runtime_catalogue_follows_the_logical_one(schema: RuntimeSchema)
    requires
        schema.fault() is None,
    ensures
        runtime_models(schema).len() == 42,
        forall|i: int|
            0 <= i < 42 ==> statement_follows(
                #[trigger] runtime_models(schema)[i],
                catalogue_ids()[i],
                schema.layout.ids@,
                name_texts(schema.names@),
            ),
        forall|i: int, j: int|
            0 <= i < j < 42 ==> (#[trigger] runtime_models(schema)[i]).id != (
            #[trigger] runtime_models(schema)[j]).id,
{
    let ids = schema.layout.ids@;
    assert forall|i: int| 0 <= i < 42 implies statement_follows(
        #[trigger] runtime_models(schema)[i],
        catalogue_ids()[i],
        ids,
        name_texts(schema.names@),
    ) by {
        law_statements_find_their_numbers(ids, i);
        lemma_layout_apart(ids, 0, i);
    }
    assert forall|i: int, j: int| 0 <= i < j < 42 implies (
    #[trigger] runtime_models(schema)[i]).id != (#[trigger] runtime_models(schema)[j]).id by {
        law_runtime_numbers_are_distinct(schema, i, j);
    }
}

} // verus!
