//! What the statements of the catalogue address.
use vstd::prelude::*;

use crate::ranking::catalog::sql_text;
use crate::ranking::statement_id::StatementId;

verus! {

/// Whether a text begins with another.
pub open spec fn begins_so(s: Seq<char>, head: Seq<char>) -> bool {
    head.len() <= s.len() && s.subrange(0, head.len() as int) == head
}

/// Whether a text ends with another.
pub open spec fn ends_so(s: Seq<char>, tail: Seq<char>) -> bool {
    tail.len() <= s.len() && s.subrange(s.len() - tail.len(), s.len() as int) == tail
}

/// Whether the text of a statement begins and ends so.
pub open spec fn reads_so(id: StatementId, head: &str, tail: &str) -> bool {
    begins_so(sql_text(id)@, head@) && ends_so(sql_text(id)@, tail@)
}

proof fn lemma_new_order_home()
    ensures
        reads_so(
            StatementId::NewOrderHome,
            "SELECT customer.c_discount",
            " FROM customer, warehouse WHERE warehouse.w_id = $1 AND customer.c_w_id = \
            warehouse.w_id AND customer.c_d_id = $2 AND customer.c_id = $3;",
        ),
{
    reveal_strlit(
        "SELECT customer.c_discount AS c_discount, customer.c_last AS c_last, \
        customer.c_credit AS c_credit, warehouse.w_tax AS w_tax FROM customer, \
        warehouse WHERE warehouse.w_id = $1 AND customer.c_w_id = warehouse.w_id AND \
        customer.c_d_id = $2 AND customer.c_id = $3;",
    );
    reveal_strlit("SELECT customer.c_discount");
    reveal_strlit(
        " FROM customer, warehouse WHERE warehouse.w_id = $1 AND customer.c_w_id = \
        warehouse.w_id AND customer.c_d_id = $2 AND customer.c_id = $3;",
    );
    let text = sql_text(StatementId::NewOrderHome)@;
    let head = "SELECT customer.c_discount"@;
    let tail = " FROM customer, warehouse WHERE warehouse.w_id = $1 AND customer.c_w_id = warehouse.w_id \
    AND customer.c_d_id = $2 AND customer.c_id = $3;"@;
    assert(text.subrange(0, head.len() as int) =~= head);
    assert(text.subrange(text.len() - tail.len(), text.len() as int) =~= tail);
}

proof fn lemma_new_order_lock_stock()
    ensures
        reads_so(
            StatementId::NewOrderLockStock,
            "UPDATE stock SET s_quantity = ",
            " WHERE s_w_id = $1 AND s_i_id = $2;",
        ),
{
    reveal_strlit(
        "UPDATE stock SET s_quantity = s_quantity WHERE s_w_id = $1 AND s_i_id = $2;",
    );
    reveal_strlit("UPDATE stock SET s_quantity = ");
    reveal_strlit(
        " WHERE s_w_id = $1 AND s_i_id = $2;",
    );
    let text = sql_text(StatementId::NewOrderLockStock)@;
    let head = "UPDATE stock SET s_quantity = "@;
    let tail = " WHERE s_w_id = $1 AND s_i_id = $2;"@;
    assert(text.subrange(0, head.len() as int) =~= head);
    assert(text.subrange(text.len() - tail.len(), text.len() as int) =~= tail);
}

proof fn lemma_new_order_item()
    ensures
        reads_so(
            StatementId::NewOrderItem,
            "SELECT i_id",
            " FROM item WHERE i_id = $1;",
        ),
{
    reveal_strlit(
        "SELECT i_id AS i_id, i_price AS i_price, i_name AS i_name, i_data AS i_data FROM item \
        WHERE i_id = $1;",
    );
    reveal_strlit("SELECT i_id");
    reveal_strlit(
        " FROM item WHERE i_id = $1;",
    );
    let text = sql_text(StatementId::NewOrderItem)@;
    let head = "SELECT i_id"@;
    let tail = " FROM item WHERE i_id = $1;"@;
    assert(text.subrange(0, head.len() as int) =~= head);
    assert(text.subrange(text.len() - tail.len(), text.len() as int) =~= tail);
}

proof fn lemma_new_order_stock()
    ensures
        reads_so(
            StatementId::NewOrderStock,
            "SELECT s_quantity",
            " FROM stock WHERE s_w_id = $1 AND s_i_id = $2;",
        ),
{
    reveal_strlit(
        "SELECT s_quantity AS s_quantity, s_ytd AS s_ytd, s_order_cnt AS s_order_cnt, \
        s_remote_cnt AS s_remote_cnt, s_data AS s_data, s_dist_01 AS s_dist_01, \
        s_dist_02 AS s_dist_02, s_dist_03 AS s_dist_03, s_dist_04 AS s_dist_04, \
        s_dist_05 AS s_dist_05, s_dist_06 AS s_dist_06, s_dist_07 AS s_dist_07, \
        s_dist_08 AS s_dist_08, s_dist_09 AS s_dist_09, s_dist_10 AS s_dist_10 FROM \
        stock WHERE s_w_id = $1 AND s_i_id = $2;",
    );
    reveal_strlit("SELECT s_quantity");
    reveal_strlit(
        " FROM stock WHERE s_w_id = $1 AND s_i_id = $2;",
    );
    let text = sql_text(StatementId::NewOrderStock)@;
    let head = "SELECT s_quantity"@;
    let tail = " FROM stock WHERE s_w_id = $1 AND s_i_id = $2;"@;
    assert(text.subrange(0, head.len() as int) =~= head);
    assert(text.subrange(text.len() - tail.len(), text.len() as int) =~= tail);
}

proof fn lemma_new_order_advance_district()
    ensures
        reads_so(
            StatementId::NewOrderAdvanceDistrict,
            "UPDATE district SET d_next_o_id = ",
            " WHERE d_w_id = $1 AND d_id = $2;",
        ),
{
    reveal_strlit(
        "UPDATE district SET d_next_o_id = d_next_o_id + 1 WHERE d_w_id = $1 AND d_id = $2;",
    );
    reveal_strlit("UPDATE district SET d_next_o_id = ");
    reveal_strlit(
        " WHERE d_w_id = $1 AND d_id = $2;",
    );
    let text = sql_text(StatementId::NewOrderAdvanceDistrict)@;
    let head = "UPDATE district SET d_next_o_id = "@;
    let tail = " WHERE d_w_id = $1 AND d_id = $2;"@;
    assert(text.subrange(0, head.len() as int) =~= head);
    assert(text.subrange(text.len() - tail.len(), text.len() as int) =~= tail);
}

proof fn lemma_new_order_insert_order()
    ensures
        reads_so(
            StatementId::NewOrderInsertOrder,
            "INSERT INTO orders VALUES ",
            "($1, $2, $3, $4, $5, $6, $7, $8);",
        ),
{
    reveal_strlit(
        "INSERT INTO orders VALUES ($1, $2, $3, $4, $5, $6, $7, $8);",
    );
    reveal_strlit("INSERT INTO orders VALUES ");
    reveal_strlit(
        "($1, $2, $3, $4, $5, $6, $7, $8);",
    );
    let text = sql_text(StatementId::NewOrderInsertOrder)@;
    let head = "INSERT INTO orders VALUES "@;
    let tail = "($1, $2, $3, $4, $5, $6, $7, $8);"@;
    assert(text.subrange(0, head.len() as int) =~= head);
    assert(text.subrange(text.len() - tail.len(), text.len() as int) =~= tail);
}

proof fn lemma_new_order_insert_queue()
    ensures
        reads_so(
            StatementId::NewOrderInsertQueue,
            "INSERT INTO new_orders VALUES ",
            "($1, $2, $3);",
        ),
{
    reveal_strlit(
        "INSERT INTO new_orders VALUES ($1, $2, $3);",
    );
    reveal_strlit("INSERT INTO new_orders VALUES ");
    reveal_strlit(
        "($1, $2, $3);",
    );
    let text = sql_text(StatementId::NewOrderInsertQueue)@;
    let head = "INSERT INTO new_orders VALUES "@;
    let tail = "($1, $2, $3);"@;
    assert(text.subrange(0, head.len() as int) =~= head);
    assert(text.subrange(text.len() - tail.len(), text.len() as int) =~= tail);
}

proof fn lemma_new_order_update_stock_normal()
    ensures
        reads_so(
            StatementId::NewOrderUpdateStockNormal,
            "UPDATE stock SET s_quantity = ",
            " WHERE s_w_id = $4 AND s_i_id = $5 AND s_quantity >= $6;",
        ),
{
    reveal_strlit(
        "UPDATE stock SET s_quantity = s_quantity - $1, s_ytd = s_ytd + $2, s_order_cnt = \
        s_order_cnt + 1, s_remote_cnt = s_remote_cnt + $3 WHERE s_w_id = $4 AND s_i_id \
        = $5 AND s_quantity >= $6;",
    );
    reveal_strlit("UPDATE stock SET s_quantity = ");
    reveal_strlit(
        " WHERE s_w_id = $4 AND s_i_id = $5 AND s_quantity >= $6;",
    );
    let text = sql_text(StatementId::NewOrderUpdateStockNormal)@;
    let head = "UPDATE stock SET s_quantity = "@;
    let tail = " WHERE s_w_id = $4 AND s_i_id = $5 AND s_quantity >= $6;"@;
    assert(text.subrange(0, head.len() as int) =~= head);
    assert(text.subrange(text.len() - tail.len(), text.len() as int) =~= tail);
}

proof fn lemma_new_order_update_stock_wrapped()
    ensures
        reads_so(
            StatementId::NewOrderUpdateStockWrapped,
            "UPDATE stock SET s_quantity = ",
            " WHERE s_w_id = $4 AND s_i_id = $5 AND s_quantity < $6;",
        ),
{
    reveal_strlit(
        "UPDATE stock SET s_quantity = s_quantity - $1 + 91, s_ytd = s_ytd + $2, s_order_cnt = \
        s_order_cnt + 1, s_remote_cnt = s_remote_cnt + $3 WHERE s_w_id = $4 AND s_i_id \
        = $5 AND s_quantity < $6;",
    );
    reveal_strlit("UPDATE stock SET s_quantity = ");
    reveal_strlit(
        " WHERE s_w_id = $4 AND s_i_id = $5 AND s_quantity < $6;",
    );
    let text = sql_text(StatementId::NewOrderUpdateStockWrapped)@;
    let head = "UPDATE stock SET s_quantity = "@;
    let tail = " WHERE s_w_id = $4 AND s_i_id = $5 AND s_quantity < $6;"@;
    assert(text.subrange(0, head.len() as int) =~= head);
    assert(text.subrange(text.len() - tail.len(), text.len() as int) =~= tail);
}

proof fn lemma_new_order_insert_line()
    ensures
        reads_so(
            StatementId::NewOrderInsertLine,
            "INSERT INTO order_line VALUES ",
            "($1, $2, $3, $4, $5, $6, $7, $8, $9, $10);",
        ),
{
    reveal_strlit(
        "INSERT INTO order_line VALUES ($1, $2, $3, $4, $5, $6, $7, $8, $9, $10);",
    );
    reveal_strlit("INSERT INTO order_line VALUES ");
    reveal_strlit(
        "($1, $2, $3, $4, $5, $6, $7, $8, $9, $10);",
    );
    let text = sql_text(StatementId::NewOrderInsertLine)@;
    let head = "INSERT INTO order_line VALUES "@;
    let tail = "($1, $2, $3, $4, $5, $6, $7, $8, $9, $10);"@;
    assert(text.subrange(0, head.len() as int) =~= head);
    assert(text.subrange(text.len() - tail.len(), text.len() as int) =~= tail);
}

/// Law: every statement of a NewOrder works on its table and finds its rows by the parameters
/// in the order of their key.
pub proof fn law_new_order_statements_address_their_rows()
    ensures
        reads_so(
            StatementId::NewOrderHome,
            "SELECT customer.c_discount",
            " FROM customer, warehouse WHERE warehouse.w_id = $1 AND customer.c_w_id = \
            warehouse.w_id AND customer.c_d_id = $2 AND customer.c_id = $3;",
        ),
        reads_so(
            StatementId::NewOrderLockStock,
            "UPDATE stock SET s_quantity = ",
            " WHERE s_w_id = $1 AND s_i_id = $2;",
        ),
        reads_so(
            StatementId::NewOrderItem,
            "SELECT i_id",
            " FROM item WHERE i_id = $1;",
        ),
        reads_so(
            StatementId::NewOrderStock,
            "SELECT s_quantity",
            " FROM stock WHERE s_w_id = $1 AND s_i_id = $2;",
        ),
        reads_so(
            StatementId::NewOrderAdvanceDistrict,
            "UPDATE district SET d_next_o_id = ",
            " WHERE d_w_id = $1 AND d_id = $2;",
        ),
        reads_so(
            StatementId::NewOrderInsertOrder,
            "INSERT INTO orders VALUES ",
            "($1, $2, $3, $4, $5, $6, $7, $8);",
        ),
        reads_so(
            StatementId::NewOrderInsertQueue,
            "INSERT INTO new_orders VALUES ",
            "($1, $2, $3);",
        ),
        reads_so(
            StatementId::NewOrderUpdateStockNormal,
            "UPDATE stock SET s_quantity = ",
            " WHERE s_w_id = $4 AND s_i_id = $5 AND s_quantity >= $6;",
        ),
        reads_so(
            StatementId::NewOrderUpdateStockWrapped,
            "UPDATE stock SET s_quantity = ",
            " WHERE s_w_id = $4 AND s_i_id = $5 AND s_quantity < $6;",
        ),
        reads_so(
            StatementId::NewOrderInsertLine,
            "INSERT INTO order_line VALUES ",
            "($1, $2, $3, $4, $5, $6, $7, $8, $9, $10);",
        ),
{
    lemma_new_order_home();
    lemma_new_order_lock_stock();
    lemma_new_order_item();
    lemma_new_order_stock();
    lemma_new_order_advance_district();
    lemma_new_order_insert_order();
    lemma_new_order_insert_queue();
    lemma_new_order_update_stock_normal();
    lemma_new_order_update_stock_wrapped();
    lemma_new_order_insert_line();
}

proof fn lemma_payment_warehouse()
    ensures
        reads_so(
            StatementId::PaymentWarehouse,
            "SELECT w_ytd",
            " FROM warehouse WHERE w_id = $1;",
        ),
{
    reveal_strlit(
        "SELECT w_ytd AS w_ytd, w_name AS w_name, w_street_1 AS w_street_1, w_street_2 AS \
        w_street_2, w_city AS w_city, w_state AS w_state, w_zip AS w_zip FROM \
        warehouse WHERE w_id = $1;",
    );
    reveal_strlit("SELECT w_ytd");
    reveal_strlit(
        " FROM warehouse WHERE w_id = $1;",
    );
    let text = sql_text(StatementId::PaymentWarehouse)@;
    let head = "SELECT w_ytd"@;
    let tail = " FROM warehouse WHERE w_id = $1;"@;
    assert(text.subrange(0, head.len() as int) =~= head);
    assert(text.subrange(text.len() - tail.len(), text.len() as int) =~= tail);
}

proof fn lemma_payment_update_warehouse()
    ensures
        reads_so(
            StatementId::PaymentUpdateWarehouse,
            "UPDATE warehouse SET w_ytd = ",
            " WHERE w_id = $2;",
        ),
{
    reveal_strlit(
        "UPDATE warehouse SET w_ytd = w_ytd + $1 WHERE w_id = $2;",
    );
    reveal_strlit("UPDATE warehouse SET w_ytd = ");
    reveal_strlit(
        " WHERE w_id = $2;",
    );
    let text = sql_text(StatementId::PaymentUpdateWarehouse)@;
    let head = "UPDATE warehouse SET w_ytd = "@;
    let tail = " WHERE w_id = $2;"@;
    assert(text.subrange(0, head.len() as int) =~= head);
    assert(text.subrange(text.len() - tail.len(), text.len() as int) =~= tail);
}

proof fn lemma_payment_district()
    ensures
        reads_so(
            StatementId::PaymentDistrict,
            "SELECT d_ytd",
            " FROM district WHERE d_w_id = $1 AND d_id = $2;",
        ),
{
    reveal_strlit(
        "SELECT d_ytd AS d_ytd, d_name AS d_name, d_street_1 AS d_street_1, d_street_2 AS \
        d_street_2, d_city AS d_city, d_state AS d_state, d_zip AS d_zip FROM district \
        WHERE d_w_id = $1 AND d_id = $2;",
    );
    reveal_strlit("SELECT d_ytd");
    reveal_strlit(
        " FROM district WHERE d_w_id = $1 AND d_id = $2;",
    );
    let text = sql_text(StatementId::PaymentDistrict)@;
    let head = "SELECT d_ytd"@;
    let tail = " FROM district WHERE d_w_id = $1 AND d_id = $2;"@;
    assert(text.subrange(0, head.len() as int) =~= head);
    assert(text.subrange(text.len() - tail.len(), text.len() as int) =~= tail);
}

proof fn lemma_payment_update_district()
    ensures
        reads_so(
            StatementId::PaymentUpdateDistrict,
            "UPDATE district SET d_ytd = ",
            " WHERE d_w_id = $2 AND d_id = $3;",
        ),
{
    reveal_strlit(
        "UPDATE district SET d_ytd = d_ytd + $1 WHERE d_w_id = $2 AND d_id = $3;",
    );
    reveal_strlit("UPDATE district SET d_ytd = ");
    reveal_strlit(
        " WHERE d_w_id = $2 AND d_id = $3;",
    );
    let text = sql_text(StatementId::PaymentUpdateDistrict)@;
    let head = "UPDATE district SET d_ytd = "@;
    let tail = " WHERE d_w_id = $2 AND d_id = $3;"@;
    assert(text.subrange(0, head.len() as int) =~= head);
    assert(text.subrange(text.len() - tail.len(), text.len() as int) =~= tail);
}

proof fn lemma_payment_customer_by_id()
    ensures
        reads_so(
            StatementId::PaymentCustomerById,
            "SELECT c_id",
            " FROM customer WHERE customer.c_w_id = $1 AND customer.c_d_id = $2 AND \
            customer.c_id = $3;",
        ),
{
    reveal_strlit(
        "SELECT c_id AS c_id, c_first AS c_first, c_middle AS c_middle, c_last AS c_last, \
        c_street_1 AS c_street_1, c_street_2 AS c_street_2, c_city AS c_city, c_state \
        AS c_state, c_zip AS c_zip, c_phone AS c_phone, c_since AS c_since, c_credit \
        AS c_credit, c_credit_lim AS c_credit_lim, c_discount AS c_discount, c_balance \
        AS c_balance, c_ytd_payment AS c_ytd_payment, c_payment_cnt AS c_payment_cnt, \
        c_delivery_cnt AS c_delivery_cnt, c_data AS c_data FROM customer WHERE \
        customer.c_w_id = $1 AND customer.c_d_id = $2 AND customer.c_id = $3;",
    );
    reveal_strlit("SELECT c_id");
    reveal_strlit(
        " FROM customer WHERE customer.c_w_id = $1 AND customer.c_d_id = $2 AND customer.c_id \
        = $3;",
    );
    let text = sql_text(StatementId::PaymentCustomerById)@;
    let head = "SELECT c_id"@;
    let tail = " FROM customer WHERE customer.c_w_id = $1 AND customer.c_d_id = $2 AND customer.c_id = $3;"@;
    assert(text.subrange(0, head.len() as int) =~= head);
    assert(text.subrange(text.len() - tail.len(), text.len() as int) =~= tail);
}

proof fn lemma_payment_customer_by_last()
    ensures
        reads_so(
            StatementId::PaymentCustomerByLast,
            "SELECT c_id",
            " FROM customer WHERE customer.c_w_id = $1 AND customer.c_d_id = $2 AND \
            customer.c_last = $3 ORDER BY customer.c_first ASC, customer.c_id ASC;",
        ),
{
    reveal_strlit(
        "SELECT c_id AS c_id, c_first AS c_first, c_middle AS c_middle, c_last AS c_last, \
        c_street_1 AS c_street_1, c_street_2 AS c_street_2, c_city AS c_city, c_state \
        AS c_state, c_zip AS c_zip, c_phone AS c_phone, c_since AS c_since, c_credit \
        AS c_credit, c_credit_lim AS c_credit_lim, c_discount AS c_discount, c_balance \
        AS c_balance, c_ytd_payment AS c_ytd_payment, c_payment_cnt AS c_payment_cnt, \
        c_delivery_cnt AS c_delivery_cnt, c_data AS c_data FROM customer WHERE \
        customer.c_w_id = $1 AND customer.c_d_id = $2 AND customer.c_last = $3 ORDER \
        BY customer.c_first ASC, customer.c_id ASC;",
    );
    reveal_strlit("SELECT c_id");
    reveal_strlit(
        " FROM customer WHERE customer.c_w_id = $1 AND customer.c_d_id = $2 AND \
        customer.c_last = $3 ORDER BY customer.c_first ASC, customer.c_id ASC;",
    );
    let text = sql_text(StatementId::PaymentCustomerByLast)@;
    let head = "SELECT c_id"@;
    let tail = " FROM customer WHERE customer.c_w_id = $1 AND customer.c_d_id = $2 AND customer.c_last = \
    $3 ORDER BY customer.c_first ASC, customer.c_id ASC;"@;
    assert(text.subrange(0, head.len() as int) =~= head);
    assert(text.subrange(text.len() - tail.len(), text.len() as int) =~= tail);
}

proof fn lemma_payment_update_good_customer()
    ensures
        reads_so(
            StatementId::PaymentUpdateGoodCustomer,
            "UPDATE customer SET c_balance = ",
            " WHERE c_w_id = $2 AND c_d_id = $3 AND c_id = $4;",
        ),
{
    reveal_strlit(
        "UPDATE customer SET c_balance = c_balance - $1, c_ytd_payment = c_ytd_payment + $1, \
        c_payment_cnt = c_payment_cnt + 1 WHERE c_w_id = $2 AND c_d_id = $3 AND c_id = \
        $4;",
    );
    reveal_strlit("UPDATE customer SET c_balance = ");
    reveal_strlit(
        " WHERE c_w_id = $2 AND c_d_id = $3 AND c_id = $4;",
    );
    let text = sql_text(StatementId::PaymentUpdateGoodCustomer)@;
    let head = "UPDATE customer SET c_balance = "@;
    let tail = " WHERE c_w_id = $2 AND c_d_id = $3 AND c_id = $4;"@;
    assert(text.subrange(0, head.len() as int) =~= head);
    assert(text.subrange(text.len() - tail.len(), text.len() as int) =~= tail);
}

proof fn lemma_payment_update_bad_customer()
    ensures
        reads_so(
            StatementId::PaymentUpdateBadCustomer,
            "UPDATE customer SET c_balance = ",
            " WHERE c_w_id = $3 AND c_d_id = $4 AND c_id = $5;",
        ),
{
    reveal_strlit(
        "UPDATE customer SET c_balance = c_balance - $1, c_ytd_payment = c_ytd_payment + $1, \
        c_payment_cnt = c_payment_cnt + 1, c_data = $2 WHERE c_w_id = $3 AND c_d_id = \
        $4 AND c_id = $5;",
    );
    reveal_strlit("UPDATE customer SET c_balance = ");
    reveal_strlit(
        " WHERE c_w_id = $3 AND c_d_id = $4 AND c_id = $5;",
    );
    let text = sql_text(StatementId::PaymentUpdateBadCustomer)@;
    let head = "UPDATE customer SET c_balance = "@;
    let tail = " WHERE c_w_id = $3 AND c_d_id = $4 AND c_id = $5;"@;
    assert(text.subrange(0, head.len() as int) =~= head);
    assert(text.subrange(text.len() - tail.len(), text.len() as int) =~= tail);
}

proof fn lemma_payment_insert_history()
    ensures
        reads_so(
            StatementId::PaymentInsertHistory,
            "INSERT INTO history VALUES ",
            "($1, $2, $3, $4, $5, $6, $7, $8);",
        ),
{
    reveal_strlit(
        "INSERT INTO history VALUES ($1, $2, $3, $4, $5, $6, $7, $8);",
    );
    reveal_strlit("INSERT INTO history VALUES ");
    reveal_strlit(
        "($1, $2, $3, $4, $5, $6, $7, $8);",
    );
    let text = sql_text(StatementId::PaymentInsertHistory)@;
    let head = "INSERT INTO history VALUES "@;
    let tail = "($1, $2, $3, $4, $5, $6, $7, $8);"@;
    assert(text.subrange(0, head.len() as int) =~= head);
    assert(text.subrange(text.len() - tail.len(), text.len() as int) =~= tail);
}

proof fn lemma_payment_customer_after()
    ensures
        reads_so(
            StatementId::PaymentCustomerAfter,
            "SELECT c_balance",
            " FROM customer WHERE c_w_id = $1 AND c_d_id = $2 AND c_id = $3;",
        ),
{
    reveal_strlit(
        "SELECT c_balance AS c_balance, c_ytd_payment AS c_ytd_payment, c_payment_cnt AS \
        c_payment_cnt, c_delivery_cnt AS c_delivery_cnt, c_data AS c_data FROM \
        customer WHERE c_w_id = $1 AND c_d_id = $2 AND c_id = $3;",
    );
    reveal_strlit("SELECT c_balance");
    reveal_strlit(
        " FROM customer WHERE c_w_id = $1 AND c_d_id = $2 AND c_id = $3;",
    );
    let text = sql_text(StatementId::PaymentCustomerAfter)@;
    let head = "SELECT c_balance"@;
    let tail = " FROM customer WHERE c_w_id = $1 AND c_d_id = $2 AND c_id = $3;"@;
    assert(text.subrange(0, head.len() as int) =~= head);
    assert(text.subrange(text.len() - tail.len(), text.len() as int) =~= tail);
}

/// Law: every statement of a Payment works on its table and finds its rows by the parameters
/// in the order of their key.
pub proof fn law_payment_statements_address_their_rows()
    ensures
        reads_so(
            StatementId::PaymentWarehouse,
            "SELECT w_ytd",
            " FROM warehouse WHERE w_id = $1;",
        ),
        reads_so(
            StatementId::PaymentUpdateWarehouse,
            "UPDATE warehouse SET w_ytd = ",
            " WHERE w_id = $2;",
        ),
        reads_so(
            StatementId::PaymentDistrict,
            "SELECT d_ytd",
            " FROM district WHERE d_w_id = $1 AND d_id = $2;",
        ),
        reads_so(
            StatementId::PaymentUpdateDistrict,
            "UPDATE district SET d_ytd = ",
            " WHERE d_w_id = $2 AND d_id = $3;",
        ),
        reads_so(
            StatementId::PaymentCustomerById,
            "SELECT c_id",
            " FROM customer WHERE customer.c_w_id = $1 AND customer.c_d_id = $2 AND \
            customer.c_id = $3;",
        ),
        reads_so(
            StatementId::PaymentCustomerByLast,
            "SELECT c_id",
            " FROM customer WHERE customer.c_w_id = $1 AND customer.c_d_id = $2 AND \
            customer.c_last = $3 ORDER BY customer.c_first ASC, customer.c_id ASC;",
        ),
        reads_so(
            StatementId::PaymentUpdateGoodCustomer,
            "UPDATE customer SET c_balance = ",
            " WHERE c_w_id = $2 AND c_d_id = $3 AND c_id = $4;",
        ),
        reads_so(
            StatementId::PaymentUpdateBadCustomer,
            "UPDATE customer SET c_balance = ",
            " WHERE c_w_id = $3 AND c_d_id = $4 AND c_id = $5;",
        ),
        reads_so(
            StatementId::PaymentInsertHistory,
            "INSERT INTO history VALUES ",
            "($1, $2, $3, $4, $5, $6, $7, $8);",
        ),
        reads_so(
            StatementId::PaymentCustomerAfter,
            "SELECT c_balance",
            " FROM customer WHERE c_w_id = $1 AND c_d_id = $2 AND c_id = $3;",
        ),
{
    lemma_payment_warehouse();
    lemma_payment_update_warehouse();
    lemma_payment_district();
    lemma_payment_update_district();
    lemma_payment_customer_by_id();
    lemma_payment_customer_by_last();
    lemma_payment_update_good_customer();
    lemma_payment_update_bad_customer();
    lemma_payment_insert_history();
    lemma_payment_customer_after();
}

proof fn lemma_order_status_customer_by_id()
    ensures
        reads_so(
            StatementId::OrderStatusCustomerById,
            "SELECT c_id",
            " FROM customer WHERE c_w_id = $1 AND c_d_id = $2 AND c_id = $3;",
        ),
{
    reveal_strlit(
        "SELECT c_id AS c_id, c_balance AS c_balance, c_first AS c_first, c_middle AS \
        c_middle, c_last AS c_last FROM customer WHERE c_w_id = $1 AND c_d_id = $2 AND \
        c_id = $3;",
    );
    reveal_strlit("SELECT c_id");
    reveal_strlit(
        " FROM customer WHERE c_w_id = $1 AND c_d_id = $2 AND c_id = $3;",
    );
    let text = sql_text(StatementId::OrderStatusCustomerById)@;
    let head = "SELECT c_id"@;
    let tail = " FROM customer WHERE c_w_id = $1 AND c_d_id = $2 AND c_id = $3;"@;
    assert(text.subrange(0, head.len() as int) =~= head);
    assert(text.subrange(text.len() - tail.len(), text.len() as int) =~= tail);
}

proof fn lemma_order_status_customer_by_last()
    ensures
        reads_so(
            StatementId::OrderStatusCustomerByLast,
            "SELECT c_id",
            " FROM customer WHERE c_w_id = $1 AND c_d_id = $2 AND c_last = $3 ORDER BY c_first \
            ASC, c_id ASC;",
        ),
{
    reveal_strlit(
        "SELECT c_id AS c_id, c_balance AS c_balance, c_first AS c_first, c_middle AS \
        c_middle, c_last AS c_last FROM customer WHERE c_w_id = $1 AND c_d_id = $2 AND \
        c_last = $3 ORDER BY c_first ASC, c_id ASC;",
    );
    reveal_strlit("SELECT c_id");
    reveal_strlit(
        " FROM customer WHERE c_w_id = $1 AND c_d_id = $2 AND c_last = $3 ORDER BY c_first \
        ASC, c_id ASC;",
    );
    let text = sql_text(StatementId::OrderStatusCustomerByLast)@;
    let head = "SELECT c_id"@;
    let tail = " FROM customer WHERE c_w_id = $1 AND c_d_id = $2 AND c_last = $3 ORDER BY c_first ASC, \
    c_id ASC;"@;
    assert(text.subrange(0, head.len() as int) =~= head);
    assert(text.subrange(text.len() - tail.len(), text.len() as int) =~= tail);
}

proof fn lemma_order_status_latest_order()
    ensures
        reads_so(
            StatementId::OrderStatusLatestOrder,
            "SELECT o_id",
            " FROM orders WHERE o_w_id = $1 AND o_d_id = $2 AND o_c_id = $3 ORDER BY o_id DESC \
            LIMIT 1;",
        ),
{
    reveal_strlit(
        "SELECT o_id AS o_id FROM orders WHERE o_w_id = $1 AND o_d_id = $2 AND o_c_id = $3 \
        ORDER BY o_id DESC LIMIT 1;",
    );
    reveal_strlit("SELECT o_id");
    reveal_strlit(
        " FROM orders WHERE o_w_id = $1 AND o_d_id = $2 AND o_c_id = $3 ORDER BY o_id DESC \
        LIMIT 1;",
    );
    let text = sql_text(StatementId::OrderStatusLatestOrder)@;
    let head = "SELECT o_id"@;
    let tail = " FROM orders WHERE o_w_id = $1 AND o_d_id = $2 AND o_c_id = $3 ORDER BY o_id DESC LIMIT 1;"@;
    assert(text.subrange(0, head.len() as int) =~= head);
    assert(text.subrange(text.len() - tail.len(), text.len() as int) =~= tail);
}

proof fn lemma_order_status_order()
    ensures
        reads_so(
            StatementId::OrderStatusOrder,
            "SELECT o_id",
            " FROM orders WHERE o_w_id = $1 AND o_d_id = $2 AND o_id = $3;",
        ),
{
    reveal_strlit(
        "SELECT o_id AS o_id, o_entry_d AS o_entry_d, o_carrier_id AS o_carrier_id FROM orders \
        WHERE o_w_id = $1 AND o_d_id = $2 AND o_id = $3;",
    );
    reveal_strlit("SELECT o_id");
    reveal_strlit(
        " FROM orders WHERE o_w_id = $1 AND o_d_id = $2 AND o_id = $3;",
    );
    let text = sql_text(StatementId::OrderStatusOrder)@;
    let head = "SELECT o_id"@;
    let tail = " FROM orders WHERE o_w_id = $1 AND o_d_id = $2 AND o_id = $3;"@;
    assert(text.subrange(0, head.len() as int) =~= head);
    assert(text.subrange(text.len() - tail.len(), text.len() as int) =~= tail);
}

proof fn lemma_order_status_lines()
    ensures
        reads_so(
            StatementId::OrderStatusLines,
            "SELECT ol_number",
            " FROM order_line WHERE ol_w_id = $1 AND ol_d_id = $2 AND ol_o_id = $3 ORDER BY \
            ol_number ASC;",
        ),
{
    reveal_strlit(
        "SELECT ol_number AS ol_number, ol_i_id AS ol_i_id, ol_supply_w_id AS ol_supply_w_id, \
        ol_quantity AS ol_quantity, ol_amount AS ol_amount, ol_delivery_d AS \
        ol_delivery_d FROM order_line WHERE ol_w_id = $1 AND ol_d_id = $2 AND ol_o_id \
        = $3 ORDER BY ol_number ASC;",
    );
    reveal_strlit("SELECT ol_number");
    reveal_strlit(
        " FROM order_line WHERE ol_w_id = $1 AND ol_d_id = $2 AND ol_o_id = $3 ORDER BY \
        ol_number ASC;",
    );
    let text = sql_text(StatementId::OrderStatusLines)@;
    let head = "SELECT ol_number"@;
    let tail = " FROM order_line WHERE ol_w_id = $1 AND ol_d_id = $2 AND ol_o_id = $3 ORDER BY ol_number \
    ASC;"@;
    assert(text.subrange(0, head.len() as int) =~= head);
    assert(text.subrange(text.len() - tail.len(), text.len() as int) =~= tail);
}

/// Law: every statement of an OrderStatus works on its table and finds its rows by the parameters
/// in the order of their key.
pub proof fn law_order_status_statements_address_their_rows()
    ensures
        reads_so(
            StatementId::OrderStatusCustomerById,
            "SELECT c_id",
            " FROM customer WHERE c_w_id = $1 AND c_d_id = $2 AND c_id = $3;",
        ),
        reads_so(
            StatementId::OrderStatusCustomerByLast,
            "SELECT c_id",
            " FROM customer WHERE c_w_id = $1 AND c_d_id = $2 AND c_last = $3 ORDER BY c_first \
            ASC, c_id ASC;",
        ),
        reads_so(
            StatementId::OrderStatusLatestOrder,
            "SELECT o_id",
            " FROM orders WHERE o_w_id = $1 AND o_d_id = $2 AND o_c_id = $3 ORDER BY o_id DESC \
            LIMIT 1;",
        ),
        reads_so(
            StatementId::OrderStatusOrder,
            "SELECT o_id",
            " FROM orders WHERE o_w_id = $1 AND o_d_id = $2 AND o_id = $3;",
        ),
        reads_so(
            StatementId::OrderStatusLines,
            "SELECT ol_number",
            " FROM order_line WHERE ol_w_id = $1 AND ol_d_id = $2 AND ol_o_id = $3 ORDER BY \
            ol_number ASC;",
        ),
{
    lemma_order_status_customer_by_id();
    lemma_order_status_customer_by_last();
    lemma_order_status_latest_order();
    lemma_order_status_order();
    lemma_order_status_lines();
}

proof fn lemma_delivery_oldest_order()
    ensures
        reads_so(
            StatementId::DeliveryOldestOrder,
            "SELECT MIN(no_o_id",
            " FROM new_orders WHERE no_w_id = $1 AND no_d_id = $2;",
        ),
{
    reveal_strlit(
        "SELECT MIN(no_o_id) AS no_o_id FROM new_orders WHERE no_w_id = $1 AND no_d_id = $2;",
    );
    reveal_strlit("SELECT MIN(no_o_id");
    reveal_strlit(
        " FROM new_orders WHERE no_w_id = $1 AND no_d_id = $2;",
    );
    let text = sql_text(StatementId::DeliveryOldestOrder)@;
    let head = "SELECT MIN(no_o_id"@;
    let tail = " FROM new_orders WHERE no_w_id = $1 AND no_d_id = $2;"@;
    assert(text.subrange(0, head.len() as int) =~= head);
    assert(text.subrange(text.len() - tail.len(), text.len() as int) =~= tail);
}

proof fn lemma_delivery_lock_queue()
    ensures
        reads_so(
            StatementId::DeliveryLockQueue,
            "UPDATE new_orders SET no_o_id = ",
            " WHERE no_w_id = $1 AND no_d_id = $2 AND no_o_id = $3;",
        ),
{
    reveal_strlit(
        "UPDATE new_orders SET no_o_id = no_o_id WHERE no_w_id = $1 AND no_d_id = $2 AND \
        no_o_id = $3;",
    );
    reveal_strlit("UPDATE new_orders SET no_o_id = ");
    reveal_strlit(
        " WHERE no_w_id = $1 AND no_d_id = $2 AND no_o_id = $3;",
    );
    let text = sql_text(StatementId::DeliveryLockQueue)@;
    let head = "UPDATE new_orders SET no_o_id = "@;
    let tail = " WHERE no_w_id = $1 AND no_d_id = $2 AND no_o_id = $3;"@;
    assert(text.subrange(0, head.len() as int) =~= head);
    assert(text.subrange(text.len() - tail.len(), text.len() as int) =~= tail);
}

proof fn lemma_delivery_confirm_queue()
    ensures
        reads_so(
            StatementId::DeliveryConfirmQueue,
            "SELECT no_o_id",
            " FROM new_orders WHERE no_w_id = $1 AND no_d_id = $2 AND no_o_id = $3;",
        ),
{
    reveal_strlit(
        "SELECT no_o_id AS no_o_id FROM new_orders WHERE no_w_id = $1 AND no_d_id = $2 AND \
        no_o_id = $3;",
    );
    reveal_strlit("SELECT no_o_id");
    reveal_strlit(
        " FROM new_orders WHERE no_w_id = $1 AND no_d_id = $2 AND no_o_id = $3;",
    );
    let text = sql_text(StatementId::DeliveryConfirmQueue)@;
    let head = "SELECT no_o_id"@;
    let tail = " FROM new_orders WHERE no_w_id = $1 AND no_d_id = $2 AND no_o_id = $3;"@;
    assert(text.subrange(0, head.len() as int) =~= head);
    assert(text.subrange(text.len() - tail.len(), text.len() as int) =~= tail);
}

proof fn lemma_delivery_order()
    ensures
        reads_so(
            StatementId::DeliveryOrder,
            "SELECT o_c_id",
            " FROM orders WHERE o_w_id = $1 AND o_d_id = $2 AND o_id = $3;",
        ),
{
    reveal_strlit(
        "SELECT o_c_id AS o_c_id FROM orders WHERE o_w_id = $1 AND o_d_id = $2 AND o_id = $3;",
    );
    reveal_strlit("SELECT o_c_id");
    reveal_strlit(
        " FROM orders WHERE o_w_id = $1 AND o_d_id = $2 AND o_id = $3;",
    );
    let text = sql_text(StatementId::DeliveryOrder)@;
    let head = "SELECT o_c_id"@;
    let tail = " FROM orders WHERE o_w_id = $1 AND o_d_id = $2 AND o_id = $3;"@;
    assert(text.subrange(0, head.len() as int) =~= head);
    assert(text.subrange(text.len() - tail.len(), text.len() as int) =~= tail);
}

proof fn lemma_delivery_customer()
    ensures
        reads_so(
            StatementId::DeliveryCustomer,
            "SELECT customer.c_id",
            " FROM customer, orders WHERE orders.o_w_id = $1 AND orders.o_d_id = $2 AND \
            orders.o_id = $3 AND customer.c_w_id = orders.o_w_id AND \
            customer.c_d_id = orders.o_d_id AND customer.c_id = orders.o_c_id;",
        ),
{
    reveal_strlit(
        "SELECT customer.c_id AS c_id, customer.c_balance AS c_balance, customer.c_payment_cnt \
        AS c_payment_cnt, customer.c_delivery_cnt AS c_delivery_cnt FROM customer, \
        orders WHERE orders.o_w_id = $1 AND orders.o_d_id = $2 AND orders.o_id = $3 \
        AND customer.c_w_id = orders.o_w_id AND customer.c_d_id = orders.o_d_id AND \
        customer.c_id = orders.o_c_id;",
    );
    reveal_strlit("SELECT customer.c_id");
    reveal_strlit(
        " FROM customer, orders WHERE orders.o_w_id = $1 AND orders.o_d_id = $2 AND \
        orders.o_id = $3 AND customer.c_w_id = orders.o_w_id AND customer.c_d_id = \
        orders.o_d_id AND customer.c_id = orders.o_c_id;",
    );
    let text = sql_text(StatementId::DeliveryCustomer)@;
    let head = "SELECT customer.c_id"@;
    let tail = " FROM customer, orders WHERE orders.o_w_id = $1 AND orders.o_d_id = $2 AND orders.o_id = \
    $3 AND customer.c_w_id = orders.o_w_id AND customer.c_d_id = orders.o_d_id AND \
    customer.c_id = orders.o_c_id;"@;
    assert(text.subrange(0, head.len() as int) =~= head);
    assert(text.subrange(text.len() - tail.len(), text.len() as int) =~= tail);
}

proof fn lemma_delivery_line_rows()
    ensures
        reads_so(
            StatementId::DeliveryLineRows,
            "SELECT ol_number",
            " FROM order_line WHERE ol_w_id = $1 AND ol_d_id = $2 AND ol_o_id = $3 ORDER BY \
            ol_number ASC;",
        ),
{
    reveal_strlit(
        "SELECT ol_number AS ol_number, ol_amount AS ol_amount FROM order_line WHERE ol_w_id = \
        $1 AND ol_d_id = $2 AND ol_o_id = $3 ORDER BY ol_number ASC;",
    );
    reveal_strlit("SELECT ol_number");
    reveal_strlit(
        " FROM order_line WHERE ol_w_id = $1 AND ol_d_id = $2 AND ol_o_id = $3 ORDER BY \
        ol_number ASC;",
    );
    let text = sql_text(StatementId::DeliveryLineRows)@;
    let head = "SELECT ol_number"@;
    let tail = " FROM order_line WHERE ol_w_id = $1 AND ol_d_id = $2 AND ol_o_id = $3 ORDER BY ol_number \
    ASC;"@;
    assert(text.subrange(0, head.len() as int) =~= head);
    assert(text.subrange(text.len() - tail.len(), text.len() as int) =~= tail);
}

proof fn lemma_delivery_line_sum()
    ensures
        reads_so(
            StatementId::DeliveryLineSum,
            "SELECT SUM(ol_amount",
            " FROM order_line WHERE ol_w_id = $1 AND ol_d_id = $2 AND ol_o_id = $3;",
        ),
{
    reveal_strlit(
        "SELECT SUM(ol_amount) AS ol_amount_sum FROM order_line WHERE ol_w_id = $1 AND ol_d_id \
        = $2 AND ol_o_id = $3;",
    );
    reveal_strlit("SELECT SUM(ol_amount");
    reveal_strlit(
        " FROM order_line WHERE ol_w_id = $1 AND ol_d_id = $2 AND ol_o_id = $3;",
    );
    let text = sql_text(StatementId::DeliveryLineSum)@;
    let head = "SELECT SUM(ol_amount"@;
    let tail = " FROM order_line WHERE ol_w_id = $1 AND ol_d_id = $2 AND ol_o_id = $3;"@;
    assert(text.subrange(0, head.len() as int) =~= head);
    assert(text.subrange(text.len() - tail.len(), text.len() as int) =~= tail);
}

proof fn lemma_delivery_delete_queue()
    ensures
        reads_so(
            StatementId::DeliveryDeleteQueue,
            "DELETE FROM new_orders",
            " WHERE no_w_id = $1 AND no_d_id = $2 AND no_o_id = $3;",
        ),
{
    reveal_strlit(
        "DELETE FROM new_orders WHERE no_w_id = $1 AND no_d_id = $2 AND no_o_id = $3;",
    );
    reveal_strlit("DELETE FROM new_orders");
    reveal_strlit(
        " WHERE no_w_id = $1 AND no_d_id = $2 AND no_o_id = $3;",
    );
    let text = sql_text(StatementId::DeliveryDeleteQueue)@;
    let head = "DELETE FROM new_orders"@;
    let tail = " WHERE no_w_id = $1 AND no_d_id = $2 AND no_o_id = $3;"@;
    assert(text.subrange(0, head.len() as int) =~= head);
    assert(text.subrange(text.len() - tail.len(), text.len() as int) =~= tail);
}

proof fn lemma_delivery_update_order()
    ensures
        reads_so(
            StatementId::DeliveryUpdateOrder,
            "UPDATE orders SET o_carrier_id = ",
            " WHERE o_w_id = $2 AND o_d_id = $3 AND o_id = $4;",
        ),
{
    reveal_strlit(
        "UPDATE orders SET o_carrier_id = $1 WHERE o_w_id = $2 AND o_d_id = $3 AND o_id = $4;",
    );
    reveal_strlit("UPDATE orders SET o_carrier_id = ");
    reveal_strlit(
        " WHERE o_w_id = $2 AND o_d_id = $3 AND o_id = $4;",
    );
    let text = sql_text(StatementId::DeliveryUpdateOrder)@;
    let head = "UPDATE orders SET o_carrier_id = "@;
    let tail = " WHERE o_w_id = $2 AND o_d_id = $3 AND o_id = $4;"@;
    assert(text.subrange(0, head.len() as int) =~= head);
    assert(text.subrange(text.len() - tail.len(), text.len() as int) =~= tail);
}

proof fn lemma_delivery_update_lines()
    ensures
        reads_so(
            StatementId::DeliveryUpdateLines,
            "UPDATE order_line SET ol_delivery_d = ",
            " WHERE ol_w_id = $2 AND ol_d_id = $3 AND ol_o_id = $4;",
        ),
{
    reveal_strlit(
        "UPDATE order_line SET ol_delivery_d = $1 WHERE ol_w_id = $2 AND ol_d_id = $3 AND \
        ol_o_id = $4;",
    );
    reveal_strlit("UPDATE order_line SET ol_delivery_d = ");
    reveal_strlit(
        " WHERE ol_w_id = $2 AND ol_d_id = $3 AND ol_o_id = $4;",
    );
    let text = sql_text(StatementId::DeliveryUpdateLines)@;
    let head = "UPDATE order_line SET ol_delivery_d = "@;
    let tail = " WHERE ol_w_id = $2 AND ol_d_id = $3 AND ol_o_id = $4;"@;
    assert(text.subrange(0, head.len() as int) =~= head);
    assert(text.subrange(text.len() - tail.len(), text.len() as int) =~= tail);
}

proof fn lemma_delivery_update_customer()
    ensures
        reads_so(
            StatementId::DeliveryUpdateCustomer,
            "UPDATE customer SET c_balance = ",
            " WHERE c_w_id = $2 AND c_d_id = $3 AND c_id = $4;",
        ),
{
    reveal_strlit(
        "UPDATE customer SET c_balance = c_balance + $1, c_delivery_cnt = c_delivery_cnt + 1 \
        WHERE c_w_id = $2 AND c_d_id = $3 AND c_id = $4;",
    );
    reveal_strlit("UPDATE customer SET c_balance = ");
    reveal_strlit(
        " WHERE c_w_id = $2 AND c_d_id = $3 AND c_id = $4;",
    );
    let text = sql_text(StatementId::DeliveryUpdateCustomer)@;
    let head = "UPDATE customer SET c_balance = "@;
    let tail = " WHERE c_w_id = $2 AND c_d_id = $3 AND c_id = $4;"@;
    assert(text.subrange(0, head.len() as int) =~= head);
    assert(text.subrange(text.len() - tail.len(), text.len() as int) =~= tail);
}

proof fn lemma_delivery_customer_after()
    ensures
        reads_so(
            StatementId::DeliveryCustomerAfter,
            "SELECT c_balance",
            " FROM customer WHERE c_w_id = $1 AND c_d_id = $2 AND c_id = $3;",
        ),
{
    reveal_strlit(
        "SELECT c_balance AS c_balance, c_payment_cnt AS c_payment_cnt, c_delivery_cnt AS \
        c_delivery_cnt FROM customer WHERE c_w_id = $1 AND c_d_id = $2 AND c_id = $3;",
    );
    reveal_strlit("SELECT c_balance");
    reveal_strlit(
        " FROM customer WHERE c_w_id = $1 AND c_d_id = $2 AND c_id = $3;",
    );
    let text = sql_text(StatementId::DeliveryCustomerAfter)@;
    let head = "SELECT c_balance"@;
    let tail = " FROM customer WHERE c_w_id = $1 AND c_d_id = $2 AND c_id = $3;"@;
    assert(text.subrange(0, head.len() as int) =~= head);
    assert(text.subrange(text.len() - tail.len(), text.len() as int) =~= tail);
}

/// Law: every statement of a Delivery works on its table and finds its rows by the parameters
/// in the order of their key.
pub proof fn law_delivery_statements_address_their_rows()
    ensures
        reads_so(
            StatementId::DeliveryOldestOrder,
            "SELECT MIN(no_o_id",
            " FROM new_orders WHERE no_w_id = $1 AND no_d_id = $2;",
        ),
        reads_so(
            StatementId::DeliveryLockQueue,
            "UPDATE new_orders SET no_o_id = ",
            " WHERE no_w_id = $1 AND no_d_id = $2 AND no_o_id = $3;",
        ),
        reads_so(
            StatementId::DeliveryConfirmQueue,
            "SELECT no_o_id",
            " FROM new_orders WHERE no_w_id = $1 AND no_d_id = $2 AND no_o_id = $3;",
        ),
        reads_so(
            StatementId::DeliveryOrder,
            "SELECT o_c_id",
            " FROM orders WHERE o_w_id = $1 AND o_d_id = $2 AND o_id = $3;",
        ),
        reads_so(
            StatementId::DeliveryCustomer,
            "SELECT customer.c_id",
            " FROM customer, orders WHERE orders.o_w_id = $1 AND orders.o_d_id = $2 AND \
            orders.o_id = $3 AND customer.c_w_id = orders.o_w_id AND \
            customer.c_d_id = orders.o_d_id AND customer.c_id = orders.o_c_id;",
        ),
        reads_so(
            StatementId::DeliveryLineRows,
            "SELECT ol_number",
            " FROM order_line WHERE ol_w_id = $1 AND ol_d_id = $2 AND ol_o_id = $3 ORDER BY \
            ol_number ASC;",
        ),
        reads_so(
            StatementId::DeliveryLineSum,
            "SELECT SUM(ol_amount",
            " FROM order_line WHERE ol_w_id = $1 AND ol_d_id = $2 AND ol_o_id = $3;",
        ),
        reads_so(
            StatementId::DeliveryDeleteQueue,
            "DELETE FROM new_orders",
            " WHERE no_w_id = $1 AND no_d_id = $2 AND no_o_id = $3;",
        ),
        reads_so(
            StatementId::DeliveryUpdateOrder,
            "UPDATE orders SET o_carrier_id = ",
            " WHERE o_w_id = $2 AND o_d_id = $3 AND o_id = $4;",
        ),
        reads_so(
            StatementId::DeliveryUpdateLines,
            "UPDATE order_line SET ol_delivery_d = ",
            " WHERE ol_w_id = $2 AND ol_d_id = $3 AND ol_o_id = $4;",
        ),
        reads_so(
            StatementId::DeliveryUpdateCustomer,
            "UPDATE customer SET c_balance = ",
            " WHERE c_w_id = $2 AND c_d_id = $3 AND c_id = $4;",
        ),
        reads_so(
            StatementId::DeliveryCustomerAfter,
            "SELECT c_balance",
            " FROM customer WHERE c_w_id = $1 AND c_d_id = $2 AND c_id = $3;",
        ),
{
    lemma_delivery_oldest_order();
    lemma_delivery_lock_queue();
    lemma_delivery_confirm_queue();
    lemma_delivery_order();
    lemma_delivery_customer();
    lemma_delivery_line_rows();
    lemma_delivery_line_sum();
    lemma_delivery_delete_queue();
    lemma_delivery_update_order();
    lemma_delivery_update_lines();
    lemma_delivery_update_customer();
    lemma_delivery_customer_after();
}

proof fn lemma_stock_level_next_order()
    ensures
        reads_so(
            StatementId::StockLevelNextOrder,
            "SELECT d_next_o_id",
            " FROM district WHERE d_w_id = $1 AND d_id = $2;",
        ),
{
    reveal_strlit(
        "SELECT d_next_o_id AS d_next_o_id, d_tax AS d_tax FROM district WHERE d_w_id = $1 AND \
        d_id = $2;",
    );
    reveal_strlit("SELECT d_next_o_id");
    reveal_strlit(
        " FROM district WHERE d_w_id = $1 AND d_id = $2;",
    );
    let text = sql_text(StatementId::StockLevelNextOrder)@;
    let head = "SELECT d_next_o_id"@;
    let tail = " FROM district WHERE d_w_id = $1 AND d_id = $2;"@;
    assert(text.subrange(0, head.len() as int) =~= head);
    assert(text.subrange(text.len() - tail.len(), text.len() as int) =~= tail);
}

proof fn lemma_stock_level_count()
    ensures
        reads_so(
            StatementId::StockLevelCount,
            "SELECT COUNT(DISTINCT order_line.ol_i_id",
            " FROM order_line, stock WHERE order_line.ol_w_id = $1 AND order_line.ol_d_id = $2 \
            AND order_line.ol_o_id >= $3 AND order_line.ol_o_id < $4 AND \
            stock.s_w_id = $1 AND stock.s_i_id = order_line.ol_i_id AND \
            stock.s_quantity < $5;",
        ),
{
    reveal_strlit(
        "SELECT COUNT(DISTINCT order_line.ol_i_id) AS low_stock_count FROM order_line, stock \
        WHERE order_line.ol_w_id = $1 AND order_line.ol_d_id = $2 AND \
        order_line.ol_o_id >= $3 AND order_line.ol_o_id < $4 AND stock.s_w_id = $1 AND \
        stock.s_i_id = order_line.ol_i_id AND stock.s_quantity < $5;",
    );
    reveal_strlit("SELECT COUNT(DISTINCT order_line.ol_i_id");
    reveal_strlit(
        " FROM order_line, stock WHERE order_line.ol_w_id = $1 AND order_line.ol_d_id = $2 AND \
        order_line.ol_o_id >= $3 AND order_line.ol_o_id < $4 AND stock.s_w_id = $1 AND \
        stock.s_i_id = order_line.ol_i_id AND stock.s_quantity < $5;",
    );
    let text = sql_text(StatementId::StockLevelCount)@;
    let head = "SELECT COUNT(DISTINCT order_line.ol_i_id"@;
    let tail = " FROM order_line, stock WHERE order_line.ol_w_id = $1 AND order_line.ol_d_id = $2 AND \
    order_line.ol_o_id >= $3 AND order_line.ol_o_id < $4 AND stock.s_w_id = $1 AND \
    stock.s_i_id = order_line.ol_i_id AND stock.s_quantity < $5;"@;
    assert(text.subrange(0, head.len() as int) =~= head);
    assert(text.subrange(text.len() - tail.len(), text.len() as int) =~= tail);
}

/// Law: every statement of a StockLevel works on its table and finds its rows by the parameters
/// in the order of their key.
pub proof fn law_stock_level_statements_address_their_rows()
    ensures
        reads_so(
            StatementId::StockLevelNextOrder,
            "SELECT d_next_o_id",
            " FROM district WHERE d_w_id = $1 AND d_id = $2;",
        ),
        reads_so(
            StatementId::StockLevelCount,
            "SELECT COUNT(DISTINCT order_line.ol_i_id",
            " FROM order_line, stock WHERE order_line.ol_w_id = $1 AND order_line.ol_d_id = $2 \
            AND order_line.ol_o_id >= $3 AND order_line.ol_o_id < $4 AND \
            stock.s_w_id = $1 AND stock.s_i_id = order_line.ol_i_id AND \
            stock.s_quantity < $5;",
        ),
{
    lemma_stock_level_next_order();
    lemma_stock_level_count();
}

} // verus!
