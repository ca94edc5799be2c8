//! What is read of an accepted batch is what its answer holds.
use vstd::prelude::*;

use crate::binary32::is_finite;
use crate::ranking::common::{
    char_at, f32_at, has_rows, indexed_rows, int32_at, response_fault, response_rows,
    result_indices_fault, rows_fault, scalar_fault, single_char_fault, single_f32_fault,
    single_int32_fault, single_row_of, violation,
};
use crate::text::decimal;
use crate::wire::{BatchQueryResult, BatchResponse, WireModel, rows_model};

verus! {

/// Accepted results stand in ascending order, inside the batch.
proof fn lemma_indices_ascend(
    results: Seq<BatchQueryResult>,
    operations: nat,
    last: int,
    i: int,
    j: int,
    k: int,
)
    requires
        result_indices_fault(results, operations, last, i) is None,
        0 <= i <= j <= k < results.len(),
    ensures
        last < results[j].operation_index <= results[k].operation_index < operations,
        j < k ==> results[j].operation_index < results[k].operation_index,
    decreases k - i,
{
    let next = results[i].operation_index as int;
    if i < j {
        lemma_indices_ascend(results, operations, next, i + 1, j, k);
    } else if j < k {
        lemma_indices_ascend(results, operations, next, i + 1, i + 1, k);
    }
}

/// What the first `n` results leave at an index.
proof fn lemma_indexed(results: Seq<BatchQueryResult>, operations: nat, n: int, index: int)
    requires
        result_indices_fault(results, operations, -1, 0) is None,
        0 <= n <= results.len(),
        0 <= index < operations,
    ensures
        indexed_rows(results, operations, n).len() == operations,
        forall|k: int|
            0 <= k < n && (#[trigger] results[k]).operation_index == index ==> indexed_rows(
                results,
                operations,
                n,
            )[index] == Some(rows_model(results[k].rows@)),
        (forall|k: int| 0 <= k < n ==> (#[trigger] results[k]).operation_index != index)
            ==> indexed_rows(results, operations, n)[index] is None,
    decreases n,
{
    if n > 0 {
        lemma_indexed(results, operations, n - 1, index);
        lemma_indices_ascend(results, operations, -1, 0, n - 1, n - 1);
        let before = indexed_rows(results, operations, n - 1);
        assert forall|k: int|
            0 <= k < n && (#[trigger] results[k]).operation_index == index implies indexed_rows(
            results,
            operations,
            n,
        )[index] == Some(rows_model(results[k].rows@)) by {
            if k < n - 1 {
                lemma_indices_ascend(results, operations, -1, 0, k, n - 1);
            }
        }
        if forall|k: int| 0 <= k < n ==> (#[trigger] results[k]).operation_index != index {
            assert(results[n - 1].operation_index != index);
        }
    }
}

/// Law: the rows of an operation are those of the answer. Where the answer to an
/// accepted batch has a result for an operation, its rows are found there, in
/// order, be there any or none; where it has none, no rows are found, and none are
/// made up.
pub proof fn law_rows_are_those_of_the_answer(
    response: BatchResponse,
    operations: nat,
    index: int,
)
    requires
        response_fault(response, operations) is None,
        0 <= index,
    ensures
        ({
            let results = response->results@;
            let rows = response_rows(response, operations);
            &&& response is Complete
            &&& rows.len() == operations
            &&& forall|k: int|
                0 <= k < results.len() && (#[trigger] results[k]).operation_index == index ==> {
                    &&& rows_fault(rows, index) is None
                    &&& has_rows(rows, index)
                    &&& rows[index] == Some(rows_model(results[k].rows@))
                }
            &&& (forall|k: int|
                0 <= k < results.len() ==> (#[trigger] results[k]).operation_index != index) ==> {
                &&& !has_rows(rows, index)
                &&& rows_fault(rows, index) == Some(
                    violation("operation "@ + decimal(index as nat) + " has no query result"@),
                )
            }
        }),
{
    let results = response->results@;
    let n = results.len() as int;
    if index < operations {
        lemma_indexed(results, operations, n, index);
    } else {
        lemma_indexed_len(results, operations, n);
    }
    assert forall|k: int|
        0 <= k < results.len() && (#[trigger] results[k]).operation_index == index implies index
        < operations by {
        lemma_indices_ascend(results, operations, -1, 0, k, k);
    }
}

proof fn lemma_indexed_len(results: Seq<BatchQueryResult>, operations: nat, n: int)
    requires
        result_indices_fault(results, operations, -1, 0) is None,
        0 <= n <= results.len(),
    ensures
        indexed_rows(results, operations, n).len() == operations,
    decreases n,
{
    if n > 0 {
        lemma_indexed_len(results, operations, n - 1);
        lemma_indices_ascend(results, operations, -1, 0, n - 1, n - 1);
    }
}

/// Whether the answer at `k` is the only cell of an operation, with this value.
pub open spec fn answers_cell(
    results: Seq<BatchQueryResult>,
    k: int,
    index: int,
    cell: WireModel,
) -> bool {
    &&& 0 <= k < results.len()
    &&& results[k].operation_index == index
    &&& rows_model(results[k].rows@) == seq![seq![cell]]
}

/// Whether an answer has a result for an operation, and that is one row of this
/// one cell.
pub open spec fn only_cell(response: BatchResponse, index: int, cell: WireModel) -> bool {
    exists|k: int| #[trigger] answers_cell(response->results@, k, index, cell)
}

/// The only cell of an operation is found exactly if there is one.
proof fn lemma_only_cell(response: BatchResponse, operations: nat, index: int, cell: WireModel)
    requires
        response_fault(response, operations) is None,
        0 <= index,
    ensures
        ({
            let rows = response_rows(response, operations);
            only_cell(response, index, cell) <==> scalar_fault(rows, index) is None
                && single_row_of(rows, index)[0] == cell
        }),
{
    let results = response->results@;
    let rows = response_rows(response, operations);
    law_rows_are_those_of_the_answer(response, operations, index);
    if only_cell(response, index, cell) {
        let k = choose|k: int| #[trigger] answers_cell(results, k, index, cell);
        assert(results[k].operation_index == index);
    }
    if scalar_fault(rows, index) is None && single_row_of(rows, index)[0] == cell {
        assert(has_rows(rows, index));
        let k = choose|k: int|
            0 <= k < results.len() && (#[trigger] results[k]).operation_index == index;
        let found = rows_model(results[k].rows@);
        assert(rows[index] == Some(found));
        assert(found[0] =~= seq![cell]);
        assert(found =~= seq![seq![cell]]);
        assert(answers_cell(results, k, index, cell));
    }
}

/// Law: one INT32 is read of an operation exactly if the answer has a result for
/// it of one row with one cell, and that is this INT32. Everything else is a
/// violation that asks for no abort of its own.
pub proof fn law_single_int32_is_the_only_cell(
    response: BatchResponse,
    operations: nat,
    index: int,
    n: i32,
)
    requires
        response_fault(response, operations) is None,
        0 <= index,
    ensures
        ({
            let rows = response_rows(response, operations);
            &&& only_cell(response, index, WireModel::Int32(n)) <==> single_int32_fault(rows, index)
                is None && int32_at(single_row_of(rows, index), 0) == n
            &&& single_int32_fault(rows, index) matches Some(v) ==> !v.explicit_abort
        }),
{
    lemma_only_cell(response, operations, index, WireModel::Int32(n));
}

/// Law: one FLOAT32 is read of an operation exactly if the answer has a result for
/// it of one row with one cell, and that is this FLOAT32, and finite.
pub proof fn law_single_f32_is_the_only_cell(
    response: BatchResponse,
    operations: nat,
    index: int,
    bits: u32,
)
    requires
        response_fault(response, operations) is None,
        0 <= index,
    ensures
        ({
            let rows = response_rows(response, operations);
            &&& only_cell(response, index, WireModel::Float32(bits)) && is_finite(bits)
                <==> single_f32_fault(rows, index) is None && f32_at(
                single_row_of(rows, index),
                0,
            ) == bits
            &&& single_f32_fault(rows, index) matches Some(v) ==> !v.explicit_abort
        }),
{
    lemma_only_cell(response, operations, index, WireModel::Float32(bits));
}

/// Law: one CHAR is read of an operation exactly if the answer has a result for it
/// of one row with one cell, and that is this CHAR.
pub proof fn law_single_char_is_the_only_cell(
    response: BatchResponse,
    operations: nat,
    index: int,
    bytes: Seq<u8>,
)
    requires
        response_fault(response, operations) is None,
        0 <= index,
    ensures
        ({
            let rows = response_rows(response, operations);
            &&& only_cell(response, index, WireModel::Char(bytes)) <==> single_char_fault(
                rows,
                index,
            ) is None && char_at(single_row_of(rows, index), 0) == bytes
            &&& single_char_fault(rows, index) matches Some(v) ==> !v.explicit_abort
        }),
{
    lemma_only_cell(response, operations, index, WireModel::Char(bytes));
}

} // verus!
