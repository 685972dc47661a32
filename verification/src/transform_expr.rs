//! `spark_array_transform_expr`: array elements transformed by an arbitrary expression over a
//! flattened batch that holds the element, optionally its index within its sublist, and the
//! outer columns the expression refers to, repeated for every element of their row.
use vstd::prelude::*;

use crate::array_transform::{
    int_offsets_i32, law_position_of_element, nondecreasing, positions_within_rows,
};
use crate::list_layout::valid_offsets_i32;

verus! {

/// What a column of the flattened batch holds.
#[derive(Debug, Clone, Copy, PartialEq, Eq, Structural)]
pub enum ColumnRole {
    /// The array element, of the array's element type.
    Element,
    /// The element's index within its sublist, an `Int32`.
    Index,
    /// The outer column at this position, repeated for each element of its row.
    Outer(usize),
}

/// A column of the flattened batch: its name, what it holds, and whether it is nullable.
#[derive(Debug)]
pub struct ColumnSpec {
    pub name: String,
    pub role: ColumnRole,
    pub nullable: bool,
}

/// Where the outer columns start in the flattened batch: after the element and the index, if
/// there is one.
pub open spec fn outer_start(index_column_name: Option<&str>) -> int {
    if index_column_name is Some {
        2
    } else {
        1
    }
}

/// The columns of the flattened batch, in order: the element (nullable), the index if the
/// lambda has one (not nullable), then the outer columns (nullable).
pub fn build_batch_schema(
    element_column_name: &str,
    index_column_name: Option<&str>,
    outer_column_names: &[String],
) -> (columns: Vec<ColumnSpec>)
    ensures
        columns@.len() == outer_start(index_column_name) + outer_column_names@.len(),
        columns@[0].name@ == element_column_name@,
        columns@[0].role == ColumnRole::Element,
        columns@[0].nullable,
        index_column_name matches Some(index) ==> {
            &&& columns@[1].name@ == index@
            &&& columns@[1].role == ColumnRole::Index
            &&& !columns@[1].nullable
        },
        forall|i: int|
            0 <= i < outer_column_names@.len() ==> {
                &&& columns@[outer_start(index_column_name) + i].name@ == (
                #[trigger] outer_column_names@[i])@
                &&& columns@[outer_start(index_column_name) + i].role == ColumnRole::Outer(
                    i as usize,
                )
                &&& columns@[outer_start(index_column_name) + i].nullable
            },
{
    let mut columns: Vec<ColumnSpec> = Vec::new();
    columns.push(
        ColumnSpec {
            name: String::from_str(element_column_name),
            role: ColumnRole::Element,
            nullable: true,
        },
    );
    if let Some(index) = index_column_name {
        columns.push(ColumnSpec { name: String::from_str(index), role: ColumnRole::Index, nullable: false });
    }
    let first_outer = columns.len();
    let mut i: usize = 0;
    while i < outer_column_names.len()
        invariant
            i <= outer_column_names@.len(),
            first_outer == outer_start(index_column_name),
            columns@.len() == first_outer + i,
            columns@[0].name@ == element_column_name@,
            columns@[0].role == ColumnRole::Element,
            columns@[0].nullable,
            index_column_name matches Some(index) ==> {
                &&& columns@[1].name@ == index@
                &&& columns@[1].role == ColumnRole::Index
                &&& !columns@[1].nullable
            },
            forall|k: int|
                0 <= k < i ==> {
                    &&& columns@[first_outer + k].name@ == (#[trigger] outer_column_names@[k])@
                    &&& columns@[first_outer + k].role == ColumnRole::Outer(k as usize)
                    &&& columns@[first_outer + k].nullable
                },
        decreases outer_column_names@.len() - i,
    {
        let ghost previous = columns@;
        let name = outer_column_names[i].clone();
        assert(name@ == outer_column_names@[i as int]@);
        columns.push(
            ColumnSpec {
                name,
                role: ColumnRole::Outer(i),
                nullable: true,
            },
        );
        assert forall|k: int| 0 <= k < i + 1 implies {
            &&& columns@[first_outer + k].name@ == (#[trigger] outer_column_names@[k])@
            &&& columns@[first_outer + k].role == ColumnRole::Outer(k as usize)
            &&& columns@[first_outer + k].nullable
        } by {
            if k < i {
                assert(columns@[first_outer + k] == previous[first_outer + k]);
                assert(previous[first_outer + k].name@ == outer_column_names@[k]@);
                assert(previous[first_outer + k].role == ColumnRole::Outer(k as usize));
            } else {
                assert(columns@[first_outer + k].name@ == name@);
                assert(columns@[first_outer + k].name@ == outer_column_names@[k]@);
                assert(columns@[first_outer + k].role == ColumnRole::Outer(k as usize));
                assert(columns@[first_outer + k].nullable);
            }
        }
        i = i + 1;
    }
    columns
}

} // verus!

verus! {

/// The row of every element of the first `n` rows that `offsets` delimit, row after row.
pub open spec fn row_of_each_element(offsets: Seq<int>, n: int) -> Seq<usize>
    decreases n,
{
    if n <= 0 {
        Seq::empty()
    } else {
        row_of_each_element(offsets, n - 1) + Seq::new(
            (offsets[n] - offsets[n - 1]) as nat,
            |j: int| (n - 1) as usize,
        )
    }
}

/// For every element of the first `n_rows` rows: the row it belongs to, which broadcasts the
/// outer columns, and its index within its sublist, for the index column.
pub fn element_rows_and_indices(offsets: &[i32], n_rows: usize) -> (flat: (Vec<usize>, Vec<i32>))
    requires
        offsets@.len() > n_rows,
        valid_offsets_i32(offsets@),
    ensures
        flat.0@ == row_of_each_element(
            crate::array_transform::int_offsets_i32(offsets@),
            n_rows as int,
        ),
        flat.1@ == positions_within_rows(
            crate::array_transform::int_offsets_i32(offsets@),
            n_rows as int,
        ).map_values(|p: i64| p as i32),
{
    let ghost o = crate::array_transform::int_offsets_i32(offsets@);
    let mut element_to_row: Vec<usize> = Vec::new();
    let mut indices: Vec<i32> = Vec::new();
    for row_idx in 0..n_rows
        invariant
            offsets@.len() > n_rows,
            valid_offsets_i32(offsets@),
            o == crate::array_transform::int_offsets_i32(offsets@),
            element_to_row@ == row_of_each_element(o, row_idx as int),
            indices@ == positions_within_rows(o, row_idx as int).map_values(|p: i64| p as i32),
    {
        assert(offsets@[0] <= offsets@[row_idx as int] <= offsets@[row_idx + 1]);
        let start = offsets[row_idx] as usize;
        let end = offsets[row_idx + 1] as usize;
        let ghost before_rows = element_to_row@;
        let ghost before_indices = indices@;
        for i in 0..(end - start)
            invariant
                end - start <= i32::MAX,
                element_to_row@ == before_rows + Seq::new(i as nat, |j: int| row_idx),
                indices@ == before_indices + Seq::new(i as nat, |j: int| j as i32),
        {
            element_to_row.push(row_idx);
            indices.push(i as i32);
            assert(element_to_row@ =~= before_rows + Seq::new((i + 1) as nat, |j: int| row_idx));
            assert(indices@ =~= before_indices + Seq::new((i + 1) as nat, |j: int| j as i32));
        }
        assert(element_to_row@ =~= row_of_each_element(o, row_idx + 1));
        assert(indices@ =~= positions_within_rows(o, row_idx + 1).map_values(|p: i64| p as i32));
    }
    (element_to_row, indices)
}

/// A `LargeList` offset does not fit the `i32` of the flattened batch.
#[derive(Debug, Clone, Copy, PartialEq, Eq, Structural)]
pub struct OffsetOverflow;

/// Narrows the offsets of a `LargeList` to `i32`, refused when one does not fit.
pub fn narrow_offsets(offsets: &[i64]) -> (narrowed: Result<Vec<i32>, OffsetOverflow>)
    ensures
        match narrowed {
            Ok(v) => v@.len() == offsets@.len() && forall|i: int|
                0 <= i < offsets@.len() ==> v@[i] as int == offsets@[i] as int,
            Err(_) => exists|i: int|
                0 <= i < offsets@.len() && !(i32::MIN <= #[trigger] offsets@[i] <= i32::MAX),
        },
{
    let mut narrowed: Vec<i32> = Vec::with_capacity(offsets.len());
    for i in 0..offsets.len()
        invariant
            narrowed@.len() == i,
            forall|k: int| 0 <= k < i ==> narrowed@[k] as int == offsets@[k] as int,
    {
        match i32::try_from(offsets[i]) {
            Ok(o) => narrowed.push(o),
            Err(_) => return Err(OffsetOverflow),
        }
    }
    Ok(narrowed)
}


/// There is one row entry per element of the first `n` rows.
pub proof fn lemma_rows_len(offsets: Seq<int>, n: int)
    requires
        0 <= n < offsets.len(),
        nondecreasing(offsets),
    ensures
        row_of_each_element(offsets, n).len() == offsets[n] - offsets[0],
    decreases n,
{
    if n > 0 {
        lemma_rows_len(offsets, n - 1);
    }
}

/// The `j`-th element of row `r` is recorded as belonging to row `r`.
pub proof fn lemma_row_of_element(offsets: Seq<int>, n: int, r: int, j: int)
    requires
        0 <= r < n < offsets.len(),
        n <= usize::MAX,
        nondecreasing(offsets),
        0 <= j < offsets[r + 1] - offsets[r],
    ensures
        row_of_each_element(offsets, n)[offsets[r] - offsets[0] + j] == r,
    decreases n,
{
    lemma_rows_len(offsets, n - 1);
    assert(offsets[0] <= offsets[r]);
    if r < n - 1 {
        lemma_row_of_element(offsets, n - 1, r, j);
        assert(offsets[r + 1] <= offsets[n - 1]);
    }
}

/// Each element of the flattened batch is mapped to the row whose offsets contain it, and
/// its index is its position within that row: for a row `r` and `0 <= j` below its length,
/// the entry at `offsets[r] - offsets[0] + j` has row `r` and index `j`. There is exactly one
/// entry per element.
pub proof fn law_element_row_and_index(offsets: Seq<i32>, n: int, r: int, j: int)
    requires
        valid_offsets_i32(offsets),
        0 <= r < n < offsets.len(),
        n <= usize::MAX,
        0 <= j < offsets[r + 1] - offsets[r],
    ensures
        row_of_each_element(int_offsets_i32(offsets), n).len() == offsets[n] - offsets[0],
        row_of_each_element(int_offsets_i32(offsets), n)[offsets[r] - offsets[0] + j] == r,
        positions_within_rows(int_offsets_i32(offsets), n).len() == offsets[n] - offsets[0],
        positions_within_rows(int_offsets_i32(offsets), n)[offsets[r] - offsets[0] + j] == j,
{
    let o = int_offsets_i32(offsets);
    assert(nondecreasing(o)) by {
        assert forall|a: int, b: int| 0 <= a <= b < o.len() implies o[a] <= o[b] by {
            assert(offsets[a] <= offsets[b]);
        }
    }
    lemma_rows_len(o, n);
    lemma_row_of_element(o, n, r, j);
    law_position_of_element(o, n, r, j);
}
} // verus!
