//! Spark's `transform(array, function)`: the lambda runs over every element of every row,
//! given the element and its position within the row's sublist.
use vstd::prelude::*;

use crate::list_layout::{
    spec_coerce_list_shape, valid_offsets_i32, valid_offsets_i64, CoerceError, ListShape,
    ListWidth,
};

verus! {

/// The offsets of a `List`, as mathematical integers.
pub open spec fn int_offsets_i32(offsets: Seq<i32>) -> Seq<int> {
    offsets.map_values(|x: i32| x as int)
}

/// The offsets of a `LargeList`, as mathematical integers.
pub open spec fn int_offsets_i64(offsets: Seq<i64>) -> Seq<int> {
    offsets.map_values(|x: i64| x as int)
}

/// The positions `0, 1, ..` of the elements within their sublists, for the first `n` rows
/// that `offsets` delimit, row after row.
pub open spec fn positions_within_rows(offsets: Seq<int>, n: int) -> Seq<i64>
    decreases n,
{
    if n <= 0 {
        Seq::empty()
    } else {
        positions_within_rows(offsets, n - 1) + Seq::new(
            (offsets[n] - offsets[n - 1]) as nat,
            |j: int| j as i64,
        )
    }
}

/// The position of every element of the first `n_rows` rows within its sublist.
pub fn build_per_sublist_indices_i32(offsets: &[i32], n_rows: usize) -> (indices: Vec<i64>)
    requires
        offsets@.len() > n_rows,
        valid_offsets_i32(offsets@),
    ensures
        indices@ == positions_within_rows(int_offsets_i32(offsets@), n_rows as int),
{
    let ghost o = int_offsets_i32(offsets@);
    let mut indices: Vec<i64> = Vec::new();
    for row_idx in 0..n_rows
        invariant
            offsets@.len() > n_rows,
            valid_offsets_i32(offsets@),
            o == int_offsets_i32(offsets@),
            indices@ == positions_within_rows(o, row_idx as int),
    {
        assert(offsets@[0] <= offsets@[row_idx as int] <= offsets@[row_idx + 1]);
        let start = offsets[row_idx] as usize;
        let end = offsets[row_idx + 1] as usize;
        let ghost before = indices@;
        for sub_idx in 0..(end - start)
            invariant
                indices@ == before + Seq::new(sub_idx as nat, |j: int| j as i64),
                end - start <= i32::MAX,
        {
            indices.push(sub_idx as i64);
            assert(indices@ =~= before + Seq::new((sub_idx + 1) as nat, |j: int| j as i64));
        }
        assert(indices@ =~= positions_within_rows(o, row_idx + 1));
    }
    indices
}

/// The position of every element of the first `n_rows` rows within its sublist.
pub fn build_per_sublist_indices_i64(offsets: &[i64], n_rows: usize) -> (indices: Vec<i64>)
    requires
        offsets@.len() > n_rows,
        valid_offsets_i64(offsets@),
        offsets@[n_rows as int] <= usize::MAX,
    ensures
        indices@ == positions_within_rows(int_offsets_i64(offsets@), n_rows as int),
{
    let ghost o = int_offsets_i64(offsets@);
    let mut indices: Vec<i64> = Vec::new();
    for row_idx in 0..n_rows
        invariant
            offsets@.len() > n_rows,
            valid_offsets_i64(offsets@),
            offsets@[n_rows as int] <= usize::MAX,
            o == int_offsets_i64(offsets@),
            indices@ == positions_within_rows(o, row_idx as int),
    {
        assert(offsets@[0] <= offsets@[row_idx as int] <= offsets@[row_idx + 1] <= offsets@[n_rows as int]);
        let start = offsets[row_idx] as usize;
        let end = offsets[row_idx + 1] as usize;
        let ghost before = indices@;
        for sub_idx in 0..(end - start)
            invariant
                indices@ == before + Seq::new(sub_idx as nat, |j: int| j as i64),
                end - start <= i64::MAX,
        {
            indices.push(sub_idx as i64);
            assert(indices@ =~= before + Seq::new((sub_idx + 1) as nat, |j: int| j as i64));
        }
        assert(indices@ =~= positions_within_rows(o, row_idx + 1));
    }
    indices
}

} // verus!

verus! {

/// Non-decreasing offsets, as mathematical integers.
pub open spec fn nondecreasing(offsets: Seq<int>) -> bool {
    forall|i: int, j: int| 0 <= i <= j < offsets.len() ==> offsets[i] <= offsets[j]
}

/// There is one position per element of the first `n` rows.
pub proof fn lemma_positions_len(offsets: Seq<int>, n: int)
    requires
        0 <= n < offsets.len(),
        nondecreasing(offsets),
    ensures
        positions_within_rows(offsets, n).len() == offsets[n] - offsets[0],
    decreases n,
{
    if n > 0 {
        lemma_positions_len(offsets, n - 1);
    }
}

/// Every element gets its position within its own row: the `j`-th element of row `r` sits at
/// `offsets[r] - offsets[0] + j` and its position is `j`.
pub proof fn law_position_of_element(offsets: Seq<int>, n: int, r: int, j: int)
    requires
        0 <= r < n < offsets.len(),
        nondecreasing(offsets),
        0 <= j < offsets[r + 1] - offsets[r],
    ensures
        positions_within_rows(offsets, n).len() == offsets[n] - offsets[0],
        positions_within_rows(offsets, n)[offsets[r] - offsets[0] + j] == j as i64,
    decreases n,
{
    lemma_positions_len(offsets, n);
    lemma_positions_len(offsets, n - 1);
    if r < n - 1 {
        law_position_of_element(offsets, n - 1, r, j);
        assert(offsets[r + 1] <= offsets[n - 1]);
    }
}

/// The value arguments of `transform`: exactly one, a list.
pub fn coerce_value_types(arg_shapes: &[ListShape]) -> (result: Result<ListWidth, CoerceError>)
    ensures
        result == if arg_shapes@.len() != 1 {
            Err(CoerceError::ArgumentCount(arg_shapes@.len() as usize))
        } else {
            match spec_coerce_list_shape(arg_shapes@[0]) {
                Some(width) => Ok(width),
                None => Err(CoerceError::NotAList(0)),
            }
        },
{
    if arg_shapes.len() != 1 {
        return Err(CoerceError::ArgumentCount(arg_shapes.len()));
    }
    match crate::list_layout::coerce_list_shape(arg_shapes[0]) {
        Some(width) => Ok(width),
        None => Err(CoerceError::NotAList(0)),
    }
}

/// The list type `transform` returns for its list argument: the same width, with the lambda's
/// output as element; `None` for anything but a `List` or a `LargeList`.
pub fn return_list_width(shape: ListShape) -> (width: Option<ListWidth>)
    ensures
        width == match shape {
            ListShape::List => Some(ListWidth::Regular),
            ListShape::LargeList => Some(ListWidth::Large),
            _ => None::<ListWidth>,
        },
{
    match shape {
        ListShape::List => Some(ListWidth::Regular),
        ListShape::LargeList => Some(ListWidth::Large),
        _ => None,
    }
}

} // verus!
