//! Spark's `exists(array, predicate)` and `forall(array, predicate)`: per row, the predicate's
//! results over the row's elements are combined with three-valued SQL logic.
use vstd::prelude::*;

use crate::list_layout::{
    adjust_offsets_for_slice_i32, adjust_offsets_for_slice_i64, spec_coerce_list_shape,
    valid_offsets_i32, valid_offsets_i64, adjusted_offsets, CoerceError, ListOffsets, ListShape,
    ListWidth,
};

verus! {

/// Which of the two predicate functions runs.
#[derive(Debug, Clone, Copy, PartialEq, Eq, Structural)]
pub enum Quantifier {
    /// `exists`: OR over a row.
    Exists,
    /// `forall`: AND over a row.
    Forall,
}

/// Some position in `start..end` of the mask holds `v`.
pub open spec fn mask_has(mask: Seq<Option<bool>>, start: int, end: int, v: Option<bool>) -> bool {
    exists|i: int| start <= i < end && mask[i] == v
}

/// OR with three-valued SQL logic: true if any true; NULL if any null and no true; false
/// otherwise.
pub open spec fn three_valued_or(mask: Seq<Option<bool>>, start: int, end: int) -> Option<bool> {
    if mask_has(mask, start, end, Some(true)) {
        Some(true)
    } else if mask_has(mask, start, end, None) {
        None
    } else {
        Some(false)
    }
}

/// AND with three-valued SQL logic: false if any false; NULL if any null and no false; true
/// otherwise.
pub open spec fn three_valued_and(mask: Seq<Option<bool>>, start: int, end: int) -> Option<bool> {
    if mask_has(mask, start, end, Some(false)) {
        Some(false)
    } else if mask_has(mask, start, end, None) {
        None
    } else {
        Some(true)
    }
}

/// The combination a quantifier applies to a row's predicate results.
pub open spec fn quantify(q: Quantifier, mask: Seq<Option<bool>>, start: int, end: int) -> Option<bool> {
    match q {
        Quantifier::Exists => three_valued_or(mask, start, end),
        Quantifier::Forall => three_valued_and(mask, start, end),
    }
}

/// The value of an empty row: false for `exists`, true for `forall`.
pub open spec fn empty_result(q: Quantifier) -> bool {
    q == Quantifier::Forall
}

/// The result of one row: NULL for a null list, the empty value for an empty one, otherwise the
/// quantifier over the row's predicate results.
pub open spec fn row_result(
    q: Quantifier,
    mask: Seq<Option<bool>>,
    start: int,
    end: int,
    is_null: bool,
) -> Option<bool> {
    if is_null {
        None
    } else if start == end {
        Some(empty_result(q))
    } else {
        quantify(q, mask, start, end)
    }
}

/// OR with three-valued SQL logic over `mask[start..end]`.
pub fn reduce_or(mask: &[Option<bool>], start: usize, end: usize) -> (result: Option<bool>)
    requires
        start < end ==> end <= mask@.len(),
    ensures
        result == three_valued_or(mask@, start as int, end as int),
{
    let mut has_null = false;
    let mut i = start;
    while i < end
        invariant
            start < end ==> end <= mask@.len(),
            start <= i,
            start < end ==> i <= end,
            start >= end ==> i == start,
            has_null == mask_has(mask@, start as int, i as int, None),
            !mask_has(mask@, start as int, i as int, Some(true)),
        decreases end - i,
    {
        match mask[i] {
            None => {
                has_null = true;
            },
            Some(true) => {
                return Some(true);
            },
            Some(false) => {},
        }
        i = i + 1;
    }
    if has_null {
        None
    } else {
        Some(false)
    }
}

/// AND with three-valued SQL logic over `mask[start..end]`.
pub fn reduce_and(mask: &[Option<bool>], start: usize, end: usize) -> (result: Option<bool>)
    requires
        start < end ==> end <= mask@.len(),
    ensures
        result == three_valued_and(mask@, start as int, end as int),
{
    let mut has_null = false;
    let mut i = start;
    while i < end
        invariant
            start < end ==> end <= mask@.len(),
            start <= i,
            start < end ==> i <= end,
            start >= end ==> i == start,
            has_null == mask_has(mask@, start as int, i as int, None),
            !mask_has(mask@, start as int, i as int, Some(false)),
        decreases end - i,
    {
        match mask[i] {
            None => {
                has_null = true;
            },
            Some(false) => {
                return Some(false);
            },
            Some(true) => {},
        }
        i = i + 1;
    }
    if has_null {
        None
    } else {
        Some(true)
    }
}

} // verus!

verus! {

/// Combines the predicate's results row by row. `offsets` delimit each row's results in `mask`;
/// a null row gives NULL and an empty one the quantifier's empty value.
pub fn reduce_per_row(
    mask: &[Option<bool>],
    offsets: &[i64],
    nulls: &[bool],
    n_rows: usize,
    quantifier: Quantifier,
) -> (result: Vec<Option<bool>>)
    requires
        offsets@.len() == n_rows + 1,
        nulls@.len() == n_rows,
        valid_offsets_i64(offsets@),
        offsets@[n_rows as int] <= mask@.len(),
    ensures
        result@.len() == n_rows,
        forall|i: int|
            0 <= i < n_rows ==> #[trigger] result@[i] == row_result(
                quantifier,
                mask@,
                offsets@[i] as int,
                offsets@[i + 1] as int,
                nulls@[i],
            ),
{
    let mut result: Vec<Option<bool>> = Vec::with_capacity(n_rows);
    for row in 0..n_rows
        invariant
            offsets@.len() == n_rows + 1,
            nulls@.len() == n_rows,
            valid_offsets_i64(offsets@),
            offsets@[n_rows as int] <= mask@.len(),
            result@.len() == row,
            forall|i: int|
                0 <= i < row ==> #[trigger] result@[i] == row_result(
                    quantifier,
                    mask@,
                    offsets@[i] as int,
                    offsets@[i + 1] as int,
                    nulls@[i],
                ),
    {
        if nulls[row] {
            result.push(None);
        } else {
            assert(offsets@[0] <= offsets@[row as int] <= offsets@[row + 1] <= offsets@[n_rows as int]);
            assert(mask@.len() == mask.len());
            let start = offsets[row] as usize;
            let end = offsets[row + 1] as usize;
            if start == end {
                result.push(Some(quantifier == Quantifier::Forall));
            } else {
                let value = match quantifier {
                    Quantifier::Exists => reduce_or(mask, start, end),
                    Quantifier::Forall => reduce_and(mask, start, end),
                };
                result.push(value);
            }
        }
    }
    result
}

/// The results of `exists` or `forall` for every row of a list: `mask` holds the predicate's
/// result for each element of the list's (sliced) values, in order.
pub fn predicate_per_row(
    quantifier: Quantifier,
    offsets: &ListOffsets,
    nulls: &[bool],
    mask: &[Option<bool>],
) -> (result: Vec<Option<bool>>)
    requires
        offsets.valid(),
        offsets.rows() == nulls@.len(),
        offsets.values().last() - offsets.values()[0] <= mask@.len(),
    ensures
        result@.len() == nulls@.len(),
        forall|i: int|
            0 <= i < nulls@.len() ==> #[trigger] result@[i] == row_result(
                quantifier,
                mask@,
                offsets.values()[i] - offsets.values()[0],
                offsets.values()[i + 1] - offsets.values()[0],
                nulls@[i],
            ),
{
    let adjusted = adjusted_offsets(offsets);
    reduce_per_row(mask, adjusted.as_slice(), nulls, nulls.len(), quantifier)
}

/// Coerces the value arguments of `exists` and `forall`: exactly one, a list.
pub fn coerce_list_type(arg_shapes: &[ListShape]) -> (result: Result<ListWidth, CoerceError>)
    ensures
        result == if arg_shapes@.len() != 1 {
            Err(CoerceError::ArgumentCount(arg_shapes@.len() as usize))
        } else {
            match spec_coerce_list_shape(arg_shapes@[0]) {
                Some(width) => Ok(width),
                None => Err(CoerceError::NotAList(0)),
            }
        },
{
    if arg_shapes.len() != 1 {
        return Err(CoerceError::ArgumentCount(arg_shapes.len()));
    }
    match crate::list_layout::coerce_list_shape(arg_shapes[0]) {
        Some(width) => Ok(width),
        None => Err(CoerceError::NotAList(0)),
    }
}

} // verus!

verus! {

/// Three-valued NOT: NULL stays NULL.
pub open spec fn not3(v: Option<bool>) -> Option<bool> {
    match v {
        Some(b) => Some(!b),
        None => None,
    }
}

/// The predicate's results, each negated with three-valued NOT.
pub open spec fn negate_mask(mask: Seq<Option<bool>>) -> Seq<Option<bool>> {
    mask.map_values(|v: Option<bool>| not3(v))
}

/// De Morgan for three-valued logic: AND over a range is the NOT of the OR of the negations.
pub proof fn law_and_is_not_or_of_not(mask: Seq<Option<bool>>, start: int, end: int)
    requires
        0 <= start,
        end <= mask.len(),
    ensures
        three_valued_and(mask, start, end) == not3(three_valued_or(negate_mask(mask), start, end)),
{
    let neg = negate_mask(mask);
    assert(mask_has(mask, start, end, Some(false)) == mask_has(neg, start, end, Some(true))) by {
        if mask_has(mask, start, end, Some(false)) {
            let i = choose|i: int| start <= i < end && mask[i] == Some(false);
            assert(neg[i] == Some(true));
        }
        if mask_has(neg, start, end, Some(true)) {
            let i = choose|i: int| start <= i < end && neg[i] == Some(true);
            assert(mask[i] == Some(false));
        }
    }
    assert(mask_has(mask, start, end, None) == mask_has(neg, start, end, None)) by {
        if mask_has(mask, start, end, None) {
            let i = choose|i: int| start <= i < end && mask[i] == None::<bool>;
            assert(neg[i] == None::<bool>);
        }
        if mask_has(neg, start, end, None) {
            let i = choose|i: int| start <= i < end && neg[i] == None::<bool>;
            assert(mask[i] == None::<bool>);
        }
    }
}

/// `forall(array, p)` is `NOT exists(array, NOT p)` on every row, null and empty rows included.
pub proof fn law_forall_is_not_exists_not(
    mask: Seq<Option<bool>>,
    start: int,
    end: int,
    is_null: bool,
)
    requires
        0 <= start <= end <= mask.len(),
    ensures
        row_result(Quantifier::Forall, mask, start, end, is_null) == not3(
            row_result(Quantifier::Exists, negate_mask(mask), start, end, is_null),
        ),
{
    law_and_is_not_or_of_not(mask, start, end);
}

/// The value of an empty row is what the three-valued combination gives over no element:
/// false for `exists`, true for `forall`.
pub proof fn law_empty_row_is_quantifier_over_nothing(
    q: Quantifier,
    mask: Seq<Option<bool>>,
    at: int,
)
    ensures
        row_result(q, mask, at, at, false) == quantify(q, mask, at, at),
{
}

} // verus!
