//! Spark's `zip_with(array1, array2, func)`: row by row, the two sublists are zipped, the
//! shorter one padded with NULLs to the longer one's length, and the lambda runs on each pair.
//! A row where either list is null gives a null row.
use vstd::prelude::*;

use crate::array_reduce::FieldArg;
use crate::list_layout::{
    offsets_valid_i32, spec_coerce_list_shape, valid_offsets_i32, CoerceError, ListShape,
};

verus! {

/// The length of row `r` of a list: the difference of its offsets.
pub open spec fn row_len(offsets: Seq<i32>, r: int) -> int {
    offsets[r + 1] - offsets[r]
}

/// The larger of two integers.
pub open spec fn max(a: int, b: int) -> int {
    if a >= b {
        a
    } else {
        b
    }
}

/// The length of output row `r`: zero when either list is null there, otherwise the longer
/// sublist's length.
pub open spec fn zip_len(
    offs1: Seq<i32>,
    nulls1: Seq<bool>,
    offs2: Seq<i32>,
    nulls2: Seq<bool>,
    r: int,
) -> int {
    if nulls1[r] || nulls2[r] {
        0
    } else {
        max(row_len(offs1, r), row_len(offs2, r))
    }
}

/// The number of output elements in the first `n` rows.
pub open spec fn zip_total(
    offs1: Seq<i32>,
    nulls1: Seq<bool>,
    offs2: Seq<i32>,
    nulls2: Seq<bool>,
    n: int,
) -> int
    decreases n,
{
    if n <= 0 {
        0
    } else {
        zip_total(offs1, nulls1, offs2, nulls2, n - 1) + zip_len(offs1, nulls1, offs2, nulls2, n - 1)
    }
}

/// The two lists have the same rows: as many rows and nulls in both, a row count that fits a
/// `u32` row index, and valid offsets.
pub open spec fn same_rows(
    offs1: Seq<i32>,
    nulls1: Seq<bool>,
    offs2: Seq<i32>,
    nulls2: Seq<bool>,
) -> bool {
    &&& offs1.len() == nulls1.len() + 1
    &&& offs2.len() == nulls1.len() + 1
    &&& nulls2.len() == nulls1.len()
    &&& nulls1.len() <= u32::MAX
    &&& valid_offsets_i32(offs1)
    &&& valid_offsets_i32(offs2)
}

/// The two lists zip row by row: the same rows, and an output whose offsets and take indices
/// fit their integer types.
pub open spec fn zippable(
    offs1: Seq<i32>,
    nulls1: Seq<bool>,
    offs2: Seq<i32>,
    nulls2: Seq<bool>,
) -> bool {
    &&& same_rows(offs1, nulls1, offs2, nulls2)
    &&& zip_total(offs1, nulls1, offs2, nulls2, nulls1.len() as int) <= i32::MAX
}

/// Output element `k` is the `j`-th pair of row `r`: the `j`-th element of each input row, or
/// `None` past the end of the shorter one, and `r` as its row.
pub open spec fn zipped(
    x_indices: Seq<Option<u32>>,
    y_indices: Seq<Option<u32>>,
    row_map: Seq<u32>,
    offs1: Seq<i32>,
    offs2: Seq<i32>,
    k: int,
    r: int,
    j: int,
) -> bool {
    &&& x_indices[k] == if j < row_len(offs1, r) {
        Some((offs1[r] + j) as u32)
    } else {
        None::<u32>
    }
    &&& y_indices[k] == if j < row_len(offs2, r) {
        Some((offs2[r] + j) as u32)
    } else {
        None::<u32>
    }
    &&& row_map[k] == r as u32
}

/// Where the zipped rows come from: output offsets, for each output element the position of
/// its left and right input (`None` where the row is padded), and the row it belongs to.
pub struct ZipPlan {
    pub out_offsets: Vec<i32>,
    pub x_indices: Vec<Option<u32>>,
    pub y_indices: Vec<Option<u32>>,
    pub row_map: Vec<u32>,
}

/// The output totals grow with the rows and never go below zero.
pub proof fn lemma_zip_total_monotone(
    offs1: Seq<i32>,
    nulls1: Seq<bool>,
    offs2: Seq<i32>,
    nulls2: Seq<bool>,
    r: int,
    n: int,
)
    requires
        0 <= r <= n <= nulls1.len(),
        same_rows(offs1, nulls1, offs2, nulls2),
    ensures
        0 <= zip_total(offs1, nulls1, offs2, nulls2, r) <= zip_total(offs1, nulls1, offs2, nulls2, n),
    decreases n,
{
    if n > 0 {
        assert(offs1[0] <= offs1[n - 1] <= offs1[n]);
        assert(offs2[0] <= offs2[n - 1] <= offs2[n]);
        if r < n {
            lemma_zip_total_monotone(offs1, nulls1, offs2, nulls2, r, n - 1);
        } else {
            lemma_zip_total_monotone(offs1, nulls1, offs2, nulls2, n - 1, n - 1);
        }
    }
}

/// The `len`-long run of take indices for one input row starting at `start`, padded with
/// `None` to `out_len`.
pub open spec fn padded_run(start: int, len: int, out_len: int) -> Seq<Option<u32>> {
    Seq::new(
        out_len as nat,
        |i: int|
            if i < len {
                Some((start + i) as u32)
            } else {
                None::<u32>
            },
    )
}

/// The first `n` rows are zipped: the outputs are as long as those rows' total, and every
/// output element of them is the pair it should be.
pub open spec fn zipped_rows(
    x_indices: Seq<Option<u32>>,
    y_indices: Seq<Option<u32>>,
    row_map: Seq<u32>,
    offs1: Seq<i32>,
    nulls1: Seq<bool>,
    offs2: Seq<i32>,
    nulls2: Seq<bool>,
    n: int,
) -> bool {
    &&& x_indices.len() == zip_total(offs1, nulls1, offs2, nulls2, n)
    &&& y_indices.len() == zip_total(offs1, nulls1, offs2, nulls2, n)
    &&& row_map.len() == zip_total(offs1, nulls1, offs2, nulls2, n)
    &&& forall|r: int, j: int|
        0 <= r < n && 0 <= j < zip_len(offs1, nulls1, offs2, nulls2, r) ==> #[trigger] zipped(
            x_indices,
            y_indices,
            row_map,
            offs1,
            offs2,
            zip_total(offs1, nulls1, offs2, nulls2, r) + j,
            r,
            j,
        )
}

/// Appending the pairs of row `row` to the zipped first `row` rows zips the first `row + 1`.
pub proof fn lemma_zipped_rows_step(
    bx: Seq<Option<u32>>,
    by: Seq<Option<u32>>,
    brows: Seq<u32>,
    x: Seq<Option<u32>>,
    y: Seq<Option<u32>>,
    rows: Seq<u32>,
    offs1: Seq<i32>,
    nulls1: Seq<bool>,
    offs2: Seq<i32>,
    nulls2: Seq<bool>,
    row: int,
)
    requires
        zippable(offs1, nulls1, offs2, nulls2),
        0 <= row < nulls1.len(),
        zipped_rows(bx, by, brows, offs1, nulls1, offs2, nulls2, row),
        x == bx + padded_run(
            offs1[row] as int,
            row_len(offs1, row),
            zip_len(offs1, nulls1, offs2, nulls2, row),
        ),
        y == by + padded_run(
            offs2[row] as int,
            row_len(offs2, row),
            zip_len(offs1, nulls1, offs2, nulls2, row),
        ),
        rows == brows + Seq::new(
            zip_len(offs1, nulls1, offs2, nulls2, row) as nat,
            |i: int| row as u32,
        ),
    ensures
        zipped_rows(x, y, rows, offs1, nulls1, offs2, nulls2, row + 1),
{
    assert(offs1[0] <= offs1[row] <= offs1[row + 1]);
    assert(offs2[0] <= offs2[row] <= offs2[row + 1]);
    assert forall|r: int, j: int|
        0 <= r < row + 1 && 0 <= j < zip_len(offs1, nulls1, offs2, nulls2, r) implies #[trigger] zipped(
        x,
        y,
        rows,
        offs1,
        offs2,
        zip_total(offs1, nulls1, offs2, nulls2, r) + j,
        r,
        j,
    ) by {
        let k = zip_total(offs1, nulls1, offs2, nulls2, r) + j;
        if r < row {
            lemma_zip_total_monotone(offs1, nulls1, offs2, nulls2, r + 1, row);
            lemma_zip_total_monotone(offs1, nulls1, offs2, nulls2, r, row);
            assert(zip_total(offs1, nulls1, offs2, nulls2, r + 1) == zip_total(
                offs1,
                nulls1,
                offs2,
                nulls2,
                r,
            ) + zip_len(offs1, nulls1, offs2, nulls2, r));
            assert(k < bx.len());
            assert(zipped(bx, by, brows, offs1, offs2, k, r, j));
            let px = padded_run(
                offs1[row] as int,
                row_len(offs1, row),
                zip_len(offs1, nulls1, offs2, nulls2, row),
            );
            let py = padded_run(
                offs2[row] as int,
                row_len(offs2, row),
                zip_len(offs1, nulls1, offs2, nulls2, row),
            );
            assert((bx + px)[k] == bx[k]);
            assert((by + py)[k] == by[k]);
            assert(rows[k] == brows[k]);
        } else {
            assert(x[k] == padded_run(
                offs1[row] as int,
                row_len(offs1, row),
                zip_len(offs1, nulls1, offs2, nulls2, row),
            )[j]);
            assert(y[k] == padded_run(
                offs2[row] as int,
                row_len(offs2, row),
                zip_len(offs1, nulls1, offs2, nulls2, row),
            )[j]);
        }
    }
}

/// Plans `zip_with` over two lists with these (rebased) offsets and row nulls.
pub fn zip_with_plan(offs1: &[i32], nulls1: &[bool], offs2: &[i32], nulls2: &[bool]) -> (plan:
    ZipPlan)
    requires
        zippable(offs1@, nulls1@, offs2@, nulls2@),
    ensures
        plan.out_offsets@.len() == nulls1@.len() + 1,
        forall|r: int|
            0 <= r <= nulls1@.len() ==> plan.out_offsets@[r] == zip_total(
                offs1@,
                nulls1@,
                offs2@,
                nulls2@,
                r,
            ),
        zipped_rows(
            plan.x_indices@,
            plan.y_indices@,
            plan.row_map@,
            offs1@,
            nulls1@,
            offs2@,
            nulls2@,
            nulls1@.len() as int,
        ),
{
    let n_rows = nulls1.len();
    assert(offs1@.len() == offs1.len());
    // Output offsets and total length.
    let mut out_offsets: Vec<i32> = Vec::with_capacity(n_rows + 1);
    out_offsets.push(0);
    let mut total_out: i32 = 0;
    for row in 0..n_rows
        invariant
            n_rows == nulls1@.len(),
            zippable(offs1@, nulls1@, offs2@, nulls2@),
            out_offsets@.len() == row + 1,
            forall|r: int| 0 <= r <= row ==> out_offsets@[r] == zip_total(offs1@, nulls1@, offs2@, nulls2@, r),
            total_out == zip_total(offs1@, nulls1@, offs2@, nulls2@, row as int),
    {
        proof {
            lemma_zip_total_monotone(offs1@, nulls1@, offs2@, nulls2@, row + 1, n_rows as int);
            assert(offs1@[0] <= offs1@[row as int] <= offs1@[row + 1]);
            assert(offs2@[0] <= offs2@[row as int] <= offs2@[row + 1]);
        }
        let out_len = if nulls1[row] || nulls2[row] {
            0
        } else {
            let len1 = offs1[row + 1] - offs1[row];
            let len2 = offs2[row + 1] - offs2[row];
            if len1 >= len2 {
                len1
            } else {
                len2
            }
        };
        total_out = total_out + out_len;
        out_offsets.push(total_out);
    }
    // Padded take indices for both lists, and the row of each output element.
    let mut x_indices: Vec<Option<u32>> = Vec::new();
    let mut y_indices: Vec<Option<u32>> = Vec::new();
    let mut row_map: Vec<u32> = Vec::new();
    for row in 0..n_rows
        invariant
            n_rows == nulls1@.len(),
            zippable(offs1@, nulls1@, offs2@, nulls2@),
            out_offsets@.len() == n_rows + 1,
            forall|r: int|
                0 <= r <= n_rows ==> out_offsets@[r] == zip_total(
                    offs1@,
                    nulls1@,
                    offs2@,
                    nulls2@,
                    r,
                ),
            zipped_rows(x_indices@, y_indices@, row_map@, offs1@, nulls1@, offs2@, nulls2@, row as int),
    {
        proof {
            lemma_zip_total_monotone(offs1@, nulls1@, offs2@, nulls2@, row + 1, n_rows as int);
            assert(offs1@[0] <= offs1@[row as int] <= offs1@[row + 1] <= offs1@[n_rows as int]);
            assert(offs2@[0] <= offs2@[row as int] <= offs2@[row + 1] <= offs2@[n_rows as int]);
        }
        let ghost bx = x_indices@;
        let ghost by = y_indices@;
        let ghost brows = row_map@;
        if !(nulls1[row] || nulls2[row]) {
            let start1 = offs1[row] as usize;
            let len1 = (offs1[row + 1] - offs1[row]) as usize;
            let start2 = offs2[row] as usize;
            let len2 = (offs2[row + 1] - offs2[row]) as usize;
            let out_len = if len1 >= len2 {
                len1
            } else {
                len2
            };
            for j in 0..out_len
                invariant
                    start1 + len1 <= i32::MAX,
                    start2 + len2 <= i32::MAX,
                    row < n_rows <= u32::MAX,
                    x_indices@ == bx + padded_run(start1 as int, len1 as int, j as int),
                    y_indices@ == by + padded_run(start2 as int, len2 as int, j as int),
                    row_map@ == brows + Seq::new(j as nat, |i: int| row as u32),
            {
                x_indices.push(
                    if j < len1 {
                        Some((start1 + j) as u32)
                    } else {
                        None
                    },
                );
                y_indices.push(
                    if j < len2 {
                        Some((start2 + j) as u32)
                    } else {
                        None
                    },
                );
                row_map.push(row as u32);
                assert(x_indices@ =~= bx + padded_run(start1 as int, len1 as int, j + 1));
                assert(y_indices@ =~= by + padded_run(start2 as int, len2 as int, j + 1));
                assert(row_map@ =~= brows + Seq::new((j + 1) as nat, |i: int| row as u32));
            }
        } else {
            assert(x_indices@ =~= bx + padded_run(offs1@[row as int] as int, row_len(offs1@, row as int), 0));
            assert(y_indices@ =~= by + padded_run(offs2@[row as int] as int, row_len(offs2@, row as int), 0));
            assert(row_map@ =~= brows + Seq::new(0, |i: int| row as u32));
        }
        proof {
            lemma_zipped_rows_step(
                bx,
                by,
                brows,
                x_indices@,
                y_indices@,
                row_map@,
                offs1@,
                nulls1@,
                offs2@,
                nulls2@,
                row as int,
            );
        }
    }
    ZipPlan { out_offsets, x_indices, y_indices, row_map }
}

} // verus!

verus! {

/// Checks that two lists can be zipped: the same rows, and an output that fits `i32` offsets.
pub fn zip_fits(offs1: &[i32], nulls1: &[bool], offs2: &[i32], nulls2: &[bool]) -> (fits: bool)
    ensures
        fits == zippable(offs1@, nulls1@, offs2@, nulls2@),
{
    let n = nulls1.len();
    if offs1.len() == 0 || offs1.len() - 1 != n || offs2.len() != offs1.len() || nulls2.len()
        != n || n > 0xffff_ffffusize {
        return false;
    }
    if !offsets_valid_i32(offs1) || !offsets_valid_i32(offs2) {
        return false;
    }
    let mut total: i64 = 0;
    for row in 0..n
        invariant
            n == nulls1@.len(),
            same_rows(offs1@, nulls1@, offs2@, nulls2@),
            total == zip_total(offs1@, nulls1@, offs2@, nulls2@, row as int),
            total <= i32::MAX,
    {
        proof {
            lemma_zip_total_monotone(offs1@, nulls1@, offs2@, nulls2@, row as int, row as int);
            assert(offs1@[0] <= offs1@[row as int] <= offs1@[row + 1]);
            assert(offs2@[0] <= offs2@[row as int] <= offs2@[row + 1]);
        }
        let out_len: i64 = if nulls1[row] || nulls2[row] {
            0
        } else {
            let len1 = offs1[row + 1] as i64 - offs1[row] as i64;
            let len2 = offs2[row + 1] as i64 - offs2[row] as i64;
            if len1 >= len2 {
                len1
            } else {
                len2
            }
        };
        total = total + out_len;
        if total > 0x7fff_ffffi64 {
            proof {
                lemma_zip_total_monotone(offs1@, nulls1@, offs2@, nulls2@, row + 1, n as int);
            }
            return false;
        }
    }
    true
}

/// The validity bits of the output rows, or `None` when no row is null.
pub fn build_null_buf(n_rows: usize, is_null: &[bool]) -> (validity: Option<Vec<bool>>)
    requires
        is_null@.len() >= n_rows,
    ensures
        match validity {
            Some(bits) => (exists|i: int| 0 <= i < n_rows && is_null@[i]) && bits@.len() == n_rows
                && forall|i: int| 0 <= i < n_rows ==> bits@[i] == !is_null@[i],
            None => forall|i: int| 0 <= i < n_rows ==> !is_null@[i],
        },
{
    let mut any_null = false;
    let mut bits: Vec<bool> = Vec::with_capacity(n_rows);
    for i in 0..n_rows
        invariant
            is_null@.len() >= n_rows,
            bits@.len() == i,
            forall|k: int| 0 <= k < i ==> bits@[k] == !is_null@[k],
            any_null == exists|k: int| 0 <= k < i && is_null@[k],
    {
        let null = is_null[i];
        if null {
            any_null = true;
        }
        bits.push(!null);
    }
    if any_null {
        Some(bits)
    } else {
        None
    }
}

/// A row of the output is null where either input row is.
pub fn either_null(nulls1: &[bool], nulls2: &[bool]) -> (nulls: Vec<bool>)
    requires
        nulls2@.len() >= nulls1@.len(),
    ensures
        nulls@.len() == nulls1@.len(),
        forall|i: int| 0 <= i < nulls1@.len() ==> nulls@[i] == (nulls1@[i] || nulls2@[i]),
{
    let mut nulls: Vec<bool> = Vec::with_capacity(nulls1.len());
    for i in 0..nulls1.len()
        invariant
            nulls2@.len() >= nulls1@.len(),
            nulls@.len() == i,
            forall|k: int| 0 <= k < i ==> nulls@[k] == (nulls1@[k] || nulls2@[k]),
    {
        nulls.push(nulls1[i] || nulls2[i]);
    }
    nulls
}

/// Coerces the value arguments of `zip_with`: exactly two, both lists.
pub fn coerce_value_types(arg_shapes: &[ListShape]) -> (result: Result<
    (crate::list_layout::ListWidth, crate::list_layout::ListWidth),
    CoerceError,
>)
    ensures
        result == if arg_shapes@.len() != 2 {
            Err(CoerceError::ArgumentCount(arg_shapes@.len() as usize))
        } else if spec_coerce_list_shape(arg_shapes@[0]) is None {
            Err(CoerceError::NotAList(0))
        } else if spec_coerce_list_shape(arg_shapes@[1]) is None {
            Err(CoerceError::NotAList(1))
        } else {
            Ok(
                (
                    spec_coerce_list_shape(arg_shapes@[0])->Some_0,
                    spec_coerce_list_shape(arg_shapes@[1])->Some_0,
                ),
            )
        },
{
    if arg_shapes.len() != 2 {
        return Err(CoerceError::ArgumentCount(arg_shapes.len()));
    }
    let first = match crate::list_layout::coerce_list_shape(arg_shapes[0]) {
        Some(width) => width,
        None => return Err(CoerceError::NotAList(0)),
    };
    let second = match crate::list_layout::coerce_list_shape(arg_shapes[1]) {
        Some(width) => width,
        None => return Err(CoerceError::NotAList(1)),
    };
    Ok((first, second))
}

/// Why the lambda parameters of `zip_with` cannot be given.
#[derive(Debug, Clone, Copy, PartialEq, Eq, Structural)]
pub enum ZipParamsError {
    /// The arguments are not two values followed by a lambda.
    Pattern,
    /// The value argument at this position is not a `List` or a `LargeList`.
    NotAList(usize),
}

/// Whether an argument is a value whose type is a `List` or a `LargeList`.
pub open spec fn is_plain_list(field: FieldArg) -> bool {
    field == FieldArg::Value(ListShape::List) || field == FieldArg::Value(ListShape::LargeList)
}

/// Checks that the lambda of `zip_with` can be given its parameters, one element of each
/// list: the arguments are two lists followed by a lambda.
pub fn zip_lambda_parameters(fields: &[FieldArg]) -> (result: Result<(), ZipParamsError>)
    ensures
        result == if !(fields@.len() == 3 && fields@[0] is Value && fields@[1] is Value
            && fields@[2] is Lambda) {
            Err(ZipParamsError::Pattern)
        } else if !is_plain_list(fields@[0]) {
            Err(ZipParamsError::NotAList(0))
        } else if !is_plain_list(fields@[1]) {
            Err(ZipParamsError::NotAList(1))
        } else {
            Ok(())
        },
{
    if fields.len() != 3 {
        return Err(ZipParamsError::Pattern);
    }
    let (first, second) = match (fields[0], fields[1], fields[2]) {
        (FieldArg::Value(first), FieldArg::Value(second), FieldArg::Lambda(_)) => (first, second),
        _ => return Err(ZipParamsError::Pattern),
    };
    match first {
        ListShape::List | ListShape::LargeList => {},
        _ => return Err(ZipParamsError::NotAList(0)),
    }
    match second {
        ListShape::List | ListShape::LargeList => Ok(()),
        _ => Err(ZipParamsError::NotAList(1)),
    }
}

/// Whether the arguments are two values followed by a lambda, the only form `zip_with` takes.
pub fn is_two_values_and_lambda(args: &[crate::list_layout::ArgKind]) -> (ok: bool)
    ensures
        ok == (args@.len() == 3 && args@[0] == crate::list_layout::ArgKind::Value && args@[1]
            == crate::list_layout::ArgKind::Value && args@[2] == crate::list_layout::ArgKind::Lambda),
{
    args.len() == 3 && args[0] == crate::list_layout::ArgKind::Value && args[1]
        == crate::list_layout::ArgKind::Value && args[2] == crate::list_layout::ArgKind::Lambda
}

/// `zip_with` is symmetric: swapping the two lists keeps the output rows and their lengths and
/// swaps the left and right take indices.
pub proof fn law_zip_with_is_symmetric(
    x: Seq<Option<u32>>,
    y: Seq<Option<u32>>,
    rows: Seq<u32>,
    offs1: Seq<i32>,
    nulls1: Seq<bool>,
    offs2: Seq<i32>,
    nulls2: Seq<bool>,
    n: int,
)
    requires
        zipped_rows(x, y, rows, offs1, nulls1, offs2, nulls2, n),
    ensures
        zipped_rows(y, x, rows, offs2, nulls2, offs1, nulls1, n),
        forall|r: int| 0 <= r <= n ==> zip_total(offs1, nulls1, offs2, nulls2, r) == zip_total(
            offs2,
            nulls2,
            offs1,
            nulls1,
            r,
        ),
{
    lemma_zip_total_symmetric(offs1, nulls1, offs2, nulls2, n);
    assert forall|r: int| 0 <= r <= n implies zip_total(offs1, nulls1, offs2, nulls2, r)
        == zip_total(offs2, nulls2, offs1, nulls1, r) by {
        lemma_zip_total_symmetric(offs1, nulls1, offs2, nulls2, r);
    }
    assert forall|r: int, j: int|
        0 <= r < n && 0 <= j < zip_len(offs2, nulls2, offs1, nulls1, r) implies #[trigger] zipped(
        y,
        x,
        rows,
        offs2,
        offs1,
        zip_total(offs2, nulls2, offs1, nulls1, r) + j,
        r,
        j,
    ) by {
        lemma_zip_total_symmetric(offs1, nulls1, offs2, nulls2, r);
        assert(zipped(x, y, rows, offs1, offs2, zip_total(offs1, nulls1, offs2, nulls2, r) + j, r, j));
    }
}

/// The output totals do not depend on which list comes first.
pub proof fn lemma_zip_total_symmetric(
    offs1: Seq<i32>,
    nulls1: Seq<bool>,
    offs2: Seq<i32>,
    nulls2: Seq<bool>,
    n: int,
)
    ensures
        zip_total(offs1, nulls1, offs2, nulls2, n) == zip_total(offs2, nulls2, offs1, nulls1, n),
    decreases n,
{
    if n > 0 {
        lemma_zip_total_symmetric(offs1, nulls1, offs2, nulls2, n - 1);
    }
}

} // verus!
