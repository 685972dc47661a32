//! Spark's `aggregate(array, initial, merge[, finish])` (also `reduce`): the accumulator of
//! each row is folded over the row's elements, one depth at a time for all rows at once.
use vstd::prelude::*;

use crate::list_layout::{
    adjusted_offsets, spec_coerce_list_shape, valid_offsets_i32, valid_offsets_i64, ArgKind, CoerceError, ListOffsets,
    ListShape, ListWidth,
};

verus! {

/// Offsets and row nulls of the list argument, the offsets rebased to the list's own values
/// and, for a `LargeList`, narrowed to `i32`; the values they span must fit `i32` offsets.
pub fn extract_list_offsets_and_nulls(offsets: &ListOffsets, nulls: &[bool]) -> (result: (
    Vec<i32>,
    Vec<bool>,
))
    requires
        offsets.valid(),
        offsets.values().last() - offsets.values()[0] <= i32::MAX,
    ensures
        result.0@.len() == offsets.values().len(),
        forall|i: int|
            0 <= i < result.0@.len() ==> result.0@[i] == offsets.values()[i]
                - offsets.values()[0],
        result.1@ == nulls@,
{
    let adjusted = adjusted_offsets(offsets);
    assert(adjusted@[adjusted@.len() - 1] == offsets.values().last() - offsets.values()[0]);
    let mut narrowed: Vec<i32> = Vec::with_capacity(adjusted.len());
    for i in 0..adjusted.len()
        invariant
            adjusted@.len() == offsets.values().len(),
            valid_offsets_i64(adjusted@),
            adjusted@[adjusted@.len() - 1] <= i32::MAX,
            narrowed@.len() == i,
            forall|k: int| 0 <= k < i ==> narrowed@[k] == adjusted@[k],
    {
        assert(adjusted@[i as int] <= adjusted@[adjusted@.len() - 1]);
        narrowed.push(adjusted[i] as i32);
    }
    let mut null_mask: Vec<bool> = Vec::with_capacity(nulls.len());
    for i in 0..nulls.len()
        invariant
            null_mask@ == nulls@.subrange(0, i as int),
    {
        null_mask.push(nulls[i]);
    }
    assert(null_mask@ == nulls@);
    (narrowed, null_mask)
}

/// The number of rows that offsets delimit: one fewer than the offsets, none for none.
pub open spec fn row_count(offsets: Seq<i32>) -> int {
    if offsets.len() == 0 {
        0
    } else {
        offsets.len() - 1
    }
}

/// The number of elements folded for each row: none for a null row, the sublist's length
/// otherwise.
pub fn reduce_lengths(offsets: &[i32], null_mask: &[bool]) -> (lengths: Vec<usize>)
    requires
        offsets@.len() >= 1 ==> valid_offsets_i32(offsets@),
        null_mask@.len() >= row_count(offsets@),
    ensures
        lengths@.len() == row_count(offsets@),
        forall|i: int|
            0 <= i < lengths@.len() ==> lengths@[i] == if null_mask@[i] {
                0
            } else {
                offsets@[i + 1] - offsets@[i]
            },
{
    let n = offsets.len().saturating_sub(1);
    let mut lengths: Vec<usize> = Vec::with_capacity(n);
    for i in 0..n
        invariant
            n == row_count(offsets@),
            offsets@.len() >= 1 ==> valid_offsets_i32(offsets@),
            null_mask@.len() >= n,
            lengths@.len() == i,
            forall|k: int|
                0 <= k < i ==> lengths@[k] == if null_mask@[k] {
                    0
                } else {
                    offsets@[k + 1] - offsets@[k]
                },
    {
        if null_mask[i] {
            lengths.push(0);
        } else {
            assert(offsets@[0] <= offsets@[i as int] <= offsets@[i + 1]);
            lengths.push((offsets[i + 1] - offsets[i]) as usize);
        }
    }
    lengths
}

/// The greatest length, or 0 when there is none.
pub fn max_length(lengths: &[usize]) -> (max_len: usize)
    ensures
        forall|i: int| 0 <= i < lengths@.len() ==> lengths@[i] <= max_len,
        lengths@.len() == 0 ==> max_len == 0,
        lengths@.len() > 0 ==> exists|i: int| 0 <= i < lengths@.len() && lengths@[i] == max_len,
{
    let mut max_len: usize = 0;
    for i in 0..lengths.len()
        invariant
            forall|k: int| 0 <= k < i ==> lengths@[k] <= max_len,
            i == 0 ==> max_len == 0,
            i > 0 ==> exists|k: int| 0 <= k < i && lengths@[k] == max_len,
    {
        if lengths[i] > max_len || i == 0 {
            max_len = lengths[i];
        }
    }
    max_len
}

/// One step of the fold, at `depth`: which rows still have an element there, and for those the
/// element's position among the list's values.
pub fn reduce_step(offsets: &[i32], lengths: &[usize], depth: usize) -> (step: (
    Vec<bool>,
    Vec<Option<i64>>,
))
    requires
        offsets@.len() >= lengths@.len(),
        forall|i: int| 0 <= i < lengths@.len() ==> lengths@[i] <= i32::MAX,
    ensures
        step.0@.len() == lengths@.len(),
        step.1@.len() == lengths@.len(),
        forall|i: int|
            0 <= i < lengths@.len() ==> step.0@[i] == (depth < lengths@[i]) && step.1@[i] == if depth
                < lengths@[i] {
                Some((offsets@[i] + depth) as i64)
            } else {
                None::<i64>
            },
{
    let n = lengths.len();
    let mut active: Vec<bool> = Vec::with_capacity(n);
    let mut indices: Vec<Option<i64>> = Vec::with_capacity(n);
    for i in 0..n
        invariant
            n == lengths@.len(),
            offsets@.len() >= n,
            forall|k: int| 0 <= k < n ==> lengths@[k] <= i32::MAX,
            active@.len() == i,
            indices@.len() == i,
            forall|k: int|
                0 <= k < i ==> active@[k] == (depth < lengths@[k]) && indices@[k] == if depth
                    < lengths@[k] {
                    Some((offsets@[k] + depth) as i64)
                } else {
                    None::<i64>
                },
    {
        if depth < lengths[i] {
            active.push(true);
            indices.push(Some(offsets[i] as i64 + depth as i64));
        } else {
            active.push(false);
            indices.push(None);
        }
    }
    (active, indices)
}

} // verus!

verus! {

/// What the fold needs of the list argument: the rebased offsets, the row nulls, the number of
/// elements folded per row and the greatest of them, which is the number of fold steps.
pub struct ReduceRows {
    pub offsets: Vec<i32>,
    pub null_mask: Vec<bool>,
    pub lengths: Vec<usize>,
    pub max_len: usize,
}

impl ReduceRows {
    /// The rows are consistent: one offset more than rows, valid offsets, the lengths of the
    /// non-null rows, and `max_len` their maximum.
    pub open spec fn wf(&self) -> bool {
        &&& self.offsets@.len() == self.null_mask@.len() + 1
        &&& valid_offsets_i32(self.offsets@)
        &&& self.lengths@.len() == self.null_mask@.len()
        &&& forall|i: int|
            0 <= i < self.lengths@.len() ==> self.lengths@[i] == if self.null_mask@[i] {
                0
            } else {
                self.offsets@[i + 1] - self.offsets@[i]
            }
        &&& forall|i: int| 0 <= i < self.lengths@.len() ==> self.lengths@[i] <= self.max_len
        &&& self.lengths@.len() == 0 ==> self.max_len == 0
        &&& self.lengths@.len() > 0 ==> exists|i: int|
            0 <= i < self.lengths@.len() && self.lengths@[i] == self.max_len
    }

    /// Prepares the fold over a list with these offsets and row nulls.
    pub fn new(offsets: &ListOffsets, nulls: &[bool]) -> (rows: ReduceRows)
        requires
            offsets.valid(),
            offsets.rows() == nulls@.len(),
            offsets.values().last() - offsets.values()[0] <= i32::MAX,
        ensures
            rows.wf(),
            rows.null_mask@ == nulls@,
            forall|i: int|
                0 <= i < rows.offsets@.len() ==> rows.offsets@[i] == offsets.values()[i]
                    - offsets.values()[0],
    {
        let (narrowed, null_mask) = extract_list_offsets_and_nulls(offsets, nulls);
        proof {
            let v = offsets.values();
            assert forall|i: int| 0 <= i < narrowed@.len() implies narrowed@[i] == v[i] - v[0] by {
                match offsets {
                    ListOffsets::Regular(o) => {
                        assert(o@[0] <= o@[i] <= o@[o@.len() - 1]);
                    },
                    ListOffsets::Large(o) => {
                        assert(o@[0] <= o@[i] <= o@[o@.len() - 1]);
                    },
                }
            }
            assert(valid_offsets_i32(narrowed@)) by {
                assert forall|i: int, j: int| 0 <= i <= j < narrowed@.len() implies narrowed@[i]
                    <= narrowed@[j] by {
                    match offsets {
                        ListOffsets::Regular(o) => {
                            assert(o@[i] <= o@[j]);
                        },
                        ListOffsets::Large(o) => {
                            assert(o@[i] <= o@[j]);
                        },
                    }
                }
            }
        }
        let lengths = reduce_lengths(narrowed.as_slice(), null_mask.as_slice());
        let max_len = max_length(lengths.as_slice());
        ReduceRows { offsets: narrowed, null_mask, lengths, max_len }
    }

    /// The fold step at `depth`: which rows still have an element there, and where it is.
    pub fn step(&self, depth: usize) -> (step: (Vec<bool>, Vec<Option<i64>>))
        requires
            self.wf(),
        ensures
            step.0@.len() == self.lengths@.len(),
            step.1@.len() == self.lengths@.len(),
            forall|i: int|
                0 <= i < self.lengths@.len() ==> step.0@[i] == (depth < self.lengths@[i])
                    && step.1@[i] == if depth < self.lengths@[i] {
                    Some((self.offsets@[i] + depth) as i64)
                } else {
                    None::<i64>
                },
    {
        proof {
            assert forall|i: int| 0 <= i < self.lengths@.len() implies self.lengths@[i]
                <= i32::MAX by {
                if !self.null_mask@[i] {
                    assert(self.offsets@[0] <= self.offsets@[i]);
                }
            }
        }
        reduce_step(self.offsets.as_slice(), self.lengths.as_slice(), depth)
    }

    /// Whether some row is null, so that the result must be nulled out there.
    pub fn has_null_rows(&self) -> (any: bool)
        ensures
            any == exists|i: int| 0 <= i < self.null_mask@.len() && self.null_mask@[i],
    {
        let mut i: usize = 0;
        while i < self.null_mask.len()
            invariant
                i <= self.null_mask@.len(),
                forall|k: int| 0 <= k < i ==> !self.null_mask@[k],
            decreases self.null_mask@.len() - i,
        {
            if self.null_mask[i] {
                return true;
            }
            i = i + 1;
        }
        false
    }
}

/// The positions of the first `k` elements of row `i`, in order.
pub open spec fn row_prefix(rows: ReduceRows, i: int, k: int) -> Seq<int> {
    Seq::new(k as nat, |p: int| rows.offsets@[i] + p)
}

/// The smaller of two integers.
pub open spec fn min(a: int, b: int) -> int {
    if a <= b {
        a
    } else {
        b
    }
}

/// Where the fold of `aggregate`/`reduce` stands.
#[derive(Debug, Clone, Copy, PartialEq, Eq, Structural)]
pub enum FoldStage {
    /// Folding the elements, one depth at a time.
    Merging,
    /// The finish lambda has run; null rows remain to be nulled out.
    Nulling,
    /// The result is complete.
    Done,
}

/// What the caller of the fold must do next with the accumulators, one per row.
#[derive(Debug)]
pub enum FoldAction {
    /// Run the merge lambda on each row's accumulator and the element at `positions[i]` of the
    /// list's values; keep its result where `active[i]`, and keep the accumulator elsewhere.
    Merge { active: Vec<bool>, positions: Vec<Option<i64>> },
    /// Run the finish lambda once on the accumulators, whatever they hold (NULL included).
    Finish,
    /// Null out the result where the mask is set: the rows whose list is null.
    NullRows(Vec<bool>),
    /// The accumulators are the result.
    Done,
}

/// The fold of `aggregate`/`reduce` as a sequence of actions. Beside the rows it tracks, for
/// each row, the positions of the elements folded into its accumulator so far, in order, and
/// how many times the finish lambda was asked for.
pub struct ReduceFold {
    pub rows: ReduceRows,
    pub has_finish: bool,
    pub depth: usize,
    pub stage: FoldStage,
    pub folded: Ghost<Seq<Seq<int>>>,
    pub finishes: Ghost<nat>,
}

impl ReduceFold {
    /// The fold is consistent: after `depth` merge steps each row's accumulator holds its
    /// first `depth` elements (all of them once they run out), in order; the finish lambda was
    /// asked for once after the merging when there is one, and never before.
    pub open spec fn wf(&self) -> bool {
        &&& self.rows.wf()
        &&& self.depth <= self.rows.max_len
        &&& self.stage != FoldStage::Merging ==> self.depth == self.rows.max_len
        &&& self.folded@.len() == self.rows.lengths@.len()
        &&& forall|i: int|
            0 <= i < self.folded@.len() ==> #[trigger] self.folded@[i] == row_prefix(
                self.rows,
                i,
                min(self.depth as int, self.rows.lengths@[i] as int),
            )
        &&& self.finishes@ == if self.stage != FoldStage::Merging && self.has_finish {
            1nat
        } else {
            0nat
        }
    }

    /// The number of actions left before `Done`.
    pub open spec fn remaining(&self) -> nat {
        match self.stage {
            FoldStage::Merging => (self.rows.max_len - self.depth + 2) as nat,
            FoldStage::Nulling => 1,
            FoldStage::Done => 0,
        }
    }

    /// Starts the fold over a list with these offsets and row nulls; `has_finish` tells whether
    /// there is a finish lambda. No element has been folded yet.
    pub fn new(offsets: &ListOffsets, nulls: &[bool], has_finish: bool) -> (fold: ReduceFold)
        requires
            offsets.valid(),
            offsets.rows() == nulls@.len(),
            offsets.values().last() - offsets.values()[0] <= i32::MAX,
        ensures
            fold.wf(),
            fold.stage == FoldStage::Merging,
            fold.depth == 0,
            fold.has_finish == has_finish,
            fold.rows.null_mask@ == nulls@,
            forall|i: int|
                0 <= i < fold.rows.offsets@.len() ==> fold.rows.offsets@[i] == offsets.values()[i]
                    - offsets.values()[0],
            forall|i: int| 0 <= i < fold.folded@.len() ==> fold.folded@[i].len() == 0,
            fold.finishes@ == 0,
    {
        let rows = ReduceRows::new(offsets, nulls);
        let ghost folded = Seq::new(rows.lengths@.len(), |i: int| Seq::<int>::empty());
        let fold = ReduceFold {
            rows,
            has_finish,
            depth: 0,
            stage: FoldStage::Merging,
            folded: Ghost(folded),
            finishes: Ghost(0nat),
        };
        assert forall|i: int| 0 <= i < fold.folded@.len() implies #[trigger] fold.folded@[i]
            == row_prefix(fold.rows, i, min(0, fold.rows.lengths@[i] as int)) by {
            assert(fold.folded@[i] =~= row_prefix(
                fold.rows,
                i,
                min(0, fold.rows.lengths@[i] as int),
            ));
        }
        fold
    }

    /// The next action of the fold. While elements remain, a merge step at the next depth: the
    /// rows that still have an element there fold it into their accumulator, and the others
    /// keep theirs. Then the finish lambda, once, if there is one; then the null rows, if any.
    pub fn next_action(&mut self) -> (action: FoldAction)
        requires
            old(self).wf(),
        ensures
            final(self).wf(),
            final(self).rows == old(self).rows,
            final(self).has_finish == old(self).has_finish,
            action is Done || final(self).remaining() < old(self).remaining(),
            old(self).stage == FoldStage::Merging && old(self).depth < old(self).rows.max_len ==> {
                &&& action matches FoldAction::Merge { active, positions }
                &&& active@.len() == old(self).rows.lengths@.len()
                &&& positions@.len() == old(self).rows.lengths@.len()
                &&& forall|i: int|
                    0 <= i < active@.len() ==> {
                        &&& active@[i] == (old(self).depth < old(self).rows.lengths@[i])
                        &&& positions@[i] == if active@[i] {
                            Some((old(self).rows.offsets@[i] + old(self).depth) as i64)
                        } else {
                            None::<i64>
                        }
                        &&& final(self).folded@[i] == if active@[i] {
                            old(self).folded@[i].push(
                                old(self).rows.offsets@[i] + old(self).depth,
                            )
                        } else {
                            old(self).folded@[i]
                        }
                    }
                &&& final(self).depth == old(self).depth + 1
                &&& final(self).stage == FoldStage::Merging
                &&& final(self).finishes@ == old(self).finishes@
            },
            old(self).stage == FoldStage::Merging && old(self).depth == old(self).rows.max_len
                && old(self).has_finish ==> {
                &&& action is Finish
                &&& final(self).stage == FoldStage::Nulling
                &&& final(self).folded@ == old(self).folded@
                &&& final(self).finishes@ == old(self).finishes@ + 1
            },
            old(self).stage == FoldStage::Nulling || (old(self).stage == FoldStage::Merging
                && old(self).depth == old(self).rows.max_len && !old(self).has_finish) ==> {
                &&& if exists|i: int|
                    0 <= i < old(self).rows.null_mask@.len() && old(self).rows.null_mask@[i] {
                    action matches FoldAction::NullRows(mask) && mask@ == old(
                        self,
                    ).rows.null_mask@
                } else {
                    action is Done
                }
                &&& final(self).stage == FoldStage::Done
                &&& final(self).folded@ == old(self).folded@
                &&& final(self).finishes@ == old(self).finishes@
            },
            old(self).stage == FoldStage::Done ==> action is Done && final(self).stage
                == FoldStage::Done && final(self).folded@ == old(self).folded@,
    {
        if self.stage == FoldStage::Merging && self.depth < self.rows.max_len {
            let depth = self.depth;
            let (active, positions) = self.rows.step(depth);
            let ghost before = self.folded@;
            let ghost after = Seq::new(
                before.len(),
                |i: int|
                    if depth < self.rows.lengths@[i] {
                        before[i].push(self.rows.offsets@[i] + depth)
                    } else {
                        before[i]
                    },
            );
            self.folded = Ghost(after);
            self.depth = depth + 1;
            assert forall|i: int| 0 <= i < self.folded@.len() implies #[trigger] self.folded@[i]
                == row_prefix(self.rows, i, min(self.depth as int, self.rows.lengths@[i] as int)) by {
                assert(self.folded@[i] =~= row_prefix(
                    self.rows,
                    i,
                    min(self.depth as int, self.rows.lengths@[i] as int),
                ));
            }
            return FoldAction::Merge { active, positions };
        }
        if self.stage == FoldStage::Merging && self.has_finish {
            self.stage = FoldStage::Nulling;
            self.finishes = Ghost(self.finishes@ + 1);
            return FoldAction::Finish;
        }
        if self.stage == FoldStage::Done {
            return FoldAction::Done;
        }
        self.stage = FoldStage::Done;
        if self.rows.has_null_rows() {
            let mut mask: Vec<bool> = Vec::with_capacity(self.rows.null_mask.len());
            for i in 0..self.rows.null_mask.len()
                invariant
                    mask@ == self.rows.null_mask@.subrange(0, i as int),
            {
                mask.push(self.rows.null_mask[i]);
            }
            assert(mask@ =~= self.rows.null_mask@);
            FoldAction::NullRows(mask)
        } else {
            FoldAction::Done
        }
    }
}

/// Why the arguments of `aggregate`/`reduce` are refused.
#[derive(Debug, Clone, Copy, PartialEq, Eq, Structural)]
pub enum ReduceArgsError {
    /// Not `(array, initial, merge)` or `(array, initial, merge, finish)`; this many arguments.
    Pattern(usize),
}

/// Checks the arguments are `(array, initial, merge)` or `(array, initial, merge, finish)`, and
/// tells whether the `finish` lambda is there.
pub fn extract_reduce_args(args: &[ArgKind]) -> (result: Result<bool, ReduceArgsError>)
    ensures
        result == if args@.len() == 3 && args@[0] == ArgKind::Value && args@[1] == ArgKind::Value
            && args@[2] == ArgKind::Lambda {
            Ok(false)
        } else if args@.len() == 4 && args@[0] == ArgKind::Value && args@[1] == ArgKind::Value
            && args@[2] == ArgKind::Lambda && args@[3] == ArgKind::Lambda {
            Ok(true)
        } else {
            Err(ReduceArgsError::Pattern(args@.len() as usize))
        },
{
    if args.len() == 3 {
        if let (ArgKind::Value, ArgKind::Value, ArgKind::Lambda) = (args[0], args[1], args[2]) {
            return Ok(false);
        }
    } else if args.len() == 4 {
        if let (ArgKind::Value, ArgKind::Value, ArgKind::Lambda, ArgKind::Lambda) = (
            args[0],
            args[1],
            args[2],
            args[3],
        ) {
            return Ok(true);
        }
    }
    Err(ReduceArgsError::Pattern(args.len()))
}

/// Coerces the value arguments of `aggregate`: exactly two, the first a list; the initial
/// value keeps its type.
pub fn coerce_value_types(arg_shapes: &[ListShape]) -> (result: Result<ListWidth, CoerceError>)
    ensures
        result == if arg_shapes@.len() != 2 {
            Err(CoerceError::ArgumentCount(arg_shapes@.len() as usize))
        } else {
            match spec_coerce_list_shape(arg_shapes@[0]) {
                Some(width) => Ok(width),
                None => Err(CoerceError::NotAList(0)),
            }
        },
{
    if arg_shapes.len() != 2 {
        return Err(CoerceError::ArgumentCount(arg_shapes.len()));
    }
    match crate::list_layout::coerce_list_shape(arg_shapes[0]) {
        Some(width) => Ok(width),
        None => Err(CoerceError::NotAList(0)),
    }
}

} // verus!

verus! {

/// An argument of `aggregate` while its lambdas' parameters are being resolved: a value, with
/// the shape of its type, or a lambda, with whether its output type is already known.
#[derive(Debug, Clone, Copy, PartialEq, Eq, Structural)]
pub enum FieldArg {
    Value(ListShape),
    Lambda(bool),
}

/// Which lambda parameters of `aggregate`/`reduce` can be given.
#[derive(Debug, Clone, Copy, PartialEq, Eq, Structural)]
pub enum ReduceLambdaParams {
    /// The three-argument form: the merge lambda takes `(accumulator, element)` and all
    /// parameters are known.
    Merge,
    /// The four-argument form with the merge output known: the merge lambda takes
    /// `(accumulator, element)`, the finish lambda takes the merge output.
    MergeAndFinish,
    /// The four-argument form before the merge output is known: only the merge lambda's
    /// parameters can be given yet.
    MergeOnly,
}

/// Why the lambda parameters of `aggregate` cannot be resolved.
#[derive(Debug, Clone, Copy, PartialEq, Eq, Structural)]
pub enum LambdaParamsError {
    /// The first argument is not a value (the list).
    FirstNotValue,
    /// The second argument is not a value (the initial accumulator).
    SecondNotValue,
    /// The first argument's type is not a `List` or a `LargeList`.
    NotAList,
}

/// What `reduce_lambda_parameters` decides.
pub open spec fn spec_reduce_lambda_parameters(fields: Seq<FieldArg>) -> Result<
    ReduceLambdaParams,
    LambdaParamsError,
> {
    if fields.len() < 1 || fields[0] is Lambda {
        Err(LambdaParamsError::FirstNotValue)
    } else if fields.len() < 2 || fields[1] is Lambda {
        Err(LambdaParamsError::SecondNotValue)
    } else if !(fields[0] == FieldArg::Value(ListShape::List) || fields[0] == FieldArg::Value(
        ListShape::LargeList,
    )) {
        Err(LambdaParamsError::NotAList)
    } else if fields.len() != 4 {
        Ok(ReduceLambdaParams::Merge)
    } else if fields[2] is Value || fields[2] == FieldArg::Lambda(true) {
        Ok(ReduceLambdaParams::MergeAndFinish)
    } else {
        Ok(ReduceLambdaParams::MergeOnly)
    }
}

/// Decides which lambda parameters of `aggregate`/`reduce` can be given: the accumulator takes
/// the initial value's type and the element the list's element type; with a finish lambda, its
/// parameter is the merge output, once that is known.
pub fn reduce_lambda_parameters(fields: &[FieldArg]) -> (result: Result<
    ReduceLambdaParams,
    LambdaParamsError,
>)
    ensures
        result == spec_reduce_lambda_parameters(fields@),
{
    let has_finish = fields.len() == 4;
    let list_shape = match fields.first() {
        Some(FieldArg::Value(shape)) => *shape,
        _ => return Err(LambdaParamsError::FirstNotValue),
    };
    match fields.get(1) {
        Some(FieldArg::Value(_)) => {},
        _ => return Err(LambdaParamsError::SecondNotValue),
    }
    match list_shape {
        ListShape::List | ListShape::LargeList => {},
        _ => return Err(LambdaParamsError::NotAList),
    }
    if !has_finish {
        return Ok(ReduceLambdaParams::Merge);
    }
    match fields.get(2) {
        Some(FieldArg::Value(_)) | Some(FieldArg::Lambda(true)) => Ok(
            ReduceLambdaParams::MergeAndFinish,
        ),
        _ => Ok(ReduceLambdaParams::MergeOnly),
    }
}

} // verus!

verus! {

/// When the fold is done, each row's accumulator has folded exactly the row's own elements,
/// each once and in order, and nothing for a null row, which keeps the initial value until it
/// is nulled out; the finish lambda was asked for once if there is one, and never otherwise.
pub proof fn law_fold_reads_each_row_in_order(fold: ReduceFold, i: int)
    requires
        fold.wf(),
        fold.stage == FoldStage::Done,
        0 <= i < fold.rows.null_mask@.len(),
    ensures
        fold.rows.null_mask@[i] ==> fold.folded@[i].len() == 0,
        !fold.rows.null_mask@[i] ==> fold.folded@[i] == Seq::new(
            (fold.rows.offsets@[i + 1] - fold.rows.offsets@[i]) as nat,
            |p: int| fold.rows.offsets@[i] + p,
        ),
        fold.finishes@ == if fold.has_finish {
            1nat
        } else {
            0nat
        },
{
    assert(fold.folded@[i] == row_prefix(
        fold.rows,
        i,
        min(fold.depth as int, fold.rows.lengths@[i] as int),
    ));
    assert(fold.rows.lengths@[i] <= fold.rows.max_len);
    if !fold.rows.null_mask@[i] {
        assert(fold.folded@[i] =~= Seq::new(
            (fold.rows.offsets@[i + 1] - fold.rows.offsets@[i]) as nat,
            |p: int| fold.rows.offsets@[i] + p,
        ));
    }
}

/// The fold visits every element of every non-null row exactly once, in order: the element at
/// position `p` of row `i` is folded at step `p - offsets[i]`, one of the `max_len` steps, and
/// at no other step; a null row is folded at no step.
pub proof fn law_fold_visits_each_element_once(rows: ReduceRows, i: int, depth: int)
    requires
        rows.wf(),
        0 <= i < rows.null_mask@.len(),
        0 <= depth,
    ensures
        rows.null_mask@[i] ==> !(depth < rows.lengths@[i]),
        !rows.null_mask@[i] ==> (depth < rows.lengths@[i] <==> rows.offsets@[i] + depth
            < rows.offsets@[i + 1]),
        depth < rows.lengths@[i] ==> depth < rows.max_len,
{
}


/// The lambda parameters of `aggregate`/`reduce` can be given for every list the value
/// coercion produces: whenever the first argument is a `List` or a `LargeList` value and the
/// second is a value, whatever follows, the parameters are resolved.
pub proof fn law_lists_get_lambda_parameters(fields: Seq<FieldArg>)
    requires
        fields.len() >= 2,
        fields[0] == FieldArg::Value(ListShape::List) || fields[0] == FieldArg::Value(
            ListShape::LargeList,
        ),
        fields[1] is Value,
    ensures
        spec_reduce_lambda_parameters(fields) is Ok,
{
}

/// What the value coercion of `aggregate` yields is accepted by the lambda-parameter step:
/// the coerced list, `List` for a regular width and `LargeList` for a large one, followed by
/// the initial value, gets its lambda parameters.
pub proof fn law_coerced_list_gets_lambda_parameters(shape: ListShape, fields: Seq<FieldArg>)
    requires
        spec_coerce_list_shape(shape) is Some,
        fields.len() >= 2,
        fields[0] == FieldArg::Value(
            match spec_coerce_list_shape(shape)->Some_0 {
                ListWidth::Regular => ListShape::List,
                ListWidth::Large => ListShape::LargeList,
            },
        ),
        fields[1] is Value,
    ensures
        spec_reduce_lambda_parameters(fields) is Ok,
{
    law_lists_get_lambda_parameters(fields);
}
} // verus!
