//! The plain shape of Arrow list arrays that the higher-order functions read: the kind of a
//! list type, the offsets that delimit each row's sublist, and the row nulls.
use vstd::prelude::*;

verus! {

/// The kind of an argument's data type, as the list functions see it.
#[derive(Debug, Clone, Copy, PartialEq, Eq, Structural)]
pub enum ListShape {
    /// `List`: offsets are `i32`.
    List,
    /// `LargeList`: offsets are `i64`.
    LargeList,
    /// `ListView` of `i32` offsets and sizes.
    ListView,
    /// `FixedSizeList`: every row has the same length.
    FixedSizeList,
    /// `LargeListView` of `i64` offsets and sizes.
    LargeListView,
    /// Not a list.
    Other,
}

/// The two list types the functions evaluate on.
#[derive(Debug, Clone, Copy, PartialEq, Eq, Structural)]
pub enum ListWidth {
    /// `List`, with `i32` offsets.
    Regular,
    /// `LargeList`, with `i64` offsets.
    Large,
}

/// The list type a list-shaped argument is coerced to, keeping its element field.
pub open spec fn spec_coerce_list_shape(shape: ListShape) -> Option<ListWidth> {
    match shape {
        ListShape::List | ListShape::ListView | ListShape::FixedSizeList => Some(ListWidth::Regular),
        ListShape::LargeList | ListShape::LargeListView => Some(ListWidth::Large),
        ListShape::Other => None,
    }
}

/// Coerces a list-shaped argument: `List` and `LargeList` stay; a `ListView` or a
/// `FixedSizeList` becomes a `List`, a `LargeListView` a `LargeList`; anything else is refused.
pub fn coerce_list_shape(shape: ListShape) -> (width: Option<ListWidth>)
    ensures
        width == spec_coerce_list_shape(shape),
{
    match shape {
        ListShape::List | ListShape::ListView | ListShape::FixedSizeList => Some(ListWidth::Regular),
        ListShape::LargeList | ListShape::LargeListView => Some(ListWidth::Large),
        ListShape::Other => None,
    }
}

/// Why the value arguments of a list function are refused.
#[derive(Debug, Clone, Copy, PartialEq, Eq, Structural)]
pub enum CoerceError {
    /// The function got this many value arguments, not the number it takes.
    ArgumentCount(usize),
    /// The value argument at this position is not a list.
    NotAList(usize),
}

/// Whether an argument of a higher-order function is a plain value or a lambda.
#[derive(Debug, Clone, Copy, PartialEq, Eq, Structural)]
pub enum ArgKind {
    Value,
    Lambda,
}

/// Why the arguments of a one-list, one-lambda function are refused.
#[derive(Debug, Clone, Copy, PartialEq, Eq, Structural)]
pub enum PairError {
    /// The function got this many arguments, not two.
    ArgumentCount(usize),
    /// The two arguments are not a value followed by a lambda.
    NotValueThenLambda,
}

/// Checks that the arguments are exactly a value followed by a lambda.
pub fn value_lambda_pair(args: &[ArgKind]) -> (result: Result<(), PairError>)
    ensures
        result == if args@.len() != 2 {
            Err(PairError::ArgumentCount(args@.len() as usize))
        } else if args@[0] == ArgKind::Value && args@[1] == ArgKind::Lambda {
            Ok(())
        } else {
            Err(PairError::NotValueThenLambda)
        },
{
    if args.len() != 2 {
        return Err(PairError::ArgumentCount(args.len()));
    }
    match (args[0], args[1]) {
        (ArgKind::Value, ArgKind::Lambda) => Ok(()),
        _ => Err(PairError::NotValueThenLambda),
    }
}

/// Offsets delimit the rows of a list: there is at least one, none is negative, and they never
/// decrease.
pub open spec fn valid_offsets_i32(offsets: Seq<i32>) -> bool {
    &&& offsets.len() >= 1
    &&& offsets[0] >= 0
    &&& forall|i: int, j: int| 0 <= i <= j < offsets.len() ==> offsets[i] <= offsets[j]
}

/// Offsets delimit the rows of a list: there is at least one, none is negative, and they never
/// decrease.
pub open spec fn valid_offsets_i64(offsets: Seq<i64>) -> bool {
    &&& offsets.len() >= 1
    &&& offsets[0] >= 0
    &&& forall|i: int, j: int| 0 <= i <= j < offsets.len() ==> offsets[i] <= offsets[j]
}

/// Checks that `offsets` are valid list offsets.
pub fn offsets_valid_i32(offsets: &[i32]) -> (valid: bool)
    ensures
        valid == valid_offsets_i32(offsets@),
{
    if offsets.len() == 0 || offsets[0] < 0 {
        return false;
    }
    let mut i: usize = 1;
    while i < offsets.len()
        invariant
            1 <= i <= offsets@.len(),
            offsets@[0] >= 0,
            forall|a: int, b: int| 0 <= a <= b < i ==> offsets@[a] <= offsets@[b],
        decreases offsets@.len() - i,
    {
        if offsets[i - 1] > offsets[i] {
            return false;
        }
        assert forall|a: int, b: int| 0 <= a <= b < i + 1 implies offsets@[a] <= offsets@[b] by {
            if b == i && a < b {
                assert(offsets@[a] <= offsets@[i - 1]);
            }
        }
        i = i + 1;
    }
    true
}

/// Checks that `offsets` are valid large-list offsets.
pub fn offsets_valid_i64(offsets: &[i64]) -> (valid: bool)
    ensures
        valid == valid_offsets_i64(offsets@),
{
    if offsets.len() == 0 || offsets[0] < 0 {
        return false;
    }
    let mut i: usize = 1;
    while i < offsets.len()
        invariant
            1 <= i <= offsets@.len(),
            offsets@[0] >= 0,
            forall|a: int, b: int| 0 <= a <= b < i ==> offsets@[a] <= offsets@[b],
        decreases offsets@.len() - i,
    {
        if offsets[i - 1] > offsets[i] {
            return false;
        }
        assert forall|a: int, b: int| 0 <= a <= b < i + 1 implies offsets@[a] <= offsets@[b] by {
            if b == i && a < b {
                assert(offsets@[a] <= offsets@[i - 1]);
            }
        }
        i = i + 1;
    }
    true
}

/// Rebases the offsets of a (possibly sliced) list so that they point into its own sliced
/// values: each offset minus the first.
pub fn adjust_offsets_for_slice_i32(offsets: &[i32]) -> (adjusted: Vec<i32>)
    requires
        valid_offsets_i32(offsets@),
    ensures
        adjusted@.len() == offsets@.len(),
        forall|i: int| 0 <= i < offsets@.len() ==> adjusted@[i] == offsets@[i] - offsets@[0],
        valid_offsets_i32(adjusted@),
{
    let first = offsets[0];
    let mut adjusted: Vec<i32> = Vec::with_capacity(offsets.len());
    for i in 0..offsets.len()
        invariant
            valid_offsets_i32(offsets@),
            first == offsets@[0],
            adjusted@.len() == i,
            forall|k: int| 0 <= k < i ==> adjusted@[k] == offsets@[k] - offsets@[0],
    {
        adjusted.push(offsets[i] - first);
    }
    adjusted
}

/// Rebases the offsets of a (possibly sliced) large list so that they point into its own sliced
/// values: each offset minus the first.
pub fn adjust_offsets_for_slice_i64(offsets: &[i64]) -> (adjusted: Vec<i64>)
    requires
        valid_offsets_i64(offsets@),
    ensures
        adjusted@.len() == offsets@.len(),
        forall|i: int| 0 <= i < offsets@.len() ==> adjusted@[i] == offsets@[i] - offsets@[0],
        valid_offsets_i64(adjusted@),
{
    let first = offsets[0];
    let mut adjusted: Vec<i64> = Vec::with_capacity(offsets.len());
    for i in 0..offsets.len()
        invariant
            valid_offsets_i64(offsets@),
            first == offsets@[0],
            adjusted@.len() == i,
            forall|k: int| 0 <= k < i ==> adjusted@[k] == offsets@[k] - offsets@[0],
    {
        adjusted.push(offsets[i] - first);
    }
    adjusted
}

} // verus!

verus! {

/// The offsets of a list array, in the width of its type.
#[derive(Debug, Clone, PartialEq, Eq)]
pub enum ListOffsets {
    /// The `i32` offsets of a `List`.
    Regular(Vec<i32>),
    /// The `i64` offsets of a `LargeList`.
    Large(Vec<i64>),
}

impl ListOffsets {
    /// The offsets as mathematical integers.
    pub open spec fn values(&self) -> Seq<int> {
        match self {
            ListOffsets::Regular(o) => o@.map_values(|x: i32| x as int),
            ListOffsets::Large(o) => o@.map_values(|x: i64| x as int),
        }
    }

    /// The offsets are valid for their width.
    pub open spec fn valid(&self) -> bool {
        match self {
            ListOffsets::Regular(o) => valid_offsets_i32(o@),
            ListOffsets::Large(o) => valid_offsets_i64(o@),
        }
    }

    /// The number of rows the offsets delimit.
    pub open spec fn rows(&self) -> int {
        self.values().len() - 1
    }
}

/// Widens `List` offsets to the `i64` of a `LargeList`.
pub fn widen_offsets(offsets: &[i32]) -> (widened: Vec<i64>)
    ensures
        widened@.len() == offsets@.len(),
        forall|i: int| 0 <= i < offsets@.len() ==> widened@[i] == offsets@[i] as i64,
{
    let mut widened: Vec<i64> = Vec::with_capacity(offsets.len());
    for i in 0..offsets.len()
        invariant
            widened@.len() == i,
            forall|k: int| 0 <= k < i ==> widened@[k] == offsets@[k] as i64,
    {
        widened.push(offsets[i] as i64);
    }
    widened
}

/// Rebases the offsets of a (possibly sliced) list or large list so that they point into the
/// list's own sliced values, and widens them to `i64`.
pub fn adjusted_offsets(offsets: &ListOffsets) -> (adjusted: Vec<i64>)
    requires
        offsets.valid(),
    ensures
        adjusted@.len() == offsets.values().len(),
        forall|i: int|
            0 <= i < adjusted@.len() ==> adjusted@[i] == offsets.values()[i] - offsets.values()[0],
        valid_offsets_i64(adjusted@),
{
    match offsets {
        ListOffsets::Regular(o) => {
            let a = adjust_offsets_for_slice_i32(o.as_slice());
            let w = widen_offsets(a.as_slice());
            assert(valid_offsets_i64(w@)) by {
                assert forall|i: int, j: int| 0 <= i <= j < w@.len() implies w@[i] <= w@[j] by {
                    assert(a@[i] <= a@[j]);
                }
            }
            w
        },
        ListOffsets::Large(o) => adjust_offsets_for_slice_i64(o.as_slice()),
    }
}

} // verus!
