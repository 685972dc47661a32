use sail_function::array_reduce::{
    coerce_value_types as reduce_coerce_value_types, extract_list_offsets_and_nulls,
    extract_reduce_args, max_length, reduce_lambda_parameters, reduce_lengths, FieldArg,
    FoldAction, FoldStage, ReduceFold,
    LambdaParamsError, ReduceArgsError, ReduceLambdaParams, ReduceRows,
};
use sail_function::array_transform::{
    build_per_sublist_indices_i32, build_per_sublist_indices_i64, return_list_width,
};
use sail_function::exists_forall::{
    coerce_list_type, predicate_per_row, reduce_and, reduce_or, reduce_per_row, Quantifier,
};
use sail_function::list_layout::{
    adjust_offsets_for_slice_i32, adjust_offsets_for_slice_i64, adjusted_offsets,
    coerce_list_shape, offsets_valid_i32, offsets_valid_i64, value_lambda_pair, ArgKind,
    CoerceError, ListOffsets, ListShape, ListWidth, PairError,
};
use sail_function::transform_expr::{
    build_batch_schema, element_rows_and_indices, narrow_offsets, ColumnRole, OffsetOverflow,
};
use sail_function::zip_with::{
    build_null_buf, coerce_value_types as zip_coerce_value_types, either_null,
    is_two_values_and_lambda, zip_fits, zip_lambda_parameters, zip_with_plan, ZipParamsError,
};

#[test]
fn or_with_three_valued_logic() {
    let mask = [Some(false), None, Some(true), Some(false)];
    assert_eq!(reduce_or(&mask, 0, 4), Some(true));
    assert_eq!(reduce_or(&mask, 0, 2), None);
    assert_eq!(reduce_or(&mask, 0, 1), Some(false));
    assert_eq!(reduce_or(&mask, 3, 3), Some(false));
    assert_eq!(reduce_or(&mask, 3, 1), Some(false));
}

#[test]
fn and_with_three_valued_logic() {
    let mask = [Some(true), None, Some(false), Some(true)];
    assert_eq!(reduce_and(&mask, 0, 4), Some(false));
    assert_eq!(reduce_and(&mask, 0, 2), None);
    assert_eq!(reduce_and(&mask, 3, 4), Some(true));
    assert_eq!(reduce_and(&mask, 2, 2), Some(true));
}

#[test]
fn exists_and_forall_per_row() {
    // Rows: [true, false], [], NULL, [NULL, false], [NULL, true]
    let offsets = ListOffsets::Regular(vec![0, 2, 2, 2, 4, 6]);
    let nulls = [false, false, true, false, false];
    let mask = [Some(true), Some(false), None, Some(false), None, Some(true)];
    assert_eq!(
        predicate_per_row(Quantifier::Exists, &offsets, &nulls, &mask),
        vec![Some(true), Some(false), None, None, Some(true)]
    );
    assert_eq!(
        predicate_per_row(Quantifier::Forall, &offsets, &nulls, &mask),
        vec![Some(false), Some(true), None, Some(false), None]
    );
}

#[test]
fn predicate_on_a_sliced_large_list() {
    // A slice whose offsets start at 10: rows [x10, x11], [x12].
    let offsets = ListOffsets::Large(vec![10, 12, 13]);
    let nulls = [false, false];
    let mask = [Some(false), Some(false), Some(true)];
    assert_eq!(
        predicate_per_row(Quantifier::Exists, &offsets, &nulls, &mask),
        vec![Some(false), Some(true)]
    );
}

#[test]
fn forall_is_not_exists_not() {
    let offsets = [0i64, 2, 2, 3, 5];
    let nulls = [false, false, true, false];
    let mask = [Some(true), None, Some(false), Some(true), Some(true)];
    let negated: Vec<Option<bool>> = mask.iter().map(|v| v.map(|b| !b)).collect();
    let forall = reduce_per_row(&mask, &offsets, &nulls, 4, Quantifier::Forall);
    let exists_not = reduce_per_row(&negated, &offsets, &nulls, 4, Quantifier::Exists);
    let not_exists_not: Vec<Option<bool>> = exists_not.iter().map(|v| v.map(|b| !b)).collect();
    assert_eq!(forall, not_exists_not);
}

#[test]
fn offsets_of_a_slice_are_rebased() {
    assert_eq!(adjust_offsets_for_slice_i32(&[3, 5, 5, 8]), vec![0, 2, 2, 5]);
    assert_eq!(adjust_offsets_for_slice_i64(&[0, 1]), vec![0, 1]);
    assert_eq!(adjusted_offsets(&ListOffsets::Regular(vec![4, 6])), vec![0i64, 2]);
}

#[test]
fn list_coercion() {
    assert_eq!(coerce_list_shape(ListShape::List), Some(ListWidth::Regular));
    assert_eq!(coerce_list_shape(ListShape::ListView), Some(ListWidth::Regular));
    assert_eq!(coerce_list_shape(ListShape::FixedSizeList), Some(ListWidth::Regular));
    assert_eq!(coerce_list_shape(ListShape::LargeList), Some(ListWidth::Large));
    assert_eq!(coerce_list_shape(ListShape::LargeListView), Some(ListWidth::Large));
    assert_eq!(coerce_list_shape(ListShape::Other), None);
    assert_eq!(coerce_list_type(&[ListShape::LargeListView]), Ok(ListWidth::Large));
    assert_eq!(coerce_list_type(&[]), Err(CoerceError::ArgumentCount(0)));
    assert_eq!(coerce_list_type(&[ListShape::Other]), Err(CoerceError::NotAList(0)));
    assert_eq!(
        reduce_coerce_value_types(&[ListShape::FixedSizeList, ListShape::Other]),
        Ok(ListWidth::Regular)
    );
    assert_eq!(reduce_coerce_value_types(&[ListShape::List]), Err(CoerceError::ArgumentCount(1)));
    assert_eq!(
        zip_coerce_value_types(&[ListShape::List, ListShape::Other]),
        Err(CoerceError::NotAList(1))
    );
    assert_eq!(
        zip_coerce_value_types(&[ListShape::ListView, ListShape::LargeList]),
        Ok((ListWidth::Regular, ListWidth::Large))
    );
}

#[test]
fn value_then_lambda() {
    assert_eq!(value_lambda_pair(&[ArgKind::Value, ArgKind::Lambda]), Ok(()));
    assert_eq!(
        value_lambda_pair(&[ArgKind::Lambda, ArgKind::Value]),
        Err(PairError::NotValueThenLambda)
    );
    assert_eq!(value_lambda_pair(&[ArgKind::Value]), Err(PairError::ArgumentCount(1)));
    assert!(is_two_values_and_lambda(&[ArgKind::Value, ArgKind::Value, ArgKind::Lambda]));
    assert!(!is_two_values_and_lambda(&[ArgKind::Value, ArgKind::Lambda, ArgKind::Lambda]));
}

#[test]
fn reduce_arguments() {
    let (v, l) = (ArgKind::Value, ArgKind::Lambda);
    assert_eq!(extract_reduce_args(&[v, v, l]), Ok(false));
    assert_eq!(extract_reduce_args(&[v, v, l, l]), Ok(true));
    assert_eq!(extract_reduce_args(&[v, l, l]), Err(ReduceArgsError::Pattern(3)));
    assert_eq!(extract_reduce_args(&[v, v]), Err(ReduceArgsError::Pattern(2)));
}

#[test]
fn reduce_lambda_parameter_plans() {
    let list = FieldArg::Value(ListShape::List);
    let zero = FieldArg::Value(ListShape::Other);
    assert_eq!(
        reduce_lambda_parameters(&[list, zero, FieldArg::Lambda(false)]),
        Ok(ReduceLambdaParams::Merge)
    );
    assert_eq!(
        reduce_lambda_parameters(&[list, zero, FieldArg::Lambda(true), FieldArg::Lambda(false)]),
        Ok(ReduceLambdaParams::MergeAndFinish)
    );
    assert_eq!(
        reduce_lambda_parameters(&[list, zero, FieldArg::Lambda(false), FieldArg::Lambda(false)]),
        Ok(ReduceLambdaParams::MergeOnly)
    );
    assert_eq!(
        reduce_lambda_parameters(&[FieldArg::Lambda(true), zero]),
        Err(LambdaParamsError::FirstNotValue)
    );
    assert_eq!(reduce_lambda_parameters(&[list]), Err(LambdaParamsError::SecondNotValue));
    assert_eq!(
        reduce_lambda_parameters(&[FieldArg::Value(ListShape::ListView), zero, FieldArg::Lambda(false)]),
        Err(LambdaParamsError::NotAList)
    );
}

#[test]
fn reduce_rows_and_steps() {
    // Rows: [a, b, c], NULL, [], [d]; the list is sliced at offset 5.
    let offsets = ListOffsets::Large(vec![5, 8, 8, 8, 9]);
    let nulls = [false, true, false, false];
    let rows = ReduceRows::new(&offsets, &nulls);
    assert_eq!(rows.offsets, vec![0, 3, 3, 3, 4]);
    assert_eq!(rows.lengths, vec![3, 0, 0, 1]);
    assert_eq!(rows.max_len, 3);
    assert!(rows.has_null_rows());
    let (active, indices) = rows.step(0);
    assert_eq!(active, vec![true, false, false, true]);
    assert_eq!(indices, vec![Some(0), None, None, Some(3)]);
    let (active, indices) = rows.step(2);
    assert_eq!(active, vec![true, false, false, false]);
    assert_eq!(indices, vec![Some(2), None, None, None]);
}

#[test]
fn reduce_lengths_and_maximum() {
    assert_eq!(reduce_lengths(&[0, 2, 7, 7], &[false, true, false]), vec![2, 0, 0]);
    assert_eq!(reduce_lengths(&[], &[]), Vec::<usize>::new());
    assert_eq!(max_length(&[2, 0, 5, 1]), 5);
    assert_eq!(max_length(&[]), 0);
    let (offsets, nulls) =
        extract_list_offsets_and_nulls(&ListOffsets::Regular(vec![2, 4]), &[true]);
    assert_eq!(offsets, vec![0, 2]);
    assert_eq!(nulls, vec![true]);
}

#[test]
fn positions_within_sublists() {
    assert_eq!(build_per_sublist_indices_i32(&[0, 2, 2, 5], 3), vec![0, 1, 0, 1, 2]);
    assert_eq!(build_per_sublist_indices_i64(&[0, 2, 2, 5], 3), vec![0, 1, 0, 1, 2]);
    assert_eq!(build_per_sublist_indices_i32(&[0, 2, 2, 5], 1), vec![0, 1]);
    assert_eq!(build_per_sublist_indices_i32(&[0], 0), Vec::<i64>::new());
    assert_eq!(return_list_width(ListShape::LargeList), Some(ListWidth::Large));
    assert_eq!(return_list_width(ListShape::ListView), None);
}

#[test]
fn zip_two_lists() {
    // list1: [1, 2, 3], [4], NULL; list2: [a], [b, c], [d]
    let offs1 = [0, 3, 4, 4];
    let nulls1 = [false, false, true];
    let offs2 = [0, 1, 3, 4];
    let nulls2 = [false, false, false];
    let plan = zip_with_plan(&offs1, &nulls1, &offs2, &nulls2);
    assert_eq!(plan.out_offsets, vec![0, 3, 5, 5]);
    assert_eq!(plan.x_indices, vec![Some(0), Some(1), Some(2), Some(3), None]);
    assert_eq!(plan.y_indices, vec![Some(0), None, None, Some(1), Some(2)]);
    assert_eq!(plan.row_map, vec![0, 0, 0, 1, 1]);
    let nulls = either_null(&nulls1, &nulls2);
    assert_eq!(nulls, vec![false, false, true]);
    assert_eq!(build_null_buf(3, &nulls), Some(vec![true, true, false]));
    assert_eq!(build_null_buf(2, &nulls), None);
}

#[test]
fn zip_is_symmetric() {
    let offs1 = [0, 2, 2, 5];
    let offs2 = [0, 1, 4, 4];
    let nulls = [false, false, false];
    let ab = zip_with_plan(&offs1, &nulls, &offs2, &nulls);
    let ba = zip_with_plan(&offs2, &nulls, &offs1, &nulls);
    assert_eq!(ab.out_offsets, ba.out_offsets);
    assert_eq!(ab.x_indices, ba.y_indices);
    assert_eq!(ab.y_indices, ba.x_indices);
    assert_eq!(ab.row_map, ba.row_map);
}

#[test]
fn flattened_batch_columns() {
    let outer = vec!["a".to_string(), "b".to_string()];
    let columns = build_batch_schema("x", Some("i"), &outer);
    assert_eq!(columns.len(), 4);
    assert_eq!(columns[0].name, "x");
    assert_eq!(columns[0].role, ColumnRole::Element);
    assert!(columns[0].nullable);
    assert_eq!(columns[1].name, "i");
    assert_eq!(columns[1].role, ColumnRole::Index);
    assert!(!columns[1].nullable);
    assert_eq!(columns[3].name, "b");
    assert_eq!(columns[3].role, ColumnRole::Outer(1));
    let columns = build_batch_schema("x", None, &outer);
    assert_eq!(columns.len(), 3);
    assert_eq!(columns[1].role, ColumnRole::Outer(0));
}

#[test]
fn element_rows_and_index_column() {
    let (rows, indices) = element_rows_and_indices(&[0, 2, 2, 5], 3);
    assert_eq!(rows, vec![0, 0, 2, 2, 2]);
    assert_eq!(indices, vec![0, 1, 0, 1, 2]);
}

#[test]
fn large_offsets_narrowed() {
    assert_eq!(narrow_offsets(&[0, 3, 7]), Ok(vec![0, 3, 7]));
    assert_eq!(narrow_offsets(&[0, 1 << 40]), Err(OffsetOverflow));
}

#[test]
fn offsets_are_checked() {
    assert!(offsets_valid_i32(&[0, 2, 2, 5]));
    assert!(offsets_valid_i32(&[3]));
    assert!(!offsets_valid_i32(&[]));
    assert!(!offsets_valid_i32(&[-1, 2]));
    assert!(!offsets_valid_i32(&[0, 3, 2]));
    assert!(offsets_valid_i64(&[5, 5, 9]));
    assert!(!offsets_valid_i64(&[0, 9, 8, 10]));
}

#[test]
fn zip_fits_only_aligned_rows_within_i32() {
    let nulls = [false, false];
    assert!(zip_fits(&[0, 2, 3], &nulls, &[0, 1, 4], &nulls));
    // Different row counts.
    assert!(!zip_fits(&[0, 2, 3], &nulls, &[0, 1], &[false]));
    // Decreasing offsets.
    assert!(!zip_fits(&[0, 2, 1], &nulls, &[0, 1, 4], &nulls));
    // The zipped output exceeds `i32` offsets: two rows of 2^30 elements, one from each list.
    let half = 1 << 30;
    assert!(!zip_fits(&[0, half, half], &nulls, &[0, 0, half], &nulls));
    // A null row contributes nothing, so the same lists fit once a row is null.
    assert!(zip_fits(&[0, half, half], &[false, true], &[0, 0, half], &nulls));
}

#[test]
fn zip_lambda_parameter_shapes() {
    let list = FieldArg::Value(ListShape::List);
    let large = FieldArg::Value(ListShape::LargeList);
    let view = FieldArg::Value(ListShape::ListView);
    let lambda = FieldArg::Lambda(false);
    assert_eq!(zip_lambda_parameters(&[list, large, lambda]), Ok(()));
    assert_eq!(zip_lambda_parameters(&[list, lambda]), Err(ZipParamsError::Pattern));
    assert_eq!(zip_lambda_parameters(&[list, lambda, list]), Err(ZipParamsError::Pattern));
    assert_eq!(zip_lambda_parameters(&[view, list, lambda]), Err(ZipParamsError::NotAList(0)));
    assert_eq!(zip_lambda_parameters(&[list, view, lambda]), Err(ZipParamsError::NotAList(1)));
}

/// Runs the fold's actions the way the UDF does, with `+` as the merge lambda and `* 10` as the
/// finish lambda, over accumulators that start at zero.
fn run_fold(offsets: ListOffsets, nulls: &[bool], values: &[i64], finish: bool) -> (Vec<Option<i64>>, Vec<&'static str>) {
    let mut fold = ReduceFold::new(&offsets, nulls, finish);
    let mut acc: Vec<Option<i64>> = vec![Some(0); nulls.len()];
    let mut trace = Vec::new();
    loop {
        match fold.next_action() {
            FoldAction::Merge { active, positions } => {
                trace.push("merge");
                for i in 0..acc.len() {
                    if active[i] {
                        let element = values[positions[i].unwrap() as usize];
                        acc[i] = acc[i].map(|a| a + element);
                    }
                }
            }
            FoldAction::Finish => {
                trace.push("finish");
                acc = acc.iter().map(|a| a.map(|v| v * 10)).collect();
            }
            FoldAction::NullRows(mask) => {
                trace.push("null");
                for i in 0..acc.len() {
                    if mask[i] {
                        acc[i] = None;
                    }
                }
            }
            FoldAction::Done => break,
        }
    }
    assert_eq!(fold.stage, FoldStage::Done);
    (acc, trace)
}

#[test]
fn reduce_fold_actions() {
    // Rows: [1, 2, 3], NULL, [], [4].
    let offsets = ListOffsets::Regular(vec![0, 3, 3, 3, 4]);
    let nulls = [false, true, false, false];
    let values = [1, 2, 3, 4];
    let (acc, trace) = run_fold(offsets.clone(), &nulls, &values, true);
    assert_eq!(acc, vec![Some(60), None, Some(0), Some(40)]);
    assert_eq!(trace, vec!["merge", "merge", "merge", "finish", "null"]);
    let (acc, trace) = run_fold(offsets, &nulls, &values, false);
    assert_eq!(acc, vec![Some(6), None, Some(0), Some(4)]);
    assert_eq!(trace, vec!["merge", "merge", "merge", "null"]);
}

#[test]
fn reduce_fold_without_elements_or_nulls() {
    // No element at all: no merge step, the finish lambda still runs once.
    let (acc, trace) = run_fold(ListOffsets::Large(vec![7, 7, 7]), &[false, false], &[], true);
    assert_eq!(acc, vec![Some(0), Some(0)]);
    assert_eq!(trace, vec!["finish"]);
    let (acc, trace) = run_fold(ListOffsets::Regular(vec![0, 2]), &[false], &[5, 6], false);
    assert_eq!(acc, vec![Some(11)]);
    assert_eq!(trace, vec!["merge", "merge"]);
    // Once done, the fold stays done.
    let mut fold = ReduceFold::new(&ListOffsets::Regular(vec![0]), &[], false);
    assert!(matches!(fold.next_action(), FoldAction::Done));
    assert!(matches!(fold.next_action(), FoldAction::Done));
}
