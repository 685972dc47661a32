# sail_function

Spark-compatible SQL functions for DataFusion, with their logic verified by Verus.

- `src/` is the verified library. Each module states its behaviour as `requires`/`ensures`
  contracts over mathematical models (`Seq`, `int`) and proves it:
  - `rounding`, `interval_scale`, `ym_interval_scale`: scaling ANSI intervals by an integral
    number with exact arithmetic, HALF_UP rounding and errors on overflow and on a zero
    divisor; the coercion of the scaling number's type.
  - `list_layout`: the plain shape of Arrow list arrays (offsets, row nulls, list kinds) and
    the argument checks shared by the higher-order functions.
  - `exists_forall`, `array_reduce`, `array_transform`, `zip_with`, `transform_expr`: the
    row-by-row logic of `exists`, `forall`, `aggregate`/`reduce`, `transform`, `zip_with` and
    the expression-based `transform`.
  - `datetime`, `interval_literal`: date, timestamp and interval literals, parsed from bytes.
  - Functions named `law_*` are proof functions that state properties of the library as a
    whole (a division undoes a multiplication, `forall` is `not exists not`, ...).
- `app/` binds the library to DataFusion: the UDF structs, Arrow array conversion, lambda
  evaluation, and the floating-point scaling that Verus cannot reason about.
- `tests/` runs the library on concrete values.
