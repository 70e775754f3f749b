// Behaviour of the built-in functions, family by family, through the registry rows.

// Test harness: an IEEE double number domain and an in-memory workbook.

use charlie_ast::expr::{ArrayView, CellAddr, RangeAddr, Resolver, SheetId};
use charlie_ast::value::{Number, Order, Shape};

type Value = charlie_ast::value::Value<F>;
type Expr = charlie_ast::expr::Expr<F>;

/// A double-precision spreadsheet number.
#[derive(Clone, Copy, Debug)]
struct F(f64);

impl PartialEq for F {
    fn eq(&self, other: &F) -> bool {
        self.0.to_bits() == other.0.to_bits()
    }
}

impl Number for F {
    // Doubles represent every integer of at most 53 bits exactly, so the law holds.
    fn law_exact_integers(_i: i64, _j: i64) {}
    // Doubles order as a partial order with NaN incomparable to everything.
    fn law_order(_a: F, _b: F, _c: F) {}
    // Doubles hold every integer of at most 53 bits exactly, so rounding keeps it.
    fn law_integral(_i: i64) {}
    fn spec_from_int(i: i64) -> F {
        F(i as f64)
    }
    fn spec_order(self, o: F) -> Option<Order> {
        self.order(o)
    }
    fn spec_plus(self, o: F) -> F {
        self.plus(o)
    }
    fn spec_minus(self, o: F) -> F {
        self.minus(o)
    }
    fn spec_times(self, o: F) -> F {
        self.times(o)
    }
    fn spec_over(self, o: F) -> F {
        self.over(o)
    }
    fn spec_finite(self) -> bool {
        self.finite()
    }
    fn spec_negate(self) -> F {
        self.negate()
    }
    fn spec_magnitude(self) -> F {
        self.magnitude()
    }
    fn spec_square_root(self) -> F {
        self.square_root()
    }
    fn spec_power(self, e: F) -> F {
        self.power(e)
    }
    fn spec_ten_to(e: i32) -> F {
        F::ten_to(e)
    }
    fn spec_floor_of(self) -> F {
        self.floor_of()
    }
    fn spec_ceil_of(self) -> F {
        self.ceil_of()
    }
    fn spec_trunc_of(self) -> F {
        self.trunc_of()
    }
    fn spec_round_of(self) -> F {
        self.round_of()
    }
    fn spec_sign_negative(self) -> bool {
        self.sign_negative()
    }
    fn spec_ln(self) -> F {
        self.ln()
    }
    fn spec_log10(self) -> F {
        self.log10()
    }
    fn spec_exp(self) -> F {
        self.exp()
    }
    fn spec_trunc_int(self) -> i64 {
        self.trunc_int()
    }
    fn spec_floor_int(self) -> i64 {
        self.floor_int()
    }
    fn spec_trunc_u64(self) -> u64 {
        self.trunc_u64()
    }
    fn spec_from_u128(i: u128) -> F {
        F::from_u128(i)
    }
    fn from_int(i: i64) -> F {
        F(i as f64)
    }
    fn plus(self, o: F) -> F {
        F(self.0 + o.0)
    }
    fn minus(self, o: F) -> F {
        F(self.0 - o.0)
    }
    fn times(self, o: F) -> F {
        F(self.0 * o.0)
    }
    fn over(self, o: F) -> F {
        F(self.0 / o.0)
    }
    fn negate(self) -> F {
        F(-self.0)
    }
    fn magnitude(self) -> F {
        F(self.0.abs())
    }
    fn power(self, e: F) -> F {
        F(self.0.powf(e.0))
    }
    fn ten_to(e: i32) -> F {
        F(10f64.powi(e))
    }
    fn square_root(self) -> F {
        F(self.0.sqrt())
    }
    fn floor_of(self) -> F {
        F(self.0.floor())
    }
    fn ceil_of(self) -> F {
        F(self.0.ceil())
    }
    fn trunc_of(self) -> F {
        F(self.0.trunc())
    }
    fn round_of(self) -> F {
        F(self.0.round())
    }
    fn finite(self) -> bool {
        self.0.is_finite()
    }
    fn sign_negative(self) -> bool {
        self.0.is_sign_negative()
    }
    fn ln(self) -> F {
        F(self.0.ln())
    }
    fn log10(self) -> F {
        F(self.0.log10())
    }
    fn exp(self) -> F {
        F(self.0.exp())
    }
    fn order(self, o: F) -> Option<Order> {
        match self.0.partial_cmp(&o.0) {
            Some(std::cmp::Ordering::Less) => Some(Order::Less),
            Some(std::cmp::Ordering::Equal) => Some(Order::Equal),
            Some(std::cmp::Ordering::Greater) => Some(Order::Greater),
            None => None,
        }
    }
    fn trunc_int(self) -> i64 {
        self.0.trunc() as i64
    }
    fn floor_int(self) -> i64 {
        self.0.floor() as i64
    }
    fn trunc_u64(self) -> u64 {
        self.0.trunc() as u64
    }
    fn from_u128(i: u128) -> F {
        F(i as f64)
    }
    fn parse_text(text: &str) -> Option<F> {
        match text.parse::<f64>() {
            Ok(n) if n.is_finite() => Some(F(n)),
            _ => None,
        }
    }
    fn general_text(self) -> String {
        format!("{}", self.0)
    }
    fn whole_text(self) -> String {
        format!("{:.0}", self.0)
    }
}

/// The clock every test workbook is pinned to: 2023-01-01T12:00.
const PINNED_NOW_SERIAL: f64 = 44927.5;

/// The draw every test workbook's randomness source is pinned to.
const PINNED_RAND_UNIT: f64 = 0.75;

/// An in-memory workbook: a default sheet `Sheet1` plus named sheets, each a row-major grid.
struct Grid {
    sheets: Vec<(String, usize, Vec<Value>)>,
    formulas: Vec<(usize, u32, u32)>,
}

impl Grid {
    fn new(cols: usize, cells: Vec<Value>) -> Grid {
        Grid { sheets: vec![("Sheet1".to_string(), cols, cells)], formulas: Vec::new() }
    }
    #[allow(dead_code)]
    fn with_formula(mut self, sheet: usize, col: u32, row: u32) -> Grid {
        self.formulas.push((sheet, col, row));
        self
    }
    fn with_sheet(mut self, name: &str, cols: usize, cells: Vec<Value>) -> Grid {
        self.sheets.push((name.to_string(), cols, cells));
        self
    }
    fn cell(&self, sheet: usize, col: u32, row: u32) -> Value {
        let (_, cols, cells) = &self.sheets[sheet];
        let (c, r) = (col as usize, row as usize);
        if c < *cols {
            if let Some(v) = cells.get(r * cols + c) {
                return v.duplicate();
            }
        }
        Value::Blank
    }
}

impl Resolver<F> for Grid {
    fn spec_sheet_id(&self, name: &String) -> Option<SheetId> {
        self.sheet_id(name)
    }
    fn spec_is_formula(&self, cell: CellAddr) -> bool {
        self.is_formula(cell)
    }
    fn spec_value(&self, cell: CellAddr) -> Value {
        self.value(cell)
    }
    fn spec_range(&self, range: RangeAddr) -> ArrayView<F> {
        self.range(range)
    }
    fn sheet_id(&self, name: &str) -> Option<SheetId> {
        self.sheets
            .iter()
            .position(|(n, _, _)| n.eq_ignore_ascii_case(name))
            .map(|i| SheetId(i as u32))
    }
    fn value(&self, cell: CellAddr) -> Value {
        let s = cell.sheet.map(|s| s.0 as usize).unwrap_or(0);
        self.cell(s, cell.col, cell.row)
    }
    fn range(&self, range: RangeAddr) -> ArrayView<F> {
        let s = range.sheet.map(|s| s.0 as usize).unwrap_or(0);
        let rows = range.end_row - range.start_row + 1;
        let cols = range.end_col - range.start_col + 1;
        let mut cells = Vec::new();
        for r in range.start_row..=range.end_row {
            for c in range.start_col..=range.end_col {
                cells.push(self.cell(s, c, r));
            }
        }
        ArrayView { shape: Shape { rows, cols }, cells }
    }
    fn now_serial(&self) -> F {
        F(PINNED_NOW_SERIAL)
    }
    fn rand_unit(&self) -> F {
        F(PINNED_RAND_UNIT)
    }
    fn is_formula(&self, cell: CellAddr) -> bool {
        let s = cell.sheet.map(|s| s.0 as usize).unwrap_or(0);
        self.formulas.contains(&(s, cell.col, cell.row))
    }
}

use charlie_ast::diag::{DiagCode, Span};
use charlie_ast::eval::eval;
use charlie_ast::expr::{BinOp, FuncId, RangeNode, RefNode};
use charlie_ast::func::{def, funcs, lookup};
use charlie_ast::value::ErrKind;
use charlie_ast::eval::EvalCtx;
use charlie_ast::func::regression::{covariance_p_fn, covariance_s_fn};
use charlie_ast::func::rounding::{ceiling_math_fn, floor_math_fn};
use charlie_ast::func::ranking::{mode_mult_fn, percentile_exc_fn, percentrank_exc_fn, quartile_exc_fn, rank_avg_fn};
use charlie_ast::func::random::{rand_fn, randbetween_fn};

fn num(n: f64) -> Expr {
    Expr::Lit(Value::Number(F(n)))
}
fn call(name: &str, args: Vec<Expr>) -> Expr {
    Expr::Call(lookup(name).expect("known function"), args)
}
/// A full-column range A1:A{rows} over a 1-wide grid (contiguous in the stub).
fn col_range(rows: u32) -> Expr {
    Expr::Range(RangeNode {
        start_col: 0,
        start_row: 0,
        end_col: 0,
        end_row: rows - 1,
        sheet: None,
    })
}

#[test]
fn tests_registry_is_self_consistent() {
    // Names unique (case-insensitively), index == FuncId, arity bounds well-formed.
    for (i, f) in funcs().iter().enumerate() {
        assert_eq!(
            lookup(f.name),
            Some(FuncId(i as u32)),
            "name maps to its index"
        );
        assert_eq!(def(FuncId(i as u32)).unwrap().name, f.name);
        if let Some(max) = f.max_args {
            assert!(max >= f.min_args, "{}: max >= min", f.name);
        }
        assert!(
            f.name.chars().all(|c| c.is_ascii_uppercase()),
            "UPPERCASE name"
        );
    }
    let mut names: Vec<String> = funcs().iter().map(|f| f.name.to_ascii_uppercase()).collect();
    let before = names.len();
    names.sort();
    names.dedup();
    assert_eq!(before, names.len(), "function names are unique");
    // case-insensitive lookup
    assert_eq!(lookup("sum"), lookup("SUM"));
    assert_eq!(lookup("NoSuchFn"), None);
}

#[test]
fn tests_sum_average_count_over_a_range_with_mixed_cells() {
    // A1..A5 = 1, "x"(text), TRUE(bool), <blank>, 4  -> numbers are {1, 4}
    let g = Grid::new(
        1,
        vec![
            Value::Number(F(1.0)),
            Value::Text("x".into()),
            Value::Bool(true),
            Value::Blank,
            Value::Number(F(4.0)),
        ],
    );
    assert_eq!(
        eval(&call("SUM", vec![col_range(5)]), &g),
        Value::Number(F(5.0))
    );
    assert_eq!(
        eval(&call("AVERAGE", vec![col_range(5)]), &g),
        Value::Number(F(2.5))
    );
    // COUNT counts only the two numbers (in-range bool/text ignored).
    assert_eq!(
        eval(&call("COUNT", vec![col_range(5)]), &g),
        Value::Number(F(2.0))
    );
}

#[test]
fn tests_direct_vs_in_range_coercion_asymmetry() {
    let g = Grid::new(1, vec![Value::Blank]);
    // Direct booleans/numeric-text coerce and count.
    assert_eq!(
        eval(
            &call(
                "SUM",
                vec![
                    num(1.0),
                    Expr::Lit(Value::Bool(true)),
                    Expr::Lit(Value::Text("2".into()))
                ]
            ),
            &g
        ),
        Value::Number(F(4.0))
    );
    assert_eq!(
        eval(
            &call(
                "COUNT",
                vec![
                    Expr::Lit(Value::Bool(true)),
                    Expr::Lit(Value::Text("3".into()))
                ]
            ),
            &g
        ),
        Value::Number(F(2.0))
    );
    // A direct non-numeric text is #VALUE! for SUM.
    assert_eq!(
        eval(&call("SUM", vec![Expr::Lit(Value::Text("x".into()))]), &g),
        Value::Error(ErrKind::Value)
    );
}

#[test]
fn tests_sum_propagates_but_count_ignores_errors() {
    let g = Grid::new(
        1,
        vec![
            Value::Number(F(1.0)),
            Value::Error(ErrKind::Div0),
            Value::Number(F(2.0)),
        ],
    );
    assert_eq!(
        eval(&call("SUM", vec![col_range(3)]), &g),
        Value::Error(ErrKind::Div0)
    );
    // COUNT never returns an error from its data.
    assert_eq!(
        eval(&call("COUNT", vec![col_range(3)]), &g),
        Value::Number(F(2.0))
    );
}

#[test]
fn tests_if_is_lazy_and_iferror_catches() {
    let g = Grid::new(1, vec![Value::Blank]);
    // IF(TRUE, 1, 1/0) -> 1 (else branch not evaluated).
    let div0 = || Expr::Binary(
        BinOp::Div,
        Box::new(num(1.0)),
        Box::new(num(0.0)),
    );
    let e = call(
        "IF",
        vec![Expr::Lit(Value::Bool(true)), num(1.0), div0()],
    );
    assert_eq!(eval(&e, &g), Value::Number(F(1.0)));
    // Two-arg false -> FALSE.
    let e = call("IF", vec![Expr::Lit(Value::Bool(false)), num(1.0)]);
    assert_eq!(eval(&e, &g), Value::Bool(false));
    // IFERROR(1/0, 99) -> 99.
    let e = call("IFERROR", vec![div0(), num(99.0)]);
    assert_eq!(eval(&e, &g), Value::Number(F(99.0)));
    // IFERROR passes a non-error through.
    let e = call("IFERROR", vec![num(7.0), num(99.0)]);
    assert_eq!(eval(&e, &g), Value::Number(F(7.0)));
}

#[test]
fn tests_and_or_semantics() {
    let g = Grid::new(1, vec![Value::Blank]);
    assert_eq!(
        eval(
            &call("AND", vec![Expr::Lit(Value::Bool(true)), num(1.0)]),
            &g
        ),
        Value::Bool(true)
    );
    assert_eq!(
        eval(
            &call("AND", vec![Expr::Lit(Value::Bool(true)), num(0.0)]),
            &g
        ),
        Value::Bool(false)
    );
    assert_eq!(
        eval(
            &call(
                "OR",
                vec![num(0.0), Expr::Lit(Value::Bool(false)), num(1.0)]
            ),
            &g
        ),
        Value::Bool(true)
    );
    // error propagates
    assert_eq!(
        eval(
            &call(
                "AND",
                vec![
                    Expr::Lit(Value::Error(ErrKind::Ref)),
                    Expr::Lit(Value::Bool(true))
                ]
            ),
            &g
        ),
        Value::Error(ErrKind::Ref)
    );
}

#[test]
fn tests_abs_and_round() {
    let g = Grid::new(1, vec![Value::Blank]);
    assert_eq!(eval(&call("ABS", vec![num(-5.0)]), &g), Value::Number(F(5.0)));
    assert_eq!(
        eval(&call("ROUND", vec![num(1.2345), num(2.0)]), &g),
        Value::Number(F(1.23))
    );
    // ties away from zero
    assert_eq!(
        eval(&call("ROUND", vec![num(2.5), num(0.0)]), &g),
        Value::Number(F(3.0))
    );
    assert_eq!(
        eval(&call("ROUND", vec![num(-2.5), num(0.0)]), &g),
        Value::Number(F(-3.0))
    );
    // negative digits round left of the point
    assert_eq!(
        eval(&call("ROUND", vec![num(1234.0), num(-2.0)]), &g),
        Value::Number(F(1200.0))
    );
}

#[test]
fn tests_math_batch_scalar_semantics() {
    let g = Grid::new(1, vec![Value::Blank]);
    // MOD sign follows the divisor.
    assert_eq!(
        eval(&call("MOD", vec![num(7.0), num(3.0)]), &g),
        Value::Number(F(1.0))
    );
    assert_eq!(
        eval(&call("MOD", vec![num(7.0), num(-3.0)]), &g),
        Value::Number(F(-2.0))
    );
    assert_eq!(
        eval(&call("MOD", vec![num(-7.0), num(3.0)]), &g),
        Value::Number(F(2.0))
    );
    assert_eq!(
        eval(&call("MOD", vec![num(5.0), num(0.0)]), &g),
        Value::Error(ErrKind::Div0)
    );
    // INT floors toward −∞ (not toward zero).
    assert_eq!(eval(&call("INT", vec![num(-2.5)]), &g), Value::Number(F(-3.0)));
    assert_eq!(eval(&call("INT", vec![num(2.9)]), &g), Value::Number(F(2.0)));
    // SQRT of a negative is #NUM!.
    assert_eq!(eval(&call("SQRT", vec![num(16.0)]), &g), Value::Number(F(4.0)));
    assert_eq!(
        eval(&call("SQRT", vec![num(-4.0)]), &g),
        Value::Error(ErrKind::Num)
    );
    // POWER shares the operator's error mapping.
    assert_eq!(
        eval(&call("POWER", vec![num(2.0), num(10.0)]), &g),
        Value::Number(F(1024.0))
    );
    assert_eq!(
        eval(&call("POWER", vec![num(0.0), num(-1.0)]), &g),
        Value::Error(ErrKind::Div0)
    );
    assert_eq!(
        eval(&call("POWER", vec![num(-8.0), num(0.5)]), &g),
        Value::Error(ErrKind::Num)
    );
    // ROUNDUP away from zero; ROUNDDOWN toward zero; negative digits shift left.
    assert_eq!(
        eval(&call("ROUNDUP", vec![num(1.234), num(2.0)]), &g),
        Value::Number(F(1.24))
    );
    assert_eq!(
        eval(&call("ROUNDUP", vec![num(-1.234), num(2.0)]), &g),
        Value::Number(F(-1.24))
    );
    assert_eq!(
        eval(&call("ROUNDDOWN", vec![num(1.789), num(2.0)]), &g),
        Value::Number(F(1.78))
    );
    assert_eq!(
        eval(&call("ROUNDDOWN", vec![num(3.99999), num(0.0)]), &g),
        Value::Number(F(3.0))
    );
}

#[test]
fn tests_ceiling_floor_sign_and_zero_asymmetry() {
    let g = Grid::new(1, vec![Value::Blank]);
    // Away-from-zero / toward-zero to a multiple.
    assert_eq!(
        eval(&call("CEILING", vec![num(2.5), num(1.0)]), &g),
        Value::Number(F(3.0))
    );
    assert_eq!(
        eval(&call("FLOOR", vec![num(2.5), num(1.0)]), &g),
        Value::Number(F(2.0))
    );
    assert_eq!(
        eval(&call("CEILING", vec![num(-2.5), num(-2.0)]), &g),
        Value::Number(F(-4.0))
    );
    assert_eq!(
        eval(&call("FLOOR", vec![num(-2.5), num(-2.0)]), &g),
        Value::Number(F(-2.0))
    );
    // Different-signed args are #NUM! for both.
    assert_eq!(
        eval(&call("CEILING", vec![num(2.5), num(-1.0)]), &g),
        Value::Error(ErrKind::Num)
    );
    assert_eq!(
        eval(&call("FLOOR", vec![num(2.5), num(-1.0)]), &g),
        Value::Error(ErrKind::Num)
    );
    // Zero significance: CEILING → 0, FLOOR → #DIV/0! (the legacy asymmetry).
    assert_eq!(
        eval(&call("CEILING", vec![num(5.0), num(0.0)]), &g),
        Value::Number(F(0.0))
    );
    assert_eq!(
        eval(&call("FLOOR", vec![num(5.0), num(0.0)]), &g),
        Value::Error(ErrKind::Div0)
    );
}

#[test]
fn tests_product_and_sumproduct_semantics() {
    // PRODUCT over a range multiplies the numbers; a range with no numbers is 0.
    let g = Grid::new(
        1,
        vec![Value::Number(F(2.0)), Value::Number(F(3.0)), Value::Number(F(4.0))],
    );
    assert_eq!(
        eval(&call("PRODUCT", vec![col_range(3)]), &g),
        Value::Number(F(24.0))
    );
    // Direct-arg coercion mirrors SUM (bool → 1/0, numeric-text parses).
    assert_eq!(
        eval(
            &call(
                "PRODUCT",
                vec![
                    num(2.0),
                    Expr::Lit(Value::Bool(true)),
                    Expr::Lit(Value::Text("3".into()))
                ]
            ),
            &g
        ),
        Value::Number(F(6.0))
    );
    // Empty product (no numeric datum) is 0, not the 1 identity.
    let blank = Grid::new(1, vec![Value::Text("x".into()), Value::Blank]);
    assert_eq!(
        eval(&call("PRODUCT", vec![col_range(2)]), &blank),
        Value::Number(F(0.0))
    );
    // SUMPRODUCT multiplies aligned arrays then sums (array literals sidestep the whole-row
    // stub, which cannot window a single column of a multi-column grid).
    let col3 = |a: f64, b: f64, c: f64| {
        Expr::Lit(Value::Array(
            Shape { rows: 3, cols: 1 },
            vec![Value::Number(F(a)), Value::Number(F(b)), Value::Number(F(c))],
        ))
    };
    assert_eq!(
        eval(
            &call("SUMPRODUCT", vec![col3(1.0, 2.0, 3.0), col3(4.0, 5.0, 6.0)]),
            &g
        ),
        Value::Number(F(32.0))
    );
    // A shape mismatch (3×1 vs 2×1) is a static #VALUE!.
    let col2 = Expr::Lit(Value::Array(
        Shape { rows: 2, cols: 1 },
        vec![Value::Number(F(4.0)), Value::Number(F(5.0))],
    ));
    assert_eq!(
        eval(&call("SUMPRODUCT", vec![col3(1.0, 2.0, 3.0), col2]), &g),
        Value::Error(ErrKind::Value)
    );
    // A non-numeric cell counts as 0 (so an unfiltered text zeroes its product term).
    let with_text = Expr::Lit(Value::Array(
        Shape { rows: 3, cols: 1 },
        vec![
            Value::Number(F(2.0)),
            Value::Text("x".into()),
            Value::Number(F(4.0)),
        ],
    ));
    assert_eq!(
        eval(
            &call("SUMPRODUCT", vec![with_text, col3(5.0, 5.0, 5.0)]),
            &g
        ),
        Value::Number(F(30.0))
    );
}

#[test]
fn tests_dispatch_guards_synthesized_off_arity_and_bad_id_without_panicking() {
    // A synthesized off-arity Call (the parser would refuse these via BadArity) must NOT panic
    // the positional built-ins — dispatch's arity gate turns each into #VALUE!.
    let g = Grid::new(1, vec![Value::Blank]);
    // IF/IFERROR/ROUND handed too few args; ABS handed too many.
    assert_eq!(eval(&call("IF", vec![]), &g), Value::Error(ErrKind::Value));
    assert_eq!(
        eval(&call("IFERROR", vec![num(1.0)]), &g),
        Value::Error(ErrKind::Value)
    );
    assert_eq!(
        eval(&call("ROUND", vec![num(1.0)]), &g),
        Value::Error(ErrKind::Value)
    );
    assert_eq!(
        eval(&call("ABS", vec![num(1.0), num(2.0)]), &g),
        Value::Error(ErrKind::Value)
    );
    // An out-of-range (synthesized) FuncId stays #NAME? — the sibling guard.
    assert_eq!(
        eval(&Expr::Call(FuncId(9999), vec![]), &g),
        Value::Error(ErrKind::Name)
    );
}

#[test]
fn tests_min_max_range_vs_direct_arg_asymmetry() {
    // In a RANGE, text/blank/logical are ignored (only numbers) — so TRUE does NOT count as 1.
    let g = Grid::new(
        1,
        vec![
            Value::Number(F(-5.0)),
            Value::Bool(true),
            Value::Blank,
            Value::Number(F(-2.0)),
        ],
    );
    assert_eq!(
        eval(&call("MIN", vec![col_range(4)]), &g),
        Value::Number(F(-5.0))
    );
    assert_eq!(
        eval(&call("MAX", vec![col_range(4)]), &g),
        Value::Number(F(-2.0))
    );
    // DIRECT booleans/numeric-text coerce (TRUE -> 1), the asymmetry's other half.
    let b = Grid::new(1, vec![Value::Blank]);
    assert_eq!(
        eval(
            &call(
                "MAX",
                vec![num(-5.0), Expr::Lit(Value::Bool(true)), num(-2.0)]
            ),
            &b
        ),
        Value::Number(F(1.0))
    );
    assert_eq!(
        eval(
            &call("MIN", vec![num(3.0), Expr::Lit(Value::Text("2".into()))]),
            &b
        ),
        Value::Number(F(2.0))
    );
    // No numeric datum -> 0 (Excel), and an in-range error propagates.
    let empty = Grid::new(1, vec![Value::Text("x".into()), Value::Blank]);
    assert_eq!(
        eval(&call("MIN", vec![col_range(2)]), &empty),
        Value::Number(F(0.0))
    );
    let with_err = Grid::new(1, vec![Value::Number(F(5.0)), Value::Error(ErrKind::Div0)]);
    assert_eq!(
        eval(&call("MAX", vec![col_range(2)]), &with_err),
        Value::Error(ErrKind::Div0)
    );
}

#[test]
fn tests_median_even_averages_two_middles_and_empty_is_num() {
    // Even count {1,2,3,4} -> (2+3)/2 = 2.5 (in-range text ignored).
    let g = Grid::new(
        1,
        vec![
            Value::Number(F(1.0)),
            Value::Number(F(2.0)),
            Value::Text("x".into()),
            Value::Number(F(3.0)),
            Value::Number(F(4.0)),
        ],
    );
    assert_eq!(
        eval(&call("MEDIAN", vec![col_range(5)]), &g),
        Value::Number(F(2.5))
    );
    // Odd count -> the exact middle.
    let odd = Grid::new(
        1,
        vec![
            Value::Number(F(5.0)),
            Value::Number(F(3.0)),
            Value::Number(F(1.0)),
            Value::Number(F(4.0)),
            Value::Number(F(2.0)),
        ],
    );
    assert_eq!(
        eval(&call("MEDIAN", vec![col_range(5)]), &odd),
        Value::Number(F(3.0))
    );
    // No numeric datum -> #NUM! (distinct from MIN/MAX's 0); an error propagates.
    let empty = Grid::new(1, vec![Value::Text("x".into()), Value::Blank]);
    assert_eq!(
        eval(&call("MEDIAN", vec![col_range(2)]), &empty),
        Value::Error(ErrKind::Num)
    );
    let with_err = Grid::new(1, vec![Value::Number(F(1.0)), Value::Error(ErrKind::Ref)]);
    assert_eq!(
        eval(&call("MEDIAN", vec![col_range(2)]), &with_err),
        Value::Error(ErrKind::Ref)
    );
}

#[test]
fn tests_rank_descending_default_ties_share_lowest_and_missing_is_na() {
    // {10,8,8,5}: RANK(8) descending -> 2 (one value strictly greater); both 8s share rank 2.
    let g = Grid::new(
        1,
        vec![
            Value::Number(F(10.0)),
            Value::Number(F(8.0)),
            Value::Number(F(8.0)),
            Value::Number(F(5.0)),
        ],
    );
    assert_eq!(
        eval(&call("RANK", vec![num(8.0), col_range(4)]), &g),
        Value::Number(F(2.0))
    );
    // Ascending (non-zero order): RANK(10, …, 1) -> 4 (three strictly less).
    assert_eq!(
        eval(&call("RANK", vec![num(10.0), col_range(4), num(1.0)]), &g),
        Value::Number(F(4.0))
    );
    // A number not present in ref is #N/A.
    assert_eq!(
        eval(&call("RANK", vec![num(7.0), col_range(4)]), &g),
        Value::Error(ErrKind::Na)
    );
    // A non-numeric `number` argument is #VALUE!.
    assert_eq!(
        eval(
            &call(
                "RANK",
                vec![Expr::Lit(Value::Text("x".into())), col_range(4)]
            ),
            &g
        ),
        Value::Error(ErrKind::Value)
    );
}

#[test]
fn tests_counta_and_countblank_over_a_range() {
    // A1..A5 = 1, "", "x", <blank>, #N/A. COUNTA counts non-empty: 1, "", "x", #N/A = 4
    // (the empty-string "" is non-empty; error counts; only the blank does not).
    let g = Grid::new(
        1,
        vec![
            Value::Number(F(1.0)),
            Value::Text(String::new()),
            Value::Text("x".into()),
            Value::Blank,
            Value::Error(ErrKind::Na),
        ],
    );
    assert_eq!(
        eval(&call("COUNTA", vec![col_range(5)]), &g),
        Value::Number(F(4.0))
    );
    // COUNTBLANK counts the empty: the "" AND the <blank> = 2 (error/number/text not blank).
    assert_eq!(
        eval(&call("COUNTBLANK", vec![col_range(5)]), &g),
        Value::Number(F(2.0))
    );
    // COUNTA of a direct blank does not count it; a direct value does.
    let b = Grid::new(1, vec![Value::Blank]);
    assert_eq!(
        eval(&call("COUNTA", vec![Expr::Lit(Value::Blank), num(1.0)]), &b),
        Value::Number(F(1.0))
    );
}

#[test]
fn tests_ifs_first_true_wins_lazily_and_none_is_na() {
    let g = Grid::new(1, vec![Value::Blank]);
    let t = || Expr::Lit(Value::Bool(true));
    let f = || Expr::Lit(Value::Bool(false));
    let div0 = || {
        Expr::Binary(
            BinOp::Div,
            Box::new(num(1.0)),
            Box::new(num(0.0)),
        )
    };
    // First TRUE test's value wins; the earlier FALSE pair's value is skipped.
    assert_eq!(
        eval(
            &call("IFS", vec![f(), num(1.0), t(), num(2.0), t(), num(3.0)]),
            &g
        ),
        Value::Number(F(2.0))
    );
    // Lazy: the unreached value (1/0) after the first match is never evaluated.
    assert_eq!(
        eval(&call("IFS", vec![t(), num(1.0), t(), div0()]), &g),
        Value::Number(F(1.0))
    );
    // No TRUE test -> #N/A.
    assert_eq!(
        eval(&call("IFS", vec![f(), num(1.0), f(), num(2.0)]), &g),
        Value::Error(ErrKind::Na)
    );
    // A test that errors propagates (evaluated before any match).
    assert_eq!(
        eval(&call("IFS", vec![div0(), num(1.0), t(), num(2.0)]), &g),
        Value::Error(ErrKind::Div0)
    );
    // An odd argument count (dangling test) is a structural #VALUE!.
    assert_eq!(
        eval(&call("IFS", vec![f(), num(1.0), t()]), &g),
        Value::Error(ErrKind::Value)
    );
}

#[test]
fn tests_not_coerces_and_propagates() {
    let g = Grid::new(1, vec![Value::Blank]);
    assert_eq!(
        eval(&call("NOT", vec![Expr::Lit(Value::Bool(true))]), &g),
        Value::Bool(false)
    );
    // A non-zero number coerces to TRUE -> NOT is FALSE; zero -> TRUE.
    assert_eq!(eval(&call("NOT", vec![num(5.0)]), &g), Value::Bool(false));
    assert_eq!(eval(&call("NOT", vec![num(0.0)]), &g), Value::Bool(true));
    // A non-logical text is #VALUE!; an error propagates.
    assert_eq!(
        eval(&call("NOT", vec![Expr::Lit(Value::Text("x".into()))]), &g),
        Value::Error(ErrKind::Value)
    );
    assert_eq!(
        eval(&call("NOT", vec![Expr::Lit(Value::Error(ErrKind::Na))]), &g),
        Value::Error(ErrKind::Na)
    );
}

#[test]
fn tests_ifna_catches_only_na() {
    let g = Grid::new(1, vec![Value::Blank]);
    // Catches #N/A.
    assert_eq!(
        eval(
            &call(
                "IFNA",
                vec![Expr::Lit(Value::Error(ErrKind::Na)), num(99.0)]
            ),
            &g
        ),
        Value::Number(F(99.0))
    );
    // Passes a normal value through.
    assert_eq!(
        eval(&call("IFNA", vec![num(42.0), num(99.0)]), &g),
        Value::Number(F(42.0))
    );
    // Does NOT catch a different error (the distinction from IFERROR).
    assert_eq!(
        eval(
            &call(
                "IFNA",
                vec![Expr::Lit(Value::Error(ErrKind::Div0)), num(99.0)]
            ),
            &g
        ),
        Value::Error(ErrKind::Div0)
    );
}

#[test]
fn tests_switch_matches_first_with_optional_default() {
    let g = Grid::new(1, vec![Value::Blank]);
    let txt = |s: &str| Expr::Lit(Value::Text(s.into()));
    // Matches the second value.
    assert_eq!(
        eval(
            &call(
                "SWITCH",
                vec![
                    num(2.0),
                    num(1.0),
                    txt("one"),
                    num(2.0),
                    txt("two"),
                    num(3.0),
                    txt("three")
                ]
            ),
            &g
        ),
        Value::Text("two".into())
    );
    // No match + trailing default -> the default; no match + no default -> #N/A.
    assert_eq!(
        eval(
            &call("SWITCH", vec![num(9.0), num(1.0), txt("one"), txt("none")]),
            &g
        ),
        Value::Text("none".into())
    );
    assert_eq!(
        eval(&call("SWITCH", vec![num(9.0), num(1.0), txt("one")]), &g),
        Value::Error(ErrKind::Na)
    );
    // Text matching is case-insensitive (Excel `=`).
    assert_eq!(
        eval(
            &call("SWITCH", vec![txt("hello"), txt("HELLO"), num(1.0)]),
            &g
        ),
        Value::Number(F(1.0))
    );
    // The expression's error propagates.
    let div0 = Expr::Binary(
        BinOp::Div,
        Box::new(num(1.0)),
        Box::new(num(0.0)),
    );
    assert_eq!(
        eval(
            &call("SWITCH", vec![div0, num(1.0), txt("one"), txt("def")]),
            &g
        ),
        Value::Error(ErrKind::Div0)
    );
}

#[test]
fn tests_arity_bounds() {
    let sum = def(lookup("SUM").unwrap()).unwrap();
    assert!(!sum.arity_ok(0));
    assert!(sum.arity_ok(1) && sum.arity_ok(99));
    let iff = def(lookup("IF").unwrap()).unwrap();
    assert!(!iff.arity_ok(1) && iff.arity_ok(2) && iff.arity_ok(3) && !iff.arity_ok(4));
}

// ---- Text batch v1 ------------------------------------------------------------------------

fn txt(s: &str) -> Expr {
    Expr::Lit(Value::Text(s.into()))
}
fn text(v: Value) -> String {
    match v {
        Value::Text(t) => t,
        other => panic!("expected Text, got {other:?}"),
    }
}

#[test]
fn tests_concat_and_textjoin() {
    let g = Grid::new(1, vec![Value::Blank]);
    // CONCAT stringifies each arg (number → general text, bool → TRUE/FALSE).
    assert_eq!(
        eval(
            &call(
                "CONCAT",
                vec![txt("a"), num(1.0), Expr::Lit(Value::Bool(true))]
            ),
            &g
        ),
        Value::Text("a1TRUE".into())
    );
    // CONCAT flattens a range (in-range blank → "").
    let r = Grid::new(
        1,
        vec![Value::Text("x".into()), Value::Blank, Value::Number(F(2.0))],
    );
    assert_eq!(
        eval(&call("CONCAT", vec![col_range(3)]), &r),
        Value::Text("x2".into())
    );
    // TEXTJOIN with ignore_empty=TRUE drops the blank; delimiter between kept pieces.
    assert_eq!(
        eval(
            &call(
                "TEXTJOIN",
                vec![txt("-"), Expr::Lit(Value::Bool(true)), col_range(3)]
            ),
            &r
        ),
        Value::Text("x-2".into())
    );
    // ignore_empty=FALSE keeps the empty slot (doubled delimiter).
    assert_eq!(
        eval(
            &call(
                "TEXTJOIN",
                vec![txt("-"), Expr::Lit(Value::Bool(false)), col_range(3)]
            ),
            &r
        ),
        Value::Text("x--2".into())
    );
    // An error anywhere propagates.
    let e = Grid::new(1, vec![Value::Number(F(1.0)), Value::Error(ErrKind::Div0)]);
    assert_eq!(
        eval(&call("CONCAT", vec![col_range(2)]), &e),
        Value::Error(ErrKind::Div0)
    );
}

#[test]
fn tests_left_right_mid_len_clamp_and_coerce() {
    let g = Grid::new(1, vec![Value::Blank]);
    assert_eq!(
        text(eval(&call("LEFT", vec![txt("hello"), num(2.0)]), &g)),
        "he"
    );
    assert_eq!(text(eval(&call("LEFT", vec![txt("hi")]), &g)), "h"); // default 1
    assert_eq!(
        text(eval(&call("RIGHT", vec![txt("hello"), num(3.0)]), &g)),
        "llo"
    );
    // Out-of-range count clamps to the whole string.
    assert_eq!(
        text(eval(&call("LEFT", vec![txt("hi"), num(99.0)]), &g)),
        "hi"
    );
    // Negative count is #VALUE!.
    assert_eq!(
        eval(&call("LEFT", vec![txt("hi"), num(-1.0)]), &g),
        Value::Error(ErrKind::Value)
    );
    // MID from 1-based start, clamped take; start past end → "".
    assert_eq!(
        text(eval(
            &call("MID", vec![txt("hello"), num(2.0), num(3.0)]),
            &g
        )),
        "ell"
    );
    assert_eq!(
        text(eval(
            &call("MID", vec![txt("hello"), num(10.0), num(3.0)]),
            &g
        )),
        ""
    );
    assert_eq!(
        eval(&call("MID", vec![txt("hi"), num(0.0), num(1.0)]), &g),
        Value::Error(ErrKind::Value)
    );
    // LEN over the general text of non-text values.
    assert_eq!(
        eval(&call("LEN", vec![txt("hello")]), &g),
        Value::Number(F(5.0))
    );
    assert_eq!(
        eval(&call("LEN", vec![Expr::Lit(Value::Bool(true))]), &g),
        Value::Number(F(4.0))
    );
}

#[test]
fn tests_find_is_case_sensitive_search_is_wildcard() {
    let g = Grid::new(1, vec![Value::Blank]);
    // FIND: 1-based, case-SENSITIVE.
    assert_eq!(
        eval(&call("FIND", vec![txt("l"), txt("hello")]), &g),
        Value::Number(F(3.0))
    );
    assert_eq!(
        eval(&call("FIND", vec![txt("l"), txt("hello"), num(4.0)]), &g),
        Value::Number(F(4.0))
    );
    // Case mismatch → not found → #VALUE!.
    assert_eq!(
        eval(&call("FIND", vec![txt("H"), txt("hello")]), &g),
        Value::Error(ErrKind::Value)
    );
    // Empty needle returns start_num.
    assert_eq!(
        eval(&call("FIND", vec![txt(""), txt("abc")]), &g),
        Value::Number(F(1.0))
    );
    // SEARCH: case-INSENSITIVE and wildcards.
    assert_eq!(
        eval(&call("SEARCH", vec![txt("H"), txt("hello")]), &g),
        Value::Number(F(1.0))
    );
    assert_eq!(
        eval(&call("SEARCH", vec![txt("l?o"), txt("hello")]), &g),
        Value::Number(F(3.0))
    );
    assert_eq!(
        eval(&call("SEARCH", vec![txt("e*o"), txt("hello")]), &g),
        Value::Number(F(2.0))
    );
    // A literal `?` via `~?`.
    assert_eq!(
        eval(&call("SEARCH", vec![txt("~?"), txt("a?b")]), &g),
        Value::Number(F(2.0))
    );
    // start_num past len+1 is #VALUE!.
    assert_eq!(
        eval(&call("FIND", vec![txt("a"), txt("abc"), num(5.0)]), &g),
        Value::Error(ErrKind::Value)
    );
}

#[test]
fn tests_search_multi_star_matches_and_terminates_fast() {
    // Regression: the wildcard matcher is iterative (single-star backtrack), so a MULTI-star
    // pattern is O(text·pattern), not the old exponential recursive backtracking (a ReDoS). Both
    // arms complete instantly; the no-match arm is the one that used to blow up.
    let g = Grid::new(1, vec![Value::Blank]);
    // Multi-star, leftmost anchored match at position 1.
    assert_eq!(
        eval(&call("SEARCH", vec![txt("h*o*d"), txt("hello world")]), &g),
        Value::Number(F(1.0))
    );
    // The pathological shape: many stars over a long run with NO final match → #VALUE!, fast.
    let hay = "a".repeat(64);
    assert_eq!(
        eval(&call("SEARCH", vec![txt("*a*a*a*a*a*z"), txt(&hay)]), &g),
        Value::Error(ErrKind::Value)
    );
}

#[test]
fn tests_substitute_and_replace() {
    let g = Grid::new(1, vec![Value::Blank]);
    // SUBSTITUTE all occurrences.
    assert_eq!(
        text(eval(
            &call("SUBSTITUTE", vec![txt("a-b-c"), txt("-"), txt("+")]),
            &g
        )),
        "a+b+c"
    );
    // SUBSTITUTE the Nth only.
    assert_eq!(
        text(eval(
            &call(
                "SUBSTITUTE",
                vec![txt("a-b-c"), txt("-"), txt("+"), num(2.0)]
            ),
            &g
        )),
        "a-b+c"
    );
    // Empty old_text returns text unchanged.
    assert_eq!(
        text(eval(
            &call("SUBSTITUTE", vec![txt("abc"), txt(""), txt("X")]),
            &g
        )),
        "abc"
    );
    // instance_num < 1 is #VALUE!.
    assert_eq!(
        eval(
            &call("SUBSTITUTE", vec![txt("a-b"), txt("-"), txt("+"), num(0.0)]),
            &g
        ),
        Value::Error(ErrKind::Value)
    );
    // REPLACE positional splice.
    assert_eq!(
        text(eval(
            &call("REPLACE", vec![txt("abcdef"), num(2.0), num(3.0), txt("X")]),
            &g
        )),
        "aXef"
    );
    // start past end appends.
    assert_eq!(
        text(eval(
            &call("REPLACE", vec![txt("ab"), num(9.0), num(0.0), txt("!")]),
            &g
        )),
        "ab!"
    );
}

#[test]
fn tests_trim_upper_lower() {
    let g = Grid::new(1, vec![Value::Blank]);
    assert_eq!(text(eval(&call("TRIM", vec![txt("  a   b  ")]), &g)), "a b");
    assert_eq!(text(eval(&call("UPPER", vec![txt("aBc")]), &g)), "ABC");
    assert_eq!(text(eval(&call("LOWER", vec![txt("aBc")]), &g)), "abc");
}

#[test]
fn tests_text_format_subset_and_error_paths() {
    let g = Grid::new(1, vec![Value::Blank]);
    assert_eq!(
        text(eval(&call("TEXT", vec![num(12.5), txt("0.00")]), &g)),
        "12.50"
    );
    assert_eq!(
        text(eval(&call("TEXT", vec![num(-7.0), txt("0.00")]), &g)),
        "-7.00"
    );
    assert_eq!(
        text(eval(&call("TEXT", vec![num(1234567.0), txt("#,##0")]), &g)),
        "1,234,567"
    );
    assert_eq!(
        text(eval(&call("TEXT", vec![num(0.5), txt("0%")]), &g)),
        "50%"
    );
    assert_eq!(
        text(eval(&call("TEXT", vec![num(0.1234), txt("0.00%")]), &g)),
        "12.34%"
    );
    assert_eq!(
        text(eval(&call("TEXT", vec![num(5.0), txt("General")]), &g)),
        "5"
    );
    // The 1900 date system with the leap-year bug: serial 60 is the phantom 1900-02-29,
    // serial 61 is 1900-03-01, serial 44927 is 2023-01-01.
    assert_eq!(
        text(eval(
            &call("TEXT", vec![num(44927.0), txt("yyyy-mm-dd")]),
            &g
        )),
        "2023-01-01"
    );
    assert_eq!(
        text(eval(&call("TEXT", vec![num(60.0), txt("yyyy-mm-dd")]), &g)),
        "1900-02-29"
    );
    assert_eq!(
        text(eval(&call("TEXT", vec![num(61.0), txt("yyyy-mm-dd")]), &g)),
        "1900-03-01"
    );
    // Serial-band gate (regression: a large serial used to overflow `civil_from_days` — a panic
    // under overflow-checks, a wrapped nonsense date in release — instead of a located refusal).
    // The band `[1, MAX_SERIAL]` is refused as `#VALUE!` on BOTH edges plus `NaN`, never rendered.
    assert_eq!(
        eval(&call("TEXT", vec![num(1e300), txt("yyyy-mm-dd")]), &g),
        Value::Error(ErrKind::Value)
    );
    assert_eq!(
        eval(&call("TEXT", vec![num(2_958_466.0), txt("yyyy-mm-dd")]), &g),
        Value::Error(ErrKind::Value)
    );
    assert_eq!(
        eval(&call("TEXT", vec![num(0.0), txt("yyyy-mm-dd")]), &g),
        Value::Error(ErrKind::Value)
    );
    // The exact upper edge (9999-12-31 = serial 2958465) still renders.
    assert_eq!(
        text(eval(
            &call("TEXT", vec![num(2_958_465.0), txt("yyyy-mm-dd")]),
            &g
        )),
        "9999-12-31"
    );
    // Error propagation and a non-numeric value into a numeric format.
    assert_eq!(
        eval(
            &call(
                "TEXT",
                vec![Expr::Lit(Value::Error(ErrKind::Div0)), txt("0.00")]
            ),
            &g
        ),
        Value::Error(ErrKind::Div0)
    );
    assert_eq!(
        eval(&call("TEXT", vec![txt("abc"), txt("0.00")]), &g),
        Value::Error(ErrKind::Value)
    );
}

#[test]
fn tests_text_unsupported_literal_format_is_a_parse_refusal() {
    let text_row = def(lookup("TEXT").unwrap()).unwrap();
    // =TEXT(1,"0.00"): a supported literal format is accepted.
    assert!(text_row.validate_args(&[num(1.0), txt("0.00")], Span::new(0, 16)).is_ok());
    // =TEXT(1,"$#,##0.00"): an unsupported literal format is a located `unsupported-format`
    // refusal, not a wrong guess.
    let d = text_row.validate_args(&[num(1.0), txt("$#,##0.00")], Span::new(0, 21)).unwrap_err();
    assert_eq!(d.code, DiagCode::UnsupportedFormat);
}

#[test]
fn tests_text_nonliteral_format_is_accepted_and_deferred_to_eval() {
    // =TEXT(1,A1): a computed format cannot be vetted statically, so it is not refused up front.
    let a1 = Expr::Ref(RefNode { col: 0, row: 0, col_abs: false, row_abs: false, sheet: None });
    let expr = call("TEXT", vec![num(1.0), a1]);
    let text_row = def(lookup("TEXT").unwrap()).unwrap();
    match &expr {
        Expr::Call(_, args) => assert!(text_row.validate_args(args, Span::new(0, 11)).is_ok()),
        _ => unreachable!(),
    }
    // A1 resolves to a SUPPORTED format -> computes.
    let supported = Grid::new(1, vec![Value::Text("0.00".to_string())]);
    assert_eq!(eval(&expr, &supported), Value::Text("1.00".to_string()));
    // A1 resolves to an UNSUPPORTED format -> the deferred `#VALUE!`.
    let unsupported = Grid::new(1, vec![Value::Text("$#,##0.00".to_string())]);
    assert_eq!(eval(&expr, &unsupported), Value::Error(ErrKind::Value));
}

#[test]
fn tests_date_builds_and_normalizes_a_serial() {
    let g = Grid::new(1, vec![Value::Blank]);
    // A plain in-range date (44927 = 2023-01-01, cross-checked against the TEXT date anchor).
    assert_eq!(
        eval(&call("DATE", vec![num(2023.0), num(1.0), num(1.0)]), &g),
        Value::Number(F(44927.0))
    );
    // Month roll-over: DATE(2008,14,2) = 2009-02-02 (independently 39846).
    assert_eq!(
        eval(&call("DATE", vec![num(2008.0), num(14.0), num(2.0)]), &g),
        Value::Number(F(39846.0))
    );
    // Day 0 rolls back to the last day of the previous month: DATE(2023,3,0) = 2023-02-28 (44985).
    assert_eq!(
        eval(&call("DATE", vec![num(2023.0), num(3.0), num(0.0)]), &g),
        Value::Number(F(44985.0))
    );
    // The two-digit year rule folds 0..=1899 by +1900: DATE(108,1,2) = 2008-01-02 (39449).
    assert_eq!(
        eval(&call("DATE", vec![num(108.0), num(1.0), num(2.0)]), &g),
        Value::Number(F(39449.0))
    );
    // A year past 9999 is #NUM!.
    assert_eq!(
        eval(&call("DATE", vec![num(10000.0), num(1.0), num(1.0)]), &g),
        Value::Error(ErrKind::Num)
    );
}

#[test]
fn tests_year_month_day_read_a_serial_with_the_leap_bug() {
    let g = Grid::new(1, vec![Value::Blank]);
    // 44927 = 2023-01-01.
    assert_eq!(
        eval(&call("YEAR", vec![num(44927.0)]), &g),
        Value::Number(F(2023.0))
    );
    assert_eq!(
        eval(&call("MONTH", vec![num(44927.0)]), &g),
        Value::Number(F(1.0))
    );
    assert_eq!(
        eval(&call("DAY", vec![num(44957.0)]), &g),
        Value::Number(F(31.0)) // 2023-01-31
    );
    // The replicated leap-year bug: serial 60 is the fictional 1900-02-29.
    assert_eq!(
        eval(&call("YEAR", vec![num(60.0)]), &g),
        Value::Number(F(1900.0))
    );
    assert_eq!(
        eval(&call("MONTH", vec![num(60.0)]), &g),
        Value::Number(F(2.0))
    );
    assert_eq!(eval(&call("DAY", vec![num(60.0)]), &g), Value::Number(F(29.0)));
    // A serial before the epoch (< 1) is out of the supported domain → #NUM!.
    assert_eq!(
        eval(&call("YEAR", vec![num(0.0)]), &g),
        Value::Error(ErrKind::Num)
    );
}

#[test]
fn tests_edate_clamps_to_end_of_month() {
    let g = Grid::new(1, vec![Value::Blank]);
    // One month forward from 2023-01-01 (44927) = 2023-02-01 (44958).
    assert_eq!(
        eval(&call("EDATE", vec![num(44927.0), num(1.0)]), &g),
        Value::Number(F(44958.0))
    );
    // Clamp: one month from 2020-01-31 (43861) lands on 2020-02-29 (43890, a leap February).
    assert_eq!(
        eval(&call("EDATE", vec![num(43861.0), num(1.0)]), &g),
        Value::Number(F(43890.0))
    );
    // Negative months go back: two months before 2023-01-01 = 2022-11-01 (44866).
    assert_eq!(
        eval(&call("EDATE", vec![num(44927.0), num(-2.0)]), &g),
        Value::Number(F(44866.0))
    );
    // A non-numeric start is #VALUE!.
    assert_eq!(
        eval(
            &call("EDATE", vec![Expr::Lit(Value::Text("x".into())), num(1.0)]),
            &g
        ),
        Value::Error(ErrKind::Value)
    );
}

#[test]
fn tests_datedif_units() {
    let g = Grid::new(1, vec![Value::Blank]);
    let dd = |a: f64, b: f64, u: &str| {
        call(
            "DATEDIF",
            vec![num(a), num(b), Expr::Lit(Value::Text(u.into()))],
        )
    };
    // Whole days.
    assert_eq!(eval(&dd(44927.0, 44957.0, "D"), &g), Value::Number(F(30.0)));
    // Complete years / months between 2020-01-01 (43831) and 2023-06-01 (45078).
    assert_eq!(eval(&dd(43831.0, 45078.0, "Y"), &g), Value::Number(F(3.0)));
    assert_eq!(eval(&dd(43831.0, 45078.0, "M"), &g), Value::Number(F(41.0)));
    // MD: 2020-01-15 (43845) → 2020-03-20 (43910), day remainder = 5.
    assert_eq!(eval(&dd(43845.0, 43910.0, "MD"), &g), Value::Number(F(5.0)));
    // YM: 2020-01-15 → 2023-06-20 (45097), month remainder = 5.
    assert_eq!(eval(&dd(43845.0, 45097.0, "YM"), &g), Value::Number(F(5.0)));
    // YD: 2020-01-15 → 2023-03-20 (45005), day-of-year remainder = 65.
    assert_eq!(eval(&dd(43845.0, 45005.0, "YD"), &g), Value::Number(F(65.0)));
    // The unit folds case.
    assert_eq!(eval(&dd(44927.0, 44957.0, "d"), &g), Value::Number(F(30.0)));
    // start > end is #NUM!.
    assert_eq!(
        eval(&dd(44957.0, 44927.0, "D"), &g),
        Value::Error(ErrKind::Num)
    );
    // An unknown unit is #NUM!.
    assert_eq!(
        eval(&dd(44927.0, 44957.0, "Q"), &g),
        Value::Error(ErrKind::Num)
    );
}

#[test]
fn tests_today_and_now_read_the_pinned_clock() {
    // The test grid pins the clock to PINNED_NOW_SERIAL (44927.5 = 2023-01-01T12:00).
    let g = Grid::new(1, vec![Value::Blank]);
    assert_eq!(eval(&call("TODAY", vec![]), &g), Value::Number(F(44927.0)));
    assert_eq!(eval(&call("NOW", vec![]), &g), Value::Number(F(44927.5)));
    // NOW carries the time-of-day fraction TODAY floors off.
    let frac = Expr::Binary(
        BinOp::Sub,
        Box::new(call("NOW", vec![])),
        Box::new(call("TODAY", vec![])),
    );
    assert_eq!(eval(&frac, &g), Value::Number(F(0.5)));
}

#[test]
fn tests_today_and_now_are_the_registry_volatiles() {
    // Exactly TODAY and NOW carry `volatile: true`; every other row is pure.
    for f in funcs() {
        let expect = matches!(f.name, "TODAY" | "NOW");
        assert_eq!(f.volatile, expect, "{} volatility", f.name);
    }
}

// --- Lookup batch ------------------------------------------------------------------------

/// A literal array argument of a given shape (row-major), sidestepping the whole-row test-Grid
/// stub so a single column/row can be presented cleanly.
fn arr(rows: u32, cols: u32, cells: Vec<Value>) -> Expr {
    Expr::Lit(Value::Array(Shape { rows, cols }, cells))
}
fn n(x: f64) -> Value {
    Value::Number(F(x))
}
fn t(s: &str) -> Value {
    Value::Text(s.into())
}

#[test]
fn index_scalar_whole_row_whole_col_and_bounds() {
    let g = Grid::new(1, vec![Value::Blank]);
    // A 2×3 block {1,2,3;4,5,6}.
    let block = || arr(2, 3, vec![n(1.0), n(2.0), n(3.0), n(4.0), n(5.0), n(6.0)]);
    // Single cell (row 2, col 3) = 6.
    assert_eq!(
        eval(&call("INDEX", vec![block(), num(2.0), num(3.0)]), &g),
        n(6.0)
    );
    // Whole row 1 → 1×3 array.
    assert_eq!(
        eval(&call("INDEX", vec![block(), num(1.0), num(0.0)]), &g),
        Value::Array(
            Shape { rows: 1, cols: 3 },
            vec![n(1.0), n(2.0), n(3.0)]
        )
    );
    // Whole col 2 → 2×1 array.
    assert_eq!(
        eval(&call("INDEX", vec![block(), num(0.0), num(2.0)]), &g),
        Value::Array(
            Shape { rows: 2, cols: 1 },
            vec![n(2.0), n(5.0)]
        )
    );
    // Out-of-bounds row → #REF!.
    assert_eq!(
        eval(&call("INDEX", vec![block(), num(3.0), num(1.0)]), &g),
        Value::Error(ErrKind::Ref)
    );
    // Negative index → #VALUE!.
    assert_eq!(
        eval(&call("INDEX", vec![block(), num(-1.0), num(1.0)]), &g),
        Value::Error(ErrKind::Value)
    );
    // 2-arg over a single column indexes the row; a blank cell reads as 0.
    let colv = arr(3, 1, vec![n(10.0), Value::Blank, n(30.0)]);
    assert_eq!(eval(&call("INDEX", vec![colv, num(2.0)]), &g), n(0.0));
}

#[test]
fn match_exact_and_approximate_both_directions() {
    let g = Grid::new(1, vec![Value::Blank]);
    let asc = || arr(4, 1, vec![n(10.0), n(20.0), n(30.0), n(40.0)]);
    // Approx ascending (default match_type 1): largest <= 25 is 20 → position 2.
    assert_eq!(eval(&call("MATCH", vec![num(25.0), asc()]), &g), n(2.0));
    // Needle below every key → #N/A.
    assert_eq!(
        eval(&call("MATCH", vec![num(5.0), asc(), num(1.0)]), &g),
        Value::Error(ErrKind::Na)
    );
    // Exact (match_type 0).
    assert_eq!(
        eval(&call("MATCH", vec![num(30.0), asc(), num(0.0)]), &g),
        n(3.0)
    );
    assert_eq!(
        eval(&call("MATCH", vec![num(31.0), asc(), num(0.0)]), &g),
        Value::Error(ErrKind::Na)
    );
    // Approx descending (match_type -1): smallest >= 25 is 30 → position 2.
    let desc = arr(4, 1, vec![n(40.0), n(30.0), n(20.0), n(10.0)]);
    assert_eq!(
        eval(&call("MATCH", vec![num(25.0), desc, num(-1.0)]), &g),
        n(2.0)
    );
    // Exact text needle honors wildcards, case-insensitively, first hit.
    let words = arr(2, 1, vec![t("apple"), t("banana")]);
    assert_eq!(
        eval(
            &call("MATCH", vec![Expr::Lit(t("BAN*")), words, num(0.0)]),
            &g
        ),
        n(2.0)
    );
    // A 2-D array is #N/A.
    let two_d = arr(2, 2, vec![n(1.0), n(2.0), n(3.0), n(4.0)]);
    assert_eq!(
        eval(&call("MATCH", vec![num(1.0), two_d, num(0.0)]), &g),
        Value::Error(ErrKind::Na)
    );
}

#[test]
fn vlookup_approximate_default_and_exact() {
    let g = Grid::new(1, vec![Value::Blank]);
    // {1,"one";2,"two";3,"three"} — first column sorted ascending.
    let table = || {
        arr(
            3,
            2,
            vec![n(1.0), t("one"), n(2.0), t("two"), n(3.0), t("three")],
        )
    };
    // Approx default: exact key present.
    assert_eq!(
        eval(&call("VLOOKUP", vec![num(2.0), table(), num(2.0)]), &g),
        t("two")
    );
    // Approx default: 2.5 falls to the largest key <= 2.5 → row of key 2.
    assert_eq!(
        eval(&call("VLOOKUP", vec![num(2.5), table(), num(2.0)]), &g),
        t("two")
    );
    // Exact (FALSE): 2.5 is not present → #N/A.
    assert_eq!(
        eval(
            &call(
                "VLOOKUP",
                vec![num(2.5), table(), num(2.0), Expr::Lit(Value::Bool(false))]
            ),
            &g
        ),
        Value::Error(ErrKind::Na)
    );
    // col_index past the table width → #REF!.
    assert_eq!(
        eval(&call("VLOOKUP", vec![num(2.0), table(), num(3.0)]), &g),
        Value::Error(ErrKind::Ref)
    );
    // A needle below every key → #N/A (approximate).
    assert_eq!(
        eval(&call("VLOOKUP", vec![num(0.0), table(), num(2.0)]), &g),
        Value::Error(ErrKind::Na)
    );
}

#[test]
fn xlookup_exact_default_if_not_found_and_approximate_modes() {
    let g = Grid::new(1, vec![Value::Blank]);
    let keys = || arr(3, 1, vec![n(1.0), n(2.0), n(3.0)]);
    let vals = || arr(3, 1, vec![t("a"), t("b"), t("c")]);
    // Exact by default.
    assert_eq!(
        eval(&call("XLOOKUP", vec![num(2.0), keys(), vals()]), &g),
        t("b")
    );
    // Miss returns the if_not_found argument (evaluated only on the miss).
    assert_eq!(
        eval(
            &call(
                "XLOOKUP",
                vec![num(9.0), keys(), vals(), Expr::Lit(t("none"))]
            ),
            &g
        ),
        t("none")
    );
    // Miss with no if_not_found → #N/A.
    assert_eq!(
        eval(&call("XLOOKUP", vec![num(9.0), keys(), vals()]), &g),
        Value::Error(ErrKind::Na)
    );
    // match_mode 1 = exact-or-next-LARGER: 2.5 → key 3 → "c".
    assert_eq!(
        eval(
            &call(
                "XLOOKUP",
                vec![num(2.5), keys(), vals(), Expr::Lit(t("x")), num(1.0)]
            ),
            &g
        ),
        t("c")
    );
    // match_mode -1 = exact-or-next-SMALLER: 2.5 → key 2 → "b".
    assert_eq!(
        eval(
            &call(
                "XLOOKUP",
                vec![num(2.5), keys(), vals(), Expr::Lit(t("x")), num(-1.0)]
            ),
            &g
        ),
        t("b")
    );
    // Reverse search returns the LAST exact hit on duplicate keys.
    let dupk = arr(3, 1, vec![n(5.0), n(5.0), n(5.0)]);
    let dupv = arr(3, 1, vec![t("first"), t("mid"), t("last")]);
    assert_eq!(
        eval(
            &call(
                "XLOOKUP",
                vec![num(5.0), dupk, dupv, Expr::Lit(t("x")), num(0.0), num(-1.0)]
            ),
            &g
        ),
        t("last")
    );
    // Mismatched array lengths → #VALUE!.
    let short = arr(2, 1, vec![t("a"), t("b")]);
    assert_eq!(
        eval(&call("XLOOKUP", vec![num(1.0), keys(), short]), &g),
        Value::Error(ErrKind::Value)
    );
}

#[test]
fn choose_selects_lazily_and_bounds_check() {
    let g = Grid::new(1, vec![Value::Blank]);
    assert_eq!(
        eval(
            &call(
                "CHOOSE",
                vec![num(2.0), Expr::Lit(t("a")), Expr::Lit(t("b"))]
            ),
            &g
        ),
        t("b")
    );
    // Only the selected branch is evaluated: an error in an unpicked branch never surfaces.
    let bad = Expr::Binary(
        BinOp::Div,
        Box::new(num(1.0)),
        Box::new(num(0.0)),
    );
    assert_eq!(
        eval(&call("CHOOSE", vec![num(1.0), num(7.0), bad]), &g),
        n(7.0)
    );
    // Out-of-range index → #VALUE!.
    assert_eq!(
        eval(&call("CHOOSE", vec![num(3.0), num(7.0), num(8.0)]), &g),
        Value::Error(ErrKind::Value)
    );
}

#[test]
fn row_and_column_read_the_reference_node() {
    let g = Grid::new(1, vec![Value::Blank]);
    let b3 = || Expr::Ref(RefNode {
        col: 1,
        row: 2,
        col_abs: false,
        row_abs: false,
        sheet: None,
    });
    assert_eq!(eval(&call("ROW", vec![b3()]), &g), n(3.0));
    assert_eq!(eval(&call("COLUMN", vec![b3()]), &g), n(2.0));
    // A range reads its top-left.
    let rng = || Expr::Range(RangeNode {
        start_col: 2,
        start_row: 4,
        end_col: 5,
        end_row: 9,
        sheet: None,
    });
    assert_eq!(eval(&call("ROW", vec![rng()]), &g), n(5.0));
    assert_eq!(eval(&call("COLUMN", vec![rng()]), &g), n(3.0));
    // A non-reference argument is #VALUE!.
    assert_eq!(
        eval(&call("ROW", vec![num(5.0)]), &g),
        Value::Error(ErrKind::Value)
    );
}

#[test]
fn indirect_and_offset_are_reserved_ref_function_refusals() {
    // Both names are registered with a refusing parse-time gate: every call is a located
    // reserved-ref-function refusal on the call name (offset 1, right after `=`), never
    // unknown-function, never a value.
    for (name, args, name_len) in [
        ("INDIRECT", vec![Expr::Lit(t("A1"))], 8),
        ("OFFSET", vec![num(0.0), num(1.0), num(1.0)], 6),
    ] {
        let row = def(lookup(name).expect("registered")).unwrap();
        let err = row.validate_args(&args, Span::new(1, 1 + name_len)).expect_err("reserved ref function refuses");
        assert_eq!(err.code, DiagCode::ReservedRefFunction, "{name}");
        assert_eq!(err.span.start, 1, "located on the name: {name}");
        assert_eq!(err.span.end, 1 + name_len, "spans the name: {name}");
    }
    // The refusal fires regardless of argument count.
    let indirect = def(lookup("INDIRECT").unwrap()).unwrap();
    assert_eq!(
        indirect.validate_args(&Vec::<Expr>::new(), Span::new(1, 9)).expect_err("still refuses").code,
        DiagCode::ReservedRefFunction
    );
}

#[test]
fn information_predicates_report_operand_kind() {
    let g = Grid::new(1, vec![Value::Blank]);
    // ISBLANK: a blank literal is TRUE; a number/text/empty-string is FALSE.
    assert_eq!(
        eval(&call("ISBLANK", vec![Expr::Lit(Value::Blank)]), &g),
        Value::Bool(true)
    );
    assert_eq!(
        eval(&call("ISBLANK", vec![num(0.0)]), &g),
        Value::Bool(false)
    );
    assert_eq!(
        eval(&call("ISBLANK", vec![Expr::Lit(t(""))]), &g),
        Value::Bool(false)
    );
    // ISNUMBER / ISTEXT discriminate the scalar kinds (a bool is NEITHER a number nor text).
    assert_eq!(
        eval(&call("ISNUMBER", vec![num(3.5)]), &g),
        Value::Bool(true)
    );
    assert_eq!(
        eval(&call("ISNUMBER", vec![Expr::Lit(t("3"))]), &g),
        Value::Bool(false)
    );
    assert_eq!(
        eval(&call("ISTEXT", vec![Expr::Lit(t("hi"))]), &g),
        Value::Bool(true)
    );
    assert_eq!(
        eval(&call("ISTEXT", vec![num(3.0)]), &g),
        Value::Bool(false)
    );
    assert_eq!(
        eval(&call("ISNUMBER", vec![Expr::Lit(Value::Bool(true))]), &g),
        Value::Bool(false)
    );
    assert_eq!(
        eval(&call("ISTEXT", vec![Expr::Lit(Value::Bool(true))]), &g),
        Value::Bool(false)
    );
}

#[test]
fn iserror_is_error_transparent_not_propagating() {
    let g = Grid::new(1, vec![Value::Blank]);
    // The defining case: an operand that EVALUATES to an error is CAUGHT (TRUE), never returned.
    let div0 = Expr::Binary(
        BinOp::Div,
        Box::new(num(1.0)),
        Box::new(num(0.0)),
    );
    assert_eq!(eval(&call("ISERROR", vec![div0]), &g), Value::Bool(true));
    // A literal #N/A is an error too (ISERROR catches #N/A, unlike the deferred ISERR).
    assert_eq!(
        eval(
            &call("ISERROR", vec![Expr::Lit(Value::Error(ErrKind::Na))]),
            &g
        ),
        Value::Bool(true)
    );
    // NA() itself is an error operand -> ISERROR(NA()) is TRUE.
    assert_eq!(
        eval(&call("ISERROR", vec![call("NA", vec![])]), &g),
        Value::Bool(true)
    );
    // A non-error operand is FALSE — the error path is not spuriously taken.
    assert_eq!(
        eval(&call("ISERROR", vec![num(5.0)]), &g),
        Value::Bool(false)
    );
    // NA() with no argument mints #N/A directly (the sole error-PRODUCING member).
    assert_eq!(eval(&call("NA", vec![]), &g), Value::Error(ErrKind::Na));
}

#[test]
fn type_reports_the_code_and_is_error_and_array_transparent() {
    let g = Grid::new(1, vec![Value::Blank]);
    assert_eq!(eval(&call("TYPE", vec![num(1.0)]), &g), n(1.0));
    assert_eq!(eval(&call("TYPE", vec![Expr::Lit(t("x"))]), &g), n(2.0));
    assert_eq!(
        eval(&call("TYPE", vec![Expr::Lit(Value::Bool(true))]), &g),
        n(4.0)
    );
    // An error operand reports 16 — TRANSPARENT, not propagated as the error itself.
    assert_eq!(eval(&call("TYPE", vec![call("NA", vec![])]), &g), n(16.0));
    // An empty cell reports as a number (1), Excel-faithful.
    assert_eq!(
        eval(&call("TYPE", vec![Expr::Lit(Value::Blank)]), &g),
        n(1.0)
    );
    // A multi-cell array operand reports 64 — inspected AS an array, not scalarized to #VALUE!.
    assert_eq!(
        eval(&call("TYPE", vec![arr(1, 2, vec![n(1.0), n(2.0)])]), &g),
        n(64.0)
    );
    // And the IS-predicates see an array as "not a number/text/blank/error" -> FALSE (transparent).
    assert_eq!(
        eval(&call("ISERROR", vec![arr(1, 2, vec![n(1.0), n(2.0)])]), &g),
        Value::Bool(false)
    );
    assert_eq!(
        eval(&call("ISNUMBER", vec![arr(1, 2, vec![n(1.0), n(2.0)])]), &g),
        Value::Bool(false)
    );
}


// --- Financial batch (PMT / NPV / IRR) ---------------------------------------------------

#[test]
fn pmt_rate_zero_is_linear_and_nonzero_is_the_annuity_form() {
    let g = Grid::new(1, vec![Value::Blank]);
    // rate == 0 -> linear: -(pv+fv)/nper = -(-1000+0)/10 = 100.
    assert_eq!(
        eval(&call("PMT", vec![num(0.0), num(10.0), num(-1000.0)]), &g),
        n(100.0)
    );
    // rate != 0 annuity: PMT(0.5, 2, -100) = 90 exactly (1.5^2 = 2.25 is dyadic-exact).
    assert_eq!(
        eval(&call("PMT", vec![num(0.5), num(2.0), num(-100.0)]), &g),
        n(90.0)
    );
    // With a future value: PMT(0.5, 2, -100, -50) = 110.
    assert_eq!(
        eval(
            &call("PMT", vec![num(0.5), num(2.0), num(-100.0), num(-50.0)]),
            &g
        ),
        n(110.0)
    );
    // type = 1 (annuity due): PMT(0.5, 2, -100, 0, 1) = 60.
    assert_eq!(
        eval(
            &call(
                "PMT",
                vec![num(0.5), num(2.0), num(-100.0), num(0.0), num(1.0)]
            ),
            &g
        ),
        n(60.0)
    );
}

#[test]
fn pmt_zero_denominator_is_div0_and_errors_propagate() {
    let g = Grid::new(1, vec![Value::Blank]);
    // nper == 0 with rate == 0 -> #DIV/0! (linear branch divides by nper).
    assert_eq!(
        eval(&call("PMT", vec![num(0.0), num(0.0), num(100.0)]), &g),
        Value::Error(ErrKind::Div0)
    );
    // nper == 0 with rate != 0 -> denom (temp-1) is 0 -> #DIV/0!.
    assert_eq!(
        eval(&call("PMT", vec![num(0.1), num(0.0), num(100.0)]), &g),
        Value::Error(ErrKind::Div0)
    );
    // A propagated error argument (1/0) short-circuits.
    let bad = call(
        "PMT",
        vec![call("SQRT", vec![num(-1.0)]), num(2.0), num(1.0)],
    );
    assert_eq!(eval(&bad, &g), Value::Error(ErrKind::Num));
}

#[test]
fn npv_discounts_from_period_one_over_args_and_ranges() {
    let g = Grid::new(1, vec![Value::Blank]);
    // NPV(1, 100, 200, 300) = 100/2 + 200/4 + 300/8 = 50 + 50 + 37.5 = 137.5 (all dyadic-exact).
    assert_eq!(
        eval(
            &call("NPV", vec![num(1.0), num(100.0), num(200.0), num(300.0)]),
            &g
        ),
        n(137.5)
    );
    // Same values inside a range flatten row-major and discount identically.
    let grid = Grid::new(1, vec![n(100.0), n(200.0), n(300.0)]);
    assert_eq!(
        eval(&call("NPV", vec![num(1.0), col_range(3)]), &grid),
        n(137.5)
    );
    // An error value propagates.
    let bad = call(
        "NPV",
        vec![num(1.0), num(100.0), call("SQRT", vec![num(-1.0)])],
    );
    assert_eq!(eval(&bad, &g), Value::Error(ErrKind::Num));
}

#[test]
fn irr_converges_to_the_root_matching_the_independent_oracle() {
    let g = Grid::new(1, vec![Value::Blank]);
    // IRR([-100, 30, 40, 50]) — the hand-Newton oracle's exact f64 (finance_oracle.py; NPV at
    // this rate is ~7e-15, cross-checked vs numpy np.roots = 0.088963394693350… to ~1e-12).
    let cf = arr(1, 4, vec![n(-100.0), n(30.0), n(40.0), n(50.0)]);
    assert_eq!(
        eval(&call("IRR", vec![cf]), &g),
        n(0.088_963_394_693_349_92)
    );
}

#[test]
fn irr_non_convergent_cashflows_are_num_never_a_hang() {
    let g = Grid::new(1, vec![Value::Blank]);
    // All-positive flows have no sign change -> no real IRR. Newton diverges, bisection finds no
    // bracket, and the HARD iteration caps guarantee a prompt #NUM! rather than an infinite loop.
    let allpos = arr(1, 3, vec![n(100.0), n(200.0), n(300.0)]);
    assert_eq!(
        eval(&call("IRR", vec![allpos]), &g),
        Value::Error(ErrKind::Num)
    );
    // A single flow can never bracket a root either -> #NUM! (guarded before iterating).
    let one = arr(1, 1, vec![n(-100.0)]);
    assert_eq!(
        eval(&call("IRR", vec![one]), &g),
        Value::Error(ErrKind::Num)
    );
    // A supplied guess still converges to the SAME root (to within tolerance — a different start
    // trajectory can settle on a neighbouring ULP, so this is a closeness check, not bit-exact).
    let cf = arr(1, 4, vec![n(-100.0), n(30.0), n(40.0), n(50.0)]);
    match eval(&call("IRR", vec![cf, num(0.3)]), &g) {
        Value::Number(F(x)) => assert!(
            (x - 0.088_963_394_693_349_92).abs() < 1e-9,
            "converged to {x} from guess 0.3"
        ),
        other => panic!("expected a converged rate, got {other:?}"),
    }
}

#[test]
fn finance_arity_is_gated_by_dispatch() {
    let g = Grid::new(1, vec![Value::Blank]);
    // PMT needs 3..=5 args — 2 is under-arity -> #VALUE! from the dispatch arity gate.
    assert_eq!(
        eval(&call("PMT", vec![num(0.1), num(2.0)]), &g),
        Value::Error(ErrKind::Value)
    );
    // NPV needs >= 2 — a lone rate is under-arity.
    assert_eq!(
        eval(&call("NPV", vec![num(0.1)]), &g),
        Value::Error(ErrKind::Value)
    );
}

// --- Dynamic arrays ----------------------------------------------------------------------

fn b(x: bool) -> Value {
    Value::Bool(x)
}
fn lit(v: Value) -> Expr {
    Expr::Lit(v)
}

#[test]
fn transpose_swaps_axes_and_propagates_errors() {
    let g = Grid::new(1, vec![Value::Blank]);
    let block = arr(2, 3, vec![n(1.0), n(2.0), n(3.0), n(4.0), Value::Blank, t("x")]);
    assert_eq!(
        eval(&call("TRANSPOSE", vec![block]), &g),
        Value::Array(
            Shape { rows: 3, cols: 2 },
            vec![n(1.0), n(4.0), n(2.0), Value::Blank, n(3.0), t("x")]
        )
    );
    // A scalar is a 1×1 block.
    assert_eq!(
        eval(&call("TRANSPOSE", vec![num(7.0)]), &g),
        Value::Array(Shape { rows: 1, cols: 1 }, vec![n(7.0)])
    );
    assert_eq!(
        eval(&call("TRANSPOSE", vec![lit(Value::Error(ErrKind::Div0))]), &g),
        Value::Error(ErrKind::Div0)
    );
}

#[test]
fn sequence_counts_row_major_with_defaults_and_refuses_bad_shapes() {
    let g = Grid::new(1, vec![Value::Blank]);
    assert_eq!(
        eval(&call("SEQUENCE", vec![num(2.0), num(3.0)]), &g),
        Value::Array(
            Shape { rows: 2, cols: 3 },
            vec![n(1.0), n(2.0), n(3.0), n(4.0), n(5.0), n(6.0)]
        )
    );
    assert_eq!(
        eval(&call("SEQUENCE", vec![num(3.0)]), &g),
        Value::Array(Shape { rows: 3, cols: 1 }, vec![n(1.0), n(2.0), n(3.0)])
    );
    assert_eq!(
        eval(&call("SEQUENCE", vec![num(2.0), num(2.0), num(10.0), num(-2.5)]), &g),
        Value::Array(Shape { rows: 2, cols: 2 }, vec![n(10.0), n(7.5), n(5.0), n(2.5)])
    );
    // Dimensions truncate toward zero.
    assert_eq!(
        eval(&call("SEQUENCE", vec![num(2.9)]), &g),
        Value::Array(Shape { rows: 2, cols: 1 }, vec![n(1.0), n(2.0)])
    );
    assert_eq!(eval(&call("SEQUENCE", vec![num(-1.0)]), &g), Value::Error(ErrKind::Value));
    assert_eq!(eval(&call("SEQUENCE", vec![num(0.0)]), &g), Value::Error(ErrKind::Calc));
    assert_eq!(eval(&call("SEQUENCE", vec![num(2.0), num(0.0)]), &g), Value::Error(ErrKind::Calc));
    assert_eq!(eval(&call("SEQUENCE", vec![num(2000.0), num(1000.0)]), &g), Value::Error(ErrKind::Num));
    assert_eq!(eval(&call("SEQUENCE", vec![num(1e18), num(1e18)]), &g), Value::Error(ErrKind::Num));
    assert_eq!(
        eval(&call("SEQUENCE", vec![lit(Value::Error(ErrKind::Na))]), &g),
        Value::Error(ErrKind::Na)
    );
}

#[test]
fn sort_orders_rows_stably_with_blank_keys_last() {
    let g = Grid::new(1, vec![Value::Blank]);
    // {3,"c";1,"a";2,"b";1,"z"} sorted by column 1 ascending keeps the two 1-rows in input order.
    let table = || arr(4, 2, vec![n(3.0), t("c"), n(1.0), t("a"), n(2.0), t("b"), n(1.0), t("z")]);
    assert_eq!(
        eval(&call("SORT", vec![table()]), &g),
        Value::Array(
            Shape { rows: 4, cols: 2 },
            vec![n(1.0), t("a"), n(1.0), t("z"), n(2.0), t("b"), n(3.0), t("c")]
        )
    );
    // Descending by column 2 (text compares case-insensitively).
    assert_eq!(
        eval(&call("SORT", vec![table(), num(2.0), num(-1.0)]), &g),
        Value::Array(
            Shape { rows: 4, cols: 2 },
            vec![n(1.0), t("z"), n(3.0), t("c"), n(2.0), t("b"), n(1.0), t("a")]
        )
    );
    // A blank key sorts last in either direction.
    let keys = || arr(3, 1, vec![Value::Blank, n(-1.0), n(5.0)]);
    assert_eq!(
        eval(&call("SORT", vec![keys()]), &g),
        Value::Array(Shape { rows: 3, cols: 1 }, vec![n(-1.0), n(5.0), Value::Blank])
    );
    assert_eq!(
        eval(&call("SORT", vec![keys(), num(1.0), num(-1.0)]), &g),
        Value::Array(Shape { rows: 3, cols: 1 }, vec![n(5.0), n(-1.0), Value::Blank])
    );
    // Cross-type: numbers before text before booleans.
    let mixed = arr(3, 1, vec![b(true), t("a"), n(9.0)]);
    assert_eq!(
        eval(&call("SORT", vec![mixed]), &g),
        Value::Array(Shape { rows: 3, cols: 1 }, vec![n(9.0), t("a"), b(true)])
    );
}

#[test]
fn sort_by_col_orders_columns_and_refuses_bad_index_or_order() {
    let g = Grid::new(1, vec![Value::Blank]);
    // Columns keyed on row 1: {3,1,2;"c","a","b"}.
    let wide = || arr(2, 3, vec![n(3.0), n(1.0), n(2.0), t("c"), t("a"), t("b")]);
    assert_eq!(
        eval(&call("SORT", vec![wide(), num(1.0), num(1.0), lit(b(true))]), &g),
        Value::Array(
            Shape { rows: 2, cols: 3 },
            vec![n(1.0), n(2.0), n(3.0), t("a"), t("b"), t("c")]
        )
    );
    // sort_index past the key axis, or below 1.
    assert_eq!(
        eval(&call("SORT", vec![wide(), num(3.0), num(1.0), lit(b(true))]), &g),
        Value::Error(ErrKind::Value)
    );
    assert_eq!(eval(&call("SORT", vec![wide(), num(0.0)]), &g), Value::Error(ErrKind::Value));
    assert_eq!(eval(&call("SORT", vec![wide(), num(4.0)]), &g), Value::Error(ErrKind::Value));
    // Only 1 and -1 are orders.
    assert_eq!(eval(&call("SORT", vec![wide(), num(1.0), num(0.0)]), &g), Value::Error(ErrKind::Value));
    assert_eq!(eval(&call("SORT", vec![wide(), num(1.0), num(2.0)]), &g), Value::Error(ErrKind::Value));
    // An error argument propagates.
    assert_eq!(
        eval(&call("SORT", vec![lit(Value::Error(ErrKind::Ref))]), &g),
        Value::Error(ErrKind::Ref)
    );
}

#[test]
fn unique_keeps_first_occurrences_or_exactly_once_lines() {
    let g = Grid::new(1, vec![Value::Blank]);
    let col = || arr(5, 1, vec![t("a"), n(1.0), t("A"), n(2.0), n(1.0)]);
    // Text folds case-insensitively: "A" repeats "a".
    assert_eq!(
        eval(&call("UNIQUE", vec![col()]), &g),
        Value::Array(Shape { rows: 3, cols: 1 }, vec![t("a"), n(1.0), n(2.0)])
    );
    assert_eq!(
        eval(&call("UNIQUE", vec![col(), lit(b(false)), lit(b(true))]), &g),
        Value::Array(Shape { rows: 1, cols: 1 }, vec![n(2.0)])
    );
    // Every line repeats → nothing occurs exactly once → #CALC!.
    let twice = arr(2, 1, vec![n(4.0), n(4.0)]);
    assert_eq!(
        eval(&call("UNIQUE", vec![twice, lit(b(false)), lit(b(true))]), &g),
        Value::Error(ErrKind::Calc)
    );
    // Whole rows compare cell by cell.
    let rows = arr(3, 2, vec![n(1.0), n(2.0), n(1.0), n(3.0), n(1.0), n(2.0)]);
    assert_eq!(
        eval(&call("UNIQUE", vec![rows]), &g),
        Value::Array(Shape { rows: 2, cols: 2 }, vec![n(1.0), n(2.0), n(1.0), n(3.0)])
    );
    // by_col compares columns.
    let wide = arr(2, 3, vec![n(1.0), n(5.0), n(1.0), n(2.0), n(6.0), n(2.0)]);
    assert_eq!(
        eval(&call("UNIQUE", vec![wide, lit(b(true))]), &g),
        Value::Array(Shape { rows: 2, cols: 2 }, vec![n(1.0), n(5.0), n(2.0), n(6.0)])
    );
}

#[test]
fn filter_selects_rows_or_columns_with_if_empty_fallback() {
    let g = Grid::new(1, vec![Value::Blank]);
    let table = || arr(3, 2, vec![n(1.0), t("a"), n(2.0), t("b"), n(3.0), t("c")]);
    // A column vector selects rows; numbers coerce (nonzero is TRUE).
    let pick_rows = arr(3, 1, vec![b(true), n(0.0), n(7.0)]);
    assert_eq!(
        eval(&call("FILTER", vec![table(), pick_rows]), &g),
        Value::Array(Shape { rows: 2, cols: 2 }, vec![n(1.0), t("a"), n(3.0), t("c")])
    );
    // A row vector selects columns.
    let pick_cols = arr(1, 2, vec![b(false), b(true)]);
    assert_eq!(
        eval(&call("FILTER", vec![table(), pick_cols]), &g),
        Value::Array(Shape { rows: 3, cols: 1 }, vec![t("a"), t("b"), t("c")])
    );
    // Nothing selected: the fallback, else #CALC!.
    let none = || arr(3, 1, vec![b(false), b(false), b(false)]);
    assert_eq!(
        eval(&call("FILTER", vec![table(), none(), Expr::Lit(t("empty"))]), &g),
        t("empty")
    );
    assert_eq!(eval(&call("FILTER", vec![table(), none()]), &g), Value::Error(ErrKind::Calc));
    // A shape that fits neither axis.
    let bad = arr(2, 1, vec![b(true), b(true)]);
    assert_eq!(eval(&call("FILTER", vec![table(), bad]), &g), Value::Error(ErrKind::Value));
    // A non-boolean include cell propagates its coercion error.
    let texty = arr(3, 1, vec![b(true), t("maybe"), lit_err()]);
    assert_eq!(eval(&call("FILTER", vec![table(), texty]), &g), Value::Error(ErrKind::Value));
    let erred = arr(3, 1, vec![b(true), Value::Error(ErrKind::Na), b(true)]);
    assert_eq!(eval(&call("FILTER", vec![table(), erred]), &g), Value::Error(ErrKind::Na));
}

fn lit_err() -> Value {
    Value::Error(ErrKind::Div0)
}

// --- Calendar: weeks, year fractions, working days, clock times -------------------------

#[test]
fn weeknum_counts_from_the_week_holding_january_first() {
    let g = Grid::new(1, vec![Value::Blank]);
    // 2023-01-01 is a Sunday.
    assert_eq!(eval(&call("WEEKNUM", vec![num(44927.0)]), &g), n(1.0));
    assert_eq!(eval(&call("WEEKNUM", vec![num(44933.0)]), &g), n(1.0));
    assert_eq!(eval(&call("WEEKNUM", vec![num(44934.0)]), &g), n(2.0));
    // Weeks starting Monday: Monday 2023-01-02 opens week 2.
    assert_eq!(eval(&call("WEEKNUM", vec![num(44927.0), num(2.0)]), &g), n(1.0));
    assert_eq!(eval(&call("WEEKNUM", vec![num(44928.0), num(2.0)]), &g), n(2.0));
    // ISO weeks: 2023-01-01 is in week 52 of 2022; 2021-01-03 in week 53 of 2020.
    assert_eq!(eval(&call("WEEKNUM", vec![num(44927.0), num(21.0)]), &g), n(52.0));
    assert_eq!(eval(&call("WEEKNUM", vec![num(44199.0), num(21.0)]), &g), n(53.0));
    assert_eq!(eval(&call("WEEKNUM", vec![num(44928.0), num(21.0)]), &g), n(1.0));
    assert_eq!(eval(&call("WEEKNUM", vec![num(44927.0), num(5.0)]), &g), Value::Error(ErrKind::Num));
    assert_eq!(eval(&call("WEEKNUM", vec![num(0.0)]), &g), Value::Error(ErrKind::Num));
}

#[test]
fn yearfrac_bases_and_symmetry() {
    let g = Grid::new(1, vec![Value::Blank]);
    // 30/360 US: month-end to month-end clamps both days.
    assert_eq!(eval(&call("YEARFRAC", vec![num(43861.0), num(44043.0)]), &g), n(0.5));
    // Order of the endpoints does not matter.
    assert_eq!(eval(&call("YEARFRAC", vec![num(44043.0), num(43861.0)]), &g), n(0.5));
    // End-of-February rule: 2020-02-29 to 2021-02-28 is exactly one 30/360 year.
    assert_eq!(eval(&call("YEARFRAC", vec![num(43890.0), num(44255.0), num(0.0)]), &g), n(1.0));
    // 30E/360 has no February rule.
    assert_eq!(
        eval(&call("YEARFRAC", vec![num(43890.0), num(44255.0), num(4.0)]), &g),
        n(359.0 / 360.0)
    );
    // Actual/actual across one boundary holding a February 29th.
    assert_eq!(eval(&call("YEARFRAC", vec![num(43831.0), num(44197.0), num(1.0)]), &g), n(1.0));
    // Actual/actual over three calendar years averages their lengths.
    assert_eq!(
        eval(&call("YEARFRAC", vec![num(43831.0), num(44562.0), num(1.0)]), &g),
        n(731.0 / (1096.0 / 3.0))
    );
    assert_eq!(eval(&call("YEARFRAC", vec![num(43831.0), num(43831.0), num(1.0)]), &g), n(0.0));
    assert_eq!(eval(&call("YEARFRAC", vec![num(43831.0), num(44197.0), num(2.0)]), &g), n(366.0 / 360.0));
    assert_eq!(eval(&call("YEARFRAC", vec![num(43831.0), num(44197.0), num(3.0)]), &g), n(366.0 / 365.0));
    assert_eq!(eval(&call("YEARFRAC", vec![num(43831.0), num(44197.0), num(5.0)]), &g), Value::Error(ErrKind::Num));
}

#[test]
fn workday_steps_over_weekends_and_holidays() {
    let g = Grid::new(1, vec![Value::Blank]);
    // Friday 2023-01-06 + 1 working day is Monday 2023-01-09.
    assert_eq!(eval(&call("WORKDAY", vec![num(44932.0), num(1.0)]), &g), n(44935.0));
    // A holiday on that Monday pushes it to Tuesday.
    assert_eq!(eval(&call("WORKDAY", vec![num(44932.0), num(1.0), num(44935.0)]), &g), n(44936.0));
    let hol = arr(2, 1, vec![n(44935.0), Value::Blank]);
    assert_eq!(eval(&call("WORKDAY", vec![num(44932.0), num(1.0), hol]), &g), n(44936.0));
    // Backward from Monday.
    assert_eq!(eval(&call("WORKDAY", vec![num(44935.0), num(-1.0)]), &g), n(44932.0));
    // Zero days stays put, even on a weekend.
    assert_eq!(eval(&call("WORKDAY", vec![num(44933.0), num(0.0)]), &g), n(44933.0));
    // Walking out of the serial band.
    assert_eq!(eval(&call("WORKDAY", vec![num(2.0), num(-5.0)]), &g), Value::Error(ErrKind::Num));
    // A holiday cell that is an error propagates.
    let bad = arr(1, 1, vec![Value::Error(ErrKind::Ref)]);
    assert_eq!(eval(&call("WORKDAY", vec![num(44932.0), num(1.0), bad]), &g), Value::Error(ErrKind::Ref));
}

#[test]
fn networkdays_counts_inclusively_with_sign() {
    let g = Grid::new(1, vec![Value::Blank]);
    // Monday 2023-01-02 to Sunday 2023-01-08: five working days.
    assert_eq!(eval(&call("NETWORKDAYS", vec![num(44928.0), num(44934.0)]), &g), n(5.0));
    assert_eq!(eval(&call("NETWORKDAYS", vec![num(44934.0), num(44928.0)]), &g), n(-5.0));
    assert_eq!(eval(&call("NETWORKDAYS", vec![num(44928.0), num(44934.0), num(44929.0)]), &g), n(4.0));
    // A weekend day alone counts nothing.
    assert_eq!(eval(&call("NETWORKDAYS", vec![num(44933.0), num(44933.0)]), &g), n(0.0));
}

#[test]
fn hour_minute_second_and_time() {
    let g = Grid::new(1, vec![Value::Blank]);
    assert_eq!(eval(&call("HOUR", vec![num(0.75)]), &g), n(18.0));
    assert_eq!(eval(&call("HOUR", vec![num(44927.5)]), &g), n(12.0));
    // 13:45:30 as a fraction of the day.
    let t = (13.0 * 3600.0 + 45.0 * 60.0 + 30.0) / 86400.0;
    assert_eq!(eval(&call("MINUTE", vec![num(t)]), &g), n(45.0));
    assert_eq!(eval(&call("SECOND", vec![num(t)]), &g), n(30.0));
    assert_eq!(eval(&call("HOUR", vec![num(-0.5)]), &g), Value::Error(ErrKind::Num));
    assert_eq!(eval(&call("TIME", vec![num(13.0), num(45.0), num(30.0)]), &g), n(49530.0 / 86400.0));
    // The total rolls over a day.
    assert_eq!(eval(&call("TIME", vec![num(25.0), num(0.0), num(0.0)]), &g), n(3600.0 / 86400.0));
    assert_eq!(eval(&call("TIME", vec![num(-1.0), num(0.0), num(0.0)]), &g), Value::Error(ErrKind::Num));
    assert_eq!(eval(&call("TIME", vec![num(32768.0), num(0.0), num(0.0)]), &g), Value::Error(ErrKind::Num));
}

// --- Integer and counting functions -------------------------------------------------------

#[test]
fn gcd_and_lcm_over_truncated_arguments() {
    let g = Grid::new(1, vec![Value::Blank]);
    assert_eq!(eval(&call("GCD", vec![num(12.0), num(18.0)]), &g), n(6.0));
    assert_eq!(eval(&call("GCD", vec![num(12.9), num(18.0), num(8.0)]), &g), n(2.0));
    assert_eq!(eval(&call("GCD", vec![num(0.0), num(0.0)]), &g), n(0.0));
    assert_eq!(eval(&call("GCD", vec![num(7.0), num(0.0)]), &g), n(7.0));
    assert_eq!(eval(&call("GCD", vec![num(-4.0), num(2.0)]), &g), Value::Error(ErrKind::Num));
    assert_eq!(eval(&call("GCD", vec![num(9007199254740992.0)]), &g), Value::Error(ErrKind::Num));
    assert_eq!(eval(&call("LCM", vec![num(4.0), num(6.0)]), &g), n(12.0));
    assert_eq!(eval(&call("LCM", vec![num(4.0), num(0.0), num(6.0)]), &g), n(0.0));
    assert_eq!(eval(&call("LCM", vec![num(3.0)]), &g), n(3.0));
    // Past 2^53 is refused.
    assert_eq!(
        eval(&call("LCM", vec![num(4294967296.0), num(4294967295.0)]), &g),
        Value::Error(ErrKind::Num)
    );
    // In-range text is ignored; a direct error propagates.
    let data = arr(3, 1, vec![n(8.0), t("x"), n(12.0)]);
    assert_eq!(eval(&call("GCD", vec![data]), &g), n(4.0));
    assert_eq!(eval(&call("LCM", vec![lit(Value::Error(ErrKind::Na))]), &g), Value::Error(ErrKind::Na));
}

#[test]
fn fact_and_combin_domains() {
    let g = Grid::new(1, vec![Value::Blank]);
    assert_eq!(eval(&call("FACT", vec![num(0.0)]), &g), n(1.0));
    assert_eq!(eval(&call("FACT", vec![num(5.9)]), &g), n(120.0));
    assert_eq!(eval(&call("FACT", vec![num(-1.0)]), &g), Value::Error(ErrKind::Num));
    assert_eq!(eval(&call("FACT", vec![num(171.0)]), &g), Value::Error(ErrKind::Num));
    assert_eq!(eval(&call("COMBIN", vec![num(5.0), num(2.0)]), &g), n(10.0));
    assert_eq!(eval(&call("COMBIN", vec![num(10.0), num(0.0)]), &g), n(1.0));
    assert_eq!(eval(&call("COMBIN", vec![num(60.0), num(30.0)]), &g), n(118264581564861424.0));
    assert_eq!(eval(&call("COMBIN", vec![num(2.0), num(3.0)]), &g), Value::Error(ErrKind::Num));
    assert_eq!(eval(&call("COMBIN", vec![num(-2.0), num(1.0)]), &g), Value::Error(ErrKind::Num));
    assert_eq!(eval(&call("COMBIN", vec![num(1030.0), num(515.0)]), &g), Value::Error(ErrKind::Num));
    match eval(&call("COMBIN", vec![num(1029.0), num(514.0)]), &g) {
        Value::Number(F(x)) => assert!(x > 1.0e308 && x.is_finite()),
        other => panic!("expected a number, got {other:?}"),
    }
}

// --- Dispersion, mode, order statistics and the meta-aggregators ------------------------

fn data8() -> Expr {
    arr(8, 1, vec![n(2.0), n(4.0), n(4.0), n(4.0), n(5.0), n(5.0), n(7.0), n(9.0)])
}

#[test]
fn dispersion_sample_and_population() {
    let g = Grid::new(1, vec![Value::Blank]);
    assert_eq!(eval(&call("VARP", vec![data8()]), &g), n(4.0));
    assert_eq!(eval(&call("STDEVP", vec![data8()]), &g), n(2.0));
    assert_eq!(eval(&call("VAR", vec![data8()]), &g), n(32.0 / 7.0));
    assert_eq!(eval(&call("STDEV", vec![data8()]), &g), n((32.0f64 / 7.0).sqrt()));
    // A sample needs two numbers, a population one.
    assert_eq!(eval(&call("STDEV", vec![num(3.0)]), &g), Value::Error(ErrKind::Div0));
    assert_eq!(eval(&call("VARP", vec![num(3.0)]), &g), n(0.0));
    assert_eq!(eval(&call("VARP", vec![arr(1, 1, vec![t("x")])]), &g), Value::Error(ErrKind::Div0));
    assert_eq!(eval(&call("VAR", vec![num(1.0), lit(Value::Error(ErrKind::Na))]), &g), Value::Error(ErrKind::Na));
}

#[test]
fn mode_prefers_the_highest_count_then_the_earliest() {
    let g = Grid::new(1, vec![Value::Blank]);
    assert_eq!(eval(&call("MODE", vec![num(1.0), num(2.0), num(2.0), num(3.0), num(3.0)]), &g), n(2.0));
    assert_eq!(
        eval(&call("MODE", vec![num(1.0), num(3.0), num(3.0), num(2.0), num(2.0), num(2.0)]), &g),
        n(2.0)
    );
    assert_eq!(eval(&call("MODE", vec![num(1.0), num(2.0), num(3.0)]), &g), Value::Error(ErrKind::Na));
    // Tallies span every argument.
    assert_eq!(eval(&call("MODE", vec![arr(2, 1, vec![n(5.0), n(6.0)]), num(6.0)]), &g), n(6.0));
}

#[test]
fn large_small_percentile_quartile() {
    let g = Grid::new(1, vec![Value::Blank]);
    let d = || arr(3, 1, vec![n(3.0), n(1.0), n(2.0)]);
    assert_eq!(eval(&call("LARGE", vec![d(), num(1.0)]), &g), n(3.0));
    assert_eq!(eval(&call("LARGE", vec![d(), num(3.9)]), &g), n(1.0));
    assert_eq!(eval(&call("SMALL", vec![d(), num(1.0)]), &g), n(1.0));
    assert_eq!(eval(&call("SMALL", vec![d(), num(4.0)]), &g), Value::Error(ErrKind::Num));
    assert_eq!(eval(&call("LARGE", vec![d(), num(0.0)]), &g), Value::Error(ErrKind::Num));
    let q = || arr(4, 1, vec![n(1.0), n(2.0), n(3.0), n(4.0)]);
    assert_eq!(eval(&call("PERCENTILE", vec![q(), num(0.25)]), &g), n(1.75));
    assert_eq!(eval(&call("PERCENTILE", vec![q(), num(1.0)]), &g), n(4.0));
    assert_eq!(eval(&call("PERCENTILE", vec![q(), num(1.5)]), &g), Value::Error(ErrKind::Num));
    assert_eq!(eval(&call("QUARTILE", vec![q(), num(2.0)]), &g), n(2.5));
    assert_eq!(eval(&call("QUARTILE", vec![q(), num(0.0)]), &g), n(1.0));
    assert_eq!(eval(&call("QUARTILE", vec![q(), num(5.0)]), &g), Value::Error(ErrKind::Num));
    assert_eq!(eval(&call("PERCENTILE", vec![arr(1, 1, vec![t("x")]), num(0.5)]), &g), Value::Error(ErrKind::Num));
}

#[test]
fn subtotal_picks_a_reducer_by_number() {
    let g = Grid::new(1, vec![Value::Blank]);
    let d = || arr(3, 1, vec![n(1.0), n(2.0), n(6.0)]);
    assert_eq!(eval(&call("SUBTOTAL", vec![num(9.0), d()]), &g), n(9.0));
    assert_eq!(eval(&call("SUBTOTAL", vec![num(109.0), d()]), &g), n(9.0));
    assert_eq!(eval(&call("SUBTOTAL", vec![num(1.0), d(), num(3.0)]), &g), n(3.0));
    assert_eq!(eval(&call("SUBTOTAL", vec![num(4.0), d()]), &g), n(6.0));
    assert_eq!(eval(&call("SUBTOTAL", vec![num(2.0), d(), lit(t("a"))]), &g), n(3.0));
    assert_eq!(eval(&call("SUBTOTAL", vec![num(12.0), d()]), &g), Value::Error(ErrKind::Value));
    assert_eq!(eval(&call("SUBTOTAL", vec![num(0.0), d()]), &g), Value::Error(ErrKind::Value));
    assert_eq!(eval(&call("SUBTOTAL", vec![num(9.0), lit(Value::Error(ErrKind::Ref))]), &g), Value::Error(ErrKind::Ref));
}

#[test]
fn aggregate_ignores_errors_on_request_and_has_an_array_form() {
    let g = Grid::new(1, vec![Value::Blank]);
    let d = || arr(3, 1, vec![n(1.0), Value::Error(ErrKind::Div0), n(2.0)]);
    assert_eq!(eval(&call("AGGREGATE", vec![num(9.0), num(6.0), d()]), &g), n(3.0));
    assert_eq!(eval(&call("AGGREGATE", vec![num(9.0), num(0.0), d()]), &g), Value::Error(ErrKind::Div0));
    assert_eq!(eval(&call("AGGREGATE", vec![num(9.0), num(2.0), lit(Value::Error(ErrKind::Na)), num(4.0)]), &g), n(4.0));
    assert_eq!(eval(&call("AGGREGATE", vec![num(12.0), num(3.0), d()]), &g), n(1.5));
    assert_eq!(eval(&call("AGGREGATE", vec![num(14.0), num(6.0), d(), num(1.0)]), &g), n(2.0));
    assert_eq!(eval(&call("AGGREGATE", vec![num(15.0), num(6.0), d(), num(1.0)]), &g), n(1.0));
    assert_eq!(eval(&call("AGGREGATE", vec![num(14.0), num(0.0), d(), num(1.0)]), &g), Value::Error(ErrKind::Div0));
    let q = || arr(4, 1, vec![n(1.0), n(2.0), n(3.0), n(4.0)]);
    assert_eq!(eval(&call("AGGREGATE", vec![num(16.0), num(0.0), q(), num(0.25)]), &g), n(1.75));
    assert_eq!(eval(&call("AGGREGATE", vec![num(17.0), num(0.0), q(), num(2.0)]), &g), n(2.5));
    // Exclusive forms: rank k·(n+1).
    assert_eq!(eval(&call("AGGREGATE", vec![num(18.0), num(0.0), q(), num(0.4)]), &g), n(2.0));
    assert_eq!(eval(&call("AGGREGATE", vec![num(18.0), num(0.0), q(), num(0.1)]), &g), Value::Error(ErrKind::Num));
    assert_eq!(eval(&call("AGGREGATE", vec![num(19.0), num(0.0), q(), num(2.0)]), &g), n(2.5));
    assert_eq!(eval(&call("AGGREGATE", vec![num(19.0), num(0.0), q(), num(4.0)]), &g), Value::Error(ErrKind::Num));
    // The array form needs exactly an array and k; numbers and options are range-checked.
    assert_eq!(eval(&call("AGGREGATE", vec![num(14.0), num(0.0), q()]), &g), Value::Error(ErrKind::Value));
    assert_eq!(eval(&call("AGGREGATE", vec![num(20.0), num(0.0), q()]), &g), Value::Error(ErrKind::Value));
    assert_eq!(eval(&call("AGGREGATE", vec![num(9.0), num(8.0), q()]), &g), Value::Error(ErrKind::Value));
}

// --- Database functions --------------------------------------------------------------------

fn orchard() -> Expr {
    arr(
        7,
        4,
        vec![
            t("Tree"), t("Height"), t("Age"), t("Yield"),
            t("Apple"), n(18.0), n(20.0), n(14.0),
            t("Pear"), n(12.0), n(12.0), n(10.0),
            t("Cherry"), n(13.0), n(14.0), n(9.0),
            t("Apple"), n(14.0), n(15.0), n(10.0),
            t("Pear"), n(9.0), n(8.0), n(8.0),
            t("Apple"), n(8.0), n(9.0), n(6.0),
        ],
    )
}

#[test]
fn database_reducers_filter_records_by_criteria_rows() {
    let g = Grid::new(1, vec![Value::Blank]);
    // Tree begins with "Apple" AND Height > 10.
    let tall_apples = || arr(2, 2, vec![t("Tree"), t("Height"), t("Apple"), t(">10")]);
    assert_eq!(eval(&call("DSUM", vec![orchard(), lit(t("Yield")), tall_apples()]), &g), n(24.0));
    assert_eq!(eval(&call("DAVERAGE", vec![orchard(), num(4.0), tall_apples()]), &g), n(12.0));
    assert_eq!(eval(&call("DCOUNT", vec![orchard(), lit(t("age")), tall_apples()]), &g), n(2.0));
    assert_eq!(eval(&call("DMAX", vec![orchard(), lit(t("Height")), tall_apples()]), &g), n(18.0));
    assert_eq!(eval(&call("DMIN", vec![orchard(), lit(t("Height")), tall_apples()]), &g), n(14.0));
    // An omitted field counts whole records; DCOUNTA counts non-blank field cells.
    assert_eq!(eval(&call("DCOUNT", vec![orchard(), lit(Value::Blank), tall_apples()]), &g), n(2.0));
    assert_eq!(eval(&call("DCOUNTA", vec![orchard(), lit(t("Tree")), tall_apples()]), &g), n(2.0));
    // Condition rows are OR-ed.
    let pear_or_cherry = arr(3, 1, vec![t("Tree"), t("Pear"), t("Cherry")]);
    assert_eq!(eval(&call("DSUM", vec![orchard(), lit(t("Yield")), pear_or_cherry]), &g), n(27.0));
    // No match: DAVERAGE is #DIV/0!, DMAX is 0.
    let none = || arr(2, 1, vec![t("Tree"), t("Plum")]);
    assert_eq!(eval(&call("DAVERAGE", vec![orchard(), lit(t("Yield")), none()]), &g), Value::Error(ErrKind::Div0));
    assert_eq!(eval(&call("DMAX", vec![orchard(), lit(t("Yield")), none()]), &g), n(0.0));
    // A field that names no column, or a column number past the row, is #VALUE!.
    assert_eq!(eval(&call("DSUM", vec![orchard(), lit(t("Weight")), none()]), &g), Value::Error(ErrKind::Value));
    assert_eq!(eval(&call("DSUM", vec![orchard(), num(5.0), none()]), &g), Value::Error(ErrKind::Value));
    // A label naming no database column constrains nothing.
    let free = arr(2, 1, vec![t("Colour"), t("Red")]);
    assert_eq!(eval(&call("DSUM", vec![orchard(), lit(t("Yield")), free]), &g), n(57.0));
    // An error among the conditions is the result.
    let bad = arr(2, 1, vec![t("Tree"), Value::Error(ErrKind::Na)]);
    assert_eq!(eval(&call("DSUM", vec![orchard(), lit(t("Yield")), bad]), &g), Value::Error(ErrKind::Na));
}

#[test]
fn dget_needs_exactly_one_match_and_bare_text_is_a_prefix() {
    let g = Grid::new(1, vec![Value::Blank]);
    let crit = |s: &str| arr(2, 1, vec![t("Tree"), t(s)]);
    // "Ch" begins "Cherry".
    assert_eq!(eval(&call("DGET", vec![orchard(), lit(t("Yield")), crit("Ch")]), &g), n(9.0));
    // A leading "=" asks for an exact match.
    assert_eq!(eval(&call("DGET", vec![orchard(), lit(t("Yield")), crit("=Ch")]), &g), Value::Error(ErrKind::Value));
    assert_eq!(eval(&call("DGET", vec![orchard(), lit(t("Yield")), crit("=cherry")]), &g), n(9.0));
    // Several matches.
    assert_eq!(eval(&call("DGET", vec![orchard(), lit(t("Yield")), crit("Apple")]), &g), Value::Error(ErrKind::Num));
    // A numeric condition compares numbers.
    let height = arr(2, 1, vec![t("Height"), n(13.0)]);
    assert_eq!(eval(&call("DGET", vec![orchard(), lit(t("Tree")), height]), &g), t("Cherry"));
}

// --- Paired statistics and the least-squares line ----------------------------------------

fn xs4() -> Expr {
    arr(4, 1, vec![n(1.0), n(2.0), n(3.0), n(4.0)])
}
fn ys4() -> Expr {
    arr(4, 1, vec![n(2.0), n(4.0), n(6.0), n(8.0)])
}

#[test]
fn slope_intercept_correl_rsq_forecast_on_a_perfect_line() {
    let g = Grid::new(1, vec![Value::Blank]);
    assert_eq!(eval(&call("SLOPE", vec![ys4(), xs4()]), &g), n(2.0));
    assert_eq!(eval(&call("INTERCEPT", vec![ys4(), xs4()]), &g), n(0.0));
    assert_eq!(eval(&call("CORREL", vec![xs4(), ys4()]), &g), n(1.0));
    assert_eq!(eval(&call("RSQ", vec![ys4(), xs4()]), &g), n(1.0));
    assert_eq!(eval(&call("FORECAST", vec![num(5.0), ys4(), xs4()]), &g), n(10.0));
    // Pairs with a non-number on either side are dropped; counts must agree.
    let xs = arr(3, 1, vec![n(1.0), t("skip"), n(3.0)]);
    let ys = arr(3, 1, vec![n(1.0), n(100.0), n(5.0)]);
    assert_eq!(eval(&call("SLOPE", vec![ys, xs]), &g), n(2.0));
    assert_eq!(eval(&call("SLOPE", vec![ys4(), arr(2, 1, vec![n(1.0), n(2.0)])]), &g), Value::Error(ErrKind::Na));
    // No spread in x.
    let flat = arr(2, 1, vec![n(3.0), n(3.0)]);
    assert_eq!(eval(&call("SLOPE", vec![arr(2, 1, vec![n(1.0), n(2.0)]), flat]), &g), Value::Error(ErrKind::Div0));
    let erred = arr(4, 1, vec![n(1.0), Value::Error(ErrKind::Ref), n(3.0), n(4.0)]);
    assert_eq!(eval(&call("CORREL", vec![erred, ys4()]), &g), Value::Error(ErrKind::Ref));
}

#[test]
fn covariances_divide_by_the_count_or_one_less() {
    let g = Grid::new(1, vec![Value::Blank]);
    let mut ctx = EvalCtx::new(&g);
    assert_eq!(covariance_p_fn(&mut ctx, &[xs4(), ys4()]), n(2.5));
    assert_eq!(covariance_s_fn(&mut ctx, &[xs4(), ys4()]), n(10.0 / 3.0));
    assert_eq!(covariance_s_fn(&mut ctx, &[num(1.0), num(2.0)]), Value::Error(ErrKind::Div0));
    assert_eq!(covariance_p_fn(&mut ctx, &[lit(t("a")), lit(t("b"))]), Value::Error(ErrKind::Div0));
}

#[test]
fn trend_predicts_along_the_fitted_line() {
    let g = Grid::new(1, vec![Value::Blank]);
    assert_eq!(
        eval(&call("TREND", vec![ys4()]), &g),
        Value::Array(Shape { rows: 4, cols: 1 }, vec![n(2.0), n(4.0), n(6.0), n(8.0)])
    );
    assert_eq!(
        eval(&call("TREND", vec![ys4(), xs4(), arr(1, 2, vec![n(5.0), t("x")])]), &g),
        Value::Array(Shape { rows: 1, cols: 2 }, vec![n(10.0), Value::Error(ErrKind::Value)])
    );
    // Through the origin.
    let ys = arr(2, 1, vec![n(2.0), n(5.0)]);
    let xs = arr(2, 1, vec![n(1.0), n(2.0)]);
    assert_eq!(
        eval(&call("TREND", vec![ys, xs, num(3.0), lit(b(false))]), &g),
        Value::Array(Shape { rows: 1, cols: 1 }, vec![n(0.0 + (12.0 / 5.0) * 3.0)])
    );
    assert_eq!(eval(&call("TREND", vec![ys4(), arr(2, 1, vec![n(1.0), n(2.0)])]), &g), Value::Error(ErrKind::Ref));
    assert_eq!(eval(&call("TREND", vec![arr(1, 1, vec![t("none")])]), &g), Value::Error(ErrKind::Ref));
}

// --- More arithmetic and logic -------------------------------------------------------------

#[test]
fn trunc_sign_mround_even_odd_sumsq_quotient() {
    let g = Grid::new(1, vec![Value::Blank]);
    assert_eq!(eval(&call("TRUNC", vec![num(-8.9)]), &g), n(-8.0));
    assert_eq!(eval(&call("TRUNC", vec![num(123.456), num(1.0)]), &g), n(123.4));
    assert_eq!(eval(&call("TRUNC", vec![num(123.45), num(-1.0)]), &g), n(120.0));
    assert_eq!(eval(&call("SIGN", vec![num(-3.0)]), &g), n(-1.0));
    assert_eq!(eval(&call("SIGN", vec![num(0.0)]), &g), n(0.0));
    assert_eq!(eval(&call("SIGN", vec![num(2.5)]), &g), n(1.0));
    assert_eq!(eval(&call("MROUND", vec![num(10.0), num(3.0)]), &g), n(9.0));
    assert_eq!(eval(&call("MROUND", vec![num(-10.0), num(-3.0)]), &g), n(-9.0));
    assert_eq!(eval(&call("MROUND", vec![num(1.5), num(0.0)]), &g), n(0.0));
    assert_eq!(eval(&call("MROUND", vec![num(5.0), num(-2.0)]), &g), Value::Error(ErrKind::Num));
    assert_eq!(eval(&call("EVEN", vec![num(1.5)]), &g), n(2.0));
    assert_eq!(eval(&call("EVEN", vec![num(-1.0)]), &g), n(-2.0));
    assert_eq!(eval(&call("EVEN", vec![num(0.0)]), &g), n(0.0));
    assert_eq!(eval(&call("ODD", vec![num(1.5)]), &g), n(3.0));
    assert_eq!(eval(&call("ODD", vec![num(2.0)]), &g), n(3.0));
    assert_eq!(eval(&call("ODD", vec![num(0.0)]), &g), n(1.0));
    assert_eq!(eval(&call("ODD", vec![num(-2.0)]), &g), n(-3.0));
    assert_eq!(eval(&call("SUMSQ", vec![num(3.0), arr(2, 1, vec![n(4.0), t("x")])]), &g), n(25.0));
    assert_eq!(eval(&call("QUOTIENT", vec![num(-5.0), num(2.0)]), &g), n(-2.0));
    assert_eq!(eval(&call("QUOTIENT", vec![num(5.0), num(0.0)]), &g), Value::Error(ErrKind::Div0));
}

#[test]
fn ceiling_and_floor_math_modes() {
    let g = Grid::new(1, vec![Value::Blank]);
    let mut ctx = EvalCtx::new(&g);
    assert_eq!(ceiling_math_fn(&mut ctx, &[num(4.3)]), n(5.0));
    assert_eq!(ceiling_math_fn(&mut ctx, &[num(-4.3)]), n(-4.0));
    assert_eq!(ceiling_math_fn(&mut ctx, &[num(-4.3), num(2.0), num(1.0)]), n(-6.0));
    assert_eq!(floor_math_fn(&mut ctx, &[num(4.3)]), n(4.0));
    assert_eq!(floor_math_fn(&mut ctx, &[num(-4.3)]), n(-5.0));
    assert_eq!(floor_math_fn(&mut ctx, &[num(-4.3), num(-2.0), num(1.0)]), n(-4.0));
    assert_eq!(floor_math_fn(&mut ctx, &[num(7.0), num(0.0)]), n(0.0));
}

#[test]
fn xor_true_false() {
    let g = Grid::new(1, vec![Value::Blank]);
    assert_eq!(eval(&call("XOR", vec![lit(b(true)), lit(b(false))]), &g), b(true));
    assert_eq!(eval(&call("XOR", vec![lit(b(true)), num(3.0)]), &g), b(false));
    assert_eq!(eval(&call("XOR", vec![arr(3, 1, vec![b(true), b(true), b(true)])]), &g), b(true));
    assert_eq!(eval(&call("XOR", vec![arr(1, 1, vec![t("x")])]), &g), Value::Error(ErrKind::Value));
    assert_eq!(eval(&call("TRUE", vec![]), &g), b(true));
    assert_eq!(eval(&call("FALSE", vec![]), &g), b(false));
}

// --- Descriptive statistics and ranking ----------------------------------------------------

#[test]
fn a_suffixed_aggregators_count_in_range_text_and_booleans() {
    let g = Grid::new(1, vec![Value::Blank]);
    let d = || arr(4, 1, vec![n(10.0), t("x"), b(true), Value::Blank]);
    // 10 + 0 + 1 over three counted cells.
    assert_eq!(eval(&call("AVERAGEA", vec![d()]), &g), n(11.0 / 3.0));
    assert_eq!(eval(&call("MAXA", vec![arr(2, 1, vec![n(-5.0), t("x")])]), &g), n(0.0));
    assert_eq!(eval(&call("MINA", vec![arr(2, 1, vec![n(5.0), b(false)])]), &g), n(0.0));
    assert_eq!(eval(&call("MAXA", vec![arr(1, 1, vec![Value::Blank])]), &g), n(0.0));
    assert_eq!(eval(&call("AVERAGEA", vec![arr(1, 1, vec![Value::Blank])]), &g), Value::Error(ErrKind::Div0));
    assert_eq!(eval(&call("AVERAGEA", vec![lit(t("abc"))]), &g), Value::Error(ErrKind::Value));
}

#[test]
fn geometric_harmonic_means_and_deviations() {
    let g = Grid::new(1, vec![Value::Blank]);
    match eval(&call("GEOMEAN", vec![num(2.0), num(8.0)]), &g) {
        Value::Number(F(x)) => assert!((x - 4.0).abs() < 1e-12),
        other => panic!("expected a number, got {other:?}"),
    }
    assert_eq!(eval(&call("GEOMEAN", vec![num(2.0), num(0.0)]), &g), Value::Error(ErrKind::Num));
    assert_eq!(eval(&call("HARMEAN", vec![num(1.0), num(4.0), num(4.0)]), &g), n(2.0));
    assert_eq!(eval(&call("HARMEAN", vec![num(-1.0)]), &g), Value::Error(ErrKind::Num));
    assert_eq!(eval(&call("AVEDEV", vec![num(1.0), num(2.0), num(3.0), num(6.0)]), &g), n(1.5));
    assert_eq!(eval(&call("AVEDEV", vec![arr(1, 1, vec![t("x")])]), &g), Value::Error(ErrKind::Num));
    // A symmetric sample has no skew; too few numbers or no spread is #DIV/0!.
    assert_eq!(eval(&call("SKEW", vec![num(1.0), num(2.0), num(3.0)]), &g), n(0.0));
    assert_eq!(eval(&call("SKEW", vec![num(1.0), num(2.0)]), &g), Value::Error(ErrKind::Div0));
    assert_eq!(eval(&call("KURT", vec![num(5.0), num(5.0), num(5.0), num(5.0)]), &g), Value::Error(ErrKind::Div0));
    match eval(&call("KURT", vec![num(1.0), num(2.0), num(3.0), num(4.0)]), &g) {
        Value::Number(F(x)) => assert!((x - (-1.2)).abs() < 1e-12),
        other => panic!("expected a number, got {other:?}"),
    }
}

#[test]
fn percentrank_and_frequency() {
    let g = Grid::new(1, vec![Value::Blank]);
    let d = || arr(4, 1, vec![n(1.0), n(2.0), n(3.0), n(4.0)]);
    assert_eq!(eval(&call("PERCENTRANK", vec![d(), num(2.0)]), &g), n(0.333));
    assert_eq!(eval(&call("PERCENTRANK", vec![d(), num(2.5), num(2.0)]), &g), n(0.5));
    assert_eq!(eval(&call("PERCENTRANK", vec![d(), num(4.0)]), &g), n(1.0));
    assert_eq!(eval(&call("PERCENTRANK", vec![d(), num(5.0)]), &g), Value::Error(ErrKind::Na));
    assert_eq!(eval(&call("PERCENTRANK", vec![d(), num(2.0), num(0.0)]), &g), Value::Error(ErrKind::Num));
    let data = arr(5, 1, vec![n(1.0), n(2.0), n(3.0), n(4.0), n(5.0)]);
    let bins = arr(2, 1, vec![n(2.0), n(4.0)]);
    assert_eq!(
        eval(&call("FREQUENCY", vec![data, bins]), &g),
        Value::Array(Shape { rows: 3, cols: 1 }, vec![n(2.0), n(2.0), n(1.0)])
    );
}

#[test]
fn rank_avg_exclusive_forms_and_mode_mult() {
    let g = Grid::new(1, vec![Value::Blank]);
    let mut ctx = EvalCtx::new(&g);
    let d = || arr(4, 1, vec![n(7.0), n(3.0), n(3.0), n(1.0)]);
    // Descending: 7 is 1st, the two 3s share ranks 2 and 3.
    assert_eq!(rank_avg_fn(&mut ctx, &[num(3.0), d()]), n(2.5));
    assert_eq!(rank_avg_fn(&mut ctx, &[num(1.0), d(), num(1.0)]), n(1.0));
    assert_eq!(rank_avg_fn(&mut ctx, &[num(2.0), d()]), Value::Error(ErrKind::Na));
    let q = || arr(4, 1, vec![n(1.0), n(2.0), n(3.0), n(4.0)]);
    assert_eq!(percentile_exc_fn(&mut ctx, &[q(), num(0.4)]), n(2.0));
    assert_eq!(quartile_exc_fn(&mut ctx, &[q(), num(0.0)]), Value::Error(ErrKind::Num));
    assert_eq!(percentrank_exc_fn(&mut ctx, &[q(), num(1.0)]), n(0.2));
    assert_eq!(
        mode_mult_fn(&mut ctx, &[num(1.0), num(2.0), num(2.0), num(3.0), num(3.0)]),
        Value::Array(Shape { rows: 2, cols: 1 }, vec![n(2.0), n(3.0)])
    );
    assert_eq!(mode_mult_fn(&mut ctx, &[num(1.0), num(2.0)]), Value::Error(ErrKind::Na));
}

// --- More finance ----------------------------------------------------------------------------

fn approx(v: Value, want: f64, tol: f64) {
    match v {
        Value::Number(F(x)) => assert!((x - want).abs() <= tol, "got {x}, want {want}"),
        other => panic!("expected a number, got {other:?}"),
    }
}

#[test]
fn nper_rate_ipmt_ppmt() {
    let g = Grid::new(1, vec![Value::Blank]);
    assert_eq!(eval(&call("NPER", vec![num(0.0), num(-100.0), num(1000.0)]), &g), n(10.0));
    assert_eq!(eval(&call("NPER", vec![num(0.0), num(0.0), num(1000.0)]), &g), Value::Error(ErrKind::Div0));
    // A payment that only covers the interest never pays the loan off.
    assert_eq!(eval(&call("NPER", vec![num(0.1), num(-100.0), num(1000.0)]), &g), Value::Error(ErrKind::Num));
    approx(eval(&call("NPER", vec![num(0.01), num(-100.0), num(1000.0)]), &g), 10.588644, 1e-5);
    approx(eval(&call("RATE", vec![num(12.0), num(-100.0), num(1000.0)]), &g), 0.0292285, 1e-6);
    approx(eval(&call("IPMT", vec![num(0.1), num(1.0), num(3.0), num(1000.0)]), &g), -100.0, 1e-9);
    approx(eval(&call("PPMT", vec![num(0.1), num(1.0), num(3.0), num(1000.0)]), &g), -302.114804, 1e-5);
    // At the start of the period the first payment holds no interest.
    assert_eq!(eval(&call("IPMT", vec![num(0.1), num(1.0), num(3.0), num(1000.0), num(0.0), num(1.0)]), &g), n(0.0));
    assert_eq!(eval(&call("IPMT", vec![num(0.1), num(0.0), num(3.0), num(1000.0)]), &g), Value::Error(ErrKind::Num));
    assert_eq!(eval(&call("PPMT", vec![num(0.1), num(4.0), num(3.0), num(1000.0)]), &g), Value::Error(ErrKind::Num));
}

#[test]
fn xnpv_and_xirr_over_dated_flows() {
    let g = Grid::new(1, vec![Value::Blank]);
    let flows = || arr(2, 1, vec![n(-1000.0), n(1100.0)]);
    let dates = || arr(2, 1, vec![n(43831.0), n(44196.0)]);
    approx(eval(&call("XNPV", vec![num(0.1), flows(), dates()]), &g), 0.0, 1e-9);
    approx(eval(&call("XIRR", vec![flows(), dates()]), &g), 0.1, 1e-9);
    let short = arr(1, 1, vec![n(43831.0)]);
    assert_eq!(eval(&call("XNPV", vec![num(0.1), flows(), short]), &g), Value::Error(ErrKind::Num));
    let backwards = arr(2, 1, vec![n(44196.0), n(43831.0)]);
    assert_eq!(eval(&call("XIRR", vec![flows(), backwards]), &g), Value::Error(ErrKind::Num));
    let same_sign = arr(2, 1, vec![n(100.0), n(100.0)]);
    assert_eq!(eval(&call("XIRR", vec![same_sign, dates()]), &g), Value::Error(ErrKind::Num));
}

// --- Random functions ------------------------------------------------------------------------

#[test]
fn rand_and_randbetween_read_the_pinned_source() {
    let g = Grid::new(1, vec![Value::Blank]);
    let mut ctx = EvalCtx::new(&g);
    assert_eq!(rand_fn(&mut ctx, &[]), n(0.75));
    // 1 + ⌊0.75 · 10⌋.
    assert_eq!(randbetween_fn(&mut ctx, &[num(1.0), num(10.0)]), n(8.0));
    // Non-integer bounds round inward: the band is 2..=3.
    assert_eq!(randbetween_fn(&mut ctx, &[num(1.2), num(3.9)]), n(3.0));
    assert_eq!(randbetween_fn(&mut ctx, &[num(1.5), num(1.7)]), Value::Error(ErrKind::Num));
    assert_eq!(randbetween_fn(&mut ctx, &[lit(Value::Error(ErrKind::Na)), num(2.0)]), Value::Error(ErrKind::Na));
}

// --- Unit conversion ---------------------------------------------------------------------------

#[test]
fn convert_scales_within_a_system() {
    let g = Grid::new(1, vec![Value::Blank]);
    let conv = |x: f64, a: &str, b: &str| eval(&call("CONVERT", vec![num(x), lit(t(a)), lit(t(b))]), &g);
    assert_eq!(conv(1.0, "km", "m"), n(1000.0));
    approx(conv(1.0, "ft", "in"), 12.0, 1e-12);
    approx(conv(0.0, "C", "F"), 32.0, 1e-9);
    approx(conv(100.0, "C", "K"), 373.15, 1e-9);
    assert_eq!(conv(1.0, "kibyte", "byte"), n(1024.0));
    approx(conv(1.0, "km2", "m2"), 1.0e6, 1e-6);
    assert_eq!(conv(1.0, "m", "kg"), Value::Error(ErrKind::Na));
    assert_eq!(conv(1.0, "furlong", "m"), Value::Error(ErrKind::Na));
    assert_eq!(
        eval(&call("CONVERT", vec![lit(b(true)), lit(t("m")), lit(t("km"))]), &g),
        Value::Error(ErrKind::Value)
    );
}

// --- Further lookup, information, date and finance cases ------------------------------------

#[test]
fn hlookup_lookup_xmatch_rows_columns() {
    let g = Grid::new(1, vec![Value::Blank]);
    // {1,2,3;"one","two","three"} — first row sorted ascending.
    let table = || arr(2, 3, vec![n(1.0), n(2.0), n(3.0), t("one"), t("two"), t("three")]);
    assert_eq!(eval(&call("HLOOKUP", vec![num(2.5), table(), num(2.0)]), &g), t("two"));
    assert_eq!(
        eval(&call("HLOOKUP", vec![num(2.5), table(), num(2.0), lit(b(false))]), &g),
        Value::Error(ErrKind::Na)
    );
    assert_eq!(eval(&call("HLOOKUP", vec![num(2.0), table(), num(3.0)]), &g), Value::Error(ErrKind::Ref));
    assert_eq!(eval(&call("HLOOKUP", vec![num(2.0), table(), num(0.0)]), &g), Value::Error(ErrKind::Value));
    // LOOKUP vector form, and the array form on a wide array (first row searched, last row read).
    let keys = || arr(3, 1, vec![n(10.0), n(20.0), n(30.0)]);
    let vals = arr(3, 1, vec![t("a"), t("b"), t("c")]);
    assert_eq!(eval(&call("LOOKUP", vec![num(25.0), keys(), vals]), &g), t("b"));
    assert_eq!(eval(&call("LOOKUP", vec![num(5.0), keys()]), &g), Value::Error(ErrKind::Na));
    assert_eq!(eval(&call("LOOKUP", vec![num(2.0), table()]), &g), t("two"));
    // XMATCH: exact by default, next smaller / larger, wildcards.
    let xs = || arr(4, 1, vec![n(10.0), n(30.0), n(20.0), n(40.0)]);
    assert_eq!(eval(&call("XMATCH", vec![num(20.0), xs()]), &g), n(3.0));
    assert_eq!(eval(&call("XMATCH", vec![num(25.0), xs(), num(-1.0)]), &g), n(3.0));
    assert_eq!(eval(&call("XMATCH", vec![num(25.0), xs(), num(1.0)]), &g), n(2.0));
    assert_eq!(eval(&call("XMATCH", vec![num(25.0), xs()]), &g), Value::Error(ErrKind::Na));
    assert_eq!(eval(&call("XMATCH", vec![num(25.0), xs(), num(3.0)]), &g), Value::Error(ErrKind::Value));
    let words = arr(2, 1, vec![t("apple"), t("banana")]);
    assert_eq!(eval(&call("XMATCH", vec![lit(t("b*")), words, num(2.0)]), &g), n(2.0));
    assert_eq!(eval(&call("ROWS", vec![table()]), &g), n(2.0));
    assert_eq!(eval(&call("COLUMNS", vec![table()]), &g), n(3.0));
    assert_eq!(eval(&call("ROWS", vec![num(5.0)]), &g), n(1.0));
    assert_eq!(eval(&call("COLUMNS", vec![lit(Value::Error(ErrKind::Ref))]), &g), Value::Error(ErrKind::Ref));
}

#[test]
fn isna_n_iseven_isodd() {
    let g = Grid::new(1, vec![Value::Blank]);
    assert_eq!(eval(&call("ISNA", vec![lit(Value::Error(ErrKind::Na))]), &g), b(true));
    assert_eq!(eval(&call("ISNA", vec![lit(Value::Error(ErrKind::Ref))]), &g), b(false));
    assert_eq!(eval(&call("N", vec![num(4.5)]), &g), n(4.5));
    assert_eq!(eval(&call("N", vec![lit(b(true))]), &g), n(1.0));
    assert_eq!(eval(&call("N", vec![lit(t("123"))]), &g), n(0.0));
    assert_eq!(eval(&call("N", vec![lit(Value::Error(ErrKind::Div0))]), &g), Value::Error(ErrKind::Div0));
    assert_eq!(eval(&call("ISEVEN", vec![num(-2.5)]), &g), b(true));
    assert_eq!(eval(&call("ISODD", vec![num(3.9)]), &g), b(true));
    assert_eq!(eval(&call("ISODD", vec![lit(t("4"))]), &g), b(false));
    assert_eq!(eval(&call("ISEVEN", vec![lit(b(true))]), &g), Value::Error(ErrKind::Value));
}

#[test]
fn eomonth_and_weekday() {
    let g = Grid::new(1, vec![Value::Blank]);
    // 2023-01-15 (44941) → end of January 2023 (44957), end of February (44985).
    assert_eq!(eval(&call("EOMONTH", vec![num(44941.0), num(0.0)]), &g), n(44957.0));
    assert_eq!(eval(&call("EOMONTH", vec![num(44941.0), num(1.0)]), &g), n(44985.0));
    assert_eq!(eval(&call("EOMONTH", vec![num(44941.0), num(-1.0)]), &g), n(44926.0));
    assert_eq!(eval(&call("EOMONTH", vec![num(1.0), num(-2.0)]), &g), Value::Error(ErrKind::Num));
    // 2023-01-01 is a Sunday.
    assert_eq!(eval(&call("WEEKDAY", vec![num(44927.0)]), &g), n(1.0));
    assert_eq!(eval(&call("WEEKDAY", vec![num(44927.0), num(2.0)]), &g), n(7.0));
    assert_eq!(eval(&call("WEEKDAY", vec![num(44927.0), num(3.0)]), &g), n(6.0));
    assert_eq!(eval(&call("WEEKDAY", vec![num(44927.0), num(4.0)]), &g), Value::Error(ErrKind::Num));
}

#[test]
fn fv_grows_the_balance() {
    let g = Grid::new(1, vec![Value::Blank]);
    // No rate: the payments and present value simply add up (money out is negative).
    assert_eq!(eval(&call("FV", vec![num(0.0), num(10.0), num(-100.0), num(-1000.0)]), &g), n(2000.0));
    approx(eval(&call("FV", vec![num(0.1), num(2.0), num(-100.0)]), &g), 210.0, 1e-9);
    assert_eq!(eval(&call("FV", vec![lit(t("x")), num(2.0), num(-100.0)]), &g), Value::Error(ErrKind::Value));
}
