// Behaviour of the built-in functions through the registry and the evaluator.

// Test harness: an IEEE double number domain and an in-memory workbook.

use charlie_ast::expr::{ArrayView, CellAddr, RangeAddr, Resolver, SheetId};
use charlie_ast::value::{Number, Order, Shape};

type Value = charlie_ast::value::Value<F>;
type Expr = charlie_ast::expr::Expr<F>;

/// A double-precision spreadsheet number.
#[derive(Clone, Copy, Debug)]
struct F(f64);

impl PartialEq for F {
    fn eq(&self, other: &F) -> bool {
        self.0.to_bits() == other.0.to_bits()
    }
}

impl Number for F {
    // Doubles represent every integer of at most 53 bits exactly, so the law holds.
    fn law_exact_integers(_i: i64, _j: i64) {}
    // Doubles order as a partial order with NaN incomparable to everything.
    fn law_order(_a: F, _b: F, _c: F) {}
    // Doubles hold every integer of at most 53 bits exactly, so rounding keeps it.
    fn law_integral(_i: i64) {}
    fn spec_from_int(i: i64) -> F {
        F(i as f64)
    }
    fn spec_order(self, o: F) -> Option<Order> {
        self.order(o)
    }
    fn spec_plus(self, o: F) -> F {
        self.plus(o)
    }
    fn spec_minus(self, o: F) -> F {
        self.minus(o)
    }
    fn spec_times(self, o: F) -> F {
        self.times(o)
    }
    fn spec_over(self, o: F) -> F {
        self.over(o)
    }
    fn spec_finite(self) -> bool {
        self.finite()
    }
    fn spec_negate(self) -> F {
        self.negate()
    }
    fn spec_magnitude(self) -> F {
        self.magnitude()
    }
    fn spec_square_root(self) -> F {
        self.square_root()
    }
    fn spec_power(self, e: F) -> F {
        self.power(e)
    }
    fn spec_ten_to(e: i32) -> F {
        F::ten_to(e)
    }
    fn spec_floor_of(self) -> F {
        self.floor_of()
    }
    fn spec_ceil_of(self) -> F {
        self.ceil_of()
    }
    fn spec_trunc_of(self) -> F {
        self.trunc_of()
    }
    fn spec_round_of(self) -> F {
        self.round_of()
    }
    fn spec_sign_negative(self) -> bool {
        self.sign_negative()
    }
    fn spec_ln(self) -> F {
        self.ln()
    }
    fn spec_log10(self) -> F {
        self.log10()
    }
    fn spec_exp(self) -> F {
        self.exp()
    }
    fn spec_trunc_int(self) -> i64 {
        self.trunc_int()
    }
    fn spec_floor_int(self) -> i64 {
        self.floor_int()
    }
    fn spec_trunc_u64(self) -> u64 {
        self.trunc_u64()
    }
    fn spec_from_u128(i: u128) -> F {
        F::from_u128(i)
    }
    fn from_int(i: i64) -> F {
        F(i as f64)
    }
    fn plus(self, o: F) -> F {
        F(self.0 + o.0)
    }
    fn minus(self, o: F) -> F {
        F(self.0 - o.0)
    }
    fn times(self, o: F) -> F {
        F(self.0 * o.0)
    }
    fn over(self, o: F) -> F {
        F(self.0 / o.0)
    }
    fn negate(self) -> F {
        F(-self.0)
    }
    fn magnitude(self) -> F {
        F(self.0.abs())
    }
    fn power(self, e: F) -> F {
        F(self.0.powf(e.0))
    }
    fn ten_to(e: i32) -> F {
        F(10f64.powi(e))
    }
    fn square_root(self) -> F {
        F(self.0.sqrt())
    }
    fn floor_of(self) -> F {
        F(self.0.floor())
    }
    fn ceil_of(self) -> F {
        F(self.0.ceil())
    }
    fn trunc_of(self) -> F {
        F(self.0.trunc())
    }
    fn round_of(self) -> F {
        F(self.0.round())
    }
    fn finite(self) -> bool {
        self.0.is_finite()
    }
    fn sign_negative(self) -> bool {
        self.0.is_sign_negative()
    }
    fn ln(self) -> F {
        F(self.0.ln())
    }
    fn log10(self) -> F {
        F(self.0.log10())
    }
    fn exp(self) -> F {
        F(self.0.exp())
    }
    fn order(self, o: F) -> Option<Order> {
        match self.0.partial_cmp(&o.0) {
            Some(std::cmp::Ordering::Less) => Some(Order::Less),
            Some(std::cmp::Ordering::Equal) => Some(Order::Equal),
            Some(std::cmp::Ordering::Greater) => Some(Order::Greater),
            None => None,
        }
    }
    fn trunc_int(self) -> i64 {
        self.0.trunc() as i64
    }
    fn floor_int(self) -> i64 {
        self.0.floor() as i64
    }
    fn trunc_u64(self) -> u64 {
        self.0.trunc() as u64
    }
    fn from_u128(i: u128) -> F {
        F(i as f64)
    }
    fn parse_text(text: &str) -> Option<F> {
        match text.parse::<f64>() {
            Ok(n) if n.is_finite() => Some(F(n)),
            _ => None,
        }
    }
    fn general_text(self) -> String {
        format!("{}", self.0)
    }
    fn whole_text(self) -> String {
        format!("{:.0}", self.0)
    }
}

/// The clock every test workbook is pinned to: 2023-01-01T12:00.
const PINNED_NOW_SERIAL: f64 = 44927.5;

/// The draw every test workbook's randomness source is pinned to.
const PINNED_RAND_UNIT: f64 = 0.75;

/// An in-memory workbook: a default sheet `Sheet1` plus named sheets, each a row-major grid.
struct Grid {
    sheets: Vec<(String, usize, Vec<Value>)>,
    formulas: Vec<(usize, u32, u32)>,
}

impl Grid {
    fn new(cols: usize, cells: Vec<Value>) -> Grid {
        Grid { sheets: vec![("Sheet1".to_string(), cols, cells)], formulas: Vec::new() }
    }
    #[allow(dead_code)]
    fn with_formula(mut self, sheet: usize, col: u32, row: u32) -> Grid {
        self.formulas.push((sheet, col, row));
        self
    }
    fn with_sheet(mut self, name: &str, cols: usize, cells: Vec<Value>) -> Grid {
        self.sheets.push((name.to_string(), cols, cells));
        self
    }
    fn cell(&self, sheet: usize, col: u32, row: u32) -> Value {
        let (_, cols, cells) = &self.sheets[sheet];
        let (c, r) = (col as usize, row as usize);
        if c < *cols {
            if let Some(v) = cells.get(r * cols + c) {
                return v.duplicate();
            }
        }
        Value::Blank
    }
}

impl Resolver<F> for Grid {
    fn spec_sheet_id(&self, name: &String) -> Option<SheetId> {
        self.sheet_id(name)
    }
    fn spec_is_formula(&self, cell: CellAddr) -> bool {
        self.is_formula(cell)
    }
    fn spec_value(&self, cell: CellAddr) -> Value {
        self.value(cell)
    }
    fn spec_range(&self, range: RangeAddr) -> ArrayView<F> {
        self.range(range)
    }
    fn sheet_id(&self, name: &str) -> Option<SheetId> {
        self.sheets
            .iter()
            .position(|(n, _, _)| n.eq_ignore_ascii_case(name))
            .map(|i| SheetId(i as u32))
    }
    fn value(&self, cell: CellAddr) -> Value {
        let s = cell.sheet.map(|s| s.0 as usize).unwrap_or(0);
        self.cell(s, cell.col, cell.row)
    }
    fn range(&self, range: RangeAddr) -> ArrayView<F> {
        let s = range.sheet.map(|s| s.0 as usize).unwrap_or(0);
        let rows = range.end_row - range.start_row + 1;
        let cols = range.end_col - range.start_col + 1;
        let mut cells = Vec::new();
        for r in range.start_row..=range.end_row {
            for c in range.start_col..=range.end_col {
                cells.push(self.cell(s, c, r));
            }
        }
        ArrayView { shape: Shape { rows, cols }, cells }
    }
    fn now_serial(&self) -> F {
        F(PINNED_NOW_SERIAL)
    }
    fn rand_unit(&self) -> F {
        F(PINNED_RAND_UNIT)
    }
    fn is_formula(&self, cell: CellAddr) -> bool {
        let s = cell.sheet.map(|s| s.0 as usize).unwrap_or(0);
        self.formulas.contains(&(s, cell.col, cell.row))
    }
}

use charlie_ast::diag::{DiagCode, Span};
use charlie_ast::eval::eval;
use charlie_ast::expr::{BinOp, FuncId, RangeNode, RefNode};
use charlie_ast::func::{def, funcs, lookup};
use charlie_ast::value::ErrKind;

fn num(n: f64) -> Expr {
    Expr::Lit(Value::Number(F(n)))
}
fn call(name: &str, args: Vec<Expr>) -> Expr {
    Expr::Call(lookup(name).expect("known function"), args)
}
/// A full-column range A1:A{rows} over a 1-wide grid (contiguous in the stub).
fn col_range(rows: u32) -> Expr {
    Expr::Range(RangeNode {
        start_col: 0,
        start_row: 0,
        end_col: 0,
        end_row: rows - 1,
        sheet: None,
    })
}

#[test]
fn func_registry_is_self_consistent() {
    // Names unique (case-insensitively), index == FuncId, arity bounds well-formed.
    for (i, f) in funcs().iter().enumerate() {
        assert_eq!(
            lookup(f.name),
            Some(FuncId(i as u32)),
            "name maps to its index"
        );
        assert_eq!(def(FuncId(i as u32)).unwrap().name, f.name);
        if let Some(max) = f.max_args {
            assert!(max >= f.min_args, "{}: max >= min", f.name);
        }
        assert!(
            f.name.chars().all(|c| c.is_ascii_uppercase()),
            "UPPERCASE name"
        );
    }
    let mut names: Vec<String> = funcs().iter().map(|f| f.name.to_ascii_uppercase()).collect();
    let before = names.len();
    names.sort();
    names.dedup();
    assert_eq!(before, names.len(), "function names are unique");
    // case-insensitive lookup
    assert_eq!(lookup("sum"), lookup("SUM"));
    assert_eq!(lookup("NoSuchFn"), None);
}

#[test]
fn func_sum_average_count_over_a_range_with_mixed_cells() {
    // A1..A5 = 1, "x"(text), TRUE(bool), <blank>, 4  -> numbers are {1, 4}
    let g = Grid::new(
        1,
        vec![
            Value::Number(F(1.0)),
            Value::Text("x".into()),
            Value::Bool(true),
            Value::Blank,
            Value::Number(F(4.0)),
        ],
    );
    assert_eq!(
        eval(&call("SUM", vec![col_range(5)]), &g),
        Value::Number(F(5.0))
    );
    assert_eq!(
        eval(&call("AVERAGE", vec![col_range(5)]), &g),
        Value::Number(F(2.5))
    );
    // COUNT counts only the two numbers (in-range bool/text ignored).
    assert_eq!(
        eval(&call("COUNT", vec![col_range(5)]), &g),
        Value::Number(F(2.0))
    );
}

#[test]
fn func_direct_vs_in_range_coercion_asymmetry() {
    let g = Grid::new(1, vec![Value::Blank]);
    // Direct booleans/numeric-text coerce and count.
    assert_eq!(
        eval(
            &call(
                "SUM",
                vec![
                    num(1.0),
                    Expr::Lit(Value::Bool(true)),
                    Expr::Lit(Value::Text("2".into()))
                ]
            ),
            &g
        ),
        Value::Number(F(4.0))
    );
    assert_eq!(
        eval(
            &call(
                "COUNT",
                vec![
                    Expr::Lit(Value::Bool(true)),
                    Expr::Lit(Value::Text("3".into()))
                ]
            ),
            &g
        ),
        Value::Number(F(2.0))
    );
    // A direct non-numeric text is #VALUE! for SUM.
    assert_eq!(
        eval(&call("SUM", vec![Expr::Lit(Value::Text("x".into()))]), &g),
        Value::Error(ErrKind::Value)
    );
}

#[test]
fn func_sum_propagates_but_count_ignores_errors() {
    let g = Grid::new(
        1,
        vec![
            Value::Number(F(1.0)),
            Value::Error(ErrKind::Div0),
            Value::Number(F(2.0)),
        ],
    );
    assert_eq!(
        eval(&call("SUM", vec![col_range(3)]), &g),
        Value::Error(ErrKind::Div0)
    );
    // COUNT never returns an error from its data.
    assert_eq!(
        eval(&call("COUNT", vec![col_range(3)]), &g),
        Value::Number(F(2.0))
    );
}

#[test]
fn func_if_is_lazy_and_iferror_catches() {
    let g = Grid::new(1, vec![Value::Blank]);
    // IF(TRUE, 1, 1/0) -> 1 (else branch not evaluated).
    let div0 = || Expr::Binary(
        BinOp::Div,
        Box::new(num(1.0)),
        Box::new(num(0.0)),
    );
    let e = call(
        "IF",
        vec![Expr::Lit(Value::Bool(true)), num(1.0), div0()],
    );
    assert_eq!(eval(&e, &g), Value::Number(F(1.0)));
    // Two-arg false -> FALSE.
    let e = call("IF", vec![Expr::Lit(Value::Bool(false)), num(1.0)]);
    assert_eq!(eval(&e, &g), Value::Bool(false));
    // IFERROR(1/0, 99) -> 99.
    let e = call("IFERROR", vec![div0(), num(99.0)]);
    assert_eq!(eval(&e, &g), Value::Number(F(99.0)));
    // IFERROR passes a non-error through.
    let e = call("IFERROR", vec![num(7.0), num(99.0)]);
    assert_eq!(eval(&e, &g), Value::Number(F(7.0)));
}

#[test]
fn func_and_or_semantics() {
    let g = Grid::new(1, vec![Value::Blank]);
    assert_eq!(
        eval(
            &call("AND", vec![Expr::Lit(Value::Bool(true)), num(1.0)]),
            &g
        ),
        Value::Bool(true)
    );
    assert_eq!(
        eval(
            &call("AND", vec![Expr::Lit(Value::Bool(true)), num(0.0)]),
            &g
        ),
        Value::Bool(false)
    );
    assert_eq!(
        eval(
            &call(
                "OR",
                vec![num(0.0), Expr::Lit(Value::Bool(false)), num(1.0)]
            ),
            &g
        ),
        Value::Bool(true)
    );
    // error propagates
    assert_eq!(
        eval(
            &call(
                "AND",
                vec![
                    Expr::Lit(Value::Error(ErrKind::Ref)),
                    Expr::Lit(Value::Bool(true))
                ]
            ),
            &g
        ),
        Value::Error(ErrKind::Ref)
    );
}

#[test]
fn func_abs_and_round() {
    let g = Grid::new(1, vec![Value::Blank]);
    assert_eq!(eval(&call("ABS", vec![num(-5.0)]), &g), Value::Number(F(5.0)));
    assert_eq!(
        eval(&call("ROUND", vec![num(1.2345), num(2.0)]), &g),
        Value::Number(F(1.23))
    );
    // ties away from zero
    assert_eq!(
        eval(&call("ROUND", vec![num(2.5), num(0.0)]), &g),
        Value::Number(F(3.0))
    );
    assert_eq!(
        eval(&call("ROUND", vec![num(-2.5), num(0.0)]), &g),
        Value::Number(F(-3.0))
    );
    // negative digits round left of the point
    assert_eq!(
        eval(&call("ROUND", vec![num(1234.0), num(-2.0)]), &g),
        Value::Number(F(1200.0))
    );
}

#[test]
fn func_math_batch_scalar_semantics() {
    let g = Grid::new(1, vec![Value::Blank]);
    // MOD sign follows the divisor.
    assert_eq!(
        eval(&call("MOD", vec![num(7.0), num(3.0)]), &g),
        Value::Number(F(1.0))
    );
    assert_eq!(
        eval(&call("MOD", vec![num(7.0), num(-3.0)]), &g),
        Value::Number(F(-2.0))
    );
    assert_eq!(
        eval(&call("MOD", vec![num(-7.0), num(3.0)]), &g),
        Value::Number(F(2.0))
    );
    assert_eq!(
        eval(&call("MOD", vec![num(5.0), num(0.0)]), &g),
        Value::Error(ErrKind::Div0)
    );
    // INT floors toward −∞ (not toward zero).
    assert_eq!(eval(&call("INT", vec![num(-2.5)]), &g), Value::Number(F(-3.0)));
    assert_eq!(eval(&call("INT", vec![num(2.9)]), &g), Value::Number(F(2.0)));
    // SQRT of a negative is #NUM!.
    assert_eq!(eval(&call("SQRT", vec![num(16.0)]), &g), Value::Number(F(4.0)));
    assert_eq!(
        eval(&call("SQRT", vec![num(-4.0)]), &g),
        Value::Error(ErrKind::Num)
    );
    // POWER shares the operator's error mapping.
    assert_eq!(
        eval(&call("POWER", vec![num(2.0), num(10.0)]), &g),
        Value::Number(F(1024.0))
    );
    assert_eq!(
        eval(&call("POWER", vec![num(0.0), num(-1.0)]), &g),
        Value::Error(ErrKind::Div0)
    );
    assert_eq!(
        eval(&call("POWER", vec![num(-8.0), num(0.5)]), &g),
        Value::Error(ErrKind::Num)
    );
    // ROUNDUP away from zero; ROUNDDOWN toward zero; negative digits shift left.
    assert_eq!(
        eval(&call("ROUNDUP", vec![num(1.234), num(2.0)]), &g),
        Value::Number(F(1.24))
    );
    assert_eq!(
        eval(&call("ROUNDUP", vec![num(-1.234), num(2.0)]), &g),
        Value::Number(F(-1.24))
    );
    assert_eq!(
        eval(&call("ROUNDDOWN", vec![num(1.789), num(2.0)]), &g),
        Value::Number(F(1.78))
    );
    assert_eq!(
        eval(&call("ROUNDDOWN", vec![num(3.99999), num(0.0)]), &g),
        Value::Number(F(3.0))
    );
}

#[test]
fn func_ceiling_floor_sign_and_zero_asymmetry() {
    let g = Grid::new(1, vec![Value::Blank]);
    // Away-from-zero / toward-zero to a multiple.
    assert_eq!(
        eval(&call("CEILING", vec![num(2.5), num(1.0)]), &g),
        Value::Number(F(3.0))
    );
    assert_eq!(
        eval(&call("FLOOR", vec![num(2.5), num(1.0)]), &g),
        Value::Number(F(2.0))
    );
    assert_eq!(
        eval(&call("CEILING", vec![num(-2.5), num(-2.0)]), &g),
        Value::Number(F(-4.0))
    );
    assert_eq!(
        eval(&call("FLOOR", vec![num(-2.5), num(-2.0)]), &g),
        Value::Number(F(-2.0))
    );
    // Different-signed args are #NUM! for both.
    assert_eq!(
        eval(&call("CEILING", vec![num(2.5), num(-1.0)]), &g),
        Value::Error(ErrKind::Num)
    );
    assert_eq!(
        eval(&call("FLOOR", vec![num(2.5), num(-1.0)]), &g),
        Value::Error(ErrKind::Num)
    );
    // Zero significance: CEILING → 0, FLOOR → #DIV/0! (the legacy asymmetry).
    assert_eq!(
        eval(&call("CEILING", vec![num(5.0), num(0.0)]), &g),
        Value::Number(F(0.0))
    );
    assert_eq!(
        eval(&call("FLOOR", vec![num(5.0), num(0.0)]), &g),
        Value::Error(ErrKind::Div0)
    );
}

#[test]
fn func_product_and_sumproduct_semantics() {
    // PRODUCT over a range multiplies the numbers; a range with no numbers is 0.
    let g = Grid::new(
        1,
        vec![Value::Number(F(2.0)), Value::Number(F(3.0)), Value::Number(F(4.0))],
    );
    assert_eq!(
        eval(&call("PRODUCT", vec![col_range(3)]), &g),
        Value::Number(F(24.0))
    );
    // Direct-arg coercion mirrors SUM (bool → 1/0, numeric-text parses).
    assert_eq!(
        eval(
            &call(
                "PRODUCT",
                vec![
                    num(2.0),
                    Expr::Lit(Value::Bool(true)),
                    Expr::Lit(Value::Text("3".into()))
                ]
            ),
            &g
        ),
        Value::Number(F(6.0))
    );
    // Empty product (no numeric datum) is 0, not the 1 identity.
    let blank = Grid::new(1, vec![Value::Text("x".into()), Value::Blank]);
    assert_eq!(
        eval(&call("PRODUCT", vec![col_range(2)]), &blank),
        Value::Number(F(0.0))
    );
    // SUMPRODUCT multiplies aligned arrays then sums (array literals sidestep the whole-row
    // stub, which cannot window a single column of a multi-column grid).
    let col3 = |a: f64, b: f64, c: f64| {
        Expr::Lit(Value::Array(
            Shape { rows: 3, cols: 1 },
            vec![Value::Number(F(a)), Value::Number(F(b)), Value::Number(F(c))],
        ))
    };
    assert_eq!(
        eval(
            &call("SUMPRODUCT", vec![col3(1.0, 2.0, 3.0), col3(4.0, 5.0, 6.0)]),
            &g
        ),
        Value::Number(F(32.0))
    );
    // A shape mismatch (3×1 vs 2×1) is a static #VALUE!.
    let col2 = Expr::Lit(Value::Array(
        Shape { rows: 2, cols: 1 },
        vec![Value::Number(F(4.0)), Value::Number(F(5.0))],
    ));
    assert_eq!(
        eval(&call("SUMPRODUCT", vec![col3(1.0, 2.0, 3.0), col2]), &g),
        Value::Error(ErrKind::Value)
    );
    // A non-numeric cell counts as 0 (so an unfiltered text zeroes its product term).
    let with_text = Expr::Lit(Value::Array(
        Shape { rows: 3, cols: 1 },
        vec![
            Value::Number(F(2.0)),
            Value::Text("x".into()),
            Value::Number(F(4.0)),
        ],
    ));
    assert_eq!(
        eval(
            &call("SUMPRODUCT", vec![with_text, col3(5.0, 5.0, 5.0)]),
            &g
        ),
        Value::Number(F(30.0))
    );
}

#[test]
fn func_dispatch_guards_synthesized_off_arity_and_bad_id_without_panicking() {
    // A synthesized off-arity Call (the parser would refuse these via BadArity) must NOT panic
    // the positional built-ins — dispatch's arity gate turns each into #VALUE!.
    let g = Grid::new(1, vec![Value::Blank]);
    // IF/IFERROR/ROUND handed too few args; ABS handed too many.
    assert_eq!(eval(&call("IF", vec![]), &g), Value::Error(ErrKind::Value));
    assert_eq!(
        eval(&call("IFERROR", vec![num(1.0)]), &g),
        Value::Error(ErrKind::Value)
    );
    assert_eq!(
        eval(&call("ROUND", vec![num(1.0)]), &g),
        Value::Error(ErrKind::Value)
    );
    assert_eq!(
        eval(&call("ABS", vec![num(1.0), num(2.0)]), &g),
        Value::Error(ErrKind::Value)
    );
    // An out-of-range (synthesized) FuncId stays #NAME? — the sibling guard.
    assert_eq!(
        eval(&Expr::Call(FuncId(9999), vec![]), &g),
        Value::Error(ErrKind::Name)
    );
}

#[test]
fn func_min_max_range_vs_direct_arg_asymmetry() {
    // In a RANGE, text/blank/logical are ignored (only numbers) — so TRUE does NOT count as 1.
    let g = Grid::new(
        1,
        vec![
            Value::Number(F(-5.0)),
            Value::Bool(true),
            Value::Blank,
            Value::Number(F(-2.0)),
        ],
    );
    assert_eq!(
        eval(&call("MIN", vec![col_range(4)]), &g),
        Value::Number(F(-5.0))
    );
    assert_eq!(
        eval(&call("MAX", vec![col_range(4)]), &g),
        Value::Number(F(-2.0))
    );
    // DIRECT booleans/numeric-text coerce (TRUE -> 1), the asymmetry's other half.
    let b = Grid::new(1, vec![Value::Blank]);
    assert_eq!(
        eval(
            &call(
                "MAX",
                vec![num(-5.0), Expr::Lit(Value::Bool(true)), num(-2.0)]
            ),
            &b
        ),
        Value::Number(F(1.0))
    );
    assert_eq!(
        eval(
            &call("MIN", vec![num(3.0), Expr::Lit(Value::Text("2".into()))]),
            &b
        ),
        Value::Number(F(2.0))
    );
    // No numeric datum -> 0 (Excel), and an in-range error propagates.
    let empty = Grid::new(1, vec![Value::Text("x".into()), Value::Blank]);
    assert_eq!(
        eval(&call("MIN", vec![col_range(2)]), &empty),
        Value::Number(F(0.0))
    );
    let with_err = Grid::new(1, vec![Value::Number(F(5.0)), Value::Error(ErrKind::Div0)]);
    assert_eq!(
        eval(&call("MAX", vec![col_range(2)]), &with_err),
        Value::Error(ErrKind::Div0)
    );
}

#[test]
fn func_median_even_averages_two_middles_and_empty_is_num() {
    // Even count {1,2,3,4} -> (2+3)/2 = 2.5 (in-range text ignored).
    let g = Grid::new(
        1,
        vec![
            Value::Number(F(1.0)),
            Value::Number(F(2.0)),
            Value::Text("x".into()),
            Value::Number(F(3.0)),
            Value::Number(F(4.0)),
        ],
    );
    assert_eq!(
        eval(&call("MEDIAN", vec![col_range(5)]), &g),
        Value::Number(F(2.5))
    );
    // Odd count -> the exact middle.
    let odd = Grid::new(
        1,
        vec![
            Value::Number(F(5.0)),
            Value::Number(F(3.0)),
            Value::Number(F(1.0)),
            Value::Number(F(4.0)),
            Value::Number(F(2.0)),
        ],
    );
    assert_eq!(
        eval(&call("MEDIAN", vec![col_range(5)]), &odd),
        Value::Number(F(3.0))
    );
    // No numeric datum -> #NUM! (distinct from MIN/MAX's 0); an error propagates.
    let empty = Grid::new(1, vec![Value::Text("x".into()), Value::Blank]);
    assert_eq!(
        eval(&call("MEDIAN", vec![col_range(2)]), &empty),
        Value::Error(ErrKind::Num)
    );
    let with_err = Grid::new(1, vec![Value::Number(F(1.0)), Value::Error(ErrKind::Ref)]);
    assert_eq!(
        eval(&call("MEDIAN", vec![col_range(2)]), &with_err),
        Value::Error(ErrKind::Ref)
    );
}

#[test]
fn func_rank_descending_default_ties_share_lowest_and_missing_is_na() {
    // {10,8,8,5}: RANK(8) descending -> 2 (one value strictly greater); both 8s share rank 2.
    let g = Grid::new(
        1,
        vec![
            Value::Number(F(10.0)),
            Value::Number(F(8.0)),
            Value::Number(F(8.0)),
            Value::Number(F(5.0)),
        ],
    );
    assert_eq!(
        eval(&call("RANK", vec![num(8.0), col_range(4)]), &g),
        Value::Number(F(2.0))
    );
    // Ascending (non-zero order): RANK(10, …, 1) -> 4 (three strictly less).
    assert_eq!(
        eval(&call("RANK", vec![num(10.0), col_range(4), num(1.0)]), &g),
        Value::Number(F(4.0))
    );
    // A number not present in ref is #N/A.
    assert_eq!(
        eval(&call("RANK", vec![num(7.0), col_range(4)]), &g),
        Value::Error(ErrKind::Na)
    );
    // A non-numeric `number` argument is #VALUE!.
    assert_eq!(
        eval(
            &call(
                "RANK",
                vec![Expr::Lit(Value::Text("x".into())), col_range(4)]
            ),
            &g
        ),
        Value::Error(ErrKind::Value)
    );
}

#[test]
fn func_counta_and_countblank_over_a_range() {
    // A1..A5 = 1, "", "x", <blank>, #N/A. COUNTA counts non-empty: 1, "", "x", #N/A = 4
    // (the empty-string "" is non-empty; error counts; only the blank does not).
    let g = Grid::new(
        1,
        vec![
            Value::Number(F(1.0)),
            Value::Text(String::new()),
            Value::Text("x".into()),
            Value::Blank,
            Value::Error(ErrKind::Na),
        ],
    );
    assert_eq!(
        eval(&call("COUNTA", vec![col_range(5)]), &g),
        Value::Number(F(4.0))
    );
    // COUNTBLANK counts the empty: the "" AND the <blank> = 2 (error/number/text not blank).
    assert_eq!(
        eval(&call("COUNTBLANK", vec![col_range(5)]), &g),
        Value::Number(F(2.0))
    );
    // COUNTA of a direct blank does not count it; a direct value does.
    let b = Grid::new(1, vec![Value::Blank]);
    assert_eq!(
        eval(&call("COUNTA", vec![Expr::Lit(Value::Blank), num(1.0)]), &b),
        Value::Number(F(1.0))
    );
}

#[test]
fn func_ifs_first_true_wins_lazily_and_none_is_na() {
    let g = Grid::new(1, vec![Value::Blank]);
    let t = || Expr::Lit(Value::Bool(true));
    let f = || Expr::Lit(Value::Bool(false));
    let div0 = || {
        Expr::Binary(
            BinOp::Div,
            Box::new(num(1.0)),
            Box::new(num(0.0)),
        )
    };
    // First TRUE test's value wins; the earlier FALSE pair's value is skipped.
    assert_eq!(
        eval(
            &call("IFS", vec![f(), num(1.0), t(), num(2.0), t(), num(3.0)]),
            &g
        ),
        Value::Number(F(2.0))
    );
    // Lazy: the unreached value (1/0) after the first match is never evaluated.
    assert_eq!(
        eval(&call("IFS", vec![t(), num(1.0), t(), div0()]), &g),
        Value::Number(F(1.0))
    );
    // No TRUE test -> #N/A.
    assert_eq!(
        eval(&call("IFS", vec![f(), num(1.0), f(), num(2.0)]), &g),
        Value::Error(ErrKind::Na)
    );
    // A test that errors propagates (evaluated before any match).
    assert_eq!(
        eval(&call("IFS", vec![div0(), num(1.0), t(), num(2.0)]), &g),
        Value::Error(ErrKind::Div0)
    );
    // An odd argument count (dangling test) is a structural #VALUE!.
    assert_eq!(
        eval(&call("IFS", vec![f(), num(1.0), t()]), &g),
        Value::Error(ErrKind::Value)
    );
}

#[test]
fn func_not_coerces_and_propagates() {
    let g = Grid::new(1, vec![Value::Blank]);
    assert_eq!(
        eval(&call("NOT", vec![Expr::Lit(Value::Bool(true))]), &g),
        Value::Bool(false)
    );
    // A non-zero number coerces to TRUE -> NOT is FALSE; zero -> TRUE.
    assert_eq!(eval(&call("NOT", vec![num(5.0)]), &g), Value::Bool(false));
    assert_eq!(eval(&call("NOT", vec![num(0.0)]), &g), Value::Bool(true));
    // A non-logical text is #VALUE!; an error propagates.
    assert_eq!(
        eval(&call("NOT", vec![Expr::Lit(Value::Text("x".into()))]), &g),
        Value::Error(ErrKind::Value)
    );
    assert_eq!(
        eval(&call("NOT", vec![Expr::Lit(Value::Error(ErrKind::Na))]), &g),
        Value::Error(ErrKind::Na)
    );
}

#[test]
fn func_ifna_catches_only_na() {
    let g = Grid::new(1, vec![Value::Blank]);
    // Catches #N/A.
    assert_eq!(
        eval(
            &call(
                "IFNA",
                vec![Expr::Lit(Value::Error(ErrKind::Na)), num(99.0)]
            ),
            &g
        ),
        Value::Number(F(99.0))
    );
    // Passes a normal value through.
    assert_eq!(
        eval(&call("IFNA", vec![num(42.0), num(99.0)]), &g),
        Value::Number(F(42.0))
    );
    // Does NOT catch a different error (the distinction from IFERROR).
    assert_eq!(
        eval(
            &call(
                "IFNA",
                vec![Expr::Lit(Value::Error(ErrKind::Div0)), num(99.0)]
            ),
            &g
        ),
        Value::Error(ErrKind::Div0)
    );
}

#[test]
fn func_switch_matches_first_with_optional_default() {
    let g = Grid::new(1, vec![Value::Blank]);
    let txt = |s: &str| Expr::Lit(Value::Text(s.into()));
    // Matches the second value.
    assert_eq!(
        eval(
            &call(
                "SWITCH",
                vec![
                    num(2.0),
                    num(1.0),
                    txt("one"),
                    num(2.0),
                    txt("two"),
                    num(3.0),
                    txt("three")
                ]
            ),
            &g
        ),
        Value::Text("two".into())
    );
    // No match + trailing default -> the default; no match + no default -> #N/A.
    assert_eq!(
        eval(
            &call("SWITCH", vec![num(9.0), num(1.0), txt("one"), txt("none")]),
            &g
        ),
        Value::Text("none".into())
    );
    assert_eq!(
        eval(&call("SWITCH", vec![num(9.0), num(1.0), txt("one")]), &g),
        Value::Error(ErrKind::Na)
    );
    // Text matching is case-insensitive (Excel `=`).
    assert_eq!(
        eval(
            &call("SWITCH", vec![txt("hello"), txt("HELLO"), num(1.0)]),
            &g
        ),
        Value::Number(F(1.0))
    );
    // The expression's error propagates.
    let div0 = Expr::Binary(
        BinOp::Div,
        Box::new(num(1.0)),
        Box::new(num(0.0)),
    );
    assert_eq!(
        eval(
            &call("SWITCH", vec![div0, num(1.0), txt("one"), txt("def")]),
            &g
        ),
        Value::Error(ErrKind::Div0)
    );
}

#[test]
fn func_arity_bounds() {
    let sum = def(lookup("SUM").unwrap()).unwrap();
    assert!(!sum.arity_ok(0));
    assert!(sum.arity_ok(1) && sum.arity_ok(99));
    let iff = def(lookup("IF").unwrap()).unwrap();
    assert!(!iff.arity_ok(1) && iff.arity_ok(2) && iff.arity_ok(3) && !iff.arity_ok(4));
}

// ---- Text batch v1 ------------------------------------------------------------------------

fn txt(s: &str) -> Expr {
    Expr::Lit(Value::Text(s.into()))
}
fn text(v: Value) -> String {
    match v {
        Value::Text(t) => t,
        other => panic!("expected Text, got {other:?}"),
    }
}

#[test]
fn func_concat_and_textjoin() {
    let g = Grid::new(1, vec![Value::Blank]);
    // CONCAT stringifies each arg (number → general text, bool → TRUE/FALSE).
    assert_eq!(
        eval(
            &call(
                "CONCAT",
                vec![txt("a"), num(1.0), Expr::Lit(Value::Bool(true))]
            ),
            &g
        ),
        Value::Text("a1TRUE".into())
    );
    // CONCAT flattens a range (in-range blank → "").
    let r = Grid::new(
        1,
        vec![Value::Text("x".into()), Value::Blank, Value::Number(F(2.0))],
    );
    assert_eq!(
        eval(&call("CONCAT", vec![col_range(3)]), &r),
        Value::Text("x2".into())
    );
    // TEXTJOIN with ignore_empty=TRUE drops the blank; delimiter between kept pieces.
    assert_eq!(
        eval(
            &call(
                "TEXTJOIN",
                vec![txt("-"), Expr::Lit(Value::Bool(true)), col_range(3)]
            ),
            &r
        ),
        Value::Text("x-2".into())
    );
    // ignore_empty=FALSE keeps the empty slot (doubled delimiter).
    assert_eq!(
        eval(
            &call(
                "TEXTJOIN",
                vec![txt("-"), Expr::Lit(Value::Bool(false)), col_range(3)]
            ),
            &r
        ),
        Value::Text("x--2".into())
    );
    // An error anywhere propagates.
    let e = Grid::new(1, vec![Value::Number(F(1.0)), Value::Error(ErrKind::Div0)]);
    assert_eq!(
        eval(&call("CONCAT", vec![col_range(2)]), &e),
        Value::Error(ErrKind::Div0)
    );
}

#[test]
fn func_left_right_mid_len_clamp_and_coerce() {
    let g = Grid::new(1, vec![Value::Blank]);
    assert_eq!(
        text(eval(&call("LEFT", vec![txt("hello"), num(2.0)]), &g)),
        "he"
    );
    assert_eq!(text(eval(&call("LEFT", vec![txt("hi")]), &g)), "h"); // default 1
    assert_eq!(
        text(eval(&call("RIGHT", vec![txt("hello"), num(3.0)]), &g)),
        "llo"
    );
    // Out-of-range count clamps to the whole string.
    assert_eq!(
        text(eval(&call("LEFT", vec![txt("hi"), num(99.0)]), &g)),
        "hi"
    );
    // Negative count is #VALUE!.
    assert_eq!(
        eval(&call("LEFT", vec![txt("hi"), num(-1.0)]), &g),
        Value::Error(ErrKind::Value)
    );
    // MID from 1-based start, clamped take; start past end → "".
    assert_eq!(
        text(eval(
            &call("MID", vec![txt("hello"), num(2.0), num(3.0)]),
            &g
        )),
        "ell"
    );
    assert_eq!(
        text(eval(
            &call("MID", vec![txt("hello"), num(10.0), num(3.0)]),
            &g
        )),
        ""
    );
    assert_eq!(
        eval(&call("MID", vec![txt("hi"), num(0.0), num(1.0)]), &g),
        Value::Error(ErrKind::Value)
    );
    // LEN over the general text of non-text values.
    assert_eq!(
        eval(&call("LEN", vec![txt("hello")]), &g),
        Value::Number(F(5.0))
    );
    assert_eq!(
        eval(&call("LEN", vec![Expr::Lit(Value::Bool(true))]), &g),
        Value::Number(F(4.0))
    );
}

#[test]
fn func_find_is_case_sensitive_search_is_wildcard() {
    let g = Grid::new(1, vec![Value::Blank]);
    // FIND: 1-based, case-SENSITIVE.
    assert_eq!(
        eval(&call("FIND", vec![txt("l"), txt("hello")]), &g),
        Value::Number(F(3.0))
    );
    assert_eq!(
        eval(&call("FIND", vec![txt("l"), txt("hello"), num(4.0)]), &g),
        Value::Number(F(4.0))
    );
    // Case mismatch → not found → #VALUE!.
    assert_eq!(
        eval(&call("FIND", vec![txt("H"), txt("hello")]), &g),
        Value::Error(ErrKind::Value)
    );
    // Empty needle returns start_num.
    assert_eq!(
        eval(&call("FIND", vec![txt(""), txt("abc")]), &g),
        Value::Number(F(1.0))
    );
    // SEARCH: case-INSENSITIVE and wildcards.
    assert_eq!(
        eval(&call("SEARCH", vec![txt("H"), txt("hello")]), &g),
        Value::Number(F(1.0))
    );
    assert_eq!(
        eval(&call("SEARCH", vec![txt("l?o"), txt("hello")]), &g),
        Value::Number(F(3.0))
    );
    assert_eq!(
        eval(&call("SEARCH", vec![txt("e*o"), txt("hello")]), &g),
        Value::Number(F(2.0))
    );
    // A literal `?` via `~?`.
    assert_eq!(
        eval(&call("SEARCH", vec![txt("~?"), txt("a?b")]), &g),
        Value::Number(F(2.0))
    );
    // start_num past len+1 is #VALUE!.
    assert_eq!(
        eval(&call("FIND", vec![txt("a"), txt("abc"), num(5.0)]), &g),
        Value::Error(ErrKind::Value)
    );
}

#[test]
fn func_search_multi_star_matches_and_terminates_fast() {
    // Regression: the wildcard matcher is iterative (single-star backtrack), so a MULTI-star
    // pattern is O(text·pattern), not the old exponential recursive backtracking (a ReDoS). Both
    // arms complete instantly; the no-match arm is the one that used to blow up.
    let g = Grid::new(1, vec![Value::Blank]);
    // Multi-star, leftmost anchored match at position 1.
    assert_eq!(
        eval(&call("SEARCH", vec![txt("h*o*d"), txt("hello world")]), &g),
        Value::Number(F(1.0))
    );
    // The pathological shape: many stars over a long run with NO final match → #VALUE!, fast.
    let hay = "a".repeat(64);
    assert_eq!(
        eval(&call("SEARCH", vec![txt("*a*a*a*a*a*z"), txt(&hay)]), &g),
        Value::Error(ErrKind::Value)
    );
}

#[test]
fn func_substitute_and_replace() {
    let g = Grid::new(1, vec![Value::Blank]);
    // SUBSTITUTE all occurrences.
    assert_eq!(
        text(eval(
            &call("SUBSTITUTE", vec![txt("a-b-c"), txt("-"), txt("+")]),
            &g
        )),
        "a+b+c"
    );
    // SUBSTITUTE the Nth only.
    assert_eq!(
        text(eval(
            &call(
                "SUBSTITUTE",
                vec![txt("a-b-c"), txt("-"), txt("+"), num(2.0)]
            ),
            &g
        )),
        "a-b+c"
    );
    // Empty old_text returns text unchanged.
    assert_eq!(
        text(eval(
            &call("SUBSTITUTE", vec![txt("abc"), txt(""), txt("X")]),
            &g
        )),
        "abc"
    );
    // instance_num < 1 is #VALUE!.
    assert_eq!(
        eval(
            &call("SUBSTITUTE", vec![txt("a-b"), txt("-"), txt("+"), num(0.0)]),
            &g
        ),
        Value::Error(ErrKind::Value)
    );
    // REPLACE positional splice.
    assert_eq!(
        text(eval(
            &call("REPLACE", vec![txt("abcdef"), num(2.0), num(3.0), txt("X")]),
            &g
        )),
        "aXef"
    );
    // start past end appends.
    assert_eq!(
        text(eval(
            &call("REPLACE", vec![txt("ab"), num(9.0), num(0.0), txt("!")]),
            &g
        )),
        "ab!"
    );
}

#[test]
fn func_trim_upper_lower() {
    let g = Grid::new(1, vec![Value::Blank]);
    assert_eq!(text(eval(&call("TRIM", vec![txt("  a   b  ")]), &g)), "a b");
    assert_eq!(text(eval(&call("UPPER", vec![txt("aBc")]), &g)), "ABC");
    assert_eq!(text(eval(&call("LOWER", vec![txt("aBc")]), &g)), "abc");
}

#[test]
fn func_text_format_subset_and_error_paths() {
    let g = Grid::new(1, vec![Value::Blank]);
    assert_eq!(
        text(eval(&call("TEXT", vec![num(12.5), txt("0.00")]), &g)),
        "12.50"
    );
    assert_eq!(
        text(eval(&call("TEXT", vec![num(-7.0), txt("0.00")]), &g)),
        "-7.00"
    );
    assert_eq!(
        text(eval(&call("TEXT", vec![num(1234567.0), txt("#,##0")]), &g)),
        "1,234,567"
    );
    assert_eq!(
        text(eval(&call("TEXT", vec![num(0.5), txt("0%")]), &g)),
        "50%"
    );
    assert_eq!(
        text(eval(&call("TEXT", vec![num(0.1234), txt("0.00%")]), &g)),
        "12.34%"
    );
    assert_eq!(
        text(eval(&call("TEXT", vec![num(5.0), txt("General")]), &g)),
        "5"
    );
    // The 1900 date system with the leap-year bug: serial 60 is the phantom 1900-02-29,
    // serial 61 is 1900-03-01, serial 44927 is 2023-01-01.
    assert_eq!(
        text(eval(
            &call("TEXT", vec![num(44927.0), txt("yyyy-mm-dd")]),
            &g
        )),
        "2023-01-01"
    );
    assert_eq!(
        text(eval(&call("TEXT", vec![num(60.0), txt("yyyy-mm-dd")]), &g)),
        "1900-02-29"
    );
    assert_eq!(
        text(eval(&call("TEXT", vec![num(61.0), txt("yyyy-mm-dd")]), &g)),
        "1900-03-01"
    );
    // Serial-band gate (regression: a large serial used to overflow `civil_from_days` — a panic
    // under overflow-checks, a wrapped nonsense date in release — instead of a located refusal).
    // The band `[1, MAX_SERIAL]` is refused as `#VALUE!` on BOTH edges plus `NaN`, never rendered.
    assert_eq!(
        eval(&call("TEXT", vec![num(1e300), txt("yyyy-mm-dd")]), &g),
        Value::Error(ErrKind::Value)
    );
    assert_eq!(
        eval(&call("TEXT", vec![num(2_958_466.0), txt("yyyy-mm-dd")]), &g),
        Value::Error(ErrKind::Value)
    );
    assert_eq!(
        eval(&call("TEXT", vec![num(0.0), txt("yyyy-mm-dd")]), &g),
        Value::Error(ErrKind::Value)
    );
    // The exact upper edge (9999-12-31 = serial 2958465) still renders.
    assert_eq!(
        text(eval(
            &call("TEXT", vec![num(2_958_465.0), txt("yyyy-mm-dd")]),
            &g
        )),
        "9999-12-31"
    );
    // Error propagation and a non-numeric value into a numeric format.
    assert_eq!(
        eval(
            &call(
                "TEXT",
                vec![Expr::Lit(Value::Error(ErrKind::Div0)), txt("0.00")]
            ),
            &g
        ),
        Value::Error(ErrKind::Div0)
    );
    assert_eq!(
        eval(&call("TEXT", vec![txt("abc"), txt("0.00")]), &g),
        Value::Error(ErrKind::Value)
    );
}

#[test]
fn func_text_unsupported_literal_format_is_a_parse_refusal() {
    let text_row = def(lookup("TEXT").unwrap()).unwrap();
    // =TEXT(1,"0.00"): a supported literal format is accepted.
    assert!(text_row.validate_args(&[num(1.0), txt("0.00")], Span::new(0, 16)).is_ok());
    // =TEXT(1,"$#,##0.00"): an unsupported literal format is a located `unsupported-format`
    // refusal, not a wrong guess.
    let d = text_row.validate_args(&[num(1.0), txt("$#,##0.00")], Span::new(0, 21)).unwrap_err();
    assert_eq!(d.code, DiagCode::UnsupportedFormat);
}

#[test]
fn func_text_nonliteral_format_is_accepted_and_deferred_to_eval() {
    // =TEXT(1,A1): a computed format cannot be vetted statically, so it is not refused up front.
    let a1 = Expr::Ref(RefNode { col: 0, row: 0, col_abs: false, row_abs: false, sheet: None });
    let expr = call("TEXT", vec![num(1.0), a1]);
    let text_row = def(lookup("TEXT").unwrap()).unwrap();
    match &expr {
        Expr::Call(_, args) => assert!(text_row.validate_args(args, Span::new(0, 11)).is_ok()),
        _ => unreachable!(),
    }
    // A1 resolves to a SUPPORTED format -> computes.
    let supported = Grid::new(1, vec![Value::Text("0.00".to_string())]);
    assert_eq!(eval(&expr, &supported), Value::Text("1.00".to_string()));
    // A1 resolves to an UNSUPPORTED format -> the deferred `#VALUE!`.
    let unsupported = Grid::new(1, vec![Value::Text("$#,##0.00".to_string())]);
    assert_eq!(eval(&expr, &unsupported), Value::Error(ErrKind::Value));
}

#[test]
fn func_date_builds_and_normalizes_a_serial() {
    let g = Grid::new(1, vec![Value::Blank]);
    // A plain in-range date (44927 = 2023-01-01, cross-checked against the TEXT date anchor).
    assert_eq!(
        eval(&call("DATE", vec![num(2023.0), num(1.0), num(1.0)]), &g),
        Value::Number(F(44927.0))
    );
    // Month roll-over: DATE(2008,14,2) = 2009-02-02 (independently 39846).
    assert_eq!(
        eval(&call("DATE", vec![num(2008.0), num(14.0), num(2.0)]), &g),
        Value::Number(F(39846.0))
    );
    // Day 0 rolls back to the last day of the previous month: DATE(2023,3,0) = 2023-02-28 (44985).
    assert_eq!(
        eval(&call("DATE", vec![num(2023.0), num(3.0), num(0.0)]), &g),
        Value::Number(F(44985.0))
    );
    // The two-digit year rule folds 0..=1899 by +1900: DATE(108,1,2) = 2008-01-02 (39449).
    assert_eq!(
        eval(&call("DATE", vec![num(108.0), num(1.0), num(2.0)]), &g),
        Value::Number(F(39449.0))
    );
    // A year past 9999 is #NUM!.
    assert_eq!(
        eval(&call("DATE", vec![num(10000.0), num(1.0), num(1.0)]), &g),
        Value::Error(ErrKind::Num)
    );
}

#[test]
fn func_year_month_day_read_a_serial_with_the_leap_bug() {
    let g = Grid::new(1, vec![Value::Blank]);
    // 44927 = 2023-01-01.
    assert_eq!(
        eval(&call("YEAR", vec![num(44927.0)]), &g),
        Value::Number(F(2023.0))
    );
    assert_eq!(
        eval(&call("MONTH", vec![num(44927.0)]), &g),
        Value::Number(F(1.0))
    );
    assert_eq!(
        eval(&call("DAY", vec![num(44957.0)]), &g),
        Value::Number(F(31.0)) // 2023-01-31
    );
    // The replicated leap-year bug: serial 60 is the fictional 1900-02-29.
    assert_eq!(
        eval(&call("YEAR", vec![num(60.0)]), &g),
        Value::Number(F(1900.0))
    );
    assert_eq!(
        eval(&call("MONTH", vec![num(60.0)]), &g),
        Value::Number(F(2.0))
    );
    assert_eq!(eval(&call("DAY", vec![num(60.0)]), &g), Value::Number(F(29.0)));
    // A serial before the epoch (< 1) is out of the supported domain → #NUM!.
    assert_eq!(
        eval(&call("YEAR", vec![num(0.0)]), &g),
        Value::Error(ErrKind::Num)
    );
}

#[test]
fn func_edate_clamps_to_end_of_month() {
    let g = Grid::new(1, vec![Value::Blank]);
    // One month forward from 2023-01-01 (44927) = 2023-02-01 (44958).
    assert_eq!(
        eval(&call("EDATE", vec![num(44927.0), num(1.0)]), &g),
        Value::Number(F(44958.0))
    );
    // Clamp: one month from 2020-01-31 (43861) lands on 2020-02-29 (43890, a leap February).
    assert_eq!(
        eval(&call("EDATE", vec![num(43861.0), num(1.0)]), &g),
        Value::Number(F(43890.0))
    );
    // Negative months go back: two months before 2023-01-01 = 2022-11-01 (44866).
    assert_eq!(
        eval(&call("EDATE", vec![num(44927.0), num(-2.0)]), &g),
        Value::Number(F(44866.0))
    );
    // A non-numeric start is #VALUE!.
    assert_eq!(
        eval(
            &call("EDATE", vec![Expr::Lit(Value::Text("x".into())), num(1.0)]),
            &g
        ),
        Value::Error(ErrKind::Value)
    );
}

#[test]
fn func_datedif_units() {
    let g = Grid::new(1, vec![Value::Blank]);
    let dd = |a: f64, b: f64, u: &str| {
        call(
            "DATEDIF",
            vec![num(a), num(b), Expr::Lit(Value::Text(u.into()))],
        )
    };
    // Whole days.
    assert_eq!(eval(&dd(44927.0, 44957.0, "D"), &g), Value::Number(F(30.0)));
    // Complete years / months between 2020-01-01 (43831) and 2023-06-01 (45078).
    assert_eq!(eval(&dd(43831.0, 45078.0, "Y"), &g), Value::Number(F(3.0)));
    assert_eq!(eval(&dd(43831.0, 45078.0, "M"), &g), Value::Number(F(41.0)));
    // MD: 2020-01-15 (43845) → 2020-03-20 (43910), day remainder = 5.
    assert_eq!(eval(&dd(43845.0, 43910.0, "MD"), &g), Value::Number(F(5.0)));
    // YM: 2020-01-15 → 2023-06-20 (45097), month remainder = 5.
    assert_eq!(eval(&dd(43845.0, 45097.0, "YM"), &g), Value::Number(F(5.0)));
    // YD: 2020-01-15 → 2023-03-20 (45005), day-of-year remainder = 65.
    assert_eq!(eval(&dd(43845.0, 45005.0, "YD"), &g), Value::Number(F(65.0)));
    // The unit folds case.
    assert_eq!(eval(&dd(44927.0, 44957.0, "d"), &g), Value::Number(F(30.0)));
    // start > end is #NUM!.
    assert_eq!(
        eval(&dd(44957.0, 44927.0, "D"), &g),
        Value::Error(ErrKind::Num)
    );
    // An unknown unit is #NUM!.
    assert_eq!(
        eval(&dd(44927.0, 44957.0, "Q"), &g),
        Value::Error(ErrKind::Num)
    );
}

#[test]
fn func_today_and_now_read_the_pinned_clock() {
    // The test grid pins the clock to PINNED_NOW_SERIAL (44927.5 = 2023-01-01T12:00).
    let g = Grid::new(1, vec![Value::Blank]);
    assert_eq!(eval(&call("TODAY", vec![]), &g), Value::Number(F(44927.0)));
    assert_eq!(eval(&call("NOW", vec![]), &g), Value::Number(F(44927.5)));
    // NOW carries the time-of-day fraction TODAY floors off.
    let frac = Expr::Binary(
        BinOp::Sub,
        Box::new(call("NOW", vec![])),
        Box::new(call("TODAY", vec![])),
    );
    assert_eq!(eval(&frac, &g), Value::Number(F(0.5)));
}

#[test]
fn func_today_and_now_are_the_registry_volatiles() {
    // Exactly TODAY and NOW carry `volatile: true`; every other row is pure.
    for f in funcs() {
        let expect = matches!(f.name, "TODAY" | "NOW");
        assert_eq!(f.volatile, expect, "{} volatility", f.name);
    }
}


fn column(cells: Vec<Value>) -> Expr {
    let rows = cells.len() as u32;
    Expr::Lit(Value::Array(Shape { rows, cols: 1 }, cells))
}

#[test]
fn array_if_selects_cell_by_cell() {
    let g = Grid::new(1, vec![Value::Blank]);
    let cond = column(vec![Value::Bool(true), Value::Bool(false), Value::Number(F(0.0))]);
    assert_eq!(
        eval(&call("IF", vec![cond, num(1.0), num(2.0)]), &g),
        Value::Array(
            Shape { rows: 3, cols: 1 },
            vec![Value::Number(F(1.0)), Value::Number(F(2.0)), Value::Number(F(2.0))]
        )
    );
    // Without an else branch a false cell is FALSE; an array branch contributes its own cell.
    let cond = column(vec![Value::Bool(false), Value::Bool(true)]);
    let then_v = column(vec![Value::Number(F(10.0)), Value::Number(F(20.0))]);
    assert_eq!(
        eval(&call("IF", vec![cond, then_v]), &g),
        Value::Array(
            Shape { rows: 2, cols: 1 },
            vec![Value::Bool(false), Value::Number(F(20.0))]
        )
    );
    // A text condition cell is its coercion error.
    let cond = column(vec![Value::Text("x".into()), Value::Bool(true)]);
    assert_eq!(
        eval(&call("IF", vec![cond, num(1.0), num(2.0)]), &g),
        Value::Array(
            Shape { rows: 2, cols: 1 },
            vec![Value::Error(ErrKind::Value), Value::Number(F(1.0))]
        )
    );
    // A multi-cell branch of another shape is #VALUE!.
    let cond = column(vec![Value::Bool(true), Value::Bool(false)]);
    let wrong = column(vec![num_value(1.0), num_value(2.0), num_value(3.0)]);
    assert_eq!(
        eval(&call("IF", vec![cond, wrong, num(0.0)]), &g),
        Value::Error(ErrKind::Value)
    );
}

fn num_value(n: f64) -> Value {
    Value::Number(F(n))
}

#[test]
fn array_iferror_and_ifna_catch_cell_by_cell() {
    let g = Grid::new(1, vec![Value::Blank]);
    let cells = || {
        column(vec![
            num_value(1.0),
            Value::Error(ErrKind::Div0),
            Value::Error(ErrKind::Na),
        ])
    };
    assert_eq!(
        eval(&call("IFERROR", vec![cells(), num(0.0)]), &g),
        Value::Array(
            Shape { rows: 3, cols: 1 },
            vec![num_value(1.0), num_value(0.0), num_value(0.0)]
        )
    );
    assert_eq!(
        eval(&call("IFNA", vec![cells(), num(0.0)]), &g),
        Value::Array(
            Shape { rows: 3, cols: 1 },
            vec![num_value(1.0), Value::Error(ErrKind::Div0), num_value(0.0)]
        )
    );
    // An array fallback of the same shape gives its own cell.
    let fallback = column(vec![num_value(7.0), num_value(8.0), num_value(9.0)]);
    assert_eq!(
        eval(&call("IFERROR", vec![cells(), fallback]), &g),
        Value::Array(
            Shape { rows: 3, cols: 1 },
            vec![num_value(1.0), num_value(8.0), num_value(9.0)]
        )
    );
    // Nothing caught: the array passes through and the fallback (an error here) is never used.
    let clean = column(vec![num_value(1.0), num_value(2.0)]);
    let div0 = Expr::Binary(BinOp::Div, Box::new(num(1.0)), Box::new(num(0.0)));
    assert_eq!(
        eval(&call("IFERROR", vec![clean, div0]), &g),
        Value::Array(Shape { rows: 2, cols: 1 }, vec![num_value(1.0), num_value(2.0)])
    );
}

fn text_value(s: &str) -> Value {
    Value::Text(s.into())
}

#[test]
fn implicit_array_evaluation_maps_scalar_text_functions() {
    let g = Grid::new(1, vec![Value::Blank]);
    let words = || column(vec![text_value("a"), text_value("abc"), text_value("")]);
    assert_eq!(
        eval(&call("LEN", vec![words()]), &g),
        Value::Array(
            Shape { rows: 3, cols: 1 },
            vec![num_value(1.0), num_value(3.0), num_value(0.0)]
        )
    );
    // The reducer around the mapped call collapses it.
    assert_eq!(
        eval(&call("SUMPRODUCT", vec![call("LEN", vec![words()])]), &g),
        num_value(4.0)
    );
    // Every scalar broadcasts whole against the array.
    assert_eq!(
        eval(&call("LEFT", vec![words(), num(2.0)]), &g),
        Value::Array(
            Shape { rows: 3, cols: 1 },
            vec![text_value("a"), text_value("ab"), text_value("")]
        )
    );
    // Two broadcasting arrays of different shapes are #VALUE!.
    let counts = column(vec![num_value(1.0), num_value(2.0)]);
    assert_eq!(
        eval(&call("LEFT", vec![words(), counts]), &g),
        Value::Error(ErrKind::Value)
    );
    // A scalar error argument is the whole call's error, not an array of it.
    let div0 = Expr::Binary(BinOp::Div, Box::new(num(1.0)), Box::new(num(0.0)));
    assert_eq!(
        eval(&call("LEFT", vec![div0, column(vec![num_value(1.0), num_value(2.0)])]), &g),
        Value::Error(ErrKind::Div0)
    );
    // A 1×1 array is a scalar there.
    let one = Expr::Lit(Value::Array(Shape { rows: 1, cols: 1 }, vec![text_value("xyz")]));
    assert_eq!(eval(&call("LEN", vec![one]), &g), num_value(3.0));
}

#[test]
fn implicit_array_evaluation_maps_the_countif_criterion() {
    // A1..A4 = 1, 2, 2, 3: each cell's criterion counts its matches.
    let g = Grid::new(
        1,
        vec![num_value(1.0), num_value(2.0), num_value(2.0), num_value(3.0)],
    );
    assert_eq!(
        eval(&call("COUNTIF", vec![col_range(4), col_range(4)]), &g),
        Value::Array(
            Shape { rows: 4, cols: 1 },
            vec![num_value(1.0), num_value(2.0), num_value(2.0), num_value(1.0)]
        )
    );
    // The reducer around the mapped call collapses it.
    assert_eq!(
        eval(&call("SUMPRODUCT", vec![call("COUNTIF", vec![col_range(4), col_range(4)])]), &g),
        num_value(6.0)
    );
    // The range position itself does not broadcast: a scalar criterion is one count.
    assert_eq!(
        eval(&call("COUNTIF", vec![col_range(4), num(2.0)]), &g),
        num_value(2.0)
    );
}

#[test]
fn isformula_asks_the_resolver_not_the_value() {
    // A1 holds a formula whose value is an error; A2 a typed-in number.
    let g = Grid::new(1, vec![Value::Error(ErrKind::Div0), num_value(5.0)]).with_formula(0, 0, 0);
    let a = |row: u32| {
        Expr::Ref(RefNode { col: 0, row, col_abs: false, row_abs: false, sheet: None })
    };
    assert_eq!(eval(&call("ISFORMULA", vec![a(0)]), &g), Value::Bool(true));
    assert_eq!(eval(&call("ISFORMULA", vec![a(1)]), &g), Value::Bool(false));
    // A range answers for its top-left cell.
    assert_eq!(eval(&call("ISFORMULA", vec![col_range(2)]), &g), Value::Bool(true));
    // A non-reference argument is #VALUE!; an unknown sheet #REF!.
    assert_eq!(
        eval(&call("ISFORMULA", vec![num(1.0)]), &g),
        Value::Error(ErrKind::Value)
    );
    let elsewhere = Expr::Ref(RefNode { col: 0, row: 0, col_abs: false, row_abs: false, sheet: Some("Nope".to_string()) });
    assert_eq!(
        eval(&call("ISFORMULA", vec![elsewhere]), &g),
        Value::Error(ErrKind::Ref)
    );
}

#[test]
fn error_type_codes_each_error_kind() {
    let g = Grid::new(1, vec![Value::Blank]);
    let code = |v: Value| {
        let mut ctx = charlie_ast::eval::EvalCtx::new(&g);
        charlie_ast::func::info::error_type_fn(&mut ctx, &[Expr::Lit(v)])
    };
    assert_eq!(code(Value::Error(ErrKind::Null)), num_value(1.0));
    assert_eq!(code(Value::Error(ErrKind::Div0)), num_value(2.0));
    assert_eq!(code(Value::Error(ErrKind::Value)), num_value(3.0));
    assert_eq!(code(Value::Error(ErrKind::Ref)), num_value(4.0));
    assert_eq!(code(Value::Error(ErrKind::Name)), num_value(5.0));
    assert_eq!(code(Value::Error(ErrKind::Num)), num_value(6.0));
    assert_eq!(code(Value::Error(ErrKind::Na)), num_value(7.0));
    assert_eq!(code(num_value(1.0)), Value::Error(ErrKind::Na));
}

#[test]
fn registry_names_round_trip_through_lookup() {
    assert!(charlie_ast::func::names_round_trip());
}

#[test]
fn diag_code_texts_are_distinct_and_non_empty() {
    let all = DiagCode::all();
    for (i, a) in all.iter().enumerate() {
        assert!(!a.code_str().is_empty());
        for b in all.iter().skip(i + 1) {
            assert_ne!(a.code_str(), b.code_str());
        }
    }
}

#[test]
fn eval_operators_over_literals_follow_the_operator_rules() {
    let g = Grid::new(1, vec![Value::Blank]);
    let bin = |op: BinOp, a: Expr, b: Expr| Expr::Binary(op, Box::new(a), Box::new(b));
    // arithmetic over two numbers
    assert_eq!(eval(&bin(BinOp::Sub, num(7.0), num(2.5)), &g), Value::Number(F(4.5)));
    // text that spells a number coerces (after trimming), other text is #VALUE!
    assert_eq!(eval(&bin(BinOp::Mul, txt(" 4 "), num(2.0)), &g), Value::Number(F(8.0)));
    assert_eq!(eval(&bin(BinOp::Add, txt("four"), num(2.0)), &g), Value::Error(ErrKind::Value));
    // & joins the texts of the two scalars, a boolean as TRUE/FALSE
    assert_eq!(eval(&bin(BinOp::Concat, txt("ab"), txt("cd")), &g), Value::Text("abcd".to_string()));
    assert_eq!(
        eval(&bin(BinOp::Concat, txt("x"), Expr::Lit(Value::Bool(true))), &g),
        Value::Text("xTRUE".to_string())
    );
    // comparisons read the engine's order: Number < Text < Bool
    assert_eq!(eval(&bin(BinOp::Gt, Expr::Lit(Value::Bool(false)), txt("zz")), &g), Value::Bool(true));
    // a right error propagates once the left is not an error
    assert_eq!(
        eval(&bin(BinOp::Add, num(1.0), Expr::Lit(Value::Error(ErrKind::Na))), &g),
        Value::Error(ErrKind::Na)
    );
    // unary minus and percent
    assert_eq!(eval(&Expr::Unary(charlie_ast::expr::UnOp::Neg, Box::new(num(3.0))), &g), Value::Number(F(-3.0)));
    assert_eq!(
        eval(&Expr::Unary(charlie_ast::expr::UnOp::Percent, Box::new(num(50.0))), &g),
        Value::Number(F(0.5))
    );
}

#[test]
fn eval_leftmost_error_wins_over_any_right_operand() {
    // A1 = #DIV/0!; the left range collapses to that error before the right call runs.
    let g = Grid::new(1, vec![Value::Error(ErrKind::Div0)]);
    let left = Expr::Range(RangeNode { start_col: 0, start_row: 0, end_col: 0, end_row: 0, sheet: None });
    let right = call("NA", vec![]);
    let e = Expr::Binary(BinOp::Mul, Box::new(left), Box::new(right));
    assert_eq!(eval(&e, &g), Value::Error(ErrKind::Div0));
}

#[test]
fn eval_plus_chain_turns_to_num_error_at_the_depth_limit() {
    let g = Grid::new(1, vec![Value::Blank]);
    let chain = |k: usize| {
        let mut e = num(1.0);
        for _ in 0..k {
            e = Expr::Unary(charlie_ast::expr::UnOp::Plus, Box::new(e));
        }
        e
    };
    assert_eq!(eval(&chain(511), &g), Value::Number(F(1.0)));
    assert_eq!(eval(&chain(512), &g), Value::Error(ErrKind::Num));
}

#[test]
fn convert_literal_argument_errors() {
    let g = Grid::new(1, vec![Value::Blank]);
    let conv = |a: Expr, b: Expr, c: Expr| eval(&call("CONVERT", vec![a, b, c]), &g);
    assert_eq!(conv(Expr::Lit(Value::Error(ErrKind::Ref)), txt("m"), txt("ft")), Value::Error(ErrKind::Ref));
    assert_eq!(conv(Expr::Lit(Value::Bool(true)), txt("m"), txt("ft")), Value::Error(ErrKind::Value));
    assert_eq!(conv(txt("abc"), txt("m"), txt("ft")), Value::Error(ErrKind::Value));
    assert_eq!(conv(num(1.0), Expr::Lit(Value::Error(ErrKind::Na)), txt("ft")), Value::Error(ErrKind::Na));
    assert_eq!(conv(num(1.0), txt("m"), Expr::Lit(Value::Error(ErrKind::Div0))), Value::Error(ErrKind::Div0));
}

#[test]
fn xirr_needs_two_flows_and_no_date_before_the_first() {
    let g = Grid::new(1, vec![Value::Blank]);
    let col = |v: Vec<f64>| column(v.into_iter().map(|x| Value::Number(F(x))).collect());
    assert_eq!(
        eval(&call("XIRR", vec![col(vec![-100.0]), col(vec![40000.0])]), &g),
        Value::Error(ErrKind::Num)
    );
    assert_eq!(
        eval(&call("XIRR", vec![col(vec![-100.0, 110.0]), col(vec![40000.0, 39000.0])]), &g),
        Value::Error(ErrKind::Num)
    );
}

#[test]
fn rank_of_a_digit_text_ranks_the_number_it_spells() {
    let g = Grid::new(1, vec![Value::Blank]);
    let data = column(vec![num_value(10.0), num_value(8.0), num_value(8.0), num_value(5.0)]);
    assert_eq!(eval(&call("RANK", vec![txt(" 8 "), data]), &g), Value::Number(F(2.0)));
}

#[test]
fn convert_unknown_unit_is_na() {
    let g = Grid::new(1, vec![Value::Blank]);
    assert_eq!(eval(&call("CONVERT", vec![num(1.0), txt("xyz"), txt("m")]), &g), Value::Error(ErrKind::Na));
    assert_eq!(eval(&call("CONVERT", vec![num(1.0), txt("m"), txt("qq")]), &g), Value::Error(ErrKind::Na));
}

#[test]
fn named_sheet_reads_and_unknown_sheet_is_ref() {
    let g = Grid::new(1, vec![Value::Number(F(1.0))]).with_sheet(
        "Data",
        1,
        vec![Value::Number(F(10.0)), Value::Number(F(20.0)), Value::Number(F(30.0))],
    );
    let data_a1 = Expr::Ref(RefNode { sheet: Some("Data".to_string()), col: 0, row: 0, col_abs: false, row_abs: false });
    assert_eq!(eval(&data_a1, &g), Value::Number(F(10.0)));
    let nope = Expr::Ref(RefNode { sheet: Some("Nope".to_string()), col: 0, row: 0, col_abs: false, row_abs: false });
    assert_eq!(eval(&nope, &g), Value::Error(ErrKind::Ref));
    let data_range = Expr::Range(RangeNode { start_col: 0, start_row: 0, end_col: 0, end_row: 2, sheet: Some("Data".to_string()) });
    assert_eq!(eval(&call("SUM", vec![data_range]), &g), Value::Number(F(60.0)));
}

#[test]
fn sum_and_sort_over_a_range() {
    let g = Grid::new(1, vec![Value::Number(F(3.0)), Value::Text("x".to_string()), Value::Number(F(1.0)), Value::Blank]);
    assert_eq!(eval(&call("SUM", vec![col_range(4)]), &g), Value::Number(F(4.0)));
    let sorted = eval(&call("SORT", vec![col_range(3), num(1.0), num(-1.0)]), &g);
    assert_eq!(
        sorted,
        Value::Array(Shape { rows: 3, cols: 1 }, vec![Value::Text("x".to_string()), Value::Number(F(3.0)), Value::Number(F(1.0))])
    );
}

fn block_range(start_col: u32, start_row: u32, end_col: u32, end_row: u32) -> Expr {
    Expr::Range(RangeNode { start_col, start_row, end_col, end_row, sheet: None })
}
fn cell_ref(col: u32, row: u32) -> Expr {
    Expr::Ref(RefNode { sheet: None, col, row, col_abs: false, row_abs: false })
}

#[test]
fn ifs_family_over_ranges() {
    let g = Grid::new(
        2,
        vec![
            Value::Number(F(1.0)),
            Value::Text("a".to_string()),
            Value::Number(F(2.0)),
            Value::Text("b".to_string()),
            Value::Number(F(3.0)),
            Value::Text("a".to_string()),
            Value::Number(F(4.0)),
            Value::Text("a".to_string()),
        ],
    );
    let vals = || block_range(0, 0, 0, 3);
    let labels = || block_range(1, 0, 1, 3);
    assert_eq!(eval(&call("SUMIFS", vec![vals(), labels(), txt("a")]), &g), Value::Number(F(8.0)));
    assert_eq!(eval(&call("SUMIFS", vec![vals(), labels(), txt("a"), vals(), txt(">1")]), &g), Value::Number(F(7.0)));
    assert_eq!(eval(&call("COUNTIFS", vec![labels(), txt("a"), vals(), txt(">1")]), &g), Value::Number(F(2.0)));
    assert_eq!(eval(&call("MINIFS", vec![vals(), labels(), txt("a")]), &g), Value::Number(F(1.0)));
    assert_eq!(eval(&call("MAXIFS", vec![vals(), labels(), txt("a")]), &g), Value::Number(F(4.0)));
    match eval(&call("AVERAGEIFS", vec![vals(), labels(), txt("a")]), &g) {
        Value::Number(F(x)) => assert!((x - 8.0 / 3.0).abs() < 1e-12),
        other => panic!("unexpected {:?}", other),
    }
    // A value range of another shape than the criteria ranges.
    assert_eq!(eval(&call("SUMIFS", vec![block_range(0, 0, 0, 2), labels(), txt("a")]), &g), Value::Error(ErrKind::Value));
    // A dangling criteria range.
    assert_eq!(eval(&call("SUMIFS", vec![vals(), labels(), txt("a"), vals()]), &g), Value::Error(ErrKind::Value));
}

#[test]
fn irr_and_xirr_over_cells() {
    let g = Grid::new(1, vec![Value::Number(F(-100.0)), Value::Number(F(110.0))]);
    match eval(&call("IRR", vec![col_range(2)]), &g) {
        Value::Number(F(x)) => assert!((x - 0.1).abs() < 1e-9),
        other => panic!("unexpected {:?}", other),
    }
    // One flow is #NUM!.
    assert_eq!(eval(&call("IRR", vec![col_range(1)]), &g), Value::Error(ErrKind::Num));
    let d = Grid::new(2, vec![Value::Number(F(-100.0)), Value::Number(F(44927.0)), Value::Number(F(110.0)), Value::Number(F(45292.0))]);
    match eval(&call("XIRR", vec![block_range(0, 0, 0, 1), block_range(1, 0, 1, 1)]), &d) {
        Value::Number(F(x)) => assert!((x - 0.1).abs() < 1e-6),
        other => panic!("unexpected {:?}", other),
    }
    // A date before the first is #NUM!.
    let bad = Grid::new(2, vec![Value::Number(F(-100.0)), Value::Number(F(45292.0)), Value::Number(F(110.0)), Value::Number(F(44927.0))]);
    assert_eq!(eval(&call("XIRR", vec![block_range(0, 0, 0, 1), block_range(1, 0, 1, 1)]), &bad), Value::Error(ErrKind::Num));
}

#[test]
fn rank_over_a_cell_range() {
    let g = Grid::new(1, vec![Value::Number(F(10.0)), Value::Number(F(8.0)), Value::Number(F(8.0)), Value::Number(F(5.0))]);
    assert_eq!(eval(&call("RANK", vec![num(8.0), col_range(4)]), &g), Value::Number(F(2.0)));
    assert_eq!(eval(&call("RANK", vec![num(10.0), col_range(4), num(1.0)]), &g), Value::Number(F(4.0)));
    assert_eq!(eval(&call("RANK", vec![num(7.0), col_range(4)]), &g), Value::Error(ErrKind::Na));
    assert_eq!(eval(&call("RANK", vec![txt("x"), col_range(4)]), &g), Value::Error(ErrKind::Value));
}

#[test]
fn and_or_over_a_range() {
    let g = Grid::new(1, vec![Value::Bool(true), Value::Number(F(1.0)), Value::Text("x".to_string()), Value::Blank]);
    assert_eq!(eval(&call("AND", vec![col_range(4)]), &g), Value::Bool(true));
    let h = Grid::new(1, vec![Value::Bool(false), Value::Number(F(0.0)), Value::Text("x".to_string())]);
    assert_eq!(eval(&call("OR", vec![col_range(3)]), &h), Value::Bool(false));
    let only_text = Grid::new(1, vec![Value::Text("x".to_string())]);
    assert_eq!(eval(&call("AND", vec![col_range(1)]), &only_text), Value::Error(ErrKind::Value));
}

#[test]
fn time_parts_substitute_and_datedif_from_cells() {
    let g = Grid::new(
        1,
        vec![
            Value::Number(F(0.75)),
            Value::Text("a-b-c".to_string()),
            Value::Text("-".to_string()),
            Value::Text("+".to_string()),
            Value::Number(F(44927.0)),
            Value::Number(F(44957.0)),
            Value::Text("d".to_string()),
        ],
    );
    assert_eq!(eval(&call("HOUR", vec![cell_ref(0, 0)]), &g), Value::Number(F(18.0)));
    assert_eq!(eval(&call("MINUTE", vec![cell_ref(0, 0)]), &g), Value::Number(F(0.0)));
    assert_eq!(eval(&call("SUBSTITUTE", vec![cell_ref(0, 1), cell_ref(0, 2), cell_ref(0, 3)]), &g), Value::Text("a+b+c".to_string()));
    assert_eq!(
        eval(&call("SUBSTITUTE", vec![cell_ref(0, 1), cell_ref(0, 2), cell_ref(0, 3), num(2.0)]), &g),
        Value::Text("a-b+c".to_string())
    );
    assert_eq!(eval(&call("DATEDIF", vec![cell_ref(0, 4), cell_ref(0, 5), cell_ref(0, 6)]), &g), Value::Number(F(30.0)));
    assert_eq!(eval(&call("DATEDIF", vec![cell_ref(0, 5), cell_ref(0, 4), cell_ref(0, 6)]), &g), Value::Error(ErrKind::Num));
}

#[test]
fn xlookup_trend_and_aggregate_over_ranges() {
    let g = Grid::new(
        2,
        vec![
            Value::Text("a".to_string()),
            Value::Number(F(1.0)),
            Value::Text("b".to_string()),
            Value::Number(F(2.0)),
            Value::Text("c".to_string()),
            Value::Number(F(3.0)),
        ],
    );
    assert_eq!(eval(&call("XLOOKUP", vec![txt("b"), block_range(0, 0, 0, 2), block_range(1, 0, 1, 2)]), &g), Value::Number(F(2.0)));
    assert_eq!(eval(&call("XLOOKUP", vec![txt("z"), block_range(0, 0, 0, 2), block_range(1, 0, 1, 2)]), &g), Value::Error(ErrKind::Na));
    let ys = Grid::new(1, vec![Value::Number(F(2.0)), Value::Number(F(4.0)), Value::Number(F(6.0))]);
    match eval(&call("TREND", vec![col_range(3)]), &ys) {
        Value::Array(s, out) => {
            assert_eq!(s, Shape { rows: 3, cols: 1 });
            for (v, want) in out.iter().zip([2.0, 4.0, 6.0]) {
                match v {
                    Value::Number(F(x)) => assert!((x - want).abs() < 1e-9),
                    other => panic!("unexpected {:?}", other),
                }
            }
        },
        other => panic!("unexpected {:?}", other),
    }
    let data = Grid::new(1, vec![Value::Number(F(1.0)), Value::Error(ErrKind::Div0), Value::Number(F(5.0)), Value::Number(F(3.0))]);
    assert_eq!(eval(&call("AGGREGATE", vec![num(14.0), num(6.0), col_range(4), num(2.0)]), &data), Value::Number(F(3.0)));
    assert_eq!(eval(&call("AGGREGATE", vec![num(14.0), num(0.0), col_range(4), num(2.0)]), &data), Value::Error(ErrKind::Div0));
}

#[test]
fn one_and_two_argument_functions_read_cells() {
    let g = Grid::new(
        1,
        vec![
            Value::Number(F(-2.5)),
            Value::Text("abc".to_string()),
            Value::Number(F(45292.0)),
            Value::Number(F(3.14159)),
        ],
    );
    assert_eq!(eval(&call("ABS", vec![cell_ref(0, 0)]), &g), Value::Number(F(2.5)));
    assert_eq!(eval(&call("ROUND", vec![cell_ref(0, 3), num(2.0)]), &g), Value::Number(F(3.14)));
    assert_eq!(eval(&call("LEN", vec![cell_ref(0, 1)]), &g), Value::Number(F(3.0)));
    assert_eq!(eval(&call("UPPER", vec![cell_ref(0, 1)]), &g), Value::Text("ABC".to_string()));
    assert_eq!(eval(&call("YEAR", vec![cell_ref(0, 2)]), &g), Value::Number(F(2024.0)));
    assert_eq!(eval(&call("ISNUMBER", vec![cell_ref(0, 0)]), &g), Value::Bool(true));
    assert_eq!(eval(&call("ISTEXT", vec![cell_ref(0, 0)]), &g), Value::Bool(false));
    assert_eq!(eval(&call("TYPE", vec![cell_ref(0, 1)]), &g), Value::Number(F(2.0)));
    assert_eq!(eval(&call("ISEVEN", vec![cell_ref(0, 2)]), &g), Value::Bool(true));
    assert_eq!(eval(&call("LARGE", vec![col_range(4), num(2.0)]), &g), Value::Number(F(3.14159)));
    assert_eq!(eval(&call("SMALL", vec![col_range(4), num(1.0)]), &g), Value::Number(F(-2.5)));
    assert_eq!(eval(&call("ABS", vec![cell_ref(0, 1)]), &g), Value::Error(ErrKind::Value));
}

#[test]
fn count_and_counta_over_ranges_and_cells() {
    let g = Grid::new(
        1,
        vec![Value::Number(F(1.0)), Value::Bool(true), Value::Text("7".to_string()), Value::Blank, Value::Error(ErrKind::Na)],
    );
    // Inside a range only numbers count for COUNT; COUNTA counts every non-blank cell.
    assert_eq!(eval(&call("COUNT", vec![col_range(5)]), &g), Value::Number(F(1.0)));
    assert_eq!(eval(&call("COUNTA", vec![col_range(5)]), &g), Value::Number(F(4.0)));
    // A referenced blank does not count for COUNTA; a referenced error does.
    assert_eq!(eval(&call("COUNTA", vec![cell_ref(0, 3), cell_ref(0, 4)]), &g), Value::Number(F(1.0)));
}

#[test]
fn if_and_not_read_their_cells() {
    let g = Grid::new(1, vec![Value::Bool(false), Value::Number(F(5.0)), Value::Number(F(7.0)), Value::Text("x".to_string())]);
    assert_eq!(eval(&call("IF", vec![cell_ref(0, 0), cell_ref(0, 1), cell_ref(0, 2)]), &g), Value::Number(F(7.0)));
    assert_eq!(eval(&call("IF", vec![cell_ref(0, 1), cell_ref(0, 1), cell_ref(0, 2)]), &g), Value::Number(F(5.0)));
    assert_eq!(eval(&call("IF", vec![cell_ref(0, 0), cell_ref(0, 1)]), &g), Value::Bool(false));
    assert_eq!(eval(&call("IF", vec![cell_ref(0, 3), num(1.0)]), &g), Value::Error(ErrKind::Value));
    assert_eq!(eval(&call("NOT", vec![cell_ref(0, 0)]), &g), Value::Bool(true));
}

#[test]
fn iferror_and_ifna_read_their_cells() {
    let g = Grid::new(1, vec![Value::Error(ErrKind::Div0), Value::Number(F(9.0)), Value::Error(ErrKind::Na)]);
    assert_eq!(eval(&call("IFERROR", vec![cell_ref(0, 0), cell_ref(0, 1)]), &g), Value::Number(F(9.0)));
    assert_eq!(eval(&call("IFERROR", vec![cell_ref(0, 1), num(0.0)]), &g), Value::Number(F(9.0)));
    assert_eq!(eval(&call("IFNA", vec![cell_ref(0, 0), num(0.0)]), &g), Value::Error(ErrKind::Div0));
    assert_eq!(eval(&call("IFNA", vec![cell_ref(0, 2), num(0.0)]), &g), Value::Number(F(0.0)));
}

#[test]
fn xlookup_approximate_takes_the_closest_key() {
    let g = Grid::new(
        2,
        vec![
            Value::Text("a".to_string()),
            Value::Number(F(1.0)),
            Value::Text("b".to_string()),
            Value::Number(F(2.0)),
            Value::Text("c".to_string()),
            Value::Number(F(3.0)),
        ],
    );
    let keys = || block_range(0, 0, 0, 2);
    let vals = || block_range(1, 0, 1, 2);
    assert_eq!(eval(&call("XLOOKUP", vec![txt("b2"), keys(), vals(), txt("x"), num(-1.0)]), &g), Value::Number(F(2.0)));
    assert_eq!(eval(&call("XLOOKUP", vec![txt("b2"), keys(), vals(), txt("x"), num(1.0)]), &g), Value::Number(F(3.0)));
    // Equally close keys: the first met in the search direction wins.
    let t = Grid::new(2, vec![Value::Number(F(1.0)), Value::Number(F(10.0)), Value::Number(F(3.0)), Value::Number(F(20.0)), Value::Number(F(3.0)), Value::Number(F(30.0))]);
    let ks = || block_range(0, 0, 0, 2);
    let vs = || block_range(1, 0, 1, 2);
    assert_eq!(eval(&call("XLOOKUP", vec![num(2.0), ks(), vs(), txt("x"), num(1.0)]), &t), Value::Number(F(20.0)));
    assert_eq!(eval(&call("XLOOKUP", vec![num(2.0), ks(), vs(), txt("x"), num(1.0), num(-1.0)]), &t), Value::Number(F(30.0)));
}

#[test]
fn substitute_beyond_the_count_and_canonical_a1_round_trip() {
    let g = Grid::new(1, vec![Value::Blank]);
    assert_eq!(eval(&call("SUBSTITUTE", vec![txt("a-b"), txt("-"), txt("+"), num(5.0)]), &g), Value::Text("a-b".to_string()));
    for s in ["A1", "D7", "AA10", "G8", "ZZ100"] {
        let a = charlie_ast::a1::parse_a1(s).expect("canonical text parses");
        assert_eq!(charlie_ast::a1::format_cell(a.col, a.row), s);
    }
}
