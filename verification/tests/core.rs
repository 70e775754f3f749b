// Tests of the address grammar, refusals, the expression tree, the evaluator, criteria and
// implicit array shapes.

// Test harness: an IEEE double number domain and an in-memory workbook.

use charlie_ast::expr::{ArrayView, CellAddr, RangeAddr, Resolver, SheetId};
use charlie_ast::value::{Number, Order, Shape};

type Value = charlie_ast::value::Value<F>;
type Expr = charlie_ast::expr::Expr<F>;

/// A double-precision spreadsheet number.
#[derive(Clone, Copy, Debug)]
struct F(f64);

impl PartialEq for F {
    fn eq(&self, other: &F) -> bool {
        self.0.to_bits() == other.0.to_bits()
    }
}

impl Number for F {
    // Doubles represent every integer of at most 53 bits exactly, so the law holds.
    fn law_exact_integers(_i: i64, _j: i64) {}
    // Doubles order as a partial order with NaN incomparable to everything.
    fn law_order(_a: F, _b: F, _c: F) {}
    // Doubles hold every integer of at most 53 bits exactly, so rounding keeps it.
    fn law_integral(_i: i64) {}
    fn spec_from_int(i: i64) -> F {
        F(i as f64)
    }
    fn spec_order(self, o: F) -> Option<Order> {
        self.order(o)
    }
    fn spec_plus(self, o: F) -> F {
        self.plus(o)
    }
    fn spec_minus(self, o: F) -> F {
        self.minus(o)
    }
    fn spec_times(self, o: F) -> F {
        self.times(o)
    }
    fn spec_over(self, o: F) -> F {
        self.over(o)
    }
    fn spec_finite(self) -> bool {
        self.finite()
    }
    fn spec_negate(self) -> F {
        self.negate()
    }
    fn spec_magnitude(self) -> F {
        self.magnitude()
    }
    fn spec_square_root(self) -> F {
        self.square_root()
    }
    fn spec_power(self, e: F) -> F {
        self.power(e)
    }
    fn spec_ten_to(e: i32) -> F {
        F::ten_to(e)
    }
    fn spec_floor_of(self) -> F {
        self.floor_of()
    }
    fn spec_ceil_of(self) -> F {
        self.ceil_of()
    }
    fn spec_trunc_of(self) -> F {
        self.trunc_of()
    }
    fn spec_round_of(self) -> F {
        self.round_of()
    }
    fn spec_sign_negative(self) -> bool {
        self.sign_negative()
    }
    fn spec_ln(self) -> F {
        self.ln()
    }
    fn spec_log10(self) -> F {
        self.log10()
    }
    fn spec_exp(self) -> F {
        self.exp()
    }
    fn spec_trunc_int(self) -> i64 {
        self.trunc_int()
    }
    fn spec_floor_int(self) -> i64 {
        self.floor_int()
    }
    fn spec_trunc_u64(self) -> u64 {
        self.trunc_u64()
    }
    fn spec_from_u128(i: u128) -> F {
        F::from_u128(i)
    }
    fn from_int(i: i64) -> F {
        F(i as f64)
    }
    fn plus(self, o: F) -> F {
        F(self.0 + o.0)
    }
    fn minus(self, o: F) -> F {
        F(self.0 - o.0)
    }
    fn times(self, o: F) -> F {
        F(self.0 * o.0)
    }
    fn over(self, o: F) -> F {
        F(self.0 / o.0)
    }
    fn negate(self) -> F {
        F(-self.0)
    }
    fn magnitude(self) -> F {
        F(self.0.abs())
    }
    fn power(self, e: F) -> F {
        F(self.0.powf(e.0))
    }
    fn ten_to(e: i32) -> F {
        F(10f64.powi(e))
    }
    fn square_root(self) -> F {
        F(self.0.sqrt())
    }
    fn floor_of(self) -> F {
        F(self.0.floor())
    }
    fn ceil_of(self) -> F {
        F(self.0.ceil())
    }
    fn trunc_of(self) -> F {
        F(self.0.trunc())
    }
    fn round_of(self) -> F {
        F(self.0.round())
    }
    fn finite(self) -> bool {
        self.0.is_finite()
    }
    fn sign_negative(self) -> bool {
        self.0.is_sign_negative()
    }
    fn ln(self) -> F {
        F(self.0.ln())
    }
    fn log10(self) -> F {
        F(self.0.log10())
    }
    fn exp(self) -> F {
        F(self.0.exp())
    }
    fn order(self, o: F) -> Option<Order> {
        match self.0.partial_cmp(&o.0) {
            Some(std::cmp::Ordering::Less) => Some(Order::Less),
            Some(std::cmp::Ordering::Equal) => Some(Order::Equal),
            Some(std::cmp::Ordering::Greater) => Some(Order::Greater),
            None => None,
        }
    }
    fn trunc_int(self) -> i64 {
        self.0.trunc() as i64
    }
    fn floor_int(self) -> i64 {
        self.0.floor() as i64
    }
    fn trunc_u64(self) -> u64 {
        self.0.trunc() as u64
    }
    fn from_u128(i: u128) -> F {
        F(i as f64)
    }
    fn parse_text(text: &str) -> Option<F> {
        match text.parse::<f64>() {
            Ok(n) if n.is_finite() => Some(F(n)),
            _ => None,
        }
    }
    fn general_text(self) -> String {
        format!("{}", self.0)
    }
    fn whole_text(self) -> String {
        format!("{:.0}", self.0)
    }
}

/// The clock every test workbook is pinned to: 2023-01-01T12:00.
const PINNED_NOW_SERIAL: f64 = 44927.5;

/// The draw every test workbook's randomness source is pinned to.
const PINNED_RAND_UNIT: f64 = 0.75;

/// An in-memory workbook: a default sheet `Sheet1` plus named sheets, each a row-major grid.
struct Grid {
    sheets: Vec<(String, usize, Vec<Value>)>,
    formulas: Vec<(usize, u32, u32)>,
}

impl Grid {
    fn new(cols: usize, cells: Vec<Value>) -> Grid {
        Grid { sheets: vec![("Sheet1".to_string(), cols, cells)], formulas: Vec::new() }
    }
    #[allow(dead_code)]
    fn with_formula(mut self, sheet: usize, col: u32, row: u32) -> Grid {
        self.formulas.push((sheet, col, row));
        self
    }
    fn with_sheet(mut self, name: &str, cols: usize, cells: Vec<Value>) -> Grid {
        self.sheets.push((name.to_string(), cols, cells));
        self
    }
    fn cell(&self, sheet: usize, col: u32, row: u32) -> Value {
        let (_, cols, cells) = &self.sheets[sheet];
        let (c, r) = (col as usize, row as usize);
        if c < *cols {
            if let Some(v) = cells.get(r * cols + c) {
                return v.duplicate();
            }
        }
        Value::Blank
    }
}

impl Resolver<F> for Grid {
    fn spec_sheet_id(&self, name: &String) -> Option<SheetId> {
        self.sheet_id(name)
    }
    fn spec_is_formula(&self, cell: CellAddr) -> bool {
        self.is_formula(cell)
    }
    fn spec_value(&self, cell: CellAddr) -> Value {
        self.value(cell)
    }
    fn spec_range(&self, range: RangeAddr) -> ArrayView<F> {
        self.range(range)
    }
    fn sheet_id(&self, name: &str) -> Option<SheetId> {
        self.sheets
            .iter()
            .position(|(n, _, _)| n.eq_ignore_ascii_case(name))
            .map(|i| SheetId(i as u32))
    }
    fn value(&self, cell: CellAddr) -> Value {
        let s = cell.sheet.map(|s| s.0 as usize).unwrap_or(0);
        self.cell(s, cell.col, cell.row)
    }
    fn range(&self, range: RangeAddr) -> ArrayView<F> {
        let s = range.sheet.map(|s| s.0 as usize).unwrap_or(0);
        let rows = range.end_row - range.start_row + 1;
        let cols = range.end_col - range.start_col + 1;
        let mut cells = Vec::new();
        for r in range.start_row..=range.end_row {
            for c in range.start_col..=range.end_col {
                cells.push(self.cell(s, c, r));
            }
        }
        ArrayView { shape: Shape { rows, cols }, cells }
    }
    fn now_serial(&self) -> F {
        F(PINNED_NOW_SERIAL)
    }
    fn rand_unit(&self) -> F {
        F(PINNED_RAND_UNIT)
    }
    fn is_formula(&self, cell: CellAddr) -> bool {
        let s = cell.sheet.map(|s| s.0 as usize).unwrap_or(0);
        self.formulas.contains(&(s, cell.col, cell.row))
    }
}

use charlie_ast::a1::{format_cell, format_column, parse_a1, A1Address, A1Error};
use charlie_ast::criteria::{parse_criterion, wildcard_match, Criterion};
use charlie_ast::diag::{Diag, DiagCode, Severity, Span};
use charlie_ast::eval::{eval, EVAL_DEPTH_LIMIT};
use charlie_ast::expr::{BinOp, RangeNode, RefNode, UnOp};
use charlie_ast::func::array::broadcast_shape;
use charlie_ast::value::ErrKind;

// ---- A1 addresses ----------------------------------------------------------------------------

fn parsed(s: &str) -> A1Address {
    parse_a1(s).expect("should parse")
}

#[test]
fn plain_addresses() {
    assert_eq!(parsed("A1").col, 0);
    assert_eq!(parsed("A1").row, 0);
    assert_eq!(parsed("D7").col, 3);
    assert_eq!(parsed("D7").row, 6);
    // Bijective base-26: AA is column 27 -> index 26.
    assert_eq!(parsed("AA10").col, 26);
    assert_eq!(parsed("AA10").row, 9);
    assert_eq!(parsed("Z1").col, 25);
}

#[test]
fn absolute_flags() {
    let a = parsed("$A$1");
    assert!(a.col_abs && a.row_abs);
    let b = parsed("A$1");
    assert!(!b.col_abs && b.row_abs);
    let c = parsed("$A1");
    assert!(c.col_abs && !c.row_abs);
}

#[test]
fn deviation_flags_are_reported_not_judged() {
    assert!(parsed("a1").col_had_lowercase);
    assert!(!parsed("A1").col_had_lowercase);
    assert!(parsed("A01").row_had_leading_zero);
    assert!(!parsed("A10").row_had_leading_zero);
}

#[test]
fn malformed_inputs_are_located_never_panic() {
    assert_eq!(parse_a1(""), Err(A1Error::Empty));
    assert_eq!(parse_a1("1"), Err(A1Error::MissingColumn { at: 0 }));
    assert_eq!(parse_a1("A"), Err(A1Error::MissingRow { at: 1 }));
    assert_eq!(parse_a1("A1B"), Err(A1Error::UnexpectedChar { at: 2 }));
    assert_eq!(parse_a1("$$A1"), Err(A1Error::MissingColumn { at: 1 }));
    // A hostile, absurdly long column must overflow-guard, never panic.
    assert_eq!(parse_a1(&"A".repeat(64)), Err(A1Error::ColumnOverflow));
    // Non-ASCII bytes are simply unexpected, never a panic.
    assert!(parse_a1("Aλ1").is_err());
}

#[test]
fn round_trip_index_to_text() {
    assert_eq!(format_column(0), "A");
    assert_eq!(format_column(25), "Z");
    assert_eq!(format_column(26), "AA");
    assert_eq!(format_column(701), "ZZ");
    assert_eq!(format_column(702), "AAA");
    assert_eq!(format_cell(0, 0), "A1");
    assert_eq!(format_cell(6, 7), "G8");
    // parse . format is the identity on a canonical address.
    for s in ["A1", "D7", "AA10", "G8", "ZZ100"] {
        let a = parsed(s);
        assert_eq!(format_cell(a.col, a.row), s);
    }
}

#[test]
fn format_then_parse_recovers_the_cell() {
    for (col, row) in [(0u32, 0u32), (25, 9), (26, 99), (701, 1_000_000), (16_383, 1_048_575)] {
        let a = parsed(&format_cell(col, row));
        assert_eq!((a.col, a.row), (col, row));
        assert!(!a.col_abs && !a.row_abs && !a.col_had_lowercase && !a.row_had_leading_zero);
    }
}

#[test]
fn row_and_column_limits() {
    let zero = parsed("A0");
    assert_eq!(zero.row, 0);
    assert!(zero.row_had_leading_zero);
    assert_eq!(parse_a1("A99999999999"), Err(A1Error::RowOverflow));
    assert_eq!(format_column(16_383), "XFD");
    assert_eq!(parsed("XFD1048576"), A1Address {
        col: 16_383,
        row: 1_048_575,
        col_abs: false,
        row_abs: false,
        col_had_lowercase: false,
        row_had_leading_zero: false,
    });
}

// ---- Diagnostics -----------------------------------------------------------------------------

#[test]
fn diag_registry_is_self_consistent() {
    // Every variant appears in ALL, code strings are unique, kebab, non-empty summaries.
    let mut codes: Vec<&str> = DiagCode::all().iter().map(|c| c.code_str()).collect();
    let before = codes.len();
    codes.sort_unstable();
    codes.dedup();
    assert_eq!(before, codes.len(), "code strings must be unique");
    for c in DiagCode::all() {
        assert!(!c.summary().is_empty());
        let s = c.code_str();
        assert!(!s.is_empty() && !s.contains(' '), "kebab, no spaces: {s:?}");
        assert!(
            s.chars().all(|ch| ch.is_ascii_lowercase() || ch == '-'),
            "kebab-case only: {s:?}"
        );
        assert_eq!(c.severity(), Severity::Error);
    }
}

#[test]
fn all_lists_every_variant_exactly_once() {
    for c in DiagCode::all() {
        let _: &str = match c {
            DiagCode::UnexpectedChar
            | DiagCode::UnterminatedString
            | DiagCode::InvalidNumber
            | DiagCode::EmptyFormula
            | DiagCode::UnexpectedToken
            | DiagCode::UnexpectedEof
            | DiagCode::UnclosedParen
            | DiagCode::UnbalancedParen
            | DiagCode::UnknownFunction
            | DiagCode::BadArity
            | DiagCode::MalformedArray
            | DiagCode::ReservedUnion
            | DiagCode::ReservedIntersection
            | DiagCode::ReservedDynamicRange
            | DiagCode::ReservedName
            | DiagCode::ReservedCrossSheet
            | DiagCode::ReservedRefFunction
            | DiagCode::UnsupportedFormat
            | DiagCode::MalformedSheetName
            | DiagCode::RecursionLimit => c.code_str(),
        };
    }
    assert_eq!(DiagCode::all().len(), 20);
}

#[test]
fn display_is_ascii_and_located() {
    let d = Diag::new(
        DiagCode::UnknownFunction,
        Span::new(1, 4),
        "no such function BAR",
    );
    let s = d.render();
    assert!(s.is_ascii());
    assert!(s.contains("error[unknown-function]"));
    assert!(s.contains("at bytes 1..4"));
}

#[test]
fn render_is_exact() {
    let d = Diag::new(DiagCode::BadArity, Span::at(7), "ABS takes 1 argument");
    assert_eq!(d.render(), "error[bad-arity]: ABS takes 1 argument (at bytes 7..7)");
    assert_eq!(DiagCode::UnsupportedFormat.code_str(), "unsupported-format");
}

// ---- Expression tree -------------------------------------------------------------------------

fn lit(n: f64) -> Box<Expr> {
    Box::new(Expr::Lit(Value::Number(F(n))))
}

#[test]
fn structurally_identical_trees_are_equal() {
    let a = Expr::Binary(BinOp::Add, lit(1.0), lit(2.0));
    let b = Expr::Binary(BinOp::Add, lit(1.0), lit(2.0));
    assert_eq!(a, b);
}

#[test]
fn operator_and_operand_differences_are_visible() {
    let add = Expr::Binary(BinOp::Add, lit(1.0), lit(2.0));
    let sub = Expr::Binary(BinOp::Sub, lit(1.0), lit(2.0));
    let add_swapped = Expr::Binary(BinOp::Add, lit(2.0), lit(1.0));
    assert_ne!(add, sub);
    assert_ne!(add, add_swapped);
}

#[test]
fn reserved_nodes_are_constructible_and_comparable() {
    let a = Expr::ImplicitIntersect(lit(1.0));
    let b = Expr::SpillRef(lit(1.0));
    assert_ne!(a, b);
    assert_eq!(a, Expr::ImplicitIntersect(lit(1.0)));
}

// ---- Evaluator -------------------------------------------------------------------------------

fn cell(col: u32, row: u32) -> Expr {
    Expr::Ref(RefNode { col, row, col_abs: false, row_abs: false, sheet: None })
}

fn sheet_cell(sheet: &str, col: u32, row: u32) -> Expr {
    Expr::Ref(RefNode { col, row, col_abs: false, row_abs: false, sheet: Some(sheet.to_string()) })
}

fn num(n: f64) -> Expr {
    Expr::Lit(Value::Number(F(n)))
}

fn eval_on(expr: &Expr, grid: &Grid) -> Value {
    eval(expr, grid)
}

fn range(sc: u32, sr: u32, ec: u32, er: u32) -> Expr {
    Expr::Range(RangeNode { start_col: sc, start_row: sr, end_col: ec, end_row: er, sheet: None })
}

fn call(name: &str, args: Vec<Expr>) -> Expr {
    Expr::Call(charlie_ast::func::lookup(name).expect("known function"), args)
}

#[test]
fn arithmetic_and_coercion() {
    let g = Grid::new(1, vec![Value::Blank]);
    // 1 + 2 * 3 (tree built to reflect precedence)
    let e = Expr::Binary(
        BinOp::Add,
        Box::new(num(1.0)),
        Box::new(Expr::Binary(BinOp::Mul, Box::new(num(2.0)), Box::new(num(3.0)))),
    );
    assert_eq!(eval_on(&e, &g), Value::Number(F(7.0)));
    // "5" + 1 -> 6 (numeric text coerces)
    let e = Expr::Binary(BinOp::Add, Box::new(Expr::Lit(Value::Text("5".into()))), Box::new(num(1.0)));
    assert_eq!(eval_on(&e, &g), Value::Number(F(6.0)));
    // "x" + 1 -> #VALUE!
    let e = Expr::Binary(BinOp::Add, Box::new(Expr::Lit(Value::Text("x".into()))), Box::new(num(1.0)));
    assert_eq!(eval_on(&e, &g), Value::Error(ErrKind::Value));
}

#[test]
fn division_and_power_errors() {
    let g = Grid::new(1, vec![Value::Blank]);
    let div0 = Expr::Binary(BinOp::Div, Box::new(num(1.0)), Box::new(num(0.0)));
    assert_eq!(eval_on(&div0, &g), Value::Error(ErrKind::Div0));
    // 0 ^ -1 -> #DIV/0!
    let e = Expr::Binary(BinOp::Pow, Box::new(num(0.0)), Box::new(num(-1.0)));
    assert_eq!(eval_on(&e, &g), Value::Error(ErrKind::Div0));
    // (-8) ^ 0.5 -> #NUM! (complex)
    let e = Expr::Binary(BinOp::Pow, Box::new(num(-8.0)), Box::new(num(0.5)));
    assert_eq!(eval_on(&e, &g), Value::Error(ErrKind::Num));
    // (2^3)^2 = 64
    let e = Expr::Binary(
        BinOp::Pow,
        Box::new(Expr::Binary(BinOp::Pow, Box::new(num(2.0)), Box::new(num(3.0)))),
        Box::new(num(2.0)),
    );
    assert_eq!(eval_on(&e, &g), Value::Number(F(64.0)));
}

#[test]
fn error_propagation_is_leftmost() {
    let g = Grid::new(1, vec![Value::Blank]);
    let e = Expr::Binary(
        BinOp::Add,
        Box::new(Expr::Lit(Value::Error(ErrKind::Ref))),
        Box::new(Expr::Lit(Value::Error(ErrKind::Div0))),
    );
    assert_eq!(eval_on(&e, &g), Value::Error(ErrKind::Ref));
}

#[test]
fn leftmost_error_wins_through_a_range_or_array_left_operand() {
    // A1=#DIV/0!. =(A1:A1)+#REF! -> #DIV/0!
    let g = Grid::new(1, vec![Value::Error(ErrKind::Div0)]);
    let e = Expr::Binary(BinOp::Add, Box::new(range(0, 0, 0, 0)), Box::new(Expr::Lit(Value::Error(ErrKind::Ref))));
    assert_eq!(eval_on(&e, &g), Value::Error(ErrKind::Div0));
    // Same for a comparison operator: =(A1:A1)=#REF! -> #DIV/0!.
    let e = Expr::Binary(BinOp::Eq, Box::new(range(0, 0, 0, 0)), Box::new(Expr::Lit(Value::Error(ErrKind::Ref))));
    assert_eq!(eval_on(&e, &g), Value::Error(ErrKind::Div0));
    // A MULTI-cell left array scalarizes to #VALUE!, which must win over a right #REF!.
    let g = Grid::new(1, vec![Value::Number(F(1.0)), Value::Number(F(2.0))]);
    let e = Expr::Binary(BinOp::Add, Box::new(range(0, 0, 0, 1)), Box::new(Expr::Lit(Value::Error(ErrKind::Ref))));
    assert_eq!(eval_on(&e, &g), Value::Error(ErrKind::Value));
}

#[test]
fn concat_and_percent() {
    let g = Grid::new(1, vec![Value::Blank]);
    let e = Expr::Binary(BinOp::Concat, Box::new(num(1.0)), Box::new(Expr::Lit(Value::Text("x".into()))));
    assert_eq!(eval_on(&e, &g), Value::Text("1x".into()));
    // 50% -> 0.5
    let e = Expr::Unary(UnOp::Percent, Box::new(num(50.0)));
    assert_eq!(eval_on(&e, &g), Value::Number(F(0.5)));
    // TRUE & "!" -> "TRUE!"
    let e = Expr::Binary(
        BinOp::Concat,
        Box::new(Expr::Lit(Value::Bool(true))),
        Box::new(Expr::Lit(Value::Text("!".into()))),
    );
    assert_eq!(eval_on(&e, &g), Value::Text("TRUE!".into()));
}

#[test]
fn comparisons_follow_excel_type_rules() {
    let g = Grid::new(1, vec![Value::Blank]);
    let e = Expr::Binary(
        BinOp::Eq,
        Box::new(Expr::Lit(Value::Text("a".into()))),
        Box::new(Expr::Lit(Value::Text("A".into()))),
    );
    assert_eq!(eval_on(&e, &g), Value::Bool(true));
    let e = Expr::Binary(BinOp::Lt, Box::new(num(999.0)), Box::new(Expr::Lit(Value::Text("a".into()))));
    assert_eq!(eval_on(&e, &g), Value::Bool(true));
    let e = Expr::Binary(BinOp::Eq, Box::new(Expr::Lit(Value::Blank)), Box::new(num(0.0)));
    assert_eq!(eval_on(&e, &g), Value::Bool(true));
    // signed zero: (0*-1) = 0 -> TRUE
    let neg_zero = Expr::Binary(BinOp::Mul, Box::new(num(0.0)), Box::new(num(-1.0)));
    let e = Expr::Binary(BinOp::Eq, Box::new(neg_zero), Box::new(num(0.0)));
    assert_eq!(eval_on(&e, &g), Value::Bool(true));
}

#[test]
fn ref_and_range_resolution() {
    // 2x2 grid: A1=1 B1=2 / A2=3 B2=4
    let g = Grid::new(
        2,
        vec![Value::Number(F(1.0)), Value::Number(F(2.0)), Value::Number(F(3.0)), Value::Number(F(4.0))],
    );
    assert_eq!(eval_on(&cell(1, 1), &g), Value::Number(F(4.0)));
    match eval_on(&range(0, 0, 1, 1), &g) {
        Value::Array(shape, cells) => {
            assert_eq!(shape, Shape { rows: 2, cols: 2 });
            assert_eq!(cells.len(), 4);
        }
        other => panic!("expected array, got {other:?}"),
    }
}

#[test]
fn cross_sheet_refs_resolve_through_the_resolver() {
    // Default sheet `Sheet1` (A1=1), plus a named `Data` sheet (A1=10, A2=20, A3=30).
    let g = Grid::new(1, vec![Value::Number(F(1.0))]).with_sheet(
        "Data",
        1,
        vec![Value::Number(F(10.0)), Value::Number(F(20.0)), Value::Number(F(30.0))],
    );
    let sheet_range = |sheet: &str| {
        Expr::Range(RangeNode { start_col: 0, start_row: 0, end_col: 0, end_row: 2, sheet: Some(sheet.to_string()) })
    };
    // =Data!A1
    assert_eq!(eval(&sheet_cell("Data", 0, 0), &g), Value::Number(F(10.0)));
    // =A1
    assert_eq!(eval(&cell(0, 0), &g), Value::Number(F(1.0)));
    // =Sheet1!A1
    assert_eq!(eval(&sheet_cell("Sheet1", 0, 0), &g), Value::Number(F(1.0)));
    // =SUM(Data!A1:A3)
    assert_eq!(eval(&call("SUM", vec![sheet_range("Data")]), &g), Value::Number(F(60.0)));
    // =Nope!A1 and =SUM(Nope!A1:A3)
    assert_eq!(eval(&sheet_cell("Nope", 0, 0), &g), Value::Error(ErrKind::Ref));
    assert_eq!(eval(&call("SUM", vec![sheet_range("Nope")]), &g), Value::Error(ErrKind::Ref));
}

#[test]
fn reserved_nodes_defer_at_eval() {
    let g = Grid::new(1, vec![Value::Number(F(7.0))]);
    let ii_scalar = Expr::ImplicitIntersect(Box::new(num(7.0)));
    assert_eq!(eval_on(&ii_scalar, &g), Value::Number(F(7.0)));
    let ii_arr = Expr::ImplicitIntersect(Box::new(range(0, 0, 0, 0)));
    // A 1x1 range scalarizes -> identity of the single cell, NOT #CALC!
    assert_eq!(eval_on(&ii_arr, &g), Value::Number(F(7.0)));
    let spill = Expr::SpillRef(Box::new(num(7.0)));
    assert_eq!(eval_on(&spill, &g), Value::Error(ErrKind::Calc));
}

#[test]
fn synthesized_deep_tree_does_not_overflow_eval() {
    let g = Grid::new(1, vec![Value::Blank]);
    let mut e = num(1.0);
    for _ in 0..2000 {
        e = Expr::Unary(UnOp::Plus, Box::new(e));
    }
    assert_eq!(eval_on(&e, &g), Value::Error(ErrKind::Num));
}

#[test]
fn depth_limit_is_exact() {
    // The limit counts evaluation levels: a literal under LIMIT - 1 prefix operators evaluates,
    // one more operator level is #NUM!.
    let g = Grid::new(1, vec![Value::Blank]);
    let wrap = |levels: u32| {
        let mut e = num(3.0);
        for _ in 0..levels {
            e = Expr::Unary(UnOp::Plus, Box::new(e));
        }
        e
    };
    assert_eq!(eval_on(&wrap(EVAL_DEPTH_LIMIT - 1), &g), Value::Number(F(3.0)));
    assert_eq!(eval_on(&wrap(EVAL_DEPTH_LIMIT), &g), Value::Error(ErrKind::Num));
}

#[test]
fn literal_errors_are_known_without_evaluation() {
    // Operators over literal errors, the reserved nodes and bad calls have fixed outcomes.
    let g = Grid::new(1, vec![Value::Blank]);
    let e = Expr::Unary(UnOp::Neg, Box::new(Expr::Lit(Value::Error(ErrKind::Na))));
    assert_eq!(eval_on(&e, &g), Value::Error(ErrKind::Na));
    let e = Expr::Binary(BinOp::Concat, Box::new(num(1.0)), Box::new(Expr::Lit(Value::Error(ErrKind::Null))));
    assert_eq!(eval_on(&e, &g), Value::Error(ErrKind::Null));
    let whole = Expr::WholeRange(charlie_ast::expr::WholeRangeNode { columns: true, start: 0, end: 0, sheet: None });
    assert_eq!(eval_on(&whole, &g), Value::Error(ErrKind::Ref));
}

// ---- Criteria --------------------------------------------------------------------------------

fn crit(v: Value) -> Criterion<F> {
    parse_criterion(&v).expect("criterion parses")
}
fn text(s: &str) -> Value {
    Value::Text(s.into())
}

#[test]
fn numeric_comparison_operators() {
    let c = crit(text(">10"));
    assert!(c.matches(&Value::Number(F(15.0))));
    assert!(!c.matches(&Value::Number(F(10.0))));
    assert!(!c.matches(&Value::Number(F(5.0))));
    assert!(!c.matches(&text("99")));
    let ge = crit(text(">=10"));
    assert!(ge.matches(&Value::Number(F(10.0))));
    let le = crit(text("<=10"));
    assert!(le.matches(&Value::Number(F(10.0))) && le.matches(&Value::Number(F(9.0))));
    let ne = crit(text("<>10"));
    assert!(ne.matches(&Value::Number(F(11.0))) && !ne.matches(&Value::Number(F(10.0))));
    assert!(ne.matches(&text("x")));
}

#[test]
fn bare_number_is_equality() {
    let c = crit(Value::Number(F(5.0)));
    assert!(c.matches(&Value::Number(F(5.0))));
    assert!(!c.matches(&Value::Number(F(6.0))));
    assert!(crit(text("5")).matches(&Value::Number(F(5.0))));
}

#[test]
fn text_equality_is_case_insensitive() {
    let c = crit(text("Apple"));
    assert!(c.matches(&text("apple")) && c.matches(&text("APPLE")));
    assert!(!c.matches(&text("apples")));
}

#[test]
fn wildcards_star_and_question() {
    assert!(crit(text("a*")).matches(&text("avocado")));
    assert!(!crit(text("a*")).matches(&text("banana")));
    assert!(crit(text("ca?")).matches(&text("cat")));
    assert!(!crit(text("ca?")).matches(&text("ca")));
    assert!(!crit(text("ca?")).matches(&text("cart")));
    assert!(crit(text("a*o")).matches(&text("avocado")));
    assert!(crit(text("*")).matches(&text("anything")));
}

#[test]
fn tilde_escapes_a_literal_wildcard() {
    let c = crit(text("a~*b"));
    assert!(c.matches(&text("a*b")));
    assert!(!c.matches(&text("axb")));
    assert!(crit(text("a~?")).matches(&text("a?")));
    assert!(!crit(text("a~?")).matches(&text("ax")));
}

#[test]
fn ne_wildcard_and_text_ordering() {
    let ne = crit(text("<>a*"));
    assert!(ne.matches(&text("banana")) && !ne.matches(&text("apple")));
    let gt = crit(text(">m"));
    assert!(gt.matches(&text("nurse")) && !gt.matches(&text("apple")));
    assert!(!gt.matches(&Value::Number(F(999.0))));
}

#[test]
fn empty_comparand_selects_blanks() {
    let eq = crit(text("="));
    assert!(eq.matches(&Value::Blank) && eq.matches(&text("")));
    assert!(!eq.matches(&text("x")) && !eq.matches(&Value::Number(F(0.0))));
    let ne = crit(text("<>"));
    assert!(ne.matches(&text("x")) && ne.matches(&Value::Number(F(0.0))));
    assert!(!ne.matches(&Value::Blank) && !ne.matches(&text("")));
    assert!(crit(Value::Blank).matches(&Value::Blank));
}

#[test]
fn text_pattern_matches_text_cells_only_not_numbers_or_bools() {
    let star = crit(text("*"));
    assert!(star.matches(&text("apple")) && star.matches(&text("")));
    assert!(!star.matches(&Value::Number(F(5.0))) && !star.matches(&Value::Bool(true)));
    let one_star = crit(text("1*"));
    assert!(one_star.matches(&text("1x")));
    assert!(!one_star.matches(&Value::Number(F(15.0))));
    let q = crit(text("?"));
    assert!(q.matches(&text("a")) && !q.matches(&Value::Number(F(5.0))));
    let ne = crit(text("<>a*"));
    assert!(ne.matches(&Value::Number(F(5.0))) && ne.matches(&Value::Bool(false)));
    assert!(!crit(text("apple")).matches(&Value::Number(F(5.0))));
}

#[test]
fn error_cells_never_match_and_error_criteria_propagates() {
    assert!(!crit(text("<>10")).matches(&Value::Error(ErrKind::Na)));
    assert!(!crit(text("*")).matches(&Value::Error(ErrKind::Na)));
    assert_eq!(parse_criterion(&Value::Error(ErrKind::Div0)), Err(ErrKind::Div0));
}

#[test]
fn wildcard_matching_is_whole_text_and_case_folded_by_the_caller() {
    assert!(wildcard_match("a*c", "abbbc"));
    assert!(!wildcard_match("a*c", "abbbcd"));
    assert!(wildcard_match("*", ""));
    assert!(wildcard_match("~*", "*"));
    assert!(!wildcard_match("~*", "x"));
    assert!(wildcard_match("?*?", "ab"));
    assert!(!wildcard_match("?*?", "a"));
}

// ---- Implicit array shapes -------------------------------------------------------------------

fn arr(rows: u32, cols: u32) -> Value {
    let mut cells = Vec::new();
    for _ in 0..(rows * cols) {
        cells.push(Value::Blank);
    }
    Value::Array(Shape { rows, cols }, cells)
}

#[test]
fn two_scalar_positions_of_different_shapes_are_a_value_error() {
    assert_eq!(broadcast_shape(&[arr(3, 1), arr(2, 1)], &[0, 1]), Err(ErrKind::Value));
}

#[test]
fn two_scalar_positions_of_equal_shape_share_one_shape() {
    assert_eq!(broadcast_shape(&[arr(3, 1), arr(3, 1)], &[0, 1]), Ok(Some(Shape { rows: 3, cols: 1 })));
}

#[test]
fn a_1x1_array_in_a_scalar_position_does_not_force_a_broadcast() {
    assert_eq!(broadcast_shape(&[arr(1, 1)], &[0]), Ok(None));
}

#[test]
fn only_listed_positions_force_a_shape() {
    assert_eq!(broadcast_shape(&[arr(3, 1), arr(2, 2)], &[1]), Ok(Some(Shape { rows: 2, cols: 2 })));
    assert_eq!(broadcast_shape(&[arr(3, 1)], &[4]), Ok(None));
}

#[test]
fn a1_non_ascii_and_long_columns_are_refused() {
    assert!(parse_a1("Aλ1").is_err());
    assert!(parse_a1("A1é").is_err());
    assert_eq!(parse_a1("AAAAAAAA1"), Err(A1Error::ColumnOverflow));
    assert_eq!(parse_a1("$ZZZZZZZZ9"), Err(A1Error::ColumnOverflow));
    assert!(parse_a1("AAAAAAA1").is_ok());
}
