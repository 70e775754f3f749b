//! Meaning layer: [`Expr`] and its operator/function vocabulary, the reference nodes, and the
//! [`Resolver`] seam through which evaluation reads the workbook.

use vstd::prelude::*;
use crate::value::{Shape, Value};

verus! {

/// A unary operator.
#[derive(Clone, Copy, Debug, PartialEq, Eq, Hash, Structural)]
pub enum UnOp {
    /// Prefix `+` (identity; preserved so it round-trips).
    Plus,
    /// Prefix `-` (negation).
    Neg,
    /// Postfix `%` (percent — divide by 100).
    Percent,
}

/// A binary operator, spanning arithmetic, string concat, and the comparisons.
#[derive(Clone, Copy, Debug, PartialEq, Eq, Hash, Structural)]
pub enum BinOp {
    Add,
    Sub,
    Mul,
    Div,
    /// `^` exponentiation.
    Pow,
    /// `&` string concatenation.
    Concat,
    /// `=` equal.
    Eq,
    /// `<>` not equal.
    Ne,
    Lt,
    Le,
    Gt,
    Ge,
}

/// A handle into the function registry.
#[derive(Clone, Copy, Debug, PartialEq, Eq, Hash, Structural)]
pub struct FuncId(pub u32);

/// A single-cell reference (`A1`, `$A$1`, `Sheet1!A1`); `sheet` is the parsed sheet name, if any.
#[derive(Clone, Debug, PartialEq, Eq)]
pub struct RefNode {
    pub col: u32,
    pub row: u32,
    pub col_abs: bool,
    pub row_abs: bool,
    pub sheet: Option<String>,
}

/// A static rectangular range (`A1:B10`, `Sheet1!A1:B10`).
#[derive(Clone, Debug, PartialEq, Eq)]
pub struct RangeNode {
    pub start_col: u32,
    pub start_row: u32,
    pub end_col: u32,
    pub end_row: u32,
    pub sheet: Option<String>,
}

/// A whole-column (`A:A`, `B:D`) or whole-row (`1:1`) reference, unbounded along its open axis.
#[derive(Clone, Debug, PartialEq, Eq)]
pub struct WholeRangeNode {
    /// `true` for whole columns, `false` for whole rows.
    pub columns: bool,
    /// First column/row index (zero-based).
    pub start: u32,
    /// Last column/row index (zero-based).
    pub end: u32,
    pub sheet: Option<String>,
}

/// A formula expression node — the source-free, meaning-only core of the AST.
///
/// `ImplicitIntersect` (`@`) and `SpillRef` (`#`) are reserved: they are preserved so a round trip
/// never loses them, but their evaluation is deferred.
#[derive(Debug, PartialEq)]
pub enum Expr<N> {
    /// A literal value.
    Lit(Value<N>),
    /// A single-cell reference.
    Ref(RefNode),
    /// A rectangular range.
    Range(RangeNode),
    /// A whole-column / whole-row reference — bounded by the host before evaluation.
    WholeRange(WholeRangeNode),
    /// A unary operation.
    Unary(UnOp, Box<Expr<N>>),
    /// A binary operation.
    Binary(BinOp, Box<Expr<N>>, Box<Expr<N>>),
    /// A function call.
    Call(FuncId, Vec<Expr<N>>),
    /// Reserved: implicit intersection `@expr`.
    ImplicitIntersect(Box<Expr<N>>),
    /// Reserved: spill reference `expr#`.
    SpillRef(Box<Expr<N>>),
}

/// The number of nodes in an expression tree.
pub open spec fn expr_size<N>(e: Expr<N>) -> nat
    decreases e,
{
    match e {
        Expr::Unary(_, a) => 1 + expr_size(*a),
        Expr::Binary(_, a, b) => 1 + expr_size(*a) + expr_size(*b),
        Expr::Call(_, args) => 1 + args_size(args@),
        Expr::ImplicitIntersect(a) => 1 + expr_size(*a),
        Expr::SpillRef(a) => 1 + expr_size(*a),
        _ => 1,
    }
}

/// The number of nodes in a run of argument trees.
pub open spec fn args_size<N>(s: Seq<Expr<N>>) -> nat
    decreases s,
{
    if s.len() == 0 {
        0
    } else {
        args_size(s.drop_last()) + expr_size(s.last())
    }
}

/// Each argument is no larger than the run it belongs to.
pub proof fn lemma_arg_size<N>(s: Seq<Expr<N>>, i: int)
    requires
        0 <= i < s.len(),
    ensures
        expr_size(s[i]) <= args_size(s),
    decreases s.len(),
{
    if i < s.len() - 1 {
        lemma_arg_size(s.drop_last(), i);
        assert(s.drop_last()[i] == s[i]);
    }
}

/// Every tree counts at least one node.
pub proof fn lemma_expr_size_positive<N>(e: Expr<N>)
    ensures
        expr_size(e) >= 1,
{
}

/// Every argument counts at least one node.
pub proof fn lemma_args_size_at_least_len<N>(s: Seq<Expr<N>>)
    ensures
        args_size(s) >= s.len(),
    decreases s.len(),
{
    if s.len() > 0 {
        lemma_args_size_at_least_len(s.drop_last());
        lemma_expr_size_positive(s.last());
    }
}

/// A run of literal arguments counts one node each.
pub proof fn lemma_lit_args_size<N>(s: Seq<Expr<N>>)
    requires
        forall|i: int| 0 <= i < s.len() ==> #[trigger] s[i] is Lit,
    ensures
        args_size(s) == s.len(),
    decreases s.len(),
{
    if s.len() > 0 {
        let t = s.drop_last();
        assert forall|i: int| 0 <= i < t.len() implies #[trigger] t[i] is Lit by {
            assert(s[i] is Lit);
        }
        lemma_lit_args_size(t);
        assert(s[s.len() - 1] is Lit);
        assert(expr_size(s.last()) == 1);
    }
}

/// Two distinct arguments together are no larger than the run they belong to.
pub proof fn lemma_two_args_size<N>(s: Seq<Expr<N>>, i: int, j: int)
    requires
        0 <= i < j < s.len(),
    ensures
        expr_size(s[i]) + expr_size(s[j]) <= args_size(s),
    decreases s.len(),
{
    if j < s.len() - 1 {
        lemma_two_args_size(s.drop_last(), i, j);
        assert(s.drop_last()[i] == s[i]);
        assert(s.drop_last()[j] == s[j]);
    } else {
        lemma_arg_size(s.drop_last(), i);
        assert(s.drop_last()[i] == s[i]);
    }
}

/// An opaque handle for a sheet, minted by the [`Resolver`].
#[derive(Clone, Copy, Debug, PartialEq, Eq, Hash, Structural)]
pub struct SheetId(pub u32);

/// A resolved cell coordinate: the sheet (`None` = the formula's own sheet), zero-based col/row.
#[derive(Clone, Copy, Debug, PartialEq, Eq, Hash)]
pub struct CellAddr {
    pub sheet: Option<SheetId>,
    pub col: u32,
    pub row: u32,
}

/// A resolved rectangular range on one sheet.
#[derive(Clone, Copy, Debug, PartialEq, Eq, Hash)]
pub struct RangeAddr {
    pub sheet: Option<SheetId>,
    pub start_col: u32,
    pub start_row: u32,
    pub end_col: u32,
    pub end_row: u32,
}

/// The cells of a resolved range, row-major, with their shape.
pub struct ArrayView<N> {
    pub shape: Shape,
    pub cells: Vec<Value<N>>,
}

/// The evaluator's entire view of the outside world: a pre-loaded workbook the host implements.
/// The workbook does not change while a formula evaluates, so what a cell or a range holds, and
/// whether a cell holds a formula, and which sheet a name finds, is a function of the resolver and
/// the address or name, as `spec_value`, `spec_range`, `spec_is_formula` and `spec_sheet_id` name
/// it; the clock and the random source carry no such statement.
pub trait Resolver<N> {
    /// What `value` reads at a cell.
    spec fn spec_value(&self, cell: CellAddr) -> Value<N>;
    /// What `range` reads over a range.
    spec fn spec_range(&self, range: RangeAddr) -> ArrayView<N>;
    /// What `sheet_id` finds for a sheet name.
    spec fn spec_sheet_id(&self, name: &String) -> Option<SheetId>;
    /// The handle of the sheet named `name`, or `None` if the workbook has no such sheet. The lookup
    /// reads the name's characters only.
    fn sheet_id(&self, name: &str) -> (r: Option<SheetId>)
        ensures
            forall|s: &String| s@ == name@ ==> r == #[trigger] self.spec_sheet_id(s);
    /// The value of one cell (`Blank` for an empty one).
    fn value(&self, cell: CellAddr) -> (r: Value<N>)
        ensures
            r == self.spec_value(cell);
    /// The cells of a range, row-major.
    fn range(&self, range: RangeAddr) -> (r: ArrayView<N>)
        ensures
            r == self.spec_range(range);
    /// The current instant as an Excel date-time serial — the clock `TODAY`/`NOW` read.
    fn now_serial(&self) -> N;
    /// A uniformly distributed random number in `[0, 1)` — the source `RAND`/`RANDBETWEEN` read.
    fn rand_unit(&self) -> N;
    /// What `is_formula` reads at a cell.
    spec fn spec_is_formula(&self, cell: CellAddr) -> bool;
    /// Whether a cell holds a formula (not its value) — what `ISFORMULA` reads.
    fn is_formula(&self, cell: CellAddr) -> (r: bool)
        ensures
            r == self.spec_is_formula(cell);
}

} // verus!
