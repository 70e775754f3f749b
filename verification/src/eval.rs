//! The evaluator: [`EvalCtx`] and [`eval`]. Synchronous over a pre-loaded [`Resolver`]. Every
//! failure is a first-class [`Value::Error`]; the evaluator never panics and never returns a
//! [`crate::diag::Diag`] (refusals are a parse-time concern).

use vstd::prelude::*;
use crate::expr::{expr_size, ArrayView, BinOp, CellAddr, Expr, FuncId, RangeAddr, RangeNode, RefNode, Resolver, UnOp};
use crate::func;
use crate::strings::{chars_of, eq_ignore_case, lower_chars, lower_seq, order_chars, seq_order, string_of_range};
use crate::value::{decimal_value, is_decimal_char, lemma_cell_size_bound, same_value, value_size, ErrKind, Number, Order, Value};

verus! {

/// A hard ceiling on evaluation recursion depth: a synthesized tree deeper than this yields a
/// `#NUM!` value rather than a stack overflow.
pub const EVAL_DEPTH_LIMIT: u32 = 512;

/// The evaluator's working context: its view of the outside world ([`Resolver`]) plus the live
/// recursion depth, threaded through every registry function.
pub struct EvalCtx<'r, R> {
    resolver: &'r R,
    depth: u32,
}

impl<'r, R> EvalCtx<'r, R> {
    /// The live recursion depth.
    pub closed spec fn level(&self) -> u32 {
        self.depth
    }

    /// The resolver this context reads.
    pub closed spec fn source(&self) -> &'r R {
        self.resolver
    }

    /// The current instant as a date-time serial, read from the resolver's clock.
    pub fn now_serial<N: Number>(&self) -> N
        where R: Resolver<N>,
    {
        self.resolver.now_serial()
    }

    /// A random draw in `[0, 1)`, read from the resolver's randomness source.
    pub fn rand_unit<N: Number>(&self) -> N
        where R: Resolver<N>,
    {
        self.resolver.rand_unit()
    }

    /// Whether the cell a reference names holds a formula; `None` when its sheet name is unknown.
    pub fn ref_is_formula<N: Number>(&self, node: &RefNode) -> (r: Option<bool>)
        where R: Resolver<N>,
        ensures
            node.sheet is None ==> r is Some,
            node.sheet is None ==> r == Some(self.source().spec_is_formula(CellAddr { sheet: None, col: node.col, row: node.row })),
    {
        let sheet = match &node.sheet {
            None => None,
            Some(name) => match self.resolver.sheet_id(name.as_str()) {
                Some(id) => Some(id),
                None => {
                    return None;
                },
            },
        };
        Some(self.resolver.is_formula(CellAddr { sheet, col: node.col, row: node.row }))
    }

    /// Whether the top-left cell of a range holds a formula; `None` when its sheet name is unknown.
    pub fn range_is_formula<N: Number>(&self, node: &RangeNode) -> (r: Option<bool>)
        where R: Resolver<N>,
        ensures
            node.sheet is None ==> r is Some,
            node.sheet is None ==> r == Some(self.source().spec_is_formula(CellAddr { sheet: None, col: node.start_col, row: node.start_row })),
    {
        let sheet = match &node.sheet {
            None => None,
            Some(name) => match self.resolver.sheet_id(name.as_str()) {
                Some(id) => Some(id),
                None => {
                    return None;
                },
            },
        };
        Some(self.resolver.is_formula(CellAddr { sheet, col: node.start_col, row: node.start_row }))
    }

    pub fn new(resolver: &'r R) -> (r: EvalCtx<'r, R>)
        ensures
            r.level() == 0,
            r.source() == resolver,
    {
        EvalCtx { resolver, depth: 0 }
    }
}

/// What a single-cell reference reads: the cell on the formula's own sheet, or on the sheet its name
/// finds; a name that finds no sheet is `#REF!`.
pub open spec fn spec_ref_read<N, R: Resolver<N>>(src: &R, node: RefNode) -> Value<N> {
    match node.sheet {
        None => src.spec_value(CellAddr { sheet: None, col: node.col, row: node.row }),
        Some(name) => match src.spec_sheet_id(&name) {
            None => Value::Error(ErrKind::Ref),
            Some(id) => src.spec_value(CellAddr { sheet: Some(id), col: node.col, row: node.row }),
        },
    }
}

/// The cells a range reads as an array value.
pub open spec fn view_value<N>(view: ArrayView<N>) -> Value<N> {
    Value::Array(view.shape, view.cells)
}

/// What a range reads: its cells on the formula's own sheet, or on the sheet its name finds; a
/// name that finds no sheet is `#REF!`.
pub open spec fn spec_range_read<N, R: Resolver<N>>(src: &R, node: RangeNode) -> Value<N> {
    match node.sheet {
        None => view_value(src.spec_range(RangeAddr {
            sheet: None,
            start_col: node.start_col,
            start_row: node.start_row,
            end_col: node.end_col,
            end_row: node.end_row,
        })),
        Some(name) => match src.spec_sheet_id(&name) {
            None => Value::Error(ErrKind::Ref),
            Some(id) => view_value(src.spec_range(RangeAddr {
                sheet: Some(id),
                start_col: node.start_col,
                start_row: node.start_row,
                end_col: node.end_col,
                end_row: node.end_row,
            })),
        },
    }
}

/// The context that reads `src` at depth `level`.
pub closed spec fn ctx_at<'r, R>(src: &'r R, level: int) -> EvalCtx<'r, R> {
    EvalCtx { resolver: src, depth: level as u32 }
}

/// The context at a depth within range reports that depth and that resolver.
pub proof fn lemma_ctx_at<'r, R>(src: &'r R, level: int)
    requires
        0 <= level <= u32::MAX,
    ensures
        ctx_at(src, level).level() == level,
        ctx_at(src, level).source() == src,
{
}

/// The context after a sub-evaluation is the context before it: same depth, same resolver.
pub open spec fn restored<'r, R>(before: EvalCtx<'r, R>, after: EvalCtx<'r, R>) -> bool {
    after.level() == before.level() && after.source() == before.source()
}

/// A context restored after a sub-evaluation is the very context it was before.
pub proof fn lemma_restored_same<'r, R>(before: EvalCtx<'r, R>, after: EvalCtx<'r, R>)
    requires
        restored(before, after),
    ensures
        before == after,
{
}

/// The scalar a value presents in an operator position: a 1×1 array is its cell (the last one
/// stored), a larger array is `#VALUE!`, anything else is itself.
pub open spec fn spec_scalarize<N>(v: Value<N>) -> Value<N> {
    match v {
        Value::Array(shape, cells) => if shape.rows == 1 && shape.cols == 1 {
            if cells@.len() > 0 { cells@.last() } else { Value::Blank }
        } else {
            Value::Error(ErrKind::Value)
        },
        _ => v,
    }
}

/// The outcome an expression is known to have without evaluating any number operation or reading
/// the workbook: literals, the reserved nodes, calls the registry cannot run, and operators whose
/// operands are literals that are (or collapse to) errors. `None` when evaluation must run.
pub open spec fn static_outcome<N>(e: Expr<N>) -> Option<Value<N>> {
    match e {
        Expr::Lit(v) => Some(v),
        Expr::WholeRange(_) => Some(Value::Error(ErrKind::Ref)),
        Expr::SpillRef(_) => Some(Value::Error(ErrKind::Calc)),
        Expr::Unary(_, inner) => match *inner {
            Expr::Lit(v) => match spec_scalarize(v) {
                Value::Error(k) => Some(Value::Error(k)),
                _ => None,
            },
            _ => None,
        },
        Expr::Binary(_, l, r) => match *l {
            Expr::Lit(lv) => match spec_scalarize(lv) {
                Value::Error(k) => Some(Value::Error(k)),
                _ => match *r {
                    Expr::Lit(rv) => match spec_scalarize(rv) {
                        Value::Error(k) => Some(Value::Error(k)),
                        _ => None,
                    },
                    _ => None,
                },
            },
            _ => None,
        },
        Expr::Call(id, args) => func::static_call_outcome(id, args@.len()),
        _ => None,
    }
}

/// Whether `r` is what a unary operator gives for an operand that evaluated to `v`: the operand is
/// collapsed to a scalar, an error propagates, and otherwise it is coerced to a number (`+x` is the
/// number, `-x` its negation, `x%` the number over a hundred).
pub open spec fn unary_holds<N: Number>(op: UnOp, v: Value<N>, r: Value<N>) -> bool {
    let s = spec_scalarize(v);
    match s {
        Value::Error(k) => r == Value::<N>::Error(k),
        _ => exists|c: Result<N, ErrKind>| #[trigger] num_coercion(s, c) && match c {
            Err(k) => r == Value::<N>::Error(k),
            Ok(n) => r == match op {
                UnOp::Plus => Value::<N>::Number(n),
                UnOp::Neg => Value::<N>::Number(n.spec_negate()),
                UnOp::Percent => Value::<N>::Number(n.spec_over(N::spec_from_int(100))),
            },
        },
    }
}

/// Whether `r` is what a binary operator gives once both operands have evaluated (to `lv` and `rv`)
/// and the left one did not collapse to an error: a right error propagates; `&` joins the texts of
/// the collapsed scalars; a comparison follows [`spec_compare`]; arithmetic coerces both scalars to
/// numbers (left error first, see [`num_coercion`]) and follows [`spec_arith`].
pub open spec fn binary_holds<N: Number>(op: BinOp, lv: Value<N>, rv: Value<N>, r: Value<N>) -> bool {
    let ls = spec_scalarize(lv);
    let rs = spec_scalarize(rv);
    match rs {
        Value::Error(k) => r == Value::<N>::Error(k),
        _ => match op {
            BinOp::Concat => exists|ta: Result<Seq<char>, ErrKind>| #[trigger] text_coercion(spec_scalarize(ls), ta) && match ta {
                Err(k) => r == Value::<N>::Error(k),
                Ok(a) => exists|tb: Result<Seq<char>, ErrKind>| #[trigger] text_coercion(spec_scalarize(rs), tb) && match tb {
                    Err(k) => r == Value::<N>::Error(k),
                    Ok(b) => r is Text && r->Text_0@ == a + b,
                },
            },
            BinOp::Eq | BinOp::Ne | BinOp::Lt | BinOp::Le | BinOp::Gt | BinOp::Ge => r == spec_compare(op, ls, rs),
            _ => exists|ca: Result<N, ErrKind>| #[trigger] num_coercion(ls, ca) && match ca {
                Err(k) => r == Value::<N>::Error(k),
                Ok(a) => exists|cb: Result<N, ErrKind>| #[trigger] num_coercion(rs, cb) && match cb {
                    Err(k) => r == Value::<N>::Error(k),
                    Ok(b) => r == spec_arith(op, a, b),
                },
            },
        },
    }
}

/// Whether `r` is the implicit intersection of a value `v`: a 1×1 array is its cell, a larger array
/// is `#CALC!` (deferred), a scalar is itself.
pub open spec fn intersect_holds<N>(v: Value<N>, r: Value<N>) -> bool {
    match v {
        Value::Array(shape, cells) => if shape.rows == 1 && shape.cols == 1 {
            r == (if cells@.len() > 0 { cells@.last() } else { Value::<N>::Blank })
        } else {
            r == Value::<N>::Error(ErrKind::Calc)
        },
        _ => r == v,
    }
}

/// Whether `r` is what a call of the row with a given id gives on arguments `args` in context
/// `ctx`: a row that runs on its arguments as they stand gives its stated outcome
/// ([`func::row_outcome`], [`func::row_reads`]), a broadcasting row what [`func::array::broadcast_holds`] says for the
/// values its arguments evaluated to.
pub open spec fn call_holds<'r, N: Number, R: Resolver<N>>(id: FuncId, ctx: EvalCtx<'r, R>, args: Seq<Expr<N>>, r: Value<N>) -> bool {
    &&& func::runs_as_stated(id, args.len()) ==> func::row_outcome(id, ctx, args, r) && func::row_reads(id, ctx, args, r)
    &&& match func::spec_def(id.0) {
        Some(f) => func::spec_arity_ok(f, args.len()) && !(f.broadcast is Never)
            ==> exists|vals: Seq<Value<N>>| #[trigger] func::array::broadcast_holds(id, f.broadcast, ctx, args, vals, r),
        None => true,
    }
}

/// The values an evaluation met on its way down: for an operator or an intersection, what each
/// operand evaluated to and how; for a broadcasting call, what each argument evaluated to and how.
pub enum EvalTrace<N> {
    Leaf,
    One(Value<N>, Box<EvalTrace<N>>),
    Two(Value<N>, Box<EvalTrace<N>>, Value<N>, Box<EvalTrace<N>>),
    Many(Seq<Value<N>>, Seq<EvalTrace<N>>),
}

/// Whether `r` is what an expression evaluates to at recursion depth `level`, with `t` recording
/// what its operands evaluated to. At the depth limit every expression is `#NUM!`. Below it a
/// literal is itself; a whole-column reference is `#REF!` and a spill reference `#CALC!`; an operator
/// applies [`unary_holds`] / [`binary_holds`] to what its operands evaluate to one level down, the
/// left operand first — an operand that collapses to an error is the result, and then the right one
/// is never evaluated; implicit intersection applies [`intersect_holds`]; a call the registry cannot
/// run is its static outcome, and one whose row runs on its arguments as they stand gives that row's
/// stated outcome ([`func::row_outcome`]) one level down; a cell reference or a range reads what
/// the resolver `src` holds there, on the formula's own sheet or a named one, and an unknown sheet
/// name is `#REF!` ([`spec_ref_read`], [`spec_range_read`]); a call whose row maps arguments
/// element-wise gives what [`func::array::broadcast_result`] says of the values its arguments
/// evaluate to one level down (recorded in the trace).
pub open spec fn evaluates_by<N: Number, R: Resolver<N>>(e: Expr<N>, level: int, src: &R, r: Value<N>, t: EvalTrace<N>) -> bool
    decreases e,
{
    if level >= EVAL_DEPTH_LIMIT {
        r == Value::<N>::Error(ErrKind::Num)
    } else {
        match e {
            Expr::Lit(v) => same_value(r, v),
            Expr::WholeRange(_) => r == Value::<N>::Error(ErrKind::Ref),
            Expr::SpillRef(_) => r == Value::<N>::Error(ErrKind::Calc),
            Expr::Unary(op, inner) => match t {
                EvalTrace::One(v, ti) => evaluates_by(*inner, level + 1, src, v, *ti) && unary_holds(op, v, r),
                _ => false,
            },
            Expr::Binary(op, a, b) => match t {
                EvalTrace::One(lv, ta) => evaluates_by(*a, level + 1, src, lv, *ta) && match spec_scalarize(lv) {
                    Value::Error(k) => r == Value::<N>::Error(k),
                    _ => false,
                },
                EvalTrace::Two(lv, ta, rv, tb) => evaluates_by(*a, level + 1, src, lv, *ta) && !(spec_scalarize(lv) is Error)
                    && evaluates_by(*b, level + 1, src, rv, *tb) && binary_holds(op, lv, rv, r),
                _ => false,
            },
            Expr::ImplicitIntersect(inner) => match t {
                EvalTrace::One(v, ti) => evaluates_by(*inner, level + 1, src, v, *ti) && intersect_holds(v, r),
                _ => false,
            },
            Expr::Call(id, args) => match func::static_call_outcome::<N>(id, args@.len()) {
                Some(v) => r == v,
                None => (func::runs_as_stated(id, args@.len()) ==> func::row_outcome(id, ctx_at(src, level + 1), args@, r))
                    && match func::spec_def(id.0) {
                        Some(f) => !(f.broadcast is Never) ==> match t {
                            EvalTrace::Many(vals, ts) => vals.len() == args@.len() && ts.len() == args@.len()
                                && (forall|i: int| 0 <= i < args@.len() ==> evaluates_by(args@[i], level + 1, src, vals[i], #[trigger] ts[i]))
                                && func::array::broadcast_result(id, f.broadcast, ctx_at(src, level + 1), vals, r),
                            _ => false,
                        },
                        None => true,
                    },
            },
            Expr::Ref(node) => r == spec_ref_read(src, node),
            Expr::Range(node) => r == spec_range_read(src, node),
        }
    }
}

/// Whether `r` is a value an expression evaluates to at recursion depth `level` (see
/// [`evaluates_by`]).
pub open spec fn evaluates<N: Number, R: Resolver<N>>(e: Expr<N>, level: int, src: &R, r: Value<N>) -> bool {
    exists|t: EvalTrace<N>| #[trigger] evaluates_by(e, level, src, r, t)
}

/// Whether a value is a scalar other than an error.
pub open spec fn plain_scalar<N>(v: Value<N>) -> bool {
    !(v is Array) && !(v is Error)
}

/// Whether an operator is one of the arithmetic ones (`+ - * / ^`).
pub open spec fn is_arith_op(op: BinOp) -> bool {
    op is Add || op is Sub || op is Mul || op is Div || op is Pow
}

/// Whether an operator is one of the comparisons.
pub open spec fn is_compare_op(op: BinOp) -> bool {
    op is Eq || op is Ne || op is Lt || op is Le || op is Gt || op is Ge
}

/// An operator over two literal scalars that are not errors gives what [`binary_holds`] says of
/// them: arithmetic on two numbers is [`spec_arith`], a comparison is whether their
/// [`value_order`] satisfies it, and `&` of two texts joins them. In arithmetic a text holding no
/// digit is `#VALUE!`, and a short run of digits counts as the integer it spells.
pub proof fn law_literal_operands<N: Number, R: Resolver<N>>(op: BinOp, a: Value<N>, b: Value<N>, level: int, src: &R, r: Value<N>)
    requires
        plain_scalar(a),
        plain_scalar(b),
        0 <= level,
        level + 1 < EVAL_DEPTH_LIMIT,
        evaluates(Expr::Binary(op, Box::new(Expr::Lit(a)), Box::new(Expr::Lit(b))), level, src, r),
    ensures
        binary_holds(op, a, b, r),
        is_arith_op(op) && a is Number && b is Number ==> r == spec_arith(op, a->Number_0, b->Number_0),
        is_compare_op(op) ==> r == Value::<N>::Bool(op_holds(op, value_order(a, b))),
        op is Concat && a is Text && b is Text ==> r is Text && r->Text_0@ == a->Text_0@ + b->Text_0@,
        is_arith_op(op) && a is Text && digit_free(spec_trim(a->Text_0@)) ==> r == Value::<N>::Error(ErrKind::Value),
        is_arith_op(op) && a is Text && short_digit_run(spec_trim(a->Text_0@)) && b is Number
            ==> r == spec_arith(op, N::spec_from_int(decimal_value(spec_trim(a->Text_0@)) as i64), b->Number_0),
{
    let e = Expr::Binary(op, Box::new(Expr::Lit(a)), Box::new(Expr::Lit(b)));
    let t = choose|t: EvalTrace<N>| #[trigger] evaluates_by(e, level, src, r, t);
    match t {
        EvalTrace::One(lv, ta) => {
            assert(evaluates_by(Expr::Lit(a), level + 1, src, lv, *ta));
            assert(lv == a);
        },
        EvalTrace::Two(lv, ta, rv, tb) => {
            assert(evaluates_by(Expr::Lit(a), level + 1, src, lv, *ta));
            assert(evaluates_by(Expr::Lit(b), level + 1, src, rv, *tb));
            assert(lv == a);
            assert(rv == b);
        },
        _ => {},
    }
}

/// The leftmost error wins: once the left operand of a binary operator has evaluated to a value
/// that collapses to an error, that error is what the operator evaluates to, whatever the right
/// operand is — a literal, a reference, a range or a call, never evaluated.
pub proof fn law_leftmost_error<N: Number, R: Resolver<N>>(op: BinOp, l: Expr<N>, rt: Expr<N>, level: int, src: &R, lv: Value<N>, k: ErrKind)
    requires
        0 <= level < EVAL_DEPTH_LIMIT,
        evaluates(l, level + 1, src, lv),
        spec_scalarize(lv) == Value::<N>::Error(k),
    ensures
        evaluates(Expr::Binary(op, Box::new(l), Box::new(rt)), level, src, Value::<N>::Error(k)),
{
    let tl = choose|t: EvalTrace<N>| #[trigger] evaluates_by(l, level + 1, src, lv, t);
    assert(evaluates_by(Expr::Binary(op, Box::new(l), Box::new(rt)), level, src, Value::<N>::Error(k),
        EvalTrace::One(lv, Box::new(tl))));
}

/// The leftmost error decides: when every value the left operand of a binary operator can
/// evaluate to collapses to the error `k` (as for a literal error, a reference to an error cell, or
/// a range that reads as one), `k` is the only value the operator evaluates to, whatever the right
/// operand is.
pub proof fn law_leftmost_error_decides<N: Number, R: Resolver<N>>(op: BinOp, l: Expr<N>, rt: Expr<N>, level: int, src: &R,
    res: Value<N>, k: ErrKind)
    requires
        0 <= level,
        level + 1 < EVAL_DEPTH_LIMIT,
        forall|v: Value<N>| #[trigger] evaluates(l, level + 1, src, v) ==> spec_scalarize(v) == Value::<N>::Error(k),
        evaluates(Expr::Binary(op, Box::new(l), Box::new(rt)), level, src, res),
    ensures
        res == Value::<N>::Error(k),
{
    let e = Expr::Binary(op, Box::new(l), Box::new(rt));
    let t = choose|t: EvalTrace<N>| #[trigger] evaluates_by(e, level, src, res, t);
    match t {
        EvalTrace::One(lv, ta) => {
            assert(evaluates_by(l, level + 1, src, lv, *ta));
            assert(evaluates(l, level + 1, src, lv));
        },
        EvalTrace::Two(lv, ta, rv, tb) => {
            assert(evaluates_by(l, level + 1, src, lv, *ta));
            assert(evaluates(l, level + 1, src, lv));
        },
        _ => {},
    }
}

/// A literal error collapses to itself wherever it is evaluated below the depth limit.
pub proof fn law_literal_error_value<N: Number, R: Resolver<N>>(k: ErrKind, level: int, src: &R, v: Value<N>)
    requires
        0 <= level < EVAL_DEPTH_LIMIT,
        evaluates(Expr::Lit(Value::<N>::Error(k)), level, src, v),
    ensures
        v == Value::<N>::Error(k),
{
    let t = choose|t: EvalTrace<N>| #[trigger] evaluates_by(Expr::Lit(Value::<N>::Error(k)), level, src, v, t);
}

/// A literal error as the left operand: the operator evaluates to that error and to nothing else,
/// whatever the right operand is (so `#REF! + #DIV/0!` is `#REF!`).
pub proof fn law_literal_error_left<N: Number, R: Resolver<N>>(op: BinOp, k: ErrKind, rt: Expr<N>, level: int, src: &R, res: Value<N>)
    requires
        0 <= level,
        level + 1 < EVAL_DEPTH_LIMIT,
        evaluates(Expr::Binary(op, Box::new(Expr::Lit(Value::<N>::Error(k))), Box::new(rt)), level, src, res),
    ensures
        res == Value::<N>::Error(k),
{
    assert forall|v: Value<N>| #[trigger] evaluates(Expr::Lit(Value::<N>::Error(k)), level + 1, src, v)
        implies spec_scalarize(v) == Value::<N>::Error(k) by {
        law_literal_error_value(k, level + 1, src, v);
    }
    law_leftmost_error_decides(op, Expr::Lit(Value::<N>::Error(k)), rt, level, src, res, k);
}

/// A range as the left operand: when what it reads collapses to an error (a 1×1 range holding an
/// error, a range of more cells, or an unknown sheet), the operator evaluates to that error and to
/// nothing else, whatever the right operand is.
pub proof fn law_range_left_error<N: Number, R: Resolver<N>>(op: BinOp, node: RangeNode, rt: Expr<N>, level: int, src: &R, res: Value<N>, k: ErrKind)
    requires
        0 <= level,
        level + 1 < EVAL_DEPTH_LIMIT,
        spec_scalarize(spec_range_read(src, node)) == Value::<N>::Error(k),
        evaluates(Expr::Binary(op, Box::new(Expr::Range(node)), Box::new(rt)), level, src, res),
    ensures
        res == Value::<N>::Error(k),
{
    let e = Expr::Binary(op, Box::new(Expr::Range(node)), Box::new(rt));
    let t = choose|t: EvalTrace<N>| #[trigger] evaluates_by(e, level, src, res, t);
    match t {
        EvalTrace::One(lv, ta) => {
            assert(evaluates_by(Expr::Range(node), level + 1, src, lv, *ta));
        },
        EvalTrace::Two(lv, ta, rv, tb) => {
            assert(evaluates_by(Expr::Range(node), level + 1, src, lv, *ta));
        },
        _ => {},
    }
}

/// Whatever a binary operator evaluates to, its left operand evaluated to some value first, and
/// when that value collapses to an error the result is that error.
pub proof fn law_left_first<N: Number, R: Resolver<N>>(op: BinOp, l: Expr<N>, rt: Expr<N>, level: int, src: &R, res: Value<N>)
    requires
        0 <= level < EVAL_DEPTH_LIMIT,
        evaluates(Expr::Binary(op, Box::new(l), Box::new(rt)), level, src, res),
    ensures
        exists|lv: Value<N>| #[trigger] evaluates(l, level + 1, src, lv)
            && (spec_scalarize(lv) is Error ==> res == spec_scalarize(lv)),
{
    let e = Expr::Binary(op, Box::new(l), Box::new(rt));
    let t = choose|t: EvalTrace<N>| #[trigger] evaluates_by(e, level, src, res, t);
    match t {
        EvalTrace::One(lv, ta) => {
            assert(evaluates_by(l, level + 1, src, lv, *ta));
            assert(evaluates(l, level + 1, src, lv));
        },
        EvalTrace::Two(lv, ta, rv, tb) => {
            assert(evaluates_by(l, level + 1, src, lv, *ta));
            assert(evaluates(l, level + 1, src, lv));
        },
        _ => {},
    }
}

/// `k` unary plus signs around the literal `1`.
pub open spec fn plus_chain<N: Number>(k: nat) -> Expr<N>
    decreases k,
{
    if k == 0 {
        Expr::Lit(Value::Number(N::spec_from_int(1)))
    } else {
        Expr::Unary(UnOp::Plus, Box::new(plus_chain::<N>((k - 1) as nat)))
    }
}

/// A chain of unary plus signs evaluates to its number while the chain stays below the depth
/// limit, and to `#NUM!` once it reaches it: the limit turns a runaway tree into an error value.
pub proof fn law_plus_chain<N: Number, R: Resolver<N>>(k: nat, level: int, src: &R, r: Value<N>)
    requires
        0 <= level,
        evaluates(plus_chain::<N>(k), level, src, r),
    ensures
        r == (if level + k < EVAL_DEPTH_LIMIT {
            Value::<N>::Number(N::spec_from_int(1))
        } else {
            Value::<N>::Error(ErrKind::Num)
        }),
    decreases k,
{
    let t = choose|t: EvalTrace<N>| #[trigger] evaluates_by(plus_chain::<N>(k), level, src, r, t);
    if level < EVAL_DEPTH_LIMIT && k > 0 {
        match t {
            EvalTrace::One(v, ti) => {
                assert(evaluates_by(plus_chain::<N>((k - 1) as nat), level + 1, src, v, *ti));
                law_plus_chain::<N, R>((k - 1) as nat, level + 1, src, v);
            },
            _ => {},
        }
    }
}

/// Implicit intersection of a literal: a scalar is itself, a 1×1 array its one cell, and an array
/// of more cells `#CALC!`.
pub proof fn law_intersect_literal<N: Number, R: Resolver<N>>(v: Value<N>, level: int, src: &R, r: Value<N>)
    requires
        0 <= level,
        level + 1 < EVAL_DEPTH_LIMIT,
        evaluates(Expr::ImplicitIntersect(Box::new(Expr::Lit(v))), level, src, r),
    ensures
        !(v is Array) ==> r == v,
        (match v {
            Value::Array(shape, cells) => (shape.rows == 1 && shape.cols == 1 && cells@.len() == 1
                && !(cells@[0] is Array) ==> r == cells@[0])
                && (!(shape.rows == 1 && shape.cols == 1) ==> r == Value::<N>::Error(ErrKind::Calc)),
            _ => true,
        }),
{
    let t = choose|t: EvalTrace<N>| #[trigger] evaluates_by(Expr::ImplicitIntersect(Box::new(Expr::Lit(v))), level, src, r, t);
    match t {
        EvalTrace::One(w, ti) => {
            assert(evaluates_by(Expr::Lit(v), level + 1, src, w, *ti));
            assert(same_value(w, v));
            match (w, v) {
                (Value::Array(s1, c1), Value::Array(s2, c2)) => {
                    if c2@.len() == 1 {
                        assert(c1@.len() == 1);
                        assert(same_value(c1@.last(), c2@.last()));
                        assert(c2@.last() == c2@[0]);
                    }
                },
                _ => {},
            }
        },
        _ => {},
    }
}

/// How many evaluation levels [`static_outcome`] looks through: an operator and its literal
/// operands sit one level below the operator.
pub open spec fn static_depth<N>(e: Expr<N>) -> nat {
    match e {
        Expr::Unary(_, _) => 2,
        Expr::Binary(_, _, _) => 2,
        _ => 1,
    }
}

impl<'r, R> EvalCtx<'r, R> {
    /// Evaluate one sub-expression, tracking depth. Registry functions call this on their argument
    /// expressions, so lazy forms (`IF`, `IFERROR`, …) choose which arguments are evaluated.
    pub fn eval<N: Number>(&mut self, expr: &Expr<N>) -> (r: Value<N>)
        where R: Resolver<N>,
        ensures
            restored(*old(self), *final(self)),
            old(self).level() >= EVAL_DEPTH_LIMIT ==> r == Value::<N>::Error(ErrKind::Num),
            old(self).level() + static_depth(*expr) <= EVAL_DEPTH_LIMIT && static_outcome(*expr) is Some
                ==> same_value(r, static_outcome(*expr)->0),
            evaluates(*expr, old(self).level() as int, old(self).source(), r),
            old(self).level() < EVAL_DEPTH_LIMIT ==> match *expr {
                Expr::Call(id, args) => exists|c: EvalCtx<'r, R>|
                    c.level() == old(self).level() + 1 && c.source() == old(self).source()
                        && #[trigger] call_holds(id, c, args@, r),
                _ => true,
            },
        decreases expr_size(*expr), 1nat,
    {
        if self.depth >= EVAL_DEPTH_LIMIT {
            proof {
                assert(evaluates_by(*expr, old(self).level() as int, old(self).source(), Value::<N>::Error(ErrKind::Num), EvalTrace::Leaf));
            }
            return Value::Error(ErrKind::Num);
        }
        self.depth = self.depth + 1;
        let ghost mid = *self;
        let v = self.eval_inner(expr);
        proof {
            if let Expr::Call(id, args) = expr {
                assert(call_holds(*id, mid, args@, v));
            }
        }
        self.depth = self.depth - 1;
        v
    }

    fn eval_inner<N: Number>(&mut self, expr: &Expr<N>) -> (r: Value<N>)
        where R: Resolver<N>,
        ensures
            restored(*old(self), *final(self)),
            old(self).level() + static_depth(*expr) <= EVAL_DEPTH_LIMIT + 1 && static_outcome(*expr) is Some
                ==> same_value(r, static_outcome(*expr)->0),
            0 < old(self).level() <= EVAL_DEPTH_LIMIT ==> evaluates(*expr, old(self).level() - 1, old(self).source(), r),
            match *expr {
                Expr::Call(id, args) => call_holds(id, *old(self), args@, r),
                _ => true,
            },
        decreases expr_size(*expr), 0nat,
    {
        let ghost lvl = old(self).level() as int;
        match expr {
            Expr::Lit(v) => {
                let res = v.duplicate();
                proof {
                    if 0 < lvl <= EVAL_DEPTH_LIMIT {
                        assert(evaluates_by(*expr, lvl - 1, old(self).source(), res, EvalTrace::Leaf));
                    }
                }
                res
            },
            Expr::Ref(node) => {
                let res = self.eval_ref(node);
                proof {
                    if 0 < lvl <= EVAL_DEPTH_LIMIT {
                        assert(evaluates_by(*expr, lvl - 1, old(self).source(), res, EvalTrace::Leaf));
                    }
                }
                res
            },
            Expr::Range(node) => {
                let res = self.eval_range(node);
                proof {
                    if 0 < lvl <= EVAL_DEPTH_LIMIT {
                        assert(evaluates_by(*expr, lvl - 1, old(self).source(), res, EvalTrace::Leaf));
                    }
                }
                res
            },
            // A whole-column/row reference must be bounded by the host before evaluation; met
            // unbounded, it is `#REF!`.
            Expr::WholeRange(_) => {
                proof {
                    if 0 < lvl <= EVAL_DEPTH_LIMIT {
                        assert(evaluates_by(*expr, lvl - 1, old(self).source(), Value::<N>::Error(ErrKind::Ref), EvalTrace::Leaf));
                    }
                }
                Value::Error(ErrKind::Ref)
            },
            Expr::Unary(op, inner) => {
                let res = self.eval_unary(*op, inner);
                proof {
                    assert(Expr::Unary(*op, Box::new(**inner)) == *expr);
                }
                res
            },
            Expr::Binary(op, l, r) => {
                let res = self.eval_binary(*op, l, r);
                proof {
                    assert(Expr::Binary(*op, Box::new(**l), Box::new(**r)) == *expr);
                }
                res
            },
            Expr::Call(fid, args) => {
                let ghost before = *self;
                let res = func::dispatch(*fid, self, args.as_slice());
                proof {
                    assert(before == ctx_at(before.source(), lvl));
                    if 0 < lvl <= EVAL_DEPTH_LIMIT {
                        let fo = func::spec_def(fid.0);
                        if fo is Some && func::spec_arity_ok(fo->0, args@.len()) && !(fo->0.broadcast is Never) {
                            let f = fo->0;
                            let vals = choose|vals: Seq<Value<N>>| #[trigger] func::array::broadcast_holds(*fid, f.broadcast, before, args@, vals, res);
                            assert(func::array::broadcast_holds(*fid, f.broadcast, before, args@, vals, res));
                            let ts = Seq::new(args@.len(), |i: int| choose|t: EvalTrace<N>| #[trigger] evaluates_by(args@[i], lvl, before.source(), vals[i], t));
                            assert forall|i: int| 0 <= i < args@.len() implies evaluates_by(args@[i], lvl, before.source(), vals[i], #[trigger] ts[i]) by {
                                assert(evaluates(args@[i], before.level() as int, before.source(), vals[i]));
                            }
                            assert(evaluates_by(*expr, lvl - 1, old(self).source(), res, EvalTrace::Many(vals, ts)));
                        } else {
                            assert(evaluates_by(*expr, lvl - 1, old(self).source(), res, EvalTrace::Leaf));
                        }
                    }
                }
                res
            },
            // Implicit intersection of an already-scalar value (including a 1×1 range) is the
            // identity; on a genuinely multi-cell array it is deferred -> `#CALC!`.
            Expr::ImplicitIntersect(inner) => {
                let v = self.eval(inner);
                let ghost gv = v;
                let res = match v {
                    Value::Array(shape, mut cells) => {
                        if shape.rows == 1 && shape.cols == 1 {
                            match cells.pop() {
                                Some(c) => c,
                                None => Value::Blank,
                            }
                        } else {
                            Value::Error(ErrKind::Calc)
                        }
                    },
                    scalar => scalar,
                };
                proof {
                    let lvl = old(self).level() as int;
                    let ti = choose|t: EvalTrace<N>| #[trigger] evaluates_by(**inner, lvl, old(self).source(), gv, t);
                    if 0 < lvl <= EVAL_DEPTH_LIMIT {
                        assert(evaluates_by(*expr, lvl - 1, old(self).source(), res, EvalTrace::One(gv, Box::new(ti))));
                    }
                }
                res
            },
            // The spill operator has no anchor in scalar evaluation -> `#CALC!`.
            Expr::SpillRef(_) => {
                proof {
                    if 0 < lvl <= EVAL_DEPTH_LIMIT {
                        assert(evaluates_by(*expr, lvl - 1, old(self).source(), Value::<N>::Error(ErrKind::Calc), EvalTrace::Leaf));
                    }
                }
                Value::Error(ErrKind::Calc)
            },
        }
    }

    /// Resolve a single-cell reference through the resolver; an unknown sheet name is `#REF!`.
    fn eval_ref<N: Number>(&self, node: &RefNode) -> (r: Value<N>)
        where R: Resolver<N>,
        ensures
            r == spec_ref_read(self.source(), *node),
    {
        let sheet = match &node.sheet {
            None => None,
            Some(name) => match self.resolver.sheet_id(name.as_str()) {
                Some(id) => Some(id),
                None => {
                    return Value::Error(ErrKind::Ref);
                },
            },
        };
        self.resolver.value(CellAddr { sheet, col: node.col, row: node.row })
    }

    /// Resolve a range through the resolver into an owned array; an unknown sheet name is `#REF!`.
    fn eval_range<N: Number>(&self, node: &RangeNode) -> (r: Value<N>)
        where R: Resolver<N>,
        ensures
            r == spec_range_read(self.source(), *node),
    {
        let sheet = match &node.sheet {
            None => None,
            Some(name) => match self.resolver.sheet_id(name.as_str()) {
                Some(id) => Some(id),
                None => {
                    return Value::Error(ErrKind::Ref);
                },
            },
        };
        let view = self.resolver.range(RangeAddr {
            sheet,
            start_col: node.start_col,
            start_row: node.start_row,
            end_col: node.end_col,
            end_row: node.end_row,
        });
        Value::Array(view.shape, view.cells)
    }

    fn eval_unary<N: Number>(&mut self, op: UnOp, inner: &Expr<N>) -> (r: Value<N>)
        where R: Resolver<N>,
        ensures
            restored(*old(self), *final(self)),
            (match *inner {
                Expr::Lit(v) => match spec_scalarize(v) {
                    Value::Error(k) => old(self).level() < EVAL_DEPTH_LIMIT ==> r == Value::<N>::Error(k),
                    _ => true,
                },
                _ => true,
            }),
            0 < old(self).level() <= EVAL_DEPTH_LIMIT ==> evaluates(Expr::Unary(op, Box::new(*inner)), old(self).level() - 1, old(self).source(), r),
        decreases expr_size(*inner), 2nat,
    {
        let e = self.eval(inner);
        proof {
            if inner is Lit && old(self).level() < EVAL_DEPTH_LIMIT {
                lemma_scalarize_same(e, inner->Lit_0);
            }
        }
        let ghost ge = e;
        let v = scalarize(e);
        let res = if let Value::Error(k) = v {
            Value::Error(k)
        } else {
            match coerce_num(&v) {
                Err(k) => Value::Error(k),
                Ok(n) => match op {
                    UnOp::Plus => Value::Number(n),
                    UnOp::Neg => Value::Number(n.negate()),
                    UnOp::Percent => Value::Number(n.over(N::from_int(100))),
                },
            }
        };
        proof {
            let lvl = old(self).level() as int;
            if 0 < lvl <= EVAL_DEPTH_LIMIT {
                let ti = choose|t: EvalTrace<N>| #[trigger] evaluates_by(*inner, lvl, old(self).source(), ge, t);
                assert(evaluates_by(Expr::Unary(op, Box::new(*inner)), lvl - 1, old(self).source(), res, EvalTrace::One(ge, Box::new(ti))));
            }
        }
        res
    }

    /// Left-to-right error short-circuit: each operand is collapsed to a scalar before the other is
    /// evaluated, so the leftmost error wins — even one that only surfaces on collapsing a range.
    fn eval_binary<N: Number>(&mut self, op: BinOp, l: &Expr<N>, r: &Expr<N>) -> (res: Value<N>)
        where R: Resolver<N>,
        ensures
            restored(*old(self), *final(self)),
            old(self).level() < EVAL_DEPTH_LIMIT ==> (match *l {
                Expr::Lit(lv) => match spec_scalarize(lv) {
                    Value::Error(k) => res == Value::<N>::Error(k),
                    _ => match *r {
                        Expr::Lit(rv) => match spec_scalarize(rv) {
                            Value::Error(k) => res == Value::<N>::Error(k),
                            _ => true,
                        },
                        _ => true,
                    },
                },
                _ => true,
            }),
            0 < old(self).level() <= EVAL_DEPTH_LIMIT ==> evaluates(Expr::Binary(op, Box::new(*l), Box::new(*r)), old(self).level() - 1, old(self).source(), res),
        decreases expr_size(*l) + expr_size(*r), 2nat,
    {
        let le = self.eval(l);
        proof {
            if l is Lit && old(self).level() < EVAL_DEPTH_LIMIT {
                lemma_scalarize_same(le, l->Lit_0);
            }
        }
        let ghost gl = le;
        let ghost lvl = old(self).level() as int;
        let ghost tl = choose|t: EvalTrace<N>| #[trigger] evaluates_by(*l, lvl, old(self).source(), gl, t);
        let lv = scalarize(le);
        if let Value::Error(k) = lv {
            proof {
                if 0 < lvl <= EVAL_DEPTH_LIMIT {
                    assert(evaluates_by(Expr::Binary(op, Box::new(*l), Box::new(*r)), lvl - 1, old(self).source(), Value::<N>::Error(k),
                        EvalTrace::One(gl, Box::new(tl))));
                }
            }
            return Value::Error(k);
        }
        let re = self.eval(r);
        proof {
            if r is Lit && old(self).level() < EVAL_DEPTH_LIMIT {
                lemma_scalarize_same(re, r->Lit_0);
            }
        }
        let ghost gr = re;
        let ghost tr = choose|t: EvalTrace<N>| #[trigger] evaluates_by(*r, lvl, old(self).source(), gr, t);
        let rv = scalarize(re);
        let res = self.combine(op, lv, rv);
        proof {
            if 0 < lvl <= EVAL_DEPTH_LIMIT {
                assert(evaluates_by(Expr::Binary(op, Box::new(*l), Box::new(*r)), lvl - 1, old(self).source(), res,
                    EvalTrace::Two(gl, Box::new(tl), gr, Box::new(tr))));
            }
        }
        res
    }

    /// Apply a binary operator to the collapsed scalars of its two operands, the left one not an
    /// error.
    fn combine<N: Number>(&self, op: BinOp, lv: Value<N>, rv: Value<N>) -> (res: Value<N>)
        requires
            !(lv is Error),
        ensures
            forall|x: Value<N>, y: Value<N>| spec_scalarize(x) == lv && spec_scalarize(y) == rv
                ==> #[trigger] binary_holds(op, x, y, res),
            rv is Error ==> res == rv,
    {
        if let Value::Error(k) = rv {
            return Value::Error(k);
        }
        match op {
            BinOp::Concat => {
                let a = match to_text(&lv) {
                    Ok(a) => a,
                    Err(k) => {
                        return Value::Error(k);
                    },
                };
                let b = match to_text(&rv) {
                    Ok(b) => b,
                    Err(k) => {
                        return Value::Error(k);
                    },
                };
                let mut out = a;
                out.append(b.as_str());
                Value::Text(out)
            },
            BinOp::Eq | BinOp::Ne | BinOp::Lt | BinOp::Le | BinOp::Gt | BinOp::Ge => compare(op, lv, rv),
            _ => {
                let a = match coerce_num(&lv) {
                    Ok(a) => a,
                    Err(k) => {
                        return Value::Error(k);
                    },
                };
                let b = match coerce_num(&rv) {
                    Ok(b) => b,
                    Err(k) => {
                        return Value::Error(k);
                    },
                };
                arith(op, a, b)
            },
        }
    }
}

/// The same value collapses to the same scalar: either both collapse to arrays, or to equal
/// scalars.
pub proof fn lemma_scalarize_same<N>(x: Value<N>, y: Value<N>)
    requires
        same_value(x, y),
    ensures
        spec_scalarize(x) is Array <==> spec_scalarize(y) is Array,
        !(spec_scalarize(x) is Array) ==> spec_scalarize(x) == spec_scalarize(y),
{
    match x {
        Value::Array(sx, cx) => {
            match y {
                Value::Array(sy, cy) => {
                    if sx.rows == 1 && sx.cols == 1 && cx@.len() > 0 {
                        lemma_same_value_shape(cx@.last(), cy@.last());
                    }
                },
                _ => {},
            }
        },
        _ => {},
    }
}

/// The same value is an array on both sides or equal on both sides.
pub proof fn lemma_same_value_shape<N>(x: Value<N>, y: Value<N>)
    requires
        same_value(x, y),
    ensures
        x is Array <==> y is Array,
        !(x is Array) ==> x == y,
{
}

/// Evaluate a whole formula tree against a resolver — the crate's top-level entry. It is the
/// evaluation of a fresh context ([`EvalCtx::new`]) at depth 0, and states the same.
pub fn eval<N: Number, R: Resolver<N>>(expr: &Expr<N>, resolver: &R) -> (r: Value<N>)
    ensures
        static_outcome(*expr) is Some ==> same_value(r, static_outcome(*expr)->0),
        evaluates(*expr, 0, resolver, r),
        match *expr {
            Expr::Call(id, args) => exists|c: EvalCtx<R>| c.level() == 1 && c.source() == resolver
                && #[trigger] call_holds(id, c, args@, r),
            _ => true,
        },
{
    let mut ctx = EvalCtx::new(resolver);
    ctx.eval(expr)
}

/// A computed number as an operator result: itself when finite, else `#NUM!`.
pub open spec fn finite_or_error<N: Number>(x: N) -> Value<N> {
    if x.spec_finite() { Value::Number(x) } else { Value::Error(ErrKind::Num) }
}

/// What an arithmetic operator gives for two numbers (see [`arith`]).
pub open spec fn spec_arith<N: Number>(op: BinOp, a: N, b: N) -> Value<N> {
    match op {
        BinOp::Add => finite_or_error(a.spec_plus(b)),
        BinOp::Sub => finite_or_error(a.spec_minus(b)),
        BinOp::Mul => finite_or_error(a.spec_times(b)),
        BinOp::Div => if spec_is_zero(b) { Value::Error(ErrKind::Div0) } else { finite_or_error(a.spec_over(b)) },
        _ => spec_pow(a, b),
    }
}

/// Excel exponentiation (see [`pow`]).
pub open spec fn spec_pow<N: Number>(a: N, b: N) -> Value<N> {
    if spec_is_zero(a) && b.spec_order(N::spec_from_int(0)) == Some(Order::Less) {
        Value::Error(ErrKind::Div0)
    } else {
        finite_or_error(a.spec_power(b))
    }
}

/// Apply an arithmetic operator to two already-coerced numbers: a zero divisor is `#DIV/0!`, a
/// non-finite result `#NUM!`, and `^` follows [`pow`].
pub fn arith<N: Number>(op: BinOp, a: N, b: N) -> (r: Value<N>)
    ensures
        r is Number || r == Value::<N>::Error(ErrKind::Div0) || r == Value::<N>::Error(ErrKind::Num),
        r == spec_arith(op, a, b),
{
    let x = match op {
        BinOp::Add => a.plus(b),
        BinOp::Sub => a.minus(b),
        BinOp::Mul => a.times(b),
        BinOp::Div => {
            if is_zero(b) {
                return Value::Error(ErrKind::Div0);
            }
            a.over(b)
        },
        _ => {
            return pow(a, b);
        },
    };
    if x.finite() {
        Value::Number(x)
    } else {
        Value::Error(ErrKind::Num)
    }
}

/// Whether `n` orders equal to zero.
pub open spec fn spec_is_zero<N: Number>(n: N) -> bool {
    n.spec_order(N::spec_from_int(0)) == Some(Order::Equal)
}

/// Whether a number equals zero.
pub fn is_zero<N: Number>(n: N) -> (r: bool)
    ensures
        r == spec_is_zero(n),
{
    match n.order(N::from_int(0)) {
        Some(Order::Equal) => true,
        _ => false,
    }
}

/// Whether `a < b` (false when unordered).
pub fn less_than<N: Number>(a: N, b: N) -> (r: bool)
    ensures
        r == (a.spec_order(b) == Some(Order::Less)),
{
    match a.order(b) {
        Some(Order::Less) => true,
        _ => false,
    }
}

/// Excel exponentiation, shared by `^` and `POWER`: zero to a negative power is `#DIV/0!`, a
/// non-finite (overflowing or complex) result `#NUM!`, otherwise the power.
pub fn pow<N: Number>(a: N, b: N) -> (r: Value<N>)
    ensures
        r is Number || r == Value::<N>::Error(ErrKind::Div0) || r == Value::<N>::Error(ErrKind::Num),
        r == spec_pow(a, b),
{
    if is_zero(a) && less_than(b, N::from_int(0)) {
        return Value::Error(ErrKind::Div0);
    }
    let p = a.power(b);
    if p.finite() {
        Value::Number(p)
    } else {
        Value::Error(ErrKind::Num)
    }
}

/// Collapse a value to a scalar for a scalar operator position.
pub fn scalarize<N>(v: Value<N>) -> (r: Value<N>)
    ensures
        r == spec_scalarize(v),
{
    match v {
        Value::Array(shape, mut cells) => {
            if shape.rows == 1 && shape.cols == 1 {
                match cells.pop() {
                    Some(c) => c,
                    None => Value::Blank,
                }
            } else {
                Value::Error(ErrKind::Value)
            }
        },
        other => other,
    }
}

/// Whether a text holds no decimal digit.
pub open spec fn digit_free(s: Seq<char>) -> bool {
    forall|i: int| 0 <= i < s.len() ==> !is_decimal_char(#[trigger] s[i])
}

/// Whether a text is one to fifteen decimal digits.
pub open spec fn short_digit_run(s: Seq<char>) -> bool {
    1 <= s.len() <= 15 && forall|i: int| 0 <= i < s.len() ==> is_decimal_char(#[trigger] s[i])
}

/// The facts number coercion is known to satisfy: a number is itself, an error propagates, a
/// boolean is `1`/`0` and a blank `0`, a text either coerces or is `#VALUE!` (a text without a digit
/// never coerces, a short run of digits is the integer it spells), a 1×1 array coerces as its first
/// cell, and a larger array is `#VALUE!`.
pub open spec fn num_coercion<N: Number>(v: Value<N>, r: Result<N, ErrKind>) -> bool
    decreases v,
{
    match v {
        Value::Number(n) => r == Ok::<N, ErrKind>(n),
        Value::Bool(b) => r == Ok::<N, ErrKind>(N::spec_from_int(if b { 1 } else { 0 })),
        Value::Blank => r == Ok::<N, ErrKind>(N::spec_from_int(0)),
        Value::Text(t) => (r is Ok || r == Err::<N, ErrKind>(ErrKind::Value))
            && (digit_free(spec_trim(t@)) ==> r == Err::<N, ErrKind>(ErrKind::Value))
            && (short_digit_run(spec_trim(t@)) ==> r == Ok::<N, ErrKind>(N::spec_from_int(decimal_value(spec_trim(t@)) as i64))),
        Value::Error(k) => r == Err::<N, ErrKind>(k),
        Value::Array(shape, cells) => if shape.rows == 1 && shape.cols == 1 {
            if cells@.len() > 0 {
                num_coercion(cells@[0], r)
            } else {
                r is Ok
            }
        } else {
            r == Err::<N, ErrKind>(ErrKind::Value)
        },
    }
}

/// Coerce a value to a number (Excel arithmetic coercion): `Blank` is `0`; a boolean is `1`/`0`;
/// text that spells a finite number parses (after trimming whitespace), other text is `#VALUE!`;
/// an error propagates; a multi-cell array is `#VALUE!`.
pub fn coerce_num<N: Number>(v: &Value<N>) -> (r: Result<N, ErrKind>)
    ensures
        num_coercion(*v, r),
    decreases value_size(*v),
{
    match v {
        Value::Number(n) => Ok(*n),
        Value::Bool(b) => Ok(N::from_int(if *b { 1 } else { 0 })),
        Value::Blank => Ok(N::from_int(0)),
        Value::Text(t) => match N::parse_text(trim_whitespace(t.as_str()).as_str()) {
            Some(n) => Ok(n),
            None => Err(ErrKind::Value),
        },
        Value::Error(k) => Err(*k),
        Value::Array(shape, cells) => {
            if shape.rows == 1 && shape.cols == 1 {
                if cells.len() > 0 {
                    proof {
                        lemma_cell_size_bound(cells@, 0);
                    }
                    coerce_num(&cells[0])
                } else {
                    Ok(N::from_int(0))
                }
            } else {
                Err(ErrKind::Value)
            }
        },
    }
}

/// The boolean a scalar coerces to (Excel logical coercion): a number is true when non-zero.
pub open spec fn bool_of_scalar<N: Number>(v: Value<N>) -> Result<bool, ErrKind> {
    match v {
        Value::Number(n) => Ok(!spec_is_zero(n)),
        Value::Bool(b) => Ok(b),
        Value::Blank => Ok(false),
        Value::Text(t) => if lower_seq(t@) == lower_seq("true"@) {
            Ok(true)
        } else if lower_seq(t@) == lower_seq("false"@) {
            Ok(false)
        } else {
            Err(ErrKind::Value)
        },
        Value::Error(k) => Err(k),
        _ => Err(ErrKind::Value),
    }
}

/// Coerce a value to a boolean: numbers are true when non-zero; text is `TRUE`/`FALSE` ignoring
/// case (else `#VALUE!`); `Blank` is false; an error propagates; a multi-cell array is `#VALUE!`.
pub fn coerce_bool<N: Number>(v: &Value<N>) -> (r: Result<bool, ErrKind>)
    ensures
        r == bool_of_scalar(spec_scalarize(*v)),
{
    match v {
        Value::Array(shape, cells) => {
            if shape.rows == 1 && shape.cols == 1 {
                if cells.len() > 0 {
                    coerce_bool_scalar(&cells[cells.len() - 1])
                } else {
                    Ok(false)
                }
            } else {
                Err(ErrKind::Value)
            }
        },
        other => coerce_bool_scalar(other),
    }
}

fn coerce_bool_scalar<N: Number>(v: &Value<N>) -> (r: Result<bool, ErrKind>)
    ensures
        r == bool_of_scalar(*v),
{
    match v {
        Value::Bool(b) => Ok(*b),
        Value::Number(n) => Ok(!is_zero(*n)),
        Value::Blank => Ok(false),
        Value::Text(t) => {
            proof {
                reveal_strlit("true");
                reveal_strlit("false");
                reveal_strlit("TRUE");
                reveal_strlit("FALSE");
                assert(lower_seq("TRUE"@) =~= lower_seq("true"@));
                assert(lower_seq("FALSE"@) =~= lower_seq("false"@));
            }
            if eq_ignore_case(t.as_str(), "TRUE") {
                Ok(true)
            } else if eq_ignore_case(t.as_str(), "FALSE") {
                Ok(false)
            } else {
                Err(ErrKind::Value)
            }
        },
        Value::Error(k) => Err(*k),
        Value::Array(..) => Err(ErrKind::Value),
    }
}

/// The text of a non-number scalar (Excel general coercion to text).
pub open spec fn text_of_scalar<N>(v: Value<N>) -> Result<Seq<char>, ErrKind> {
    match v {
        Value::Text(t) => Ok(t@),
        Value::Bool(b) => Ok(if b { "TRUE"@ } else { "FALSE"@ }),
        Value::Blank => Ok(Seq::<char>::empty()),
        Value::Error(k) => Err(k),
        _ => Err(ErrKind::Value),
    }
}

/// Whether a text-coercion result agrees with [`text_of_scalar`].
pub open spec fn text_result_matches(r: Result<String, ErrKind>, t: Result<Seq<char>, ErrKind>) -> bool {
    match r {
        Ok(s) => t == Ok::<Seq<char>, ErrKind>(s@),
        Err(k) => t == Err::<Seq<char>, ErrKind>(k),
    }
}

/// Whether `t` is a text coercion of a scalar: a number renders to some text (a zero to `0`),
/// anything else as [`text_of_scalar`].
pub open spec fn text_coercion<N: Number>(v: Value<N>, t: Result<Seq<char>, ErrKind>) -> bool {
    match v {
        Value::Number(n) => t is Ok && (spec_is_zero(n) ==> t == Ok::<Seq<char>, ErrKind>(seq!['0'])),
        _ => t == text_of_scalar(v),
    }
}

/// Whether a computed text-coercion result is a text coercion of `v`.
pub open spec fn text_result_of<N: Number>(v: Value<N>, r: Result<String, ErrKind>) -> bool {
    match r {
        Ok(s) => text_coercion(v, Ok::<Seq<char>, ErrKind>(s@)),
        Err(k) => text_coercion(v, Err::<Seq<char>, ErrKind>(k)),
    }
}

/// Coerce a value to its text form: `Blank` is the empty string, a number its general format, a
/// boolean `TRUE`/`FALSE`; an error propagates; a multi-cell array is `#VALUE!`.
pub fn to_text<N: Number>(v: &Value<N>) -> (r: Result<String, ErrKind>)
    ensures
        spec_scalarize(*v) is Number ==> r is Ok,
        !(spec_scalarize(*v) is Number) ==> text_result_matches(r, text_of_scalar(spec_scalarize(*v))),
        text_result_of(spec_scalarize(*v), r),
{
    match v {
        Value::Array(shape, cells) => {
            if shape.rows == 1 && shape.cols == 1 {
                if cells.len() > 0 {
                    scalar_text(&cells[cells.len() - 1])
                } else {
                    Ok(String::new())
                }
            } else {
                Err(ErrKind::Value)
            }
        },
        other => scalar_text(other),
    }
}

fn scalar_text<N: Number>(v: &Value<N>) -> (r: Result<String, ErrKind>)
    ensures
        v is Number ==> r is Ok,
        text_result_of(*v, r),
        !(v is Number) ==> text_result_matches(r, text_of_scalar(*v)),
{
    match v {
        Value::Text(t) => Ok(t.clone()),
        Value::Number(n) => Ok(num_to_text(*n)),
        Value::Bool(b) => {
            if *b {
                Ok("TRUE".to_owned())
            } else {
                Ok("FALSE".to_owned())
            }
        },
        Value::Blank => Ok(String::new()),
        Value::Error(k) => Err(*k),
        Value::Array(..) => Err(ErrKind::Value),
    }
}

/// Render a number in general format, with both zeros shown as `0`.
pub fn num_to_text<N: Number>(n: N) -> (r: String)
    ensures
        spec_is_zero(n) ==> r@ == seq!['0'],
{
    if is_zero(n) {
        proof {
            reveal_strlit("0");
        }
        return "0".to_owned();
    }
    n.general_text()
}

/// Whether a character is Unicode `White_Space` (the set `str::trim` strips).
pub open spec fn is_white_space(c: char) -> bool {
    ('\u{9}' <= c <= '\u{d}') || c == ' ' || c == '\u{85}' || c == '\u{a0}' || c == '\u{1680}'
        || ('\u{2000}' <= c <= '\u{200a}') || c == '\u{2028}' || c == '\u{2029}' || c == '\u{202f}'
        || c == '\u{205f}' || c == '\u{3000}'
}

fn white_space(c: char) -> (r: bool)
    ensures
        r == is_white_space(c),
{
    ('\u{9}' <= c && c <= '\u{d}') || c == ' ' || c == '\u{85}' || c == '\u{a0}' || c == '\u{1680}'
        || ('\u{2000}' <= c && c <= '\u{200a}') || c == '\u{2028}' || c == '\u{2029}' || c == '\u{202f}'
        || c == '\u{205f}' || c == '\u{3000}'
}

/// How many white-space characters `s` starts with.
pub open spec fn leading_space(s: Seq<char>) -> nat
    decreases s.len(),
{
    if s.len() > 0 && is_white_space(s[0]) { 1 + leading_space(s.subrange(1, s.len() as int)) } else { 0 }
}

/// How many white-space characters `s` ends with.
pub open spec fn trailing_space(s: Seq<char>) -> nat
    decreases s.len(),
{
    if s.len() > 0 && is_white_space(s.last()) { 1 + trailing_space(s.drop_last()) } else { 0 }
}

/// `s` without its leading and trailing white space.
pub open spec fn spec_trim(s: Seq<char>) -> Seq<char> {
    let rest = s.subrange(leading_space(s) as int, s.len() as int);
    rest.subrange(0, rest.len() - trailing_space(rest))
}

proof fn lemma_leading_space(s: Seq<char>, a: int)
    requires
        0 <= a <= s.len(),
        forall|k: int| 0 <= k < a ==> is_white_space(#[trigger] s[k]),
        a == s.len() || !is_white_space(s[a]),
    ensures
        leading_space(s) == a,
    decreases a,
{
    if a > 0 {
        let t = s.subrange(1, s.len() as int);
        assert forall|k: int| 0 <= k < a - 1 implies is_white_space(#[trigger] t[k]) by {
            assert(t[k] == s[k + 1]);
        }
        lemma_leading_space(t, a - 1);
    }
}

proof fn lemma_trailing_space(s: Seq<char>, b: int)
    requires
        0 <= b <= s.len(),
        forall|k: int| b <= k < s.len() ==> is_white_space(#[trigger] s[k]),
        b == 0 || !is_white_space(s[b - 1]),
    ensures
        trailing_space(s) == s.len() - b,
    decreases s.len() - b,
{
    if b < s.len() {
        let t = s.drop_last();
        assert(is_white_space(s[s.len() - 1]));
        assert forall|k: int| b <= k < t.len() implies is_white_space(#[trigger] t[k]) by {
            assert(t[k] == s[k]);
        }
        if b > 0 {
            assert(t[b - 1] == s[b - 1]);
        }
        lemma_trailing_space(t, b);
    }
}

/// `s` without its leading and trailing Unicode white space.
pub fn trim_whitespace(s: &str) -> (r: String)
    ensures
        r@ == spec_trim(s@),
        exists|a: int, b: int|
            0 <= a <= b <= s@.len() && r@ == s@.subrange(a, b)
            && (forall|k: int| 0 <= k < a ==> is_white_space(#[trigger] s@[k]))
            && (forall|k: int| b <= k < s@.len() ==> is_white_space(#[trigger] s@[k]))
            && (a < b ==> !is_white_space(s@[a]) && !is_white_space(s@[b - 1])),
{
    let cs = chars_of(s);
    let mut a: usize = 0;
    while a < cs.len() && white_space(cs[a])
        invariant
            a <= cs.len(),
            cs@ == s@,
            forall|k: int| 0 <= k < a ==> is_white_space(#[trigger] s@[k]),
        decreases cs.len() - a,
    {
        a = a + 1;
    }
    let mut b: usize = cs.len();
    while b > a && white_space(cs[b - 1])
        invariant
            a <= b <= cs.len(),
            cs@ == s@,
            forall|k: int| b <= k < s@.len() ==> is_white_space(#[trigger] s@[k]),
        decreases b,
    {
        b = b - 1;
    }
    let r = string_of_range(&cs, a, b);
    assert(a < b ==> !is_white_space(s@[a as int]) && !is_white_space(s@[b - 1]));
    proof {
        lemma_leading_space(s@, a as int);
        let rest = s@.subrange(a as int, s@.len() as int);
        assert forall|k: int| b - a <= k < rest.len() implies is_white_space(#[trigger] rest[k]) by {
            assert(rest[k] == s@[k + a]);
        }
        if b > a {
            assert(rest[b - a - 1] == s@[b - 1]);
        }
        lemma_trailing_space(rest, b - a);
        assert(r@ =~= spec_trim(s@));
    }
    r
}

/// The cross-type comparison rank: Number < Text < Bool (anything else takes the top slot).
pub open spec fn spec_type_rank<N>(v: Value<N>) -> u8 {
    match v {
        Value::Number(_) => 0,
        Value::Text(_) => 1,
        Value::Bool(_) => 2,
        _ => 3,
    }
}

/// The order of two scalars neither of which is `Blank`: numbers numerically (unordered counts
/// as equal), text case-insensitively, booleans `FALSE < TRUE`, cross-type by rank.
pub open spec fn resolved_order<N: Number>(l: Value<N>, r: Value<N>) -> Order {
    match (l, r) {
        (Value::Number(a), Value::Number(b)) => spec_number_order(a, b),
        (Value::Bool(a), Value::Bool(b)) => if a == b { Order::Equal } else if !a { Order::Less } else { Order::Greater },
        (Value::Text(a), Value::Text(b)) => seq_order(lower_seq(a@), lower_seq(b@)),
        _ => {
            let x = spec_type_rank(l);
            let y = spec_type_rank(r);
            if x < y { Order::Less } else if x > y { Order::Greater } else { Order::Equal }
        },
    }
}

/// The engine's total order over two scalars, as the comparison operators, `SWITCH` and the lookup
/// family read it: a lone `Blank` stands for the other side's zero (`0`, `""`, `FALSE`); two
/// blanks are equal.
pub open spec fn value_order<N: Number>(l: Value<N>, r: Value<N>) -> Order {
    match (l, r) {
        (Value::Blank, Value::Blank) => Order::Equal,
        (Value::Blank, other) => match other {
            Value::Number(n) => spec_number_order(N::spec_from_int(0), n),
            Value::Text(t) => seq_order(Seq::<char>::empty(), lower_seq(t@)),
            Value::Bool(b) => if b { Order::Less } else { Order::Equal },
            _ => Order::Equal,
        },
        (other, Value::Blank) => match other {
            Value::Number(n) => spec_number_order(n, N::spec_from_int(0)),
            Value::Text(t) => seq_order(lower_seq(t@), Seq::<char>::empty()),
            Value::Bool(b) => if b { Order::Greater } else { Order::Equal },
            _ => Order::Equal,
        },
        _ => resolved_order(l, r),
    }
}

/// Text order is antisymmetric: swapping two texts reverses their order.
pub proof fn lemma_seq_order_flip(a: Seq<char>, b: Seq<char>)
    ensures
        seq_order(a, b) == Order::Less <==> seq_order(b, a) == Order::Greater,
        seq_order(a, b) == Order::Equal <==> seq_order(b, a) == Order::Equal,
    decreases a.len(),
{
    if a.len() > 0 && b.len() > 0 && (a[0] as u32) == (b[0] as u32) {
        lemma_seq_order_flip(a.drop_first(), b.drop_first());
    }
}

/// A text orders equal to itself.
pub proof fn lemma_seq_order_refl(a: Seq<char>)
    ensures
        seq_order(a, a) == Order::Equal,
    decreases a.len(),
{
    if a.len() > 0 {
        lemma_seq_order_refl(a.drop_first());
    }
}

/// Text order is transitive.
pub proof fn lemma_seq_order_trans(a: Seq<char>, b: Seq<char>, c: Seq<char>)
    ensures
        seq_order(a, b) != Order::Greater && seq_order(b, c) != Order::Greater ==> seq_order(a, c) != Order::Greater,
        seq_order(a, b) == Order::Less && seq_order(b, c) != Order::Greater ==> seq_order(a, c) == Order::Less,
        seq_order(a, b) != Order::Greater && seq_order(b, c) == Order::Less ==> seq_order(a, c) == Order::Less,
    decreases a.len(),
{
    if a.len() > 0 && b.len() > 0 && c.len() > 0 {
        lemma_seq_order_trans(a.drop_first(), b.drop_first(), c.drop_first());
    }
}

/// Whether a value takes part in the engine's order as a total order: not blank (a lone blank
/// reads as the other side's zero, which breaks transitivity), and a number only when it is
/// comparable with itself.
pub open spec fn comparable_key<N: Number>(v: Value<N>) -> bool {
    !(v is Blank) && (v is Number ==> ordered_number(v))
}

/// Over comparable keys the engine's order is a total preorder: antisymmetric, reflexive and
/// transitive.
pub proof fn law_value_order_total<N: Number>(a: Value<N>, b: Value<N>, c: Value<N>)
    requires
        comparable_key(a),
        comparable_key(b),
        comparable_key(c),
    ensures
        value_order(a, b) == Order::Less <==> value_order(b, a) == Order::Greater,
        value_order(a, b) == Order::Equal <==> value_order(b, a) == Order::Equal,
        value_order(a, a) == Order::Equal,
        value_order(a, b) == Order::Less && value_order(b, c) != Order::Greater ==> value_order(a, c) == Order::Less,
        value_order(a, b) != Order::Greater && value_order(b, c) == Order::Less ==> value_order(a, c) == Order::Less,
        value_order(a, b) != Order::Greater && value_order(b, c) != Order::Greater ==> value_order(a, c) != Order::Greater,
        value_order(a, b) == Order::Greater && value_order(b, c) != Order::Less ==> value_order(a, c) == Order::Greater,
        value_order(a, b) != Order::Less && value_order(b, c) == Order::Greater ==> value_order(a, c) == Order::Greater,
{
    assert(value_order(a, b) == resolved_order(a, b));
    assert(value_order(b, a) == resolved_order(b, a));
    assert(value_order(b, c) == resolved_order(b, c));
    assert(value_order(c, b) == resolved_order(c, b));
    assert(value_order(a, c) == resolved_order(a, c));
    assert(value_order(c, a) == resolved_order(c, a));
    assert(value_order(a, a) == resolved_order(a, a));
    if a is Number && b is Number && c is Number {
        law_number_value_order(a, b, c);
    }
    if a is Number {
        N::law_order(a->Number_0, a->Number_0, a->Number_0);
    }
    if a is Number && b is Number {
        N::law_order(a->Number_0, b->Number_0, a->Number_0);
        N::law_order(b->Number_0, a->Number_0, b->Number_0);
    }
    if a is Number && c is Number {
        N::law_order(a->Number_0, c->Number_0, a->Number_0);
        N::law_order(c->Number_0, a->Number_0, c->Number_0);
    }
    if b is Number && c is Number {
        N::law_order(b->Number_0, c->Number_0, b->Number_0);
        N::law_order(c->Number_0, b->Number_0, c->Number_0);
    }
    if a is Text {
        lemma_seq_order_refl(lower_seq(a->Text_0@));
    }
    if a is Text && b is Text {
        lemma_seq_order_flip(lower_seq(a->Text_0@), lower_seq(b->Text_0@));
    }
    if a is Text && c is Text {
        lemma_seq_order_flip(lower_seq(a->Text_0@), lower_seq(c->Text_0@));
    }
    if b is Text && c is Text {
        lemma_seq_order_flip(lower_seq(b->Text_0@), lower_seq(c->Text_0@));
    }
    if a is Text && b is Text && c is Text {
        lemma_seq_order_trans(lower_seq(a->Text_0@), lower_seq(b->Text_0@), lower_seq(c->Text_0@));
        lemma_seq_order_trans(lower_seq(c->Text_0@), lower_seq(b->Text_0@), lower_seq(a->Text_0@));
    }
}

/// Whether a value is a number comparable with itself (for doubles: not NaN).
pub open spec fn ordered_number<N: Number>(v: Value<N>) -> bool {
    v matches Value::Number(n) && n.spec_order(n) is Some
}

/// Over comparable numbers the engine's order is a total order: antisymmetric, reflexive and
/// transitive.
pub proof fn law_number_value_order<N: Number>(a: Value<N>, b: Value<N>, c: Value<N>)
    requires
        ordered_number(a),
        ordered_number(b),
        ordered_number(c),
    ensures
        value_order(a, b) == Order::Less <==> value_order(b, a) == Order::Greater,
        value_order(a, b) == Order::Equal <==> value_order(b, a) == Order::Equal,
        value_order(a, a) == Order::Equal,
        value_order(a, b) == Order::Less && value_order(b, c) != Order::Greater ==> value_order(a, c) == Order::Less,
        value_order(a, b) != Order::Greater && value_order(b, c) == Order::Less ==> value_order(a, c) == Order::Less,
        value_order(a, b) != Order::Greater && value_order(b, c) != Order::Greater ==> value_order(a, c) != Order::Greater,
        value_order(a, b) == Order::Greater && value_order(b, c) != Order::Less ==> value_order(a, c) == Order::Greater,
        value_order(a, b) != Order::Less && value_order(b, c) == Order::Greater ==> value_order(a, c) == Order::Greater,
{
    let x = a->Number_0;
    let y = b->Number_0;
    let z = c->Number_0;
    N::law_order(x, y, z);
    N::law_order(y, x, z);
    N::law_order(x, z, y);
    N::law_order(z, y, x);
    N::law_order(y, z, x);
    N::law_order(z, x, y);
    N::law_order(x, x, x);
    N::law_order(y, y, y);
    N::law_order(z, z, z);
}

/// The engine's total order over two scalars — the same order the comparison operators, `SWITCH`
/// and the lookup family read. Numbers compare numerically (`-0` equals `0`; unordered counts as
/// equal), text case-insensitively, cross-type ranked Number < Text < Bool, and a lone `Blank`
/// against the other side's zero.
pub fn compare_ord<N: Number>(l: &Value<N>, r: &Value<N>) -> (o: Order)
    ensures
        o == value_order(*l, *r),
{
    match (l, r) {
        (Value::Blank, Value::Blank) => Order::Equal,
        (Value::Blank, other) => match other {
            Value::Number(n) => number_order(N::from_int(0), *n),
            Value::Text(t) => {
                let e: Vec<char> = Vec::new();
                let lt = lower_chars(&chars_of(t.as_str()));
                assert(lower_seq(Seq::<char>::empty()) =~= Seq::<char>::empty());
                order_chars(&e, &lt)
            },
            Value::Bool(b) => if *b { Order::Less } else { Order::Equal },
            _ => Order::Equal,
        },
        (other, Value::Blank) => match other {
            Value::Number(n) => number_order(*n, N::from_int(0)),
            Value::Text(t) => {
                let e: Vec<char> = Vec::new();
                let lt = lower_chars(&chars_of(t.as_str()));
                order_chars(&lt, &e)
            },
            Value::Bool(b) => if *b { Order::Greater } else { Order::Equal },
            _ => Order::Equal,
        },
        (Value::Number(a), Value::Number(b)) => number_order(*a, *b),
        (Value::Bool(a), Value::Bool(b)) => {
            if *a == *b {
                Order::Equal
            } else if !*a {
                Order::Less
            } else {
                Order::Greater
            }
        },
        (Value::Text(a), Value::Text(b)) => {
            let la = lower_chars(&chars_of(a.as_str()));
            let lb = lower_chars(&chars_of(b.as_str()));
            order_chars(&la, &lb)
        },
        _ => {
            let x = type_rank(l);
            let y = type_rank(r);
            if x < y {
                Order::Less
            } else if x > y {
                Order::Greater
            } else {
                Order::Equal
            }
        },
    }
}

/// Numeric order, with unordered operands (NaN, which finite values never produce) counted equal.
pub open spec fn spec_number_order<N: Number>(a: N, b: N) -> Order {
    match a.spec_order(b) {
        Some(o) => o,
        None => Order::Equal,
    }
}

/// Numeric order, with unordered operands counted equal.
pub fn number_order<N: Number>(a: N, b: N) -> (r: Order)
    ensures
        r == spec_number_order(a, b),
{
    match a.order(b) {
        Some(o) => o,
        None => Order::Equal,
    }
}

/// The cross-type comparison rank (Excel): Number < Text < Bool.
pub fn type_rank<N>(v: &Value<N>) -> (r: u8)
    ensures
        r == spec_type_rank(*v),
{
    match v {
        Value::Number(_) => 0,
        Value::Text(_) => 1,
        Value::Bool(_) => 2,
        _ => 3,
    }
}

/// Whether an order satisfies a comparison operator.
pub open spec fn op_holds(op: BinOp, o: Order) -> bool {
    match op {
        BinOp::Eq => o == Order::Equal,
        BinOp::Ne => o != Order::Equal,
        BinOp::Lt => o == Order::Less,
        BinOp::Le => o != Order::Greater,
        BinOp::Gt => o == Order::Greater,
        BinOp::Ge => o != Order::Less,
        _ => false,
    }
}

/// What [`compare`] gives: the leftmost error of the collapsed sides, else whether their order
/// satisfies the operator.
pub open spec fn spec_compare<N: Number>(op: BinOp, l: Value<N>, r: Value<N>) -> Value<N> {
    let a = spec_scalarize(l);
    let b = spec_scalarize(r);
    if a is Error {
        a
    } else if b is Error {
        b
    } else {
        Value::Bool(op_holds(op, value_order(a, b)))
    }
}

/// Compare two values under a comparison operator, returning a `Bool`. Each side is collapsed to a
/// scalar first; an error (leftmost first) propagates.
pub fn compare<N: Number>(op: BinOp, l: Value<N>, r: Value<N>) -> (res: Value<N>)
    ensures
        res == spec_compare(op, l, r),
        spec_scalarize(l) is Error ==> res == Value::<N>::Error(spec_scalarize(l)->Error_0),
        !(spec_scalarize(l) is Error) && spec_scalarize(r) is Error ==> res == Value::<N>::Error(spec_scalarize(r)->Error_0),
        !(spec_scalarize(l) is Error) && !(spec_scalarize(r) is Error)
            ==> res == Value::<N>::Bool(op_holds(op, value_order(spec_scalarize(l), spec_scalarize(r)))),
{
    let l = scalarize(l);
    let r = scalarize(r);
    if let Value::Error(k) = l {
        return Value::Error(k);
    }
    if let Value::Error(k) = r {
        return Value::Error(k);
    }
    let o = compare_ord(&l, &r);
    let result = match op {
        BinOp::Eq => o == Order::Equal,
        BinOp::Ne => o != Order::Equal,
        BinOp::Lt => o == Order::Less,
        BinOp::Le => o != Order::Greater,
        BinOp::Gt => o == Order::Greater,
        BinOp::Ge => o != Order::Less,
        _ => false,
    };
    Value::Bool(result)
}

/// Excel `=` equality between two values: each side is collapsed to a scalar, an error propagates
/// (the subject before the candidate), and otherwise they are equal iff they order `Equal`.
pub fn value_eq<N: Number>(a: &Value<N>, b: &Value<N>) -> (r: Result<bool, ErrKind>)
    ensures
        spec_scalarize(*a) is Error ==> r == Err::<bool, ErrKind>(spec_scalarize(*a)->Error_0),
        !(spec_scalarize(*a) is Error) && spec_scalarize(*b) is Error ==> r == Err::<bool, ErrKind>(spec_scalarize(*b)->Error_0),
        !(spec_scalarize(*a) is Error) && !(spec_scalarize(*b) is Error)
            ==> r == Ok::<bool, ErrKind>(value_order(spec_scalarize(*a), spec_scalarize(*b)) == Order::Equal),
{
    let ca = a.duplicate();
    let cb = b.duplicate();
    proof {
        lemma_scalarize_same(ca, *a);
        lemma_scalarize_same(cb, *b);
    }
    let x = scalarize(ca);
    let y = scalarize(cb);
    if let Value::Error(k) = x {
        return Err(k);
    }
    if let Value::Error(k) = y {
        return Err(k);
    }
    Ok(compare_ord(&x, &y) == Order::Equal)
}

} // verus!
