//! Logical functions: `IF`, `IFERROR`, `AND`, `OR`, `IFS`, `NOT`, `IFNA`, `SWITCH`.
//!
//! `IF`, `IFERROR`, `IFS`, `IFNA` and `SWITCH` are lazy: only the selected branch is evaluated, so
//! an unreached `1/0` never surfaces.

use vstd::prelude::*;
use crate::func::helpers::value_read;
use crate::eval::{bool_of_scalar, coerce_bool, is_zero, lemma_restored_same, restored, scalarize, spec_is_zero, spec_scalarize, value_eq, value_order, EvalCtx};
use crate::func::array::caught;
use crate::func::helpers::{arg_value, lit_scalar, room};
use crate::expr::{args_size, lemma_arg_size, Expr, Resolver};
use crate::func::array::{is_caught, map_catch, map_if, Catch};
use crate::func::info::{collapse_1x1, spec_collapse};
use crate::value::{ErrKind, Number, Order, Value};

verus! {

/// What [`if_fn`] is stated to give, for a context `ctx` and arguments `args`.
pub open spec fn if_fn_gives<'r, N: Number, R: Resolver<N>>(ctx: EvalCtx<'r, R>, args: Seq<Expr<N>>, r: Value<N>) -> bool {
    &&& room(ctx) ==> (lit_scalar(args[0]) matches Some(c) ==> match bool_of_scalar(c) {
        Err(k) => r == Value::<N>::Error(k),
        Ok(true) => (lit_scalar(args[1]) matches Some(v) ==> r == v),
        Ok(false) => if args.len() == 2 {
            r == Value::<N>::Bool(false)
        } else {
            (lit_scalar(args[2]) matches Some(v) ==> r == v)
        },
    })
}

/// What [`if_fn`] is stated to give for the values its arguments evaluate to in `ctx`.
pub open spec fn if_fn_reads<'r, N: Number, R: Resolver<N>>(ctx: EvalCtx<'r, R>, args: Seq<Expr<N>>, r: Value<N>) -> bool {
    &&& if_read(ctx, args, r)
}

/// What `IF` gives over its evaluated arguments when the condition is not an array: the
/// condition's coercion error, else the value the chosen branch evaluates to (the third argument,
/// or `FALSE` when it is omitted); only the chosen branch is evaluated.
pub open spec fn if_read<'r, N: Number, R: Resolver<N>>(ctx: EvalCtx<'r, R>, args: Seq<Expr<N>>, r: Value<N>) -> bool {
    exists|c: Value<N>| #[trigger] arg_value(ctx, args[0], c) && (!(spec_collapse(c) is Array) ==> match bool_of_scalar(spec_scalarize(spec_collapse(c))) {
        Err(k) => r == Value::<N>::Error(k),
        Ok(true) => arg_value(ctx, args[1], r),
        Ok(false) => if args.len() == 2 { r == Value::<N>::Bool(false) } else { arg_value(ctx, args[2], r) },
    })
}

/// `IF(cond, then [, else])` — evaluates only the selected branch; a two-argument false is `FALSE`.
pub fn if_fn<N: Number, R: Resolver<N>>(ctx: &mut EvalCtx<R>, args: &[Expr<N>]) -> (r: Value<N>)
    requires
        2 <= args.len() <= 3,
    ensures
        restored(*old(ctx), *final(ctx)),
        room(*old(ctx)) ==> (lit_scalar(args[0]) matches Some(c) ==> match bool_of_scalar(c) {
            Err(k) => r == Value::<N>::Error(k),
            Ok(true) => (lit_scalar(args[1]) matches Some(v) ==> r == v),
            Ok(false) => if args@.len() == 2 {
                r == Value::<N>::Bool(false)
            } else {
                (lit_scalar(args[2]) matches Some(v) ==> r == v)
            },
        }),
        if_read(*old(ctx), args@, r),
    decreases args_size(args@), 7nat,
{
    proof {
        lemma_arg_size(args@, 0);
        lemma_arg_size(args@, 1);
        if args.len() == 3 {
            lemma_arg_size(args@, 2);
        }
    }
    let c0 = ctx.eval(&args[0]);
    proof {
        assert(arg_value(*old(ctx), args@[0], c0));
        lemma_restored_same(*old(ctx), *ctx);
    }
    let cond = collapse_1x1(c0);
    let array_shape = match &cond {
        Value::Array(shape, _) => Some(*shape),
        _ => None,
    };
    if let Some(shape) = array_shape {
        let then_v = ctx.eval(&args[1]);
        let else_v = if args.len() == 3 { ctx.eval(&args[2]) } else { Value::Bool(false) };
        let cells = match cond {
            Value::Array(_, cells) => cells,
            _ => Vec::new(),
        };
        return map_if(shape, &cells, &then_v, &else_v);
    }
    match coerce_bool(&cond) {
        Err(k) => Value::Error(k),
        Ok(true) => {
            let v = ctx.eval(&args[1]);
            proof {
                assert(arg_value(*old(ctx), args@[1], v));
            }
            v
        },
        Ok(false) => {
            if args.len() == 3 {
                let v = ctx.eval(&args[2]);
                proof {
                    assert(arg_value(*old(ctx), args@[2], v));
                }
                v
            } else {
                Value::Bool(false)
            }
        },
    }
}

/// What [`iferror`] is stated to give, for a context `ctx` and arguments `args`.
pub open spec fn iferror_gives<'r, N: Number, R: Resolver<N>>(ctx: EvalCtx<'r, R>, args: Seq<Expr<N>>, r: Value<N>) -> bool {
    &&& room(ctx) ==> catch_outcome(args, Catch::AnyError, r)
}

/// What [`iferror`] is stated to give for the values its arguments evaluate to in `ctx`.
pub open spec fn iferror_reads<'r, N: Number, R: Resolver<N>>(ctx: EvalCtx<'r, R>, args: Seq<Expr<N>>, r: Value<N>) -> bool {
    &&& catch_read(ctx, args, Catch::AnyError, r)
}

/// `IFERROR(value, fallback)` — the fallback replaces an error `value`; any other value passes
/// through unchanged. An array `value` is caught cell by cell (see [`map_catch`]); the fallback is
/// evaluated only when something is caught.
pub fn iferror<N: Number, R: Resolver<N>>(ctx: &mut EvalCtx<R>, args: &[Expr<N>]) -> (r: Value<N>)
    requires
        args.len() == 2,
    ensures
        restored(*old(ctx), *final(ctx)),
        room(*old(ctx)) ==> catch_outcome(args@, Catch::AnyError, r),
        catch_read(*old(ctx), args@, Catch::AnyError, r),
    decreases args_size(args@), 8nat,
{
    catch_errors(ctx, args, Catch::AnyError)
}

/// What a catch gives for a literal scalar value: the literal fallback when the value is caught,
/// else the value itself.
pub open spec fn catch_outcome<N>(args: Seq<Expr<N>>, kind: Catch, r: Value<N>) -> bool {
    lit_scalar(args[0]) matches Some(v) ==> if caught(kind, v) {
        (lit_scalar(args[1]) matches Some(f) ==> r == f)
    } else {
        r == v
    }
}

/// What `IFERROR` / `IFNA` give over their evaluated arguments: a caught scalar value gives what
/// the fallback evaluates to, any other scalar passes through, and so does an array with no
/// caught cell (the fallback is not evaluated then).
pub open spec fn catch_read<'r, N: Number, R: Resolver<N>>(ctx: EvalCtx<'r, R>, args: Seq<Expr<N>>, kind: Catch, r: Value<N>) -> bool {
    exists|v: Value<N>| #[trigger] arg_value(ctx, args[0], v) && match v {
        Value::Array(_, cells) => (forall|j: int| 0 <= j < cells@.len() ==> !caught(kind, #[trigger] cells@[j])) ==> r == v,
        _ => if caught(kind, v) { arg_value(ctx, args[1], r) } else { r == v },
    }
}

/// Shared catch of `IFERROR` / `IFNA`. A scalar `value` that is caught gives the fallback, any other
/// passes through. An array `value` with no caught cell passes through untouched (the fallback is
/// not evaluated); otherwise the fallback is evaluated once and the catch is made cell by cell
/// ([`map_catch`]).
fn catch_errors<N: Number, R: Resolver<N>>(ctx: &mut EvalCtx<R>, args: &[Expr<N>], kind: Catch) -> (r: Value<N>)
    requires
        args.len() == 2,
    ensures
        restored(*old(ctx), *final(ctx)),
        room(*old(ctx)) ==> catch_outcome(args@, kind, r),
        catch_read(*old(ctx), args@, kind, r),
    decreases args_size(args@), 7nat,
{
    proof {
        lemma_arg_size(args@, 0);
        lemma_arg_size(args@, 1);
    }
    let v = ctx.eval(&args[0]);
    proof {
        assert(arg_value(*old(ctx), args@[0], v));
        lemma_restored_same(*old(ctx), *ctx);
    }
    let ghost v0 = v;
    match v {
        Value::Array(shape, cells) => {
            let mut any = false;
            let mut i: usize = 0;
            while i < cells.len()
                invariant
                    i <= cells@.len(),
                    any == exists|j: int| 0 <= j < i && caught(kind, #[trigger] cells@[j]),
                decreases cells@.len() - i,
            {
                if is_caught(kind, &cells[i]) {
                    any = true;
                }
                i = i + 1;
            }
            if !any {
                return Value::Array(shape, cells);
            }
            let fallback = ctx.eval(&args[1]);
            map_catch(shape, &cells, &fallback, kind)
        },
        other => {
            if is_caught(kind, &other) {
                let f = ctx.eval(&args[1]);
                proof {
                    assert(arg_value(*old(ctx), args@[1], f));
                }
                f
            } else {
                other
            }
        },
    }
}

/// What [`and_fn`] is stated to give, for a context `ctx` and arguments `args`.
pub open spec fn and_fn_gives<'r, N: Number, R: Resolver<N>>(ctx: EvalCtx<'r, R>, args: Seq<Expr<N>>, r: Value<N>) -> bool {
    &&& r is Bool || r is Error
    &&& room(ctx) && all_lit_scalars(args) ==> r == logic_outcome(args, LogicOp::And)
}

/// What [`and_fn`] is stated to give for the values its arguments evaluate to in `ctx`.
pub open spec fn and_fn_reads<'r, N: Number, R: Resolver<N>>(ctx: EvalCtx<'r, R>, args: Seq<Expr<N>>, r: Value<N>) -> bool {
    &&& exists|vals: Seq<Value<N>>| #[trigger] logic_read(ctx, args, vals, LogicOp::And, r)
}

/// `AND(a, …)` — true iff every logical datum is true.
pub fn and_fn<N: Number, R: Resolver<N>>(ctx: &mut EvalCtx<R>, args: &[Expr<N>]) -> (r: Value<N>)
    requires
        args.len() >= 1,
    ensures
        restored(*old(ctx), *final(ctx)),
        r is Bool || r is Error,
        room(*old(ctx)) && all_lit_scalars(args@) ==> r == logic_outcome(args@, LogicOp::And),
        exists|vals: Seq<Value<N>>| #[trigger] logic_read(*old(ctx), args@, vals, LogicOp::And, r),
    decreases args_size(args@), 7nat,
{
    logical_reduce(ctx, args, LogicOp::And)
}

/// What [`or_fn`] is stated to give, for a context `ctx` and arguments `args`.
pub open spec fn or_fn_gives<'r, N: Number, R: Resolver<N>>(ctx: EvalCtx<'r, R>, args: Seq<Expr<N>>, r: Value<N>) -> bool {
    &&& r is Bool || r is Error
    &&& room(ctx) && all_lit_scalars(args) ==> r == logic_outcome(args, LogicOp::Or)
}

/// What [`or_fn`] is stated to give for the values its arguments evaluate to in `ctx`.
pub open spec fn or_fn_reads<'r, N: Number, R: Resolver<N>>(ctx: EvalCtx<'r, R>, args: Seq<Expr<N>>, r: Value<N>) -> bool {
    &&& exists|vals: Seq<Value<N>>| #[trigger] logic_read(ctx, args, vals, LogicOp::Or, r)
}

/// `OR(a, …)` — true iff some logical datum is true.
pub fn or_fn<N: Number, R: Resolver<N>>(ctx: &mut EvalCtx<R>, args: &[Expr<N>]) -> (r: Value<N>)
    requires
        args.len() >= 1,
    ensures
        restored(*old(ctx), *final(ctx)),
        r is Bool || r is Error,
        room(*old(ctx)) && all_lit_scalars(args@) ==> r == logic_outcome(args@, LogicOp::Or),
        exists|vals: Seq<Value<N>>| #[trigger] logic_read(*old(ctx), args@, vals, LogicOp::Or, r),
    decreases args_size(args@), 7nat,
{
    logical_reduce(ctx, args, LogicOp::Or)
}

/// What [`xor_fn`] is stated to give, for a context `ctx` and arguments `args`.
pub open spec fn xor_fn_gives<'r, N: Number, R: Resolver<N>>(ctx: EvalCtx<'r, R>, args: Seq<Expr<N>>, r: Value<N>) -> bool {
    &&& r is Bool || r is Error
    &&& room(ctx) && all_lit_scalars(args) ==> r == logic_outcome(args, LogicOp::Xor)
}

/// What [`xor_fn`] is stated to give for the values its arguments evaluate to in `ctx`.
pub open spec fn xor_fn_reads<'r, N: Number, R: Resolver<N>>(ctx: EvalCtx<'r, R>, args: Seq<Expr<N>>, r: Value<N>) -> bool {
    &&& exists|vals: Seq<Value<N>>| #[trigger] logic_read(ctx, args, vals, LogicOp::Xor, r)
}

/// `XOR(a, …)` — true iff an odd number of the logical data are true; coercion and errors as
/// `AND`/`OR`.
pub fn xor_fn<N: Number, R: Resolver<N>>(ctx: &mut EvalCtx<R>, args: &[Expr<N>]) -> (r: Value<N>)
    requires
        args.len() >= 1,
    ensures
        restored(*old(ctx), *final(ctx)),
        r is Bool || r is Error,
        room(*old(ctx)) && all_lit_scalars(args@) ==> r == logic_outcome(args@, LogicOp::Xor),
        exists|vals: Seq<Value<N>>| #[trigger] logic_read(*old(ctx), args@, vals, LogicOp::Xor, r),
    decreases args_size(args@), 7nat,
{
    logical_reduce(ctx, args, LogicOp::Xor)
}

/// What [`true_fn`] is stated to give, for a context `ctx` and arguments `args`.
pub open spec fn true_fn_gives<'r, N: Number, R: Resolver<N>>(ctx: EvalCtx<'r, R>, args: Seq<Expr<N>>, r: Value<N>) -> bool {
    &&& r == Value::<N>::Bool(true)
}

/// `TRUE()` — the boolean `TRUE`.
pub fn true_fn<N: Number, R: Resolver<N>>(ctx: &mut EvalCtx<R>, args: &[Expr<N>]) -> (r: Value<N>)
    ensures
        restored(*old(ctx), *final(ctx)),
        r == Value::<N>::Bool(true),
{
    Value::Bool(true)
}

/// What [`false_fn`] is stated to give, for a context `ctx` and arguments `args`.
pub open spec fn false_fn_gives<'r, N: Number, R: Resolver<N>>(ctx: EvalCtx<'r, R>, args: Seq<Expr<N>>, r: Value<N>) -> bool {
    &&& r == Value::<N>::Bool(false)
}

/// `FALSE()` — the boolean `FALSE`.
pub fn false_fn<N: Number, R: Resolver<N>>(ctx: &mut EvalCtx<R>, args: &[Expr<N>]) -> (r: Value<N>)
    ensures
        restored(*old(ctx), *final(ctx)),
        r == Value::<N>::Bool(false),
{
    Value::Bool(false)
}

/// The running state of an `AND`/`OR` reduction: the accumulated truth and whether any logical
/// datum has been seen.
pub struct Logic {
    pub acc: bool,
    pub seen: bool,
}

/// Which logical reduction runs: `AND`, `OR`, or `XOR` (true for an odd number of true data).
#[derive(Clone, Copy, Debug, PartialEq, Eq, Structural)]
pub enum LogicOp {
    And,
    Or,
    Xor,
}

/// Fold one boolean into a logical reduction.
pub open spec fn combine(op: LogicOp, acc: bool, b: bool) -> bool {
    match op {
        LogicOp::And => acc && b,
        LogicOp::Or => acc || b,
        LogicOp::Xor => acc != b,
    }
}

/// Fold one boolean into a logical reduction (see [`combine`]).
fn combine_with(op: LogicOp, acc: bool, b: bool) -> (r: bool)
    ensures
        r == combine(op, acc, b),
{
    match op {
        LogicOp::And => acc && b,
        LogicOp::Or => acc || b,
        LogicOp::Xor => acc != b,
    }
}

/// Fold one evaluated datum into an `AND`/`OR` reduction: booleans and numbers (non-zero is true)
/// inside an array contribute and an error there propagates; a direct blank is ignored, a direct
/// error propagates, and any other direct value contributes its logical coercion (a non-logical
/// text is `#VALUE!`).
#[verifier::loop_isolation(false)]
pub fn logic_datum<N: Number>(v: Value<N>, op: LogicOp, st: &mut Logic) -> (r: Result<(), ErrKind>)
    ensures
        v is Error ==> r == Err::<(), ErrKind>(v->Error_0),
        v is Blank ==> r is Ok && final(st).acc == old(st).acc && final(st).seen == old(st).seen,
        v matches Value::Bool(b) ==> r is Ok && final(st).seen && final(st).acc == combine(op, old(st).acc, b),
        !(v is Array) && !(v is Blank) ==> match bool_of_scalar(v) {
            Err(k) => r == Err::<(), ErrKind>(k),
            Ok(b) => r is Ok && final(st).seen && final(st).acc == combine(op, old(st).acc, b),
        },
        match r {
            Err(k) => datum_logic(v, op, (old(st).acc, old(st).seen)) == Err::<(bool, bool), ErrKind>(k),
            Ok(_) => datum_logic(v, op, (old(st).acc, old(st).seen)) == Ok::<(bool, bool), ErrKind>((final(st).acc, final(st).seen)),
        },
{
    match v {
        Value::Array(_, cells) => {
            let mut i: usize = 0;
            let ghost st0 = (st.acc, st.seen);
            while i < cells.len()
                invariant
                    i <= cells.len(),
                    st0 == (old(st).acc, old(st).seen),
                    fold_cells(cells@, i as int, op, st0) == Ok::<(bool, bool), ErrKind>((st.acc, st.seen)),
                decreases cells.len() - i,
            {
                match &cells[i] {
                    Value::Error(k) => {
                        proof {
                            lemma_fold_cells_err(cells@, i + 1, cells@.len() as int, op, st0);
                        }
                        return Err(*k);
                    },
                    Value::Bool(b) => {
                        st.seen = true;
                        st.acc = combine_with(op, st.acc, *b);
                    },
                    Value::Number(n) => {
                        let b = !is_zero(*n);
                        st.seen = true;
                        st.acc = combine_with(op, st.acc, b);
                    },
                    _ => {},
                }
                i = i + 1;
            }
            Ok(())
        },
        Value::Error(k) => Err(k),
        Value::Blank => Ok(()),
        other => match coerce_bool(&other) {
            Err(k) => Err(k),
            Ok(b) => {
                st.seen = true;
                st.acc = combine_with(op, st.acc, b);
                Ok(())
            },
        },
    }
}

/// The running `(truth, seen)` of a logical reduction after the first `k` cells of an array
/// argument, from `st`: a boolean counts, a number counts as true when non-zero, an error is the
/// result, and a text or blank cell is skipped.
pub open spec fn fold_cells<N: Number>(cells: Seq<Value<N>>, k: int, op: LogicOp, st: (bool, bool)) -> Result<(bool, bool), ErrKind>
    decreases k,
{
    if k <= 0 {
        Ok(st)
    } else {
        match fold_cells(cells, k - 1, op, st) {
            Err(e) => Err(e),
            Ok(p) => match cells[k - 1] {
                Value::Error(e) => Err(e),
                Value::Bool(b) => Ok((combine(op, p.0, b), true)),
                Value::Number(n) => Ok((combine(op, p.0, !spec_is_zero(n)), true)),
                _ => Ok(p),
            },
        }
    }
}

/// Once the cells of an array fail a reduction, every longer run fails the same way.
proof fn lemma_fold_cells_err<N: Number>(cells: Seq<Value<N>>, i: int, n: int, op: LogicOp, st: (bool, bool))
    requires
        0 <= i <= n,
        fold_cells(cells, i, op, st) is Err,
    ensures
        fold_cells(cells, n, op, st) == fold_cells(cells, i, op, st),
    decreases n - i,
{
    if n > i {
        lemma_fold_cells_err(cells, i, n - 1, op, st);
    }
}

/// What one evaluated argument does to a logical reduction in state `st`: an array folds its
/// cells (see [`fold_cells`]), an error is the result, a blank is skipped, and any other value
/// contributes its logical coercion (a text other than TRUE/FALSE is `#VALUE!`).
pub open spec fn datum_logic<N: Number>(v: Value<N>, op: LogicOp, st: (bool, bool)) -> Result<(bool, bool), ErrKind> {
    match v {
        Value::Array(_, cells) => fold_cells(cells@, cells@.len() as int, op, st),
        Value::Error(k) => Err(k),
        Value::Blank => Ok(st),
        _ => match bool_of_scalar(v) {
            Err(k) => Err(k),
            Ok(b) => Ok((combine(op, st.0, b), true)),
        },
    }
}

/// The running `(truth, seen)` of a logical reduction over evaluated arguments, left to right
/// (`AND` starts true, the others false).
pub open spec fn fold_vals<N: Number>(vals: Seq<Value<N>>, op: LogicOp) -> Result<(bool, bool), ErrKind>
    decreases vals.len(),
{
    if vals.len() == 0 {
        Ok((op == LogicOp::And, false))
    } else {
        match fold_vals(vals.drop_last(), op) {
            Err(k) => Err(k),
            Ok(p) => datum_logic(vals.last(), op, p),
        }
    }
}

/// Whether `r` is what a logical reduction gives with its arguments evaluated in `ctx` to `vals`:
/// the first error met, after which no argument is evaluated; else, once every argument has
/// evaluated, the reduction's truth, or `#VALUE!` when no logical datum was seen.
pub open spec fn logic_read<'r, N: Number, R: Resolver<N>>(ctx: EvalCtx<'r, R>, args: Seq<Expr<N>>, vals: Seq<Value<N>>,
    op: LogicOp, r: Value<N>) -> bool {
    &&& vals.len() <= args.len()
    &&& forall|j: int| 0 <= j < vals.len() ==> arg_value(ctx, args[j], #[trigger] vals[j])
    &&& match fold_vals(vals, op) {
        Err(k) => r == Value::<N>::Error(k) && vals.len() > 0 && fold_vals(vals.drop_last(), op) is Ok,
        Ok(p) => vals.len() == args.len() && r == if p.1 { Value::<N>::Bool(p.0) } else { Value::<N>::Error(ErrKind::Value) },
    }
}

/// The literal boolean an argument holds.
pub open spec fn lit_bool<N>(e: Expr<N>) -> Option<bool> {
    match e {
        Expr::Lit(Value::Bool(b)) => Some(b),
        _ => None,
    }
}

/// The reduction of the first `n` literal boolean arguments (`AND` starts true, the others false).
pub open spec fn fold_lit_bools<N>(args: Seq<Expr<N>>, n: int, op: LogicOp) -> bool
    decreases n,
{
    if n <= 0 { op == LogicOp::And } else { combine(op, fold_lit_bools(args, n - 1, op), lit_bool(args[n - 1])->0) }
}

/// The running `(truth, seen)` of a logical reduction over the first `n` literal scalar
/// arguments: a blank is skipped, any other datum contributes its logical coercion (a number is
/// true when non-zero; a text must read TRUE or FALSE, else `#VALUE!`), and the first error wins.
pub open spec fn fold_lit<N: Number>(args: Seq<Expr<N>>, n: int, op: LogicOp) -> Result<(bool, bool), ErrKind>
    decreases n,
{
    if n <= 0 {
        Ok((op == LogicOp::And, false))
    } else {
        match fold_lit(args, n - 1, op) {
            Err(k) => Err(k),
            Ok(p) => {
                let v = lit_scalar(args[n - 1])->0;
                if v is Blank {
                    Ok(p)
                } else {
                    match bool_of_scalar(v) {
                        Err(k) => Err(k),
                        Ok(b) => Ok((combine(op, p.0, b), true)),
                    }
                }
            },
        }
    }
}

/// Once a literal reduction fails, every longer one fails the same way.
proof fn lemma_fold_lit_err<N: Number>(args: Seq<Expr<N>>, i: int, n: int, op: LogicOp)
    requires
        0 <= i <= n,
        fold_lit(args, i, op) is Err,
    ensures
        fold_lit(args, n, op) == fold_lit(args, i, op),
    decreases n - i,
{
    if i < n {
        lemma_fold_lit_err(args, i, n - 1, op);
    }
}

/// What `AND` / `OR` / `XOR` give over literal scalar arguments: the first error, `#VALUE!` when
/// no datum is logical, else the reduction.
pub open spec fn logic_outcome<N: Number>(args: Seq<Expr<N>>, op: LogicOp) -> Value<N> {
    match fold_lit(args, args.len() as int, op) {
        Err(k) => Value::Error(k),
        Ok(p) => if p.1 { Value::Bool(p.0) } else { Value::Error(ErrKind::Value) },
    }
}

/// Every argument is a literal boolean.
pub open spec fn all_lit_bools<N>(args: Seq<Expr<N>>) -> bool {
    forall|i: int| 0 <= i < args.len() ==> (#[trigger] lit_bool(args[i])) is Some
}

/// Shared reduction for `AND`/`OR`/`XOR`: `AND` starts true, the others false; no logical datum
/// at all is `#VALUE!`.
pub fn logical_reduce<N: Number, R: Resolver<N>>(ctx: &mut EvalCtx<R>, args: &[Expr<N>], op: LogicOp) -> (r: Value<N>)
    ensures
        restored(*old(ctx), *final(ctx)),
        r is Bool || r is Error,
        room(*old(ctx)) && all_lit_bools(args@) ==> r == if args@.len() == 0 {
            Value::<N>::Error(ErrKind::Value)
        } else {
            Value::<N>::Bool(fold_lit_bools(args@, args@.len() as int, op))
        },
        room(*old(ctx)) && all_lit_scalars(args@) ==> r == logic_outcome(args@, op),
        exists|vals: Seq<Value<N>>| #[trigger] logic_read(*old(ctx), args@, vals, op, r),
    decreases args_size(args@), 5nat,
{
    let mut st = Logic { acc: op == LogicOp::And, seen: false };
    let mut i: usize = 0;
    let ghost mut vals: Seq<Value<N>> = Seq::empty();
    while i < args.len()
        invariant
            i <= args.len(),
            restored(*old(ctx), *ctx),
            vals.len() == i,
            forall|j: int| 0 <= j < vals.len() ==> arg_value(*old(ctx), args@[j], #[trigger] vals[j]),
            fold_vals(vals, op) == Ok::<(bool, bool), ErrKind>((st.acc, st.seen)),
            room(*old(ctx)) && all_lit_bools(args@) ==> st.acc == fold_lit_bools(args@, i as int, op) && st.seen == (i > 0),
            room(*old(ctx)) && all_lit_scalars(args@) ==> fold_lit(args@, i as int, op) == Ok::<(bool, bool), ErrKind>((st.acc, st.seen)),
        decreases args.len() - i,
    {
        proof {
            lemma_arg_size(args@, i as int);
        }
        proof {
            lemma_restored_same(*old(ctx), *ctx);
        }
        let v = ctx.eval(&args[i]);
        let ghost gv = v;
        let ghost vs = vals.push(gv);
        proof {
            assert(arg_value(*old(ctx), args@[i as int], gv));
            assert(vs.drop_last() =~= vals);
            if room(*old(ctx)) && all_lit_bools(args@) {
                assert(lit_bool(args@[i as int]) is Some);
            }
            if room(*old(ctx)) && all_lit_scalars(args@) {
                assert(lit_scalar(args@[i as int]) is Some);
            }
        }
        match logic_datum(v, op, &mut st) {
            Ok(()) => {},
            Err(k) => {
                proof {
                    if room(*old(ctx)) && all_lit_scalars(args@) {
                        lemma_fold_lit_err(args@, i + 1, args@.len() as int, op);
                    }
                    assert(logic_read(*old(ctx), args@, vs, op, Value::<N>::Error(k)));
                }
                return Value::Error(k);
            },
        }
        proof {
            vals = vs;
        }
        i = i + 1;
    }
    let r = if st.seen {
        Value::Bool(st.acc)
    } else {
        Value::Error(ErrKind::Value)
    };
    proof {
        assert(logic_read(*old(ctx), args@, vals, op, r));
    }
    r
}

/// What `IFS` gives over literal scalar arguments from the `k`th test/value pair on: the value of
/// the first test reading TRUE, a test's coercion error met first, or `#N/A`.
pub open spec fn spec_ifs_from<N: Number>(args: Seq<Expr<N>>, k: int) -> Value<N>
    decreases args.len() - k,
{
    if k < 0 || 2 * k + 1 >= args.len() {
        Value::Error(ErrKind::Na)
    } else {
        match bool_of_scalar(lit_scalar(args[2 * k])->0) {
            Err(e) => Value::Error(e),
            Ok(true) => lit_scalar(args[2 * k + 1])->0,
            Ok(false) => spec_ifs_from(args, k + 1),
        }
    }
}

/// What [`ifs_fn`] is stated to give, for a context `ctx` and arguments `args`.
pub open spec fn ifs_fn_gives<'r, N: Number, R: Resolver<N>>(ctx: EvalCtx<'r, R>, args: Seq<Expr<N>>, r: Value<N>) -> bool {
    &&& args.len() % 2 == 1 ==> r == Value::<N>::Error(ErrKind::Value)
    &&& room(ctx) && all_lit_scalars(args) && args.len() % 2 == 0 ==> r == spec_ifs_from(args, 0)
}

/// `IFS(test1, value1, …)` — the value paired with the first true test, evaluating only that
/// value. No true test is `#N/A`; a test that errors propagates; an odd argument count is a
/// structural `#VALUE!`.
pub fn ifs_fn<N: Number, R: Resolver<N>>(ctx: &mut EvalCtx<R>, args: &[Expr<N>]) -> (r: Value<N>)
    requires
        args.len() >= 2,
    ensures
        restored(*old(ctx), *final(ctx)),
        args.len() % 2 == 1 ==> r == Value::<N>::Error(ErrKind::Value),
        room(*old(ctx)) && all_lit_scalars(args@) && args.len() % 2 == 0 ==> r == spec_ifs_from(args@, 0),
    decreases args_size(args@), 7nat,
{
    if args.len() % 2 != 0 {
        return Value::Error(ErrKind::Value);
    }
    let mut i: usize = 0;
    while i + 1 < args.len()
        invariant
            i <= args.len(),
            i % 2 == 0,
            args.len() % 2 == 0,
            restored(*old(ctx), *ctx),
            room(*old(ctx)) && all_lit_scalars(args@) ==> spec_ifs_from(args@, (i / 2) as int) == spec_ifs_from(args@, 0),
        decreases args.len() - i,
    {
        proof {
            lemma_arg_size(args@, i as int);
            lemma_arg_size(args@, i + 1);
            if room(*old(ctx)) && all_lit_scalars(args@) {
                assert(lit_scalar(args@[i as int]) is Some);
                assert(lit_scalar(args@[i + 1]) is Some);
                assert(2 * (i / 2) == i);
            }
        }
        let t = ctx.eval(&args[i]);
        match coerce_bool(&t) {
            Err(k) => {
                return Value::Error(k);
            },
            Ok(true) => {
                return ctx.eval(&args[i + 1]);
            },
            Ok(false) => {},
        }
        i = i + 2;
    }
    Value::Error(ErrKind::Na)
}

/// What [`not_fn`] is stated to give, for a context `ctx` and arguments `args`.
pub open spec fn not_fn_gives<'r, N: Number, R: Resolver<N>>(ctx: EvalCtx<'r, R>, args: Seq<Expr<N>>, r: Value<N>) -> bool {
    &&& r is Bool || r is Error
    &&& room(ctx) ==> (lit_scalar(args[0]) matches Some(v) ==> r == match bool_of_scalar(v) {
        Err(k) => Value::<N>::Error(k),
        Ok(b) => Value::<N>::Bool(!b),
    })
}

/// What [`not_fn`] is stated to give for the values its arguments evaluate to in `ctx`.
pub open spec fn not_fn_reads<'r, N: Number, R: Resolver<N>>(ctx: EvalCtx<'r, R>, args: Seq<Expr<N>>, r: Value<N>) -> bool {
    &&& value_read(ctx, args[0], (|v: Value<N>| match bool_of_scalar(spec_scalarize(v)) {
        Err(k) => Value::<N>::Error(k),
        Ok(b) => Value::<N>::Bool(!b),
    }), r)
}

/// `NOT(logical)` — the negation of the argument's logical coercion; an error propagates.
pub fn not_fn<N: Number, R: Resolver<N>>(ctx: &mut EvalCtx<R>, args: &[Expr<N>]) -> (r: Value<N>)
    requires
        args.len() == 1,
    ensures
        restored(*old(ctx), *final(ctx)),
        r is Bool || r is Error,
        room(*old(ctx)) ==> (lit_scalar(args[0]) matches Some(v) ==> r == match bool_of_scalar(v) {
            Err(k) => Value::<N>::Error(k),
            Ok(b) => Value::<N>::Bool(!b),
        }),
        value_read(*old(ctx), args@[0], (|v: Value<N>| match bool_of_scalar(spec_scalarize(v)) {
            Err(k) => Value::<N>::Error(k),
            Ok(b) => Value::<N>::Bool(!b),
        }), r),
    decreases args_size(args@), 7nat,
{
    proof {
        lemma_arg_size(args@, 0);
    }
    let v = ctx.eval(&args[0]);
    proof {
        assert(arg_value(*old(ctx), args@[0], v));
    }
    match coerce_bool(&v) {
        Err(k) => Value::Error(k),
        Ok(b) => Value::Bool(!b),
    }
}

/// What [`ifna`] is stated to give, for a context `ctx` and arguments `args`.
pub open spec fn ifna_gives<'r, N: Number, R: Resolver<N>>(ctx: EvalCtx<'r, R>, args: Seq<Expr<N>>, r: Value<N>) -> bool {
    &&& room(ctx) ==> catch_outcome(args, Catch::NotAvailable, r)
}

/// What [`ifna`] is stated to give for the values its arguments evaluate to in `ctx`.
pub open spec fn ifna_reads<'r, N: Number, R: Resolver<N>>(ctx: EvalCtx<'r, R>, args: Seq<Expr<N>>, r: Value<N>) -> bool {
    &&& catch_read(ctx, args, Catch::NotAvailable, r)
}

/// `IFNA(value, value_if_na)` — the fallback replaces `value` only when it is `#N/A`; every other
/// error and any normal value passes through unchanged. An array `value` is caught cell by cell.
pub fn ifna<N: Number, R: Resolver<N>>(ctx: &mut EvalCtx<R>, args: &[Expr<N>]) -> (r: Value<N>)
    requires
        args.len() == 2,
    ensures
        restored(*old(ctx), *final(ctx)),
        room(*old(ctx)) ==> catch_outcome(args@, Catch::NotAvailable, r),
        catch_read(*old(ctx), args@, Catch::NotAvailable, r),
    decreases args_size(args@), 8nat,
{
    catch_errors(ctx, args, Catch::NotAvailable)
}

/// Every argument is a literal that is not an array.
pub open spec fn all_lit_scalars<N>(args: Seq<Expr<N>>) -> bool {
    forall|i: int| 0 <= i < args.len() ==> (#[trigger] lit_scalar(args[i])) is Some
}

/// What `SWITCH` gives over literal arguments for a non-error subject `s`, from the `k`th
/// value/result pair on: the result of the first value equal to `s` (a value's error met first
/// propagates), else the trailing default, else `#N/A`.
pub open spec fn spec_switch_from<N: Number>(s: Value<N>, args: Seq<Expr<N>>, k: int) -> Value<N>
    decreases (args.len() - 1) / 2 - k,
{
    if k >= (args.len() - 1) / 2 {
        if (args.len() - 1) % 2 == 1 { lit_scalar(args.last())->0 } else { Value::Error(ErrKind::Na) }
    } else {
        let c = lit_scalar(args[1 + 2 * k])->0;
        if c is Error {
            c
        } else if value_order(s, c) == Order::Equal {
            lit_scalar(args[2 + 2 * k])->0
        } else {
            spec_switch_from(s, args, k + 1)
        }
    }
}

/// What [`switch_fn`] is stated to give, for a context `ctx` and arguments `args`.
pub open spec fn switch_fn_gives<'r, N: Number, R: Resolver<N>>(ctx: EvalCtx<'r, R>, args: Seq<Expr<N>>, r: Value<N>) -> bool {
    &&& room(ctx) && all_lit_scalars(args) ==> r == if lit_scalar(args[0])->0 is Error {
        lit_scalar(args[0])->0
    } else {
        spec_switch_from(lit_scalar(args[0])->0, args, 0)
    }
}

/// `SWITCH(expression, value1, result1, …, [default])` — the result paired with the first value
/// equal to `expression`, evaluating only that result. A trailing default is returned when nothing
/// matches, else `#N/A`. The expression's error — or a compared value's error met before a match —
/// propagates.
pub fn switch_fn<N: Number, R: Resolver<N>>(ctx: &mut EvalCtx<R>, args: &[Expr<N>]) -> (r: Value<N>)
    requires
        args.len() >= 3,
    ensures
        restored(*old(ctx), *final(ctx)),
        room(*old(ctx)) && all_lit_scalars(args@) ==> r == if lit_scalar(args[0])->0 is Error {
            lit_scalar(args[0])->0
        } else {
            spec_switch_from(lit_scalar(args[0])->0, args@, 0)
        },
    decreases args_size(args@), 7nat,
{
    proof {
        lemma_arg_size(args@, 0);
    }
    let subject = scalarize(ctx.eval(&args[0]));
    if let Value::Error(k) = subject {
        return Value::Error(k);
    }
    let rest = args.len() - 1;
    let pairs_end = 1 + (rest - rest % 2);
    let mut i: usize = 1;
    while i < pairs_end
        invariant
            1 <= i <= pairs_end <= args.len(),
            (i - 1) % 2 == 0,
            (pairs_end - 1) % 2 == 0,
            pairs_end == 1 + 2 * ((args.len() - 1) / 2),
            restored(*old(ctx), *ctx),
            room(*old(ctx)) && all_lit_scalars(args@) ==> !(subject is Error) && subject == lit_scalar(args@[0])->0
                && spec_switch_from(subject, args@, (i - 1) / 2) == spec_switch_from(subject, args@, 0),
        decreases pairs_end - i,
    {
        proof {
            if room(*old(ctx)) && all_lit_scalars(args@) {
                assert(lit_scalar(args@[i as int]) is Some);
                assert(lit_scalar(args@[i + 1]) is Some);
            }
        }
        proof {
            lemma_arg_size(args@, i as int);
            lemma_arg_size(args@, i + 1);
        }
        let candidate = ctx.eval(&args[i]);
        match value_eq(&subject, &candidate) {
            Err(k) => {
                return Value::Error(k);
            },
            Ok(true) => {
                return ctx.eval(&args[i + 1]);
            },
            Ok(false) => {},
        }
        i = i + 2;
    }
    if rest % 2 == 1 {
        proof {
            lemma_arg_size(args@, args.len() - 1);
            if room(*old(ctx)) && all_lit_scalars(args@) {
                assert(lit_scalar(args@[args.len() - 1]) is Some);
            }
        }
        ctx.eval(&args[args.len() - 1])
    } else {
        Value::Error(ErrKind::Na)
    }
}

} // verus!
