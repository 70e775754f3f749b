//! Information functions.
//!
//! The predicates (`ISBLANK`, `ISNUMBER`, `ISTEXT`, `ISNONTEXT`, `ISLOGICAL`, `ISERROR`, `ISERR`,
//! `ISNA`) and `TYPE`/`ERROR.TYPE` are error-transparent: they inspect the raw value their operand
//! evaluates to — after collapsing a 1×1 array to its cell — and report on it, so `ISERROR(1/0)`
//! is `TRUE` rather than `#DIV/0!`. `N`, `ISEVEN` and `ISODD` coerce their operand and propagate
//! its error. `NA()` produces `#N/A`.

use vstd::prelude::*;
use crate::func::helpers::{arg_value, value_read};
use crate::eval::{is_zero, restored, scalarize, spec_is_zero, spec_scalarize, trim_whitespace, EvalCtx};
use crate::expr::{args_size, lemma_arg_size, CellAddr, Expr, Resolver};
use crate::func::helpers::{lit_scalar, room};
use crate::value::{ErrKind, Number, Value};

verus! {

/// A value with a 1×1 array collapsed to its cell (an empty one reads as blank); any other value,
/// a multi-cell array included, is itself.
pub open spec fn spec_collapse<N>(v: Value<N>) -> Value<N> {
    match v {
        Value::Array(s, cells) => if s.rows == 1 && s.cols == 1 {
            if cells@.len() > 0 { cells@[0] } else { Value::Blank }
        } else {
            v
        },
        _ => v,
    }
}

/// Collapse a 1×1 array to its cell (see [`spec_collapse`]).
pub fn collapse_1x1<N>(v: Value<N>) -> (r: Value<N>)
    ensures
        r == spec_collapse(v),
{
    match v {
        Value::Array(s, mut cells) => {
            if s.rows == 1 && s.cols == 1 {
                if cells.len() > 0 {
                    cells.swap_remove(0)
                } else {
                    Value::Blank
                }
            } else {
                Value::Array(s, cells)
            }
        },
        other => other,
    }
}

/// Which kind an `IS…` predicate asks about.
#[derive(Clone, Copy, Debug, PartialEq, Eq, Structural)]
pub enum Probe {
    /// `ISBLANK`.
    Blank,
    /// `ISNUMBER`.
    Number,
    /// `ISTEXT`.
    Text,
    /// `ISNONTEXT`.
    NonText,
    /// `ISLOGICAL`.
    Logical,
    /// `ISERROR`: any error.
    Error,
    /// `ISERR`: any error but `#N/A`.
    ErrNotNa,
    /// `ISNA`: `#N/A` only.
    Na,
}

/// Whether a (collapsed) value is of the kind a predicate asks about.
pub open spec fn spec_probe<N>(v: Value<N>, p: Probe) -> bool {
    match p {
        Probe::Blank => v is Blank,
        Probe::Number => v is Number,
        Probe::Text => v is Text,
        Probe::NonText => !(v is Text),
        Probe::Logical => v is Bool,
        Probe::Error => v is Error,
        Probe::ErrNotNa => v is Error && v->Error_0 != ErrKind::Na,
        Probe::Na => v == Value::<N>::Error(ErrKind::Na),
    }
}

/// Whether a value is of the kind a predicate asks about.
pub fn probe<N>(v: &Value<N>, p: Probe) -> (r: bool)
    ensures
        r == spec_probe(*v, p),
{
    match p {
        Probe::Blank => match v {
            Value::Blank => true,
            _ => false,
        },
        Probe::Number => match v {
            Value::Number(_) => true,
            _ => false,
        },
        Probe::Text => match v {
            Value::Text(_) => true,
            _ => false,
        },
        Probe::NonText => match v {
            Value::Text(_) => false,
            _ => true,
        },
        Probe::Logical => match v {
            Value::Bool(_) => true,
            _ => false,
        },
        Probe::Error => match v {
            Value::Error(_) => true,
            _ => false,
        },
        Probe::ErrNotNa => match v {
            Value::Error(k) => *k != ErrKind::Na,
            _ => false,
        },
        Probe::Na => match v {
            Value::Error(ErrKind::Na) => true,
            _ => false,
        },
    }
}

/// The Excel type code of a (collapsed) value: 1 number (a blank too), 2 text, 4 logical, 16
/// error, 64 array.
pub open spec fn spec_type_code<N>(v: Value<N>) -> i64 {
    match v {
        Value::Number(_) => 1,
        Value::Blank => 1,
        Value::Text(_) => 2,
        Value::Bool(_) => 4,
        Value::Error(_) => 16,
        Value::Array(..) => 64,
    }
}

/// The Excel type code of a value.
pub fn type_code<N>(v: &Value<N>) -> (r: i64)
    ensures
        r == spec_type_code(*v),
{
    match v {
        Value::Number(_) => 1,
        Value::Blank => 1,
        Value::Text(_) => 2,
        Value::Bool(_) => 4,
        Value::Error(_) => 16,
        Value::Array(..) => 64,
    }
}

/// The `ERROR.TYPE` code of an error kind.
pub open spec fn spec_error_code(k: ErrKind) -> i64 {
    match k {
        ErrKind::Null => 1,
        ErrKind::Div0 => 2,
        ErrKind::Value => 3,
        ErrKind::Ref => 4,
        ErrKind::Name => 5,
        ErrKind::Num => 6,
        ErrKind::Na => 7,
        ErrKind::Spill => 9,
        ErrKind::Calc => 14,
    }
}

/// The `ERROR.TYPE` code of an error kind.
pub fn error_code(k: ErrKind) -> (r: i64)
    ensures
        r == spec_error_code(k),
{
    match k {
        ErrKind::Null => 1,
        ErrKind::Div0 => 2,
        ErrKind::Value => 3,
        ErrKind::Ref => 4,
        ErrKind::Name => 5,
        ErrKind::Num => 6,
        ErrKind::Na => 7,
        ErrKind::Spill => 9,
        ErrKind::Calc => 14,
    }
}

fn probe_fn<N: Number, R: Resolver<N>>(ctx: &mut EvalCtx<R>, args: &[Expr<N>], p: Probe) -> (r: Value<N>)
    requires
        args.len() == 1,
    ensures
        restored(*old(ctx), *final(ctx)),
        r is Bool,
        room(*old(ctx)) ==> (lit_scalar(args[0]) matches Some(v) ==> r == Value::<N>::Bool(spec_probe(v, p))),
        value_read(*old(ctx), args@[0], (|v: Value<N>| Value::<N>::Bool(spec_probe(spec_collapse(v), p))), r),
    decreases args_size(args@), 5nat,
{
    proof {
        lemma_arg_size(args@, 0);
    }
    let ev = ctx.eval(&args[0]);
    proof {
        assert(arg_value(*old(ctx), args@[0], ev));
    }
    let v = collapse_1x1(ev);
    Value::Bool(probe(&v, p))
}

/// What [`isblank`] is stated to give, for a context `ctx` and arguments `args`.
pub open spec fn isblank_gives<'r, N: Number, R: Resolver<N>>(ctx: EvalCtx<'r, R>, args: Seq<Expr<N>>, r: Value<N>) -> bool {
    &&& r is Bool
    &&& room(ctx) ==> (lit_scalar(args[0]) matches Some(v) ==> r == Value::<N>::Bool(spec_probe(v, Probe::Blank)))
}

/// What [`isblank`] is stated to give for the values its arguments evaluate to in `ctx`.
pub open spec fn isblank_reads<'r, N: Number, R: Resolver<N>>(ctx: EvalCtx<'r, R>, args: Seq<Expr<N>>, r: Value<N>) -> bool {
    &&& value_read(ctx, args[0], (|v: Value<N>| Value::<N>::Bool(spec_probe(spec_collapse(v), Probe::Blank))), r)
}

/// `ISBLANK(value)` — whether the operand is blank.
pub fn isblank<N: Number, R: Resolver<N>>(ctx: &mut EvalCtx<R>, args: &[Expr<N>]) -> (r: Value<N>)
    requires
        args.len() == 1,
    ensures
        restored(*old(ctx), *final(ctx)),
        r is Bool,
        room(*old(ctx)) ==> (lit_scalar(args[0]) matches Some(v) ==> r == Value::<N>::Bool(spec_probe(v, Probe::Blank))),
        value_read(*old(ctx), args@[0], (|v: Value<N>| Value::<N>::Bool(spec_probe(spec_collapse(v), Probe::Blank))), r),
    decreases args_size(args@), 7nat,
{
    probe_fn(ctx, args, Probe::Blank)
}

/// What [`isnumber`] is stated to give, for a context `ctx` and arguments `args`.
pub open spec fn isnumber_gives<'r, N: Number, R: Resolver<N>>(ctx: EvalCtx<'r, R>, args: Seq<Expr<N>>, r: Value<N>) -> bool {
    &&& r is Bool
    &&& room(ctx) ==> (lit_scalar(args[0]) matches Some(v) ==> r == Value::<N>::Bool(spec_probe(v, Probe::Number)))
}

/// What [`isnumber`] is stated to give for the values its arguments evaluate to in `ctx`.
pub open spec fn isnumber_reads<'r, N: Number, R: Resolver<N>>(ctx: EvalCtx<'r, R>, args: Seq<Expr<N>>, r: Value<N>) -> bool {
    &&& value_read(ctx, args[0], (|v: Value<N>| Value::<N>::Bool(spec_probe(spec_collapse(v), Probe::Number))), r)
}

/// `ISNUMBER(value)` — whether the operand is a number.
pub fn isnumber<N: Number, R: Resolver<N>>(ctx: &mut EvalCtx<R>, args: &[Expr<N>]) -> (r: Value<N>)
    requires
        args.len() == 1,
    ensures
        restored(*old(ctx), *final(ctx)),
        r is Bool,
        room(*old(ctx)) ==> (lit_scalar(args[0]) matches Some(v) ==> r == Value::<N>::Bool(spec_probe(v, Probe::Number))),
        value_read(*old(ctx), args@[0], (|v: Value<N>| Value::<N>::Bool(spec_probe(spec_collapse(v), Probe::Number))), r),
    decreases args_size(args@), 7nat,
{
    probe_fn(ctx, args, Probe::Number)
}

/// What [`istext`] is stated to give, for a context `ctx` and arguments `args`.
pub open spec fn istext_gives<'r, N: Number, R: Resolver<N>>(ctx: EvalCtx<'r, R>, args: Seq<Expr<N>>, r: Value<N>) -> bool {
    &&& r is Bool
    &&& room(ctx) ==> (lit_scalar(args[0]) matches Some(v) ==> r == Value::<N>::Bool(spec_probe(v, Probe::Text)))
}

/// What [`istext`] is stated to give for the values its arguments evaluate to in `ctx`.
pub open spec fn istext_reads<'r, N: Number, R: Resolver<N>>(ctx: EvalCtx<'r, R>, args: Seq<Expr<N>>, r: Value<N>) -> bool {
    &&& value_read(ctx, args[0], (|v: Value<N>| Value::<N>::Bool(spec_probe(spec_collapse(v), Probe::Text))), r)
}

/// `ISTEXT(value)` — whether the operand is text.
pub fn istext<N: Number, R: Resolver<N>>(ctx: &mut EvalCtx<R>, args: &[Expr<N>]) -> (r: Value<N>)
    requires
        args.len() == 1,
    ensures
        restored(*old(ctx), *final(ctx)),
        r is Bool,
        room(*old(ctx)) ==> (lit_scalar(args[0]) matches Some(v) ==> r == Value::<N>::Bool(spec_probe(v, Probe::Text))),
        value_read(*old(ctx), args@[0], (|v: Value<N>| Value::<N>::Bool(spec_probe(spec_collapse(v), Probe::Text))), r),
    decreases args_size(args@), 7nat,
{
    probe_fn(ctx, args, Probe::Text)
}

/// What [`isnontext`] is stated to give, for a context `ctx` and arguments `args`.
pub open spec fn isnontext_gives<'r, N: Number, R: Resolver<N>>(ctx: EvalCtx<'r, R>, args: Seq<Expr<N>>, r: Value<N>) -> bool {
    &&& r is Bool
    &&& room(ctx) ==> (lit_scalar(args[0]) matches Some(v) ==> r == Value::<N>::Bool(spec_probe(v, Probe::NonText)))
}

/// What [`isnontext`] is stated to give for the values its arguments evaluate to in `ctx`.
pub open spec fn isnontext_reads<'r, N: Number, R: Resolver<N>>(ctx: EvalCtx<'r, R>, args: Seq<Expr<N>>, r: Value<N>) -> bool {
    &&& value_read(ctx, args[0], (|v: Value<N>| Value::<N>::Bool(spec_probe(spec_collapse(v), Probe::NonText))), r)
}

/// `ISNONTEXT(value)` — whether the operand is anything but text.
pub fn isnontext<N: Number, R: Resolver<N>>(ctx: &mut EvalCtx<R>, args: &[Expr<N>]) -> (r: Value<N>)
    requires
        args.len() == 1,
    ensures
        restored(*old(ctx), *final(ctx)),
        r is Bool,
        room(*old(ctx)) ==> (lit_scalar(args[0]) matches Some(v) ==> r == Value::<N>::Bool(spec_probe(v, Probe::NonText))),
        value_read(*old(ctx), args@[0], (|v: Value<N>| Value::<N>::Bool(spec_probe(spec_collapse(v), Probe::NonText))), r),
    decreases args_size(args@), 7nat,
{
    probe_fn(ctx, args, Probe::NonText)
}

/// What [`islogical`] is stated to give, for a context `ctx` and arguments `args`.
pub open spec fn islogical_gives<'r, N: Number, R: Resolver<N>>(ctx: EvalCtx<'r, R>, args: Seq<Expr<N>>, r: Value<N>) -> bool {
    &&& r is Bool
    &&& room(ctx) ==> (lit_scalar(args[0]) matches Some(v) ==> r == Value::<N>::Bool(spec_probe(v, Probe::Logical)))
}

/// What [`islogical`] is stated to give for the values its arguments evaluate to in `ctx`.
pub open spec fn islogical_reads<'r, N: Number, R: Resolver<N>>(ctx: EvalCtx<'r, R>, args: Seq<Expr<N>>, r: Value<N>) -> bool {
    &&& value_read(ctx, args[0], (|v: Value<N>| Value::<N>::Bool(spec_probe(spec_collapse(v), Probe::Logical))), r)
}

/// `ISLOGICAL(value)` — whether the operand is a boolean (no coercion).
pub fn islogical<N: Number, R: Resolver<N>>(ctx: &mut EvalCtx<R>, args: &[Expr<N>]) -> (r: Value<N>)
    requires
        args.len() == 1,
    ensures
        restored(*old(ctx), *final(ctx)),
        r is Bool,
        room(*old(ctx)) ==> (lit_scalar(args[0]) matches Some(v) ==> r == Value::<N>::Bool(spec_probe(v, Probe::Logical))),
        value_read(*old(ctx), args@[0], (|v: Value<N>| Value::<N>::Bool(spec_probe(spec_collapse(v), Probe::Logical))), r),
    decreases args_size(args@), 7nat,
{
    probe_fn(ctx, args, Probe::Logical)
}

/// What [`iserror`] is stated to give, for a context `ctx` and arguments `args`.
pub open spec fn iserror_gives<'r, N: Number, R: Resolver<N>>(ctx: EvalCtx<'r, R>, args: Seq<Expr<N>>, r: Value<N>) -> bool {
    &&& r is Bool
    &&& room(ctx) ==> (lit_scalar(args[0]) matches Some(v) ==> r == Value::<N>::Bool(spec_probe(v, Probe::Error)))
}

/// What [`iserror`] is stated to give for the values its arguments evaluate to in `ctx`.
pub open spec fn iserror_reads<'r, N: Number, R: Resolver<N>>(ctx: EvalCtx<'r, R>, args: Seq<Expr<N>>, r: Value<N>) -> bool {
    &&& value_read(ctx, args[0], (|v: Value<N>| Value::<N>::Bool(spec_probe(spec_collapse(v), Probe::Error))), r)
}

/// `ISERROR(value)` — whether the operand is any error (caught, never propagated).
pub fn iserror<N: Number, R: Resolver<N>>(ctx: &mut EvalCtx<R>, args: &[Expr<N>]) -> (r: Value<N>)
    requires
        args.len() == 1,
    ensures
        restored(*old(ctx), *final(ctx)),
        r is Bool,
        room(*old(ctx)) ==> (lit_scalar(args[0]) matches Some(v) ==> r == Value::<N>::Bool(spec_probe(v, Probe::Error))),
        value_read(*old(ctx), args@[0], (|v: Value<N>| Value::<N>::Bool(spec_probe(spec_collapse(v), Probe::Error))), r),
    decreases args_size(args@), 7nat,
{
    probe_fn(ctx, args, Probe::Error)
}

/// What [`iserr`] is stated to give, for a context `ctx` and arguments `args`.
pub open spec fn iserr_gives<'r, N: Number, R: Resolver<N>>(ctx: EvalCtx<'r, R>, args: Seq<Expr<N>>, r: Value<N>) -> bool {
    &&& r is Bool
    &&& room(ctx) ==> (lit_scalar(args[0]) matches Some(v) ==> r == Value::<N>::Bool(spec_probe(v, Probe::ErrNotNa)))
}

/// What [`iserr`] is stated to give for the values its arguments evaluate to in `ctx`.
pub open spec fn iserr_reads<'r, N: Number, R: Resolver<N>>(ctx: EvalCtx<'r, R>, args: Seq<Expr<N>>, r: Value<N>) -> bool {
    &&& value_read(ctx, args[0], (|v: Value<N>| Value::<N>::Bool(spec_probe(spec_collapse(v), Probe::ErrNotNa))), r)
}

/// `ISERR(value)` — whether the operand is an error other than `#N/A`.
pub fn iserr<N: Number, R: Resolver<N>>(ctx: &mut EvalCtx<R>, args: &[Expr<N>]) -> (r: Value<N>)
    requires
        args.len() == 1,
    ensures
        restored(*old(ctx), *final(ctx)),
        r is Bool,
        room(*old(ctx)) ==> (lit_scalar(args[0]) matches Some(v) ==> r == Value::<N>::Bool(spec_probe(v, Probe::ErrNotNa))),
        value_read(*old(ctx), args@[0], (|v: Value<N>| Value::<N>::Bool(spec_probe(spec_collapse(v), Probe::ErrNotNa))), r),
    decreases args_size(args@), 7nat,
{
    probe_fn(ctx, args, Probe::ErrNotNa)
}

/// What [`isna`] is stated to give, for a context `ctx` and arguments `args`.
pub open spec fn isna_gives<'r, N: Number, R: Resolver<N>>(ctx: EvalCtx<'r, R>, args: Seq<Expr<N>>, r: Value<N>) -> bool {
    &&& r is Bool
    &&& room(ctx) ==> (lit_scalar(args[0]) matches Some(v) ==> r == Value::<N>::Bool(spec_probe(v, Probe::Na)))
}

/// What [`isna`] is stated to give for the values its arguments evaluate to in `ctx`.
pub open spec fn isna_reads<'r, N: Number, R: Resolver<N>>(ctx: EvalCtx<'r, R>, args: Seq<Expr<N>>, r: Value<N>) -> bool {
    &&& value_read(ctx, args[0], (|v: Value<N>| Value::<N>::Bool(spec_probe(spec_collapse(v), Probe::Na))), r)
}

/// `ISNA(value)` — whether the operand is `#N/A`.
pub fn isna<N: Number, R: Resolver<N>>(ctx: &mut EvalCtx<R>, args: &[Expr<N>]) -> (r: Value<N>)
    requires
        args.len() == 1,
    ensures
        restored(*old(ctx), *final(ctx)),
        r is Bool,
        room(*old(ctx)) ==> (lit_scalar(args[0]) matches Some(v) ==> r == Value::<N>::Bool(spec_probe(v, Probe::Na))),
        value_read(*old(ctx), args@[0], (|v: Value<N>| Value::<N>::Bool(spec_probe(spec_collapse(v), Probe::Na))), r),
    decreases args_size(args@), 7nat,
{
    probe_fn(ctx, args, Probe::Na)
}

/// What [`na_fn`] is stated to give, for a context `ctx` and arguments `args`.
pub open spec fn na_fn_gives<'r, N: Number, R: Resolver<N>>(ctx: EvalCtx<'r, R>, args: Seq<Expr<N>>, r: Value<N>) -> bool {
    &&& r == Value::<N>::Error(ErrKind::Na)
}

/// `NA()` — the `#N/A` error.
pub fn na_fn<N: Number, R: Resolver<N>>(ctx: &mut EvalCtx<R>, args: &[Expr<N>]) -> (r: Value<N>)
    ensures
        restored(*old(ctx), *final(ctx)),
        r == Value::<N>::Error(ErrKind::Na),
    decreases args_size(args@), 7nat,
{
    Value::Error(ErrKind::Na)
}

/// What [`type_fn`] is stated to give, for a context `ctx` and arguments `args`.
pub open spec fn type_fn_gives<'r, N: Number, R: Resolver<N>>(ctx: EvalCtx<'r, R>, args: Seq<Expr<N>>, r: Value<N>) -> bool {
    &&& r is Number
    &&& room(ctx) ==> (lit_scalar(args[0]) matches Some(v) ==> r == Value::<N>::Number(N::spec_from_int(spec_type_code(v))))
}

/// What [`type_fn`] is stated to give for the values its arguments evaluate to in `ctx`.
pub open spec fn type_fn_reads<'r, N: Number, R: Resolver<N>>(ctx: EvalCtx<'r, R>, args: Seq<Expr<N>>, r: Value<N>) -> bool {
    &&& value_read(ctx, args[0], (|v: Value<N>| Value::<N>::Number(N::spec_from_int(spec_type_code(spec_collapse(v))))), r)
}

/// `TYPE(value)` — the operand's type code (see [`spec_type_code`]); error-transparent.
pub fn type_fn<N: Number, R: Resolver<N>>(ctx: &mut EvalCtx<R>, args: &[Expr<N>]) -> (r: Value<N>)
    requires
        args.len() == 1,
    ensures
        restored(*old(ctx), *final(ctx)),
        r is Number,
        room(*old(ctx)) ==> (lit_scalar(args[0]) matches Some(v) ==> r == Value::<N>::Number(N::spec_from_int(spec_type_code(v)))),
        value_read(*old(ctx), args@[0], (|v: Value<N>| Value::<N>::Number(N::spec_from_int(spec_type_code(spec_collapse(v))))), r),
    decreases args_size(args@), 7nat,
{
    proof {
        lemma_arg_size(args@, 0);
    }
    let ev = ctx.eval(&args[0]);
    proof {
        assert(arg_value(*old(ctx), args@[0], ev));
    }
    let v = collapse_1x1(ev);
    Value::Number(N::from_int(type_code(&v)))
}

/// What [`isformula_fn`] is stated to give, for a context `ctx` and arguments `args`.
pub open spec fn isformula_fn_gives<'r, N: Number, R: Resolver<N>>(ctx: EvalCtx<'r, R>, args: Seq<Expr<N>>, r: Value<N>) -> bool {
    &&& !(args[0] is Ref || args[0] is Range) ==> r == Value::<N>::Error(ErrKind::Value)
    &&& (args[0] is Ref || args[0] is Range) ==> (r is Bool || r == Value::<N>::Error(ErrKind::Ref))
    &&& (args[0] matches Expr::Ref(node) && node.sheet is None) ==> r is Bool
    &&& (args[0] matches Expr::Range(node) && node.sheet is None) ==> r is Bool
    &&& match args[0] {
        Expr::Ref(node) => node.sheet is None ==> r == Value::<N>::Bool(
            ctx.source().spec_is_formula(CellAddr { sheet: None, col: node.col, row: node.row })),
        Expr::Range(node) => node.sheet is None ==> r == Value::<N>::Bool(
            ctx.source().spec_is_formula(CellAddr { sheet: None, col: node.start_col, row: node.start_row })),
        _ => true,
    }
}

/// `ISFORMULA(reference)` — whether the referenced cell holds a formula (asked of the resolver,
/// never the cell's value, so a formula that evaluates to an error still counts). A range answers
/// for its top-left cell; a sheet name the workbook lacks is `#REF!`; an argument that is not a
/// reference written out (a literal, an operator expression, a call) is `#VALUE!`.
pub fn isformula_fn<N: Number, R: Resolver<N>>(ctx: &mut EvalCtx<R>, args: &[Expr<N>]) -> (r: Value<N>)
    requires
        args.len() == 1,
    ensures
        restored(*old(ctx), *final(ctx)),
        !(args[0] is Ref || args[0] is Range) ==> r == Value::<N>::Error(ErrKind::Value),
        (args[0] is Ref || args[0] is Range) ==> (r is Bool || r == Value::<N>::Error(ErrKind::Ref)),
        (args[0] matches Expr::Ref(node) && node.sheet is None) ==> r is Bool,
        (args[0] matches Expr::Range(node) && node.sheet is None) ==> r is Bool,
        match args@[0] {
            Expr::Ref(node) => node.sheet is None ==> r == Value::<N>::Bool(
                old(ctx).source().spec_is_formula(CellAddr { sheet: None, col: node.col, row: node.row })),
            Expr::Range(node) => node.sheet is None ==> r == Value::<N>::Bool(
                old(ctx).source().spec_is_formula(CellAddr { sheet: None, col: node.start_col, row: node.start_row })),
            _ => true,
        },
{
    let found = match &args[0] {
        Expr::Ref(node) => ctx.ref_is_formula::<N>(node),
        Expr::Range(node) => ctx.range_is_formula::<N>(node),
        _ => {
            return Value::Error(ErrKind::Value);
        },
    };
    match found {
        Some(b) => Value::Bool(b),
        None => Value::Error(ErrKind::Ref),
    }
}

/// What `ERROR.TYPE` gives for a value (after collapsing a 1×1 array): an error's code (see
/// [`spec_error_code`]), `#N/A` for anything else.
pub open spec fn spec_error_type<N: Number>(v: Value<N>) -> Value<N> {
    match spec_collapse(v) {
        Value::Error(k) => Value::Number(N::spec_from_int(spec_error_code(k))),
        _ => Value::Error(ErrKind::Na),
    }
}

/// What `ERROR.TYPE` gives for a value (see [`spec_error_type`]).
pub fn error_type_of<N: Number>(v: Value<N>) -> (r: Value<N>)
    ensures
        r == spec_error_type(v),
{
    match collapse_1x1(v) {
        Value::Error(k) => Value::Number(N::from_int(error_code(k))),
        _ => Value::Error(ErrKind::Na),
    }
}

/// `ERROR.TYPE(value)` — the code of an error operand (see [`spec_error_code`]); `#N/A` for a
/// non-error.
pub fn error_type_fn<N: Number, R: Resolver<N>>(ctx: &mut EvalCtx<R>, args: &[Expr<N>]) -> (r: Value<N>)
    requires
        args.len() == 1,
    ensures
        restored(*old(ctx), *final(ctx)),
        r is Number || r == Value::<N>::Error(ErrKind::Na),
    decreases args_size(args@), 7nat,
{
    proof {
        lemma_arg_size(args@, 0);
    }
    error_type_of(ctx.eval(&args[0]))
}

/// The number `N` makes of a (scalarized) value: a number is itself, a boolean 1/0, text and blank
/// 0 (text is never parsed); an error propagates and a multi-cell array is `#VALUE!`.
pub open spec fn spec_n_value<N: Number>(v: Value<N>) -> Value<N> {
    match v {
        Value::Number(n) => Value::Number(n),
        Value::Bool(b) => Value::Number(N::spec_from_int(if b { 1 } else { 0 })),
        Value::Error(k) => Value::Error(k),
        Value::Text(_) => Value::Number(N::spec_from_int(0)),
        Value::Blank => Value::Number(N::spec_from_int(0)),
        Value::Array(..) => Value::Error(ErrKind::Value),
    }
}

/// The number `N` makes of a value (see [`spec_n_value`]), after collapsing it to a scalar.
pub fn n_value<N: Number>(v: Value<N>) -> (r: Value<N>)
    ensures
        r == spec_n_value(spec_scalarize(v)),
{
    match scalarize(v) {
        Value::Number(n) => Value::Number(n),
        Value::Bool(b) => Value::Number(N::from_int(if b { 1 } else { 0 })),
        Value::Error(k) => Value::Error(k),
        Value::Text(_) => Value::Number(N::from_int(0)),
        Value::Blank => Value::Number(N::from_int(0)),
        Value::Array(..) => Value::Error(ErrKind::Value),
    }
}

/// What [`n_fn`] is stated to give, for a context `ctx` and arguments `args`.
pub open spec fn n_fn_gives<'r, N: Number, R: Resolver<N>>(ctx: EvalCtx<'r, R>, args: Seq<Expr<N>>, r: Value<N>) -> bool {
    &&& r is Number || r is Error
    &&& room(ctx) ==> (lit_scalar(args[0]) matches Some(v) ==> r == spec_n_value(v))
}

/// What [`n_fn`] is stated to give for the values its arguments evaluate to in `ctx`.
pub open spec fn n_fn_reads<'r, N: Number, R: Resolver<N>>(ctx: EvalCtx<'r, R>, args: Seq<Expr<N>>, r: Value<N>) -> bool {
    &&& value_read(ctx, args[0], (|v: Value<N>| spec_n_value(spec_scalarize(v))), r)
}

/// `N(value)` — coerce a value to a number without parsing text (see [`spec_n_value`]).
pub fn n_fn<N: Number, R: Resolver<N>>(ctx: &mut EvalCtx<R>, args: &[Expr<N>]) -> (r: Value<N>)
    requires
        args.len() == 1,
    ensures
        restored(*old(ctx), *final(ctx)),
        r is Number || r is Error,
        room(*old(ctx)) ==> (lit_scalar(args[0]) matches Some(v) ==> r == spec_n_value(v)),
        value_read(*old(ctx), args@[0], (|v: Value<N>| spec_n_value(spec_scalarize(v))), r),
    decreases args_size(args@), 7nat,
{
    proof {
        lemma_arg_size(args@, 0);
    }
    let ev = ctx.eval(&args[0]);
    proof {
        assert(arg_value(*old(ctx), args@[0], ev));
    }
    n_value(ev)
}

/// The number whose parity `ISEVEN`/`ISODD` test: the value truncated toward zero. A number, a
/// blank (0) or numeric text coerces; a boolean is `#VALUE!` (unlike arithmetic coercion), as is
/// other text or a multi-cell array; an error propagates.
pub fn parity_number<N: Number>(v: Value<N>) -> (r: Result<N, ErrKind>)
    ensures
        spec_scalarize(v) is Bool || spec_scalarize(v) is Array ==> r == Err::<N, ErrKind>(ErrKind::Value),
        spec_scalarize(v) is Error ==> r == Err::<N, ErrKind>(spec_scalarize(v)->Error_0),
        spec_scalarize(v) is Blank ==> r == Ok::<N, ErrKind>(N::spec_from_int(0)),
        spec_scalarize(v) matches Value::Number(n) ==> r == Ok::<N, ErrKind>(n.spec_trunc_of()),
        spec_scalarize(v) is Text ==> r is Ok || r == Err::<N, ErrKind>(ErrKind::Value),
{
    match scalarize(v) {
        Value::Number(n) => Ok(n.trunc_of()),
        Value::Blank => Ok(N::from_int(0)),
        Value::Text(t) => match N::parse_text(trim_whitespace(t.as_str()).as_str()) {
            Some(n) => Ok(n.trunc_of()),
            None => Err(ErrKind::Value),
        },
        Value::Bool(_) => Err(ErrKind::Value),
        Value::Error(k) => Err(k),
        Value::Array(..) => Err(ErrKind::Value),
    }
}

/// Whether a whole number is even: its half has no fractional part.
pub open spec fn spec_is_even<N: Number>(n: N) -> bool {
    let half = n.spec_over(N::spec_from_int(2));
    spec_is_zero(half.spec_minus(half.spec_trunc_of()))
}

/// Whether a whole number is even (see [`spec_is_even`]).
pub fn is_even_number<N: Number>(n: N) -> (r: bool)
    ensures
        r == spec_is_even(n),
{
    let half = n.over(N::from_int(2));
    is_zero(half.minus(half.trunc_of()))
}

/// What `ISEVEN` (`even`) or `ISODD` gives for a literal argument: the parity of a number's
/// truncation (a blank is 0), `#VALUE!` for a boolean, an error passed on.
pub open spec fn parity_outcome<N: Number>(e: Expr<N>, even: bool, r: Value<N>) -> bool {
    match e {
        Expr::Lit(Value::Number(x)) => r == Value::<N>::Bool(spec_is_even(x.spec_trunc_of()) == even),
        Expr::Lit(Value::Blank) => r == Value::<N>::Bool(spec_is_even(N::spec_from_int(0)) == even),
        Expr::Lit(Value::Bool(_)) => r == Value::<N>::Error(ErrKind::Value),
        Expr::Lit(Value::Error(k)) => r == Value::<N>::Error(k),
        _ => true,
    }
}

/// What `ISEVEN` (`even`) / `ISODD` give for an evaluated operand `v` (see [`parity_number`]): a
/// number truncated, or a blank as 0, tested for parity; a boolean or a multi-cell array is
/// `#VALUE!`; an error stays; text either parses to a number tested for parity or is `#VALUE!`.
pub open spec fn parity_given<N: Number>(v: Value<N>, even: bool, r: Value<N>) -> bool {
    match spec_scalarize(v) {
        Value::Number(x) => r == Value::<N>::Bool(spec_is_even(x.spec_trunc_of()) == even),
        Value::Blank => r == Value::<N>::Bool(spec_is_even(N::spec_from_int(0)) == even),
        Value::Error(k) => r == Value::<N>::Error(k),
        Value::Text(_) => r is Bool || r == Value::<N>::Error(ErrKind::Value),
        _ => r == Value::<N>::Error(ErrKind::Value),
    }
}

/// Whether `r` is what `ISEVEN` (`even`) / `ISODD` give over `args[0]` evaluated in `ctx`.
pub open spec fn parity_read<'r, N: Number, R: Resolver<N>>(ctx: EvalCtx<'r, R>, args: Seq<Expr<N>>, even: bool, r: Value<N>) -> bool {
    exists|v: Value<N>| #[trigger] arg_value(ctx, args[0], v) && parity_given(v, even, r)
}

fn parity_fn<N: Number, R: Resolver<N>>(ctx: &mut EvalCtx<R>, args: &[Expr<N>], even: bool) -> (r: Value<N>)
    requires
        args.len() == 1,
    ensures
        restored(*old(ctx), *final(ctx)),
        r is Bool || r is Error,
        room(*old(ctx)) ==> parity_outcome(args[0], even, r),
        parity_read(*old(ctx), args@, even, r),
    decreases args_size(args@), 5nat,
{
    proof {
        lemma_arg_size(args@, 0);
    }
    let ev = ctx.eval(&args[0]);
    proof {
        assert(arg_value(*old(ctx), args@[0], ev));
    }
    match parity_number(ev) {
        Ok(n) => Value::Bool(is_even_number(n) == even),
        Err(k) => Value::Error(k),
    }
}

/// What [`iseven_fn`] is stated to give, for a context `ctx` and arguments `args`.
pub open spec fn iseven_fn_gives<'r, N: Number, R: Resolver<N>>(ctx: EvalCtx<'r, R>, args: Seq<Expr<N>>, r: Value<N>) -> bool {
    &&& r is Bool || r is Error
    &&& room(ctx) ==> parity_outcome(args[0], true, r)
}

/// What [`iseven_fn`] is stated to give for the values its arguments evaluate to in `ctx`.
pub open spec fn iseven_fn_reads<'r, N: Number, R: Resolver<N>>(ctx: EvalCtx<'r, R>, args: Seq<Expr<N>>, r: Value<N>) -> bool {
    &&& parity_read(ctx, args, true, r)
}

/// `ISEVEN(number)` — whether the number, truncated toward zero, is even (see
/// [`parity_number`]).
pub fn iseven_fn<N: Number, R: Resolver<N>>(ctx: &mut EvalCtx<R>, args: &[Expr<N>]) -> (r: Value<N>)
    requires
        args.len() == 1,
    ensures
        restored(*old(ctx), *final(ctx)),
        r is Bool || r is Error,
        room(*old(ctx)) ==> parity_outcome(args[0], true, r),
        parity_read(*old(ctx), args@, true, r),
    decreases args_size(args@), 7nat,
{
    parity_fn(ctx, args, true)
}

/// What [`isodd_fn`] is stated to give, for a context `ctx` and arguments `args`.
pub open spec fn isodd_fn_gives<'r, N: Number, R: Resolver<N>>(ctx: EvalCtx<'r, R>, args: Seq<Expr<N>>, r: Value<N>) -> bool {
    &&& r is Bool || r is Error
    &&& room(ctx) ==> parity_outcome(args[0], false, r)
}

/// What [`isodd_fn`] is stated to give for the values its arguments evaluate to in `ctx`.
pub open spec fn isodd_fn_reads<'r, N: Number, R: Resolver<N>>(ctx: EvalCtx<'r, R>, args: Seq<Expr<N>>, r: Value<N>) -> bool {
    &&& parity_read(ctx, args, false, r)
}

/// `ISODD(number)` — whether the number, truncated toward zero, is odd.
pub fn isodd_fn<N: Number, R: Resolver<N>>(ctx: &mut EvalCtx<R>, args: &[Expr<N>]) -> (r: Value<N>)
    requires
        args.len() == 1,
    ensures
        restored(*old(ctx), *final(ctx)),
        r is Bool || r is Error,
        room(*old(ctx)) ==> parity_outcome(args[0], false, r),
        parity_read(*old(ctx), args@, false, r),
    decreases args_size(args@), 7nat,
{
    parity_fn(ctx, args, false)
}

} // verus!
