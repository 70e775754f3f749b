//! The shared evaluation helpers reused by several function families: materializing an argument
//! to a rectangular block, coercing one argument to a number or text, gathering numbers under the
//! direct-vs-in-range rule, and the finite/overflow guard on a numeric result.

use vstd::prelude::*;
use crate::criteria::{criterion_shape, parse_criterion, Criterion};
use crate::eval::{bool_of_scalar, coerce_bool, coerce_num, evaluates, lemma_restored_same, is_zero, lemma_scalarize_same, num_coercion, restored, scalarize, short_digit_run, spec_is_zero, spec_scalarize, spec_trim, text_coercion, text_result_of, to_text, trim_whitespace, EvalCtx, EVAL_DEPTH_LIMIT};
use crate::expr::{args_size, expr_size, lemma_arg_size, Expr, Resolver};
use crate::value::{decimal_value, same_cells, same_value, ErrKind, Number, Value};
use crate::func::regression::{lemma_numbers_error, lemma_same_cells_numbers, numbers_in_order};

verus! {

/// The context has room to evaluate one more level (below the depth limit).
pub open spec fn room<'r, R>(ctx: EvalCtx<'r, R>) -> bool {
    ctx.level() < EVAL_DEPTH_LIMIT
}

/// The number a literal numeric argument holds.
pub open spec fn lit_num<N>(e: Expr<N>) -> Option<N> {
    match e {
        Expr::Lit(Value::Number(x)) => Some(x),
        _ => None,
    }
}

/// The number a literal scalar argument coerces to where the coercion is known: a number is itself,
/// a boolean `1`/`0`, a blank `0`, and a text of one to fifteen digits (white space aside) the
/// integer it spells; `None` otherwise.
pub open spec fn lit_coerced<N: Number>(e: Expr<N>) -> Option<N> {
    match e {
        Expr::Lit(Value::Number(x)) => Some(x),
        Expr::Lit(Value::Bool(b)) => Some(N::spec_from_int(if b { 1 } else { 0 })),
        Expr::Lit(Value::Blank) => Some(N::spec_from_int(0)),
        Expr::Lit(Value::Text(t)) => if short_digit_run(spec_trim(t@)) {
            Some(N::spec_from_int(decimal_value(spec_trim(t@)) as i64))
        } else {
            None
        },
        _ => None,
    }
}

/// A numeric argument at position `i`, or `default` when the call has none there; `None` when the
/// argument is not a literal number.
pub open spec fn lit_arg<N>(args: Seq<Expr<N>>, i: int, default: N) -> Option<N> {
    if i < args.len() { lit_num(args[i]) } else { Some(default) }
}

/// The characters a literal text argument holds.
pub open spec fn lit_text<N>(e: Expr<N>) -> Option<Seq<char>> {
    match e {
        Expr::Lit(Value::Text(t)) => Some(t@),
        _ => None,
    }
}

/// A value is the text `s`.
pub open spec fn text_value<N>(r: Value<N>, s: Seq<char>) -> bool {
    r matches Value::Text(u) && u@ == s
}

/// An integer clamped to the `usize` range from above.
pub open spec fn clamp_usize(t: int) -> int {
    if t > usize::MAX { usize::MAX as int } else { t }
}

/// A character count from a number: truncated toward zero, clamped to `usize`; a negative count
/// is `#VALUE!`.
pub open spec fn spec_count_of<N: Number>(x: N) -> Result<usize, ErrKind> {
    let t = x.spec_trunc_int();
    if t < 0 { Err(ErrKind::Value) } else { Ok(clamp_usize(t as int) as usize) }
}

/// The value a literal argument holds, when it is not an array.
pub open spec fn lit_scalar<N>(e: Expr<N>) -> Option<Value<N>> {
    match e {
        Expr::Lit(v) => if v is Array { None } else { Some(v) },
        _ => None,
    }
}

/// No cell of a run is itself an array.
pub open spec fn flat_cells<N>(c: Seq<Value<N>>) -> bool {
    forall|i: int| 0 <= i < c.len() ==> !((#[trigger] c[i]) is Array)
}

/// A run that holds the same values as a run without nested arrays is that run.
pub proof fn lemma_same_flat<N>(x: Seq<Value<N>>, y: Seq<Value<N>>)
    requires
        same_cells(x, y),
        flat_cells(y),
    ensures
        x == y,
    decreases x.len(),
{
    if x.len() > 0 {
        assert forall|i: int| 0 <= i < y.drop_last().len() implies !((#[trigger] y.drop_last()[i]) is Array) by {
            assert(y.drop_last()[i] == y[i]);
        }
        lemma_same_flat(x.drop_last(), y.drop_last());
        assert(!(y.last() is Array));
        assert(same_value(x.last(), y.last()));
        match x.last() {
            Value::Array(..) => {},
            _ => {},
        }
        assert(x.last() == y.last());
        assert(x =~= x.drop_last().push(x.last()));
        assert(y =~= y.drop_last().push(y.last()));
    } else {
        assert(x =~= y);
    }
}

/// Whether every argument from `lo` to `hi` is a literal number.
pub open spec fn all_lit_nums<N>(args: Seq<Expr<N>>, lo: int, hi: int) -> bool {
    forall|i: int| lo <= i < hi ==> (#[trigger] lit_num(args[i])) is Some
}

/// The numbers of the literal numeric arguments from `lo` to `hi`, in order.
pub open spec fn lit_nums<N>(args: Seq<Expr<N>>, lo: int, hi: int) -> Seq<N> {
    Seq::new((hi - lo) as nat, |i: int| lit_num(args[lo + i])->0)
}

/// Evaluate an argument to a rectangular block `(rows, cols, cells)`: an array is its shape and
/// cells, an error propagates, any other value is a 1×1 block. An array whose cell count does not
/// fill its shape (only a misbehaving resolver could produce one) is `#VALUE!`.
pub fn block<N: Number, R: Resolver<N>>(ctx: &mut EvalCtx<R>, e: &Expr<N>) -> (r: Result<(u32, u32, Vec<Value<N>>), ErrKind>)
    ensures
        restored(*old(ctx), *final(ctx)),
        r matches Ok(b) ==> b.2@.len() == b.0 * b.1,
        room(*old(ctx)) ==> match *e {
            Expr::Lit(Value::Error(k)) => r == Err::<(u32, u32, Vec<Value<N>>), ErrKind>(k),
            Expr::Lit(Value::Array(s, cells)) => if cells@.len() == s.rows * s.cols {
                r matches Ok(b) && b.0 == s.rows && b.1 == s.cols && same_cells(b.2@, cells@)
            } else {
                r == Err::<(u32, u32, Vec<Value<N>>), ErrKind>(ErrKind::Value)
            },
            Expr::Lit(v) => r matches Ok(b) && b.0 == 1 && b.1 == 1 && b.2@ == seq![v],
            _ => true,
        },
        exists|v: Value<N>| #[trigger] arg_value(*old(ctx), *e, v) && block_result(r) == spec_block(v),
    decreases expr_size(*e), 3nat,
{
    let ev = ctx.eval(e);
    let ghost gv = ev;
    proof {
        assert(arg_value(*old(ctx), *e, gv));
    }
    match ev {
        Value::Array(shape, cells) => {
            let rows64 = shape.rows as u64;
            let cols64 = shape.cols as u64;
            assert(rows64 * cols64 <= 0xffff_ffffu64 * 0xffff_ffffu64) by (nonlinear_arith)
                requires
                    rows64 <= 0xffff_ffffu64,
                    cols64 <= 0xffff_ffffu64,
            ;
            let area: u64 = rows64 * cols64;
            if cells.len() as u64 != area {
                return Err(ErrKind::Value);
            }
            Ok((shape.rows, shape.cols, cells))
        },
        Value::Error(k) => Err(k),
        other => {
            let mut v: Vec<Value<N>> = Vec::new();
            v.push(other);
            Ok((1, 1, v))
        },
    }
}

/// Whether `v` is a value expression `e` evaluates to as an argument in context `ctx`.
pub open spec fn arg_value<'r, N: Number, R: Resolver<N>>(ctx: EvalCtx<'r, R>, e: Expr<N>, v: Value<N>) -> bool {
    evaluates(e, ctx.level() as int, ctx.source(), v)
}

/// The block a value gives as an argument: an array whose cells fill its shape, a scalar as a 1×1
/// block; an error is that error, and an array whose cells do not fill its shape `#VALUE!`.
pub open spec fn spec_block<N>(v: Value<N>) -> Result<(u32, u32, Seq<Value<N>>), ErrKind> {
    match v {
        Value::Array(s, cells) => if cells@.len() == s.rows * s.cols {
            Ok((s.rows, s.cols, cells@))
        } else {
            Err(ErrKind::Value)
        },
        Value::Error(k) => Err(k),
        _ => Ok((1u32, 1u32, seq![v])),
    }
}

/// A computed block, with its cells by their view.
pub open spec fn block_result<N>(r: Result<(u32, u32, Vec<Value<N>>), ErrKind>) -> Result<(u32, u32, Seq<Value<N>>), ErrKind> {
    match r {
        Ok(b) => Ok((b.0, b.1, b.2@)),
        Err(k) => Err(k),
    }
}

/// Whether `c` is the number (or error) argument `e` coerces to, evaluated in `ctx`.
pub open spec fn num_read<'r, N: Number, R: Resolver<N>>(ctx: EvalCtx<'r, R>, e: Expr<N>, c: Result<N, ErrKind>) -> bool {
    exists|v: Value<N>| #[trigger] arg_value(ctx, e, v) && num_coercion(spec_scalarize(v), c)
}

/// Whether `t` is the text (or error) argument `e` coerces to, evaluated in `ctx`.
pub open spec fn text_read<'r, N: Number, R: Resolver<N>>(ctx: EvalCtx<'r, R>, e: Expr<N>, t: Result<Seq<char>, ErrKind>) -> bool {
    exists|v: Value<N>| #[trigger] arg_value(ctx, e, v) && text_coercion(spec_scalarize(v), t)
}

/// Whether `c` is the criterion (or error) argument `e` parses to, evaluated in `ctx`.
pub open spec fn crit_read<'r, N: Number, R: Resolver<N>>(ctx: EvalCtx<'r, R>, e: Expr<N>, c: Result<Criterion<N>, ErrKind>) -> bool {
    exists|v: Value<N>| #[trigger] arg_value(ctx, e, v) && criterion_shape(spec_scalarize(v), c)
}

/// A computed text, by its view.
pub open spec fn text_res(r: Result<String, ErrKind>) -> Result<Seq<char>, ErrKind> {
    match r {
        Ok(s) => Ok(s@),
        Err(k) => Err(k),
    }
}

/// Evaluate one argument to a scalar number (Excel arithmetic coercion), or its error.
pub fn one_num<N: Number, R: Resolver<N>>(ctx: &mut EvalCtx<R>, e: &Expr<N>) -> (r: Result<N, ErrKind>)
    ensures
        restored(*old(ctx), *final(ctx)),
        room(*old(ctx)) ==> (lit_num(*e) matches Some(x) ==> r == Ok::<N, ErrKind>(x)),
        room(*old(ctx)) ==> match *e {
            Expr::Lit(Value::Error(k)) => r == Err::<N, ErrKind>(k),
            _ => true,
        },
        room(*old(ctx)) ==> (lit_scalar(*e) matches Some(v) ==> num_coercion(v, r)),
        exists|v: Value<N>| #[trigger] arg_value(*old(ctx), *e, v) && num_coercion(spec_scalarize(v), r),
        num_read(*old(ctx), *e, r),
    decreases expr_size(*e), 3nat,
{
    let ev = ctx.eval(e);
    proof {
        assert(arg_value(*old(ctx), *e, ev));
    }
    proof {
        if room(*old(ctx)) && lit_scalar(*e) is Some {
            lemma_scalarize_same(ev, lit_scalar(*e)->0);
        }
    }
    let v = scalarize(ev);
    coerce_num(&v)
}

/// Evaluate the first two arguments to scalar numbers, the leftmost error winning.
pub fn two_nums<N: Number, R: Resolver<N>>(ctx: &mut EvalCtx<R>, args: &[Expr<N>]) -> (r: Result<(N, N), ErrKind>)
    requires
        args.len() >= 2,
    ensures
        restored(*old(ctx), *final(ctx)),
        room(*old(ctx)) ==> (lit_num(args[0]) matches Some(x) ==> (lit_num(args[1]) matches Some(y)
            ==> r == Ok::<(N, N), ErrKind>((x, y)))),
        pair_read(*old(ctx), args@, r),
    decreases args_size(args@), 4nat,
{
    proof {
        lemma_arg_size(args@, 0);
        lemma_arg_size(args@, 1);
    }
    let ra = one_num(ctx, &args[0]);
    proof {
        assert(num_read(*old(ctx), args@[0], ra));
        lemma_restored_same(*old(ctx), *ctx);
    }
    let a = match ra {
        Ok(a) => a,
        Err(k) => {
            return Err(k);
        },
    };
    let rb = one_num(ctx, &args[1]);
    proof {
        assert(num_read(*old(ctx), args@[1], rb));
    }
    let b = match rb {
        Ok(b) => b,
        Err(k) => {
            return Err(k);
        },
    };
    Ok((a, b))
}

/// Whether `r` is the pair of numbers `args[0]` and `args[1]` coerce to, evaluated in `ctx` in
/// that order (the first coercion error stops the reading).
pub open spec fn pair_read<'r, N: Number, R: Resolver<N>>(ctx: EvalCtx<'r, R>, args: Seq<Expr<N>>, r: Result<(N, N), ErrKind>) -> bool {
    exists|c1: Result<N, ErrKind>| #[trigger] num_read(ctx, args[0], c1) && match c1 {
        Err(k) => r == Err::<(N, N), ErrKind>(k),
        Ok(x) => exists|c2: Result<N, ErrKind>| #[trigger] num_read(ctx, args[1], c2) && match c2 {
            Err(k) => r == Err::<(N, N), ErrKind>(k),
            Ok(y) => r == Ok::<(N, N), ErrKind>((x, y)),
        },
    }
}

/// Whether `r` is what a function of one text gives over argument `e` evaluated in `ctx`: the
/// coercion's error, else a value `f` accepts for the text.
pub open spec fn text_arg_read<'r, N: Number, R: Resolver<N>>(ctx: EvalCtx<'r, R>, e: Expr<N>, f: spec_fn(Seq<char>, Value<N>) -> bool, r: Value<N>) -> bool {
    exists|t: Result<Seq<char>, ErrKind>| #[trigger] text_read(ctx, e, t) && match t {
        Err(k) => r == Value::<N>::Error(k),
        Ok(s) => f(s, r),
    }
}

/// Whether `r` is what a function of one value gives over argument `e` evaluated in `ctx`.
pub open spec fn value_read<'r, N: Number, R: Resolver<N>>(ctx: EvalCtx<'r, R>, e: Expr<N>, f: spec_fn(Value<N>) -> Value<N>, r: Value<N>) -> bool {
    exists|v: Value<N>| #[trigger] arg_value(ctx, e, v) && r == f(v)
}

/// Whether `r` is what a function of one number gives over argument `e` evaluated in `ctx`: the
/// coercion's error, else `f` of the number.
pub open spec fn one_num_read<'r, N: Number, R: Resolver<N>>(ctx: EvalCtx<'r, R>, e: Expr<N>, f: spec_fn(N) -> Value<N>, r: Value<N>) -> bool {
    exists|c: Result<N, ErrKind>| #[trigger] num_read(ctx, e, c) && match c {
        Err(k) => r == Value::<N>::Error(k),
        Ok(x) => r == f(x),
    }
}

/// Whether `r` is what a function of two numbers gives over `args[0]` and `args[1]` evaluated in
/// `ctx`: the first coercion error, else `f` of the two numbers.
pub open spec fn two_num_read<'r, N: Number, R: Resolver<N>>(ctx: EvalCtx<'r, R>, args: Seq<Expr<N>>, f: spec_fn(N, N) -> Value<N>, r: Value<N>) -> bool {
    exists|p: Result<(N, N), ErrKind>| #[trigger] pair_read(ctx, args, p) && match p {
        Err(k) => r == Value::<N>::Error(k),
        Ok(t) => r == f(t.0, t.1),
    }
}

/// Coerce one argument to its text form, propagating an error.
pub fn arg_text<N: Number, R: Resolver<N>>(ctx: &mut EvalCtx<R>, e: &Expr<N>) -> (r: Result<String, ErrKind>)
    ensures
        restored(*old(ctx), *final(ctx)),
        room(*old(ctx)) ==> match *e {
            Expr::Lit(Value::Text(t)) => r matches Ok(u) && u@ == t@,
            Expr::Lit(Value::Error(k)) => r == Err::<String, ErrKind>(k),
            _ => true,
        },
        exists|v: Value<N>| #[trigger] arg_value(*old(ctx), *e, v) && text_result_of(spec_scalarize(v), r),
        text_read(*old(ctx), *e, text_res(r)),
    decreases expr_size(*e), 3nat,
{
    let v = ctx.eval(e);
    proof {
        assert(arg_value(*old(ctx), *e, v));
    }
    to_text(&v)
}

/// Evaluate a criteria argument, collapse it to a scalar, and parse the criteria mini-language.
pub fn criterion<N: Number, R: Resolver<N>>(ctx: &mut EvalCtx<R>, e: &Expr<N>) -> (r: Result<Criterion<N>, ErrKind>)
    ensures
        restored(*old(ctx), *final(ctx)),
        room(*old(ctx)) ==> (lit_scalar(*e) matches Some(v) ==> criterion_shape(v, r)),
        exists|v: Value<N>| #[trigger] arg_value(*old(ctx), *e, v) && criterion_shape(spec_scalarize(v), r),
        crit_read(*old(ctx), *e, r),
    decreases expr_size(*e), 3nat,
{
    let ev = ctx.eval(e);
    proof {
        assert(arg_value(*old(ctx), *e, ev));
    }
    let v = scalarize(ev);
    parse_criterion(&v)
}

/// Whether `r` is what one evaluated argument contributes to a numeric aggregate (the
/// direct-vs-in-range rule): inside an array only numbers count and the first error is the
/// result; a direct number counts, a boolean as 1/0, a blank not at all, an error is the result,
/// and a text counts as the number it coerces to (else its coercion error).
pub open spec fn datum_numbers<N: Number>(v: Value<N>, r: Result<Seq<N>, ErrKind>) -> bool {
    match v {
        Value::Array(_, cells) => r == numbers_in_order(cells@),
        Value::Error(k) => r == Err::<Seq<N>, ErrKind>(k),
        Value::Number(n) => r == Ok::<Seq<N>, ErrKind>(seq![n]),
        Value::Bool(b) => r == Ok::<Seq<N>, ErrKind>(seq![N::spec_from_int(if b { 1 } else { 0 })]),
        Value::Blank => r == Ok::<Seq<N>, ErrKind>(Seq::<N>::empty()),
        Value::Text(_) => match r {
            Ok(s) => s.len() == 1 && num_coercion(v, Ok::<N, ErrKind>(s[0])),
            Err(k) => num_coercion(v, Err::<N, ErrKind>(k)),
        },
    }
}

/// The runs of numbers of several data, joined in order.
pub open spec fn joined<N>(parts: Seq<Seq<N>>) -> Seq<N>
    decreases parts.len(),
{
    if parts.len() == 0 { Seq::empty() } else { joined(parts.drop_last()) + parts.last() }
}

/// Whether `res` is what arguments `lo..hi` contribute, evaluated left to right in `ctx` to `vals`
/// with each contributing its run in `parts`: every run joined, or the first error, after which no
/// argument is evaluated.
pub open spec fn collected_by<'r, N: Number, R: Resolver<N>>(ctx: EvalCtx<'r, R>, args: Seq<Expr<N>>, lo: int, hi: int,
    vals: Seq<Value<N>>, parts: Seq<Seq<N>>, res: Result<Seq<N>, ErrKind>) -> bool {
    &&& forall|i: int| 0 <= i < vals.len() ==> arg_value(ctx, args[lo + i], #[trigger] vals[i])
    &&& forall|i: int| 0 <= i < parts.len() ==> datum_numbers(#[trigger] vals[i], Ok::<Seq<N>, ErrKind>(parts[i]))
    &&& match res {
        Ok(s) => vals.len() == hi - lo && parts.len() == vals.len() && s == joined(parts),
        Err(k) => 1 <= vals.len() <= hi - lo && parts.len() == vals.len() - 1 && datum_numbers(vals.last(), Err::<Seq<N>, ErrKind>(k)),
    }
}

/// Whether `res` is what arguments `lo..hi` contribute to a numeric aggregate (see
/// [`collected_by`]).
pub open spec fn collected<'r, N: Number, R: Resolver<N>>(ctx: EvalCtx<'r, R>, args: Seq<Expr<N>>, lo: int, hi: int,
    res: Result<Seq<N>, ErrKind>) -> bool {
    exists|vals: Seq<Value<N>>, parts: Seq<Seq<N>>| #[trigger] collected_by(ctx, args, lo, hi, vals, parts, res)
}

/// A computed run of numbers, by its view.
pub open spec fn nums_result<N>(r: Result<Vec<N>, ErrKind>) -> Result<Seq<N>, ErrKind> {
    match r {
        Ok(v) => Ok(v@),
        Err(k) => Err(k),
    }
}

/// The numbers a datum contributes under the direct-vs-in-range rule, or the error it raises:
/// inside an array only numbers count and an error propagates; a direct number counts, a direct
/// boolean counts as 1/0, a direct blank contributes nothing, a direct error propagates, and a
/// direct text counts if it spells a number (else `#VALUE!`).
#[verifier::loop_isolation(false)]
pub fn gather_numbers<N: Number>(v: Value<N>, nums: &mut Vec<N>) -> (r: Result<(), ErrKind>)
    ensures
        v is Error ==> r == Err::<(), ErrKind>(v->Error_0),
        v is Blank ==> r is Ok && final(nums)@ == old(nums)@,
        v matches Value::Number(n) ==> r is Ok && final(nums)@ == old(nums)@.push(n),
        v is Bool ==> r is Ok && final(nums)@.len() == old(nums)@.len() + 1,
        r is Ok ==> final(nums)@.len() >= old(nums)@.len(),
        v matches Value::Array(_, cells) ==> match numbers_in_order(cells@) {
            Ok(s) => r is Ok && final(nums)@ == old(nums)@ + s,
            Err(k) => r == Err::<(), ErrKind>(k),
        },
        match r {
            Ok(_) => final(nums)@.len() >= old(nums)@.len()
                && final(nums)@ == old(nums)@ + final(nums)@.subrange(old(nums)@.len() as int, final(nums)@.len() as int)
                && datum_numbers(v, Ok::<Seq<N>, ErrKind>(final(nums)@.subrange(old(nums)@.len() as int, final(nums)@.len() as int))),
            Err(k) => datum_numbers(v, Err::<Seq<N>, ErrKind>(k)),
        },
{
    let ghost before = nums@;
    match v {
        Value::Array(_, cells) => {
            let mut i: usize = 0;
            while i < cells.len()
                invariant
                    i <= cells.len(),
                    nums@.len() >= old(nums)@.len(),
                    numbers_in_order(cells@.subrange(0, i as int)) matches Ok(s) && nums@ == old(nums)@ + s,
                decreases cells.len() - i,
            {
                proof {
                    assert(cells@.subrange(0, i + 1).drop_last() == cells@.subrange(0, i as int));
                }
                let ghost before = nums@;
                match &cells[i] {
                    Value::Error(k) => {
                        proof {
                            lemma_numbers_error(cells@, i + 1);
                        }
                        return Err(*k);
                    },
                    Value::Number(n) => nums.push(*n),
                    _ => {},
                }
                proof {
                    let s = numbers_in_order(cells@.subrange(0, i as int))->Ok_0;
                    assert(nums@ =~= old(nums)@ + numbers_in_order(cells@.subrange(0, i + 1))->Ok_0);
                }
                i = i + 1;
            }
            proof {
                assert(cells@.subrange(0, cells@.len() as int) == cells@);
                assert(nums@.subrange(before.len() as int, nums@.len() as int) =~= numbers_in_order(cells@)->Ok_0);
            }
            Ok(())
        },
        Value::Error(k) => Err(k),
        Value::Number(n) => {
            nums.push(n);
            proof {
                assert(nums@.subrange(before.len() as int, nums@.len() as int) =~= seq![n]);
            }
            Ok(())
        },
        Value::Bool(b) => {
            nums.push(N::from_int(if b { 1 } else { 0 }));
            proof {
                assert(nums@.subrange(before.len() as int, nums@.len() as int) =~= seq![N::spec_from_int(if b { 1 } else { 0 })]);
            }
            Ok(())
        },
        Value::Blank => {
            proof {
                assert(nums@.subrange(before.len() as int, nums@.len() as int) =~= Seq::<N>::empty());
            }
            Ok(())
        },
        Value::Text(t) => match N::parse_text(trim_whitespace(t.as_str()).as_str()) {
            Some(n) => {
                nums.push(n);
                proof {
                    assert(nums@.subrange(before.len() as int, nums@.len() as int) =~= seq![n]);
                }
                Ok(())
            },
            None => Err(ErrKind::Value),
        },
    }
}

/// Gather the numeric data of every argument under the direct-vs-in-range rule (see
/// [`gather_numbers`]); the first error met propagates.
pub fn collect_numbers<N: Number, R: Resolver<N>>(ctx: &mut EvalCtx<R>, args: &[Expr<N>]) -> (r: Result<Vec<N>, ErrKind>)
    ensures
        restored(*old(ctx), *final(ctx)),
        room(*old(ctx)) && all_lit_nums(args@, 0, args@.len() as int)
            ==> (r matches Ok(v) && v@ == lit_nums(args@, 0, args@.len() as int)),
        collected(*old(ctx), args@, 0, args@.len() as int, nums_result(r)),
    decreases args_size(args@), 3nat,
{
    collect_numbers_in(ctx, args, 0, args.len())
}

/// The numbers of a literal array argument, in order, or its first error cell (see
/// [`numbers_in_order`]); `None` for any other argument.
pub open spec fn lit_array_numbers<N>(e: Expr<N>) -> Option<Result<Seq<N>, ErrKind>> {
    match e {
        Expr::Lit(Value::Array(_, cs)) => Some(numbers_in_order(cs@)),
        _ => None,
    }
}

/// Gather the numeric data of the arguments `lo..hi` (see [`collect_numbers`]).
pub fn collect_numbers_in<N: Number, R: Resolver<N>>(ctx: &mut EvalCtx<R>, args: &[Expr<N>], lo: usize, hi: usize) -> (r: Result<Vec<N>, ErrKind>)
    ensures
        restored(*old(ctx), *final(ctx)),
        room(*old(ctx)) && lo <= hi <= args@.len() && all_lit_nums(args@, lo as int, hi as int)
            ==> (r matches Ok(v) && v@ == lit_nums(args@, lo as int, hi as int)),
        room(*old(ctx)) && lo + 1 == hi && hi <= args@.len() ==> (lit_array_numbers(args@[lo as int]) matches Some(res) ==> match res {
            Ok(s) => r matches Ok(v) && v@ == s,
            Err(k) => r == Err::<Vec<N>, ErrKind>(k),
        }),
        lo <= hi <= args@.len() ==> collected(*old(ctx), args@, lo as int, hi as int, nums_result(r)),
    decreases args_size(args@), 2nat,
{
    let mut nums: Vec<N> = Vec::new();
    let mut i: usize = lo;
    let ghost mut vals: Seq<Value<N>> = Seq::empty();
    let ghost mut parts: Seq<Seq<N>> = Seq::empty();
    while i < hi && i < args.len()
        invariant
            restored(*old(ctx), *ctx),
            lo <= i,
            vals.len() == i - lo,
            parts.len() == vals.len(),
            nums@ == joined(parts),
            forall|j: int| 0 <= j < vals.len() ==> arg_value(*old(ctx), args@[lo + j], #[trigger] vals[j]),
            forall|j: int| 0 <= j < parts.len() ==> datum_numbers(#[trigger] vals[j], Ok::<Seq<N>, ErrKind>(parts[j])),
            lo <= hi <= args@.len() ==> i <= hi,
            room(*old(ctx)) && lo <= hi <= args@.len() && all_lit_nums(args@, lo as int, hi as int)
                ==> nums@ == lit_nums(args@, lo as int, i as int),
            room(*old(ctx)) && lo + 1 == hi && hi <= args@.len() ==> (i == lo ==> nums@.len() == 0),
            room(*old(ctx)) && lo + 1 == hi && hi <= args@.len() && i > lo ==> (lit_array_numbers(args@[lo as int]) matches Some(res)
                ==> (res matches Ok(s) && nums@ == s)),
        decreases args.len() - i,
    {
        proof {
            lemma_arg_size(args@, i as int);
        }
        let v = ctx.eval(&args[i]);
        proof {
            if room(*old(ctx)) && lo <= hi <= args@.len() && all_lit_nums(args@, lo as int, hi as int) {
                assert(lit_num(args@[i as int]) is Some);
            }
            if room(*old(ctx)) && lo + 1 == hi && hi <= args@.len() {
                match args@[lo as int] {
                    Expr::Lit(Value::Array(sh, cs)) => {
                        assert(i == lo);
                        assert(nums@.len() == 0);
                        if v is Array {
                            lemma_same_cells_numbers(v->Array_1@, cs@);
                        }
                    },
                    _ => {},
                }
            }
        }
        proof {
            lemma_restored_same(*old(ctx), *ctx);
            assert(arg_value(*old(ctx), args@[i as int], v));
        }
        let ghost gv = v;
        let ghost pre = nums@;
        match gather_numbers(v, &mut nums) {
            Ok(()) => {},
            Err(k) => {
                proof {
                    let vs = vals.push(gv);
                    assert(vs.last() == gv);
                    assert(collected_by(*old(ctx), args@, lo as int, hi as int, vs, parts, Err::<Seq<N>, ErrKind>(k)));
                }
                return Err(k);
            },
        }
        proof {
            let p = nums@.subrange(pre.len() as int, nums@.len() as int);
            assert(parts.push(p).drop_last() =~= parts);
            vals = vals.push(gv);
            parts = parts.push(p);
        }
        proof {
            if room(*old(ctx)) && lo <= hi <= args@.len() && all_lit_nums(args@, lo as int, hi as int) {
                assert(nums@ =~= lit_nums(args@, lo as int, i + 1));
            }
        }
        i = i + 1;
    }
    proof {
        if room(*old(ctx)) && lo <= hi <= args@.len() && all_lit_nums(args@, lo as int, hi as int) {
            assert(i == hi);
        }
        if lo <= hi <= args@.len() {
            assert(collected_by(*old(ctx), args@, lo as int, hi as int, vals, parts, Ok::<Seq<N>, ErrKind>(nums@)));
        }
    }
    Ok(nums)
}

/// A computed number as a value: a non-finite one is `#NUM!`, one equal to zero (a negative zero
/// included) is zero, any other is itself.
pub open spec fn spec_finite_or_num<N: Number>(n: N) -> Value<N> {
    if !n.spec_finite() {
        Value::Error(ErrKind::Num)
    } else if spec_is_zero(n) {
        Value::Number(N::spec_from_int(0))
    } else {
        Value::Number(n)
    }
}

/// A computed number as a value (see [`spec_finite_or_num`]).
pub fn finite_or_num<N: Number>(n: N) -> (r: Value<N>)
    ensures
        r == spec_finite_or_num(n),
        r is Number || r == Value::<N>::Error(ErrKind::Num),
{
    if n.finite() {
        if is_zero(n) {
            Value::Number(N::from_int(0))
        } else {
            Value::Number(n)
        }
    } else {
        Value::Error(ErrKind::Num)
    }
}

/// Clamp a non-negative integer to `usize`.
pub fn to_count(t: i64) -> (r: usize)
    requires
        t >= 0,
    ensures
        t <= usize::MAX ==> r == t,
        t > usize::MAX ==> r == usize::MAX,
{
    let u = t as u64;
    if u > usize::MAX as u64 {
        usize::MAX
    } else {
        u as usize
    }
}

/// Evaluate an argument to a non-negative character count, truncating a fraction toward zero; a
/// negative count is `#VALUE!`.
pub fn count_arg<N: Number, R: Resolver<N>>(ctx: &mut EvalCtx<R>, e: &Expr<N>) -> (r: Result<usize, ErrKind>)
    ensures
        restored(*old(ctx), *final(ctx)),
        room(*old(ctx)) ==> (lit_num(*e) matches Some(x) ==> r == spec_count_of(x)),
    decreases expr_size(*e), 4nat,
{
    let t = one_num(ctx, e)?.trunc_int();
    if t < 0 {
        return Err(ErrKind::Value);
    }
    Ok(to_count(t))
}

/// An optional numeric argument, or `default` when the call omits it.
pub fn opt_num<N: Number, R: Resolver<N>>(ctx: &mut EvalCtx<R>, args: &[Expr<N>], i: usize, default: N) -> (r: Result<N, ErrKind>)
    ensures
        restored(*old(ctx), *final(ctx)),
        i >= args.len() ==> r == Ok::<N, ErrKind>(default),
        room(*old(ctx)) && i < args@.len() ==> (lit_num(args[i as int]) matches Some(x) ==> r == Ok::<N, ErrKind>(x)),
        i < args.len() ==> exists|v: Value<N>| #[trigger] arg_value(*old(ctx), args@[i as int], v)
            && num_coercion(spec_scalarize(v), r),
    decreases args_size(args@), 4nat,
{
    if i >= args.len() {
        return Ok(default);
    }
    proof {
        lemma_arg_size(args@, i as int);
    }
    one_num(ctx, &args[i])
}

/// An optional boolean flag argument, or `default` when the call omits it.
pub fn opt_bool<N: Number, R: Resolver<N>>(ctx: &mut EvalCtx<R>, args: &[Expr<N>], i: usize, default: bool) -> (r: Result<bool, ErrKind>)
    ensures
        restored(*old(ctx), *final(ctx)),
        i >= args.len() ==> r == Ok::<bool, ErrKind>(default),
        room(*old(ctx)) && i < args@.len() ==> match args[i as int] {
            Expr::Lit(v) => !(v is Array) ==> r == bool_of_scalar(v),
            _ => true,
        },
        i < args.len() ==> exists|v: Value<N>| #[trigger] arg_value(*old(ctx), args@[i as int], v)
            && r == bool_of_scalar(spec_scalarize(v)),
    decreases args_size(args@), 4nat,
{
    if i >= args.len() {
        return Ok(default);
    }
    proof {
        lemma_arg_size(args@, i as int);
    }
    let v = ctx.eval(&args[i]);
    proof {
        assert(arg_value(*old(ctx), args@[i as int], v));
    }
    coerce_bool(&v)
}

} // verus!
