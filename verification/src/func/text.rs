//! Text functions: `CONCAT`, `TEXTJOIN`, `LEFT`, `RIGHT`, `MID`, `LEN`, `FIND`, `SEARCH`,
//! `SUBSTITUTE`, `REPLACE`, `TRIM`, `UPPER`, `LOWER`.
//!
//! Every text argument is coerced the way the `&` operator coerces. Positions are 1-based and
//! count characters. `LEFT`/`RIGHT`/`MID` clamp an out-of-range count to the string's edge; a
//! negative count or start is `#VALUE!`. `FIND` is case-sensitive without wildcards; `SEARCH`
//! folds ASCII case and honours `?`, `*` and `~`.

use vstd::prelude::*;
use crate::func::helpers::text_arg_read;
use crate::criteria::{spec_parse_wild, parse_wild, lemma_seg_bound, lemma_seg_extend, lemma_wild_seg, lemma_wild_star, lemma_wild_unfold, seg_ok, wild, wild_at, Tok};
use crate::eval::{coerce_bool, lemma_restored_same, restored, to_text, EvalCtx};
use crate::expr::{args_size, lemma_arg_size, Expr, Resolver};
use crate::func::aggregation::count_value;
use crate::func::aggregation::clamp_count;
use crate::func::helpers::{arg_text, clamp_usize, count_arg, lit_arg, lit_num, lit_text, num_read, one_num, room, spec_count_of, text_read, text_res, text_value, to_count};
use crate::strings::{lower_seq, chars_of, lower_chars, push_char, string_of, string_of_range};
use crate::value::{ErrKind, Number, Value};

verus! {

/// Append every piece of a datum's text to `out` (`CONCAT`): an array contributes each cell's text
/// row-major, any other value its own text; an error anywhere propagates.
#[verifier::loop_isolation(false)]
fn concat_datum<N: Number>(v: &Value<N>, out: &mut String) -> (r: Result<(), ErrKind>)
    ensures
        v is Error ==> r == Err::<(), ErrKind>(v->Error_0),
        v matches Value::Text(t) ==> r is Ok && final(out)@ == old(out)@ + t@,
{
    match v {
        Value::Array(_, cells) => {
            let mut i: usize = 0;
            while i < cells.len()
                invariant
                    i <= cells.len(),
                decreases cells.len() - i,
            {
                let s = to_text(&cells[i])?;
                out.append(s.as_str());
                i = i + 1;
            }
            Ok(())
        },
        other => {
            let s = to_text(other)?;
            out.append(s.as_str());
            Ok(())
        },
    }
}

/// Every argument from `lo` on is a literal text.
pub open spec fn all_lit_texts<N>(args: Seq<Expr<N>>, lo: int) -> bool {
    forall|i: int| lo <= i < args.len() ==> (#[trigger] lit_text(args[i])) is Some
}

/// The texts of the first `n` literal text arguments, concatenated.
pub open spec fn lit_texts_concat<N>(args: Seq<Expr<N>>, n: int) -> Seq<char>
    decreases n,
{
    if n <= 0 { Seq::<char>::empty() } else { lit_texts_concat(args, n - 1) + lit_text(args[n - 1])->0 }
}

/// What [`concat_fn`] is stated to give, for a context `ctx` and arguments `args`.
pub open spec fn concat_fn_gives<'r, N: Number, R: Resolver<N>>(ctx: EvalCtx<'r, R>, args: Seq<Expr<N>>, r: Value<N>) -> bool {
    &&& r is Text || r is Error
    &&& room(ctx) && all_lit_texts(args, 0) ==> text_value(r, lit_texts_concat(args, args.len() as int))
}

/// `CONCAT(text1, …)` — concatenate the text of every datum, flattening ranges row-major; an error
/// at any position propagates.
pub fn concat_fn<N: Number, R: Resolver<N>>(ctx: &mut EvalCtx<R>, args: &[Expr<N>]) -> (r: Value<N>)
    requires
        args.len() >= 1,
    ensures
        restored(*old(ctx), *final(ctx)),
        r is Text || r is Error,
        room(*old(ctx)) && all_lit_texts(args@, 0) ==> text_value(r, lit_texts_concat(args@, args@.len() as int)),
    decreases args_size(args@), 7nat,
{
    let mut out = String::new();
    let mut i: usize = 0;
    while i < args.len()
        invariant
            i <= args.len(),
            restored(*old(ctx), *ctx),
            room(*old(ctx)) && all_lit_texts(args@, 0) ==> out@ == lit_texts_concat(args@, i as int),
        decreases args.len() - i,
    {
        proof {
            lemma_arg_size(args@, i as int);
        }
        let v = ctx.eval(&args[i]);
        proof {
            if room(*old(ctx)) && all_lit_texts(args@, 0) {
                assert(lit_text(args@[i as int]) is Some);
            }
        }
        match concat_datum(&v, &mut out) {
            Ok(()) => {},
            Err(k) => {
                return Value::Error(k);
            },
        }
        i = i + 1;
    }
    Value::Text(out)
}

/// The pieces of a datum's text for `TEXTJOIN`, dropping empty pieces when `ignore_empty`.
#[verifier::loop_isolation(false)]
fn join_pieces<N: Number>(v: &Value<N>, ignore_empty: bool, pieces: &mut Vec<String>) -> (r: Result<(), ErrKind>)
    ensures
        v is Error ==> r == Err::<(), ErrKind>(v->Error_0),
        v matches Value::Text(t) ==> r is Ok && final(pieces)@.map_values(|p: String| p@)
            == old(pieces)@.map_values(|p: String| p@) + piece_of(t@, ignore_empty),
{
    match v {
        Value::Array(_, cells) => {
            let mut i: usize = 0;
            while i < cells.len()
                invariant
                    i <= cells.len(),
                decreases cells.len() - i,
            {
                let s = to_text(&cells[i])?;
                if !(ignore_empty && s.unicode_len() == 0) {
                    pieces.push(s);
                }
                i = i + 1;
            }
            Ok(())
        },
        other => {
            let s = to_text(other)?;
            if !(ignore_empty && s.unicode_len() == 0) {
                pieces.push(s);
            }
            assert(pieces@.map_values(|p: String| p@) =~= old(pieces)@.map_values(|p: String| p@) + piece_of(s@, ignore_empty));
            Ok(())
        },
    }
}

/// The pieces one text adds to a `TEXTJOIN`: none when it is empty and empties are ignored.
pub open spec fn piece_of(t: Seq<char>, ignore_empty: bool) -> Seq<Seq<char>> {
    if ignore_empty && t.len() == 0 { Seq::<Seq<char>>::empty() } else { seq![t] }
}

/// The `TEXTJOIN` pieces of the literal text arguments from the third up to `n`.
pub open spec fn lit_join_pieces<N>(args: Seq<Expr<N>>, n: int, ignore_empty: bool) -> Seq<Seq<char>>
    decreases n,
{
    if n <= 2 {
        Seq::<Seq<char>>::empty()
    } else {
        lit_join_pieces(args, n - 1, ignore_empty) + piece_of(lit_text(args[n - 1])->0, ignore_empty)
    }
}

/// The pieces joined by `delim`.
pub open spec fn joined(pieces: Seq<Seq<char>>, delim: Seq<char>) -> Seq<char>
    decreases pieces.len(),
{
    if pieces.len() == 0 {
        Seq::<char>::empty()
    } else if pieces.len() == 1 {
        pieces[0]
    } else {
        joined(pieces.drop_last(), delim) + delim + pieces.last()
    }
}

/// Join strings with a delimiter.
pub fn join_with(pieces: &Vec<String>, delim: &str) -> (r: String)
    ensures
        r@ == joined(pieces@.map_values(|p: String| p@), delim@),
{
    let ghost views = pieces@.map_values(|p: String| p@);
    let mut out = String::new();
    let mut i: usize = 0;
    while i < pieces.len()
        invariant
            i <= pieces.len(),
            views == pieces@.map_values(|p: String| p@),
            out@ == joined(views.subrange(0, i as int), delim@),
        decreases pieces.len() - i,
    {
        if i > 0 {
            out.append(delim);
        }
        out.append(pieces[i].as_str());
        assert(views.subrange(0, i + 1).drop_last() =~= views.subrange(0, i as int));
        assert(out@ =~= joined(views.subrange(0, i + 1), delim@));
        i = i + 1;
    }
    assert(views.subrange(0, pieces.len() as int) =~= views);
    out
}

/// What [`textjoin_fn`] is stated to give, for a context `ctx` and arguments `args`.
pub open spec fn textjoin_fn_gives<'r, N: Number, R: Resolver<N>>(ctx: EvalCtx<'r, R>, args: Seq<Expr<N>>, r: Value<N>) -> bool {
    &&& r is Text || r is Error
    &&& room(ctx) && all_lit_texts(args, 2) ==> (lit_text(args[0]) matches Some(d) ==> match args[1] {
        Expr::Lit(Value::Bool(b)) => text_value(r, joined(lit_join_pieces(args, args.len() as int, b), d)),
        _ => true,
    })
}

/// `TEXTJOIN(delimiter, ignore_empty, text1, …)` — join the text of every datum (ranges
/// flattened) with `delimiter`, dropping empty pieces first when `ignore_empty` is true. An error
/// in any piece, the delimiter or the flag propagates.
pub fn textjoin_fn<N: Number, R: Resolver<N>>(ctx: &mut EvalCtx<R>, args: &[Expr<N>]) -> (r: Value<N>)
    requires
        args.len() >= 3,
    ensures
        restored(*old(ctx), *final(ctx)),
        r is Text || r is Error,
        room(*old(ctx)) && all_lit_texts(args@, 2) ==> (lit_text(args[0]) matches Some(d) ==> match args[1] {
            Expr::Lit(Value::Bool(b)) => text_value(r, joined(lit_join_pieces(args@, args@.len() as int, b), d)),
            _ => true,
        }),
    decreases args_size(args@), 7nat,
{
    proof {
        lemma_arg_size(args@, 0);
        lemma_arg_size(args@, 1);
    }
    let delim = match arg_text(ctx, &args[0]) {
        Ok(s) => s,
        Err(k) => {
            return Value::Error(k);
        },
    };
    let flag = ctx.eval(&args[1]);
    let ignore_empty = match coerce_bool(&flag) {
        Ok(b) => b,
        Err(k) => {
            return Value::Error(k);
        },
    };
    let mut pieces: Vec<String> = Vec::new();
    let mut i: usize = 2;
    let ghost lits = room(*old(ctx)) && all_lit_texts(args@, 2) && lit_text(args@[0]) is Some && args@[1] is Lit && args@[1]->Lit_0 is Bool;
    proof {
        if lits {
            assert(ignore_empty == args@[1]->Lit_0->Bool_0);
        }
        assert(pieces@.map_values(|p: String| p@) =~= Seq::<Seq<char>>::empty());
    }
    while i < args.len()
        invariant
            2 <= i <= args.len(),
            restored(*old(ctx), *ctx),
            lits ==> pieces@.map_values(|p: String| p@) == lit_join_pieces(args@, i as int, ignore_empty),
            lits ==> room(*old(ctx)) && all_lit_texts(args@, 2),
        decreases args.len() - i,
    {
        proof {
            lemma_arg_size(args@, i as int);
        }
        let v = ctx.eval(&args[i]);
        proof {
            if lits {
                assert(lit_text(args@[i as int]) is Some);
            }
        }
        match join_pieces(&v, ignore_empty, &mut pieces) {
            Ok(()) => {},
            Err(k) => {
                return Value::Error(k);
            },
        }
        i = i + 1;
    }
    Value::Text(join_with(&pieces, delim.as_str()))
}

/// The smaller of two counts.
pub open spec fn min_nat(a: int, b: int) -> int {
    if a < b { a } else { b }
}

/// Up to `n` characters of `t` from the 0-based `st`; empty when `st` is past the end.
pub open spec fn spec_mid(t: Seq<char>, st: int, n: int) -> Seq<char> {
    if st >= t.len() { Seq::<char>::empty() } else { t.subrange(st, st + min_nat(n, t.len() - st)) }
}

/// A 1-based position argument as a 0-based index: truncated toward zero and clamped; below 1 is
/// `#VALUE!`.
pub open spec fn spec_position_of<N: Number>(x: N) -> Result<usize, ErrKind> {
    let t = x.spec_trunc_int();
    if t < 1 { Err(ErrKind::Value) } else { Ok((clamp_usize(t as int) - 1) as usize) }
}

/// The 0-based start of a `FIND`/`SEARCH` scan: the optional third argument `x` (when the call has
/// one) as a position, which may not pass `hay_len`.
pub open spec fn spec_start_of<N: Number>(nargs: int, x: N, hay_len: int) -> Result<usize, ErrKind> {
    match (if nargs == 3 { spec_position_of(x) } else { Ok::<usize, ErrKind>(0) }) {
        Err(k) => Err(k),
        Ok(i) => if i > hay_len { Err(ErrKind::Value) } else { Ok(i) },
    }
}

/// A 1-based match position as a value: `#VALUE!` when `hit` holds nowhere at or after `from`,
/// else the position after the first index where it holds.
pub open spec fn first_hit<N: Number>(r: Value<N>, hit: spec_fn(int) -> bool, from: int) -> bool {
    &&& (forall|j: int| from <= j ==> !#[trigger] hit(j)) ==> r == Value::<N>::Error(ErrKind::Value)
    &&& forall|i: int| from <= i && #[trigger] hit(i) && (forall|j: int| from <= j < i ==> !#[trigger] hit(j))
        ==> r == Value::<N>::Number(N::spec_from_int(clamp_count(i + 1)))
}

/// `s` with `num` characters spliced out at the 0-based `start` (both clamped to the end) and
/// `new` inserted.
pub open spec fn spec_replace(s: Seq<char>, start: int, num: int, new: Seq<char>) -> Seq<char> {
    let st = min_nat(start, s.len() as int);
    let take = min_nat(num, s.len() - st);
    s.subrange(0, st) + new + s.subrange(st + take, s.len() as int)
}

/// The leftmost `n` characters of `s`, clamped to its length.
pub fn left_text(s: &str, n: usize) -> (r: String)
    ensures
        r@ == s@.subrange(0, min_nat(n as int, s@.len() as int)),
{
    let cs = chars_of(s);
    let take = if n < cs.len() { n } else { cs.len() };
    string_of_range(&cs, 0, take)
}

/// The rightmost `n` characters of `s`, clamped to its length.
pub fn right_text(s: &str, n: usize) -> (r: String)
    ensures
        r@ == s@.subrange(s@.len() - min_nat(n as int, s@.len() as int), s@.len() as int),
{
    let cs = chars_of(s);
    let take = if n < cs.len() { n } else { cs.len() };
    string_of_range(&cs, cs.len() - take, cs.len())
}

/// Up to `count` characters of `s` from the 0-based `start`; empty when `start` is past the end.
pub fn mid_text(s: &str, start: usize, count: usize) -> (r: String)
    ensures
        start >= s@.len() ==> r@ == Seq::<char>::empty(),
        start < s@.len() ==> r@ == s@.subrange(start as int, start + min_nat(count as int, s@.len() - start)),
{
    let cs = chars_of(s);
    if start >= cs.len() {
        return String::new();
    }
    let take = if count < cs.len() - start { count } else { cs.len() - start };
    string_of_range(&cs, start, start + take)
}

/// What [`left_fn`] is stated to give, for a context `ctx` and arguments `args`.
pub open spec fn left_fn_gives<'r, N: Number, R: Resolver<N>>(ctx: EvalCtx<'r, R>, args: Seq<Expr<N>>, r: Value<N>) -> bool {
    &&& r is Text || r is Error
    &&& room(ctx) ==> (lit_text(args[0]) matches Some(t) ==> (lit_arg(args, 1, N::spec_from_int(1)) matches Some(x)
        ==> match (if args.len() == 2 { spec_count_of(x) } else { Ok::<usize, ErrKind>(1) }) {
        Err(k) => r == Value::<N>::Error(k),
        Ok(n) => text_value(r, t.subrange(0, min_nat(n as int, t.len() as int))),
    }))
}

/// `LEFT(text, [num_chars])` — the leftmost `num_chars` (default 1) characters, clamped; a
/// negative count is `#VALUE!`.
pub fn left_fn<N: Number, R: Resolver<N>>(ctx: &mut EvalCtx<R>, args: &[Expr<N>]) -> (r: Value<N>)
    requires
        1 <= args.len() <= 2,
    ensures
        restored(*old(ctx), *final(ctx)),
        r is Text || r is Error,
        room(*old(ctx)) ==> (lit_text(args[0]) matches Some(t) ==> (lit_arg(args@, 1, N::spec_from_int(1)) matches Some(x)
            ==> match (if args@.len() == 2 { spec_count_of(x) } else { Ok::<usize, ErrKind>(1) }) {
            Err(k) => r == Value::<N>::Error(k),
            Ok(n) => text_value(r, t.subrange(0, min_nat(n as int, t.len() as int))),
        })),
    decreases args_size(args@), 7nat,
{
    proof {
        lemma_arg_size(args@, 0);
        if args.len() == 2 {
            lemma_arg_size(args@, 1);
        }
    }
    let s = match arg_text(ctx, &args[0]) {
        Ok(s) => s,
        Err(k) => {
            return Value::Error(k);
        },
    };
    let n = if args.len() == 2 {
        match count_arg(ctx, &args[1]) {
            Ok(n) => n,
            Err(k) => {
                return Value::Error(k);
            },
        }
    } else {
        1
    };
    Value::Text(left_text(s.as_str(), n))
}

/// What [`right_fn`] is stated to give, for a context `ctx` and arguments `args`.
pub open spec fn right_fn_gives<'r, N: Number, R: Resolver<N>>(ctx: EvalCtx<'r, R>, args: Seq<Expr<N>>, r: Value<N>) -> bool {
    &&& r is Text || r is Error
    &&& room(ctx) ==> (lit_text(args[0]) matches Some(t) ==> (lit_arg(args, 1, N::spec_from_int(1)) matches Some(x)
        ==> match (if args.len() == 2 { spec_count_of(x) } else { Ok::<usize, ErrKind>(1) }) {
        Err(k) => r == Value::<N>::Error(k),
        Ok(n) => text_value(r, t.subrange(t.len() - min_nat(n as int, t.len() as int), t.len() as int)),
    }))
}

/// `RIGHT(text, [num_chars])` — the rightmost `num_chars` (default 1) characters, clamped; a
/// negative count is `#VALUE!`.
pub fn right_fn<N: Number, R: Resolver<N>>(ctx: &mut EvalCtx<R>, args: &[Expr<N>]) -> (r: Value<N>)
    requires
        1 <= args.len() <= 2,
    ensures
        restored(*old(ctx), *final(ctx)),
        r is Text || r is Error,
        room(*old(ctx)) ==> (lit_text(args[0]) matches Some(t) ==> (lit_arg(args@, 1, N::spec_from_int(1)) matches Some(x)
            ==> match (if args@.len() == 2 { spec_count_of(x) } else { Ok::<usize, ErrKind>(1) }) {
            Err(k) => r == Value::<N>::Error(k),
            Ok(n) => text_value(r, t.subrange(t.len() - min_nat(n as int, t.len() as int), t.len() as int)),
        })),
    decreases args_size(args@), 7nat,
{
    proof {
        lemma_arg_size(args@, 0);
        if args.len() == 2 {
            lemma_arg_size(args@, 1);
        }
    }
    let s = match arg_text(ctx, &args[0]) {
        Ok(s) => s,
        Err(k) => {
            return Value::Error(k);
        },
    };
    let n = if args.len() == 2 {
        match count_arg(ctx, &args[1]) {
            Ok(n) => n,
            Err(k) => {
                return Value::Error(k);
            },
        }
    } else {
        1
    };
    Value::Text(right_text(s.as_str(), n))
}

/// Evaluate a 1-based position argument, truncated toward zero; below 1 is `#VALUE!`. Returns the
/// 0-based index.
fn position_arg<N: Number, R: Resolver<N>>(ctx: &mut EvalCtx<R>, e: &Expr<N>) -> (r: Result<usize, ErrKind>)
    ensures
        restored(*old(ctx), *final(ctx)),
        room(*old(ctx)) ==> (lit_num(*e) matches Some(x) ==> r == spec_position_of(x)),
    decreases crate::expr::expr_size(*e), 4nat,
{
    let t = one_num(ctx, e)?.trunc_int();
    if t < 1 {
        return Err(ErrKind::Value);
    }
    Ok(to_count(t) - 1)
}

/// What [`mid_fn`] is stated to give, for a context `ctx` and arguments `args`.
pub open spec fn mid_fn_gives<'r, N: Number, R: Resolver<N>>(ctx: EvalCtx<'r, R>, args: Seq<Expr<N>>, r: Value<N>) -> bool {
    &&& r is Text || r is Error
    &&& room(ctx) ==> (lit_text(args[0]) matches Some(t) ==> (lit_num(args[1]) matches Some(a) ==> (lit_num(args[2]) matches Some(c)
        ==> match spec_count_of(c) {
        Err(k) => r == Value::<N>::Error(k),
        Ok(n) => if a.spec_trunc_int() < 1 {
            r == Value::<N>::Error(ErrKind::Value)
        } else {
            text_value(r, spec_mid(t, clamp_usize(a.spec_trunc_int() as int) - 1, n as int))
        },
    })))
}

/// `MID(text, start_num, num_chars)` — up to `num_chars` characters from the 1-based `start_num`.
/// A `start_num < 1` or a negative count is `#VALUE!`; a start past the end yields `""`.
pub fn mid_fn<N: Number, R: Resolver<N>>(ctx: &mut EvalCtx<R>, args: &[Expr<N>]) -> (r: Value<N>)
    requires
        args.len() == 3,
    ensures
        restored(*old(ctx), *final(ctx)),
        r is Text || r is Error,
        room(*old(ctx)) ==> (lit_text(args[0]) matches Some(t) ==> (lit_num(args[1]) matches Some(a) ==> (lit_num(args[2]) matches Some(c)
            ==> match spec_count_of(c) {
            Err(k) => r == Value::<N>::Error(k),
            Ok(n) => if a.spec_trunc_int() < 1 {
                r == Value::<N>::Error(ErrKind::Value)
            } else {
                text_value(r, spec_mid(t, clamp_usize(a.spec_trunc_int() as int) - 1, n as int))
            },
        }))),
    decreases args_size(args@), 7nat,
{
    proof {
        lemma_arg_size(args@, 0);
        lemma_arg_size(args@, 1);
        lemma_arg_size(args@, 2);
    }
    let s = match arg_text(ctx, &args[0]) {
        Ok(s) => s,
        Err(k) => {
            return Value::Error(k);
        },
    };
    let start = match one_num(ctx, &args[1]) {
        Ok(x) => x.trunc_int(),
        Err(k) => {
            return Value::Error(k);
        },
    };
    let count = match count_arg(ctx, &args[2]) {
        Ok(n) => n,
        Err(k) => {
            return Value::Error(k);
        },
    };
    if start < 1 {
        return Value::Error(ErrKind::Value);
    }
    Value::Text(mid_text(s.as_str(), to_count(start) - 1, count))
}

/// What [`len_fn`] is stated to give, for a context `ctx` and arguments `args`.
pub open spec fn len_fn_gives<'r, N: Number, R: Resolver<N>>(ctx: EvalCtx<'r, R>, args: Seq<Expr<N>>, r: Value<N>) -> bool {
    &&& r is Number || r is Error
    &&& room(ctx) ==> match args[0] {
        Expr::Lit(Value::Text(t)) => r == Value::<N>::Number(N::spec_from_int(clamp_count(t@.len() as int))),
        Expr::Lit(Value::Error(k)) => r == Value::<N>::Error(k),
        _ => true,
    }
}

/// What [`len_fn`] is stated to give for the values its arguments evaluate to in `ctx`.
pub open spec fn len_fn_reads<'r, N: Number, R: Resolver<N>>(ctx: EvalCtx<'r, R>, args: Seq<Expr<N>>, r: Value<N>) -> bool {
    &&& text_arg_read(ctx, args[0], (|s: Seq<char>, r: Value<N>| r == Value::<N>::Number(N::spec_from_int(clamp_count(s.len() as int)))), r)
}

/// `LEN(text)` — the number of characters in the value's text form.
pub fn len_fn<N: Number, R: Resolver<N>>(ctx: &mut EvalCtx<R>, args: &[Expr<N>]) -> (r: Value<N>)
    requires
        args.len() == 1,
    ensures
        restored(*old(ctx), *final(ctx)),
        r is Number || r is Error,
        room(*old(ctx)) ==> match args[0] {
            Expr::Lit(Value::Text(t)) => r == Value::<N>::Number(N::spec_from_int(clamp_count(t@.len() as int))),
            Expr::Lit(Value::Error(k)) => r == Value::<N>::Error(k),
            _ => true,
        },
        text_arg_read(*old(ctx), args@[0], (|s: Seq<char>, r: Value<N>| r == Value::<N>::Number(N::spec_from_int(clamp_count(s.len() as int)))), r),
    decreases args_size(args@), 7nat,
{
    proof {
        lemma_arg_size(args@, 0);
    }
    match arg_text(ctx, &args[0]) {
        Ok(s) => count_value(s.unicode_len() as u64),
        Err(k) => Value::Error(k),
    }
}

/// Resolve the optional `start_num` of `FIND`/`SEARCH` (default 1) to a 0-based index: below 1, or
/// past `hay_len + 1`, is `#VALUE!`.
fn find_start<N: Number, R: Resolver<N>>(ctx: &mut EvalCtx<R>, args: &[Expr<N>], hay_len: usize) -> (r: Result<usize, ErrKind>)
    requires
        2 <= args.len() <= 3,
    ensures
        restored(*old(ctx), *final(ctx)),
        r matches Ok(i) ==> i <= hay_len,
        args.len() == 2 ==> r == Ok::<usize, ErrKind>(0),
        room(*old(ctx)) ==> (lit_arg(args@, 2, N::spec_from_int(1)) matches Some(x) ==> r == spec_start_of(args@.len() as int, x, hay_len as int)),
    decreases args_size(args@), 5nat,
{
    let idx = if args.len() == 3 {
        proof {
            lemma_arg_size(args@, 2);
        }
        position_arg(ctx, &args[2])?
    } else {
        0
    };
    if idx > hay_len {
        return Err(ErrKind::Value);
    }
    Ok(idx)
}

/// Whether `needle` occurs verbatim in `hay` at `i`.
pub open spec fn occurs_at(hay: Seq<char>, needle: Seq<char>, i: int) -> bool {
    0 <= i && i + needle.len() <= hay.len() && hay.subrange(i, i + needle.len()) == needle
}

/// The first index at or after `from` where `needle` occurs verbatim in `hay`; an empty needle
/// occurs at `from` when `from <= hay.len()`.
pub fn find_sub(hay: &Vec<char>, needle: &Vec<char>, from: usize) -> (r: Option<usize>)
    ensures
        r matches Some(i) ==> from <= i && occurs_at(hay@, needle@, i as int)
            && forall|j: int| from <= j < i ==> !occurs_at(hay@, needle@, j),
        r is None ==> forall|j: int| from <= j ==> !occurs_at(hay@, needle@, j),
{
    if needle.len() == 0 {
        if from <= hay.len() {
            assert(hay@.subrange(from as int, from as int) =~= needle@);
            return Some(from);
        }
        return None;
    }
    if needle.len() > hay.len() {
        return None;
    }
    let last = hay.len() - needle.len();
    let mut i = from;
    while i <= last
        invariant
            last == hay.len() - needle.len(),
            from <= i,
            forall|j: int| from <= j < i ==> !occurs_at(hay@, needle@, j),
        decreases last + 1 - i,
    {
        let mut k: usize = 0;
        while k < needle.len() && hay[i + k] == needle[k]
            invariant
                i <= last,
                last == hay.len() - needle.len(),
                k <= needle.len(),
                forall|m: int| 0 <= m < k ==> hay@[i + m] == needle@[m],
            decreases needle.len() - k,
        {
            k = k + 1;
        }
        if k == needle.len() {
            assert(hay@.subrange(i as int, i + needle.len()) =~= needle@);
            return Some(i);
        }
        assert(hay@.subrange(i as int, i + needle.len())[k as int] != needle@[k as int]);
        i = i + 1;
    }
    proof {
        r_none_beyond(hay@, needle@, from as int, i as int);
    }
    None
}

proof fn r_none_beyond(hay: Seq<char>, needle: Seq<char>, from: int, i: int)
    requires
        i + needle.len() > hay.len(),
        forall|j: int| from <= j < i ==> !occurs_at(hay, needle, j),
    ensures
        forall|j: int| from <= j ==> !occurs_at(hay, needle, j),
{
}

/// What [`find_fn`] is stated to give, for a context `ctx` and arguments `args`.
pub open spec fn find_fn_gives<'r, N: Number, R: Resolver<N>>(ctx: EvalCtx<'r, R>, args: Seq<Expr<N>>, r: Value<N>) -> bool {
    &&& r is Number || r is Error
    &&& room(ctx) ==> (lit_text(args[0]) matches Some(nd) ==> (lit_text(args[1]) matches Some(h)
        ==> (lit_arg(args, 2, N::spec_from_int(1)) matches Some(x) ==> match spec_start_of(args.len() as int, x, h.len() as int) {
        Err(k) => r == Value::<N>::Error(k),
        Ok(from) => first_hit(r, |i: int| occurs_at(h, nd, i), from as int),
    })))
}

/// `FIND(find_text, within_text, [start_num])` — the 1-based position of the first case-sensitive
/// occurrence at or after `start_num`; a miss is `#VALUE!`; an empty `find_text` returns
/// `start_num`.
pub fn find_fn<N: Number, R: Resolver<N>>(ctx: &mut EvalCtx<R>, args: &[Expr<N>]) -> (r: Value<N>)
    requires
        2 <= args.len() <= 3,
    ensures
        restored(*old(ctx), *final(ctx)),
        r is Number || r is Error,
        room(*old(ctx)) ==> (lit_text(args[0]) matches Some(nd) ==> (lit_text(args[1]) matches Some(h)
            ==> (lit_arg(args@, 2, N::spec_from_int(1)) matches Some(x) ==> match spec_start_of(args@.len() as int, x, h.len() as int) {
            Err(k) => r == Value::<N>::Error(k),
            Ok(from) => first_hit(r, |i: int| occurs_at(h, nd, i), from as int),
        }))),
    decreases args_size(args@), 7nat,
{
    proof {
        lemma_arg_size(args@, 0);
        lemma_arg_size(args@, 1);
    }
    let needle = match arg_text(ctx, &args[0]) {
        Ok(s) => s,
        Err(k) => {
            return Value::Error(k);
        },
    };
    let hay = match arg_text(ctx, &args[1]) {
        Ok(s) => s,
        Err(k) => {
            return Value::Error(k);
        },
    };
    let hay_chars = chars_of(hay.as_str());
    let start_idx = match find_start(ctx, args, hay_chars.len()) {
        Ok(i) => i,
        Err(k) => {
            return Value::Error(k);
        },
    };
    let needle_chars = chars_of(needle.as_str());
    proof {
        if room(*old(ctx)) && lit_text(args[0]) is Some && lit_text(args[1]) is Some && lit_arg(args@, 2, N::spec_from_int(1)) is Some {
            assert(hay_chars@ == lit_text(args[1])->0);
            assert(needle_chars@ == lit_text(args[0])->0);
            assert(spec_start_of(args@.len() as int, lit_arg(args@, 2, N::spec_from_int(1))->0, hay_chars@.len() as int) == Ok::<usize, ErrKind>(start_idx));
        }
    }
    match find_sub(&hay_chars, &needle_chars, start_idx) {
        Some(i) => {
            proof {
                let hs = hay_chars@;
                let ns = needle_chars@;
                let hit = |k: int| occurs_at(hs, ns, k);
                assert forall|i2: int| start_idx <= i2 && #[trigger] hit(i2) && (forall|j: int| start_idx <= j < i2 ==> !#[trigger] hit(j)) implies i2 == i by {
                    if i2 > i {
                        assert(!hit(i as int));
                    }
                }
                assert(hit(i as int));
            }
            count_value((i as u64).saturating_add(1))
        },
        None => {
            proof {
                let hit = |k: int| occurs_at(hay_chars@, needle_chars@, k);
                assert forall|j: int| start_idx <= j implies !#[trigger] hit(j) by {
                    assert(!occurs_at(hay_chars@, needle_chars@, j));
                }
            }
            Value::Error(ErrKind::Value)
        },
    }
}

/// Whether the tokens match a prefix of the text — the greedy single-star-backtrack matcher, whose
/// work is bounded by `text.len() · toks.len()`.
pub fn prefix_tokens(toks: &Vec<Tok>, t: &Vec<char>) -> (r: bool)
    ensures
        r == wild(toks@, t@, false),
{
    let ghost T = toks@;
    let ghost S = t@;
    let n = t.len();
    let mut ti: usize = 0;
    let mut pi: usize = 0;
    let mut star: Option<usize> = None;
    let mut star_ti: usize = 0;
    assert(T.subrange(0, T.len() as int) =~= T);
    assert(S.subrange(0, S.len() as int) =~= S);
    while pi < toks.len()
        invariant
            T == toks@,
            S == t@,
            n == t.len(),
            ti <= n,
            pi <= toks.len(),
            star_ti <= ti,
            star is None ==> wild(T, S, false) == wild_at(T, S, false, pi as int, ti as int),
            star matches Some(s) ==> {
                &&& s < pi
                &&& T[s as int] == Tok::Star
                &&& forall|j: int| s + 1 <= j < pi ==> T[j] != Tok::Star
                &&& pi - (s + 1) == ti - star_ti
                &&& seg_ok(T, S, s + 1, pi as int, star_ti as int)
                &&& wild(T, S, false) == exists|k: int| star_ti <= k <= n && #[trigger] wild_at(T, S, false, s + 1, k)
            },
        decreases n - star_ti, n - ti, toks.len() - pi,
    {
        proof {
            lemma_wild_unfold(T, S, false, pi as int, ti as int);
        }
        let step = match toks[pi] {
            Tok::Star => 2u8,
            Tok::Any => if ti < n { 1u8 } else { 0u8 },
            Tok::Lit(c) => if ti < n && t[ti] == c { 1u8 } else { 0u8 },
        };
        if step == 1 {
            proof {
                if let Some(s) = star {
                    lemma_seg_bound(T, S, s + 1, pi as int, star_ti as int);
                    lemma_seg_extend(T, S, s + 1, pi as int, star_ti as int);
                }
            }
            pi = pi + 1;
            ti = ti + 1;
        } else if step == 2 {
            proof {
                lemma_wild_star(T, S, false, pi as int, ti as int);
                if let Some(s) = star {
                    let ghost L = pi - (s + 1);
                    lemma_wild_seg(T, S, false, s + 1, pi as int, star_ti as int);
                    if wild(T, S, false) {
                        let k = choose|k: int| star_ti <= k <= n && #[trigger] wild_at(T, S, false, s + 1, k);
                        lemma_wild_seg(T, S, false, s + 1, pi as int, k);
                        lemma_seg_bound(T, S, s + 1, pi as int, k);
                        lemma_wild_star(T, S, false, pi as int, k + L);
                        let k2 = choose|k2: int| k + L <= k2 <= n && #[trigger] wild_at(T, S, false, pi + 1, k2);
                        assert(ti <= k2 <= n && wild_at(T, S, false, pi + 1, k2));
                    }
                    if exists|k: int| ti <= k <= n && #[trigger] wild_at(T, S, false, pi + 1, k) {
                        assert(wild_at(T, S, false, pi as int, ti as int));
                        assert(star_ti <= star_ti <= n && wild_at(T, S, false, s + 1, star_ti as int));
                    }
                }
            }
            star = Some(pi);
            star_ti = ti;
            pi = pi + 1;
        } else {
            match star {
                Some(sp) => {
                    if star_ti < n {
                        proof {
                            lemma_wild_seg(T, S, false, sp + 1, pi as int, star_ti as int);
                            assert(!wild_at(T, S, false, sp + 1, star_ti as int));
                            if wild(T, S, false) {
                                let k = choose|k: int| star_ti <= k <= n && #[trigger] wild_at(T, S, false, sp + 1, k);
                                assert(k != star_ti);
                                assert(star_ti + 1 <= k <= n && wild_at(T, S, false, sp + 1, k));
                            }
                            if exists|k: int| star_ti + 1 <= k <= n && #[trigger] wild_at(T, S, false, sp + 1, k) {
                                let k = choose|k: int| star_ti + 1 <= k <= n && #[trigger] wild_at(T, S, false, sp + 1, k);
                                assert(star_ti <= k <= n && wild_at(T, S, false, sp + 1, k));
                            }
                        }
                        star_ti = star_ti + 1;
                        ti = star_ti;
                        pi = sp + 1;
                    } else {
                        proof {
                            lemma_wild_seg(T, S, false, sp + 1, pi as int, star_ti as int);
                            if wild(T, S, false) {
                                let k = choose|k: int| star_ti <= k <= n && #[trigger] wild_at(T, S, false, sp + 1, k);
                                assert(k == n);
                            }
                        }
                        return false;
                    }
                },
                None => {
                    return false;
                },
            }
        }
    }
    proof {
        lemma_wild_unfold(T, S, false, pi as int, ti as int);
        if let Some(s) = star {
            lemma_wild_seg(T, S, false, s + 1, pi as int, star_ti as int);
            assert(star_ti <= star_ti <= n && wild_at(T, S, false, s + 1, star_ti as int));
        }
    }
    true
}

/// The first 0-based position at or after `from` where the tokens match a prefix of `text`.
pub fn search_tokens(toks: &Vec<Tok>, text: &Vec<char>, from: usize) -> (r: Option<usize>)
    ensures
        r matches Some(p) ==> from <= p <= text@.len() && wild(toks@, text@.subrange(p as int, text@.len() as int), false)
            && forall|q: int| from <= q < p ==> !wild(toks@, #[trigger] text@.subrange(q, text@.len() as int), false),
        r is None ==> forall|q: int| from <= q <= text@.len() ==> !wild(toks@, #[trigger] text@.subrange(q, text@.len() as int), false),
{
    let mut p = from;
    while p <= text.len()
        invariant
            from <= p,
            forall|q: int| from <= q < p ==> !wild(toks@, #[trigger] text@.subrange(q, text@.len() as int), false),
        decreases text.len() + 1 - p,
    {
        let sub = tail_of(text, p);
        if prefix_tokens(toks, &sub) {
            return Some(p);
        }
        if p == text.len() {
            return None;
        }
        p = p + 1;
    }
    None
}

/// The characters of `v` from `p` on.
fn tail_of(v: &Vec<char>, p: usize) -> (r: Vec<char>)
    requires
        p <= v.len(),
    ensures
        r@ == v@.subrange(p as int, v@.len() as int),
{
    let mut r: Vec<char> = Vec::new();
    let mut i = p;
    while i < v.len()
        invariant
            p <= i <= v.len(),
            r@ == v@.subrange(p as int, i as int),
        decreases v.len() - i,
    {
        r.push(v[i]);
        assert(r@ =~= v@.subrange(p as int, i + 1));
        i = i + 1;
    }
    r
}

/// What [`search_fn`] is stated to give, for a context `ctx` and arguments `args`.
pub open spec fn search_fn_gives<'r, N: Number, R: Resolver<N>>(ctx: EvalCtx<'r, R>, args: Seq<Expr<N>>, r: Value<N>) -> bool {
    &&& r is Number || r is Error
    &&& room(ctx) ==> (lit_text(args[0]) matches Some(pat) ==> (lit_text(args[1]) matches Some(h)
        ==> (lit_arg(args, 2, N::spec_from_int(1)) matches Some(x) ==> match spec_start_of(args.len() as int, x, h.len() as int) {
        Err(k) => r == Value::<N>::Error(k),
        Ok(from) => first_hit(r, |p: int| p <= h.len() && wild(spec_parse_wild(lower_seq(pat)), lower_seq(h).subrange(p, h.len() as int), false), from as int),
    })))
}

/// `SEARCH(find_text, within_text, [start_num])` — like `FIND` but ASCII case-insensitive and
/// honouring `?`/`*` with `~` escaping; returns the 1-based start of the first match, a miss is
/// `#VALUE!`.
pub fn search_fn<N: Number, R: Resolver<N>>(ctx: &mut EvalCtx<R>, args: &[Expr<N>]) -> (r: Value<N>)
    requires
        2 <= args.len() <= 3,
    ensures
        restored(*old(ctx), *final(ctx)),
        r is Number || r is Error,
        room(*old(ctx)) ==> (lit_text(args[0]) matches Some(pat) ==> (lit_text(args[1]) matches Some(h)
            ==> (lit_arg(args@, 2, N::spec_from_int(1)) matches Some(x) ==> match spec_start_of(args@.len() as int, x, h.len() as int) {
            Err(k) => r == Value::<N>::Error(k),
            Ok(from) => first_hit(r, |p: int| p <= h.len() && wild(spec_parse_wild(lower_seq(pat)), lower_seq(h).subrange(p, h.len() as int), false), from as int),
        }))),
    decreases args_size(args@), 7nat,
{
    proof {
        lemma_arg_size(args@, 0);
        lemma_arg_size(args@, 1);
    }
    let pattern = match arg_text(ctx, &args[0]) {
        Ok(s) => s,
        Err(k) => {
            return Value::Error(k);
        },
    };
    let hay = match arg_text(ctx, &args[1]) {
        Ok(s) => s,
        Err(k) => {
            return Value::Error(k);
        },
    };
    let hay_chars = lower_chars(&chars_of(hay.as_str()));
    let start_idx = match find_start(ctx, args, hay_chars.len()) {
        Ok(i) => i,
        Err(k) => {
            return Value::Error(k);
        },
    };
    let toks = parse_wild(&lower_chars(&chars_of(pattern.as_str())));
    proof {
        if room(*old(ctx)) && lit_text(args[0]) is Some && lit_text(args[1]) is Some && lit_arg(args@, 2, N::spec_from_int(1)) is Some {
            assert(hay_chars@ == lower_seq(lit_text(args[1])->0));
            assert(toks@ == spec_parse_wild(lower_seq(lit_text(args[0])->0)));
        }
    }
    match search_tokens(&toks, &hay_chars, start_idx) {
        Some(p) => {
            proof {
                let hs = hay_chars@;
                let hit = |q: int| q <= hs.len() && wild(toks@, hs.subrange(q, hs.len() as int), false);
                assert forall|i2: int| start_idx <= i2 && #[trigger] hit(i2) && (forall|j: int| start_idx <= j < i2 ==> !#[trigger] hit(j)) implies i2 == p by {
                    if i2 > p {
                        assert(!hit(p as int));
                    }
                }
                assert(hit(p as int));
            }
            count_value((p as u64).saturating_add(1))
        },
        None => {
            proof {
                let hs = hay_chars@;
                let hit = |q: int| q <= hs.len() && wild(toks@, hs.subrange(q, hs.len() as int), false);
                assert forall|j: int| start_idx <= j implies !#[trigger] hit(j) by {
                    if j <= hs.len() {
                        assert(!wild(toks@, hs.subrange(j, hs.len() as int), false));
                    }
                }
            }
            Value::Error(ErrKind::Value)
        },
    }
}

/// `text` with every non-overlapping occurrence of the non-empty `old` replaced by `new`, scanning
/// left to right.
pub open spec fn replace_all(s: Seq<char>, old: Seq<char>, new: Seq<char>) -> Seq<char>
    decreases s.len(),
{
    if s.len() == 0 || old.len() == 0 {
        s
    } else if old.len() <= s.len() && s.subrange(0, old.len() as int) == old {
        new + replace_all(s.subrange(old.len() as int, s.len() as int), old, new)
    } else {
        seq![s[0]] + replace_all(s.drop_first(), old, new)
    }
}

/// `text` with the `n`th (1-based) non-overlapping occurrence of the non-empty `old` replaced by
/// `new`, unchanged when there are fewer occurrences.
pub open spec fn replace_nth(s: Seq<char>, old: Seq<char>, new: Seq<char>, n: nat) -> Seq<char>
    decreases s.len(),
{
    if s.len() == 0 || old.len() == 0 || n == 0 {
        s
    } else if old.len() <= s.len() && s.subrange(0, old.len() as int) == old {
        if n == 1 {
            new + s.subrange(old.len() as int, s.len() as int)
        } else {
            old + replace_nth(s.subrange(old.len() as int, s.len() as int), old, new, (n - 1) as nat)
        }
    } else {
        seq![s[0]] + replace_nth(s.drop_first(), old, new, n)
    }
}

/// How many non-overlapping occurrences of `old` a left-to-right scan of `s` meets (none for an
/// empty `old`).
pub open spec fn occurrences(s: Seq<char>, old: Seq<char>) -> nat
    decreases s.len(),
{
    if s.len() == 0 || old.len() == 0 {
        0
    } else if old.len() <= s.len() && s.subrange(0, old.len() as int) == old {
        1 + occurrences(s.subrange(old.len() as int, s.len() as int), old)
    } else {
        occurrences(s.drop_first(), old)
    }
}

/// Asking to replace an occurrence beyond the last one leaves the text unchanged.
pub proof fn law_replace_nth_beyond_count(s: Seq<char>, old: Seq<char>, new: Seq<char>, n: nat)
    requires
        n > occurrences(s, old),
    ensures
        replace_nth(s, old, new, n) == s,
    decreases s.len(),
{
    if s.len() == 0 || old.len() == 0 || n == 0 {
    } else if old.len() <= s.len() && s.subrange(0, old.len() as int) == old {
        let rest = s.subrange(old.len() as int, s.len() as int);
        law_replace_nth_beyond_count(rest, old, new, (n - 1) as nat);
        assert(old + rest =~= s);
    } else {
        law_replace_nth_beyond_count(s.drop_first(), old, new, n);
        assert(seq![s[0]] + s.drop_first() =~= s);
    }
}

/// Whether `old` occurs at `i` in `s`.
fn starts_at(s: &Vec<char>, old: &Vec<char>, i: usize) -> (r: bool)
    requires
        i <= s.len(),
    ensures
        r == (old@.len() <= s@.len() - i && s@.subrange(i as int, s@.len() as int).subrange(0, old@.len() as int) == old@),
{
    if old.len() > s.len() - i {
        return false;
    }
    let mut k: usize = 0;
    while k < old.len()
        invariant
            old.len() <= s.len() - i,
            k <= old.len(),
            forall|m: int| 0 <= m < k ==> s@[i + m] == old@[m],
        decreases old.len() - k,
    {
        if s[i + k] != old[k] {
            assert(s@.subrange(i as int, s@.len() as int).subrange(0, old@.len() as int)[k as int] != old@[k as int]);
            return false;
        }
        k = k + 1;
    }
    assert(s@.subrange(i as int, s@.len() as int).subrange(0, old@.len() as int) =~= old@);
    true
}

/// Append every character of `piece` to `out`.
fn append_chars(out: &mut Vec<char>, piece: &Vec<char>)
    ensures
        final(out)@ == old(out)@ + piece@,
{
    let ghost before = out@;
    let mut k: usize = 0;
    while k < piece.len()
        invariant
            k <= piece.len(),
            out@ == before + piece@.subrange(0, k as int),
        decreases piece.len() - k,
    {
        out.push(piece[k]);
        assert(out@ =~= before + piece@.subrange(0, k + 1));
        k = k + 1;
    }
    assert(piece@.subrange(0, piece@.len() as int) =~= piece@);
}

/// Replace the `n`th occurrence (`Some(n)`, `n >= 1`) or every occurrence (`None`) of the non-empty
/// `old` in `s` by `new`.
pub fn substitute_text(s: &Vec<char>, old: &Vec<char>, new: &Vec<char>, nth: Option<usize>) -> (r: Vec<char>)
    requires
        old@.len() > 0,
        nth matches Some(n) ==> n >= 1,
    ensures
        nth is None ==> r@ == replace_all(s@, old@, new@),
        nth matches Some(n) ==> r@ == replace_nth(s@, old@, new@, n as nat),
{
    let mut out: Vec<char> = Vec::new();
    let mut i: usize = 0;
    let mut remaining: usize = match nth {
        Some(n) => n,
        None => 0,
    };
    let mut done = false;
    proof {
        assert(s@.subrange(0, s@.len() as int) =~= s@);
        assert(out@ + s@ =~= s@);
        assert(out@ + replace_all(s@, old@, new@) =~= replace_all(s@, old@, new@));
        assert(out@ + replace_nth(s@, old@, new@, remaining as nat) =~= replace_nth(s@, old@, new@, remaining as nat));
    }
    while i < s.len()
        invariant
            i <= s.len(),
            old@.len() > 0,
            !done ==> nth is None ==> replace_all(s@, old@, new@) == out@ + replace_all(s@.subrange(i as int, s@.len() as int), old@, new@),
            !done ==> nth is Some ==> remaining >= 1 && replace_nth(s@, old@, new@, nth->0 as nat) == out@ + replace_nth(s@.subrange(i as int, s@.len() as int), old@, new@, remaining as nat),
            done ==> nth is Some && replace_nth(s@, old@, new@, nth->0 as nat) == out@ + s@.subrange(i as int, s@.len() as int),
        decreases s.len() - i,
    {
        let ghost rest = s@.subrange(i as int, s@.len() as int);
        let ghost before = out@;
        let ghost rem0 = remaining;
        if !done && starts_at(s, old, i) {
            proof {
                assert(rest.subrange(old@.len() as int, rest.len() as int) =~= s@.subrange(i + old@.len(), s@.len() as int));
            }
            let replace_here = match nth {
                None => true,
                Some(_) => remaining == 1,
            };
            let piece = if replace_here { new } else { old };
            append_chars(&mut out, piece);
            if nth.is_some() {
                if remaining == 1 {
                    done = true;
                } else {
                    remaining = remaining - 1;
                }
            }
            i = i + old.len();
            proof {
                let sub = s@.subrange(i as int, s@.len() as int);
                assert(rest.subrange(old@.len() as int, rest.len() as int) == sub);
                assert(out@ == before + piece@);
                if nth is None {
                    assert(replace_all(rest, old@, new@) == new@ + replace_all(sub, old@, new@));
                    assert(out@ + replace_all(sub, old@, new@) =~= before + replace_all(rest, old@, new@));
                } else if done {
                    assert(rem0 == 1);
                    assert(replace_nth(rest, old@, new@, 1) == new@ + sub);
                    assert(out@ + sub =~= before + replace_nth(rest, old@, new@, 1));
                } else {
                    assert(rem0 > 1 && remaining == rem0 - 1);
                    assert(replace_nth(rest, old@, new@, rem0 as nat) == old@ + replace_nth(sub, old@, new@, remaining as nat));
                    assert(out@ + replace_nth(sub, old@, new@, remaining as nat) =~= before + replace_nth(rest, old@, new@, rem0 as nat));
                }
            }
        } else {
            proof {
                if !done {
                    assert(rest.drop_first() =~= s@.subrange(i + 1, s@.len() as int));
                    assert(rest[0] == s@[i as int]);
                }
            }
            out.push(s[i]);
            i = i + 1;
            proof {
                if !done {
                    assert(out@ + replace_all(s@.subrange(i as int, s@.len() as int), old@, new@) =~= before + replace_all(rest, old@, new@));
                    assert(out@ + replace_nth(s@.subrange(i as int, s@.len() as int), old@, new@, remaining as nat) =~= before + replace_nth(rest, old@, new@, remaining as nat));
                } else {
                    assert(out@ + s@.subrange(i as int, s@.len() as int) =~= before + rest);
                }
            }
        }
    }
    proof {
        assert(s@.subrange(i as int, s@.len() as int) =~= Seq::<char>::empty());
        assert(out@ + Seq::<char>::empty() =~= out@);
    }
    out
}

/// What [`substitute_fn`] is stated to give, for a context `ctx` and arguments `args`.
pub open spec fn substitute_fn_gives<'r, N: Number, R: Resolver<N>>(ctx: EvalCtx<'r, R>, args: Seq<Expr<N>>, r: Value<N>) -> bool {
    &&& r is Text || r is Error
    &&& room(ctx) ==> (lit_text(args[0]) matches Some(t) ==> (lit_text(args[1]) matches Some(o) ==> (lit_text(args[2]) matches Some(nw)
        ==> (lit_arg(args, 3, N::spec_from_int(1)) matches Some(x) ==> if o.len() == 0 {
        text_value(r, t)
    } else if args.len() == 3 {
        text_value(r, replace_all(t, o, nw))
    } else if x.spec_trunc_int() < 1 {
        r == Value::<N>::Error(ErrKind::Value)
    } else {
        text_value(r, replace_nth(t, o, nw, clamp_usize(x.spec_trunc_int() as int) as nat))
    }))))
}

/// What [`substitute_fn`] is stated to give for the values its arguments evaluate to in `ctx`.
pub open spec fn substitute_fn_reads<'r, N: Number, R: Resolver<N>>(ctx: EvalCtx<'r, R>, args: Seq<Expr<N>>, r: Value<N>) -> bool {
    &&& exists|a: Result<Seq<char>, ErrKind>| #[trigger] text_read(ctx, args[0], a) && match a {
        Err(k) => r == Value::<N>::Error(k),
        Ok(t) => exists|b: Result<Seq<char>, ErrKind>| #[trigger] text_read(ctx, args[1], b) && match b {
            Err(k) => r == Value::<N>::Error(k),
            Ok(o) => exists|c: Result<Seq<char>, ErrKind>| #[trigger] text_read(ctx, args[2], c) && match c {
                Err(k) => r == Value::<N>::Error(k),
                Ok(nw) => if o.len() == 0 {
                    text_value(r, t)
                } else if args.len() == 3 {
                    text_value(r, replace_all(t, o, nw))
                } else {
                    exists|d: Result<N, ErrKind>| #[trigger] num_read(ctx, args[3], d) && match d {
                        Err(k) => r == Value::<N>::Error(k),
                        Ok(x) => if x.spec_trunc_int() < 1 {
                            r == Value::<N>::Error(ErrKind::Value)
                        } else {
                            text_value(r, replace_nth(t, o, nw, clamp_usize(x.spec_trunc_int() as int) as nat))
                        },
                    }
                },
            },
        },
    }
}

/// `SUBSTITUTE(text, old_text, new_text, [instance_num])` — replace the `instance_num`th or every
/// non-overlapping case-sensitive occurrence of `old_text`. An empty `old_text` returns `text`;
/// `instance_num < 1` is `#VALUE!`.
pub fn substitute_fn<N: Number, R: Resolver<N>>(ctx: &mut EvalCtx<R>, args: &[Expr<N>]) -> (r: Value<N>)
    requires
        3 <= args.len() <= 4,
    ensures
        restored(*old(ctx), *final(ctx)),
        r is Text || r is Error,
        room(*old(ctx)) ==> (lit_text(args[0]) matches Some(t) ==> (lit_text(args[1]) matches Some(o) ==> (lit_text(args[2]) matches Some(nw)
            ==> (lit_arg(args@, 3, N::spec_from_int(1)) matches Some(x) ==> if o.len() == 0 {
            text_value(r, t)
        } else if args@.len() == 3 {
            text_value(r, replace_all(t, o, nw))
        } else if x.spec_trunc_int() < 1 {
            r == Value::<N>::Error(ErrKind::Value)
        } else {
            text_value(r, replace_nth(t, o, nw, clamp_usize(x.spec_trunc_int() as int) as nat))
        })))),
        exists|a: Result<Seq<char>, ErrKind>| #[trigger] text_read(*old(ctx), args@[0], a) && match a {
            Err(k) => r == Value::<N>::Error(k),
            Ok(t) => exists|b: Result<Seq<char>, ErrKind>| #[trigger] text_read(*old(ctx), args@[1], b) && match b {
                Err(k) => r == Value::<N>::Error(k),
                Ok(o) => exists|c: Result<Seq<char>, ErrKind>| #[trigger] text_read(*old(ctx), args@[2], c) && match c {
                    Err(k) => r == Value::<N>::Error(k),
                    Ok(nw) => if o.len() == 0 {
                        text_value(r, t)
                    } else if args@.len() == 3 {
                        text_value(r, replace_all(t, o, nw))
                    } else {
                        exists|d: Result<N, ErrKind>| #[trigger] num_read(*old(ctx), args@[3], d) && match d {
                            Err(k) => r == Value::<N>::Error(k),
                            Ok(x) => if x.spec_trunc_int() < 1 {
                                r == Value::<N>::Error(ErrKind::Value)
                            } else {
                                text_value(r, replace_nth(t, o, nw, clamp_usize(x.spec_trunc_int() as int) as nat))
                            },
                        }
                    },
                },
            },
        },
    decreases args_size(args@), 7nat,
{
    proof {
        lemma_arg_size(args@, 0);
        lemma_arg_size(args@, 1);
        lemma_arg_size(args@, 2);
        if args.len() == 4 {
            lemma_arg_size(args@, 3);
        }
    }
    let ra = arg_text(ctx, &args[0]);
    proof {
        assert(text_read(*old(ctx), args@[0], text_res(ra)));
    }
    let text = match ra {
        Ok(s) => s,
        Err(k) => {
            return Value::Error(k);
        },
    };
    proof {
        lemma_restored_same(*old(ctx), *ctx);
    }
    let rb = arg_text(ctx, &args[1]);
    proof {
        assert(text_read(*old(ctx), args@[1], text_res(rb)));
    }
    let from = match rb {
        Ok(s) => s,
        Err(k) => {
            return Value::Error(k);
        },
    };
    proof {
        lemma_restored_same(*old(ctx), *ctx);
    }
    let rc = arg_text(ctx, &args[2]);
    proof {
        assert(text_read(*old(ctx), args@[2], text_res(rc)));
    }
    let new = match rc {
        Ok(s) => s,
        Err(k) => {
            return Value::Error(k);
        },
    };
    let old_chars = chars_of(from.as_str());
    if old_chars.len() == 0 {
        return Value::Text(text);
    }
    proof {
        lemma_restored_same(*old(ctx), *ctx);
    }
    let nth = if args.len() == 4 {
        let rd = one_num(ctx, &args[3]);
        proof {
            assert(num_read(*old(ctx), args@[3], rd));
        }
        match rd {
            Ok(x) => {
                let t = x.trunc_int();
                if t < 1 {
                    return Value::Error(ErrKind::Value);
                }
                Some(to_count(t))
            },
            Err(k) => {
                return Value::Error(k);
            },
        }
    } else {
        None
    };
    let out = substitute_text(&chars_of(text.as_str()), &old_chars, &chars_of(new.as_str()), nth);
    Value::Text(string_of(&out))
}

/// `s` with `take` characters spliced out at `start` (clamped to the end) and `new` inserted.
pub fn replace_text(s: &str, start: usize, num: usize, new: &str) -> (r: String)
    ensures
        ({
            let st = min_nat(start as int, s@.len() as int);
            let take = min_nat(num as int, s@.len() - st);
            r@ == s@.subrange(0, st) + new@ + s@.subrange(st + take, s@.len() as int)
        }),
{
    let cs = chars_of(s);
    let st = if start < cs.len() { start } else { cs.len() };
    let take = if num < cs.len() - st { num } else { cs.len() - st };
    let mut out = string_of_range(&cs, 0, st);
    out.append(new);
    let tail = string_of_range(&cs, st + take, cs.len());
    out.append(tail.as_str());
    out
}

/// What [`replace_fn`] is stated to give, for a context `ctx` and arguments `args`.
pub open spec fn replace_fn_gives<'r, N: Number, R: Resolver<N>>(ctx: EvalCtx<'r, R>, args: Seq<Expr<N>>, r: Value<N>) -> bool {
    &&& r is Text || r is Error
    &&& room(ctx) ==> (lit_text(args[0]) matches Some(t) ==> (lit_num(args[1]) matches Some(a) ==> (lit_num(args[2]) matches Some(c)
        ==> (lit_text(args[3]) matches Some(nw) ==> match spec_count_of(c) {
        Err(k) => r == Value::<N>::Error(k),
        Ok(n) => if a.spec_trunc_int() < 1 {
            r == Value::<N>::Error(ErrKind::Value)
        } else {
            text_value(r, spec_replace(t, clamp_usize(a.spec_trunc_int() as int) - 1, n as int, nw))
        },
    }))))
}

/// `REPLACE(old_text, start_num, num_chars, new_text)` — splice out `num_chars` characters from
/// the 1-based `start_num` and insert `new_text`; `start_num < 1` or a negative count is `#VALUE!`.
pub fn replace_fn<N: Number, R: Resolver<N>>(ctx: &mut EvalCtx<R>, args: &[Expr<N>]) -> (r: Value<N>)
    requires
        args.len() == 4,
    ensures
        restored(*old(ctx), *final(ctx)),
        r is Text || r is Error,
        room(*old(ctx)) ==> (lit_text(args[0]) matches Some(t) ==> (lit_num(args[1]) matches Some(a) ==> (lit_num(args[2]) matches Some(c)
            ==> (lit_text(args[3]) matches Some(nw) ==> match spec_count_of(c) {
            Err(k) => r == Value::<N>::Error(k),
            Ok(n) => if a.spec_trunc_int() < 1 {
                r == Value::<N>::Error(ErrKind::Value)
            } else {
                text_value(r, spec_replace(t, clamp_usize(a.spec_trunc_int() as int) - 1, n as int, nw))
            },
        })))),
    decreases args_size(args@), 7nat,
{
    proof {
        lemma_arg_size(args@, 0);
        lemma_arg_size(args@, 1);
        lemma_arg_size(args@, 2);
        lemma_arg_size(args@, 3);
    }
    let old = match arg_text(ctx, &args[0]) {
        Ok(s) => s,
        Err(k) => {
            return Value::Error(k);
        },
    };
    let start = match one_num(ctx, &args[1]) {
        Ok(x) => x.trunc_int(),
        Err(k) => {
            return Value::Error(k);
        },
    };
    let num = match count_arg(ctx, &args[2]) {
        Ok(n) => n,
        Err(k) => {
            return Value::Error(k);
        },
    };
    let new = match arg_text(ctx, &args[3]) {
        Ok(s) => s,
        Err(k) => {
            return Value::Error(k);
        },
    };
    if start < 1 {
        return Value::Error(ErrKind::Value);
    }
    Value::Text(replace_text(old.as_str(), to_count(start) - 1, num, new.as_str()))
}

/// The space-free runs of `s`, in order (splitting on `' '` and dropping empty pieces).
pub open spec fn words(s: Seq<char>) -> Seq<Seq<char>>
    decreases s.len(),
{
    if s.len() == 0 {
        seq![]
    } else if s.last() == ' ' {
        words(s.drop_last())
    } else {
        let w = words(s.drop_last());
        if s.len() >= 2 && s[s.len() - 2] != ' ' && w.len() > 0 {
            w.drop_last().push(w.last().push(s.last()))
        } else {
            w.push(seq![s.last()])
        }
    }
}

/// Strip leading/trailing spaces and collapse interior runs of spaces to one (only `' '` — a tab
/// rides through).
pub fn trim_spaces(s: &str) -> (r: String)
    ensures
        r@ == joined(words(s@), seq![' ']),
{
    let cs = chars_of(s);
    let mut out = String::new();
    let mut i: usize = 0;
    while i < cs.len()
        invariant
            i <= cs.len(),
            cs@ == s@,
            out@ == joined(words(cs@.subrange(0, i as int)), seq![' ']),
        decreases cs.len() - i,
    {
        let ghost pre = cs@.subrange(0, i as int);
        let ghost next = cs@.subrange(0, i + 1);
        assert(next.drop_last() =~= pre);
        let c = cs[i];
        assert(next =~= pre.push(c));
        if c != ' ' {
            proof {
                lemma_words_join_step(pre, c);
                if i > 0 {
                    assert(pre.last() == cs@[i - 1]);
                }
            }
            if i > 0 && cs[i - 1] == ' ' && out.unicode_len() > 0 {
                push_char(&mut out, ' ');
            }
            push_char(&mut out, c);
        } else {
            assert(words(next) == words(pre));
        }
        i = i + 1;
    }
    assert(cs@.subrange(0, cs@.len() as int) =~= s@);
    out
}

/// Joining after one more character: a space adds nothing; a character after a space (with words
/// already present) starts a new word behind a separating space; otherwise it extends the last
/// word (or starts the first).
proof fn lemma_words_join_step(pre: Seq<char>, c: char)
    requires
        c != ' ',
    ensures
        joined(words(pre.push(c)), seq![' ']) == (if pre.len() > 0 && pre.last() == ' ' && joined(words(pre), seq![' ']).len() > 0 {
            joined(words(pre), seq![' ']).push(' ').push(c)
        } else {
            joined(words(pre), seq![' ']).push(c)
        }),
{
    let s = pre.push(c);
    assert(s.drop_last() =~= pre);
    let w = words(pre);
    lemma_joined_empty(w);
    lemma_words_items(pre);
    if w.len() == 1 {
        assert(w[0].len() > 0);
    }
    if pre.len() >= 1 && pre.last() != ' ' && w.len() > 0 {
        assert(s[s.len() - 2] == pre.last());
        lemma_joined_extend_last(w, c);
    } else {
        if pre.len() >= 1 && pre.last() != ' ' {
            lemma_words_nonempty(pre);
        }
        lemma_joined_push(w, seq![c]);
    }
}

/// Every word is non-empty.
proof fn lemma_words_items(s: Seq<char>)
    ensures
        forall|i: int| 0 <= i < words(s).len() ==> #[trigger] words(s)[i].len() > 0,
    decreases s.len(),
{
    if s.len() > 0 {
        lemma_words_items(s.drop_last());
        let w = words(s.drop_last());
        if s.last() != ' ' {
            if s.len() >= 2 && s[s.len() - 2] != ' ' && w.len() > 0 {
                let v = w.drop_last().push(w.last().push(s.last()));
                assert forall|i: int| 0 <= i < v.len() implies #[trigger] v[i].len() > 0 by {
                    if i < v.len() - 1 {
                        assert(v[i] == w[i]);
                    }
                }
            } else {
                let v = w.push(seq![s.last()]);
                assert forall|i: int| 0 <= i < v.len() implies #[trigger] v[i].len() > 0 by {
                    if i < v.len() - 1 {
                        assert(v[i] == w[i]);
                    }
                }
            }
        }
    }
}

proof fn lemma_words_nonempty(s: Seq<char>)
    requires
        s.len() > 0,
        s.last() != ' ',
    ensures
        words(s).len() > 0,
{
}

proof fn lemma_joined_empty(w: Seq<Seq<char>>)
    ensures
        (joined(w, seq![' ']).len() == 0) == (w.len() == 0 || (w.len() == 1 && w[0].len() == 0)),
    decreases w.len(),
{
    if w.len() > 1 {
        lemma_joined_empty(w.drop_last());
    }
}

proof fn lemma_joined_push(w: Seq<Seq<char>>, x: Seq<char>)
    ensures
        joined(w.push(x), seq![' ']) == (if w.len() == 0 { x } else { joined(w, seq![' ']) + seq![' '] + x }),
{
    assert(w.push(x).drop_last() =~= w);
}

proof fn lemma_joined_extend_last(w: Seq<Seq<char>>, c: char)
    requires
        w.len() > 0,
    ensures
        joined(w.drop_last().push(w.last().push(c)), seq![' ']) == joined(w, seq![' ']).push(c),
{
    let v = w.drop_last().push(w.last().push(c));
    assert(v.drop_last() =~= w.drop_last());
    if w.len() == 1 {
        assert(v.len() == 1);
    } else {
        assert(joined(v, seq![' ']) =~= joined(w.drop_last(), seq![' ']) + seq![' '] + w.last().push(c));
    }
}

/// What [`trim_fn`] is stated to give, for a context `ctx` and arguments `args`.
pub open spec fn trim_fn_gives<'r, N: Number, R: Resolver<N>>(ctx: EvalCtx<'r, R>, args: Seq<Expr<N>>, r: Value<N>) -> bool {
    &&& r is Text || r is Error
    &&& room(ctx) ==> match args[0] {
        Expr::Lit(Value::Text(t)) => text_value(r, joined(words(t@), seq![' '])),
        Expr::Lit(Value::Error(k)) => r == Value::<N>::Error(k),
        _ => true,
    }
}

/// What [`trim_fn`] is stated to give for the values its arguments evaluate to in `ctx`.
pub open spec fn trim_fn_reads<'r, N: Number, R: Resolver<N>>(ctx: EvalCtx<'r, R>, args: Seq<Expr<N>>, r: Value<N>) -> bool {
    &&& text_arg_read(ctx, args[0], (|s: Seq<char>, r: Value<N>| text_value(r, joined(words(s), seq![' ']))), r)
}

/// `TRIM(text)` — strip leading/trailing spaces and collapse interior runs of spaces.
pub fn trim_fn<N: Number, R: Resolver<N>>(ctx: &mut EvalCtx<R>, args: &[Expr<N>]) -> (r: Value<N>)
    requires
        args.len() == 1,
    ensures
        restored(*old(ctx), *final(ctx)),
        r is Text || r is Error,
        room(*old(ctx)) ==> match args[0] {
            Expr::Lit(Value::Text(t)) => text_value(r, joined(words(t@), seq![' '])),
            Expr::Lit(Value::Error(k)) => r == Value::<N>::Error(k),
            _ => true,
        },
        text_arg_read(*old(ctx), args@[0], (|s: Seq<char>, r: Value<N>| text_value(r, joined(words(s), seq![' ']))), r),
    decreases args_size(args@), 7nat,
{
    proof {
        lemma_arg_size(args@, 0);
    }
    match arg_text(ctx, &args[0]) {
        Ok(s) => Value::Text(trim_spaces(s.as_str())),
        Err(k) => Value::Error(k),
    }
}

/// The full Unicode uppercase mapping of a text.
pub uninterp spec fn unicode_upper(s: Seq<char>) -> Seq<char>;

/// The full Unicode lowercase mapping of a text.
pub uninterp spec fn unicode_lower(s: Seq<char>) -> Seq<char>;

/// Trusted wrapper over `str::to_uppercase`: its result is the full Unicode uppercase mapping,
/// named [`unicode_upper`] and determined by the text alone.
#[verifier::external_body]
fn to_upper(s: &str) -> (r: String)
    ensures
        r@ == unicode_upper(s@),
{
    s.to_uppercase()
}

/// Trusted wrapper over `str::to_lowercase`: its result is the full Unicode lowercase mapping,
/// named [`unicode_lower`] and determined by the text alone.
#[verifier::external_body]
fn to_lower(s: &str) -> (r: String)
    ensures
        r@ == unicode_lower(s@),
{
    s.to_lowercase()
}

/// What [`upper_fn`] is stated to give, for a context `ctx` and arguments `args`.
pub open spec fn upper_fn_gives<'r, N: Number, R: Resolver<N>>(ctx: EvalCtx<'r, R>, args: Seq<Expr<N>>, r: Value<N>) -> bool {
    &&& r is Text || r is Error
    &&& room(ctx) ==> match args[0] {
        Expr::Lit(Value::Text(t)) => text_value(r, unicode_upper(t@)),
        Expr::Lit(Value::Error(k)) => r == Value::<N>::Error(k),
        _ => true,
    }
}

/// What [`upper_fn`] is stated to give for the values its arguments evaluate to in `ctx`.
pub open spec fn upper_fn_reads<'r, N: Number, R: Resolver<N>>(ctx: EvalCtx<'r, R>, args: Seq<Expr<N>>, r: Value<N>) -> bool {
    &&& text_arg_read(ctx, args[0], (|s: Seq<char>, r: Value<N>| text_value(r, unicode_upper(s))), r)
}

/// `UPPER(text)` — the value's text form upper-cased (full Unicode case mapping).
pub fn upper_fn<N: Number, R: Resolver<N>>(ctx: &mut EvalCtx<R>, args: &[Expr<N>]) -> (r: Value<N>)
    requires
        args.len() == 1,
    ensures
        restored(*old(ctx), *final(ctx)),
        r is Text || r is Error,
        room(*old(ctx)) ==> match args[0] {
            Expr::Lit(Value::Text(t)) => text_value(r, unicode_upper(t@)),
            Expr::Lit(Value::Error(k)) => r == Value::<N>::Error(k),
            _ => true,
        },
        text_arg_read(*old(ctx), args@[0], (|s: Seq<char>, r: Value<N>| text_value(r, unicode_upper(s))), r),
    decreases args_size(args@), 7nat,
{
    proof {
        lemma_arg_size(args@, 0);
    }
    match arg_text(ctx, &args[0]) {
        Ok(s) => Value::Text(to_upper(s.as_str())),
        Err(k) => Value::Error(k),
    }
}

/// What [`lower_fn`] is stated to give, for a context `ctx` and arguments `args`.
pub open spec fn lower_fn_gives<'r, N: Number, R: Resolver<N>>(ctx: EvalCtx<'r, R>, args: Seq<Expr<N>>, r: Value<N>) -> bool {
    &&& r is Text || r is Error
    &&& room(ctx) ==> match args[0] {
        Expr::Lit(Value::Text(t)) => text_value(r, unicode_lower(t@)),
        Expr::Lit(Value::Error(k)) => r == Value::<N>::Error(k),
        _ => true,
    }
}

/// What [`lower_fn`] is stated to give for the values its arguments evaluate to in `ctx`.
pub open spec fn lower_fn_reads<'r, N: Number, R: Resolver<N>>(ctx: EvalCtx<'r, R>, args: Seq<Expr<N>>, r: Value<N>) -> bool {
    &&& text_arg_read(ctx, args[0], (|s: Seq<char>, r: Value<N>| text_value(r, unicode_lower(s))), r)
}

/// `LOWER(text)` — the value's text form lower-cased (full Unicode case mapping).
pub fn lower_fn<N: Number, R: Resolver<N>>(ctx: &mut EvalCtx<R>, args: &[Expr<N>]) -> (r: Value<N>)
    requires
        args.len() == 1,
    ensures
        restored(*old(ctx), *final(ctx)),
        r is Text || r is Error,
        room(*old(ctx)) ==> match args[0] {
            Expr::Lit(Value::Text(t)) => text_value(r, unicode_lower(t@)),
            Expr::Lit(Value::Error(k)) => r == Value::<N>::Error(k),
            _ => true,
        },
        text_arg_read(*old(ctx), args@[0], (|s: Seq<char>, r: Value<N>| text_value(r, unicode_lower(s))), r),
    decreases args_size(args@), 7nat,
{
    proof {
        lemma_arg_size(args@, 0);
    }
    match arg_text(ctx, &args[0]) {
        Ok(s) => Value::Text(to_lower(s.as_str())),
        Err(k) => Value::Error(k),
    }
}

} // verus!
