//! Lookup and reference functions: `XLOOKUP`, `INDEX`, `MATCH`, `VLOOKUP`, `HLOOKUP`, `LOOKUP`,
//! `XMATCH`, `CHOOSE`, `ROW`, `COLUMN`, `ROWS`, `COLUMNS`, and the reserved `INDIRECT`/`OFFSET`.
//!
//! The family agrees on one ordering — the engine's [`value_order`], the order the comparison
//! operators read — and on one wildcard grammar for a text needle. Approximate searches
//! (`VLOOKUP`'s default, `MATCH` types 1/-1) assume sorted data and binary-search it; the search
//! always terminates, and on data partitioned by the needle it finds Excel's answer (the last key
//! on the accepted side). Exact searches scan for the first hit.

use vstd::prelude::*;
use crate::criteria::{spec_compile, wild, wildcard_match};
use crate::diag::{Diag, DiagCode, Span};
use crate::eval::{bool_of_scalar, coerce_bool, coerce_num, compare_ord, law_value_order_total, lemma_restored_same, comparable_key, less_than, restored, scalarize, spec_scalarize, value_order, EvalCtx};
use crate::expr::{args_size, lemma_arg_size, Expr, Resolver};
use crate::func::aggregation::clamp_count;
use crate::func::helpers::{arg_value, block, flat_cells, lemma_same_flat, lit_arg, lit_num, lit_scalar, room, spec_block};
use crate::strings::lower_seq;
use crate::value::{same_value, ErrKind, Number, Order, Shape, Value};

verus! {

/// Whether `cell` is an exact match for `needle`: with `wildcard`, a text needle matches a text
/// cell by the wildcard grammar (case-folded); otherwise the two order equal.
pub open spec fn exact_match<N: Number>(needle: Value<N>, cell: Value<N>, wildcard: bool) -> bool {
    if wildcard && needle is Text {
        cell is Text && wild(spec_compile(lower_seq(needle->Text_0@)), lower_seq(cell->Text_0@), true)
    } else {
        value_order(needle, cell) == Order::Equal
    }
}

/// Whether a cell is on the accepted side of the needle for an approximate search: at or below it
/// (ascending), or at or above it (descending).
pub open spec fn acceptable<N: Number>(cell: Value<N>, needle: Value<N>, ascending: bool) -> bool {
    if ascending {
        value_order(cell, needle) != Order::Greater
    } else {
        value_order(cell, needle) != Order::Less
    }
}

/// The accepted cells form a prefix of the vector — what sorted data gives.
pub open spec fn partitioned<N: Number>(col: Seq<Value<N>>, needle: Value<N>, ascending: bool) -> bool {
    forall|i: int, j: int| 0 <= i < j < col.len() && acceptable(col[j], needle, ascending)
        ==> acceptable(col[i], needle, ascending)
}

/// `i` is the last accepted position.
pub open spec fn last_accepted<N: Number>(col: Seq<Value<N>>, needle: Value<N>, ascending: bool, i: int) -> bool {
    0 <= i < col.len() && acceptable(col[i], needle, ascending)
        && forall|j: int| i < j < col.len() ==> !acceptable(#[trigger] col[j], needle, ascending)
}

/// No position is accepted.
pub open spec fn none_accepted<N: Number>(col: Seq<Value<N>>, needle: Value<N>, ascending: bool) -> bool {
    forall|j: int| 0 <= j < col.len() ==> !acceptable(#[trigger] col[j], needle, ascending)
}

/// `i` is the first exact match.
pub open spec fn first_exact<N: Number>(col: Seq<Value<N>>, needle: Value<N>, wildcard: bool, i: int) -> bool {
    0 <= i < col.len() && exact_match(needle, col[i], wildcard)
        && forall|j: int| 0 <= j < i ==> !exact_match(needle, #[trigger] col[j], wildcard)
}

/// `i` is the last exact match.
pub open spec fn last_exact<N: Number>(col: Seq<Value<N>>, needle: Value<N>, wildcard: bool, i: int) -> bool {
    0 <= i < col.len() && exact_match(needle, col[i], wildcard)
        && forall|j: int| i < j < col.len() ==> !exact_match(needle, #[trigger] col[j], wildcard)
}

/// No position matches exactly.
pub open spec fn none_exact<N: Number>(col: Seq<Value<N>>, needle: Value<N>, wildcard: bool) -> bool {
    forall|j: int| 0 <= j < col.len() ==> !exact_match(needle, #[trigger] col[j], wildcard)
}

/// The value a lookup hands back for a matched cell: a blank reads as `0`, anything else is itself.
pub open spec fn spec_matched<N: Number>(v: Value<N>) -> Value<N> {
    match v {
        Value::Blank => Value::Number(N::spec_from_int(0)),
        _ => v,
    }
}

/// A matched cell as a lookup returns it: a blank cell reads as `0`.
pub fn matched_scalar<N: Number>(v: &Value<N>) -> (r: Value<N>)
    ensures
        same_value(r, spec_matched(*v)),
{
    match v {
        Value::Blank => Value::Number(N::from_int(0)),
        other => other.duplicate(),
    }
}

/// Whether `cell` is an exact match for `needle` (see [`exact_match`]).
pub fn cell_matches_exact<N: Number>(needle: &Value<N>, cell: &Value<N>, wildcard: bool) -> (r: bool)
    ensures
        r == exact_match(*needle, *cell, wildcard),
{
    if wildcard {
        if let Value::Text(pat) = needle {
            return match cell {
                Value::Text(s) => wildcard_match(pat.as_str(), s.as_str()),
                _ => false,
            };
        }
    }
    compare_ord(needle, cell) == Order::Equal
}

/// Whether a cell is on the accepted side of the needle (see [`acceptable`]).
fn accepts<N: Number>(cell: &Value<N>, needle: &Value<N>, ascending: bool) -> (r: bool)
    ensures
        r == acceptable(*cell, *needle, ascending),
{
    let o = compare_ord(cell, needle);
    if ascending {
        o != Order::Greater
    } else {
        o != Order::Less
    }
}

/// Approximate search by bisection over a vector assumed sorted: the last position on the accepted
/// side of the needle (see [`acceptable`]). Always terminates; any position it returns is accepted,
/// and on partitioned data it is the last accepted one (`None` when none is).
pub fn binary_search_approx<N: Number>(col: &[Value<N>], needle: &Value<N>, ascending: bool) -> (r: Option<usize>)
    ensures
        r matches Some(i) ==> i < col@.len() && acceptable(col@[i as int], *needle, ascending),
        partitioned(col@, *needle, ascending) ==> (r matches Some(i) ==> last_accepted(col@, *needle, ascending, i as int)),
        partitioned(col@, *needle, ascending) ==> (r is None ==> none_accepted(col@, *needle, ascending)),
{
    if col.len() == 0 {
        return None;
    }
    let mut lo: usize = 0;
    let mut hi: usize = col.len() - 1;
    let mut found: Option<usize> = None;
    loop
        invariant_except_break
            found matches Some(f) ==> f + 1 == lo,
            found is None ==> lo == 0,
        invariant
            hi < col.len(),
            lo <= hi,
            found matches Some(f) ==> f < col@.len() && acceptable(col@[f as int], *needle, ascending),
            partitioned(col@, *needle, ascending) ==> forall|k: int| hi < k < col@.len() ==> !acceptable(#[trigger] col@[k], *needle, ascending),
        ensures
            found matches Some(f) ==> f < col@.len() && acceptable(col@[f as int], *needle, ascending),
            partitioned(col@, *needle, ascending) ==> (found matches Some(f) ==> last_accepted(col@, *needle, ascending, f as int)),
            partitioned(col@, *needle, ascending) ==> (found is None ==> none_accepted(col@, *needle, ascending)),
        decreases hi + 1 - lo,
    {
        let mid = lo + (hi - lo) / 2;
        if accepts(&col[mid], needle, ascending) {
            found = Some(mid);
            if mid == hi {
                proof {
                    if partitioned(col@, *needle, ascending) {
                        assert(last_accepted(col@, *needle, ascending, mid as int));
                    }
                }
                break;
            }
            lo = mid + 1;
        } else if mid == 0 {
            proof {
                if partitioned(col@, *needle, ascending) {
                    assert forall|j: int| 0 <= j < col@.len() implies !acceptable(#[trigger] col@[j], *needle, ascending) by {
                        if j > 0 && acceptable(col@[j], *needle, ascending) {
                            assert(acceptable(col@[0], *needle, ascending));
                        }
                    }
                }
            }
            break;
        } else {
            proof {
                if partitioned(col@, *needle, ascending) {
                    assert forall|k: int| mid - 1 < k < col@.len() implies !acceptable(#[trigger] col@[k], *needle, ascending) by {
                        if k > mid && acceptable(col@[k], *needle, ascending) {
                            assert(acceptable(col@[mid as int], *needle, ascending));
                        }
                    }
                }
            }
            if mid - 1 < lo {
                proof {
                    if partitioned(col@, *needle, ascending) {
                        match found {
                            Some(f) => {
                                assert(last_accepted(col@, *needle, ascending, f as int));
                            },
                            None => {
                                assert(none_accepted(col@, *needle, ascending));
                            },
                        }
                    }
                }
                break;
            }
            hi = mid - 1;
        }
    }
    found
}

/// Exact search: the first position that matches the needle exactly (see [`exact_match`]).
pub fn linear_exact<N: Number>(col: &[Value<N>], needle: &Value<N>, wildcard: bool) -> (r: Option<usize>)
    ensures
        r matches Some(i) ==> first_exact(col@, *needle, wildcard, i as int),
        r is None ==> none_exact(col@, *needle, wildcard),
{
    let mut i: usize = 0;
    while i < col.len()
        invariant
            i <= col.len(),
            forall|j: int| 0 <= j < i ==> !exact_match(*needle, #[trigger] col@[j], wildcard),
        decreases col.len() - i,
    {
        if cell_matches_exact(needle, &col[i], wildcard) {
            return Some(i);
        }
        i = i + 1;
    }
    None
}

/// Exact search in reverse: the last position that matches the needle exactly.
pub fn linear_exact_last<N: Number>(col: &[Value<N>], needle: &Value<N>, wildcard: bool) -> (r: Option<usize>)
    ensures
        r matches Some(i) ==> last_exact(col@, *needle, wildcard, i as int),
        r is None ==> none_exact(col@, *needle, wildcard),
{
    let mut i: usize = col.len();
    while i > 0
        invariant
            i <= col.len(),
            forall|j: int| i <= j < col.len() ==> !exact_match(*needle, #[trigger] col@[j], wildcard),
        decreases i,
    {
        if cell_matches_exact(needle, &col[i - 1], wildcard) {
            return Some(i - 1);
        }
        i = i - 1;
    }
    None
}

/// A 0-based position as a 1-based spreadsheet number.
fn position_value<N: Number>(i: usize) -> (r: Value<N>)
    ensures
        i + 1 <= i64::MAX ==> r == Value::<N>::Number(N::spec_from_int((i + 1) as i64)),
        r == Value::<N>::Number(N::spec_from_int(clamp_count(i + 1))),
{
    if (i as u64) < (i64::MAX as u64) {
        Value::Number(N::from_int(i as i64 + 1))
    } else {
        Value::Number(N::from_int(i64::MAX))
    }
}

/// A `MATCH` type other than 0 searches ascending data when positive.
pub open spec fn ascending_type(match_type: i64) -> bool {
    match_type > 0
}

/// The position `MATCH` reports in a vector: type 0 the first exact hit (wildcards on a text
/// needle), a positive type the last key at or below the needle (data assumed ascending), a negative
/// type the last key at or above it (data assumed descending). A 2-D block, or no match, is `#N/A`.
pub fn match_in<N: Number>(needle: &Value<N>, rows: u32, cols: u32, cells: &Vec<Value<N>>, match_type: i64) -> (r: Value<N>)
    ensures
        rows > 1 && cols > 1 ==> r == Value::<N>::Error(ErrKind::Na),
        !(rows > 1 && cols > 1) ==> match_outcome(r, *needle, cells@, match_type),
{
    if rows > 1 && cols > 1 {
        return Value::Error(ErrKind::Na);
    }
    let pos = if match_type == 0 {
        linear_exact(cells.as_slice(), needle, true)
    } else {
        binary_search_approx(cells.as_slice(), needle, match_type > 0)
    };
    match pos {
        Some(i) => position_value(i),
        None => Value::Error(ErrKind::Na),
    }
}

/// A lookup index from a number: truncated toward zero; negative is `#VALUE!`; saturating at
/// `u32::MAX`.
pub open spec fn spec_index_of<N: Number>(x: N) -> Result<u32, ErrKind> {
    let t = x.spec_trunc_of();
    if t.spec_order(N::spec_from_int(0)) == Some(Order::Less) || t.spec_trunc_int() < 0 {
        Err(ErrKind::Value)
    } else if t.spec_trunc_int() > u32::MAX as i64 {
        Ok(u32::MAX)
    } else {
        Ok(t.spec_trunc_int() as u32)
    }
}

/// Evaluate a lookup index argument to a non-negative integer, truncated toward zero; a negative
/// index is `#VALUE!`, an absurdly large one saturates (and reads as out of bounds).
pub fn index_arg<N: Number, R: Resolver<N>>(ctx: &mut EvalCtx<R>, e: &Expr<N>) -> (r: Result<u32, ErrKind>)
    ensures
        restored(*old(ctx), *final(ctx)),
        room(*old(ctx)) ==> (lit_num(*e) matches Some(x) ==> r == spec_index_of(x)),
    decreases crate::expr::expr_size(*e), 4nat,
{
    let v = scalarize(ctx.eval(e));
    let n = coerce_num(&v)?;
    let t = n.trunc_of();
    if less_than(t, N::from_int(0)) {
        return Err(ErrKind::Value);
    }
    let i = t.trunc_int();
    if i < 0 {
        return Err(ErrKind::Value);
    }
    if i > u32::MAX as i64 {
        Ok(u32::MAX)
    } else {
        Ok(i as u32)
    }
}

/// Evaluate an optional numeric mode argument, truncated toward zero (`default` when absent).
fn mode_arg<N: Number, R: Resolver<N>>(ctx: &mut EvalCtx<R>, args: &[Expr<N>], i: usize, default: i64) -> (r: Result<i64, ErrKind>)
    ensures
        restored(*old(ctx), *final(ctx)),
        i >= args.len() ==> r == Ok::<i64, ErrKind>(default),
        room(*old(ctx)) && i < args@.len() ==> (lit_num(args[i as int]) matches Some(x) ==> r == Ok::<i64, ErrKind>(x.spec_trunc_int())),
    decreases args_size(args@), 4nat,
{
    if i >= args.len() {
        return Ok(default);
    }
    proof {
        lemma_arg_size(args@, i as int);
    }
    let v = scalarize(ctx.eval(&args[i]));
    let n = coerce_num(&v)?;
    Ok(n.trunc_int())
}

/// What a vector match may give (see [`match_in`]): exact (type 0), the position after the first
/// exact hit or `#N/A`; otherwise over partitioned data, that after the last accepted key or `#N/A`.
pub open spec fn match_outcome<N: Number>(r: Value<N>, needle: Value<N>, cells: Seq<Value<N>>, match_type: i64) -> bool {
    &&& match_type == 0 ==> (
        (none_exact(cells, needle, true) ==> r == Value::<N>::Error(ErrKind::Na))
        && (forall|i: int| #![trigger first_exact(cells, needle, true, i)] first_exact(cells, needle, true, i) && i + 1 <= i64::MAX
            ==> r == Value::<N>::Number(N::spec_from_int((i + 1) as i64))))
    &&& match_type != 0 && partitioned(cells, needle, ascending_type(match_type)) ==> (
        (none_accepted(cells, needle, ascending_type(match_type)) ==> r == Value::<N>::Error(ErrKind::Na))
        && (forall|i: int| #![trigger last_accepted(cells, needle, ascending_type(match_type), i)] last_accepted(cells, needle, ascending_type(match_type), i) && i + 1 <= i64::MAX
            ==> r == Value::<N>::Number(N::spec_from_int((i + 1) as i64))))
}

/// What [`match_fn`] is stated to give, for a context `ctx` and arguments `args`.
pub open spec fn match_fn_gives<'r, N: Number, R: Resolver<N>>(ctx: EvalCtx<'r, R>, args: Seq<Expr<N>>, r: Value<N>) -> bool {
    &&& room(ctx) ==> (lit_scalar(args[0]) matches Some(nd) ==> match args[1] {
        Expr::Lit(Value::Array(sh, cells)) => cells@.len() == sh.rows * sh.cols && flat_cells(cells@)
            ==> (lit_arg(args, 2, N::spec_from_int(1)) matches Some(m) ==> if nd is Error {
            r == nd
        } else if sh.rows > 1 && sh.cols > 1 {
            r == Value::<N>::Error(ErrKind::Na)
        } else {
            match_outcome(r, nd, cells@, if args.len() == 3 { m.spec_trunc_int() } else { 1i64 })
        }),
        _ => true,
    })
}

/// `MATCH(lookup_value, lookup_array, [match_type])` — the 1-based position of the needle in a
/// vector (see [`match_in`]); an error needle or array propagates.
pub fn match_fn<N: Number, R: Resolver<N>>(ctx: &mut EvalCtx<R>, args: &[Expr<N>]) -> (r: Value<N>)
    requires
        2 <= args.len() <= 3,
    ensures
        restored(*old(ctx), *final(ctx)),
        room(*old(ctx)) ==> (lit_scalar(args[0]) matches Some(nd) ==> match args[1] {
            Expr::Lit(Value::Array(sh, cells)) => cells@.len() == sh.rows * sh.cols && flat_cells(cells@)
                ==> (lit_arg(args@, 2, N::spec_from_int(1)) matches Some(m) ==> if nd is Error {
                r == nd
            } else if sh.rows > 1 && sh.cols > 1 {
                r == Value::<N>::Error(ErrKind::Na)
            } else {
                match_outcome(r, nd, cells@, if args@.len() == 3 { m.spec_trunc_int() } else { 1i64 })
            }),
            _ => true,
        }),
    decreases args_size(args@), 7nat,
{
    proof {
        lemma_arg_size(args@, 0);
        lemma_arg_size(args@, 1);
    }
    let needle = scalarize(ctx.eval(&args[0]));
    if let Value::Error(k) = needle {
        return Value::Error(k);
    }
    let (rows, cols, cells) = match block(ctx, &args[1]) {
        Err(k) => {
            return Value::Error(k);
        },
        Ok(t) => t,
    };
    if rows > 1 && cols > 1 {
        return Value::Error(ErrKind::Na);
    }
    let match_type = match mode_arg(ctx, args, 2, 1) {
        Err(k) => {
            return Value::Error(k);
        },
        Ok(m) => m,
    };
    proof {
        match args@[1] {
            Expr::Lit(Value::Array(sh, cs)) => {
                if room(*old(ctx)) && cs@.len() == sh.rows * sh.cols && flat_cells(cs@) {
                    lemma_same_flat(cells@, cs@);
                }
            },
            _ => {},
        }
    }
    match_in(&needle, rows, cols, &cells, match_type)
}

/// The cell at 1-based `(ri, ci)` of a `rows × cols` block.
pub open spec fn block_at<N>(cols: u32, cells: Seq<Value<N>>, ri: int, ci: int) -> Value<N> {
    cells[(ri - 1) * cols + (ci - 1)]
}

/// What `INDEX` picks from a `rows × cols` block given its row and column selectors (`None` is the
/// whole span): a selector past the block is `#REF!`; a single cell reads as a lookup match (a
/// blank is `0`); a whole row is a `1 × cols` array, a whole column a `rows × 1` array, and both
/// whole is the block itself.
pub fn index_pick<N: Number>(rows: u32, cols: u32, cells: Vec<Value<N>>, row_sel: Option<u32>, col_sel: Option<u32>) -> (r: Value<N>)
    requires
        cells@.len() == rows * cols,
        row_sel != Some(0u32),
        col_sel != Some(0u32),
    ensures
        (row_sel matches Some(ri) && ri > rows) || (col_sel matches Some(ci) && ci > cols) ==> r == Value::<N>::Error(ErrKind::Ref),
        !((row_sel matches Some(ri) && ri > rows) || (col_sel matches Some(ci) && ci > cols)) ==> pick_outcome(r, rows, cols, cells@, row_sel, col_sel),
        (None::<u32>, None::<u32>) == (row_sel, col_sel) ==> r == Value::<N>::Array(Shape { rows, cols }, cells),
{
    let total = cells.len();
    assert(rows * cols <= usize::MAX);
    let row_out = match row_sel {
        Some(ri) => ri > rows,
        None => false,
    };
    let col_out = match col_sel {
        Some(ci) => ci > cols,
        None => false,
    };
    if row_out || col_out {
        return Value::Error(ErrKind::Ref);
    }
    match (row_sel, col_sel) {
        (Some(ri), Some(ci)) => {
            proof {
                lemma_block_index(rows, cols, ri as int, ci as int);
            }
            let at = ((ri - 1) as usize) * (cols as usize) + ((ci - 1) as usize);
            matched_scalar(&cells[at])
        },
        (Some(ri), None) => {
            let mut out: Vec<Value<N>> = Vec::new();
            let mut k: u32 = 0;
            while k < cols
                invariant
                    1 <= ri <= rows,
                    cells@.len() == rows * cols,
                    rows * cols <= usize::MAX,
                    k <= cols,
                    out@.len() == k,
                    forall|m: int| 0 <= m < k ==> same_value(#[trigger] out@[m], block_at(cols, cells@, ri as int, m + 1)),
                decreases cols - k,
            {
                proof {
                    lemma_block_index(rows, cols, ri as int, k + 1);
                }
                let at = ((ri - 1) as usize) * (cols as usize) + (k as usize);
                let c = cells[at].duplicate();
                out.push(c);
                k = k + 1;
            }
            Value::Array(Shape { rows: 1, cols }, out)
        },
        (None, Some(ci)) => {
            let mut out: Vec<Value<N>> = Vec::new();
            let mut k: u32 = 0;
            while k < rows
                invariant
                    1 <= ci <= cols,
                    cells@.len() == rows * cols,
                    rows * cols <= usize::MAX,
                    k <= rows,
                    out@.len() == k,
                    forall|m: int| 0 <= m < k ==> same_value(#[trigger] out@[m], block_at(cols, cells@, m + 1, ci as int)),
                decreases rows - k,
            {
                proof {
                    lemma_block_index(rows, cols, k + 1, ci as int);
                }
                let at = (k as usize) * (cols as usize) + ((ci - 1) as usize);
                let c = cells[at].duplicate();
                out.push(c);
                k = k + 1;
            }
            Value::Array(Shape { rows, cols: 1 }, out)
        },
        (None, None) => Value::Array(Shape { rows, cols }, cells),
    }
}

/// A 1-based position inside a `rows × cols` block is a valid row-major offset.
proof fn lemma_block_index(rows: u32, cols: u32, ri: int, ci: int)
    requires
        1 <= ri <= rows,
        1 <= ci <= cols,
        rows * cols <= usize::MAX,
    ensures
        0 <= (ri - 1) * cols + (ci - 1) < rows * cols,
        (ri - 1) * cols + (ci - 1) <= usize::MAX,
{
    assert((ri - 1) * cols + (ci - 1) < rows * cols) by (nonlinear_arith)
        requires
            1 <= ri <= rows,
            1 <= ci <= cols,
    ;
    assert(0 <= (ri - 1) * cols) by (nonlinear_arith)
        requires
            1 <= ri,
            0 <= cols,
    ;
    assert((rows as int) * (cols as int) <= 0xffff_ffff * 0xffff_ffff) by (nonlinear_arith)
        requires
            rows <= 0xffff_ffff,
            cols <= 0xffff_ffff,
    ;
}

/// What `INDEX` picks within range (see [`index_pick`]): a cell as a lookup match, a whole row or
/// column as a one-row or one-column array of the same values, or the whole block.
pub open spec fn pick_outcome<N: Number>(r: Value<N>, rows: u32, cols: u32, cells: Seq<Value<N>>, row_sel: Option<u32>, col_sel: Option<u32>) -> bool {
    match (row_sel, col_sel) {
        (Some(ri), Some(ci)) => same_value(r, spec_matched(block_at(cols, cells, ri as int, ci as int))),
        (Some(ri), None) => r matches Value::Array(s, out) && s == (Shape { rows: 1, cols })
            && out@.len() == cols
            && forall|k: int| 0 <= k < cols ==> same_value(#[trigger] out@[k], block_at(cols, cells, ri as int, k + 1)),
        (None, Some(ci)) => r matches Value::Array(s, out) && s == (Shape { rows, cols: 1 })
            && out@.len() == rows
            && forall|k: int| 0 <= k < rows ==> same_value(#[trigger] out@[k], block_at(cols, cells, k + 1, ci as int)),
        (None, None) => r matches Value::Array(s, out) && s == (Shape { rows, cols }) && out@ == cells,
    }
}

/// The `INDEX` selectors of a call from its indices: with one index, a single-row block takes it
/// as the column, a single-column block as the row, and a 2-D block selects that whole row.
pub open spec fn index_selectors(nargs: int, rows: u32, cols: u32, ri: u32, ci: u32) -> (Option<u32>, Option<u32>) {
    let s = |n: u32| if n == 0 { None::<u32> } else { Some(n) };
    if nargs == 3 {
        (s(ri), s(ci))
    } else if rows == 1 {
        (Some(1u32), s(ri))
    } else if cols == 1 {
        (s(ri), Some(1u32))
    } else {
        (s(ri), None)
    }
}

/// An `INDEX` selector: `0` is the whole span.
fn sel(n: u32) -> (r: Option<u32>)
    ensures
        r == (if n == 0 { None } else { Some(n) }),
{
    if n == 0 { None } else { Some(n) }
}

/// What [`index_fn`] is stated to give, for a context `ctx` and arguments `args`.
pub open spec fn index_fn_gives<'r, N: Number, R: Resolver<N>>(ctx: EvalCtx<'r, R>, args: Seq<Expr<N>>, r: Value<N>) -> bool {
    &&& room(ctx) ==> match args[0] {
        Expr::Lit(Value::Array(sh, cells)) => cells@.len() == sh.rows * sh.cols && flat_cells(cells@)
            ==> (lit_num(args[1]) matches Some(x) ==> (lit_arg(args, 2, N::spec_from_int(0)) matches Some(y) ==> match spec_index_of(x) {
            Err(k) => r == Value::<N>::Error(k),
            Ok(ri) => match (if args.len() == 3 { spec_index_of(y) } else { Ok::<u32, ErrKind>(0) }) {
                Err(k) => r == Value::<N>::Error(k),
                Ok(ci) => {
                    let (rs, cs) = index_selectors(args.len() as int, sh.rows, sh.cols, ri, ci);
                    if (rs matches Some(a) && a > sh.rows) || (cs matches Some(b) && b > sh.cols) {
                        r == Value::<N>::Error(ErrKind::Ref)
                    } else {
                        pick_outcome(r, sh.rows, sh.cols, cells@, rs, cs)
                    }
                },
            },
        })),
        _ => true,
    }
}

/// `INDEX(array, row_num, [col_num])` — the value at a 1-based position (see [`index_pick`]); a `0`
/// index selects the whole row or column. With one index, a single-row array takes it as the
/// column, a single-column array as the row, and a 2-D array selects that whole row. A negative
/// index is `#VALUE!`.
pub fn index_fn<N: Number, R: Resolver<N>>(ctx: &mut EvalCtx<R>, args: &[Expr<N>]) -> (r: Value<N>)
    requires
        2 <= args.len() <= 3,
    ensures
        restored(*old(ctx), *final(ctx)),
        room(*old(ctx)) ==> match args[0] {
            Expr::Lit(Value::Array(sh, cells)) => cells@.len() == sh.rows * sh.cols && flat_cells(cells@)
                ==> (lit_num(args[1]) matches Some(x) ==> (lit_arg(args@, 2, N::spec_from_int(0)) matches Some(y) ==> match spec_index_of(x) {
                Err(k) => r == Value::<N>::Error(k),
                Ok(ri) => match (if args@.len() == 3 { spec_index_of(y) } else { Ok::<u32, ErrKind>(0) }) {
                    Err(k) => r == Value::<N>::Error(k),
                    Ok(ci) => {
                        let (rs, cs) = index_selectors(args@.len() as int, sh.rows, sh.cols, ri, ci);
                        if (rs matches Some(a) && a > sh.rows) || (cs matches Some(b) && b > sh.cols) {
                            r == Value::<N>::Error(ErrKind::Ref)
                        } else {
                            pick_outcome(r, sh.rows, sh.cols, cells@, rs, cs)
                        }
                    },
                },
            })),
            _ => true,
        },
    decreases args_size(args@), 7nat,
{
    proof {
        lemma_arg_size(args@, 0);
        lemma_arg_size(args@, 1);
        if args.len() == 3 {
            lemma_arg_size(args@, 2);
        }
    }
    let (rows, cols, cells) = match block(ctx, &args[0]) {
        Err(k) => {
            return Value::Error(k);
        },
        Ok(t) => t,
    };
    let r = match index_arg(ctx, &args[1]) {
        Err(k) => {
            return Value::Error(k);
        },
        Ok(v) => v,
    };
    let (row_sel, col_sel) = if args.len() == 3 {
        let c = match index_arg(ctx, &args[2]) {
            Err(k) => {
                return Value::Error(k);
            },
            Ok(v) => v,
        };
        (sel(r), sel(c))
    } else if rows == 1 {
        (Some(1u32), sel(r))
    } else if cols == 1 {
        (sel(r), Some(1u32))
    } else {
        (sel(r), None)
    };
    proof {
        match args@[0] {
            Expr::Lit(Value::Array(sh, cs)) => {
                if room(*old(ctx)) && cs@.len() == sh.rows * sh.cols && flat_cells(cs@) {
                    lemma_same_flat(cells@, cs@);
                }
            },
            _ => {},
        }
    }
    index_pick(rows, cols, cells, row_sel, col_sel)
}

/// A `VLOOKUP`/`HLOOKUP` index from a number against an extent: truncated; below 1 is `#VALUE!`,
/// past the extent `#REF!`.
pub open spec fn spec_extent_index<N: Number>(x: N, extent: u32) -> Result<u32, ErrKind> {
    let t = x.spec_trunc_of();
    if t.spec_order(N::spec_from_int(1)) == Some(Order::Less) {
        Err(ErrKind::Value)
    } else if N::spec_from_int(extent as i64).spec_order(t) == Some(Order::Less) {
        Err(ErrKind::Ref)
    } else if t.spec_trunc_int() < 1 {
        Err(ErrKind::Value)
    } else if t.spec_trunc_int() > extent as i64 {
        Err(ErrKind::Ref)
    } else {
        Ok(t.spec_trunc_int() as u32)
    }
}

/// Evaluate a `VLOOKUP`/`HLOOKUP` column or row index against the block's extent: below 1 is
/// `#VALUE!`, past the extent is `#REF!`; otherwise the 1-based index.
fn extent_index<N: Number, R: Resolver<N>>(ctx: &mut EvalCtx<R>, e: &Expr<N>, extent: u32) -> (r: Result<u32, ErrKind>)
    ensures
        restored(*old(ctx), *final(ctx)),
        r matches Ok(i) ==> 1 <= i <= extent,
        room(*old(ctx)) ==> (lit_num(*e) matches Some(x) ==> r == spec_extent_index(x, extent)),
    decreases crate::expr::expr_size(*e), 4nat,
{
    let v = scalarize(ctx.eval(e));
    let t = coerce_num(&v)?.trunc_of();
    if less_than(t, N::from_int(1)) {
        return Err(ErrKind::Value);
    }
    if less_than(N::from_int(extent as i64), t) {
        return Err(ErrKind::Ref);
    }
    let i = t.trunc_int();
    if i < 1 {
        return Err(ErrKind::Value);
    }
    if i > extent as i64 {
        return Err(ErrKind::Ref);
    }
    Ok(i as u32)
}

/// Evaluate an optional `range_lookup` flag (`TRUE`, the approximate default, when absent).
fn approx_arg<N: Number, R: Resolver<N>>(ctx: &mut EvalCtx<R>, args: &[Expr<N>], i: usize) -> (r: Result<bool, ErrKind>)
    ensures
        restored(*old(ctx), *final(ctx)),
        i >= args.len() ==> r == Ok::<bool, ErrKind>(true),
        room(*old(ctx)) && i < args@.len() ==> (lit_scalar(args[i as int]) matches Some(v) ==> r == bool_of_scalar(v)),
    decreases args_size(args@), 4nat,
{
    if i >= args.len() {
        return Ok(true);
    }
    proof {
        lemma_arg_size(args@, i as int);
    }
    let v = ctx.eval(&args[i]);
    coerce_bool(&v)
}

/// Search a key line and return the aligned cell of a result line: approximate (the last key at or
/// below the needle, keys assumed ascending) or an exact first hit with wildcards. No hit is
/// `#N/A`.
pub fn search_line<N: Number>(needle: &Value<N>, keys: &Vec<Value<N>>, results: &Vec<Value<N>>, approximate: bool) -> (r: Value<N>)
    requires
        keys@.len() == results@.len(),
    ensures
        line_outcome(r, *needle, keys@, results@, approximate),
{
    let hit = if approximate {
        binary_search_approx(keys.as_slice(), needle, true)
    } else {
        linear_exact(keys.as_slice(), needle, true)
    };
    match hit {
        None => Value::Error(ErrKind::Na),
        Some(i) => matched_scalar(&results[i]),
    }
}

/// What a key-line search may give (see [`search_line`]): exact, the aligned result of the first
/// exact hit or `#N/A`; approximate over partitioned keys, that of the last accepted key or `#N/A`.
pub open spec fn line_outcome<N: Number>(r: Value<N>, needle: Value<N>, keys: Seq<Value<N>>, results: Seq<Value<N>>, approximate: bool) -> bool {
    &&& !approximate && none_exact(keys, needle, true) ==> r == Value::<N>::Error(ErrKind::Na)
    &&& !approximate ==> forall|i: int| #![trigger first_exact(keys, needle, true, i)] first_exact(keys, needle, true, i)
        ==> same_value(r, spec_matched(results[i]))
    &&& approximate && partitioned(keys, needle, true) && none_accepted(keys, needle, true) ==> r == Value::<N>::Error(ErrKind::Na)
    &&& approximate && partitioned(keys, needle, true) ==> forall|i: int| #![trigger last_accepted(keys, needle, true, i)]
        last_accepted(keys, needle, true, i) ==> same_value(r, spec_matched(results[i]))
}

/// Column `c` (0-based) of a `rows × cols` block, top to bottom.
pub open spec fn column_of<N>(cols: u32, cells: Seq<Value<N>>, rows: u32, c: int) -> Seq<Value<N>> {
    Seq::new(rows as nat, |k: int| block_at(cols, cells, k + 1, c + 1))
}

/// Row `r` (0-based) of a `rows × cols` block, left to right.
pub open spec fn row_of<N>(cols: u32, cells: Seq<Value<N>>, r: int) -> Seq<Value<N>> {
    Seq::new(cols as nat, |k: int| block_at(cols, cells, r + 1, k + 1))
}

/// The literal table and range-lookup flag of a `VLOOKUP`/`HLOOKUP` call: `Some` when the table is
/// a well-formed literal array without nested arrays and the flag is absent or a literal scalar.
pub open spec fn lit_table<N: Number>(args: Seq<Expr<N>>) -> Option<(Shape, Seq<Value<N>>, Result<bool, ErrKind>)> {
    match args[1] {
        Expr::Lit(Value::Array(sh, cells)) => if cells@.len() == sh.rows * sh.cols && flat_cells(cells@)
            && (args.len() == 3 || lit_scalar(args[3]) is Some) {
            Some((sh, cells@, if args.len() == 3 { Ok(true) } else { bool_of_scalar(lit_scalar(args[3])->0) }))
        } else {
            None
        },
        _ => None,
    }
}

/// Column `c` (0-based) of a `rows × cols` block, top to bottom.
fn block_column<N: Number>(rows: u32, cols: u32, cells: &Vec<Value<N>>, c: u32) -> (r: Vec<Value<N>>)
    requires
        cells@.len() == rows * cols,
        c < cols,
    ensures
        r@.len() == rows,
        forall|k: int| 0 <= k < rows ==> same_value(#[trigger] r@[k], block_at(cols, cells@, k + 1, c + 1)),
{
    let total = cells.len();
    assert(rows * cols <= usize::MAX);
    let mut out: Vec<Value<N>> = Vec::new();
    let mut k: u32 = 0;
    while k < rows
        invariant
            cells@.len() == rows * cols,
            rows * cols <= usize::MAX,
            c < cols,
            k <= rows,
            out@.len() == k,
            forall|m: int| 0 <= m < k ==> same_value(#[trigger] out@[m], block_at(cols, cells@, m + 1, c + 1)),
        decreases rows - k,
    {
        proof {
            lemma_block_index(rows, cols, k + 1, c + 1);
        }
        let at = (k as usize) * (cols as usize) + (c as usize);
        out.push(cells[at].duplicate());
        k = k + 1;
    }
    out
}

/// Row `r` (0-based) of a `rows × cols` block, left to right.
fn block_row<N: Number>(rows: u32, cols: u32, cells: &Vec<Value<N>>, r: u32) -> (out: Vec<Value<N>>)
    requires
        cells@.len() == rows * cols,
        r < rows,
    ensures
        out@.len() == cols,
        forall|k: int| 0 <= k < cols ==> same_value(#[trigger] out@[k], block_at(cols, cells@, r + 1, k + 1)),
{
    let total = cells.len();
    assert(rows * cols <= usize::MAX);
    let mut out: Vec<Value<N>> = Vec::new();
    let mut k: u32 = 0;
    while k < cols
        invariant
            cells@.len() == rows * cols,
            rows * cols <= usize::MAX,
            r < rows,
            k <= cols,
            out@.len() == k,
            forall|m: int| 0 <= m < k ==> same_value(#[trigger] out@[m], block_at(cols, cells@, r + 1, m + 1)),
        decreases cols - k,
    {
        proof {
            lemma_block_index(rows, cols, r + 1, k + 1);
        }
        let at = (r as usize) * (cols as usize) + (k as usize);
        out.push(cells[at].duplicate());
        k = k + 1;
    }
    out
}

/// What [`vlookup`] is stated to give, for a context `ctx` and arguments `args`.
pub open spec fn vlookup_gives<'r, N: Number, R: Resolver<N>>(ctx: EvalCtx<'r, R>, args: Seq<Expr<N>>, r: Value<N>) -> bool {
    &&& room(ctx) ==> (lit_scalar(args[0]) matches Some(nd) ==> (lit_table(args) matches Some((sh, cells, ap))
        ==> (lit_num(args[2]) matches Some(x) ==> if nd is Error {
        r == nd
    } else {
        match spec_extent_index(x, sh.cols) {
            Err(k) => r == Value::<N>::Error(k),
            Ok(i) => match ap {
                Err(k) => r == Value::<N>::Error(k),
                Ok(a) => line_outcome(r, nd, column_of(sh.cols, cells, sh.rows, 0), column_of(sh.cols, cells, sh.rows, i - 1), a),
            },
        }
    })))
}

/// `VLOOKUP(lookup_value, table_array, col_index, [range_lookup])` — find the needle in the first
/// column and return that row's cell in column `col_index` (see [`search_line`]). Approximate by
/// default; `FALSE` asks for an exact first hit. `col_index < 1` is `#VALUE!`, past the width
/// `#REF!`.
pub fn vlookup<N: Number, R: Resolver<N>>(ctx: &mut EvalCtx<R>, args: &[Expr<N>]) -> (r: Value<N>)
    requires
        3 <= args.len() <= 4,
    ensures
        restored(*old(ctx), *final(ctx)),
        room(*old(ctx)) ==> (lit_scalar(args[0]) matches Some(nd) ==> (lit_table(args@) matches Some((sh, cells, ap))
            ==> (lit_num(args[2]) matches Some(x) ==> if nd is Error {
            r == nd
        } else {
            match spec_extent_index(x, sh.cols) {
                Err(k) => r == Value::<N>::Error(k),
                Ok(i) => match ap {
                    Err(k) => r == Value::<N>::Error(k),
                    Ok(a) => line_outcome(r, nd, column_of(sh.cols, cells, sh.rows, 0), column_of(sh.cols, cells, sh.rows, i - 1), a),
                },
            }
        }))),
    decreases args_size(args@), 7nat,
{
    proof {
        lemma_arg_size(args@, 0);
        lemma_arg_size(args@, 1);
        lemma_arg_size(args@, 2);
    }
    let needle = scalarize(ctx.eval(&args[0]));
    if let Value::Error(k) = needle {
        return Value::Error(k);
    }
    let (rows, cols, cells) = match block(ctx, &args[1]) {
        Err(k) => {
            return Value::Error(k);
        },
        Ok(t) => t,
    };
    let ci = match extent_index(ctx, &args[2], cols) {
        Err(k) => {
            return Value::Error(k);
        },
        Ok(i) => i,
    };
    let approximate = match approx_arg(ctx, args, 3) {
        Err(k) => {
            return Value::Error(k);
        },
        Ok(b) => b,
    };
    let keys = block_column(rows, cols, &cells, 0);
    let results = block_column(rows, cols, &cells, ci - 1);
    proof {
        if room(*old(ctx)) && lit_table(args@) is Some {
            let lt = lit_table(args@)->0;
            lemma_same_flat(cells@, lt.1);
            assert forall|k: int| 0 <= k < rows implies keys@[k] == column_of(cols, cells@, rows, 0)[k] && results@[k] == column_of(cols, cells@, rows, ci - 1)[k] by {
                assert(same_value(keys@[k], column_of(cols, cells@, rows, 0)[k]));
                assert(same_value(results@[k], column_of(cols, cells@, rows, ci - 1)[k]));
                lemma_block_index(rows, cols, k + 1, 1);
                lemma_block_index(rows, cols, k + 1, ci as int);
                assert(!(cells@[(k + 1 - 1) * cols + (1 - 1)] is Array));
                assert(!(cells@[(k + 1 - 1) * cols + (ci - 1)] is Array));
                assert(!(column_of(cols, cells@, rows, 0)[k] is Array));
                assert(!(column_of(cols, cells@, rows, ci - 1)[k] is Array));
                match keys@[k] { Value::Array(..) => {}, _ => {} }
                match results@[k] { Value::Array(..) => {}, _ => {} }
            }
            assert(keys@ =~= column_of(cols, cells@, rows, 0));
            assert(results@ =~= column_of(cols, cells@, rows, ci - 1));
        }
    }
    search_line(&needle, &keys, &results, approximate)
}

/// What [`hlookup`] is stated to give, for a context `ctx` and arguments `args`.
pub open spec fn hlookup_gives<'r, N: Number, R: Resolver<N>>(ctx: EvalCtx<'r, R>, args: Seq<Expr<N>>, r: Value<N>) -> bool {
    &&& room(ctx) ==> (lit_scalar(args[0]) matches Some(nd) ==> (lit_table(args) matches Some((sh, cells, ap))
        ==> (lit_num(args[2]) matches Some(x) ==> if nd is Error {
        r == nd
    } else {
        match spec_extent_index(x, sh.rows) {
            Err(k) => r == Value::<N>::Error(k),
            Ok(i) => match ap {
                Err(k) => r == Value::<N>::Error(k),
                Ok(a) => line_outcome(r, nd, row_of(sh.cols, cells, 0), row_of(sh.cols, cells, i - 1), a),
            },
        }
    })))
}

/// `HLOOKUP(lookup_value, table_array, row_index, [range_lookup])` — the horizontal dual of
/// [`vlookup`]: find the needle in the first row and return that column's cell in row `row_index`.
pub fn hlookup<N: Number, R: Resolver<N>>(ctx: &mut EvalCtx<R>, args: &[Expr<N>]) -> (r: Value<N>)
    requires
        3 <= args.len() <= 4,
    ensures
        restored(*old(ctx), *final(ctx)),
        room(*old(ctx)) ==> (lit_scalar(args[0]) matches Some(nd) ==> (lit_table(args@) matches Some((sh, cells, ap))
            ==> (lit_num(args[2]) matches Some(x) ==> if nd is Error {
            r == nd
        } else {
            match spec_extent_index(x, sh.rows) {
                Err(k) => r == Value::<N>::Error(k),
                Ok(i) => match ap {
                    Err(k) => r == Value::<N>::Error(k),
                    Ok(a) => line_outcome(r, nd, row_of(sh.cols, cells, 0), row_of(sh.cols, cells, i - 1), a),
                },
            }
        }))),
    decreases args_size(args@), 7nat,
{
    proof {
        lemma_arg_size(args@, 0);
        lemma_arg_size(args@, 1);
        lemma_arg_size(args@, 2);
    }
    let needle = scalarize(ctx.eval(&args[0]));
    if let Value::Error(k) = needle {
        return Value::Error(k);
    }
    let (rows, cols, cells) = match block(ctx, &args[1]) {
        Err(k) => {
            return Value::Error(k);
        },
        Ok(t) => t,
    };
    let ri = match extent_index(ctx, &args[2], rows) {
        Err(k) => {
            return Value::Error(k);
        },
        Ok(i) => i,
    };
    let approximate = match approx_arg(ctx, args, 3) {
        Err(k) => {
            return Value::Error(k);
        },
        Ok(b) => b,
    };
    let keys = block_row(rows, cols, &cells, 0);
    let results = block_row(rows, cols, &cells, ri - 1);
    proof {
        if room(*old(ctx)) && lit_table(args@) is Some {
            let lt = lit_table(args@)->0;
            lemma_same_flat(cells@, lt.1);
            assert forall|k: int| 0 <= k < cols implies keys@[k] == row_of(cols, cells@, 0)[k] && results@[k] == row_of(cols, cells@, ri - 1)[k] by {
                assert(same_value(keys@[k], row_of(cols, cells@, 0)[k]));
                assert(same_value(results@[k], row_of(cols, cells@, ri - 1)[k]));
                lemma_block_index(rows, cols, 1, k + 1);
                lemma_block_index(rows, cols, ri as int, k + 1);
                assert(!(cells@[(1 - 1) * cols + (k + 1 - 1)] is Array));
                assert(!(cells@[(ri - 1) * cols + (k + 1 - 1)] is Array));
                assert(!(row_of(cols, cells@, 0)[k] is Array));
                assert(!(row_of(cols, cells@, ri - 1)[k] is Array));
                match keys@[k] { Value::Array(..) => {}, _ => {} }
                match results@[k] { Value::Array(..) => {}, _ => {} }
            }
            assert(keys@ =~= row_of(cols, cells@, 0));
            assert(results@ =~= row_of(cols, cells@, ri - 1));
        }
    }
    search_line(&needle, &keys, &results, approximate)
}

/// Whether `cell` lies strictly on the requested side of the needle (greater, or less).
pub open spec fn on_side<N: Number>(cell: Value<N>, needle: Value<N>, greater: bool) -> bool {
    if greater {
        value_order(cell, needle) == Order::Greater
    } else {
        value_order(cell, needle) == Order::Less
    }
}

/// Whether key `a` is strictly closer to the needle than key `b` on the requested side: smaller
/// when looking above the needle, larger when looking below it.
pub open spec fn closer<N: Number>(a: Value<N>, b: Value<N>, greater: bool) -> bool {
    value_order(a, b) == if greater { Order::Less } else { Order::Greater }
}

/// Whether position `j` is met no later than position `k` in the search direction.
pub open spec fn no_later(j: int, k: int, reverse: bool) -> bool {
    if reverse { j >= k } else { j <= k }
}

/// Whether `i` holds the closest key on the requested side of the needle: no key on that side is
/// strictly closer, and no equally close one is met earlier in the search direction.
pub open spec fn closest_on_side<N: Number>(cells: Seq<Value<N>>, needle: Value<N>, greater: bool, reverse: bool, i: int) -> bool {
    &&& 0 <= i < cells.len()
    &&& on_side(cells[i], needle, greater)
    &&& forall|j: int| 0 <= j < cells.len() && on_side(#[trigger] cells[j], needle, greater) ==> !closer(cells[j], cells[i], greater)
        && (value_order(cells[j], cells[i]) == Order::Equal ==> no_later(i, j, reverse))
}

/// Whether every key takes part in the engine's order as a total order (no blank, no number
/// incomparable with itself).
pub open spec fn comparable_keys<N: Number>(cells: Seq<Value<N>>) -> bool {
    forall|j: int| 0 <= j < cells.len() ==> comparable_key(#[trigger] cells[j])
}

/// The approximate pick after scanning `step` positions in the search direction: each key on the
/// requested side replaces the pick held so far when it is strictly closer (see [`closer`]), so
/// the first met of equally close keys stays. Over [`comparable_keys`] this is the closest key (see
/// [`closest_on_side`]); a blank key, which reads as the other side's zero, can make a pick made
/// before it stand although the blank ranks closer.
pub open spec fn scan_best<N: Number>(cells: Seq<Value<N>>, needle: Value<N>, greater: bool, reverse: bool, step: int) -> Option<int>
    decreases step,
{
    if step <= 0 {
        None
    } else {
        let prev = scan_best(cells, needle, greater, reverse, step - 1);
        let i = if reverse { cells.len() - step } else { step - 1 };
        if on_side(cells[i], needle, greater) {
            match prev {
                None => Some(i),
                Some(b) => if closer(cells[i], cells[b], greater) { Some(i) } else { Some(b) },
            }
        } else {
            prev
        }
    }
}

/// Whether position `k` has been scanned after `step` steps in the search direction.
pub open spec fn scanned(k: int, n: int, step: int, reverse: bool) -> bool {
    if reverse { n - step <= k < n } else { 0 <= k < step }
}

/// Match mode 2 asks for wildcards.
pub open spec fn wildcard_mode(match_mode: i64) -> bool {
    match_mode == 2
}

/// The `XLOOKUP`/`XMATCH` search: the first exact hit in the search direction (wildcards in mode 2);
/// failing one, modes 1 and -1 take the closest key strictly greater (or less) than the needle, the
/// first met in the search direction among equally close keys; modes 0 and 2 find nothing more.
pub fn xlookup_find<N: Number>(needle: &Value<N>, cells: &Vec<Value<N>>, match_mode: i64, reverse: bool) -> (r: Option<usize>)
    ensures
        !reverse ==> (forall|i: int| #![trigger first_exact(cells@, *needle, wildcard_mode(match_mode), i)]
            first_exact(cells@, *needle, wildcard_mode(match_mode), i) ==> r == Some(i as usize)),
        reverse ==> (forall|i: int| #![trigger last_exact(cells@, *needle, wildcard_mode(match_mode), i)]
            last_exact(cells@, *needle, wildcard_mode(match_mode), i) ==> r == Some(i as usize)),
        none_exact(cells@, *needle, wildcard_mode(match_mode)) && match_mode != 1 && match_mode != -1 ==> r is None,
        none_exact(cells@, *needle, wildcard_mode(match_mode)) && (match_mode == 1 || match_mode == -1) ==> (
            (r matches Some(i) ==> i < cells@.len() && on_side(cells@[i as int], *needle, match_mode == 1))
            && (r is None ==> forall|j: int| 0 <= j < cells@.len() ==> !on_side(#[trigger] cells@[j], *needle, match_mode == 1))
            && (comparable_keys(cells@) ==> (r matches Some(i) ==> closest_on_side(cells@, *needle, match_mode == 1, reverse, i as int)))
            && (match r { Some(i) => Some(i as int), None => None::<int> }) == scan_best(cells@, *needle, match_mode == 1, reverse, cells@.len() as int)),
{
    let wildcard = match_mode == 2;
    let exact = if reverse {
        linear_exact_last(cells.as_slice(), needle, wildcard)
    } else {
        linear_exact(cells.as_slice(), needle, wildcard)
    };
    if exact.is_some() {
        return exact;
    }
    if match_mode != 1 && match_mode != -1 {
        return None;
    }
    let want_greater = match_mode == 1;
    let n = cells.len();
    let mut best: Option<usize> = None;
    let mut step: usize = 0;
    while step < n
        invariant
            n == cells@.len(),
            step <= n,
            best matches Some(b) ==> b < n && on_side(cells@[b as int], *needle, want_greater),
            best is None ==> forall|k: int| #![trigger cells@[k]]
                (if reverse { n - step <= k < n } else { 0 <= k < step }) ==> !on_side(cells@[k], *needle, want_greater),
            best matches Some(b) ==> scanned(b as int, n as int, step as int, reverse),
            (match best { Some(b) => Some(b as int), None => None::<int> }) == scan_best(cells@, *needle, want_greater, reverse, step as int),
            comparable_keys(cells@) ==> (best matches Some(b) ==> forall|k: int| #![trigger cells@[k]]
                scanned(k, n as int, step as int, reverse) && on_side(cells@[k], *needle, want_greater)
                ==> !closer(cells@[k], cells@[b as int], want_greater)
                    && (value_order(cells@[k], cells@[b as int]) == Order::Equal ==> no_later(b as int, k, reverse))),
        decreases n - step,
    {
        let i = if reverse { n - 1 - step } else { step };
        let c = &cells[i];
        let side = compare_ord(c, needle);
        let hit = if want_greater { side == Order::Greater } else { side == Order::Less };
        let ghost old_best = best;
        if hit {
            best = match best {
                None => Some(i),
                Some(b) => {
                    let o = compare_ord(c, &cells[b]);
                    let better = if want_greater { o == Order::Less } else { o == Order::Greater };
                    if better { Some(i) } else { Some(b) }
                },
            };
        }
        proof {
            if comparable_keys(cells@) {
                if let Some(b) = best {
                    assert forall|k: int| #![trigger cells@[k]]
                        scanned(k, n as int, step + 1, reverse) && on_side(cells@[k], *needle, want_greater)
                        implies !closer(cells@[k], cells@[b as int], want_greater)
                            && (value_order(cells@[k], cells@[b as int]) == Order::Equal ==> no_later(b as int, k, reverse)) by {
                        assert(comparable_key(cells@[k]));
                        assert(comparable_key(cells@[b as int]));
                        assert(comparable_key(cells@[i as int]));
                        law_value_order_total(cells@[k], cells@[b as int], cells@[b as int]);
                        if let Some(ob) = old_best {
                            assert(comparable_key(cells@[ob as int]));
                            law_value_order_total(cells@[k], cells@[i as int], cells@[ob as int]);
                            law_value_order_total(cells@[i as int], cells@[ob as int], cells@[k]);
                            law_value_order_total(cells@[k], cells@[ob as int], cells@[i as int]);
                        }
                    }
                }
            }
        }
        step = step + 1;
    }
    proof {
        if comparable_keys(cells@) {
            if let Some(b) = best {
                assert forall|j: int| 0 <= j < cells@.len() && on_side(#[trigger] cells@[j], *needle, want_greater)
                    implies !closer(cells@[j], cells@[b as int], want_greater)
                        && (value_order(cells@[j], cells@[b as int]) == Order::Equal ==> no_later(b as int, j, reverse)) by {
                    assert(scanned(j, n as int, step as int, reverse));
                    assert(cells@[j] == cells@[j]);
                }
            }
        }
        if best is None {
            assert forall|j: int| 0 <= j < cells@.len() implies !on_side(#[trigger] cells@[j], *needle, want_greater) by {
                if reverse {
                    assert(n - step <= j < n);
                } else {
                    assert(0 <= j < step);
                }
            }
        }
    }
    best
}

/// Evaluate an `XLOOKUP`/`XMATCH` match mode, refusing one outside `{-1, 0, 1, 2}` with `#VALUE!`.
fn match_mode_arg<N: Number, R: Resolver<N>>(ctx: &mut EvalCtx<R>, args: &[Expr<N>], i: usize) -> (r: Result<i64, ErrKind>)
    ensures
        restored(*old(ctx), *final(ctx)),
        r matches Ok(m) ==> -1 <= m <= 2,
        i >= args.len() ==> r == Ok::<i64, ErrKind>(0),
        room(*old(ctx)) && i < args@.len() ==> (lit_num(args[i as int]) matches Some(x) ==> r == if x.spec_trunc_int() < -1 || x.spec_trunc_int() > 2 {
            Err::<i64, ErrKind>(ErrKind::Value)
        } else {
            Ok::<i64, ErrKind>(x.spec_trunc_int())
        }),
    decreases args_size(args@), 5nat,
{
    let m = mode_arg(ctx, args, i, 0)?;
    if m < -1 || m > 2 {
        return Err(ErrKind::Value);
    }
    Ok(m)
}

/// What [`xlookup`] is stated to give, for a context `ctx` and arguments `args`.
pub open spec fn xlookup_gives<'r, N: Number, R: Resolver<N>>(ctx: EvalCtx<'r, R>, args: Seq<Expr<N>>, r: Value<N>) -> bool {
    &&& room(ctx) ==> (lit_scalar(args[0]) matches Some(nd) ==> match (args[1], args[2]) {
        (Expr::Lit(Value::Array(s1, keys)), Expr::Lit(Value::Array(s2, ret))) => keys@.len() == s1.rows * s1.cols && flat_cells(keys@)
            && ret@.len() == s2.rows * s2.cols && flat_cells(ret@) && (args.len() > 3 ==> lit_scalar(args[3]) is Some)
            ==> (lit_mode(args, 4, 0) matches Some(mm) ==> (lit_mode(args, 5, 1) matches Some(sm) ==> if nd is Error {
            r == nd
        } else if keys@.len() != ret@.len() || keys@.len() == 0 || mm < -1 || mm > 2 || !(sm == 1 || sm == -1 || sm == 2 || sm == -2) {
            r == Value::<N>::Error(ErrKind::Value)
        } else {
            xlookup_outcome(r, nd, keys@, ret@, mm, sm < 0, if args.len() > 3 { lit_scalar(args[3])->0 } else { Value::<N>::Error(ErrKind::Na) })
        })),
        _ => true,
    })
}

/// What [`xlookup`] is stated to give for the values its arguments evaluate to in `ctx`.
pub open spec fn xlookup_reads<'r, N: Number, R: Resolver<N>>(ctx: EvalCtx<'r, R>, args: Seq<Expr<N>>, r: Value<N>) -> bool {
    &&& exists|v: Value<N>| #[trigger] arg_value(ctx, args[0], v) && match spec_scalarize(v) {
        Value::Error(k) => r == Value::<N>::Error(k),
        nd => exists|w: Value<N>| #[trigger] arg_value(ctx, args[1], w) && match spec_block(w) {
            Err(k) => r == Value::<N>::Error(k),
            Ok(kb) => exists|x: Value<N>| #[trigger] arg_value(ctx, args[2], x) && match spec_block(x) {
                Err(k) => r == Value::<N>::Error(k),
                Ok(rb) => room(ctx) ==> xlookup_given(ctx, args, nd, kb.2, rb.2, r),
            },
        },
    }
}

/// `XLOOKUP(lookup, lookup_array, return_array, [if_not_found], [match_mode], [search_mode])` —
/// exact by default (see [`xlookup_find`]); search mode 1/2 scans first to last, -1/-2 last to
/// first; any other mode is `#VALUE!`. A miss returns `if_not_found` (evaluated only then) or
/// `#N/A`. The two arrays must hold the same number of cells (else `#VALUE!`).
#[verifier::spinoff_prover]
#[verifier::rlimit(40)]
pub fn xlookup<N: Number, R: Resolver<N>>(ctx: &mut EvalCtx<R>, args: &[Expr<N>]) -> (r: Value<N>)
    requires
        3 <= args.len() <= 6,
    ensures
        restored(*old(ctx), *final(ctx)),
        room(*old(ctx)) ==> (lit_scalar(args[0]) matches Some(nd) ==> match (args[1], args[2]) {
            (Expr::Lit(Value::Array(s1, keys)), Expr::Lit(Value::Array(s2, ret))) => keys@.len() == s1.rows * s1.cols && flat_cells(keys@)
                && ret@.len() == s2.rows * s2.cols && flat_cells(ret@) && (args@.len() > 3 ==> lit_scalar(args[3]) is Some)
                ==> (lit_mode(args@, 4, 0) matches Some(mm) ==> (lit_mode(args@, 5, 1) matches Some(sm) ==> if nd is Error {
                r == nd
            } else if keys@.len() != ret@.len() || keys@.len() == 0 || mm < -1 || mm > 2 || !(sm == 1 || sm == -1 || sm == 2 || sm == -2) {
                r == Value::<N>::Error(ErrKind::Value)
            } else {
                xlookup_outcome(r, nd, keys@, ret@, mm, sm < 0, if args@.len() > 3 { lit_scalar(args[3])->0 } else { Value::<N>::Error(ErrKind::Na) })
            })),
            _ => true,
        }),
        exists|v: Value<N>| #[trigger] arg_value(*old(ctx), args@[0], v) && match spec_scalarize(v) {
            Value::Error(k) => r == Value::<N>::Error(k),
            nd => exists|w: Value<N>| #[trigger] arg_value(*old(ctx), args@[1], w) && match spec_block(w) {
                Err(k) => r == Value::<N>::Error(k),
                Ok(kb) => exists|x: Value<N>| #[trigger] arg_value(*old(ctx), args@[2], x) && match spec_block(x) {
                    Err(k) => r == Value::<N>::Error(k),
                    Ok(rb) => room(*old(ctx)) ==> xlookup_given(*old(ctx), args@, nd, kb.2, rb.2, r),
                },
            },
        },
    decreases args_size(args@), 7nat,
{
    proof {
        lemma_arg_size(args@, 0);
        lemma_arg_size(args@, 1);
        lemma_arg_size(args@, 2);
        if args.len() > 3 {
            lemma_arg_size(args@, 3);
        }
    }
    let ev = ctx.eval(&args[0]);
    proof {
        assert(arg_value(*old(ctx), args@[0], ev));
        lemma_restored_same(*old(ctx), *ctx);
    }
    let needle = scalarize(ev);
    if let Value::Error(k) = needle {
        return Value::Error(k);
    }
    let (_lr, _lc, keys) = match block(ctx, &args[1]) {
        Err(k) => {
            return Value::Error(k);
        },
        Ok(t) => t,
    };
    proof {
        lemma_restored_same(*old(ctx), *ctx);
    }
    let (_rr, _rc, ret) = match block(ctx, &args[2]) {
        Err(k) => {
            return Value::Error(k);
        },
        Ok(t) => t,
    };
    if keys.len() != ret.len() || keys.len() == 0 {
        return Value::Error(ErrKind::Value);
    }
    let match_mode = match match_mode_arg(ctx, args, 4) {
        Err(k) => {
            return Value::Error(k);
        },
        Ok(m) => m,
    };
    let search_mode = match mode_arg(ctx, args, 5, 1) {
        Err(k) => {
            return Value::Error(k);
        },
        Ok(m) => m,
    };
    if !(search_mode == 1 || search_mode == -1 || search_mode == 2 || search_mode == -2) {
        return Value::Error(ErrKind::Value);
    }
    let ghost lits = room(*old(ctx)) && match (args@[1], args@[2]) {
        (Expr::Lit(Value::Array(s1, k1)), Expr::Lit(Value::Array(s2, r1))) => k1@.len() == s1.rows * s1.cols && flat_cells(k1@)
            && r1@.len() == s2.rows * s2.cols && flat_cells(r1@),
        _ => false,
    };
    proof {
        if lits {
            lemma_same_flat(keys@, args@[1]->Lit_0->Array_1@);
            lemma_same_flat(ret@, args@[2]->Lit_0->Array_1@);
        }
    }
    match xlookup_find(&needle, &keys, match_mode, search_mode < 0) {
        Some(i) => {
            if i < ret.len() {
                let res = matched_scalar(&ret[i]);
                proof {
                    if none_exact(keys@, needle, wildcard_mode(match_mode)) && (match_mode == 1 || match_mode == -1) {
                        assert(on_side(keys@[i as int], needle, match_mode == 1));
                    }
                    let nf = if args@.len() > 3 { lit_scalar(args@[3])->0 } else { Value::<N>::Error(ErrKind::Na) };
                    assert(xlookup_outcome(res, needle, keys@, ret@, match_mode, search_mode < 0, nf));
                }
                res
            } else {
                Value::Error(ErrKind::Na)
            }
        },
        None => {
            if args.len() > 3 {
                proof {
                    lemma_restored_same(*old(ctx), *ctx);
                }
                let res = ctx.eval(&args[3]);
                proof {
                    assert(arg_value(*old(ctx), args@[3], res));
                    if lit_scalar(args@[3]) is Some && room(*old(ctx)) {
                        assert(xlookup_outcome(res, needle, keys@, ret@, match_mode, search_mode < 0, lit_scalar(args@[3])->0));
                    }
                }
                res
            } else {
                proof {
                    assert(xlookup_outcome(Value::<N>::Error(ErrKind::Na), needle, keys@, ret@, match_mode, search_mode < 0, Value::<N>::Error(ErrKind::Na)));
                }
                Value::Error(ErrKind::Na)
            }
        },
    }
}

/// What `XLOOKUP` may give over literal keys and results (see [`xlookup_find`]): the aligned result
/// of the first (or, searching backward, last) exact hit; with none, `nf` for modes 0 and 2, and
/// for modes 1 and -1 either `nf` with no key on the requested side, or the aligned result of some
/// key on that side.
pub open spec fn xlookup_outcome<N: Number>(r: Value<N>, nd: Value<N>, keys: Seq<Value<N>>, ret: Seq<Value<N>>, mm: i64, reverse: bool, nf: Value<N>) -> bool {
    &&& !reverse ==> forall|i: int| #![trigger first_exact(keys, nd, wildcard_mode(mm), i)] first_exact(keys, nd, wildcard_mode(mm), i)
        ==> same_value(r, spec_matched(ret[i]))
    &&& reverse ==> forall|i: int| #![trigger last_exact(keys, nd, wildcard_mode(mm), i)] last_exact(keys, nd, wildcard_mode(mm), i)
        ==> same_value(r, spec_matched(ret[i]))
    &&& none_exact(keys, nd, wildcard_mode(mm)) && mm != 1 && mm != -1 ==> r == nf
    &&& none_exact(keys, nd, wildcard_mode(mm)) && (mm == 1 || mm == -1) ==> (
        (r == nf && forall|j: int| 0 <= j < keys.len() ==> !on_side(#[trigger] keys[j], nd, mm == 1))
        || exists|i: int| 0 <= i < keys.len() && on_side(#[trigger] keys[i], nd, mm == 1) && same_value(r, spec_matched(ret[i]))
            && (comparable_keys(keys) ==> closest_on_side(keys, nd, mm == 1, reverse, i))
            && scan_best(keys, nd, mm == 1, reverse, keys.len() as int) == Some(i))
}

/// Whether a lookup finds nothing: no exact match, and for an approximate mode (`±1`) no key on
/// the wanted side of the needle either.
pub open spec fn lookup_misses<N: Number>(keys: Seq<Value<N>>, nd: Value<N>, mm: i64) -> bool {
    none_exact(keys, nd, wildcard_mode(mm)) && ((mm != 1 && mm != -1)
        || forall|j: int| 0 <= j < keys.len() ==> !on_side(#[trigger] keys[j], nd, mm == 1))
}

/// What `XLOOKUP` gives once its needle, lookup block and return block have evaluated, its modes
/// literal or omitted: different lengths or an empty lookup block are `#VALUE!`, a mode out of
/// range `#VALUE!`; else [`xlookup_outcome`], and on a miss the value `if_not_found` evaluates to
/// (or `#N/A` without one).
pub open spec fn xlookup_given<'r, N: Number, R: Resolver<N>>(ctx: EvalCtx<'r, R>, args: Seq<Expr<N>>, nd: Value<N>,
    keys: Seq<Value<N>>, ret: Seq<Value<N>>, r: Value<N>) -> bool {
    if keys.len() != ret.len() || keys.len() == 0 {
        r == Value::<N>::Error(ErrKind::Value)
    } else {
        lit_mode(args, 4, 0) matches Some(mm) ==> (lit_mode(args, 5, 1) matches Some(sm) ==> if mm < -1 || mm > 2
            || !(sm == 1 || sm == -1 || sm == 2 || sm == -2) {
            r == Value::<N>::Error(ErrKind::Value)
        } else {
            xlookup_outcome(r, nd, keys, ret, mm, sm < 0, r)
                && (lookup_misses(keys, nd, mm) ==> if args.len() > 3 { arg_value(ctx, args[3], r) } else { r == Value::<N>::Error(ErrKind::Na) })
        })
    }
}

/// The literal numeric argument at `i`, truncated, or `default` when the call has none there.
pub open spec fn lit_mode<N: Number>(args: Seq<Expr<N>>, i: int, default: i64) -> Option<i64> {
    if i < args.len() {
        match lit_num(args[i]) {
            Some(x) => Some(x.spec_trunc_int()),
            None => None,
        }
    } else {
        Some(default)
    }
}

/// What `XMATCH` may give over a vector (see [`xlookup_find`]): the position after the first exact
/// hit; with none, `#N/A` for modes 0 and 2, and for modes 1 and -1 either `#N/A` with no key on
/// the requested side, or the position after some key on that side.
pub open spec fn xmatch_outcome<N: Number>(r: Value<N>, nd: Value<N>, cells: Seq<Value<N>>, mm: i64) -> bool {
    &&& forall|i: int| #![trigger first_exact(cells, nd, wildcard_mode(mm), i)] first_exact(cells, nd, wildcard_mode(mm), i)
        ==> r == Value::<N>::Number(N::spec_from_int(clamp_count(i + 1)))
    &&& none_exact(cells, nd, wildcard_mode(mm)) && mm != 1 && mm != -1 ==> r == Value::<N>::Error(ErrKind::Na)
    &&& none_exact(cells, nd, wildcard_mode(mm)) && (mm == 1 || mm == -1) ==> (
        (r == Value::<N>::Error(ErrKind::Na) && forall|j: int| 0 <= j < cells.len() ==> !on_side(#[trigger] cells[j], nd, mm == 1))
        || exists|i: int| 0 <= i < cells.len() && on_side(#[trigger] cells[i], nd, mm == 1) && r == Value::<N>::Number(N::spec_from_int(clamp_count(i + 1)))
            && (comparable_keys(cells) ==> closest_on_side(cells, nd, mm == 1, false, i))
            && scan_best(cells, nd, mm == 1, false, cells.len() as int) == Some(i))
}

/// What [`xmatch`] is stated to give, for a context `ctx` and arguments `args`.
pub open spec fn xmatch_gives<'r, N: Number, R: Resolver<N>>(ctx: EvalCtx<'r, R>, args: Seq<Expr<N>>, r: Value<N>) -> bool {
    &&& room(ctx) ==> (lit_scalar(args[0]) matches Some(nd) ==> match args[1] {
        Expr::Lit(Value::Array(sh, cells)) => cells@.len() == sh.rows * sh.cols && flat_cells(cells@)
            ==> (lit_arg(args, 2, N::spec_from_int(0)) matches Some(m) ==> if nd is Error {
            r == nd
        } else if sh.rows > 1 && sh.cols > 1 {
            r == Value::<N>::Error(ErrKind::Na)
        } else {
            let mm = if args.len() == 3 { m.spec_trunc_int() } else { 0i64 };
            if mm < -1 || mm > 2 { r == Value::<N>::Error(ErrKind::Value) } else { xmatch_outcome(r, nd, cells@, mm) }
        }),
        _ => true,
    })
}

/// `XMATCH(lookup_value, lookup_array, [match_mode])` — the 1-based position of the needle in a
/// vector by the `XLOOKUP` search (first to last); a 2-D array, or no match, is `#N/A`.
#[verifier::spinoff_prover]
#[verifier::rlimit(30)]
pub fn xmatch<N: Number, R: Resolver<N>>(ctx: &mut EvalCtx<R>, args: &[Expr<N>]) -> (r: Value<N>)
    requires
        2 <= args.len() <= 3,
    ensures
        restored(*old(ctx), *final(ctx)),
        room(*old(ctx)) ==> (lit_scalar(args[0]) matches Some(nd) ==> match args[1] {
            Expr::Lit(Value::Array(sh, cells)) => cells@.len() == sh.rows * sh.cols && flat_cells(cells@)
                ==> (lit_arg(args@, 2, N::spec_from_int(0)) matches Some(m) ==> if nd is Error {
                r == nd
            } else if sh.rows > 1 && sh.cols > 1 {
                r == Value::<N>::Error(ErrKind::Na)
            } else {
                let mm = if args@.len() == 3 { m.spec_trunc_int() } else { 0i64 };
                if mm < -1 || mm > 2 { r == Value::<N>::Error(ErrKind::Value) } else { xmatch_outcome(r, nd, cells@, mm) }
            }),
            _ => true,
        }),
    decreases args_size(args@), 7nat,
{
    proof {
        lemma_arg_size(args@, 0);
        lemma_arg_size(args@, 1);
    }
    let needle = scalarize(ctx.eval(&args[0]));
    if let Value::Error(k) = needle {
        return Value::Error(k);
    }
    let (rows, cols, cells) = match block(ctx, &args[1]) {
        Err(k) => {
            return Value::Error(k);
        },
        Ok(t) => t,
    };
    if rows > 1 && cols > 1 {
        return Value::Error(ErrKind::Na);
    }
    let match_mode = match match_mode_arg(ctx, args, 2) {
        Err(k) => {
            return Value::Error(k);
        },
        Ok(m) => m,
    };
    proof {
        match args@[1] {
            Expr::Lit(Value::Array(sh, cs)) => {
                if room(*old(ctx)) && cs@.len() == sh.rows * sh.cols && flat_cells(cs@) {
                    lemma_same_flat(cells@, cs@);
                }
            },
            _ => {},
        }
    }
    match xlookup_find(&needle, &cells, match_mode, false) {
        Some(i) => {
            let res = position_value(i);
            proof {
                if none_exact(cells@, needle, wildcard_mode(match_mode)) && (match_mode == 1 || match_mode == -1) {
                    assert(on_side(cells@[i as int], needle, match_mode == 1));
                }
                assert(xmatch_outcome(res, needle, cells@, match_mode));
            }
            res
        },
        None => {
            proof {
                assert(xmatch_outcome(Value::<N>::Error(ErrKind::Na), needle, cells@, match_mode));
            }
            Value::Error(ErrKind::Na)
        },
    }
}

/// What [`choose_fn`] is stated to give, for a context `ctx` and arguments `args`.
pub open spec fn choose_fn_gives<'r, N: Number, R: Resolver<N>>(ctx: EvalCtx<'r, R>, args: Seq<Expr<N>>, r: Value<N>) -> bool {
    &&& room(ctx) ==> (lit_num(args[0]) matches Some(x) ==> ({
        let t = x.spec_trunc_of();
        let count = args.len() - 1;
        if t.spec_order(N::spec_from_int(1)) == Some(Order::Less) || N::spec_from_int(count as i64).spec_order(t) == Some(Order::Less)
            || t.spec_trunc_int() < 1 || t.spec_trunc_int() > count as i64 {
            r == Value::<N>::Error(ErrKind::Value)
        } else {
            lit_scalar(args[t.spec_trunc_int() as int]) matches Some(v) ==> r == v
        }
    }))
}

/// `CHOOSE(index, value1, value2, …)` — the `index`-th value (1-based, truncated); only the chosen
/// argument is evaluated. An index outside the values is `#VALUE!`.
pub fn choose_fn<N: Number, R: Resolver<N>>(ctx: &mut EvalCtx<R>, args: &[Expr<N>]) -> (r: Value<N>)
    requires
        args.len() >= 2,
    ensures
        restored(*old(ctx), *final(ctx)),
        room(*old(ctx)) ==> (lit_num(args[0]) matches Some(x) ==> ({
            let t = x.spec_trunc_of();
            let count = args@.len() - 1;
            if t.spec_order(N::spec_from_int(1)) == Some(Order::Less) || N::spec_from_int(count as i64).spec_order(t) == Some(Order::Less)
                || t.spec_trunc_int() < 1 || t.spec_trunc_int() > count as i64 {
                r == Value::<N>::Error(ErrKind::Value)
            } else {
                lit_scalar(args[t.spec_trunc_int() as int]) matches Some(v) ==> r == v
            }
        })),
    decreases args_size(args@), 7nat,
{
    proof {
        lemma_arg_size(args@, 0);
    }
    let v = scalarize(ctx.eval(&args[0]));
    let t = match coerce_num(&v) {
        Err(k) => {
            return Value::Error(k);
        },
        Ok(n) => n.trunc_of(),
    };
    let count = args.len() - 1;
    if less_than(t, N::from_int(1)) || less_than(N::from_int(count as i64), t) {
        return Value::Error(ErrKind::Value);
    }
    let i = t.trunc_int();
    if i < 1 || i > count as i64 {
        return Value::Error(ErrKind::Value);
    }
    proof {
        lemma_arg_size(args@, i as int);
    }
    ctx.eval(&args[i as usize])
}

/// The 1-based row (or column) a reference node names: a cell's own, a range's top (or left)
/// edge; anything else is `#VALUE!`.
pub open spec fn spec_ref_line<N>(e: Expr<N>, row: bool) -> Option<int> {
    match e {
        Expr::Ref(r) => Some(if row { r.row + 1 } else { r.col + 1 }),
        Expr::Range(rn) => Some(if row {
            (if rn.start_row <= rn.end_row { rn.start_row } else { rn.end_row }) + 1
        } else {
            (if rn.start_col <= rn.end_col { rn.start_col } else { rn.end_col }) + 1
        }),
        _ => None,
    }
}

/// The row (or column) number of a reference node, read from the node itself, never its value.
pub fn ref_line<N: Number>(e: &Expr<N>, row: bool) -> (r: Value<N>)
    ensures
        spec_ref_line(*e, row) is None ==> r == Value::<N>::Error(ErrKind::Value),
        spec_ref_line(*e, row) matches Some(k) ==> r == Value::<N>::Number(N::spec_from_int(k as i64)),
{
    let k: u32 = match e {
        Expr::Ref(r) => if row { r.row } else { r.col },
        Expr::Range(rn) => {
            if row {
                if rn.start_row <= rn.end_row { rn.start_row } else { rn.end_row }
            } else {
                if rn.start_col <= rn.end_col { rn.start_col } else { rn.end_col }
            }
        },
        _ => {
            return Value::Error(ErrKind::Value);
        },
    };
    Value::Number(N::from_int(k as i64 + 1))
}

/// What [`row_fn`] is stated to give, for a context `ctx` and arguments `args`.
pub open spec fn row_fn_gives<'r, N: Number, R: Resolver<N>>(ctx: EvalCtx<'r, R>, args: Seq<Expr<N>>, r: Value<N>) -> bool {
    &&& spec_ref_line(args[0], true) is None ==> r == Value::<N>::Error(ErrKind::Value)
    &&& spec_ref_line(args[0], true) matches Some(k) ==> r == Value::<N>::Number(N::spec_from_int(k as i64))
}

/// `ROW(reference)` — the 1-based row of a reference (the top row of a range).
pub fn row_fn<N: Number, R: Resolver<N>>(ctx: &mut EvalCtx<R>, args: &[Expr<N>]) -> (r: Value<N>)
    requires
        args.len() == 1,
    ensures
        restored(*old(ctx), *final(ctx)),
        spec_ref_line(args@[0], true) is None ==> r == Value::<N>::Error(ErrKind::Value),
        spec_ref_line(args@[0], true) matches Some(k) ==> r == Value::<N>::Number(N::spec_from_int(k as i64)),
    decreases args_size(args@), 7nat,
{
    ref_line(&args[0], true)
}

/// What [`column_fn`] is stated to give, for a context `ctx` and arguments `args`.
pub open spec fn column_fn_gives<'r, N: Number, R: Resolver<N>>(ctx: EvalCtx<'r, R>, args: Seq<Expr<N>>, r: Value<N>) -> bool {
    &&& spec_ref_line(args[0], false) is None ==> r == Value::<N>::Error(ErrKind::Value)
    &&& spec_ref_line(args[0], false) matches Some(k) ==> r == Value::<N>::Number(N::spec_from_int(k as i64))
}

/// `COLUMN(reference)` — the 1-based column of a reference (the left column of a range).
pub fn column_fn<N: Number, R: Resolver<N>>(ctx: &mut EvalCtx<R>, args: &[Expr<N>]) -> (r: Value<N>)
    requires
        args.len() == 1,
    ensures
        restored(*old(ctx), *final(ctx)),
        spec_ref_line(args@[0], false) is None ==> r == Value::<N>::Error(ErrKind::Value),
        spec_ref_line(args@[0], false) matches Some(k) ==> r == Value::<N>::Number(N::spec_from_int(k as i64)),
    decreases args_size(args@), 7nat,
{
    ref_line(&args[0], false)
}

/// What `ROWS` (`row`) or `COLUMNS` gives for a literal argument: an error passed on, a
/// well-formed array's extent, or 1 for a scalar.
pub open spec fn extent_outcome<N: Number>(args: Seq<Expr<N>>, row: bool, r: Value<N>) -> bool {
    match args[0] {
        Expr::Lit(Value::Error(k)) => r == Value::<N>::Error(k),
        Expr::Lit(Value::Array(sh, cells)) => cells@.len() == sh.rows * sh.cols ==> r == Value::<N>::Number(N::spec_from_int(if row { sh.rows as i64 } else { sh.cols as i64 })),
        Expr::Lit(_) => r == Value::<N>::Number(N::spec_from_int(1)),
        _ => true,
    }
}

/// `ROWS(range_or_array)` / `COLUMNS(range_or_array)` — the row or column count of an argument (a
/// scalar is 1×1); an error propagates.
fn extent_fn<N: Number, R: Resolver<N>>(ctx: &mut EvalCtx<R>, args: &[Expr<N>], row: bool) -> (r: Value<N>)
    requires
        args.len() == 1,
    ensures
        restored(*old(ctx), *final(ctx)),
        r is Number || r is Error,
        room(*old(ctx)) ==> extent_outcome(args@, row, r),
    decreases args_size(args@), 5nat,
{
    proof {
        lemma_arg_size(args@, 0);
    }
    match block(ctx, &args[0]) {
        Err(k) => Value::Error(k),
        Ok((rows, cols, _)) => Value::Number(N::from_int(if row { rows as i64 } else { cols as i64 })),
    }
}

/// What [`rows_fn`] is stated to give, for a context `ctx` and arguments `args`.
pub open spec fn rows_fn_gives<'r, N: Number, R: Resolver<N>>(ctx: EvalCtx<'r, R>, args: Seq<Expr<N>>, r: Value<N>) -> bool {
    &&& room(ctx) ==> extent_outcome(args, true, r)
    &&& r is Number || r is Error
}

/// `ROWS(range_or_array)` — the row count.
pub fn rows_fn<N: Number, R: Resolver<N>>(ctx: &mut EvalCtx<R>, args: &[Expr<N>]) -> (r: Value<N>)
    requires
        args.len() == 1,
    ensures
        room(*old(ctx)) ==> extent_outcome(args@, true, r),
        restored(*old(ctx), *final(ctx)),
        r is Number || r is Error,
    decreases args_size(args@), 7nat,
{
    extent_fn(ctx, args, true)
}

/// What [`columns_fn`] is stated to give, for a context `ctx` and arguments `args`.
pub open spec fn columns_fn_gives<'r, N: Number, R: Resolver<N>>(ctx: EvalCtx<'r, R>, args: Seq<Expr<N>>, r: Value<N>) -> bool {
    &&& room(ctx) ==> extent_outcome(args, false, r)
    &&& r is Number || r is Error
}

/// `COLUMNS(range_or_array)` — the column count.
pub fn columns_fn<N: Number, R: Resolver<N>>(ctx: &mut EvalCtx<R>, args: &[Expr<N>]) -> (r: Value<N>)
    requires
        args.len() == 1,
    ensures
        room(*old(ctx)) ==> extent_outcome(args@, false, r),
        restored(*old(ctx), *final(ctx)),
        r is Number || r is Error,
    decreases args_size(args@), 7nat,
{
    extent_fn(ctx, args, false)
}

/// The two-argument array form of `LOOKUP`: a block wider than tall searches its first row and
/// returns the aligned cell of its last row; otherwise it searches its first column and returns
/// the aligned cell of its last column (approximate, keys assumed ascending).
fn lookup_array_form<N: Number>(needle: &Value<N>, rows: u32, cols: u32, cells: &Vec<Value<N>>) -> (r: Value<N>)
    requires
        cells@.len() == rows * cols,
        rows >= 1,
        cols >= 1,
    ensures
        flat_cells(cells@) ==> array_form_outcome(r, *needle, rows, cols, cells@),
{
    let total = cells.len();
    assert(rows * cols <= usize::MAX);
    if cols > rows {
        let keys = block_row(rows, cols, cells, 0);
        let results = block_row(rows, cols, cells, rows - 1);
        proof {
            if flat_cells(cells@) {
                assert forall|k: int| 0 <= k < cols implies keys@[k] == row_of(cols, cells@, 0)[k] && results@[k] == row_of(cols, cells@, rows - 1)[k] by {
                    lemma_block_index(rows, cols, 1, k + 1);
                    lemma_block_index(rows, cols, rows as int, k + 1);
                    assert(!(cells@[(1 - 1) * cols + (k + 1 - 1)] is Array));
                    assert(!(cells@[(rows - 1) * cols + (k + 1 - 1)] is Array));
                    match keys@[k] { Value::Array(..) => {}, _ => {} }
                    match results@[k] { Value::Array(..) => {}, _ => {} }
                }
                assert(keys@ =~= row_of(cols, cells@, 0));
                assert(results@ =~= row_of(cols, cells@, rows - 1));
            }
        }
        search_line(needle, &keys, &results, true)
    } else {
        let keys = block_column(rows, cols, cells, 0);
        let results = block_column(rows, cols, cells, cols - 1);
        proof {
            if flat_cells(cells@) {
                assert forall|k: int| 0 <= k < rows implies keys@[k] == column_of(cols, cells@, rows, 0)[k] && results@[k] == column_of(cols, cells@, rows, cols - 1)[k] by {
                    lemma_block_index(rows, cols, k + 1, 1);
                    lemma_block_index(rows, cols, k + 1, cols as int);
                    assert(!(cells@[(k + 1 - 1) * cols + (1 - 1)] is Array));
                    assert(!(cells@[(k + 1 - 1) * cols + (cols - 1)] is Array));
                    match keys@[k] { Value::Array(..) => {}, _ => {} }
                    match results@[k] { Value::Array(..) => {}, _ => {} }
                }
                assert(keys@ =~= column_of(cols, cells@, rows, 0));
                assert(results@ =~= column_of(cols, cells@, rows, cols - 1));
            }
        }
        search_line(needle, &keys, &results, true)
    }
}

/// What the array form of `LOOKUP` may give over a block without nested arrays (see
/// [`lookup_array_form`]).
pub open spec fn array_form_outcome<N: Number>(r: Value<N>, needle: Value<N>, rows: u32, cols: u32, cells: Seq<Value<N>>) -> bool {
    if cols > rows {
        line_outcome(r, needle, row_of(cols, cells, 0), row_of(cols, cells, rows - 1), true)
    } else {
        line_outcome(r, needle, column_of(cols, cells, rows, 0), column_of(cols, cells, rows, cols - 1), true)
    }
}

/// What the vector form of `LOOKUP` may give (see [`lookup_fn`]): over partitioned keys, the result
/// cell aligned with the last accepted key (`#N/A` past the result vector's end), or `#N/A`.
pub open spec fn vector_form_outcome<N: Number>(r: Value<N>, needle: Value<N>, keys: Seq<Value<N>>, results: Seq<Value<N>>) -> bool {
    partitioned(keys, needle, true) ==> (
        (none_accepted(keys, needle, true) ==> r == Value::<N>::Error(ErrKind::Na))
        && forall|i: int| #![trigger last_accepted(keys, needle, true, i)] last_accepted(keys, needle, true, i)
            ==> if i < results.len() { same_value(r, spec_matched(results[i])) } else { r == Value::<N>::Error(ErrKind::Na) })
}

/// What [`lookup_fn`] is stated to give, for a context `ctx` and arguments `args`.
pub open spec fn lookup_fn_gives<'r, N: Number, R: Resolver<N>>(ctx: EvalCtx<'r, R>, args: Seq<Expr<N>>, r: Value<N>) -> bool {
    &&& room(ctx) ==> (lit_scalar(args[0]) matches Some(nd) ==> match args[1] {
        Expr::Lit(Value::Array(sh, cells)) => cells@.len() == sh.rows * sh.cols && flat_cells(cells@) ==> if nd is Error {
            r == nd
        } else if args.len() == 2 {
            if sh.rows == 0 || sh.cols == 0 { r == Value::<N>::Error(ErrKind::Na) } else { array_form_outcome(r, nd, sh.rows, sh.cols, cells@) }
        } else {
            match args[2] {
                Expr::Lit(Value::Array(s2, res)) => res@.len() == s2.rows * s2.cols && flat_cells(res@) ==> vector_form_outcome(r, nd, cells@, res@),
                _ => true,
            }
        },
        _ => true,
    })
}

/// `LOOKUP(lookup_value, lookup_vector, [result_vector])` — with a result vector, the last key at
/// or below the needle in the flattened lookup vector picks the cell at the same position of the
/// result vector (`#N/A` past its end); without one, the array form (see [`lookup_array_form`]).
pub fn lookup_fn<N: Number, R: Resolver<N>>(ctx: &mut EvalCtx<R>, args: &[Expr<N>]) -> (r: Value<N>)
    requires
        2 <= args.len() <= 3,
    ensures
        restored(*old(ctx), *final(ctx)),
        room(*old(ctx)) ==> (lit_scalar(args[0]) matches Some(nd) ==> match args[1] {
            Expr::Lit(Value::Array(sh, cells)) => cells@.len() == sh.rows * sh.cols && flat_cells(cells@) ==> if nd is Error {
                r == nd
            } else if args@.len() == 2 {
                if sh.rows == 0 || sh.cols == 0 { r == Value::<N>::Error(ErrKind::Na) } else { array_form_outcome(r, nd, sh.rows, sh.cols, cells@) }
            } else {
                match args[2] {
                    Expr::Lit(Value::Array(s2, res)) => res@.len() == s2.rows * s2.cols && flat_cells(res@) ==> vector_form_outcome(r, nd, cells@, res@),
                    _ => true,
                }
            },
            _ => true,
        }),
    decreases args_size(args@), 7nat,
{
    proof {
        lemma_arg_size(args@, 0);
        lemma_arg_size(args@, 1);
        if args.len() == 3 {
            lemma_arg_size(args@, 2);
        }
    }
    let needle = scalarize(ctx.eval(&args[0]));
    if let Value::Error(k) = needle {
        return Value::Error(k);
    }
    let (rows, cols, cells) = match block(ctx, &args[1]) {
        Err(k) => {
            return Value::Error(k);
        },
        Ok(t) => t,
    };
    proof {
        match args@[1] {
            Expr::Lit(Value::Array(sh, cs)) => {
                if room(*old(ctx)) && cs@.len() == sh.rows * sh.cols && flat_cells(cs@) {
                    lemma_same_flat(cells@, cs@);
                }
            },
            _ => {},
        }
    }
    if args.len() == 2 {
        if rows == 0 || cols == 0 {
            return Value::Error(ErrKind::Na);
        }
        return lookup_array_form(&needle, rows, cols, &cells);
    }
    let pos = match binary_search_approx(cells.as_slice(), &needle, true) {
        None => {
            return Value::Error(ErrKind::Na);
        },
        Some(p) => p,
    };
    let (_rr, _rc, result_vec) = match block(ctx, &args[2]) {
        Err(k) => {
            return Value::Error(k);
        },
        Ok(t) => t,
    };
    proof {
        match args@[2] {
            Expr::Lit(Value::Array(s2, rs)) => {
                if room(*old(ctx)) && rs@.len() == s2.rows * s2.cols && flat_cells(rs@) {
                    lemma_same_flat(result_vec@, rs@);
                }
            },
            _ => {},
        }
    }
    if pos < result_vec.len() {
        let res = matched_scalar(&result_vec[pos]);
        proof {
            assert(vector_form_outcome(res, needle, cells@, result_vec@));
        }
        res
    } else {
        proof {
            assert(vector_form_outcome(Value::<N>::Error(ErrKind::Na), needle, cells@, result_vec@));
        }
        Value::Error(ErrKind::Na)
    }
}

/// What [`reserved_ref_eval`] is stated to give, for a context `ctx` and arguments `args`.
pub open spec fn reserved_ref_eval_gives<'r, N: Number, R: Resolver<N>>(ctx: EvalCtx<'r, R>, args: Seq<Expr<N>>, r: Value<N>) -> bool {
    &&& r == Value::<N>::Error(ErrKind::Ref)
}

/// `INDIRECT`/`OFFSET` at evaluation: only a hand-built tree reaches it (the parse-time gate
/// refuses every such call) — `#REF!`.
pub fn reserved_ref_eval<N: Number, R: Resolver<N>>(ctx: &mut EvalCtx<R>, args: &[Expr<N>]) -> (r: Value<N>)
    ensures
        restored(*old(ctx), *final(ctx)),
        r == Value::<N>::Error(ErrKind::Ref),
    decreases args_size(args@), 7nat,
{
    Value::Error(ErrKind::Ref)
}

/// The message of a reserved reference-function refusal.
pub open spec fn reserved_ref_message() -> Seq<char> {
    "this reference-returning function (INDIRECT/OFFSET) is reserved for a later phase: it returns a reference and forges a dynamic dependency the v1 scalar engine has no node for"@
}

/// The parse-time gate for the reserved reference-returning functions: every call is a located
/// `reserved-ref-function` refusal, whatever its arguments.
pub fn refuse_reserved_ref_function<N: Number>(args: &[Expr<N>], span: Span) -> (r: Result<(), Diag>)
    ensures
        r matches Err(d) && d.code == DiagCode::ReservedRefFunction && d.span == span && d.message@ == reserved_ref_message(),
{
    Err(Diag::new(
        DiagCode::ReservedRefFunction,
        span,
        "this reference-returning function (INDIRECT/OFFSET) is reserved for a later phase: it returns a reference and forges a dynamic dependency the v1 scalar engine has no node for",
    ))
}

} // verus!
