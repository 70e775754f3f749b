//! Dynamic-array functions — built-ins whose value is an array: `SORT`, `UNIQUE`, `FILTER`,
//! `SEQUENCE`, `TRANSPOSE`. A bad index, shape or empty result is a first-class error value.

use vstd::prelude::*;
use crate::eval::{lemma_seq_order_flip, bool_of_scalar, coerce_bool, compare_ord, lemma_restored_same, resolved_order, restored, spec_scalarize, value_order, EvalCtx};
use crate::strings::{lower_seq, seq_order};
use crate::expr::{args_size, lemma_arg_size, Expr, Resolver};
use crate::func::helpers::{arg_value, block, finite_or_num, lemma_same_flat, lit_arg, lit_scalar, opt_bool, opt_num, room, spec_block, spec_finite_or_num};
use crate::func::aggregation::{lit_block, lit_cells, lit_shape};
use crate::value::{same_value, ErrKind, Number, Order, Shape, Value};

verus! {

/// The largest array `SEQUENCE` generates before refusing with `#NUM!`.
pub const SEQUENCE_MAX_CELLS: u64 = 1_000_000;

/// The cell at 0-based `(r, c)` of a block with `cols` columns.
pub open spec fn cell_at<N>(cols: int, cells: Seq<Value<N>>, r: int, c: int) -> Value<N> {
    cells[r * cols + c]
}

/// A 0-based position inside a `rows × cols` block is a valid row-major offset.
proof fn lemma_offset(rows: int, cols: int, r: int, c: int)
    requires
        0 <= r < rows,
        0 <= c < cols,
    ensures
        0 <= r * cols + c < rows * cols,
        0 <= r * cols,
        r * cols + cols <= rows * cols,
{
    assert(0 <= r * cols + c < rows * cols && 0 <= r * cols && r * cols + cols <= rows * cols) by (nonlinear_arith)
        requires
            0 <= r < rows,
            0 <= c < cols,
    ;
}

/// `res` is the transpose of a `rows × cols` block: a `cols × rows` array whose cell `(c, r)` holds
/// the block's cell `(r, c)`.
pub open spec fn transposed<N>(rows: u32, cols: u32, cells: Seq<Value<N>>, res: Value<N>) -> bool {
    res matches Value::Array(s, out) && s == (Shape { rows: cols, cols: rows }) && out@.len() == rows * cols
        && forall|c: int, r: int| 0 <= c < cols && 0 <= r < rows
            ==> same_value(#[trigger] cell_at(rows as int, out@, c, r), cell_at(cols as int, cells, r, c))
}

/// The transpose of a `rows × cols` block: cell `(r, c)` moves to `(c, r)` of a `cols × rows`
/// block.
pub fn transpose_block<N: Number>(rows: u32, cols: u32, cells: &Vec<Value<N>>) -> (res: Value<N>)
    requires
        cells@.len() == rows * cols,
    ensures
        transposed(rows, cols, cells@, res),
{
    let total = cells.len();
    let mut out: Vec<Value<N>> = Vec::new();
    let mut c: u32 = 0;
    while c < cols
        invariant
            cells@.len() == rows * cols,
            total == cells@.len(),
            c <= cols,
            out@.len() == c * rows,
            forall|c2: int, r: int| 0 <= c2 < c && 0 <= r < rows
                ==> same_value(#[trigger] cell_at(rows as int, out@, c2, r), cell_at(cols as int, cells@, r, c2)),
        decreases cols - c,
    {
        let mut r: u32 = 0;
        let ghost before = out@;
        while r < rows
            invariant
                cells@.len() == rows * cols,
                total == cells@.len(),
                c < cols,
                r <= rows,
                before.len() == c * rows,
                out@.len() == c * rows + r,
                forall|k: int| 0 <= k < before.len() ==> out@[k] == before[k],
                forall|c2: int, r2: int| 0 <= c2 < c && 0 <= r2 < rows
                    ==> same_value(#[trigger] cell_at(rows as int, before, c2, r2), cell_at(cols as int, cells@, r2, c2)),
                forall|r2: int| 0 <= r2 < r ==> same_value(#[trigger] out@[c * rows + r2], cell_at(cols as int, cells@, r2, c as int)),
            decreases rows - r,
        {
            proof {
                lemma_offset(rows as int, cols as int, r as int, c as int);
            }
            let at = (r as usize) * (cols as usize) + (c as usize);
            out.push(cells[at].duplicate());
            r = r + 1;
        }
        proof {
            assert forall|c2: int, r2: int| 0 <= c2 < c + 1 && 0 <= r2 < rows
                implies same_value(#[trigger] cell_at(rows as int, out@, c2, r2), cell_at(cols as int, cells@, r2, c2)) by {
                if c2 < c {
                    lemma_offset(c as int, rows as int, c2, r2);
                    assert(out@[c2 * rows + r2] == before[c2 * rows + r2]);
                    assert(same_value(cell_at(rows as int, before, c2, r2), cell_at(cols as int, cells@, r2, c2)));
                } else {
                    assert(c2 == c);
                    assert(same_value(out@[c * rows + r2], cell_at(cols as int, cells@, r2, c as int)));
                }
            }
            assert((c + 1) * rows == c * rows + rows) by (nonlinear_arith);
        }
        c = c + 1;
    }
    proof {
        assert(cols * rows == rows * cols) by (nonlinear_arith);
    }
    Value::Array(Shape { rows: cols, cols: rows }, out)
}

/// What [`transpose_fn`] is stated to give, for a context `ctx` and arguments `args`.
pub open spec fn transpose_fn_gives<'r, N: Number, R: Resolver<N>>(ctx: EvalCtx<'r, R>, args: Seq<Expr<N>>, r: Value<N>) -> bool {
    &&& r is Array || r is Error
    &&& room(ctx) ==> (lit_block(args[0]) is Some ==> transposed(lit_shape(args[0]).rows, lit_shape(args[0]).cols, lit_cells(args[0]), r))
    &&& room(ctx) ==> (args[0] matches Expr::Lit(Value::Error(k)) ==> r == Value::<N>::Error(k))
}

/// `TRANSPOSE(array)` — swap a block's axes (see [`transpose_block`]); an error propagates.
pub fn transpose_fn<N: Number, R: Resolver<N>>(ctx: &mut EvalCtx<R>, args: &[Expr<N>]) -> (r: Value<N>)
    requires
        args.len() == 1,
    ensures
        restored(*old(ctx), *final(ctx)),
        r is Array || r is Error,
        room(*old(ctx)) ==> (lit_block(args[0]) is Some ==> transposed(lit_shape(args[0]).rows, lit_shape(args[0]).cols, lit_cells(args[0]), r)),
        room(*old(ctx)) ==> (args[0] matches Expr::Lit(Value::Error(k)) ==> r == Value::<N>::Error(k)),
    decreases args_size(args@), 7nat,
{
    proof {
        lemma_arg_size(args@, 0);
    }
    match block(ctx, &args[0]) {
        Ok((rows, cols, cells)) => {
            proof {
                if room(*old(ctx)) && lit_block(args@[0]) is Some {
                    lemma_same_flat(cells@, lit_cells(args@[0]));
                }
            }
            transpose_block(rows, cols, &cells)
        },
        Err(k) => Value::Error(k),
    }
}

/// The shape `SEQUENCE` generates, or its refusal: a negative dimension is `#VALUE!`, an empty one
/// `#CALC!`, an area above [`SEQUENCE_MAX_CELLS`] `#NUM!`.
pub open spec fn spec_sequence_shape(rows: i64, cols: i64) -> Result<Shape, ErrKind> {
    if rows < 0 || cols < 0 {
        Err(ErrKind::Value)
    } else if rows < 1 || cols < 1 {
        Err(ErrKind::Calc)
    } else if rows * cols > SEQUENCE_MAX_CELLS {
        Err(ErrKind::Num)
    } else {
        Ok(Shape { rows: rows as u32, cols: cols as u32 })
    }
}

/// Cell `i` (row-major) of a generated sequence: `start + i·step`, `#NUM!` when not finite.
pub open spec fn sequence_cell<N: Number>(start: N, step: N, i: int) -> Value<N> {
    spec_finite_or_num(start.spec_plus(N::spec_from_int(i as i64).spec_times(step)))
}

/// What `SEQUENCE` gives (see [`sequence_block`]).
pub open spec fn sequence_outcome<N: Number>(rows: i64, cols: i64, start: N, step: N, r: Value<N>) -> bool {
    &&& spec_sequence_shape(rows, cols) matches Err(k) ==> r == Value::<N>::Error(k)
    &&& spec_sequence_shape(rows, cols) matches Ok(s) ==> (r matches Value::Array(s2, out) && s2 == s
        && out@.len() == rows * cols
        && forall|i: int| 0 <= i < out@.len() ==> #[trigger] out@[i] == sequence_cell(start, step, i))
}

/// A generated `rows × cols` array counting row-major from `start` by `step` (see
/// [`spec_sequence_shape`]); a non-finite element is `#NUM!` in its cell.
pub fn sequence_block<N: Number>(rows: i64, cols: i64, start: N, step: N) -> (r: Value<N>)
    ensures
        spec_sequence_shape(rows, cols) matches Err(k) ==> r == Value::<N>::Error(k),
        spec_sequence_shape(rows, cols) matches Ok(s) ==> (r matches Value::Array(s2, out) && s2 == s
            && out@.len() == rows * cols
            && forall|i: int| 0 <= i < out@.len() ==> (#[trigger] out@[i] is Number || out@[i] == Value::<N>::Error(ErrKind::Num))
            && forall|i: int| 0 <= i < out@.len() ==> #[trigger] out@[i] == sequence_cell(start, step, i)),
{
    if rows < 0 || cols < 0 {
        return Value::Error(ErrKind::Value);
    }
    if rows < 1 || cols < 1 {
        return Value::Error(ErrKind::Calc);
    }
    if rows as u64 > SEQUENCE_MAX_CELLS || cols as u64 > SEQUENCE_MAX_CELLS {
        proof {
            assert(rows * cols > SEQUENCE_MAX_CELLS) by (nonlinear_arith)
                requires
                    rows >= 1,
                    cols >= 1,
                    rows > SEQUENCE_MAX_CELLS || cols > SEQUENCE_MAX_CELLS,
            ;
        }
        return Value::Error(ErrKind::Num);
    }
    proof {
        assert(rows * cols <= SEQUENCE_MAX_CELLS * SEQUENCE_MAX_CELLS) by (nonlinear_arith)
            requires
                1 <= rows <= SEQUENCE_MAX_CELLS,
                1 <= cols <= SEQUENCE_MAX_CELLS,
        ;
    }
    let area: u64 = rows as u64 * cols as u64;
    if area > SEQUENCE_MAX_CELLS {
        return Value::Error(ErrKind::Num);
    }
    let mut out: Vec<Value<N>> = Vec::new();
    let mut i: u64 = 0;
    while i < area
        invariant
            area <= SEQUENCE_MAX_CELLS,
            i <= area,
            out@.len() == i,
            forall|k: int| 0 <= k < out@.len() ==> (#[trigger] out@[k] is Number || out@[k] == Value::<N>::Error(ErrKind::Num)),
            forall|k: int| 0 <= k < out@.len() ==> #[trigger] out@[k] == sequence_cell(start, step, k),
        decreases area - i,
    {
        out.push(finite_or_num(start.plus(N::from_int(i as i64).times(step))));
        i = i + 1;
    }
    Value::Array(Shape { rows: rows as u32, cols: cols as u32 }, out)
}

/// What [`sequence_fn`] is stated to give, for a context `ctx` and arguments `args`.
pub open spec fn sequence_fn_gives<'r, N: Number, R: Resolver<N>>(ctx: EvalCtx<'r, R>, args: Seq<Expr<N>>, r: Value<N>) -> bool {
    &&& r is Array || r is Error
    &&& room(ctx) ==> (lit_arg(args, 0, N::spec_from_int(1)) matches Some(a) ==> (lit_arg(args, 1, N::spec_from_int(1)) matches Some(b)
        ==> (lit_arg(args, 2, N::spec_from_int(1)) matches Some(c) ==> (lit_arg(args, 3, N::spec_from_int(1)) matches Some(d)
        ==> sequence_outcome(a.spec_trunc_int(), b.spec_trunc_int(), c, d, r)))))
}

/// `SEQUENCE(rows, [cols], [start], [step])` — a generated array (see [`sequence_block`]); `cols`,
/// `start` and `step` default to 1, dimensions truncate toward zero.
pub fn sequence_fn<N: Number, R: Resolver<N>>(ctx: &mut EvalCtx<R>, args: &[Expr<N>]) -> (r: Value<N>)
    requires
        1 <= args.len() <= 4,
    ensures
        restored(*old(ctx), *final(ctx)),
        r is Array || r is Error,
        room(*old(ctx)) ==> (lit_arg(args@, 0, N::spec_from_int(1)) matches Some(a) ==> (lit_arg(args@, 1, N::spec_from_int(1)) matches Some(b)
            ==> (lit_arg(args@, 2, N::spec_from_int(1)) matches Some(c) ==> (lit_arg(args@, 3, N::spec_from_int(1)) matches Some(d)
            ==> sequence_outcome(a.spec_trunc_int(), b.spec_trunc_int(), c, d, r))))),
    decreases args_size(args@), 7nat,
{
    let one = N::from_int(1);
    let rows = match opt_num(ctx, args, 0, one) {
        Ok(n) => n.trunc_int(),
        Err(k) => {
            return Value::Error(k);
        },
    };
    let cols = match opt_num(ctx, args, 1, one) {
        Ok(n) => n.trunc_int(),
        Err(k) => {
            return Value::Error(k);
        },
    };
    let start = match opt_num(ctx, args, 2, one) {
        Ok(n) => n,
        Err(k) => {
            return Value::Error(k);
        },
    };
    let step = match opt_num(ctx, args, 3, one) {
        Ok(n) => n,
        Err(k) => {
            return Value::Error(k);
        },
    };
    sequence_block(rows, cols, start, step)
}

/// The order `SORT` ranks two keys by: the engine's value order (reversed when descending), except
/// that a blank key sorts last in either direction.
pub open spec fn spec_key_rank<N: Number>(a: Value<N>, b: Value<N>, desc: bool) -> Order {
    if a is Blank && b is Blank {
        Order::Equal
    } else if a is Blank {
        Order::Greater
    } else if b is Blank {
        Order::Less
    } else {
        let o = value_order(a, b);
        if desc { flip(o) } else { o }
    }
}

/// The reverse of an order.
pub open spec fn flip(o: Order) -> Order {
    match o {
        Order::Less => Order::Greater,
        Order::Equal => Order::Equal,
        Order::Greater => Order::Less,
    }
}

/// Compare two `SORT` keys (see [`spec_key_rank`]).
pub fn key_rank<N: Number>(a: &Value<N>, b: &Value<N>, desc: bool) -> (r: Order)
    ensures
        r == spec_key_rank(*a, *b, desc),
{
    let a_blank = match a {
        Value::Blank => true,
        _ => false,
    };
    let b_blank = match b {
        Value::Blank => true,
        _ => false,
    };
    if a_blank && b_blank {
        Order::Equal
    } else if a_blank {
        Order::Greater
    } else if b_blank {
        Order::Less
    } else {
        let o = compare_ord(a, b);
        if desc {
            match o {
                Order::Less => Order::Greater,
                Order::Equal => Order::Equal,
                Order::Greater => Order::Less,
            }
        } else {
            o
        }
    }
}

/// The key order is antisymmetric on these keys: comparing the other way round gives the
/// reversed order (true of any real order, which the number domain is expected to supply).
pub open spec fn antisymmetric_on<N: Number>(keys: Seq<Value<N>>, desc: bool) -> bool {
    forall|i: int, j: int| 0 <= i < keys.len() && 0 <= j < keys.len()
        ==> spec_key_rank(keys[i], keys[j], desc) == flip(#[trigger] spec_key_rank(keys[j], keys[i], desc))
}

/// Two values neither of which is blank compare in reverse when swapped.
proof fn lemma_value_order_flip<N: Number>(a: Value<N>, b: Value<N>)
    requires
        !(a is Blank),
        !(b is Blank),
    ensures
        value_order(a, b) == flip(value_order(b, a)),
{
    assert(value_order(a, b) == resolved_order(a, b));
    assert(value_order(b, a) == resolved_order(b, a));
    match (a, b) {
        (Value::Number(x), Value::Number(y)) => {
            N::law_order(x, y, x);
            N::law_order(y, x, y);
        },
        (Value::Text(x), Value::Text(y)) => {
            lemma_seq_order_flip(lower_seq(x@), lower_seq(y@));
        },
        _ => {},
    }
}

/// `SORT`'s key order is antisymmetric on every run of keys: swapping two keys reverses how they
/// rank (blanks last either way).
pub proof fn law_keys_antisymmetric<N: Number>(keys: Seq<Value<N>>, desc: bool)
    ensures
        antisymmetric_on(keys, desc),
{
    assert forall|i: int, j: int| 0 <= i < keys.len() && 0 <= j < keys.len()
        implies spec_key_rank(keys[i], keys[j], desc) == flip(#[trigger] spec_key_rank(keys[j], keys[i], desc)) by {
        if !(keys[i] is Blank) && !(keys[j] is Blank) {
            lemma_value_order_flip(keys[i], keys[j]);
        }
    }
}

/// `order` lists each of `0..n` exactly once.
pub open spec fn is_permutation(order: Seq<usize>, n: int) -> bool {
    order.len() == n
        && (forall|i: int| 0 <= i < n ==> #[trigger] order[i] < n)
        && (forall|i: int, j: int| 0 <= i < j < n ==> order[i] != order[j])
}

/// Position `a` may stand right before position `b`: its key ranks no higher, and on a tie it
/// came first in the input.
pub open spec fn in_order<N: Number>(keys: Seq<Value<N>>, desc: bool, a: usize, b: usize) -> bool {
    let o = spec_key_rank(keys[a as int], keys[b as int], desc);
    o != Order::Greater && (o == Order::Equal ==> a < b)
}

/// Adjacent entries of `order` are in key order, and equal keys keep their input order.
pub open spec fn stably_sorted<N: Number>(order: Seq<usize>, keys: Seq<Value<N>>, desc: bool) -> bool {
    forall|i: int, j: int| 0 <= i && j == i + 1 && j < order.len() ==> #[trigger] in_order(keys, desc, order[i], order[j])
}

/// A stable insertion sort of the positions `0..keys.len()` by their keys: every position once,
/// and — whenever the key order is antisymmetric on these keys — adjacent positions in key order
/// with ties in input order.
pub fn sort_order<N: Number>(keys: &Vec<Value<N>>, desc: bool) -> (order: Vec<usize>)
    ensures
        is_permutation(order@, keys@.len() as int),
        antisymmetric_on(keys@, desc) ==> stably_sorted(order@, keys@, desc),
{
    let n = keys.len();
    let mut order: Vec<usize> = Vec::new();
    let mut i: usize = 0;
    while i < n
        invariant
            n == keys.len(),
            i <= n,
            order@.len() == i,
            forall|k: int| 0 <= k < i ==> #[trigger] order@[k] < i,
            forall|a: int, b: int| 0 <= a < b < i ==> order@[a] != order@[b],
            antisymmetric_on(keys@, desc) ==> stably_sorted(order@, keys@, desc),
        decreases n - i,
    {
        let mut p: usize = order.len();
        while p > 0 && key_rank(&keys[order[p - 1]], &keys[i], desc) == Order::Greater
            invariant
                n == keys.len(),
                i < n,
                order@.len() == i,
                p <= order@.len(),
                forall|k: int| 0 <= k < i ==> #[trigger] order@[k] < i,
                forall|q: int| p <= q < i ==> spec_key_rank(keys@[#[trigger] order@[q] as int], keys@[i as int], desc) == Order::Greater,
            decreases p,
        {
            p = p - 1;
        }
        let ghost old_order = order@;
        order.insert(p, i);
        proof {
            assert(order@ == old_order.insert(p as int, i));
            assert forall|k: int| 0 <= k < i + 1 implies #[trigger] order@[k] < i + 1 by {
                if k < p {
                    assert(order@[k] == old_order[k]);
                } else if k > p {
                    assert(order@[k] == old_order[k - 1]);
                }
            }
            assert forall|a: int, b: int| 0 <= a < b < i + 1 implies order@[a] != order@[b] by {
                let xa = if a < p { old_order[a] } else if a == p { i } else { old_order[a - 1] };
                let xb = if b < p { old_order[b] } else if b == p { i } else { old_order[b - 1] };
                assert(order@[a] == xa);
                assert(order@[b] == xb);
                if a != p && b != p {
                    let ia = if a < p { a } else { a - 1 };
                    let ib = if b < p { b } else { b - 1 };
                    assert(ia < ib);
                    assert(old_order[ia] != old_order[ib]);
                } else if a == p {
                    assert(old_order[b - 1] < i);
                } else {
                    assert(old_order[if a < p { a } else { a - 1 }] < i);
                }
            }
            if antisymmetric_on(keys@, desc) {
                assert forall|a: int, b: int| 0 <= a && b == a + 1 && b < order@.len()
                    implies #[trigger] in_order(keys@, desc, order@[a], order@[b]) by {
                    if b < p {
                        assert(order@[a] == old_order[a]);
                        assert(order@[b] == old_order[b]);
                        assert(in_order(keys@, desc, old_order[a], old_order[b]));
                    } else if b == p {
                        assert(order@[a] == old_order[a]);
                        assert(order@[b] == i);
                        assert(old_order[a] < i);
                    } else if a == p {
                        assert(order@[a] == i);
                        assert(order@[b] == old_order[a]);
                        assert(spec_key_rank(keys@[old_order[a] as int], keys@[i as int], desc) == Order::Greater);
                        assert(spec_key_rank(keys@[i as int], keys@[old_order[a] as int], desc)
                            == flip(spec_key_rank(keys@[old_order[a] as int], keys@[i as int], desc)));
                    } else {
                        assert(order@[a] == old_order[a - 1]);
                        assert(order@[b] == old_order[a]);
                        assert(in_order(keys@, desc, old_order[a - 1], old_order[a]));
                    }
                }
            }
        }
        i = i + 1;
    }
    order
}

/// The number of lines of a block: its rows, or its columns when `by_col`.
pub open spec fn line_count(rows: int, cols: int, by_col: bool) -> int {
    if by_col { cols } else { rows }
}

/// The number of cells in one line of a block: its width, or its height when `by_col`.
pub open spec fn line_len(rows: int, cols: int, by_col: bool) -> int {
    if by_col { rows } else { cols }
}

/// Cell `m` of line `i` (row `i` read left to right, or column `i` read top to bottom).
pub open spec fn line_cell<N>(cols: int, cells: Seq<Value<N>>, by_col: bool, i: int, m: int) -> Value<N> {
    if by_col { cell_at(cols, cells, m, i) } else { cell_at(cols, cells, i, m) }
}

/// The sort keys of a block: cell `k` of every line.
pub open spec fn key_seq<N>(rows: int, cols: int, cells: Seq<Value<N>>, by_col: bool, k: int) -> Seq<Value<N>> {
    Seq::new(line_count(rows, cols, by_col) as nat, |i: int| line_cell(cols, cells, by_col, i, k))
}

/// The keys of every line of a block (see [`key_seq`]).
fn line_keys<N: Number>(rows: u32, cols: u32, cells: &Vec<Value<N>>, by_col: bool, k: u32) -> (keys: Vec<Value<N>>)
    requires
        cells@.len() == rows * cols,
        k < line_len(rows as int, cols as int, by_col),
    ensures
        keys@.len() == line_count(rows as int, cols as int, by_col),
        forall|i: int| 0 <= i < keys@.len()
            ==> same_value(#[trigger] keys@[i], key_seq(rows as int, cols as int, cells@, by_col, k as int)[i]),
{
    let total = cells.len();
    let count = if by_col { cols } else { rows };
    let mut keys: Vec<Value<N>> = Vec::new();
    let mut i: u32 = 0;
    while i < count
        invariant
            cells@.len() == rows * cols,
            total == cells@.len(),
            count == line_count(rows as int, cols as int, by_col),
            k < line_len(rows as int, cols as int, by_col),
            i <= count,
            keys@.len() == i,
            forall|m: int| 0 <= m < i
                ==> same_value(#[trigger] keys@[m], key_seq(rows as int, cols as int, cells@, by_col, k as int)[m]),
        decreases count - i,
    {
        let at = if by_col {
            proof {
                lemma_offset(rows as int, cols as int, k as int, i as int);
            }
            (k as usize) * (cols as usize) + (i as usize)
        } else {
            proof {
                lemma_offset(rows as int, cols as int, i as int, k as int);
            }
            (i as usize) * (cols as usize) + (k as usize)
        };
        keys.push(cells[at].duplicate());
        i = i + 1;
    }
    keys
}

/// The shape of a block built from `n` picked lines of a `rows × cols` block.
pub open spec fn picked_shape(rows: int, cols: int, n: int, by_col: bool) -> Shape {
    if by_col { Shape { rows: rows as u32, cols: n as u32 } } else { Shape { rows: n as u32, cols: cols as u32 } }
}

/// Cell `(i, j)` of the block built from the picked lines: line `picks[j]` (or `picks[i]`) of the
/// source, at the matching position along it.
pub open spec fn picked_cell<N>(cols: int, cells: Seq<Value<N>>, picks: Seq<usize>, by_col: bool, i: int, j: int) -> Value<N> {
    if by_col { cell_at(cols, cells, i, picks[j] as int) } else { cell_at(cols, cells, picks[i] as int, j) }
}

/// `out` holds, row-major, the lines `picks` names of a `rows × cols` block, in that order.
pub open spec fn gathered<N>(rows: int, cols: int, cells: Seq<Value<N>>, picks: Seq<usize>, by_col: bool, out: Seq<Value<N>>) -> bool {
    let s = picked_shape(rows, cols, picks.len() as int, by_col);
    &&& out.len() == s.rows * s.cols
    &&& forall|i: int, j: int| 0 <= i < s.rows && 0 <= j < s.cols
        ==> same_value(#[trigger] cell_at(s.cols as int, out, i, j), picked_cell(cols, cells, picks, by_col, i, j))
}

/// Build a block from the lines `picks` names (rows, or columns when `by_col`), in that order.
pub fn gather<N: Number>(rows: u32, cols: u32, cells: &Vec<Value<N>>, picks: &Vec<usize>, by_col: bool) -> (r: Value<N>)
    requires
        cells@.len() == rows * cols,
        picks@.len() <= line_count(rows as int, cols as int, by_col),
        forall|k: int| 0 <= k < picks@.len() ==> (#[trigger] picks@[k] as int) < line_count(rows as int, cols as int, by_col),
    ensures
        r matches Value::Array(s, out) && s == picked_shape(rows as int, cols as int, picks@.len() as int, by_col)
            && gathered(rows as int, cols as int, cells@, picks@, by_col, out@),
{
    let total = cells.len();
    let n = picks.len() as u32;
    let out_rows = if by_col { rows } else { n };
    let out_cols = if by_col { n } else { cols };
    let ghost s = picked_shape(rows as int, cols as int, picks@.len() as int, by_col);
    assert(s.rows == out_rows && s.cols == out_cols);
    let mut out: Vec<Value<N>> = Vec::new();
    let mut i: u32 = 0;
    while i < out_rows
        invariant
            cells@.len() == rows * cols,
            total == cells@.len(),
            n == picks@.len(),
            picks@.len() <= line_count(rows as int, cols as int, by_col),
            forall|k: int| 0 <= k < picks@.len() ==> (#[trigger] picks@[k] as int) < line_count(rows as int, cols as int, by_col),
            out_rows == (if by_col { rows } else { n }),
            out_cols == (if by_col { n } else { cols }),
            i <= out_rows,
            out@.len() == i * out_cols,
            forall|i2: int, j2: int| 0 <= i2 < i && 0 <= j2 < out_cols
                ==> same_value(#[trigger] cell_at(out_cols as int, out@, i2, j2), picked_cell(cols as int, cells@, picks@, by_col, i2, j2)),
        decreases out_rows - i,
    {
        let ghost before = out@;
        let mut j: u32 = 0;
        while j < out_cols
            invariant
                cells@.len() == rows * cols,
                total == cells@.len(),
                n == picks@.len(),
                forall|k: int| 0 <= k < picks@.len() ==> (#[trigger] picks@[k] as int) < line_count(rows as int, cols as int, by_col),
                out_rows == (if by_col { rows } else { n }),
                out_cols == (if by_col { n } else { cols }),
                i < out_rows,
                j <= out_cols,
                before.len() == i * out_cols,
                out@.len() == i * out_cols + j,
                forall|k: int| 0 <= k < before.len() ==> out@[k] == before[k],
                forall|i2: int, j2: int| 0 <= i2 < i && 0 <= j2 < out_cols
                    ==> same_value(#[trigger] cell_at(out_cols as int, before, i2, j2), picked_cell(cols as int, cells@, picks@, by_col, i2, j2)),
                forall|j2: int| 0 <= j2 < j
                    ==> same_value(#[trigger] out@[i * out_cols + j2], picked_cell(cols as int, cells@, picks@, by_col, i as int, j2)),
            decreases out_cols - j,
        {
            let (sr, sc) = if by_col { (i, picks[j as usize] as u32) } else { (picks[i as usize] as u32, j) };
            proof {
                lemma_offset(rows as int, cols as int, sr as int, sc as int);
            }
            let at = (sr as usize) * (cols as usize) + (sc as usize);
            out.push(cells[at].duplicate());
            j = j + 1;
        }
        proof {
            assert forall|i2: int, j2: int| 0 <= i2 < i + 1 && 0 <= j2 < out_cols
                implies same_value(#[trigger] cell_at(out_cols as int, out@, i2, j2), picked_cell(cols as int, cells@, picks@, by_col, i2, j2)) by {
                if i2 < i {
                    lemma_offset(i as int, out_cols as int, i2, j2);
                    assert(out@[i2 * out_cols + j2] == before[i2 * out_cols + j2]);
                    assert(same_value(cell_at(out_cols as int, before, i2, j2), picked_cell(cols as int, cells@, picks@, by_col, i2, j2)));
                } else {
                    assert(same_value(out@[i * out_cols + j2], picked_cell(cols as int, cells@, picks@, by_col, i as int, j2)));
                }
            }
            assert((i + 1) * out_cols == i * out_cols + out_cols) by (nonlinear_arith);
        }
        i = i + 1;
    }
    Value::Array(Shape { rows: out_rows, cols: out_cols }, out)
}

/// A value and a faithful copy of it rank the same against any key.
proof fn lemma_rank_same<N: Number>(a: Value<N>, a2: Value<N>, b: Value<N>, desc: bool)
    requires
        same_value(a, a2),
    ensures
        spec_key_rank(a, b, desc) == spec_key_rank(a2, b, desc),
        spec_key_rank(b, a, desc) == spec_key_rank(b, a2, desc),
{
    if !(a is Array) {
        assert(a == a2);
    } else {
        assert(a2 is Array);
    }
}

/// `order` is a stable sort of the lines of a block by their key cell `k`: a permutation of the
/// lines which puts adjacent lines in key order with ties in input order; and `r` is the block with
/// its lines in that order.
pub open spec fn sorted_by_key<N: Number>(
    rows: int,
    cols: int,
    cells: Seq<Value<N>>,
    by_col: bool,
    k: int,
    desc: bool,
    order: Seq<usize>,
    r: Value<N>,
) -> bool {
    let keys = key_seq(rows, cols, cells, by_col, k);
    &&& is_permutation(order, line_count(rows, cols, by_col))
    &&& stably_sorted(order, keys, desc)
    &&& r matches Value::Array(s, out) && s == (Shape { rows: rows as u32, cols: cols as u32 })
        && gathered(rows, cols, cells, order, by_col, out@)
}

/// What sorting a block gives (see [`sort_block`]): `#VALUE!` for an index outside the key axis,
/// else the block with its lines stably sorted by the key.
pub open spec fn sort_outcome<N: Number>(rows: int, cols: int, cells: Seq<Value<N>>, sort_index: i64, desc: bool, by_col: bool, r: Value<N>) -> bool {
    &&& !(1 <= sort_index <= line_len(rows, cols, by_col)) ==> r == Value::<N>::Error(ErrKind::Value)
    &&& 1 <= sort_index <= line_len(rows, cols, by_col) ==> r is Array
        && exists|order: Seq<usize>| #[trigger] sorted_by_key(rows, cols, cells, by_col, sort_index - 1, desc, order, r)
}

/// A literal flag argument at `i`, read as a boolean, or `default` when the call has none there;
/// `None` when it is not a literal scalar.
pub open spec fn lit_flag<N: Number>(args: Seq<Expr<N>>, i: int, default: bool) -> Option<Result<bool, ErrKind>> {
    if i < args.len() {
        match lit_scalar(args[i]) {
            Some(v) => Some(bool_of_scalar(v)),
            None => None,
        }
    } else {
        Some(Ok(default))
    }
}

/// Sort a block's rows (or columns, when `by_col`) by their cell at the 1-based `sort_index`
/// (see [`sorted_by_key`]). An index outside the key axis is `#VALUE!`.
pub fn sort_block<N: Number>(rows: u32, cols: u32, cells: &Vec<Value<N>>, sort_index: i64, desc: bool, by_col: bool) -> (r: Value<N>)
    requires
        cells@.len() == rows * cols,
    ensures
        sort_outcome(rows as int, cols as int, cells@, sort_index, desc, by_col, r),
{
    let key_len: u32 = if by_col { rows } else { cols };
    if sort_index < 1 || sort_index > key_len as i64 {
        return Value::Error(ErrKind::Value);
    }
    let k = (sort_index - 1) as u32;
    let keys = line_keys(rows, cols, cells, by_col, k);
    let order = sort_order(&keys, desc);
    let ghost ks = key_seq(rows as int, cols as int, cells@, by_col, k as int);
    proof {
        assert forall|a: int, b: int| 0 <= a < keys@.len() && 0 <= b < keys@.len()
            implies #[trigger] spec_key_rank(keys@[a], keys@[b], desc) == spec_key_rank(ks[a], ks[b], desc) by {
            lemma_rank_same(keys@[a], ks[a], keys@[b], desc);
            lemma_rank_same(keys@[b], ks[b], ks[a], desc);
        }
        law_keys_antisymmetric(ks, desc);
        if antisymmetric_on(ks, desc) {
            assert forall|a: int, b: int| 0 <= a < keys@.len() && 0 <= b < keys@.len()
                implies spec_key_rank(keys@[a], keys@[b], desc) == flip(#[trigger] spec_key_rank(keys@[b], keys@[a], desc)) by {
                assert(spec_key_rank(keys@[a], keys@[b], desc) == spec_key_rank(ks[a], ks[b], desc));
                assert(spec_key_rank(keys@[b], keys@[a], desc) == spec_key_rank(ks[b], ks[a], desc));
            }
            assert(antisymmetric_on(keys@, desc));
            assert forall|a: int, b: int| 0 <= a && b == a + 1 && b < order@.len()
                implies #[trigger] in_order(ks, desc, order@[a], order@[b]) by {
                assert(in_order(keys@, desc, order@[a], order@[b]));
                assert(spec_key_rank(keys@[order@[a] as int], keys@[order@[b] as int], desc)
                    == spec_key_rank(ks[order@[a] as int], ks[order@[b] as int], desc));
            }
        }
    }
    let r = gather(rows, cols, cells, &order, by_col);
    proof {
        assert(sorted_by_key(rows as int, cols as int, cells@, by_col, sort_index - 1, desc, order@, r));
    }
    r
}

/// `SORT`'s direction from its `sort_order` argument: `1` is ascending, `-1` descending, anything
/// else is refused (`None`).
pub open spec fn spec_sort_desc<N: Number>(n: N) -> Option<bool> {
    if n.spec_order(N::spec_from_int(1i64)) == Some(Order::Equal) {
        Some(false)
    } else if n.spec_order(N::spec_from_int(-1i64)) == Some(Order::Equal) {
        Some(true)
    } else {
        None
    }
}

/// Read `SORT`'s `sort_order` argument (see [`spec_sort_desc`]).
pub fn sort_desc<N: Number>(n: N) -> (r: Option<bool>)
    ensures
        r == spec_sort_desc(n),
{
    if n.order(N::from_int(1)) == Some(Order::Equal) {
        Some(false)
    } else if n.order(N::from_int(-1)) == Some(Order::Equal) {
        Some(true)
    } else {
        None
    }
}

/// What [`sort_fn`] is stated to give, for a context `ctx` and arguments `args`.
pub open spec fn sort_fn_gives<'r, N: Number, R: Resolver<N>>(ctx: EvalCtx<'r, R>, args: Seq<Expr<N>>, r: Value<N>) -> bool {
    &&& r is Array || r is Error
    &&& room(ctx) ==> (lit_block(args[0]) is Some ==> (lit_arg(args, 1, N::spec_from_int(1)) matches Some(x)
        ==> (lit_arg(args, 2, N::spec_from_int(1)) matches Some(o) ==> (lit_flag(args, 3, false) matches Some(bc)
        ==> match bc {
        Err(k) => r == Value::<N>::Error(k),
        Ok(by_col) => match spec_sort_desc(o) {
            None => r == Value::<N>::Error(ErrKind::Value),
            Some(desc) => sort_outcome(lit_shape(args[0]).rows as int, lit_shape(args[0]).cols as int, lit_cells(args[0]),
                x.spec_trunc_int(), desc, by_col, r),
        },
    }))))
}

/// What [`sort_fn`] is stated to give for the values its arguments evaluate to in `ctx`.
pub open spec fn sort_fn_reads<'r, N: Number, R: Resolver<N>>(ctx: EvalCtx<'r, R>, args: Seq<Expr<N>>, r: Value<N>) -> bool {
    &&& exists|v: Value<N>| #[trigger] arg_value(ctx, args[0], v) && match spec_block(v) {
        Err(k) => r == Value::<N>::Error(k),
        Ok(b) => room(ctx) ==> sort_given(b.0 as int, b.1 as int, b.2, args, r),
    }
}

/// What `SORT` gives for a block of `rows × cols` cells, its other arguments literal or omitted:
/// `sort_index` and `sort_order` default to 1 and `by_col` to FALSE; a `sort_order` other than
/// `1`/`-1` is `#VALUE!`; otherwise [`sort_outcome`].
pub open spec fn sort_given<N: Number>(rows: int, cols: int, cells: Seq<Value<N>>, args: Seq<Expr<N>>, r: Value<N>) -> bool {
    lit_arg(args, 1, N::spec_from_int(1)) matches Some(x) ==> (lit_arg(args, 2, N::spec_from_int(1)) matches Some(o)
        ==> (lit_flag(args, 3, false) matches Some(bc) ==> match bc {
        Err(k) => r == Value::<N>::Error(k),
        Ok(by_col) => match spec_sort_desc(o) {
            None => r == Value::<N>::Error(ErrKind::Value),
            Some(desc) => sort_outcome(rows, cols, cells, x.spec_trunc_int(), desc, by_col, r),
        },
    }))
}

/// `SORT(array, [sort_index], [sort_order], [by_col])` — order a block's rows (or columns) by a key
/// column (or row); see [`sort_block`]. `sort_index` and `sort_order` default to 1, `by_col` to
/// FALSE; a `sort_order` other than `1`/`-1` is `#VALUE!`; an argument error propagates.
pub fn sort_fn<N: Number, R: Resolver<N>>(ctx: &mut EvalCtx<R>, args: &[Expr<N>]) -> (r: Value<N>)
    requires
        1 <= args.len() <= 4,
    ensures
        restored(*old(ctx), *final(ctx)),
        r is Array || r is Error,
        room(*old(ctx)) ==> (lit_block(args[0]) is Some ==> (lit_arg(args@, 1, N::spec_from_int(1)) matches Some(x)
            ==> (lit_arg(args@, 2, N::spec_from_int(1)) matches Some(o) ==> (lit_flag(args@, 3, false) matches Some(bc)
            ==> match bc {
            Err(k) => r == Value::<N>::Error(k),
            Ok(by_col) => match spec_sort_desc(o) {
                None => r == Value::<N>::Error(ErrKind::Value),
                Some(desc) => sort_outcome(lit_shape(args[0]).rows as int, lit_shape(args[0]).cols as int, lit_cells(args[0]),
                    x.spec_trunc_int(), desc, by_col, r),
            },
        })))),
        exists|v: Value<N>| #[trigger] arg_value(*old(ctx), args@[0], v) && match spec_block(v) {
            Err(k) => r == Value::<N>::Error(k),
            Ok(b) => room(*old(ctx)) ==> sort_given(b.0 as int, b.1 as int, b.2, args@, r),
        },
    decreases args_size(args@), 7nat,
{
    proof {
        lemma_arg_size(args@, 0);
    }
    let (rows, cols, cells) = match block(ctx, &args[0]) {
        Ok(t) => t,
        Err(k) => {
            return Value::Error(k);
        },
    };
    proof {
        if room(*old(ctx)) && lit_block(args@[0]) is Some {
            lemma_same_flat(cells@, lit_cells(args@[0]));
        }
    }
    let one = N::from_int(1);
    let sort_index = match opt_num(ctx, args, 1, one) {
        Ok(n) => n.trunc_int(),
        Err(k) => {
            return Value::Error(k);
        },
    };
    let sort_order = match opt_num(ctx, args, 2, one) {
        Ok(n) => n,
        Err(k) => {
            return Value::Error(k);
        },
    };
    let by_col = match opt_bool(ctx, args, 3, false) {
        Ok(b) => b,
        Err(k) => {
            return Value::Error(k);
        },
    };
    let desc = match sort_desc(sort_order) {
        Some(d) => d,
        None => {
            return Value::Error(ErrKind::Value);
        },
    };
    sort_block(rows, cols, &cells, sort_index, desc, by_col)
}

/// Cell `m` of line `i` of a block (see [`line_cell`]).
fn line_ref<'a, N: Number>(rows: u32, cols: u32, cells: &'a Vec<Value<N>>, by_col: bool, i: u32, m: u32) -> (r: &'a Value<N>)
    requires
        cells@.len() == rows * cols,
        i < line_count(rows as int, cols as int, by_col),
        m < line_len(rows as int, cols as int, by_col),
    ensures
        *r == line_cell(cols as int, cells@, by_col, i as int, m as int),
{
    let total = cells.len();
    assert(total == rows * cols);
    if by_col {
        proof {
            lemma_offset(rows as int, cols as int, m as int, i as int);
        }
        &cells[(m as usize) * (cols as usize) + (i as usize)]
    } else {
        proof {
            lemma_offset(rows as int, cols as int, i as int, m as int);
        }
        &cells[(i as usize) * (cols as usize) + (m as usize)]
    }
}

/// Lines `a` and `b` of a block are equal: every pair of cells at the same position ranks equal in
/// the engine's value order (so text compares case-insensitively).
pub open spec fn lines_equal<N: Number>(rows: int, cols: int, cells: Seq<Value<N>>, by_col: bool, a: int, b: int) -> bool {
    forall|m: int| 0 <= m < line_len(rows, cols, by_col)
        ==> value_order(#[trigger] line_cell(cols, cells, by_col, a, m), line_cell(cols, cells, by_col, b, m)) == Order::Equal
}

/// Compare two lines of a block (see [`lines_equal`]).
fn same_line<N: Number>(rows: u32, cols: u32, cells: &Vec<Value<N>>, by_col: bool, a: u32, b: u32) -> (r: bool)
    requires
        cells@.len() == rows * cols,
        a < line_count(rows as int, cols as int, by_col),
        b < line_count(rows as int, cols as int, by_col),
    ensures
        r == lines_equal(rows as int, cols as int, cells@, by_col, a as int, b as int),
{
    let len = if by_col { rows } else { cols };
    let mut m: u32 = 0;
    while m < len
        invariant
            cells@.len() == rows * cols,
            a < line_count(rows as int, cols as int, by_col),
            b < line_count(rows as int, cols as int, by_col),
            len == line_len(rows as int, cols as int, by_col),
            m <= len,
            forall|m2: int| 0 <= m2 < m ==> value_order(#[trigger] line_cell(cols as int, cells@, by_col, a as int, m2),
                line_cell(cols as int, cells@, by_col, b as int, m2)) == Order::Equal,
        decreases len - m,
    {
        let x = line_ref(rows, cols, cells, by_col, a, m);
        let y = line_ref(rows, cols, cells, by_col, b, m);
        if compare_ord(x, y) != Order::Equal {
            return false;
        }
        m = m + 1;
    }
    true
}

/// How many of the first `n` lines equal line `i`.
pub open spec fn occurrences<N: Number>(rows: int, cols: int, cells: Seq<Value<N>>, by_col: bool, i: int, n: nat) -> nat
    decreases n,
{
    if n == 0 {
        0
    } else {
        occurrences(rows, cols, cells, by_col, i, (n - 1) as nat)
            + if lines_equal(rows, cols, cells, by_col, n - 1, i) { 1nat } else { 0nat }
    }
}

/// Whether one of the lines `picks` names equals line `i`.
pub open spec fn equals_any<N: Number>(rows: int, cols: int, cells: Seq<Value<N>>, by_col: bool, picks: Seq<usize>, i: int) -> bool {
    exists|k: int| 0 <= k < picks.len() && #[trigger] lines_equal(rows, cols, cells, by_col, picks[k] as int, i)
}

/// The lines `UNIQUE` keeps among the first `n`, in input order: each line that equals no line
/// kept before it or, with `exactly_once`, each line that equals exactly one line of the block
/// (itself).
pub open spec fn unique_picks<N: Number>(rows: int, cols: int, cells: Seq<Value<N>>, by_col: bool, exactly_once: bool, n: nat) -> Seq<usize>
    decreases n,
{
    if n == 0 {
        Seq::empty()
    } else {
        let p = unique_picks(rows, cols, cells, by_col, exactly_once, (n - 1) as nat);
        let i = n - 1;
        let take = if exactly_once {
            occurrences(rows, cols, cells, by_col, i, line_count(rows, cols, by_col) as nat) == 1
        } else {
            !equals_any(rows, cols, cells, by_col, p, i)
        };
        if take { p.push(i as usize) } else { p }
    }
}

/// The picks of [`unique_picks`] are strictly increasing line numbers below `n`.
proof fn lemma_unique_picks_bounded<N: Number>(rows: int, cols: int, cells: Seq<Value<N>>, by_col: bool, exactly_once: bool, n: nat)
    requires
        n <= usize::MAX,
    ensures
        unique_picks(rows, cols, cells, by_col, exactly_once, n).len() <= n,
        forall|k: int| 0 <= k < unique_picks(rows, cols, cells, by_col, exactly_once, n).len()
            ==> (#[trigger] unique_picks(rows, cols, cells, by_col, exactly_once, n)[k] as int) < n,
    decreases n,
{
    if n > 0 {
        lemma_unique_picks_bounded(rows, cols, cells, by_col, exactly_once, (n - 1) as nat);
    }
}

/// Count the lines of a block that equal line `i` (see [`occurrences`]).
fn count_equal<N: Number>(rows: u32, cols: u32, cells: &Vec<Value<N>>, by_col: bool, i: u32) -> (r: u32)
    requires
        cells@.len() == rows * cols,
        i < line_count(rows as int, cols as int, by_col),
    ensures
        r == occurrences(rows as int, cols as int, cells@, by_col, i as int, line_count(rows as int, cols as int, by_col) as nat),
{
    let count = if by_col { cols } else { rows };
    let mut total: u32 = 0;
    let mut j: u32 = 0;
    while j < count
        invariant
            cells@.len() == rows * cols,
            i < line_count(rows as int, cols as int, by_col),
            count == line_count(rows as int, cols as int, by_col),
            j <= count,
            total <= j,
            total == occurrences(rows as int, cols as int, cells@, by_col, i as int, j as nat),
        decreases count - j,
    {
        if same_line(rows, cols, cells, by_col, j, i) {
            total = total + 1;
        }
        j = j + 1;
    }
    total
}

/// Whether one of the lines `picks` names equals line `i` (see [`equals_any`]).
fn equals_any_line<N: Number>(rows: u32, cols: u32, cells: &Vec<Value<N>>, by_col: bool, picks: &Vec<usize>, i: u32) -> (r: bool)
    requires
        cells@.len() == rows * cols,
        i < line_count(rows as int, cols as int, by_col),
        forall|k: int| 0 <= k < picks@.len() ==> (#[trigger] picks@[k] as int) < line_count(rows as int, cols as int, by_col),
    ensures
        r == equals_any(rows as int, cols as int, cells@, by_col, picks@, i as int),
{
    let mut k: usize = 0;
    while k < picks.len()
        invariant
            cells@.len() == rows * cols,
            i < line_count(rows as int, cols as int, by_col),
            forall|k2: int| 0 <= k2 < picks@.len() ==> (#[trigger] picks@[k2] as int) < line_count(rows as int, cols as int, by_col),
            k <= picks@.len(),
            forall|k2: int| 0 <= k2 < k ==> !#[trigger] lines_equal(rows as int, cols as int, cells@, by_col, picks@[k2] as int, i as int),
        decreases picks@.len() - k,
    {
        if same_line(rows, cols, cells, by_col, picks[k] as u32, i) {
            return true;
        }
        k = k + 1;
    }
    false
}

/// The lines `UNIQUE` keeps (see [`unique_picks`]).
fn unique_lines<N: Number>(rows: u32, cols: u32, cells: &Vec<Value<N>>, by_col: bool, exactly_once: bool) -> (r: Vec<usize>)
    requires
        cells@.len() == rows * cols,
    ensures
        r@ == unique_picks(rows as int, cols as int, cells@, by_col, exactly_once, line_count(rows as int, cols as int, by_col) as nat),
{
    let count = if by_col { cols } else { rows };
    let mut picks: Vec<usize> = Vec::new();
    let mut i: u32 = 0;
    while i < count
        invariant
            cells@.len() == rows * cols,
            count == line_count(rows as int, cols as int, by_col),
            i <= count,
            picks@ == unique_picks(rows as int, cols as int, cells@, by_col, exactly_once, i as nat),
        decreases count - i,
    {
        proof {
            lemma_unique_picks_bounded(rows as int, cols as int, cells@, by_col, exactly_once, i as nat);
        }
        let take = if exactly_once {
            count_equal(rows, cols, cells, by_col, i) == 1
        } else {
            !equals_any_line(rows, cols, cells, by_col, &picks, i)
        };
        if take {
            picks.push(i as usize);
        }
        i = i + 1;
    }
    picks
}

/// What `UNIQUE` gives for a block (see [`unique_block`]).
pub open spec fn unique_outcome<N: Number>(rows: int, cols: int, cells: Seq<Value<N>>, by_col: bool, exactly_once: bool, r: Value<N>) -> bool {
    let picks = unique_picks(rows, cols, cells, by_col, exactly_once, line_count(rows, cols, by_col) as nat);
    &&& picks.len() == 0 ==> r == Value::<N>::Error(ErrKind::Calc)
    &&& picks.len() > 0 ==> (r matches Value::Array(s, out) && s == picked_shape(rows, cols, picks.len() as int, by_col)
        && gathered(rows, cols, cells, picks, by_col, out@))
}

/// The distinct rows (or columns, when `by_col`) of a block in input order (see
/// [`unique_picks`]); `#CALC!` when none is kept.
pub fn unique_block<N: Number>(rows: u32, cols: u32, cells: &Vec<Value<N>>, by_col: bool, exactly_once: bool) -> (r: Value<N>)
    requires
        cells@.len() == rows * cols,
    ensures
        unique_outcome(rows as int, cols as int, cells@, by_col, exactly_once, r),
{
    let picks = unique_lines(rows, cols, cells, by_col, exactly_once);
    proof {
        lemma_unique_picks_bounded(rows as int, cols as int, cells@, by_col, exactly_once, line_count(rows as int, cols as int, by_col) as nat);
    }
    if picks.len() == 0 {
        return Value::Error(ErrKind::Calc);
    }
    gather(rows, cols, cells, &picks, by_col)
}

/// What [`unique_fn`] is stated to give, for a context `ctx` and arguments `args`.
pub open spec fn unique_fn_gives<'r, N: Number, R: Resolver<N>>(ctx: EvalCtx<'r, R>, args: Seq<Expr<N>>, r: Value<N>) -> bool {
    &&& r is Array || r is Error
    &&& room(ctx) ==> (lit_block(args[0]) is Some ==> (lit_flag(args, 1, false) matches Some(bc)
        ==> (lit_flag(args, 2, false) matches Some(eo) ==> match (bc, eo) {
        (Err(k), _) => r == Value::<N>::Error(k),
        (Ok(_), Err(k)) => r == Value::<N>::Error(k),
        (Ok(by_col), Ok(exactly_once)) => unique_outcome(lit_shape(args[0]).rows as int, lit_shape(args[0]).cols as int,
            lit_cells(args[0]), by_col, exactly_once, r),
    })))
}

/// What [`unique_fn`] is stated to give for the values its arguments evaluate to in `ctx`.
pub open spec fn unique_fn_reads<'r, N: Number, R: Resolver<N>>(ctx: EvalCtx<'r, R>, args: Seq<Expr<N>>, r: Value<N>) -> bool {
    &&& exists|v: Value<N>| #[trigger] arg_value(ctx, args[0], v) && match spec_block(v) {
        Err(k) => r == Value::<N>::Error(k),
        Ok(b) => room(ctx) ==> unique_given(b.0 as int, b.1 as int, b.2, args, r),
    }
}

/// What `UNIQUE` gives for a block of `rows × cols` cells, its flags literal or omitted (both
/// default to FALSE): [`unique_outcome`], or a flag's error.
pub open spec fn unique_given<N: Number>(rows: int, cols: int, cells: Seq<Value<N>>, args: Seq<Expr<N>>, r: Value<N>) -> bool {
    lit_flag(args, 1, false) matches Some(bc) ==> (lit_flag(args, 2, false) matches Some(eo) ==> match (bc, eo) {
        (Err(k), _) => r == Value::<N>::Error(k),
        (Ok(_), Err(k)) => r == Value::<N>::Error(k),
        (Ok(by_col), Ok(exactly_once)) => unique_outcome(rows, cols, cells, by_col, exactly_once, r),
    })
}

/// `UNIQUE(array, [by_col], [exactly_once])` — the distinct rows (or columns) of a block (see
/// [`unique_block`]); both flags default to FALSE; an argument error propagates.
pub fn unique_fn<N: Number, R: Resolver<N>>(ctx: &mut EvalCtx<R>, args: &[Expr<N>]) -> (r: Value<N>)
    requires
        1 <= args.len() <= 3,
    ensures
        restored(*old(ctx), *final(ctx)),
        r is Array || r is Error,
        room(*old(ctx)) ==> (lit_block(args[0]) is Some ==> (lit_flag(args@, 1, false) matches Some(bc)
            ==> (lit_flag(args@, 2, false) matches Some(eo) ==> match (bc, eo) {
            (Err(k), _) => r == Value::<N>::Error(k),
            (Ok(_), Err(k)) => r == Value::<N>::Error(k),
            (Ok(by_col), Ok(exactly_once)) => unique_outcome(lit_shape(args[0]).rows as int, lit_shape(args[0]).cols as int,
                lit_cells(args[0]), by_col, exactly_once, r),
        }))),
        exists|v: Value<N>| #[trigger] arg_value(*old(ctx), args@[0], v) && match spec_block(v) {
            Err(k) => r == Value::<N>::Error(k),
            Ok(b) => room(*old(ctx)) ==> unique_given(b.0 as int, b.1 as int, b.2, args@, r),
        },
    decreases args_size(args@), 7nat,
{
    proof {
        lemma_arg_size(args@, 0);
    }
    let (rows, cols, cells) = match block(ctx, &args[0]) {
        Ok(t) => t,
        Err(k) => {
            return Value::Error(k);
        },
    };
    proof {
        if room(*old(ctx)) && lit_block(args@[0]) is Some {
            lemma_same_flat(cells@, lit_cells(args@[0]));
        }
    }
    let by_col = match opt_bool(ctx, args, 1, false) {
        Ok(b) => b,
        Err(k) => {
            return Value::Error(k);
        },
    };
    let exactly_once = match opt_bool(ctx, args, 2, false) {
        Ok(b) => b,
        Err(k) => {
            return Value::Error(k);
        },
    };
    unique_block(rows, cols, &cells, by_col, exactly_once)
}

/// The axis an include vector of `FILTER` selects along: rows (`Some(false)`) for a column vector
/// with one cell per row, columns (`Some(true)`) for a row vector with one cell per column, and
/// `None` for any other shape.
pub open spec fn filter_axis(rows: u32, cols: u32, irows: u32, icols: u32) -> Option<bool> {
    if irows == rows && icols == 1 {
        Some(false)
    } else if icols == cols && irows == 1 {
        Some(true)
    } else {
        None
    }
}

/// The lines `FILTER` keeps from the first `n` include cells — those whose cell reads as TRUE —
/// or the first include cell's boolean coercion error.
pub open spec fn filter_picks<N: Number>(inc: Seq<Value<N>>, n: nat) -> Result<Seq<usize>, ErrKind>
    decreases n,
{
    if n == 0 {
        Ok(Seq::empty())
    } else {
        match filter_picks(inc, (n - 1) as nat) {
            Err(k) => Err(k),
            Ok(p) => match bool_of_scalar(spec_scalarize(inc[n - 1])) {
                Err(k) => Err(k),
                Ok(b) => if b { Ok(p.push((n - 1) as usize)) } else { Ok(p) },
            },
        }
    }
}

/// The picks of [`filter_picks`] are line numbers below `n`, at most `n` of them.
proof fn lemma_filter_picks_bounded<N: Number>(inc: Seq<Value<N>>, n: nat)
    requires
        n <= usize::MAX,
    ensures
        filter_picks(inc, n) matches Ok(p) ==> p.len() <= n && forall|k: int| 0 <= k < p.len() ==> (#[trigger] p[k] as int) < n,
    decreases n,
{
    if n > 0 {
        lemma_filter_picks_bounded(inc, (n - 1) as nat);
    }
}

/// Read the include cells of `FILTER` (see [`filter_picks`]).
fn include_picks<N: Number>(inc: &Vec<Value<N>>) -> (r: Result<Vec<usize>, ErrKind>)
    ensures
        match r {
            Ok(p) => filter_picks(inc@, inc@.len()) == Ok::<Seq<usize>, ErrKind>(p@),
            Err(k) => filter_picks(inc@, inc@.len()) == Err::<Seq<usize>, ErrKind>(k),
        },
{
    let mut picks: Vec<usize> = Vec::new();
    let mut i: usize = 0;
    while i < inc.len()
        invariant
            i <= inc@.len(),
            filter_picks(inc@, i as nat) == Ok::<Seq<usize>, ErrKind>(picks@),
        decreases inc@.len() - i,
    {
        match coerce_bool(&inc[i]) {
            Ok(true) => picks.push(i),
            Ok(false) => {},
            Err(k) => {
                proof {
                    lemma_filter_picks_error(inc@, (i + 1) as nat, inc@.len());
                }
                return Err(k);
            },
        }
        i = i + 1;
    }
    Ok(picks)
}

/// Once the include cells up to `n` hold an error, every longer prefix reports that error.
proof fn lemma_filter_picks_error<N: Number>(inc: Seq<Value<N>>, n: nat, m: nat)
    requires
        n <= m,
        filter_picks(inc, n) is Err,
    ensures
        filter_picks(inc, m) == filter_picks(inc, n),
    decreases m - n,
{
    if n < m {
        lemma_filter_picks_error(inc, n, (m - 1) as nat);
    }
}

/// What `FILTER` keeps of a `rows × cols` block given its `irows × icols` include cells: the axis
/// and the kept lines, `#VALUE!` when the include shape fits neither axis, or the first include
/// cell's coercion error.
pub fn filter_select<N: Number>(rows: u32, cols: u32, irows: u32, icols: u32, inc: &Vec<Value<N>>) -> (r: Result<(bool, Vec<usize>), ErrKind>)
    requires
        inc@.len() == irows * icols,
    ensures
        filter_axis(rows, cols, irows, icols) is None ==> r == Err::<(bool, Vec<usize>), ErrKind>(ErrKind::Value),
        filter_axis(rows, cols, irows, icols) matches Some(by_col) ==> match r {
            Ok(t) => t.0 == by_col && filter_picks(inc@, inc@.len()) == Ok::<Seq<usize>, ErrKind>(t.1@),
            Err(k) => filter_picks(inc@, inc@.len()) == Err::<Seq<usize>, ErrKind>(k),
        },
        r matches Ok(t) ==> t.1@.len() <= line_count(rows as int, cols as int, t.0)
            && forall|k: int| 0 <= k < t.1@.len() ==> (#[trigger] t.1@[k] as int) < line_count(rows as int, cols as int, t.0),
{
    let by_col = if irows == rows && icols == 1 {
        false
    } else if icols == cols && irows == 1 {
        true
    } else {
        return Err(ErrKind::Value);
    };
    proof {
        lemma_filter_picks_bounded(inc@, inc@.len());
        assert(inc@.len() == line_count(rows as int, cols as int, by_col)) by (nonlinear_arith)
            requires
                inc@.len() == irows * icols,
                !by_col ==> irows == rows && icols == 1,
                by_col ==> icols == cols && irows == 1,
        ;
    }
    match include_picks(inc) {
        Ok(p) => Ok((by_col, p)),
        Err(k) => Err(k),
    }
}

/// What [`filter_fn`] is stated to give, for a context `ctx` and arguments `args`.
pub open spec fn filter_fn_gives<'r, N: Number, R: Resolver<N>>(ctx: EvalCtx<'r, R>, args: Seq<Expr<N>>, r: Value<N>) -> bool {
    &&& args.len() == 2 ==> (r is Array || r is Error)
    &&& room(ctx) ==> (lit_block(args[0]) is Some ==> (lit_block(args[1]) is Some ==> ({
        let sh = lit_shape(args[0]);
        let ish = lit_shape(args[1]);
        let inc = lit_cells(args[1]);
        match filter_axis(sh.rows, sh.cols, ish.rows, ish.cols) {
            None => r == Value::<N>::Error(ErrKind::Value),
            Some(by_col) => match filter_picks(inc, inc.len()) {
                Err(k) => r == Value::<N>::Error(k),
                Ok(p) => if p.len() == 0 {
                    if args.len() > 2 { (lit_scalar(args[2]) matches Some(v) ==> r == v) } else { r == Value::<N>::Error(ErrKind::Calc) }
                } else {
                    r matches Value::Array(s, out) && s == picked_shape(sh.rows as int, sh.cols as int, p.len() as int, by_col)
                        && gathered(sh.rows as int, sh.cols as int, lit_cells(args[0]), p, by_col, out@)
                },
            },
        }
    })))
}

/// What [`filter_fn`] is stated to give for the values its arguments evaluate to in `ctx`.
pub open spec fn filter_fn_reads<'r, N: Number, R: Resolver<N>>(ctx: EvalCtx<'r, R>, args: Seq<Expr<N>>, r: Value<N>) -> bool {
    &&& exists|v: Value<N>| #[trigger] arg_value(ctx, args[0], v) && match spec_block(v) {
        Err(k) => r == Value::<N>::Error(k),
        Ok(b) => exists|w: Value<N>| #[trigger] arg_value(ctx, args[1], w) && match spec_block(w) {
            Err(k) => r == Value::<N>::Error(k),
            Ok(ib) => filter_given(ctx, b.0, b.1, b.2, ib.0, ib.1, ib.2, args, r),
        },
    }
}

/// What `FILTER` gives for a block of `rows × cols` cells and an include block of `irows × icols`
/// cells: `#VALUE!` when the include block fits neither axis; an include error; when nothing is
/// picked, the value `if_empty` evaluates to, or `#CALC!` without one; else the picked lines.
pub open spec fn filter_given<'r, N: Number, R: Resolver<N>>(ctx: EvalCtx<'r, R>, rows: u32, cols: u32, cells: Seq<Value<N>>,
    irows: u32, icols: u32, inc: Seq<Value<N>>, args: Seq<Expr<N>>, r: Value<N>) -> bool {
    match filter_axis(rows, cols, irows, icols) {
        None => r == Value::<N>::Error(ErrKind::Value),
        Some(by_col) => match filter_picks(inc, inc.len()) {
            Err(k) => r == Value::<N>::Error(k),
            Ok(p) => if p.len() == 0 {
                if args.len() > 2 {
                    exists|v: Value<N>| #[trigger] arg_value(ctx, args[2], v) && r == v
                } else {
                    r == Value::<N>::Error(ErrKind::Calc)
                }
            } else {
                r matches Value::Array(s, out) && s == picked_shape(rows as int, cols as int, p.len() as int, by_col)
                    && gathered(rows as int, cols as int, cells, p, by_col, out@)
            },
        },
    }
}

/// `FILTER(array, include, [if_empty])` — keep the rows (or columns) of a block that `include`
/// selects (see [`filter_select`]); when none is selected, `if_empty`'s value, or `#CALC!`
/// without it. An argument error propagates.
pub fn filter_fn<N: Number, R: Resolver<N>>(ctx: &mut EvalCtx<R>, args: &[Expr<N>]) -> (r: Value<N>)
    requires
        2 <= args.len() <= 3,
    ensures
        restored(*old(ctx), *final(ctx)),
        args.len() == 2 ==> (r is Array || r is Error),
        room(*old(ctx)) ==> (lit_block(args[0]) is Some ==> (lit_block(args[1]) is Some ==> ({
            let sh = lit_shape(args[0]);
            let ish = lit_shape(args[1]);
            let inc = lit_cells(args[1]);
            match filter_axis(sh.rows, sh.cols, ish.rows, ish.cols) {
                None => r == Value::<N>::Error(ErrKind::Value),
                Some(by_col) => match filter_picks(inc, inc.len()) {
                    Err(k) => r == Value::<N>::Error(k),
                    Ok(p) => if p.len() == 0 {
                        if args@.len() > 2 { (lit_scalar(args[2]) matches Some(v) ==> r == v) } else { r == Value::<N>::Error(ErrKind::Calc) }
                    } else {
                        r matches Value::Array(s, out) && s == picked_shape(sh.rows as int, sh.cols as int, p.len() as int, by_col)
                            && gathered(sh.rows as int, sh.cols as int, lit_cells(args[0]), p, by_col, out@)
                    },
                },
            }
        }))),
        exists|v: Value<N>| #[trigger] arg_value(*old(ctx), args@[0], v) && match spec_block(v) {
            Err(k) => r == Value::<N>::Error(k),
            Ok(b) => exists|w: Value<N>| #[trigger] arg_value(*old(ctx), args@[1], w) && match spec_block(w) {
                Err(k) => r == Value::<N>::Error(k),
                Ok(ib) => filter_given(*old(ctx), b.0, b.1, b.2, ib.0, ib.1, ib.2, args@, r),
            },
        },
    decreases args_size(args@), 7nat,
{
    proof {
        lemma_arg_size(args@, 0);
        lemma_arg_size(args@, 1);
    }
    let (rows, cols, cells) = match block(ctx, &args[0]) {
        Ok(t) => t,
        Err(k) => {
            return Value::Error(k);
        },
    };
    proof {
        lemma_restored_same(*old(ctx), *ctx);
    }
    let (irows, icols, inc) = match block(ctx, &args[1]) {
        Ok(t) => t,
        Err(k) => {
            return Value::Error(k);
        },
    };
    proof {
        if room(*old(ctx)) && lit_block(args@[0]) is Some && lit_block(args@[1]) is Some {
            lemma_same_flat(cells@, lit_cells(args@[0]));
            lemma_same_flat(inc@, lit_cells(args@[1]));
        }
    }
    match filter_select(rows, cols, irows, icols, &inc) {
        Err(k) => Value::Error(k),
        Ok((by_col, picks)) => {
            if picks.len() == 0 {
                if args.len() > 2 {
                    proof {
                        lemma_arg_size(args@, 2);
                        lemma_restored_same(*old(ctx), *ctx);
                    }
                    let e2 = ctx.eval(&args[2]);
                    proof {
                        assert(arg_value(*old(ctx), args@[2], e2));
                    }
                    e2
                } else {
                    Value::Error(ErrKind::Calc)
                }
            } else {
                gather(rows, cols, &cells, &picks, by_col)
            }
        },
    }
}

/// A stable key order never puts a line with a non-blank key after one with a blank key: blank
/// keys sort last, ascending or descending.
pub proof fn law_blank_keys_sort_last<N: Number>(order: Seq<usize>, keys: Seq<Value<N>>, desc: bool, i: int, j: int)
    requires
        is_permutation(order, keys.len() as int),
        stably_sorted(order, keys, desc),
        0 <= i < j < order.len(),
        keys[order[i] as int] is Blank,
    ensures
        keys[order[j] as int] is Blank,
    decreases j - i,
{
    assert(in_order(keys, desc, order[i], order[i + 1]));
    if !(keys[order[i + 1] as int] is Blank) {
        assert(spec_key_rank(keys[order[i] as int], keys[order[i + 1] as int], desc) == Order::Greater);
    }
    if i + 1 < j {
        law_blank_keys_sort_last(order, keys, desc, i + 1, j);
    }
}

/// The kept picks of [`unique_picks`] (without `exactly_once`) are increasing, and each kept line
/// equals no line kept before it.
pub proof fn law_unique_lines_are_distinct<N: Number>(rows: int, cols: int, cells: Seq<Value<N>>, by_col: bool, n: nat, a: int, b: int)
    requires
        n <= usize::MAX,
        0 <= a < b < unique_picks(rows, cols, cells, by_col, false, n).len(),
    ensures
        unique_picks(rows, cols, cells, by_col, false, n)[a] < unique_picks(rows, cols, cells, by_col, false, n)[b],
        !lines_equal(rows, cols, cells, by_col,
            unique_picks(rows, cols, cells, by_col, false, n)[a] as int,
            unique_picks(rows, cols, cells, by_col, false, n)[b] as int),
    decreases n,
{
    let p = unique_picks(rows, cols, cells, by_col, false, (n - 1) as nat);
    let i = n - 1;
    lemma_unique_picks_bounded(rows, cols, cells, by_col, false, (n - 1) as nat);
    if b < p.len() {
        law_unique_lines_are_distinct(rows, cols, cells, by_col, (n - 1) as nat, a, b);
    } else {
        assert(!equals_any(rows, cols, cells, by_col, p, i));
        assert(!lines_equal(rows, cols, cells, by_col, p[a] as int, i));
    }
}

/// Every line is covered by [`unique_picks`] (without `exactly_once`): it is kept, or it equals a
/// line kept before it.
pub proof fn law_unique_covers_every_line<N: Number>(rows: int, cols: int, cells: Seq<Value<N>>, by_col: bool, n: nat, i: int)
    requires
        n <= usize::MAX,
        0 <= i < n,
    ensures
        exists|k: int| 0 <= k < unique_picks(rows, cols, cells, by_col, false, n).len()
            && (#[trigger] unique_picks(rows, cols, cells, by_col, false, n)[k]) as int <= i
            && (unique_picks(rows, cols, cells, by_col, false, n)[k] == i
                || lines_equal(rows, cols, cells, by_col, unique_picks(rows, cols, cells, by_col, false, n)[k] as int, i)),
    decreases n,
{
    let p = unique_picks(rows, cols, cells, by_col, false, (n - 1) as nat);
    let q = unique_picks(rows, cols, cells, by_col, false, n);
    lemma_unique_picks_bounded(rows, cols, cells, by_col, false, (n - 1) as nat);
    if i < n - 1 {
        law_unique_covers_every_line(rows, cols, cells, by_col, (n - 1) as nat, i);
        let k = choose|k: int| 0 <= k < p.len() && (#[trigger] p[k]) as int <= i
            && (p[k] == i || lines_equal(rows, cols, cells, by_col, p[k] as int, i));
        assert(q[k] == p[k]);
    } else if equals_any(rows, cols, cells, by_col, p, i) {
        let k = choose|k: int| 0 <= k < p.len() && #[trigger] lines_equal(rows, cols, cells, by_col, p[k] as int, i);
        assert(q[k] == p[k]);
    } else {
        assert(q[p.len() as int] == i as usize);
    }
}

} // verus!
