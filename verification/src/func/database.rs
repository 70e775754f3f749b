//! The database functions `DSUM`, `DAVERAGE`, `DCOUNT`, `DCOUNTA`, `DMAX`, `DMIN` and `DGET`.
//!
//! A `database` is a block whose first row labels its columns and whose other rows are records.
//! `field` picks a column by 1-based number or by label (case-insensitively); `DCOUNT`/`DCOUNTA`
//! accept an omitted (blank) field, counting whole records. `criteria` is a block whose first row
//! holds labels naming database columns and whose other rows are conditions: a record matches when
//! some condition row holds for it, and a row holds when every non-blank cell under a label that
//! names a database column accepts that column's value. Condition cells use the database grammar:
//! bare non-numeric text matches values that begin with it, a leading `=` asks for an exact match,
//! and numbers, operators and wildcards read as in the `*IF` functions. A label that names no
//! database column constrains nothing; an error among the conditions is the result.

use vstd::prelude::*;
use crate::criteria::{criterion_shape, parse_criterion, spec_matches, Comparand, Criterion, Op};
use crate::eval::{restored, scalarize, spec_scalarize, text_of_scalar, to_text, EvalCtx};
use crate::expr::{args_size, lemma_arg_size, Expr, Resolver};
use crate::func::aggregation::fold_plus;
use crate::func::helpers::{block, finite_or_num, flat_cells, lemma_same_flat, lit_num, room, spec_finite_or_num};
use crate::strings::{eq_ignore_case, lower_seq, push_char};
use crate::value::{same_value, ErrKind, Number, Order, Shape, Value};

verus! {

/// What a database function computes over the field cells of the matching records.
#[derive(Clone, Copy, Debug, PartialEq, Eq, Structural)]
pub enum DReduce {
    Sum,
    Avg,
    Min,
    Max,
    /// Count the cells holding a number.
    Count,
    /// Count the non-blank cells.
    CountA,
}

/// The number of cells of a run that hold a number.
pub open spec fn count_numbers<N>(s: Seq<Value<N>>) -> nat
    decreases s.len(),
{
    if s.len() == 0 {
        0
    } else {
        count_numbers(s.drop_last()) + if s.last() is Number { 1nat } else { 0nat }
    }
}

/// The number of cells of a run that are not blank.
pub open spec fn count_nonblank<N>(s: Seq<Value<N>>) -> nat
    decreases s.len(),
{
    if s.len() == 0 {
        0
    } else {
        count_nonblank(s.drop_last()) + if s.last() is Blank { 0nat } else { 1nat }
    }
}

/// The first error of a run, if any.
pub open spec fn first_error<N>(s: Seq<Value<N>>) -> Option<ErrKind>
    decreases s.len(),
{
    if s.len() == 0 {
        None
    } else {
        match first_error(s.drop_last()) {
            Some(k) => Some(k),
            None => if s.last() is Error { Some(s.last()->Error_0) } else { None },
        }
    }
}

/// The numbers of a run of cells, in order.
pub open spec fn numbers_in<N>(s: Seq<Value<N>>) -> Seq<N>
    decreases s.len(),
{
    if s.len() == 0 {
        Seq::empty()
    } else {
        let prev = numbers_in(s.drop_last());
        if s.last() is Number { prev.push(s.last()->Number_0) } else { prev }
    }
}

/// There are as many numbers in a run as [`count_numbers`] counts.
proof fn lemma_numbers_in_len<N>(s: Seq<Value<N>>)
    ensures
        numbers_in(s).len() == count_numbers(s),
    decreases s.len(),
{
    if s.len() > 0 {
        lemma_numbers_in_len(s.drop_last());
    }
}

/// Whether `a` orders below `b` or the two are unordered.
pub open spec fn below_or_unordered<N: Number>(a: N, b: N) -> bool {
    !(a.spec_order(b) == Some(Order::Greater) || a.spec_order(b) == Some(Order::Equal))
}

/// The smallest (or, with `largest`, the largest) of a run of numbers as the database reducers
/// keep it: a later number replaces the kept one when it orders beyond it or is unordered with it;
/// `None` for none.
pub open spec fn db_extreme<N: Number>(s: Seq<N>, largest: bool) -> Option<N>
    decreases s.len(),
{
    if s.len() == 0 {
        None
    } else {
        let n = s.last();
        match db_extreme(s.drop_last(), largest) {
            None => Some(n),
            Some(e) => Some(if largest {
                if below_or_unordered(e, n) { n } else { e }
            } else {
                if below_or_unordered(n, e) { n } else { e }
            }),
        }
    }
}

/// `DMIN` / `DMAX` give one of the field's numbers, and, when every number is ordered (none is
/// unordered), no number orders strictly below (for `DMIN`) or above (for `DMAX`) the result; a
/// non-empty run has one.
pub proof fn law_db_extreme_is_extreme<N: Number>(s: Seq<N>, largest: bool)
    ensures
        s.len() > 0 <==> db_extreme(s, largest) is Some,
        db_extreme(s, largest) matches Some(x) ==> exists|i: int| 0 <= i < s.len() && s[i] == x,
        (forall|i: int| 0 <= i < s.len() ==> (#[trigger] s[i]).spec_order(s[i]) is Some) ==> (db_extreme(s, largest) matches Some(x)
            ==> forall|j: int| 0 <= j < s.len() ==> #[trigger] s[j].spec_order(x) != Some(if largest { Order::Greater } else { Order::Less })),
    decreases s.len(),
{
    if s.len() > 0 {
        let p = s.drop_last();
        let n = s.last();
        law_db_extreme_is_extreme(p, largest);
        assert(s[s.len() - 1] == n);
        match db_extreme(p, largest) {
            None => {
                N::law_order(n, n, n);
            },
            Some(e) => {
                let x = db_extreme(s, largest)->0;
                let i0 = choose|i: int| 0 <= i < p.len() && p[i] == e;
                assert(s[i0] == e);
                if forall|i: int| 0 <= i < s.len() ==> (#[trigger] s[i]).spec_order(s[i]) is Some {
                    assert forall|i: int| 0 <= i < p.len() implies (#[trigger] p[i]).spec_order(p[i]) is Some by {
                        assert(p[i] == s[i]);
                    }
                    assert(e.spec_order(e) is Some);
                    assert(n.spec_order(n) is Some);
                    assert forall|j: int| 0 <= j < s.len() implies #[trigger] s[j].spec_order(x) != Some(if largest { Order::Greater } else { Order::Less }) by {
                        N::law_order(s[j], e, n);
                        N::law_order(s[j], n, e);
                        N::law_order(n, e, s[j]);
                        N::law_order(e, n, s[j]);
                        N::law_order(n, n, n);
                        N::law_order(e, e, e);
                        if j < p.len() {
                            assert(s[j] == p[j]);
                            assert(p[j].spec_order(e) != Some(if largest { Order::Greater } else { Order::Less }));
                        }
                    }
                }
            },
        }
    }
}

/// A count as a number.
fn count_number<N: Number>(n: u64) -> (r: N)
    ensures
        n <= 0x7fff_ffff_ffff_ffff ==> r == N::spec_from_int(n as i64),
        r == N::spec_from_u128(n as u128),
{
    N::from_u128(n as u128)
}

/// What a field reduction gives for the field cells (see [`reduce_field`]).
pub open spec fn field_reduced<N: Number>(r: Value<N>, cells: Seq<Value<N>>, reduce: DReduce) -> bool {
    &&& reduce == DReduce::Count && count_numbers(cells) <= 0x7fff_ffff_ffff_ffff
        ==> r == Value::Number(N::spec_from_int(count_numbers(cells) as i64))
    &&& reduce == DReduce::CountA && count_nonblank(cells) <= 0x7fff_ffff_ffff_ffff
        ==> r == Value::Number(N::spec_from_int(count_nonblank(cells) as i64))
    &&& reduce != DReduce::Count && reduce != DReduce::CountA
        ==> (first_error(cells) matches Some(k) ==> r == Value::<N>::Error(k))
    &&& reduce == DReduce::Avg && first_error(cells) is None && count_numbers(cells) == 0
        ==> r == Value::<N>::Error(ErrKind::Div0)
    &&& (reduce == DReduce::Min || reduce == DReduce::Max) && first_error(cells) is None && count_numbers(cells) == 0
        ==> r == Value::Number(N::spec_from_int(0))
    &&& reduce == DReduce::Sum && first_error(cells) is None
        ==> r == spec_finite_or_num(fold_plus(N::spec_from_int(0), numbers_in(cells)))
    &&& reduce == DReduce::Avg && first_error(cells) is None && 0 < count_numbers(cells) <= 0x7fff_ffff_ffff_ffff
        ==> r == spec_finite_or_num(fold_plus(N::spec_from_int(0), numbers_in(cells))
            .spec_over(N::spec_from_int(count_numbers(cells) as i64)))
    &&& (reduce == DReduce::Min || reduce == DReduce::Max) && first_error(cells) is None && count_numbers(cells) > 0
        ==> r == Value::Number(db_extreme(numbers_in(cells), reduce == DReduce::Max)->0)
}

/// Reduce the field cells of the matching records. The counts never propagate an error cell: `Count`
/// counts numbers and `CountA` every non-blank cell. The numeric reducers propagate the first error
/// cell; `Avg` of no number is `#DIV/0!`, and `Min`/`Max` of no number is 0.
pub fn reduce_field<N: Number>(cells: &Vec<Value<N>>, reduce: DReduce) -> (r: Value<N>)
    ensures
        field_reduced(r, cells@, reduce),
        r is Number || r is Error,
{
    let numeric = !(reduce == DReduce::Count || reduce == DReduce::CountA);
    let mut sum = N::from_int(0);
    let mut count: u64 = 0;
    let mut nonblank: u64 = 0;
    let mut extreme: Option<N> = None;
    let mut i: usize = 0;
    while i < cells.len()
        invariant
            i <= cells@.len(),
            numeric == !(reduce == DReduce::Count || reduce == DReduce::CountA),
            count == count_numbers(cells@.subrange(0, i as int)),
            nonblank == count_nonblank(cells@.subrange(0, i as int)),
            count <= i,
            nonblank <= i,
            numeric ==> first_error(cells@.subrange(0, i as int)) is None,
            extreme is None <==> count == 0,
            sum == fold_plus(N::spec_from_int(0), numbers_in(cells@.subrange(0, i as int))),
            (reduce == DReduce::Min || reduce == DReduce::Max)
                ==> extreme == db_extreme(numbers_in(cells@.subrange(0, i as int)), reduce == DReduce::Max),
        decreases cells@.len() - i,
    {
        let ghost prefix = cells@.subrange(0, i + 1);
        let ghost prev = numbers_in(cells@.subrange(0, i as int));
        proof {
            assert(prefix.drop_last() == cells@.subrange(0, i as int));
            assert(prefix.last() == cells@[i as int]);
            assert(numbers_in(prefix) == (if prefix.last() is Number { prev.push(prefix.last()->Number_0) } else { prev }));
        }
        let is_blank = match &cells[i] {
            Value::Blank => true,
            _ => false,
        };
        if !is_blank {
            nonblank = nonblank + 1;
        }
        match &cells[i] {
            Value::Error(k) => {
                if numeric {
                    proof {
                        lemma_first_error_extends(cells@, i as int + 1);
                    }
                    return Value::Error(*k);
                }
            },
            Value::Number(n) => {
                assert(numbers_in(prefix) == prev.push(*n));
                assert(prev.push(*n).drop_last() =~= prev);
                sum = sum.plus(*n);
                count = count + 1;
                extreme = Some(match extreme {
                    None => *n,
                    Some(e) => if reduce == DReduce::Min {
                        if less_than_or_nan(*n, e) { *n } else { e }
                    } else if reduce == DReduce::Max {
                        if less_than_or_nan(e, *n) { *n } else { e }
                    } else {
                        *n
                    },
                });
            },
            _ => {},
        }
        i = i + 1;
    }
    proof {
        assert(cells@.subrange(0, cells@.len() as int) == cells@);
        lemma_numbers_in_len(cells@);
    }
    match reduce {
        DReduce::Sum => finite_or_num(sum),
        DReduce::Avg => {
            if count == 0 {
                Value::Error(ErrKind::Div0)
            } else {
                finite_or_num(sum.over(count_number(count)))
            }
        },
        DReduce::Min | DReduce::Max => match extreme {
            Some(e) => Value::Number(e),
            None => Value::Number(N::from_int(0)),
        },
        DReduce::Count => Value::Number(count_number(count)),
        DReduce::CountA => Value::Number(count_number(nonblank)),
    }
}

/// Whether `a` ranks below `b`, or the two are unordered.
fn less_than_or_nan<N: Number>(a: N, b: N) -> (r: bool)
    ensures
        r == below_or_unordered(a, b),
{
    match a.order(b) {
        Some(Order::Greater) | Some(Order::Equal) => false,
        _ => true,
    }
}

/// The first error of a prefix is the first error of the whole run.
proof fn lemma_first_error_extends<N>(s: Seq<Value<N>>, n: int)
    requires
        0 <= n <= s.len(),
        first_error(s.subrange(0, n)) is Some,
    ensures
        first_error(s) == first_error(s.subrange(0, n)),
    decreases s.len() - n,
{
    if n < s.len() {
        let next = s.subrange(0, n + 1);
        assert(next.drop_last() == s.subrange(0, n));
        lemma_first_error_extends(s, n + 1);
    } else {
        assert(s.subrange(0, n) == s);
    }
}

/// A text starts with `=` or a comparison operator.
pub open spec fn leads_with_operator(s: Seq<char>) -> bool {
    s.len() > 0 && (s[0] == '=' || s[0] == '<' || s[0] == '>')
}

/// Whether a text starts with `=` or a comparison operator (see [`leads_with_operator`]).
fn starts_with_operator(s: &str) -> (r: bool)
    ensures
        r == leads_with_operator(s@),
{
    if s.unicode_len() == 0 {
        return false;
    }
    let c = s.get_char(0);
    c == '=' || c == '<' || c == '>'
}

/// Parse a condition cell under the database grammar: bare text that does not spell a number is a
/// begins-with pattern (the text followed by `*`); everything else reads as in the `*IF` functions.
pub fn parse_db_criterion<N: Number>(v: &Value<N>) -> (r: Result<Criterion<N>, ErrKind>)
    ensures
        match *v {
            Value::Text(s) => if s@.len() == 0 || leads_with_operator(s@) {
                criterion_shape(*v, r)
            } else {
                r matches Ok(c) && c.op == Op::Eq
                    && (c.comparand is Num || (c.comparand matches Comparand::Text(p) && p@ == s@.push('*')))
            },
            _ => criterion_shape(*v, r),
        },
{
    match v {
        Value::Text(s) => {
            if s.unicode_len() == 0 || starts_with_operator(s.as_str()) {
                return parse_criterion(v);
            }
            match N::parse_text(s.as_str()) {
                Some(n) => Ok(Criterion { op: Op::Eq, comparand: Comparand::Num(n) }),
                None => {
                    let mut p = s.clone();
                    push_char(&mut p, '*');
                    Ok(Criterion { op: Op::Eq, comparand: Comparand::Text(p) })
                },
            }
        },
        _ => parse_criterion(v),
    }
}

/// Which column a database function reads: a 0-based column, or every matching record as a whole.
#[derive(Clone, Copy, Debug, PartialEq, Eq, Structural)]
pub enum Field {
    Col(u32),
    All,
}

/// Whether `a` is at least `b` in the number order (unordered is not).
fn at_least<N: Number>(a: N, b: N) -> (r: bool)
    ensures
        r == (a.spec_order(b) == Some(Order::Greater) || a.spec_order(b) == Some(Order::Equal)),
{
    match a.order(b) {
        Some(Order::Greater) | Some(Order::Equal) => true,
        _ => false,
    }
}

/// Whether a cell reads as a number (its text form then being the number's general format).
pub open spec fn numeric_cell<N>(v: Value<N>) -> bool {
    spec_scalarize(v) is Number
}

/// Whether a non-numeric cell's text equals `want` ignoring case.
pub open spec fn text_names<N>(v: Value<N>, want: Seq<char>) -> bool {
    text_of_scalar(spec_scalarize(v)) matches Ok(t) && lower_seq(t) == lower_seq(want)
}

/// The first of the first `cols` cells (the header row) whose text equals `want` ignoring case.
/// (The text of a numeric header is its general format, which these clauses leave open.)
fn find_header<N: Number>(cols: u32, cells: &Vec<Value<N>>, want: &str) -> (r: Option<u32>)
    requires
        cols <= cells@.len(),
    ensures
        r matches Some(c) ==> c < cols && (!numeric_cell(cells@[c as int]) ==> text_names(cells@[c as int], want@))
            && forall|d: int| 0 <= d < c && !numeric_cell(#[trigger] cells@[d]) ==> !text_names(cells@[d], want@),
        r is None ==> forall|d: int| 0 <= d < cols && !numeric_cell(#[trigger] cells@[d]) ==> !text_names(cells@[d], want@),
{
    let mut c: u32 = 0;
    while c < cols
        invariant
            cols <= cells@.len(),
            c <= cols,
            forall|d: int| 0 <= d < c && !numeric_cell(#[trigger] cells@[d]) ==> !text_names(cells@[d], want@),
        decreases cols - c,
    {
        match to_text(&cells[c as usize]) {
            Ok(t) => {
                if eq_ignore_case(t.as_str(), want) {
                    return Some(c);
                }
            },
            Err(_) => {},
        }
        c = c + 1;
    }
    None
}

/// A numeric `field` argument as a column: its truncation, 1-based, within the header row; else
/// `#VALUE!`.
pub open spec fn spec_field_number<N: Number>(n: N, cols: u32) -> Result<Field, ErrKind> {
    let idx = n.spec_trunc_of();
    let u = idx.spec_trunc_u64();
    if !(idx.spec_order(N::spec_from_int(1)) == Some(Order::Greater) || idx.spec_order(N::spec_from_int(1)) == Some(Order::Equal)) {
        Err(ErrKind::Value)
    } else if 1 <= u <= cols {
        Ok(Field::Col((u - 1) as u32))
    } else {
        Err(ErrKind::Value)
    }
}

/// Resolve the `field` argument against the header row (the first `cols` cells): a number picks a
/// column by 1-based position (truncated; outside the row is `#VALUE!`); a blank, when whole records
/// may be counted, picks them all; anything else is read as text and names the first header equal
/// to it ignoring case (none is `#VALUE!`). An error propagates.
pub fn resolve_field<N: Number>(cols: u32, cells: &Vec<Value<N>>, v: &Value<N>, allow_all: bool) -> (r: Result<Field, ErrKind>)
    requires
        cols <= cells@.len(),
    ensures
        *v matches Value::Error(k) ==> r == Err::<Field, ErrKind>(k),
        *v is Blank && allow_all ==> r == Ok::<Field, ErrKind>(Field::All),
        r matches Ok(Field::Col(c)) ==> c < cols,
        r matches Ok(f) && f is All ==> allow_all,
        *v matches Value::Number(n) ==> r == spec_field_number(n, cols),
{
    match v {
        Value::Error(k) => Err(*k),
        Value::Number(n) => {
            let idx = n.trunc_of();
            if !at_least(idx, N::from_int(1)) {
                return Err(ErrKind::Value);
            }
            let u = idx.trunc_u64();
            if u >= 1 && u <= cols as u64 {
                Ok(Field::Col((u - 1) as u32))
            } else {
                Err(ErrKind::Value)
            }
        },
        _ => {
            let is_blank = match v {
                Value::Blank => true,
                _ => false,
            };
            if is_blank && allow_all {
                return Ok(Field::All);
            }
            let want = match to_text(v) {
                Ok(t) => t,
                Err(k) => {
                    return Err(k);
                },
            };
            match find_header(cols, cells, want.as_str()) {
                Some(c) => Ok(Field::Col(c)),
                None => Err(ErrKind::Value),
            }
        },
    }
}

/// A compiled criteria block: its shape and cells, and for each of its columns the database column
/// its label names (`None` when it names none).
pub struct Criteria<N> {
    pub rows: u32,
    pub cols: u32,
    pub cells: Vec<Value<N>>,
    pub targets: Vec<Option<u32>>,
}

/// The criteria block is well formed against a database of `db_cols` columns.
pub open spec fn criteria_ok<N>(c: Criteria<N>, db_cols: u32) -> bool {
    &&& c.cells@.len() == c.rows * c.cols
    &&& c.targets@.len() == c.cols
    &&& forall|i: int| 0 <= i < c.targets@.len() ==> (#[trigger] c.targets@[i] matches Some(t) ==> t < db_cols)
}

/// Whether a header cell and a label name the same column: both read as text, equal ignoring case.
/// (The text of a numeric cell is its general format, which these clauses leave open.)
fn header_matches<N: Number>(header: &Value<N>, label: &Value<N>) -> (r: bool)
    ensures
        !numeric_cell(*header) && !numeric_cell(*label) ==> r == (text_of_scalar(spec_scalarize(*header)) matches Ok(h)
            && text_of_scalar(spec_scalarize(*label)) matches Ok(l) && lower_seq(h) == lower_seq(l)),
        text_of_scalar(spec_scalarize(*header)) is Err && !numeric_cell(*header) ==> !r,
{
    match (to_text(header), to_text(label)) {
        (Ok(h), Ok(l)) => eq_ignore_case(h.as_str(), l.as_str()),
        _ => false,
    }
}

/// A header and a label, both non-numeric, name the same column: their texts are equal ignoring
/// case.
pub open spec fn names_same<N>(header: Value<N>, label: Value<N>) -> bool {
    text_of_scalar(spec_scalarize(header)) matches Ok(h) && text_of_scalar(spec_scalarize(label)) matches Ok(l)
        && lower_seq(h) == lower_seq(l)
}

/// The first header at or after `h` (among the first `db_cols` cells) naming the same column as
/// `label`.
pub open spec fn label_target<N>(db_cols: u32, db_cells: Seq<Value<N>>, label: Value<N>, h: int) -> Option<u32>
    decreases db_cols - h,
{
    if h >= db_cols || h < 0 {
        None
    } else if names_same(db_cells[h], label) {
        Some(h as u32)
    } else {
        label_target(db_cols, db_cells, label, h + 1)
    }
}

/// Once an error is found in a stretch of cells, longer stretches from the same start report it.
proof fn lemma_first_error_grows<N>(s: Seq<Value<N>>, lo: int, i: int, n: int)
    requires
        0 <= lo <= i <= n <= s.len(),
        first_error(s.subrange(lo, i)) is Some,
    ensures
        first_error(s.subrange(lo, n)) == first_error(s.subrange(lo, i)),
    decreases n - i,
{
    if i < n {
        lemma_first_error_grows(s, lo, i, n - 1);
        assert(s.subrange(lo, n).drop_last() =~= s.subrange(lo, n - 1));
    }
}

/// A well-formed literal criteria block without nested arrays or numeric labels.
pub open spec fn lit_criteria_block<N>(e: Expr<N>) -> bool {
    match e {
        Expr::Lit(Value::Array(sh, cs)) => cs@.len() == sh.rows * sh.cols && flat_cells(cs@) && none_numeric(cs@, sh.cols as int),
        _ => false,
    }
}

/// No cell among the first `n` of a run reads as a number.
pub open spec fn none_numeric<N>(s: Seq<Value<N>>, n: int) -> bool {
    forall|i: int| 0 <= i < n && i < s.len() ==> !numeric_cell(#[trigger] s[i])
}

/// Evaluate and compile the `criteria` argument against the database's header row: map each label
/// to the first header it names, and propagate the first error among the condition cells.
fn compile_criteria<N: Number, R: Resolver<N>>(ctx: &mut EvalCtx<R>, e: &Expr<N>, db_cols: u32, db_cells: &Vec<Value<N>>) -> (r: Result<Criteria<N>, ErrKind>)
    requires
        db_cols <= db_cells@.len(),
    ensures
        restored(*old(ctx), *final(ctx)),
        r matches Ok(c) ==> criteria_ok(c, db_cols),
        room(*old(ctx)) && none_numeric(db_cells@, db_cols as int) ==> match *e {
            Expr::Lit(Value::Array(sh, cs)) => cs@.len() == sh.rows * sh.cols && flat_cells(cs@) && none_numeric(cs@, sh.cols as int)
                ==> ({
                let lo = if sh.cols < cs@.len() { sh.cols as int } else { cs@.len() as int };
                match first_error(cs@.subrange(lo, cs@.len() as int)) {
                    Some(k) => r == Err::<Criteria<N>, ErrKind>(k),
                    None => r matches Ok(c) && c.rows == sh.rows && c.cols == sh.cols && c.cells@ == cs@
                        && c.targets@ == Seq::new(sh.cols as nat, |i: int| if i < cs@.len() { label_target(db_cols, db_cells@, cs@[i], 0) } else { None }),
                }
            }),
            _ => true,
        },
    decreases crate::expr::expr_size(*e), 4nat,
{
    let (rows, cols, cells) = block(ctx, e)?;
    let total = cells.len();
    let ghost lits = room(*old(ctx)) && none_numeric(db_cells@, db_cols as int) && lit_criteria_block(*e);
    proof {
        if lits {
            lemma_same_flat(cells@, e->Lit_0->Array_1@);
        }
    }
    let mut targets: Vec<Option<u32>> = Vec::new();
    let mut c: u32 = 0;
    while c < cols
        invariant
            c <= cols,
            cells@.len() == rows * cols,
            total == cells@.len(),
            restored(*old(ctx), *ctx),
            db_cols <= db_cells@.len(),
            targets@.len() == c,
            forall|i: int| 0 <= i < targets@.len() ==> (#[trigger] targets@[i] matches Some(t) ==> t < db_cols),
            lits ==> none_numeric(db_cells@, db_cols as int) && none_numeric(cells@, cols as int),
            lits ==> targets@ == Seq::new(c as nat, |i: int| if i < cells@.len() { label_target(db_cols, db_cells@, cells@[i], 0) } else { None }),
        decreases cols - c,
    {
        if (c as usize) < total {
            let mut found: Option<u32> = None;
            let mut h: u32 = 0;
            while h < db_cols
                invariant_except_break
                    found is None,
                invariant
                    h <= db_cols,
                    db_cols <= db_cells@.len(),
                    (c as int) < cells@.len(),
                    found matches Some(t) ==> t < db_cols,
                    lits ==> none_numeric(db_cells@, db_cols as int) && none_numeric(cells@, cols as int) && c < cols,
                    lits ==> (found is None ==> label_target(db_cols, db_cells@, cells@[c as int], 0) == label_target(db_cols, db_cells@, cells@[c as int], h as int)),
                    lits ==> (found matches Some(t) ==> label_target(db_cols, db_cells@, cells@[c as int], 0) == Some(t)),
                ensures
                    found is None ==> h == db_cols,
                decreases db_cols - h,
            {
                let hm = header_matches(&db_cells[h as usize], &cells[c as usize]);
                proof {
                    if lits {
                        assert(!numeric_cell(db_cells@[h as int]));
                        assert(!numeric_cell(cells@[c as int]));
                        assert(hm == names_same(db_cells@[h as int], cells@[c as int]));
                    }
                }
                if hm {
                    proof {
                        if lits {
                            assert(label_target(db_cols, db_cells@, cells@[c as int], h as int) == Some(h));
                        }
                    }
                    found = Some(h);
                    break;
                }
                h = h + 1;
            }
            proof {
                if lits && found is None {
                    assert(label_target(db_cols, db_cells@, cells@[c as int], h as int) is None);
                }
            }
            targets.push(found);
        } else {
            targets.push(None);
        }
        proof {
            if lits {
                assert(targets@ =~= Seq::new((c + 1) as nat, |i: int| if i < cells@.len() { label_target(db_cols, db_cells@, cells@[i], 0) } else { None }));
            }
        }
        c = c + 1;
    }
    let mut i: usize = if (cols as usize) < total { cols as usize } else { total };
    let ghost lo = i as int;
    while i < total
        invariant
            total == cells@.len(),
            0 <= lo <= i <= total,
            restored(*old(ctx), *ctx),
            first_error(cells@.subrange(lo, i as int)) is None,
            lo == (if (cols as usize) < total { cols as int } else { total as int }),
            lits == (room(*old(ctx)) && none_numeric(db_cells@, db_cols as int) && lit_criteria_block(*e)),
            lits ==> cells@ == e->Lit_0->Array_1@ && cols == e->Lit_0->Array_0.cols && rows == e->Lit_0->Array_0.rows,
        decreases total - i,
    {
        proof {
            assert(cells@.subrange(lo, i + 1).drop_last() =~= cells@.subrange(lo, i as int));
        }
        match &cells[i] {
            Value::Error(k) => {
                proof {
                    assert(cells@.subrange(lo, i + 1).last() == cells@[i as int]);
                    assert(first_error(cells@.subrange(lo, i + 1)) == Some(*k));
                    lemma_first_error_grows(cells@, lo, i + 1, total as int);
                }
                return Err(*k);
            },
            _ => {},
        }
        i = i + 1;
    }
    Ok(Criteria { rows, cols, cells, targets })
}

/// The plain contents of a compiled criteria block.
pub struct CritView<N> {
    pub rows: u32,
    pub cols: u32,
    pub cells: Seq<Value<N>>,
    pub targets: Seq<Option<u32>>,
}

/// The plain contents of a compiled criteria block.
pub open spec fn crit_view<N>(c: Criteria<N>) -> CritView<N> {
    CritView { rows: c.rows, cols: c.cols, cells: c.cells@, targets: c.targets@ }
}

/// Every condition cell of a criteria block (below its label row) is a number or blank.
pub open spec fn numeric_conditions<N>(c: CritView<N>) -> bool {
    forall|i: int| c.cols <= i < c.cells.len() ==> (#[trigger] c.cells[i]) is Number || c.cells[i] is Blank
}

/// Condition `(row, col)` of a numeric criteria block accepts record `rec`: a blank condition or an
/// unmapped label accepts anything; a number accepts a record value equal to it.
pub open spec fn condition_accepts<N: Number>(c: CritView<N>, db_cols: u32, db_cells: Seq<Value<N>>, rec: int, row: int, col: int) -> bool {
    let cell = c.cells[row * c.cols + col];
    match c.targets[col] {
        None => true,
        Some(t) => cell is Blank
            || spec_matches(Criterion { op: Op::Eq, comparand: Comparand::Num(cell->Number_0) }, db_cells[rec * db_cols + t]),
    }
}

/// Every condition of criteria row `row` accepts record `rec`.
pub open spec fn row_accepts<N: Number>(c: CritView<N>, db_cols: u32, db_cells: Seq<Value<N>>, rec: int, row: int) -> bool {
    forall|col: int| 0 <= col < c.cols ==> #[trigger] condition_accepts(c, db_cols, db_cells, rec, row, col)
}

/// Whether record row `rec` (a row of the database block) satisfies the criteria: some condition
/// row holds, every non-blank cell of it under a mapped label accepting the record's value there.
fn record_matches<N: Number>(crit: &Criteria<N>, db_rows: u32, db_cols: u32, db_cells: &Vec<Value<N>>, rec: u32) -> (res: bool)
    requires
        criteria_ok(*crit, db_cols),
        db_cells@.len() == db_rows * db_cols,
        rec < db_rows,
    ensures
        numeric_conditions(crit_view(*crit)) ==> res == exists|row: int| 1 <= row < crit.rows && #[trigger] row_accepts(crit_view(*crit), db_cols, db_cells@, rec as int, row),
{
    let total = db_cells.len();
    let ctotal = crit.cells.len();
    let mut r: u32 = 1;
    while r < crit.rows
        invariant
            criteria_ok(*crit, db_cols),
            db_cells@.len() == db_rows * db_cols,
            total == db_cells@.len(),
            ctotal == crit.cells@.len(),
            rec < db_rows,
            1 <= r,
            numeric_conditions(crit_view(*crit)) ==> forall|rr: int| 1 <= rr < r ==> !#[trigger] row_accepts(crit_view(*crit), db_cols, db_cells@, rec as int, rr),
        decreases crit.rows - r,
    {
        let mut all = true;
        let mut c: u32 = 0;
        while c < crit.cols && all
            invariant
                criteria_ok(*crit, db_cols),
                db_cells@.len() == db_rows * db_cols,
                total == db_cells@.len(),
                ctotal == crit.cells@.len(),
                rec < db_rows,
                1 <= r < crit.rows,
                c <= crit.cols,
                numeric_conditions(crit_view(*crit)) ==> (all <==> forall|cc: int| 0 <= cc < c ==> #[trigger] condition_accepts(crit_view(*crit), db_cols, db_cells@, rec as int, r as int, cc)),
            decreases crit.cols - c,
        {
            proof {
                lemma_cell_offset(crit.rows as int, crit.cols as int, r as int, c as int);
            }
            let cell = &crit.cells[(r as usize) * (crit.cols as usize) + (c as usize)];
            let is_blank = match cell {
                Value::Blank => true,
                _ => false,
            };
            if !is_blank {
                match crit.targets[c as usize] {
                    None => {},
                    Some(dc) => {
                        proof {
                            lemma_cell_offset(db_rows as int, db_cols as int, rec as int, dc as int);
                        }
                        let value = &db_cells[(rec as usize) * (db_cols as usize) + (dc as usize)];
                        let ok = match parse_db_criterion(cell) {
                            Ok(cr) => cr.matches(value),
                            Err(_) => false,
                        };
                        proof {
                            if numeric_conditions(crit_view(*crit)) {
                                assert(crit.cols <= r * crit.cols + c) by (nonlinear_arith)
                                    requires
                                        1 <= r,
                                ;
                                assert(ok == condition_accepts(crit_view(*crit), db_cols, db_cells@, rec as int, r as int, c as int));
                            }
                        }
                        if !ok {
                            all = false;
                        }
                    },
                }
            }
            proof {
                if numeric_conditions(crit_view(*crit)) {
                    assert(condition_accepts(crit_view(*crit), db_cols, db_cells@, rec as int, r as int, c as int) == ((is_blank || crit.targets@[c as int] is None) || all));
                }
            }
            c = c + 1;
        }
        if all {
            proof {
                if numeric_conditions(crit_view(*crit)) {
                    assert(row_accepts(crit_view(*crit), db_cols, db_cells@, rec as int, r as int));
                }
            }
            return true;
        }
        proof {
            if numeric_conditions(crit_view(*crit)) {
                assert(!row_accepts(crit_view(*crit), db_cols, db_cells@, rec as int, r as int));
            }
        }
        r = r + 1;
    }
    false
}

/// A 0-based position inside a `rows × cols` block is a valid row-major offset.
proof fn lemma_cell_offset(rows: int, cols: int, r: int, c: int)
    requires
        0 <= r < rows,
        0 <= c < cols,
    ensures
        0 <= r * cols + c < rows * cols,
{
    assert(0 <= r * cols + c < rows * cols) by (nonlinear_arith)
        requires
            0 <= r < rows,
            0 <= c < cols,
    ;
}

/// Some condition row of a numeric criteria block accepts record `rec`.
pub open spec fn record_accepted<N: Number>(c: CritView<N>, db_cols: u32, db_cells: Seq<Value<N>>, rec: int) -> bool {
    exists|row: int| 1 <= row < c.rows && #[trigger] row_accepts(c, db_cols, db_cells, rec, row)
}

/// The accepted records among rows `1..k` of the database block, in order.
pub open spec fn accepted_records<N: Number>(c: CritView<N>, db_cols: u32, db_cells: Seq<Value<N>>, k: int) -> Seq<int>
    decreases k,
{
    if k <= 1 {
        Seq::<int>::empty()
    } else {
        let p = accepted_records(c, db_cols, db_cells, k - 1);
        if record_accepted(c, db_cols, db_cells, k - 1) { p.push(k - 1) } else { p }
    }
}

/// The records of a database that satisfy the criteria, as their field cells (or, for a whole-
/// record field, nothing), with how many there are.
fn matching_cells<N: Number>(rows: u32, cols: u32, cells: &Vec<Value<N>>, field: Field, crit: &Criteria<N>) -> (r: (Vec<Value<N>>, u64))
    requires
        cells@.len() == rows * cols,
        criteria_ok(*crit, cols),
        field matches Field::Col(c) ==> c < cols,
    ensures
        r.1 < rows || rows == 0,
        field is Col ==> r.0@.len() == r.1,
        numeric_conditions(crit_view(*crit)) && rows >= 1 ==> ({
            let acc = accepted_records(crit_view(*crit), cols, cells@, rows as int);
            &&& r.1 == acc.len()
            &&& field matches Field::Col(fc) ==> forall|j: int| 0 <= j < r.0@.len()
                ==> same_value(#[trigger] r.0@[j], cells@[acc[j] * cols + fc])
        }),
{
    let total = cells.len();
    let mut out: Vec<Value<N>> = Vec::new();
    let mut hits: u64 = 0;
    let mut rec: u32 = 1;
    while rec < rows
        invariant
            cells@.len() == rows * cols,
            total == cells@.len(),
            criteria_ok(*crit, cols),
            field matches Field::Col(c) ==> c < cols,
            1 <= rec <= rows || rows == 0,
            hits < rec,
            field is Col ==> out@.len() == hits,
            numeric_conditions(crit_view(*crit)) && rows >= 1 ==> hits == accepted_records(crit_view(*crit), cols, cells@, rec as int).len(),
            numeric_conditions(crit_view(*crit)) && rows >= 1 ==> (field matches Field::Col(fc) ==> forall|j: int| 0 <= j < out@.len()
                ==> same_value(#[trigger] out@[j], cells@[accepted_records(crit_view(*crit), cols, cells@, rec as int)[j] * cols + fc])),
        decreases rows - rec,
    {
        let ghost before = out@;
        let m = record_matches(crit, rows, cols, cells, rec);
        proof {
            if numeric_conditions(crit_view(*crit)) {
                assert(m == record_accepted(crit_view(*crit), cols, cells@, rec as int));
            }
        }
        if m {
            hits = hits + 1;
            match field {
                Field::Col(c) => {
                    proof {
                        lemma_cell_offset(rows as int, cols as int, rec as int, c as int);
                    }
                    out.push(cells[(rec as usize) * (cols as usize) + (c as usize)].duplicate());
                },
                Field::All => {},
            }
        }
        rec = rec + 1;
    }
    (out, hits)
}

/// Every accepted record lies among the data rows `1..k`.
proof fn lemma_accepted_range<N: Number>(c: CritView<N>, db_cols: u32, db_cells: Seq<Value<N>>, k: int)
    ensures
        forall|j: int| 0 <= j < accepted_records(c, db_cols, db_cells, k).len()
            ==> 1 <= #[trigger] accepted_records(c, db_cols, db_cells, k)[j] < k,
    decreases k,
{
    if k > 1 {
        lemma_accepted_range(c, db_cols, db_cells, k - 1);
        let p = accepted_records(c, db_cols, db_cells, k - 1);
        let a = accepted_records(c, db_cols, db_cells, k);
        assert forall|j: int| 0 <= j < a.len() implies 1 <= #[trigger] a[j] < k by {
            if j < p.len() {
                assert(a[j] == p[j]);
            } else {
                assert(a[j] == k - 1);
            }
        }
    }
}

/// A well-formed literal database array without nested arrays, as its shape and cells.
pub open spec fn lit_db<N>(e: Expr<N>) -> Option<(Shape, Seq<Value<N>>)> {
    match e {
        Expr::Lit(Value::Array(sh, c)) => if c@.len() == sh.rows * sh.cols && flat_cells(c@) { Some((sh, c@)) } else { None },
        _ => None,
    }
}

/// The cells of a literal database array (see [`lit_db`]).
pub open spec fn lit_db_cells<N>(e: Expr<N>) -> Seq<Value<N>> {
    match lit_db(e) {
        Some((_, c)) => c,
        None => Seq::empty(),
    }
}

/// The compiled contents of a literal criteria block against a database header row (see
/// [`compile_criteria`]).
pub open spec fn lit_crit_view<N>(e: Expr<N>, db_cols: u32, db_cells: Seq<Value<N>>) -> CritView<N> {
    match e {
        Expr::Lit(Value::Array(sh, cs)) => CritView {
            rows: sh.rows,
            cols: sh.cols,
            cells: cs@,
            targets: Seq::new(sh.cols as nat, |i: int| if i < cs@.len() { label_target(db_cols, db_cells, cs@[i], 0) } else { None }),
        },
        _ => CritView { rows: 0, cols: 0, cells: Seq::empty(), targets: Seq::empty() },
    }
}

/// The first error among the condition cells of a literal criteria block.
pub open spec fn lit_crit_error<N>(e: Expr<N>) -> Option<ErrKind> {
    match e {
        Expr::Lit(Value::Array(sh, cs)) => {
            let lo = if sh.cols < cs@.len() { sh.cols as int } else { cs@.len() as int };
            first_error(cs@.subrange(lo, cs@.len() as int))
        },
        _ => None,
    }
}

/// The field cells a database query over literal arguments selects, or its error: the database
/// is a literal array whose header row has no numeric cell, the field a literal number, and the
/// criteria a literal block whose labels are not numeric and whose conditions are numbers or
/// blanks (`None` otherwise).
pub open spec fn db_query<N: Number>(args: Seq<Expr<N>>) -> Option<Result<Seq<Value<N>>, ErrKind>> {
    match lit_db(args[0]) {
        Some((sh, cells)) => match lit_num(args[1]) {
            Some(f) => if none_numeric(cells, sh.cols as int) && lit_criteria_block(args[2])
                && numeric_conditions(lit_crit_view(args[2], sh.cols, cells)) {
                Some(if sh.rows == 0 {
                    Err(ErrKind::Value)
                } else {
                    match spec_field_number(f, sh.cols) {
                        Err(k) => Err(k),
                        Ok(Field::All) => Err(ErrKind::Value),
                        Ok(Field::Col(fc)) => match lit_crit_error(args[2]) {
                            Some(k) => Err(k),
                            None => {
                                let acc = accepted_records(lit_crit_view(args[2], sh.cols, cells), sh.cols, cells, sh.rows as int);
                                Ok(Seq::new(acc.len(), |j: int| cells[acc[j] * sh.cols + fc]))
                            },
                        },
                    }
                })
            } else {
                None
            },
            None => None,
        },
        None => None,
    }
}

/// The field cells a query over literal arguments matched are the ones [`db_query`] selects.
proof fn lemma_db_matched<N: Number>(args: Seq<Expr<N>>, rows: u32, cols: u32, cells: Seq<Value<N>>, field: Field, cv: CritView<N>, matched: Seq<Value<N>>)
    requires
        db_query(args) matches Some(q) && q is Ok,
        lit_db(args[0]) matches Some((sh, c)) && c == cells && sh.rows == rows && sh.cols == cols,
        cells.len() == rows * cols,
        field matches Field::Col(fc) && fc < cols && Ok::<Field, ErrKind>(field) == spec_field_number(lit_num(args[1])->0, cols),
        cv == lit_crit_view(args[2], cols, cells),
        numeric_conditions(cv),
        rows >= 1,
        ({
            let acc = accepted_records(cv, cols, cells, rows as int);
            &&& matched.len() == acc.len()
            &&& field matches Field::Col(fc) ==> forall|j: int| 0 <= j < matched.len() ==> same_value(#[trigger] matched[j], cells[acc[j] * cols + fc])
        }),
    ensures
        db_query(args) == Some(Ok::<Seq<Value<N>>, ErrKind>(matched)),
{
    let acc = accepted_records(cv, cols, cells, rows as int);
    lemma_accepted_range(cv, cols, cells, rows as int);
    let fc = field->Col_0;
    assert forall|j: int| 0 <= j < matched.len() implies matched[j] == cells[acc[j] * cols + fc] by {
        lemma_cell_offset(rows as int, cols as int, acc[j], fc as int);
        assert(!(cells[acc[j] * cols + fc] is Array));
        assert(same_value(matched[j], cells[acc[j] * cols + fc]));
        match matched[j] {
            Value::Array(..) => {},
            _ => {},
        }
    }
    assert(matched =~= Seq::new(acc.len(), |j: int| cells[acc[j] * cols + fc]));
}

/// What an aggregating database function gives when [`db_query`] applies: the query's error, else
/// the reduction of the selected field cells.
pub open spec fn d_agg_outcome<N: Number>(args: Seq<Expr<N>>, reduce: DReduce, r: Value<N>) -> bool {
    db_query(args) matches Some(q) ==> match q {
        Err(k) => r == Value::<N>::Error(k),
        Ok(fs) => field_reduced(r, fs, reduce),
    }
}

/// Shared body of the aggregating database functions: the field cells of the matching records
/// reduced (see [`reduce_field`]), or, for a whole-record field, the count of matching records.
/// An empty database block is `#VALUE!`; an argument error propagates.
fn d_agg<N: Number, R: Resolver<N>>(ctx: &mut EvalCtx<R>, args: &[Expr<N>], reduce: DReduce, allow_all: bool) -> (r: Value<N>)
    requires
        args.len() == 3,
    ensures
        restored(*old(ctx), *final(ctx)),
        r is Number || r is Error,
        room(*old(ctx)) ==> d_agg_outcome(args@, reduce, r),
    decreases args_size(args@), 6nat,
{
    proof {
        lemma_arg_size(args@, 0);
        lemma_arg_size(args@, 1);
        lemma_arg_size(args@, 2);
    }
    let (rows, cols, cells) = match block(ctx, &args[0]) {
        Ok(t) => t,
        Err(k) => {
            return Value::Error(k);
        },
    };
    proof {
        if room(*old(ctx)) && lit_db(args@[0]) is Some {
            lemma_same_flat(cells@, lit_db_cells(args@[0]));
        }
    }
    if rows == 0 {
        return Value::Error(ErrKind::Value);
    }
    proof {
        assert(cols <= rows * cols) by (nonlinear_arith)
            requires
                rows >= 1,
        ;
    }
    let fv = scalarize(ctx.eval(&args[1]));
    let field = match resolve_field(cols, &cells, &fv, allow_all) {
        Ok(f) => f,
        Err(k) => {
            return Value::Error(k);
        },
    };
    let crit = match compile_criteria(ctx, &args[2], cols, &cells) {
        Ok(c) => c,
        Err(k) => {
            return Value::Error(k);
        },
    };
    let (matched, hits) = matching_cells(rows, cols, &cells, field, &crit);
    proof {
        if room(*old(ctx)) && (db_query(args@) matches Some(q) && q is Ok) {
            assert(crit_view(crit) == lit_crit_view(args@[2], cols, cells@));
            lemma_db_matched(args@, rows, cols, cells@, field, crit_view(crit), matched@);
        }
    }
    match field {
        Field::All => Value::Number(count_number(hits)),
        Field::Col(_) => reduce_field(&matched, reduce),
    }
}

/// What [`dsum`] is stated to give, for a context `ctx` and arguments `args`.
pub open spec fn dsum_gives<'r, N: Number, R: Resolver<N>>(ctx: EvalCtx<'r, R>, args: Seq<Expr<N>>, r: Value<N>) -> bool {
    &&& room(ctx) ==> d_agg_outcome(args, DReduce::Sum, r)
    &&& r is Number || r is Error
}

/// `DSUM(database, field, criteria)` — the total of the matching records' field numbers.
pub fn dsum<N: Number, R: Resolver<N>>(ctx: &mut EvalCtx<R>, args: &[Expr<N>]) -> (r: Value<N>)
    requires
        args.len() == 3,
    ensures
        room(*old(ctx)) ==> d_agg_outcome(args@, DReduce::Sum, r),
        restored(*old(ctx), *final(ctx)),
        r is Number || r is Error,
    decreases args_size(args@), 7nat,
{
    d_agg(ctx, args, DReduce::Sum, false)
}

/// What [`daverage`] is stated to give, for a context `ctx` and arguments `args`.
pub open spec fn daverage_gives<'r, N: Number, R: Resolver<N>>(ctx: EvalCtx<'r, R>, args: Seq<Expr<N>>, r: Value<N>) -> bool {
    &&& room(ctx) ==> d_agg_outcome(args, DReduce::Avg, r)
    &&& r is Number || r is Error
}

/// `DAVERAGE(database, field, criteria)` — the mean of the matching numbers; none is `#DIV/0!`.
pub fn daverage<N: Number, R: Resolver<N>>(ctx: &mut EvalCtx<R>, args: &[Expr<N>]) -> (r: Value<N>)
    requires
        args.len() == 3,
    ensures
        room(*old(ctx)) ==> d_agg_outcome(args@, DReduce::Avg, r),
        restored(*old(ctx), *final(ctx)),
        r is Number || r is Error,
    decreases args_size(args@), 7nat,
{
    d_agg(ctx, args, DReduce::Avg, false)
}

/// What [`dcount`] is stated to give, for a context `ctx` and arguments `args`.
pub open spec fn dcount_gives<'r, N: Number, R: Resolver<N>>(ctx: EvalCtx<'r, R>, args: Seq<Expr<N>>, r: Value<N>) -> bool {
    &&& room(ctx) ==> d_agg_outcome(args, DReduce::Count, r)
    &&& r is Number || r is Error
}

/// `DCOUNT(database, field, criteria)` — how many matching records hold a number in the field;
/// an omitted field counts the matching records.
pub fn dcount<N: Number, R: Resolver<N>>(ctx: &mut EvalCtx<R>, args: &[Expr<N>]) -> (r: Value<N>)
    requires
        args.len() == 3,
    ensures
        room(*old(ctx)) ==> d_agg_outcome(args@, DReduce::Count, r),
        restored(*old(ctx), *final(ctx)),
        r is Number || r is Error,
    decreases args_size(args@), 7nat,
{
    d_agg(ctx, args, DReduce::Count, true)
}

/// What [`dcounta`] is stated to give, for a context `ctx` and arguments `args`.
pub open spec fn dcounta_gives<'r, N: Number, R: Resolver<N>>(ctx: EvalCtx<'r, R>, args: Seq<Expr<N>>, r: Value<N>) -> bool {
    &&& room(ctx) ==> d_agg_outcome(args, DReduce::CountA, r)
    &&& r is Number || r is Error
}

/// `DCOUNTA(database, field, criteria)` — how many matching records have a non-blank field; an
/// omitted field counts the matching records.
pub fn dcounta<N: Number, R: Resolver<N>>(ctx: &mut EvalCtx<R>, args: &[Expr<N>]) -> (r: Value<N>)
    requires
        args.len() == 3,
    ensures
        room(*old(ctx)) ==> d_agg_outcome(args@, DReduce::CountA, r),
        restored(*old(ctx), *final(ctx)),
        r is Number || r is Error,
    decreases args_size(args@), 7nat,
{
    d_agg(ctx, args, DReduce::CountA, true)
}

/// What [`dmax`] is stated to give, for a context `ctx` and arguments `args`.
pub open spec fn dmax_gives<'r, N: Number, R: Resolver<N>>(ctx: EvalCtx<'r, R>, args: Seq<Expr<N>>, r: Value<N>) -> bool {
    &&& room(ctx) ==> d_agg_outcome(args, DReduce::Max, r)
    &&& r is Number || r is Error
}

/// `DMAX(database, field, criteria)` — the largest matching number; none is 0.
pub fn dmax<N: Number, R: Resolver<N>>(ctx: &mut EvalCtx<R>, args: &[Expr<N>]) -> (r: Value<N>)
    requires
        args.len() == 3,
    ensures
        room(*old(ctx)) ==> d_agg_outcome(args@, DReduce::Max, r),
        restored(*old(ctx), *final(ctx)),
        r is Number || r is Error,
    decreases args_size(args@), 7nat,
{
    d_agg(ctx, args, DReduce::Max, false)
}

/// What [`dmin`] is stated to give, for a context `ctx` and arguments `args`.
pub open spec fn dmin_gives<'r, N: Number, R: Resolver<N>>(ctx: EvalCtx<'r, R>, args: Seq<Expr<N>>, r: Value<N>) -> bool {
    &&& room(ctx) ==> d_agg_outcome(args, DReduce::Min, r)
    &&& r is Number || r is Error
}

/// `DMIN(database, field, criteria)` — the smallest matching number; none is 0.
pub fn dmin<N: Number, R: Resolver<N>>(ctx: &mut EvalCtx<R>, args: &[Expr<N>]) -> (r: Value<N>)
    requires
        args.len() == 3,
    ensures
        room(*old(ctx)) ==> d_agg_outcome(args@, DReduce::Min, r),
        restored(*old(ctx), *final(ctx)),
        r is Number || r is Error,
    decreases args_size(args@), 7nat,
{
    d_agg(ctx, args, DReduce::Min, false)
}

/// The `DGET` result from the matching records' field cells: none is `#VALUE!`, more than one
/// `#NUM!`, and a single blank reads as 0; any other single value is returned as it is.
pub fn dget_of<N: Number>(matched: Vec<Value<N>>, hits: u64) -> (r: Value<N>)
    requires
        matched@.len() == hits,
    ensures
        hits == 0 ==> r == Value::<N>::Error(ErrKind::Value),
        hits > 1 ==> r == Value::<N>::Error(ErrKind::Num),
        hits == 1 ==> r == (if matched@[0] is Blank { Value::Number(N::spec_from_int(0)) } else { matched@[0] }),
{
    if hits == 0 {
        return Value::Error(ErrKind::Value);
    }
    if hits > 1 {
        return Value::Error(ErrKind::Num);
    }
    let mut m = matched;
    let v = m.pop().unwrap();
    match v {
        Value::Blank => Value::Number(N::from_int(0)),
        other => other,
    }
}

/// What [`dget`] is stated to give, for a context `ctx` and arguments `args`.
pub open spec fn dget_gives<'r, N: Number, R: Resolver<N>>(ctx: EvalCtx<'r, R>, args: Seq<Expr<N>>, r: Value<N>) -> bool {
    &&& room(ctx) ==> (db_query(args) matches Some(q) ==> r == match q {
        Err(k) => Value::<N>::Error(k),
        Ok(fs) => if fs.len() == 0 {
            Value::<N>::Error(ErrKind::Value)
        } else if fs.len() > 1 {
            Value::<N>::Error(ErrKind::Num)
        } else if fs[0] is Blank {
            Value::<N>::Number(N::spec_from_int(0))
        } else {
            fs[0]
        },
    })
}

/// `DGET(database, field, criteria)` — the field value of the single matching record (see
/// [`dget_of`]).
pub fn dget<N: Number, R: Resolver<N>>(ctx: &mut EvalCtx<R>, args: &[Expr<N>]) -> (r: Value<N>)
    requires
        args.len() == 3,
    ensures
        restored(*old(ctx), *final(ctx)),
        room(*old(ctx)) ==> (db_query(args@) matches Some(q) ==> r == match q {
            Err(k) => Value::<N>::Error(k),
            Ok(fs) => if fs.len() == 0 {
                Value::<N>::Error(ErrKind::Value)
            } else if fs.len() > 1 {
                Value::<N>::Error(ErrKind::Num)
            } else if fs[0] is Blank {
                Value::<N>::Number(N::spec_from_int(0))
            } else {
                fs[0]
            },
        }),
    decreases args_size(args@), 7nat,
{
    proof {
        lemma_arg_size(args@, 0);
        lemma_arg_size(args@, 1);
        lemma_arg_size(args@, 2);
    }
    let (rows, cols, cells) = match block(ctx, &args[0]) {
        Ok(t) => t,
        Err(k) => {
            return Value::Error(k);
        },
    };
    proof {
        if room(*old(ctx)) && lit_db(args@[0]) is Some {
            lemma_same_flat(cells@, lit_db_cells(args@[0]));
        }
    }
    if rows == 0 {
        return Value::Error(ErrKind::Value);
    }
    proof {
        assert(cols <= rows * cols) by (nonlinear_arith)
            requires
                rows >= 1,
        ;
    }
    let fv = scalarize(ctx.eval(&args[1]));
    let field = match resolve_field(cols, &cells, &fv, false) {
        Ok(f) => f,
        Err(k) => {
            return Value::Error(k);
        },
    };
    let crit = match compile_criteria(ctx, &args[2], cols, &cells) {
        Ok(c) => c,
        Err(k) => {
            return Value::Error(k);
        },
    };
    let (matched, hits) = matching_cells(rows, cols, &cells, field, &crit);
    proof {
        if room(*old(ctx)) && (db_query(args@) matches Some(q) && q is Ok) {
            assert(crit_view(crit) == lit_crit_view(args@[2], cols, cells@));
            lemma_db_matched(args@, rows, cols, cells@, field, crit_view(crit), matched@);
        }
    }
    dget_of(matched, hits)
}

} // verus!
