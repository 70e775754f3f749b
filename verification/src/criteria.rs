//! The criteria mini-language for the `*IF(S)` reporting family ([`Criterion`], [`parse_criterion`]).
//!
//! A criterion is a scalar that is either a bare value (equality) or a string that may lead with a
//! comparison operator and whose remainder is a number or a wildcard text pattern. This module is
//! the one place that grammar lives, so every `*IF`/`*IFS` function shares one notion of "does this
//! cell match this criterion".

use vstd::prelude::*;
use crate::strings::{chars_of, lower_chars, lower_seq, order_chars, seq_order, string_of_range};
use crate::value::{ErrKind, Number, Order, Value};

verus! {

/// A comparison operator extracted from a criteria string (or the implicit `Eq` of a bare value).
#[derive(Clone, Copy, Debug, PartialEq, Eq, Structural)]
pub enum Op {
    Eq,
    Ne,
    Gt,
    Ge,
    Lt,
    Le,
}

/// The right-hand side of a criterion: a number compares numerically, a text pattern with
/// wildcards (for `Eq`/`Ne`) or case-insensitively (for ordering), and `Empty` is the
/// blank/non-blank selector.
#[derive(Debug, PartialEq)]
pub enum Comparand<N> {
    Num(N),
    Text(String),
    Empty,
}

/// A parsed criterion: an operator paired with its typed comparand.
#[derive(Debug, PartialEq)]
pub struct Criterion<N> {
    pub op: Op,
    pub comparand: Comparand<N>,
}

/// The leading operator of a criteria string and the rest of it. Two-character operators are tried
/// before their one-character prefixes; no leading operator is an implicit `Eq` over the whole
/// string.
pub open spec fn spec_split_op(s: Seq<char>) -> (Op, Seq<char>) {
    if s.len() >= 2 && s[0] == '<' && s[1] == '>' {
        (Op::Ne, s.subrange(2, s.len() as int))
    } else if s.len() >= 2 && s[0] == '>' && s[1] == '=' {
        (Op::Ge, s.subrange(2, s.len() as int))
    } else if s.len() >= 2 && s[0] == '<' && s[1] == '=' {
        (Op::Le, s.subrange(2, s.len() as int))
    } else if s.len() >= 1 && s[0] == '>' {
        (Op::Gt, s.subrange(1, s.len() as int))
    } else if s.len() >= 1 && s[0] == '<' {
        (Op::Lt, s.subrange(1, s.len() as int))
    } else if s.len() >= 1 && s[0] == '=' {
        (Op::Eq, s.subrange(1, s.len() as int))
    } else {
        (Op::Eq, s)
    }
}

/// Split a leading comparison operator off a criteria string.
pub fn split_op(s: &str) -> (r: (Op, String))
    ensures
        r.0 == spec_split_op(s@).0,
        r.1@ == spec_split_op(s@).1,
{
    let cs = chars_of(s);
    let n = cs.len();
    if n >= 2 && cs[0] == '<' && cs[1] == '>' {
        (Op::Ne, string_of_range(&cs, 2, n))
    } else if n >= 2 && cs[0] == '>' && cs[1] == '=' {
        (Op::Ge, string_of_range(&cs, 2, n))
    } else if n >= 2 && cs[0] == '<' && cs[1] == '=' {
        (Op::Le, string_of_range(&cs, 2, n))
    } else if n >= 1 && cs[0] == '>' {
        (Op::Gt, string_of_range(&cs, 1, n))
    } else if n >= 1 && cs[0] == '<' {
        (Op::Lt, string_of_range(&cs, 1, n))
    } else if n >= 1 && cs[0] == '=' {
        (Op::Eq, string_of_range(&cs, 1, n))
    } else {
        let r = string_of_range(&cs, 0, n);
        assert(cs@.subrange(0, n as int) =~= s@);
        (Op::Eq, r)
    }
}

/// Excel's canonical text for a boolean.
pub open spec fn bool_chars(b: bool) -> Seq<char> {
    if b { "TRUE"@ } else { "FALSE"@ }
}

/// Excel's canonical text for a boolean.
pub fn bool_text(b: bool) -> (r: String)
    ensures
        r@ == bool_chars(b),
{
    if b {
        "TRUE".to_owned()
    } else {
        "FALSE".to_owned()
    }
}

/// Whether a parsed criterion has the shape the criteria grammar gives a value: an error value
/// propagates, a multi-cell array is `#VALUE!`, a number is numeric equality, a boolean is text
/// equality with its canonical text, a blank is the blank selector, and a string is split on its
/// leading operator with an empty remainder selecting blanks and any other remainder compared as a
/// number or as a text pattern.
pub open spec fn criterion_shape<N>(v: Value<N>, r: Result<Criterion<N>, ErrKind>) -> bool {
    match v {
        Value::Error(k) => r == Err::<Criterion<N>, ErrKind>(k),
        Value::Array(_, _) => r == Err::<Criterion<N>, ErrKind>(ErrKind::Value),
        Value::Number(n) => r == Ok::<Criterion<N>, ErrKind>(Criterion { op: Op::Eq, comparand: Comparand::Num(n) }),
        Value::Bool(b) => r matches Ok(c) && (c.op == Op::Eq && (c.comparand matches Comparand::Text(t) && t@ == bool_chars(b))),
        Value::Blank => r == Ok::<Criterion<N>, ErrKind>(Criterion { op: Op::Eq, comparand: Comparand::Empty }),
        Value::Text(s) => r matches Ok(c) && text_criterion_shape(s@, c),
    }
}

/// The shape of a criterion parsed from a string.
pub open spec fn text_criterion_shape<N>(s: Seq<char>, c: Criterion<N>) -> bool {
    let (op, rest) = spec_split_op(s);
    &&& c.op == op
    &&& rest.len() == 0 ==> c.comparand == Comparand::<N>::Empty
    &&& rest.len() > 0 ==> (c.comparand is Num || (c.comparand matches Comparand::Text(t) && t@ == rest))
}

/// Parse one already-evaluated criteria value into a [`Criterion`].
pub fn parse_criterion<N: Number>(v: &Value<N>) -> (r: Result<Criterion<N>, ErrKind>)
    ensures
        criterion_shape(*v, r),
{
    match v {
        Value::Error(k) => Err(*k),
        Value::Number(n) => Ok(Criterion { op: Op::Eq, comparand: Comparand::Num(*n) }),
        Value::Bool(b) => Ok(Criterion { op: Op::Eq, comparand: Comparand::Text(bool_text(*b)) }),
        Value::Blank => Ok(Criterion { op: Op::Eq, comparand: Comparand::Empty }),
        Value::Text(s) => Ok(parse_text_criterion(s.as_str())),
        Value::Array(..) => Err(ErrKind::Value),
    }
}

/// Parse a criteria string: strip a leading operator, then classify the remainder as a finite
/// number, an empty string (blank selector), or a wildcard text pattern.
fn parse_text_criterion<N: Number>(s: &str) -> (c: Criterion<N>)
    ensures
        text_criterion_shape(s@, c),
{
    let (op, rest) = split_op(s);
    let comparand = if rest.unicode_len() == 0 {
        Comparand::Empty
    } else {
        match N::parse_text(rest.as_str()) {
            Some(n) => Comparand::Num(n),
            None => Comparand::Text(rest),
        }
    };
    Criterion { op, comparand }
}

/// Whether a cell is blank-or-empty: `Blank` or the empty text.
pub open spec fn spec_blank_or_empty<N>(v: Value<N>) -> bool {
    v is Blank || (v matches Value::Text(s) && (s@.len() == 0))
}

fn is_blank_or_empty<N>(v: &Value<N>) -> (r: bool)
    ensures
        r == spec_blank_or_empty(*v),
{
    match v {
        Value::Blank => true,
        Value::Text(s) => s.unicode_len() == 0,
        _ => false,
    }
}

/// Whether an order satisfies a criterion operator.
pub open spec fn op_accepts(op: Op, o: Order) -> bool {
    match op {
        Op::Eq => o == Order::Equal,
        Op::Ne => o != Order::Equal,
        Op::Gt => o == Order::Greater,
        Op::Ge => o != Order::Less,
        Op::Lt => o == Order::Less,
        Op::Le => o != Order::Greater,
    }
}

/// Whether a cell satisfies a criterion: the empty comparand selects blanks (`=`) or non-blanks
/// (`<>`, error cells included); a non-empty comparand never matches a blank, and an error or array
/// cell never matches it. A number cell is ordered against a numeric comparand and tested by the
/// operator (two unordered numbers satisfy only `<>`); any other cell satisfies a numeric
/// comparand only under `<>`. A text cell is compared with a text comparand by wildcards under
/// `=`/`<>` and case-insensitively under an ordering; a number or boolean cell satisfies a text
/// comparand only under `<>`.
pub open spec fn spec_matches<N: Number>(c: Criterion<N>, cell: Value<N>) -> bool {
    match c.comparand {
        Comparand::Empty => match c.op {
            Op::Eq => spec_blank_or_empty(cell),
            Op::Ne => !spec_blank_or_empty(cell),
            _ => false,
        },
        Comparand::Num(k) => match cell {
            Value::Number(n) => match n.spec_order(k) {
                Some(o) => op_accepts(c.op, o),
                None => c.op == Op::Ne,
            },
            Value::Error(_) => false,
            Value::Array(_, _) => false,
            Value::Blank => false,
            _ => c.op == Op::Ne,
        },
        Comparand::Text(p) => match cell {
            Value::Text(s) => match c.op {
                Op::Eq => wild(spec_compile(lower_seq(p@)), lower_seq(s@), true),
                Op::Ne => !wild(spec_compile(lower_seq(p@)), lower_seq(s@), true),
                _ => op_accepts(c.op, seq_order(lower_seq(s@), lower_seq(p@))),
            },
            Value::Number(_) => c.op == Op::Ne,
            Value::Bool(_) => c.op == Op::Ne,
            _ => false,
        },
    }
}

/// The text of a criterion operator as it leads a criteria string.
pub open spec fn op_chars(op: Op) -> Seq<char> {
    match op {
        Op::Eq => seq!['='],
        Op::Ne => seq!['<', '>'],
        Op::Gt => seq!['>'],
        Op::Ge => seq!['>', '='],
        Op::Lt => seq!['<'],
        Op::Le => seq!['<', '='],
    }
}

/// A criteria string splits into its leading operator and the rest: an operator's text followed by
/// a remainder that does not itself start with `=` or `>` gives that operator and that remainder,
/// and a string that starts with no operator character is an implicit `=` over the whole string.
pub proof fn law_split_op_reads_operator(op: Op, rest: Seq<char>)
    ensures
        rest.len() == 0 || (rest[0] != '=' && rest[0] != '>') ==> spec_split_op(op_chars(op) + rest) == (op, rest),
        rest.len() > 0 && rest[0] != '=' && rest[0] != '>' && rest[0] != '<' ==> spec_split_op(rest) == (Op::Eq, rest),
{
    let s = op_chars(op) + rest;
    let n = op_chars(op).len() as int;
    assert(s.subrange(n, s.len() as int) =~= rest);
}

/// `<>` is the complement of `=` for every comparand on every cell that is not blank, an error or
/// an array (those match no non-empty comparand under either; the empty comparand splits all cells
/// into blank-or-empty and the rest).
pub proof fn law_ne_complements_eq<N: Number>(k: Comparand<N>, cell: Value<N>)
    ensures
        !(cell is Blank || cell is Error || cell is Array) || k is Empty
            ==> spec_matches(Criterion { op: Op::Ne, comparand: k }, cell) == !spec_matches(Criterion { op: Op::Eq, comparand: k }, cell),
{
}

/// On a number cell against a number it is ordered against, `>` holds exactly when the cell orders
/// above the comparand and `<` exactly when the comparand orders above the cell; `>=` is `>` or
/// `=`, `<=` is `<` or `=`, `>=` is the complement of `<` and `<=` of `>`, and exactly one of `<`,
/// `=`, `>` holds.
pub proof fn law_number_criteria_order<N: Number>(x: N, k: N)
    requires
        x.spec_order(k) is Some,
    ensures
        spec_matches(Criterion { op: Op::Gt, comparand: Comparand::Num(k) }, Value::Number(x)) <==> x.spec_order(k) == Some(Order::Greater),
        spec_matches(Criterion { op: Op::Lt, comparand: Comparand::Num(k) }, Value::Number(x)) <==> k.spec_order(x) == Some(Order::Greater),
        spec_matches(Criterion { op: Op::Eq, comparand: Comparand::Num(k) }, Value::Number(x)) <==> k.spec_order(x) == Some(Order::Equal),
        spec_matches(Criterion { op: Op::Ge, comparand: Comparand::Num(k) }, Value::Number(x))
            <==> spec_matches(Criterion { op: Op::Gt, comparand: Comparand::Num(k) }, Value::Number(x))
                || spec_matches(Criterion { op: Op::Eq, comparand: Comparand::Num(k) }, Value::Number(x)),
        spec_matches(Criterion { op: Op::Le, comparand: Comparand::Num(k) }, Value::Number(x))
            <==> spec_matches(Criterion { op: Op::Lt, comparand: Comparand::Num(k) }, Value::Number(x))
                || spec_matches(Criterion { op: Op::Eq, comparand: Comparand::Num(k) }, Value::Number(x)),
        spec_matches(Criterion { op: Op::Ge, comparand: Comparand::Num(k) }, Value::Number(x))
            <==> !spec_matches(Criterion { op: Op::Lt, comparand: Comparand::Num(k) }, Value::Number(x)),
        spec_matches(Criterion { op: Op::Le, comparand: Comparand::Num(k) }, Value::Number(x))
            <==> !spec_matches(Criterion { op: Op::Gt, comparand: Comparand::Num(k) }, Value::Number(x)),
        (spec_matches(Criterion { op: Op::Lt, comparand: Comparand::Num(k) }, Value::Number(x)) as int)
            + (spec_matches(Criterion { op: Op::Eq, comparand: Comparand::Num(k) }, Value::Number(x)) as int)
            + (spec_matches(Criterion { op: Op::Gt, comparand: Comparand::Num(k) }, Value::Number(x)) as int) == 1,
{
    N::law_order(x, k, x);
}

impl<N: Number> Criterion<N> {
    /// Test a candidate cell value against this criterion.
    pub fn matches(&self, cell: &Value<N>) -> (r: bool)
        ensures
            r == spec_matches(*self, *cell),
    {
        match &self.comparand {
            Comparand::Empty => match self.op {
                Op::Eq => is_blank_or_empty(cell),
                Op::Ne => !is_blank_or_empty(cell),
                _ => false,
            },
            Comparand::Num(c) => {
                if let Value::Blank = cell {
                    return false;
                }
                self.match_num(cell, *c)
            },
            Comparand::Text(t) => {
                if let Value::Blank = cell {
                    return false;
                }
                self.match_text(cell, t.as_str())
            },
        }
    }

    /// Numeric-comparand matching: a numeric cell compares by the operator; a text/bool cell only
    /// satisfies `<>`; an error/array cell never matches.
    fn match_num(&self, cell: &Value<N>, c: N) -> (r: bool)
        requires
            !(cell is Blank),
        ensures
            r == (match cell {
                Value::Number(n) => match n.spec_order(c) {
                    Some(o) => op_accepts(self.op, o),
                    None => self.op == Op::Ne,
                },
                Value::Error(_) => false,
                Value::Array(_, _) => false,
                Value::Blank => false,
                _ => self.op == Op::Ne,
            }),
    {
        match cell {
            Value::Number(n) => match n.order(c) {
                Some(o) => match self.op {
                    Op::Eq => o == Order::Equal,
                    Op::Ne => o != Order::Equal,
                    Op::Gt => o == Order::Greater,
                    Op::Ge => o == Order::Greater || o == Order::Equal,
                    Op::Lt => o == Order::Less,
                    Op::Le => o == Order::Less || o == Order::Equal,
                },
                None => self.op == Op::Ne,
            },
            Value::Error(_) => false,
            Value::Array(..) => false,
            Value::Blank => false,
            _ => self.op == Op::Ne,
        }
    }

    /// Text-comparand matching over a genuine text cell only.
    fn match_text(&self, cell: &Value<N>, pattern: &str) -> (r: bool)
        requires
            !(cell is Blank),
        ensures
            r == (match cell {
                Value::Text(s) => match self.op {
                    Op::Eq => wild(spec_compile(lower_seq(pattern@)), lower_seq(s@), true),
                    Op::Ne => !wild(spec_compile(lower_seq(pattern@)), lower_seq(s@), true),
                    _ => op_accepts(self.op, seq_order(lower_seq(s@), lower_seq(pattern@))),
                },
                Value::Number(_) => self.op == Op::Ne,
                Value::Bool(_) => self.op == Op::Ne,
                _ => false,
            }),
    {
        match cell {
            Value::Text(s) => match self.op {
                Op::Eq => wildcard_match(pattern, s.as_str()),
                Op::Ne => !wildcard_match(pattern, s.as_str()),
                _ => {
                    let ls = lower_chars(&chars_of(s.as_str()));
                    let lp = lower_chars(&chars_of(pattern));
                    let o = order_chars(&ls, &lp);
                    match self.op {
                        Op::Gt => o == Order::Greater,
                        Op::Ge => o != Order::Less,
                        Op::Lt => o == Order::Less,
                        Op::Le => o != Order::Greater,
                        _ => false,
                    }
                },
            },
            Value::Number(_) => self.op == Op::Ne,
            Value::Bool(_) => self.op == Op::Ne,
            _ => false,
        }
    }
}

/// One compiled wildcard-pattern token.
#[derive(Clone, Copy, Debug, PartialEq, Eq, Structural)]
pub enum Tok {
    /// `*` — any run of characters (including empty).
    Star,
    /// `?` — exactly one character.
    Any,
    /// A literal character.
    Lit(char),
}

/// The tokens of a (lowercased) criteria pattern: `~` escapes a following `*`, `?` or `~` into a
/// literal (a `~` before anything else is itself literal).
pub open spec fn spec_compile(c: Seq<char>) -> Seq<Tok>
    decreases c.len(),
{
    if c.len() == 0 {
        seq![]
    } else if c[0] == '~' && c.len() > 1 && (c[1] == '*' || c[1] == '?' || c[1] == '~') {
        seq![Tok::Lit(c[1])] + spec_compile(c.subrange(2, c.len() as int))
    } else if c[0] == '*' {
        seq![Tok::Star] + spec_compile(c.subrange(1, c.len() as int))
    } else if c[0] == '?' {
        seq![Tok::Any] + spec_compile(c.subrange(1, c.len() as int))
    } else {
        seq![Tok::Lit(c[0])] + spec_compile(c.subrange(1, c.len() as int))
    }
}

/// Whether the tokens match the text — all of it when `whole`, a prefix of it otherwise: `*` any
/// run, `?` one character, a literal itself.
pub open spec fn wild(toks: Seq<Tok>, t: Seq<char>, whole: bool) -> bool
    decreases toks.len() + t.len(),
{
    if toks.len() == 0 {
        !whole || t.len() == 0
    } else {
        match toks[0] {
            Tok::Star => wild(toks.drop_first(), t, whole) || (t.len() > 0 && wild(toks, t.drop_first(), whole)),
            Tok::Any => t.len() > 0 && wild(toks.drop_first(), t.drop_first(), whole),
            Tok::Lit(c) => t.len() > 0 && t[0] == c && wild(toks.drop_first(), t.drop_first(), whole),
        }
    }
}

/// The match of the token suffix from `p` against the text suffix from `i`.
pub open spec fn wild_at(toks: Seq<Tok>, t: Seq<char>, whole: bool, p: int, i: int) -> bool {
    wild(toks.subrange(p, toks.len() as int), t.subrange(i, t.len() as int), whole)
}

/// Whether a non-star token accepts a character.
pub open spec fn tok_hits(tok: Tok, c: char) -> bool {
    match tok {
        Tok::Any => true,
        Tok::Lit(x) => x == c,
        Tok::Star => false,
    }
}

/// The star-free token run `toks[a..b]` matches the text character by character from `i`.
pub open spec fn seg_ok(toks: Seq<Tok>, t: Seq<char>, a: int, b: int, i: int) -> bool
    decreases b - a,
{
    if a >= b {
        0 <= i <= t.len()
    } else {
        0 <= i < t.len() && tok_hits(toks[a], t[i]) && seg_ok(toks, t, a + 1, b, i + 1)
    }
}

pub proof fn lemma_wild_unfold(toks: Seq<Tok>, t: Seq<char>, whole: bool, p: int, i: int)
    requires
        0 <= p <= toks.len(),
        0 <= i <= t.len(),
    ensures
        p == toks.len() ==> wild_at(toks, t, whole, p, i) == (!whole || i == t.len()),
        p < toks.len() ==> wild_at(toks, t, whole, p, i) == (match toks[p] {
            Tok::Star => wild_at(toks, t, whole, p + 1, i) || (i < t.len() && wild_at(toks, t, whole, p, i + 1)),
            Tok::Any => i < t.len() && wild_at(toks, t, whole, p + 1, i + 1),
            Tok::Lit(c) => i < t.len() && t[i] == c && wild_at(toks, t, whole, p + 1, i + 1),
        }),
{
    let ts = toks.subrange(p, toks.len() as int);
    let xs = t.subrange(i, t.len() as int);
    if p < toks.len() {
        assert(ts[0] == toks[p]);
        assert(ts.drop_first() =~= toks.subrange(p + 1, toks.len() as int));
        if i < t.len() {
            assert(xs[0] == t[i]);
            assert(xs.drop_first() =~= t.subrange(i + 1, t.len() as int));
        }
    }
}

pub proof fn lemma_wild_star(toks: Seq<Tok>, t: Seq<char>, whole: bool, s: int, i: int)
    requires
        0 <= s < toks.len(),
        toks[s] == Tok::Star,
        0 <= i <= t.len(),
    ensures
        wild_at(toks, t, whole, s, i) == exists|k: int| i <= k <= t.len() && #[trigger] wild_at(toks, t, whole, s + 1, k),
    decreases t.len() - i,
{
    lemma_wild_unfold(toks, t, whole, s, i);
    if i < t.len() {
        lemma_wild_star(toks, t, whole, s, i + 1);
        if wild_at(toks, t, whole, s, i) {
            if wild_at(toks, t, whole, s + 1, i) {
            } else {
                let k = choose|k: int| i + 1 <= k <= t.len() && #[trigger] wild_at(toks, t, whole, s + 1, k);
                assert(i <= k <= t.len() && wild_at(toks, t, whole, s + 1, k));
            }
        } else {
            assert forall|k: int| i <= k <= t.len() implies !#[trigger] wild_at(toks, t, whole, s + 1, k) by {
                if k > i {
                    assert(!(i + 1 <= k <= t.len() && wild_at(toks, t, whole, s + 1, k)));
                }
            }
        }
    } else {
        if !wild_at(toks, t, whole, s, i) {
            assert forall|k: int| i <= k <= t.len() implies !#[trigger] wild_at(toks, t, whole, s + 1, k) by {
                assert(k == i);
            }
        }
    }
}

/// A star-free token run consumes exactly its length: matching from `a` is matching the run
/// character by character and then the rest from `b`.
pub proof fn lemma_wild_seg(toks: Seq<Tok>, t: Seq<char>, whole: bool, a: int, b: int, i: int)
    requires
        0 <= a <= b <= toks.len(),
        0 <= i <= t.len(),
        forall|j: int| a <= j < b ==> toks[j] != Tok::Star,
    ensures
        wild_at(toks, t, whole, a, i) == (seg_ok(toks, t, a, b, i) && wild_at(toks, t, whole, b, i + (b - a))),
    decreases b - a,
{
    if a < b {
        lemma_wild_unfold(toks, t, whole, a, i);
        if i < t.len() {
            lemma_wild_seg(toks, t, whole, a + 1, b, i + 1);
        }
    }
}

pub proof fn lemma_seg_bound(toks: Seq<Tok>, t: Seq<char>, a: int, b: int, i: int)
    requires
        seg_ok(toks, t, a, b, i),
        a <= b,
    ensures
        i + (b - a) <= t.len(),
    decreases b - a,
{
    if a < b {
        lemma_seg_bound(toks, t, a + 1, b, i + 1);
    }
}

pub proof fn lemma_seg_extend(toks: Seq<Tok>, t: Seq<char>, a: int, b: int, i: int)
    requires
        0 <= a <= b < toks.len(),
        seg_ok(toks, t, a, b, i),
        0 <= i + (b - a) < t.len(),
        tok_hits(toks[b], t[i + (b - a)]),
    ensures
        seg_ok(toks, t, a, b + 1, i),
    decreases b - a,
{
    if a < b {
        lemma_seg_extend(toks, t, a + 1, b, i + 1);
    } else {
        reveal_with_fuel(seg_ok, 2);
    }
}

/// When the text is exhausted, the tokens from `p` match iff (for a whole match) they are all stars.
pub proof fn lemma_wild_tail(toks: Seq<Tok>, t: Seq<char>, whole: bool, p: int)
    requires
        0 <= p <= toks.len(),
    ensures
        p < toks.len() && toks[p] == Tok::Star ==> wild_at(toks, t, whole, p, t.len() as int) == wild_at(toks, t, whole, p + 1, t.len() as int),
        p < toks.len() && toks[p] != Tok::Star ==> !wild_at(toks, t, whole, p, t.len() as int),
        p == toks.len() ==> wild_at(toks, t, whole, p, t.len() as int),
{
    lemma_wild_unfold(toks, t, whole, p, t.len() as int);
}

/// The token a lone pattern character stands for.
pub open spec fn spec_single_tok(c: char) -> Tok {
    if c == '*' { Tok::Star } else if c == '?' { Tok::Any } else { Tok::Lit(c) }
}

fn single_tok(c: char) -> (t: Tok)
    ensures
        t == spec_single_tok(c),
{
    if c == '*' {
        Tok::Star
    } else if c == '?' {
        Tok::Any
    } else {
        Tok::Lit(c)
    }
}

/// The tokens of a `SEARCH` pattern: `*`/`?` are wildcards and `~` escapes the next character,
/// whatever it is, to a literal (a trailing `~` is itself literal).
pub open spec fn spec_parse_wild(c: Seq<char>) -> Seq<Tok>
    decreases c.len(),
{
    if c.len() == 0 {
        seq![]
    } else if c[0] == '*' {
        seq![Tok::Star] + spec_parse_wild(c.subrange(1, c.len() as int))
    } else if c[0] == '?' {
        seq![Tok::Any] + spec_parse_wild(c.subrange(1, c.len() as int))
    } else if c[0] == '~' && c.len() > 1 {
        seq![Tok::Lit(c[1])] + spec_parse_wild(c.subrange(2, c.len() as int))
    } else {
        seq![Tok::Lit(c[0])] + spec_parse_wild(c.subrange(1, c.len() as int))
    }
}

/// A `~` and the character after it make one literal token.
proof fn lemma_parse_wild_escape(before: Seq<Tok>, rest: Seq<char>, d: char)
    requires
        rest.len() > 1,
        rest[0] == '~',
        rest[1] == d,
    ensures
        before.push(Tok::Lit(d)) + spec_parse_wild(rest.subrange(2, rest.len() as int)) == before + spec_parse_wild(rest),
{
    let tail = spec_parse_wild(rest.subrange(2, rest.len() as int));
    assert(spec_parse_wild(rest) == seq![Tok::Lit(d)] + tail);
    assert(before.push(Tok::Lit(d)) + tail =~= before + (seq![Tok::Lit(d)] + tail));
}

/// Any other first character makes one token of its own.
proof fn lemma_parse_wild_single(before: Seq<Tok>, rest: Seq<char>, c: char, tok: Tok)
    requires
        rest.len() > 0,
        rest[0] == c,
        !(c == '~' && rest.len() > 1),
        tok == (if c == '*' { Tok::Star } else if c == '?' { Tok::Any } else { Tok::Lit(c) }),
    ensures
        before.push(tok) + spec_parse_wild(rest.subrange(1, rest.len() as int)) == before + spec_parse_wild(rest),
{
    let tail = spec_parse_wild(rest.subrange(1, rest.len() as int));
    assert(spec_parse_wild(rest) == seq![tok] + tail);
    assert(before.push(tok) + tail =~= before + (seq![tok] + tail));
}

/// Tokenize a `SEARCH` pattern.
pub fn parse_wild(chars: &Vec<char>) -> (toks: Vec<Tok>)
    ensures
        toks@ == spec_parse_wild(chars@),
{
    let mut toks: Vec<Tok> = Vec::new();
    let mut i: usize = 0;
    let n = chars.len();
    assert(chars@.subrange(0, n as int) =~= chars@);
    while i < n
        invariant
            n == chars.len(),
            i <= n,
            toks@ + spec_parse_wild(chars@.subrange(i as int, n as int)) == spec_parse_wild(chars@),
        decreases n - i,
    {
        let ghost rest = chars@.subrange(i as int, n as int);
        let ghost before = toks@;
        let c = chars[i];
        assert(rest[0] == c);
        if c == '~' && i + 1 < n {
            let d = chars[i + 1];
            assert(rest[1] == d);
            assert(rest.subrange(2, rest.len() as int) =~= chars@.subrange(i + 2, n as int));
            toks.push(Tok::Lit(d));
            proof {
                lemma_parse_wild_escape(before, rest, d);
            }
            i = i + 2;
        } else {
            assert(rest.subrange(1, rest.len() as int) =~= chars@.subrange(i + 1, n as int));
            let tok = if c == '*' {
                Tok::Star
            } else if c == '?' {
                Tok::Any
            } else {
                Tok::Lit(c)
            };
            toks.push(tok);
            proof {
                lemma_parse_wild_single(before, rest, c, tok);
            }
            i = i + 1;
        }
    }
    assert(chars@.subrange(n as int, n as int) =~= Seq::<char>::empty());
    assert(toks@ =~= toks@ + spec_parse_wild(Seq::<char>::empty()));
    toks
}

/// Compile a lowercased pattern into wildcard tokens, resolving `~` escapes.
pub fn compile(chars: &Vec<char>) -> (toks: Vec<Tok>)
    ensures
        toks@ == spec_compile(chars@),
{
    let mut toks: Vec<Tok> = Vec::new();
    let mut i: usize = 0;
    let n = chars.len();
    assert(chars@.subrange(0, n as int) =~= chars@);
    while i < n
        invariant
            n == chars.len(),
            i <= n,
            toks@ + spec_compile(chars@.subrange(i as int, n as int)) == spec_compile(chars@),
        decreases n - i,
    {
        let ghost rest = chars@.subrange(i as int, n as int);
        let ghost before = toks@;
        let c = chars[i];
        assert(rest[0] == c);
        if i + 1 < n {
            assert(rest[1] == chars@[i + 1]);
        }
        if c == '~' && i + 1 < n && (chars[i + 1] == '*' || chars[i + 1] == '?' || chars[i + 1] == '~') {
            assert(rest[1] == chars@[i + 1]);
            assert(rest.subrange(2, rest.len() as int) =~= chars@.subrange(i + 2, n as int));
            toks.push(Tok::Lit(chars[i + 1]));
            assert(spec_compile(rest) == seq![Tok::Lit(rest[1])] + spec_compile(rest.subrange(2, rest.len() as int)));
            assert(toks@ =~= before + seq![Tok::Lit(rest[1])]);
            i = i + 2;
        } else {
            assert(rest.subrange(1, rest.len() as int) =~= chars@.subrange(i + 1, n as int));
            let tok = single_tok(c);
            toks.push(tok);
            assert(spec_compile(rest) == seq![spec_single_tok(c)] + spec_compile(rest.subrange(1, rest.len() as int)));
            assert(toks@ =~= before + seq![tok]);
            i = i + 1;
        }
        assert(toks@ + spec_compile(chars@.subrange(i as int, n as int)) =~= spec_compile(chars@));
    }
    assert(chars@.subrange(n as int, n as int) =~= Seq::<char>::empty());
    assert(toks@ =~= toks@ + spec_compile(Seq::<char>::empty()));
    toks
}

/// Case-insensitive Excel wildcard match of a whole text: `*` any run, `?` one character, `~`
/// escapes the next `*`/`?`/`~`. Both sides are ASCII-lowercased. The lookup family reuses the same
/// grammar for a text needle.
pub fn wildcard_match(pattern: &str, text: &str) -> (r: bool)
    ensures
        r == wild(spec_compile(lower_seq(pattern@)), lower_seq(text@), true),
{
    let toks = compile(&lower_chars(&chars_of(pattern)));
    let t = lower_chars(&chars_of(text));
    match_tokens(&toks, &t)
}

/// Whether the tokens match the whole text — the classic two-pointer matcher with `*`
/// backtracking: a `*` records where it started; on a later mismatch the matcher rewinds to it and
/// lets it swallow one more character.
pub fn match_tokens(toks: &Vec<Tok>, t: &Vec<char>) -> (r: bool)
    ensures
        r == wild(toks@, t@, true),
{
    let ghost T = toks@;
    let ghost S = t@;
    let n = t.len();
    let mut ti: usize = 0;
    let mut tki: usize = 0;
    let mut star_tk: Option<usize> = None;
    let mut star_ti: usize = 0;
    assert(T.subrange(0, T.len() as int) =~= T);
    assert(S.subrange(0, S.len() as int) =~= S);
    while ti < n
        invariant
            T == toks@,
            S == t@,
            n == t.len(),
            ti <= n,
            tki <= toks.len(),
            star_ti <= ti,
            star_tk is None ==> wild(T, S, true) == wild_at(T, S, true, tki as int, ti as int),
            star_tk matches Some(s) ==> {
                &&& s < tki
                &&& T[s as int] == Tok::Star
                &&& forall|j: int| s + 1 <= j < tki ==> T[j] != Tok::Star
                &&& tki - (s + 1) == ti - star_ti
                &&& seg_ok(T, S, s + 1, tki as int, star_ti as int)
                &&& wild(T, S, true) == exists|k: int| star_ti <= k <= n && #[trigger] wild_at(T, S, true, s + 1, k)
            },
        decreases n - star_ti, n - ti, toks.len() - tki,
    {
        proof {
            lemma_wild_unfold(T, S, true, tki as int, ti as int);
        }
        let step = if tki < toks.len() {
            match toks[tki] {
                Tok::Lit(c) => if c == t[ti] { 1u8 } else { 0u8 },
                Tok::Any => 1u8,
                Tok::Star => 2u8,
            }
        } else {
            0u8
        };
        if step == 1 {
            proof {
                if let Some(s) = star_tk {
                    lemma_seg_bound(T, S, s + 1, tki as int, star_ti as int);
                    lemma_seg_extend(T, S, s + 1, tki as int, star_ti as int);
                }
            }
            ti = ti + 1;
            tki = tki + 1;
        } else if step == 2 {
            proof {
                lemma_wild_star(T, S, true, tki as int, ti as int);
                if let Some(s) = star_tk {
                    let ghost L = tki - (s + 1);
                    lemma_wild_seg(T, S, true, s + 1, tki as int, star_ti as int);
                    if wild(T, S, true) {
                        let k = choose|k: int| star_ti <= k <= n && #[trigger] wild_at(T, S, true, s + 1, k);
                        lemma_wild_seg(T, S, true, s + 1, tki as int, k);
                        lemma_seg_bound(T, S, s + 1, tki as int, k);
                        lemma_wild_star(T, S, true, tki as int, k + L);
                        let k2 = choose|k2: int| k + L <= k2 <= n && #[trigger] wild_at(T, S, true, tki + 1, k2);
                        assert(ti <= k2 <= n && wild_at(T, S, true, tki + 1, k2));
                    }
                    if exists|k: int| ti <= k <= n && #[trigger] wild_at(T, S, true, tki + 1, k) {
                        assert(wild_at(T, S, true, tki as int, ti as int));
                        assert(star_ti <= star_ti <= n && wild_at(T, S, true, s + 1, star_ti as int));
                    }
                }
            }
            star_tk = Some(tki);
            star_ti = ti;
            tki = tki + 1;
        } else {
            match star_tk {
                Some(stk) => {
                    proof {
                        lemma_wild_seg(T, S, true, stk + 1, tki as int, star_ti as int);
                        assert(!wild_at(T, S, true, stk + 1, star_ti as int));
                        if wild(T, S, true) {
                            let k = choose|k: int| star_ti <= k <= n && #[trigger] wild_at(T, S, true, stk + 1, k);
                            assert(k != star_ti);
                            assert(star_ti + 1 <= k <= n && wild_at(T, S, true, stk + 1, k));
                        }
                        if exists|k: int| star_ti + 1 <= k <= n && #[trigger] wild_at(T, S, true, stk + 1, k) {
                            let k = choose|k: int| star_ti + 1 <= k <= n && #[trigger] wild_at(T, S, true, stk + 1, k);
                            assert(star_ti <= k <= n && wild_at(T, S, true, stk + 1, k));
                        }
                    }
                    tki = stk + 1;
                    star_ti = star_ti + 1;
                    ti = star_ti;
                },
                None => {
                    return false;
                },
            }
        }
    }
    proof {
        if let Some(s) = star_tk {
            lemma_wild_seg(T, S, true, s + 1, tki as int, star_ti as int);
            if wild(T, S, true) {
                let k = choose|k: int| star_ti <= k <= n && #[trigger] wild_at(T, S, true, s + 1, k);
                lemma_wild_seg(T, S, true, s + 1, tki as int, k);
                lemma_seg_bound(T, S, s + 1, tki as int, k);
                assert(k == star_ti);
            }
            if wild_at(T, S, true, tki as int, n as int) {
                assert(star_ti <= star_ti <= n && wild_at(T, S, true, s + 1, star_ti as int));
            }
        }
    }
    let ghost start = tki;
    while tki < toks.len() && toks[tki] == Tok::Star
        invariant
            T == toks@,
            S == t@,
            n == t.len(),
            start <= tki <= toks.len(),
            wild_at(T, S, true, start as int, n as int) == wild_at(T, S, true, tki as int, n as int),
        decreases toks.len() - tki,
    {
        proof {
            lemma_wild_tail(T, S, true, tki as int);
        }
        tki = tki + 1;
    }
    proof {
        lemma_wild_tail(T, S, true, tki as int);
    }
    tki == toks.len()
}

} // verus!
