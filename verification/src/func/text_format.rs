//! `TEXT` and its format-code subset.
//!
//! The supported subset is single-sourced in [`classify_format`], which both the parse-time gate
//! [`validate_text_format`] (refuse an unsupported *literal* format up front) and [`text_fn`]
//! (render a resolved format, `#VALUE!` on an unsupported one) consult, so what parses and what
//! renders cannot drift.

use vstd::prelude::*;
use crate::a1::{ascii_chars, decimal_digits, format_decimal};
use crate::diag::{Diag, DiagCode, Span};
use crate::eval::{coerce_num, less_than, restored, scalarize, spec_scalarize, text_of_scalar, text_result_matches, to_text, EvalCtx};
use crate::expr::{args_size, lemma_arg_size, Expr, Resolver};
use crate::func::date::{serial_to_ymd, spec_ymd, MAX_SERIAL};
use crate::func::helpers::{arg_text, lit_scalar, lit_text, room, text_value};
use crate::strings::{chars_of, eq_ignore_case, lower_seq, push_char, string_of};
use crate::value::{ErrKind, Number, Value};

verus! {

/// A supported `TEXT` format-code kind.
#[derive(Clone, Copy, Debug, PartialEq, Eq, Structural)]
pub enum Fmt {
    /// `General` — the value's general text form.
    General,
    /// A `0`/`0.00` mask: `int_min` zero-padded integer digits, `decimals` fractional places.
    Fixed { int_min: usize, decimals: usize },
    /// A `#,##0`/`#,##0.00` thousands-grouped mask with `decimals` fractional places.
    Thousands { decimals: usize },
    /// A `0%`/`0.00%` percent mask with `decimals` fractional places (value ×100, trailing `%`).
    Percent { decimals: usize },
    /// The `yyyy-mm-dd` date mask.
    DateYmd,
}

/// `n` zeros.
pub open spec fn zeros(n: int) -> Seq<char> {
    Seq::new(n as nat, |i: int| '0')
}

/// The fractional tail of a mask with `b` places: empty for none, else `.` and `b` zeros.
pub open spec fn frac_form(b: int) -> Seq<char> {
    if b > 0 { seq!['.'] + zeros(b) } else { seq![] }
}

/// The `0`-mask with `a` integer zeros and `b` fractional places.
pub open spec fn mask_form(a: int, b: int) -> Seq<char> {
    zeros(a) + frac_form(b)
}

/// The `(integer zeros, decimals)` a `0`-mask spells: a non-empty run of `0`, optionally followed
/// by `.` and a non-empty run of `0`. Anything else is `None`.
pub open spec fn spec_zero_mask(mask: Seq<char>) -> Option<(int, int)> {
    if exists|p: (int, int)| p.0 >= 1 && p.1 >= 0 && mask == mask_form(p.0, p.1) {
        Some(choose|p: (int, int)| p.0 >= 1 && p.1 >= 0 && mask == mask_form(p.0, p.1))
    } else {
        None
    }
}

/// The decimals a thousands mask's tail spells: empty is none, `.` and a non-empty run of `0` is
/// that many. Anything else is `None`.
pub open spec fn spec_decimals(rest: Seq<char>) -> Option<int> {
    if exists|b: int| b >= 0 && rest == frac_form(b) {
        Some(choose|b: int| b >= 0 && rest == frac_form(b))
    } else {
        None
    }
}

/// The supported format kind a format string names, or `None` when it is outside the subset.
pub open spec fn spec_classify(f: Seq<char>) -> Option<Fmt> {
    if lower_seq(f) == lower_seq("General"@) {
        Some(Fmt::General)
    } else if lower_seq(f) == lower_seq("yyyy-mm-dd"@) {
        Some(Fmt::DateYmd)
    } else if f.len() > 0 && f.last() == '%' {
        match spec_zero_mask(f.drop_last()) {
            Some(p) => Some(Fmt::Percent { decimals: p.1 as usize }),
            None => None,
        }
    } else if f.len() >= 5 && f.subrange(0, 5) == "#,##0"@ {
        match spec_decimals(f.subrange(5, f.len() as int)) {
            Some(b) => Some(Fmt::Thousands { decimals: b as usize }),
            None => None,
        }
    } else {
        match spec_zero_mask(f) {
            Some(p) => Some(Fmt::Fixed { int_min: p.0 as usize, decimals: p.1 as usize }),
            None => None,
        }
    }
}

/// The length of the run of `'0'` starting at `from`.
fn zero_run_end(cs: &Vec<char>, from: usize) -> (r: usize)
    requires
        from <= cs.len(),
    ensures
        from <= r <= cs.len(),
        forall|i: int| from <= i < r ==> cs@[i] == '0',
        r < cs.len() ==> cs@[r as int] != '0',
{
    let mut i = from;
    while i < cs.len() && cs[i] == '0'
        invariant
            from <= i <= cs.len(),
            forall|k: int| from <= k < i ==> cs@[k] == '0',
        decreases cs.len() - i,
    {
        i = i + 1;
    }
    i
}

/// Two mask spellings are the same string only with the same counts.
proof fn lemma_mask_unique(a: int, b: int, a2: int, b2: int)
    requires
        a >= 1 && b >= 0 && a2 >= 1 && b2 >= 0,
        mask_form(a, b) == mask_form(a2, b2),
    ensures
        a == a2 && b == b2,
{
    let m = mask_form(a, b);
    let m2 = mask_form(a2, b2);
    assert(m.len() == a + (if b > 0 { 1 + b } else { 0 }));
    assert(m2.len() == a2 + (if b2 > 0 { 1 + b2 } else { 0 }));
    if a < a2 {
        assert(m2[a] == '0');
        if b > 0 {
            assert(m[a] == '.');
        }
    } else if a2 < a {
        assert(m[a2] == '0');
        if b2 > 0 {
            assert(m2[a2] == '.');
        }
    }
}

/// Read a `0`-mask (see [`spec_zero_mask`]).
pub fn parse_zero_mask(cs: &Vec<char>) -> (r: Option<(usize, usize)>)
    ensures
        match r {
            Some(p) => spec_zero_mask(cs@) == Some((p.0 as int, p.1 as int)),
            None => spec_zero_mask(cs@) is None,
        },
{
    let n = cs.len();
    let a = zero_run_end(cs, 0);
    if a > 0 && a == n {
        proof {
            lemma_mask_found(cs@, a as int, 0);
        }
        return Some((a, 0));
    }
    if a > 0 && cs[a] == '.' {
        let e = zero_run_end(cs, a + 1);
        if e == n && e > a + 1 {
            proof {
                lemma_mask_found(cs@, a as int, n - a - 1);
            }
            return Some((a, n - a - 1));
        }
        proof {
            assert forall|q: (int, int)| q.0 >= 1 && q.1 >= 0 implies cs@ != mask_form(q.0, q.1) by {
                if cs@ == mask_form(q.0, q.1) {
                    let m = mask_form(q.0, q.1);
                    if a < q.0 {
                        assert(cs@[a as int] == m[a as int]);
                    } else if q.0 < a {
                        assert(cs@[q.0] == m[q.0]);
                        if q.1 > 0 {
                            assert(m[q.0] == '.');
                        }
                    } else if q.1 == 0 {
                        assert(m.len() == a);
                    } else if e < n {
                        assert(cs@[e as int] == m[e as int]);
                    }
                }
            }
        }
        return None;
    }
    proof {
        assert forall|q: (int, int)| q.0 >= 1 && q.1 >= 0 implies cs@ != mask_form(q.0, q.1) by {
            if cs@ == mask_form(q.0, q.1) {
                let m = mask_form(q.0, q.1);
                if a < q.0 {
                    assert(cs@[a as int] == m[a as int]);
                } else if q.0 < a {
                    assert(cs@[q.0] == m[q.0]);
                    if q.1 > 0 {
                        assert(m[q.0] == '.');
                    }
                } else if q.1 > 0 {
                    assert(cs@[a as int] == m[a as int]);
                }
            }
        }
    }
    None
}

/// A string spelled as a mask names that mask's counts.
proof fn lemma_mask_found(s: Seq<char>, a: int, b: int)
    requires
        a >= 1 && b >= 0,
        s =~= mask_form(a, b),
    ensures
        spec_zero_mask(s) == Some((a, b)),
{
    let p = (a, b);
    assert(p.0 >= 1 && p.1 >= 0 && s == mask_form(p.0, p.1));
    let q = choose|q: (int, int)| q.0 >= 1 && q.1 >= 0 && s == mask_form(q.0, q.1);
    lemma_mask_unique(a, b, q.0, q.1);
}

/// The shape of a fractional tail.
proof fn lemma_frac_form(b: int)
    requires
        b >= 0,
    ensures
        b == 0 ==> frac_form(b).len() == 0,
        b > 0 ==> frac_form(b).len() == b + 1 && frac_form(b)[0] == '.'
            && forall|i: int| 1 <= i <= b ==> #[trigger] frac_form(b)[i] == '0',
{
}

/// Read a thousands mask's tail (see [`spec_decimals`]).
pub fn parse_decimals(cs: &Vec<char>, from: usize) -> (r: Option<usize>)
    requires
        from <= cs.len(),
    ensures
        match r {
            Some(b) => spec_decimals(cs@.subrange(from as int, cs@.len() as int)) == Some(b as int),
            None => spec_decimals(cs@.subrange(from as int, cs@.len() as int)) is None,
        },
{
    let n = cs.len();
    let ghost rest = cs@.subrange(from as int, n as int);
    if from == n {
        assert(rest =~= frac_form(0));
        proof {
            let c = choose|b: int| b >= 0 && rest == frac_form(b);
            if c > 0 {
                assert(frac_form(c).len() > 0);
            }
        }
        return Some(0);
    }
    if cs[from] != '.' {
        proof {
            assert forall|b: int| b >= 0 implies rest != frac_form(b) by {
                lemma_frac_form(b);
                if rest == frac_form(b) {
                    assert(rest[0] == cs@[from as int]);
                    assert(rest[0] == frac_form(b)[0]);
                }
            }
        }
        return None;
    }
    let e = zero_run_end(cs, from + 1);
    if e == n && e > from + 1 {
        let b = n - from - 1;
        assert(rest =~= frac_form(b as int));
        proof {
            let c = choose|c: int| c >= 0 && rest == frac_form(c);
            assert(frac_form(c).len() == rest.len());
        }
        Some(b)
    } else {
        proof {
            assert forall|b: int| b >= 0 implies rest != frac_form(b) by {
                if rest == frac_form(b) {
                    if b == 0 {
                        assert(rest.len() == 0);
                    } else if e < n {
                        assert(rest[e - from] == cs@[e as int]);
                        assert(frac_form(b)[e - from] == '0');
                    }
                }
            }
        }
        None
    }
}

/// Classify a `TEXT` format string into the supported subset (see [`spec_classify`]).
pub fn classify_format(fmt: &str) -> (r: Option<Fmt>)
    ensures
        r == spec_classify(fmt@),
{
    if eq_ignore_case(fmt, "General") {
        return Some(Fmt::General);
    }
    if eq_ignore_case(fmt, "yyyy-mm-dd") {
        return Some(Fmt::DateYmd);
    }
    let cs = chars_of(fmt);
    let n = cs.len();
    if n > 0 && cs[n - 1] == '%' {
        let mut mask: Vec<char> = Vec::new();
        let mut i: usize = 0;
        while i < n - 1
            invariant
                n == cs.len(),
                n > 0,
                i <= n - 1,
                mask@ == cs@.subrange(0, i as int),
            decreases n - 1 - i,
        {
            mask.push(cs[i]);
            assert(mask@ =~= cs@.subrange(0, i + 1));
            i = i + 1;
        }
        assert(mask@ =~= fmt@.drop_last());
        return match parse_zero_mask(&mask) {
            Some(p) => Some(Fmt::Percent { decimals: p.1 }),
            None => None,
        };
    }
    if n >= 5 && cs[0] == '#' && cs[1] == ',' && cs[2] == '#' && cs[3] == '#' && cs[4] == '0' {
        proof {
            reveal_strlit("#,##0");
            assert(fmt@.subrange(0, 5) =~= "#,##0"@);
        }
        return match parse_decimals(&cs, 5) {
            Some(b) => Some(Fmt::Thousands { decimals: b }),
            None => None,
        };
    }
    proof {
        reveal_strlit("#,##0");
        if n >= 5 && fmt@.subrange(0, 5) == "#,##0"@ {
            assert(fmt@.subrange(0, 5)[0] == '#');
            assert(fmt@.subrange(0, 5)[1] == ',');
            assert(fmt@.subrange(0, 5)[2] == '#');
            assert(fmt@.subrange(0, 5)[3] == '#');
            assert(fmt@.subrange(0, 5)[4] == '0');
        }
    }
    match parse_zero_mask(&cs) {
        Some(p) => Some(Fmt::Fixed { int_min: p.0, decimals: p.1 }),
        None => None,
    }
}

/// `s` left-padded with zeros to at least `n` characters.
pub open spec fn pad_zeros(s: Seq<char>, n: int) -> Seq<char> {
    if s.len() < n { zeros(n - s.len()) + s } else { s }
}

/// The first `k` characters of a digit run with thousands separators inserted: a `,` goes before
/// each digit (but the first) that starts a group of three counted from the right.
pub open spec fn grouped_prefix(s: Seq<char>, k: int) -> Seq<char>
    decreases k,
{
    if k <= 0 {
        seq![]
    } else {
        let sep = if k - 1 > 0 && (s.len() - (k - 1)) % 3 == 0 { seq![','] } else { seq![] };
        grouped_prefix(s, k - 1) + sep + seq![s[k - 1]]
    }
}

/// A digit run with thousands separators.
pub open spec fn spec_group(s: Seq<char>) -> Seq<char> {
    grouped_prefix(s, s.len() as int)
}

/// `n` zeros followed by `s`.
fn padded(s: &Vec<char>, n: usize) -> (r: Vec<char>)
    ensures
        r@ == pad_zeros(s@, n as int),
{
    let mut out: Vec<char> = Vec::new();
    let mut k: usize = s.len();
    while k < n
        invariant
            k >= s.len(),
            n <= s.len() ==> k == s.len(),
            s.len() <= n ==> k <= n,
            out@ == zeros(k - s.len()),
        decreases n - k,
    {
        out.push('0');
        assert(out@ =~= zeros(k + 1 - s.len()));
        k = k + 1;
    }
    let mut i: usize = 0;
    let ghost z = out@;
    while i < s.len()
        invariant
            i <= s.len(),
            out@ == z + s@.subrange(0, i as int),
        decreases s.len() - i,
    {
        out.push(s[i]);
        assert(out@ =~= z + s@.subrange(0, i + 1));
        i = i + 1;
    }
    assert(s@.subrange(0, s@.len() as int) =~= s@);
    proof {
        if s@.len() >= n {
            assert(z =~= Seq::<char>::empty());
            assert(out@ =~= s@);
        }
    }
    out
}

/// Insert `,` thousands separators into a run of digits.
pub fn group_thousands(s: &Vec<char>) -> (r: Vec<char>)
    ensures
        r@ == spec_group(s@),
{
    let n = s.len();
    let mut out: Vec<char> = Vec::new();
    let mut i: usize = 0;
    while i < n
        invariant
            n == s.len(),
            i <= n,
            out@ == grouped_prefix(s@, i as int),
        decreases n - i,
    {
        let ghost before = out@;
        if i > 0 && (n - i) % 3 == 0 {
            out.push(',');
        }
        out.push(s[i]);
        assert(out@ =~= grouped_prefix(s@, i + 1));
        i = i + 1;
    }
    out
}

/// The text of a number rendered from its rounded digits: `digits` (the rounded magnitude scaled by
/// `10^decimals`) padded to at least `decimals + 1` digits, split before the last `decimals`, the
/// integer part padded to `int_min` digits and optionally grouped, and a `-` in front when `neg`.
pub open spec fn spec_assemble(neg: bool, digits: Seq<char>, decimals: int, int_min: int, grouping: bool) -> Seq<char> {
    let d = pad_zeros(digits, decimals + 1);
    let split = d.len() - decimals;
    let ip = pad_zeros(d.subrange(0, split), int_min);
    let ig = if grouping { spec_group(ip) } else { ip };
    (if neg { seq!['-'] } else { seq![] }) + ig + (if decimals > 0 { seq!['.'] + d.subrange(split, d.len() as int) } else { seq![] })
}

/// Assemble a number's text from its rounded digits (see [`spec_assemble`]).
pub fn assemble_number(neg: bool, digits: &Vec<char>, decimals: usize, int_min: usize, grouping: bool) -> (r: Vec<char>)
    requires
        decimals < usize::MAX,
    ensures
        r@ == spec_assemble(neg, digits@, decimals as int, int_min as int, grouping),
{
    let d = padded(digits, decimals + 1);
    let split = d.len() - decimals;
    let mut ip: Vec<char> = Vec::new();
    let mut i: usize = 0;
    while i < split
        invariant
            split <= d.len(),
            i <= split,
            ip@ == d@.subrange(0, i as int),
        decreases split - i,
    {
        ip.push(d[i]);
        assert(ip@ =~= d@.subrange(0, i + 1));
        i = i + 1;
    }
    let ip = padded(&ip, int_min);
    let ig = if grouping { group_thousands(&ip) } else { ip };
    let mut out: Vec<char> = Vec::new();
    if neg {
        out.push('-');
    }
    let ghost head = out@;
    let mut k: usize = 0;
    while k < ig.len()
        invariant
            k <= ig.len(),
            out@ == head + ig@.subrange(0, k as int),
        decreases ig.len() - k,
    {
        out.push(ig[k]);
        assert(out@ =~= head + ig@.subrange(0, k + 1));
        k = k + 1;
    }
    assert(ig@.subrange(0, ig@.len() as int) =~= ig@);
    let ghost mid = out@;
    if decimals > 0 {
        out.push('.');
        let ghost dot = out@;
        let mut j: usize = split;
        while j < d.len()
            invariant
                split <= j <= d.len(),
                out@ == dot + d@.subrange(split as int, j as int),
            decreases d.len() - j,
        {
            out.push(d[j]);
            assert(out@ =~= dot + d@.subrange(split as int, j + 1));
            j = j + 1;
        }
        assert(out@ =~= mid + (seq!['.'] + d@.subrange(split as int, d@.len() as int)));
    } else {
        assert(out@ =~= mid + Seq::<char>::empty());
    }
    assert(head =~= (if neg { seq!['-'] } else { Seq::<char>::empty() }));
    out
}

/// Scale `|n|` by `10^decimals`, round half away from zero, and render: the sign is kept only when
/// the rounded magnitude is not zero (Excel shows `0.00`, never `-0.00`).
pub fn format_number<N: Number>(n: N, decimals: usize, int_min: usize, grouping: bool) -> (r: String)
    requires
        decimals < usize::MAX,
    ensures
        exists|neg: bool, digits: Seq<char>| r@ == spec_assemble(neg, digits, decimals as int, int_min as int, grouping),
{
    let exp: i32 = if decimals > 400 { 400 } else { decimals as i32 };
    let factor = N::ten_to(exp);
    let scaled = n.magnitude().times(factor).round_of();
    let neg = less_than(n, N::from_int(0)) && !crate::eval::is_zero(scaled);
    let digits = chars_of(scaled.whole_text().as_str());
    let out = assemble_number(neg, &digits, decimals, int_min, grouping);
    string_of(&out)
}

/// The `yyyy-mm-dd` text of a date: the year padded to four digits, month and day to two.
pub open spec fn ymd_text(y: int, m: int, d: int) -> Seq<char> {
    pad_zeros(ascii_chars(decimal_digits(y as nat)), 4) + seq!['-']
        + pad_zeros(ascii_chars(decimal_digits(m as nat)), 2) + seq!['-']
        + pad_zeros(ascii_chars(decimal_digits(d as nat)), 2)
}

/// Render the date of a serial in the band as `yyyy-mm-dd`.
pub fn ymd_string(s: i64) -> (r: String)
    requires
        1 <= s <= MAX_SERIAL,
    ensures
        r@ == ymd_text(spec_ymd(s as int).0, spec_ymd(s as int).1, spec_ymd(s as int).2),
{
    let (y, m, d) = serial_to_ymd(s);
    let ys = padded(&chars_of(format_decimal(y as u64).as_str()), 4);
    let ms = padded(&chars_of(format_decimal(m as u64).as_str()), 2);
    let ds = padded(&chars_of(format_decimal(d as u64).as_str()), 2);
    let mut out = string_of(&ys);
    push_char(&mut out, '-');
    out.append(string_of(&ms).as_str());
    push_char(&mut out, '-');
    out.append(string_of(&ds).as_str());
    assert(out@ =~= ymd_text(y as int, m as int, d as int));
    out
}

/// Render a date serial as `yyyy-mm-dd`: the day is the serial floored, and a day outside
/// `[1, MAX_SERIAL]` (or a non-finite serial) is `#VALUE!`.
pub fn format_date_ymd<N: Number>(serial: N) -> (r: Result<String, ErrKind>)
    ensures
        r matches Ok(t) ==> exists|s: int| 1 <= s <= MAX_SERIAL && t@ == ymd_text(spec_ymd(s).0, spec_ymd(s).1, spec_ymd(s).2),
        r matches Err(k) ==> k == ErrKind::Value,
{
    let day = serial.floor_of();
    if less_than(day, N::from_int(1)) || less_than(N::from_int(MAX_SERIAL), day) || !day.finite() {
        return Err(ErrKind::Value);
    }
    let t = day.floor_int();
    if t < 1 || t > MAX_SERIAL {
        return Err(ErrKind::Value);
    }
    Ok(ymd_string(t))
}

/// Render a non-error scalar through a supported format kind: `General` is its text form; the
/// numeric and date masks coerce it to a number first (an uncoercible value is `#VALUE!`).
pub fn render_format<N: Number>(value: &Value<N>, kind: Fmt) -> (r: Result<String, ErrKind>)
    ensures
        kind is General ==> (spec_scalarize(*value) is Number ==> r is Ok),
        kind is General && !(spec_scalarize(*value) is Number) ==> text_result_matches(r, text_of_scalar(spec_scalarize(*value))),
        !(kind is General) && value is Error ==> r == Err::<String, ErrKind>(value->Error_0),
{
    match kind {
        Fmt::General => to_text(value),
        Fmt::Fixed { int_min, decimals } => {
            let n = coerce_num(value)?;
            if decimals == usize::MAX {
                return Err(ErrKind::Value);
            }
            Ok(format_number(n, decimals, int_min, false))
        },
        Fmt::Thousands { decimals } => {
            let n = coerce_num(value)?;
            if decimals == usize::MAX {
                return Err(ErrKind::Value);
            }
            Ok(format_number(n, decimals, 1, true))
        },
        Fmt::Percent { decimals } => {
            let n = coerce_num(value)?;
            if decimals == usize::MAX {
                return Err(ErrKind::Value);
            }
            let mut out = format_number(n.times(N::from_int(100)), decimals, 1, false);
            push_char(&mut out, '%');
            Ok(out)
        },
        Fmt::DateYmd => format_date_ymd(coerce_num(value)?),
    }
}

/// What [`text_fn`] is stated to give, for a context `ctx` and arguments `args`.
pub open spec fn text_fn_gives<'r, N: Number, R: Resolver<N>>(ctx: EvalCtx<'r, R>, args: Seq<Expr<N>>, r: Value<N>) -> bool {
    &&& r is Text || r is Error
    &&& room(ctx) ==> (lit_scalar(args[0]) matches Some(v) ==> if v is Error {
        r == v
    } else {
        lit_text(args[1]) matches Some(f) ==> (spec_classify(f) is None ==> r == Value::<N>::Error(ErrKind::Value))
            && (spec_classify(f) == Some(Fmt::General) && !(v is Number) ==> match text_of_scalar(v) {
                Ok(t) => text_value(r, t),
                Err(k) => r == Value::<N>::Error(k),
            })
    })
}

/// `TEXT(value, format)` — render `value` through the supported format subset. An error `value`
/// propagates; an unsupported resolved format is `#VALUE!`.
pub fn text_fn<N: Number, R: Resolver<N>>(ctx: &mut EvalCtx<R>, args: &[Expr<N>]) -> (r: Value<N>)
    requires
        args.len() == 2,
    ensures
        restored(*old(ctx), *final(ctx)),
        r is Text || r is Error,
        room(*old(ctx)) ==> (lit_scalar(args[0]) matches Some(v) ==> if v is Error {
            r == v
        } else {
            lit_text(args[1]) matches Some(f) ==> (spec_classify(f) is None ==> r == Value::<N>::Error(ErrKind::Value))
                && (spec_classify(f) == Some(Fmt::General) && !(v is Number) ==> match text_of_scalar(v) {
                    Ok(t) => text_value(r, t),
                    Err(k) => r == Value::<N>::Error(k),
                })
        }),
    decreases args_size(args@), 7nat,
{
    proof {
        lemma_arg_size(args@, 0);
        lemma_arg_size(args@, 1);
    }
    let value = scalarize(ctx.eval(&args[0]));
    if let Value::Error(k) = value {
        return Value::Error(k);
    }
    let fmt = match arg_text(ctx, &args[1]) {
        Ok(s) => s,
        Err(k) => {
            return Value::Error(k);
        },
    };
    let kind = match classify_format(fmt.as_str()) {
        Some(k) => k,
        None => {
            return Value::Error(ErrKind::Value);
        },
    };
    match render_format(&value, kind) {
        Ok(s) => Value::Text(s),
        Err(k) => Value::Error(k),
    }
}

/// The debug rendering of a string (quoted, with escapes), as `format!("{:?}")` produces it.
pub uninterp spec fn debug_text(s: Seq<char>) -> Seq<char>;

/// Rust's debug rendering of a string: `format!("{s:?}")`. The contract names the result without
/// stating the escaping rules.
#[verifier::external_body]
fn debug_quoted(s: &str) -> (r: String)
    ensures
        r@ == debug_text(s@),
{
    format!("{s:?}")
}

/// The message of an unsupported-format refusal.
pub open spec fn unsupported_format_message(fmt: Seq<char>) -> Seq<char> {
    "TEXT format code "@ + debug_text(fmt) + " is not in the supported v1 subset"@
}

/// The literal text format a call's arguments carry in the format position when it is outside the
/// supported subset.
pub open spec fn refused_format<N>(args: Seq<Expr<N>>) -> Option<Seq<char>> {
    if args.len() > 1 {
        match args[1] {
            Expr::Lit(Value::Text(f)) => if spec_classify(f@) is None { Some(f@) } else { None },
            _ => None,
        }
    } else {
        None
    }
}

/// Parse-time gate for `TEXT`: refuse only a literal text format outside the supported subset. A
/// non-literal format is accepted and left to evaluation, which gives `#VALUE!` if it resolves to
/// an unsupported code.
pub fn validate_text_format<N: Number>(args: &[Expr<N>], span: Span) -> (r: Result<(), Diag>)
    ensures
        refused_format(args@) matches Some(f) ==> (r matches Err(d) && d.code == DiagCode::UnsupportedFormat
            && d.span == span && d.message@ == unsupported_format_message(f)),
        refused_format(args@) is None ==> r is Ok,
{
    if args.len() < 2 {
        return Ok(());
    }
    match &args[1] {
        Expr::Lit(Value::Text(fmt)) => {
            if classify_format(fmt.as_str()).is_none() {
                let mut message = "TEXT format code ".to_owned();
                message.append(debug_quoted(fmt.as_str()).as_str());
                message.append(" is not in the supported v1 subset");
                proof {
                    reveal_strlit("TEXT format code ");
                    reveal_strlit(" is not in the supported v1 subset");
                }
                assert(message@ =~= unsupported_format_message(fmt@));
                Err(Diag::new(DiagCode::UnsupportedFormat, span, message.as_str()))
            } else {
                Ok(())
            }
        },
        _ => Ok(()),
    }
}

} // verus!
