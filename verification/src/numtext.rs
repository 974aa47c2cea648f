//! Validation of numeric cell text: whether a string is a floating-point
//! literal, per the grammar that a float parser accepts — an optional sign,
//! then one of the case-insensitive words "inf", "infinity" or "nan", or a
//! decimal number with optional fraction and exponent.

use vstd::prelude::*;

use crate::reference::{all_digits, is_dec_digit};

verus! {

/// Whether `c` is a numeric sign character.
pub open spec fn is_sign(c: char) -> bool {
    c == '+' || c == '-'
}

/// `s` without one leading sign character, if it has one.
pub open spec fn strip_sign(s: Seq<char>) -> Seq<char> {
    if s.len() > 0 && is_sign(s[0]) {
        s.skip(1)
    } else {
        s
    }
}

/// Whether `c` matches the (lowercase) pattern character `p` up to ASCII
/// case.
pub open spec fn lower_eq(c: char, p: char) -> bool {
    c == p || (65 <= c as int && c as int <= 90 && c as int + 32 == p as int)
}

/// Case-insensitive ASCII match of `s` against a lowercase pattern.
pub open spec fn matches_ci(s: Seq<char>, pat: Seq<char>) -> bool {
    s.len() == pat.len() && forall|i: int| 0 <= i < s.len() ==> lower_eq(#[trigger] s[i], pat[i])
}

/// Whether `c` marks an exponent.
pub open spec fn is_exp_char(c: char) -> bool {
    c == 'e' || c == 'E'
}

/// Index of the first exponent marker in `s`, or `s.len()` if there is none.
pub open spec fn first_exp(s: Seq<char>) -> int
    decreases s.len(),
{
    if s.len() == 0 {
        0
    } else if is_exp_char(s[0]) {
        0
    } else {
        1 + first_exp(s.skip(1))
    }
}

/// Index of the first '.' in `s`, or `s.len()` if there is none.
pub open spec fn first_dot(s: Seq<char>) -> int
    decreases s.len(),
{
    if s.len() == 0 {
        0
    } else if s[0] == '.' {
        0
    } else {
        1 + first_dot(s.skip(1))
    }
}

/// `first_exp` is pinned down by its characteristic properties.
proof fn lemma_first_exp_is(s: Seq<char>, k: int)
    requires
        0 <= k <= s.len(),
        forall|j: int| 0 <= j < k ==> !is_exp_char(#[trigger] s[j]),
        k == s.len() || is_exp_char(s[k]),
    ensures
        first_exp(s) == k,
    decreases s.len(),
{
    if s.len() > 0 && k > 0 {
        assert(!is_exp_char(s[0]));
        lemma_first_exp_is(s.skip(1), k - 1);
    }
}

/// `first_dot` is pinned down by its characteristic properties.
proof fn lemma_first_dot_is(s: Seq<char>, k: int)
    requires
        0 <= k <= s.len(),
        forall|j: int| 0 <= j < k ==> (#[trigger] s[j]) != '.',
        k == s.len() || s[k] == '.',
    ensures
        first_dot(s) == k,
    decreases s.len(),
{
    if s.len() > 0 && k > 0 {
        lemma_first_dot_is(s.skip(1), k - 1);
    }
}

/// Whether `m` is a valid mantissa: digits with at most one dot, with at
/// least one digit on some side of the dot (or no dot and at least one
/// digit).
pub open spec fn is_mantissa(m: Seq<char>) -> bool {
    let d = first_dot(m);
    if d == m.len() {
        m.len() > 0 && all_digits(m)
    } else {
        all_digits(m.take(d)) && all_digits(m.skip(d + 1)) && (d > 0 || m.len() > d + 1)
    }
}

/// Whether `x` is a valid exponent suffix: an exponent marker, an optional
/// sign, and at least one digit.
pub open spec fn is_exp_suffix(x: Seq<char>) -> bool {
    x.len() >= 1 && is_exp_char(x[0]) && {
        let y = strip_sign(x.skip(1));
        y.len() > 0 && all_digits(y)
    }
}

/// Whether `t` (already stripped of its sign) is a decimal number with
/// optional fraction and exponent.
pub open spec fn is_number_text(t: Seq<char>) -> bool {
    let e = first_exp(t);
    is_mantissa(t.take(e)) && (e == t.len() || is_exp_suffix(t.skip(e)))
}

/// Whether `s` is a floating-point literal.
pub open spec fn is_float_literal(s: Seq<char>) -> bool {
    let t = strip_sign(s);
    matches_ci(t, seq!['i', 'n', 'f']) || matches_ci(
        t,
        seq!['i', 'n', 'f', 'i', 'n', 'i', 't', 'y'],
    ) || matches_ci(t, seq!['n', 'a', 'n']) || is_number_text(t)
}

/// Decides whether the characters of `s` from `from` on match the lowercase
/// pattern `pat` up to ASCII case.
fn ci_match(s: &str, from: usize, pat: &str) -> (b: bool)
    requires
        from <= s@.len(),
    ensures
        b == matches_ci(s@.skip(from as int), pat@),
{
    let len = s.unicode_len();
    let plen = pat.unicode_len();
    if len - from != plen {
        return false;
    }
    let mut i: usize = 0;
    while i < plen
        invariant
            from <= s@.len(),
            len == s@.len(),
            plen == pat@.len(),
            len - from == plen,
            0 <= i <= plen,
            forall|j: int| 0 <= j < i ==> lower_eq(#[trigger] s@.skip(from as int)[j], pat@[j]),
        decreases plen - i,
    {
        let c = s.get_char(from + i);
        let p = pat.get_char(i);
        let cv = c as u32;
        let pv = p as u32;
        let ok = c == p || (65 <= cv && cv <= 90 && cv + 32 == pv);
        if !ok {
            assert(!lower_eq(s@.skip(from as int)[i as int], pat@[i as int]));
            return false;
        }
        i = i + 1;
    }
    true
}

/// Decides whether every character of `s` in `[from, to)` is a decimal
/// digit.
fn all_digits_range(s: &str, from: usize, to: usize) -> (b: bool)
    requires
        from <= to <= s@.len(),
    ensures
        b == all_digits(s@.subrange(from as int, to as int)),
{
    let mut i: usize = from;
    while i < to
        invariant
            from <= i <= to <= s@.len(),
            forall|j: int| from <= j < i ==> is_dec_digit(#[trigger] s@[j]),
        decreases to - i,
    {
        let c = s.get_char(i);
        let v = c as u32;
        if !(48 <= v && v <= 57) {
            assert(s@.subrange(from as int, to as int)[i - from] == s@[i as int]);
            return false;
        }
        i = i + 1;
    }
    assert forall|j: int| 0 <= j < to - from implies is_dec_digit(
        #[trigger] s@.subrange(from as int, to as int)[j],
    ) by {
        assert(s@.subrange(from as int, to as int)[j] == s@[from + j]);
    }
    true
}

/// Finds the first exponent marker in `s` within `[from, to)`, or `to`.
fn scan_exp(s: &str, from: usize, to: usize) -> (k: usize)
    requires
        from <= to <= s@.len(),
    ensures
        from <= k <= to,
        forall|j: int| from <= j < k ==> !is_exp_char(#[trigger] s@[j]),
        k < to ==> is_exp_char(s@[k as int]),
        k - from == first_exp(s@.subrange(from as int, to as int)),
{
    let mut i: usize = from;
    let mut found: usize = to;
    let mut scanning = true;
    while i < to && scanning
        invariant
            from <= i <= to <= s@.len(),
            found == to,
            scanning ==> forall|j: int| from <= j < i ==> !is_exp_char(#[trigger] s@[j]),
            !scanning ==> (i < to && is_exp_char(s@[i as int]) && forall|j: int|
                from <= j < i ==> !is_exp_char(#[trigger] s@[j])),
        decreases to - i, (if scanning { 1int } else { 0int }),
    {
        let c = s.get_char(i);
        if c == 'e' || c == 'E' {
            scanning = false;
        } else {
            i = i + 1;
        }
    }
    proof {
        let sub = s@.subrange(from as int, to as int);
        assert forall|j: int| 0 <= j < i - from implies !is_exp_char(#[trigger] sub[j]) by {
            assert(sub[j] == s@[from + j]);
        }
        if i < to {
            assert(sub[i - from] == s@[i as int]);
        }
        lemma_first_exp_is(sub, i - from);
    }
    i
}

/// Finds the first '.' in `s` within `[from, to)`, or `to`.
fn scan_dot(s: &str, from: usize, to: usize) -> (k: usize)
    requires
        from <= to <= s@.len(),
    ensures
        from <= k <= to,
        k < to ==> s@[k as int] == '.',
        k - from == first_dot(s@.subrange(from as int, to as int)),
{
    let mut i: usize = from;
    let mut scanning = true;
    while i < to && scanning
        invariant
            from <= i <= to <= s@.len(),
            scanning ==> forall|j: int| from <= j < i ==> (#[trigger] s@[j]) != '.',
            !scanning ==> (i < to && s@[i as int] == '.' && forall|j: int|
                from <= j < i ==> (#[trigger] s@[j]) != '.'),
        decreases to - i, (if scanning { 1int } else { 0int }),
    {
        let c = s.get_char(i);
        if c == '.' {
            scanning = false;
        } else {
            i = i + 1;
        }
    }
    proof {
        let sub = s@.subrange(from as int, to as int);
        assert forall|j: int| 0 <= j < i - from implies (#[trigger] sub[j]) != '.' by {
            assert(sub[j] == s@[from + j]);
        }
        if i < to {
            assert(sub[i - from] == s@[i as int]);
        }
        lemma_first_dot_is(sub, i - from);
    }
    i
}

/// Decides whether `s` is a floating-point literal.
pub fn is_float_literal_text(s: &str) -> (b: bool)
    ensures
        b == is_float_literal(s@),
{
    let len = s.unicode_len();
    let start: usize = if len > 0 {
        let c = s.get_char(0);
        if c == '+' || c == '-' {
            1
        } else {
            0
        }
    } else {
        0
    };
    proof {
        assert(strip_sign(s@) =~= s@.skip(start as int));
        reveal_strlit("inf");
        reveal_strlit("infinity");
        reveal_strlit("nan");
        assert("inf"@ =~= seq!['i', 'n', 'f']);
        assert("infinity"@ =~= seq!['i', 'n', 'f', 'i', 'n', 'i', 't', 'y']);
        assert("nan"@ =~= seq!['n', 'a', 'n']);
    }
    if ci_match(s, start, "inf") || ci_match(s, start, "infinity") || ci_match(s, start, "nan") {
        return true;
    }
    let ghost t = strip_sign(s@);
    proof {
        assert(t =~= s@.subrange(start as int, len as int));
    }
    let e_abs = scan_exp(s, start, len);
    proof {
        assert(first_exp(t) == e_abs - start);
        assert(t.take(e_abs - start) =~= s@.subrange(start as int, e_abs as int));
    }
    let ghost m = t.take(e_abs - start);
    let d_abs = scan_dot(s, start, e_abs);
    proof {
        assert(s@.subrange(start as int, e_abs as int).subrange(0, e_abs - start) =~= s@.subrange(
            start as int,
            e_abs as int,
        ));
        assert(first_dot(m) == d_abs - start);
    }
    let mantissa_ok: bool = if d_abs == e_abs {
        e_abs > start && all_digits_range(s, start, e_abs)
    } else {
        proof {
            assert(m.take(d_abs - start) =~= s@.subrange(start as int, d_abs as int));
            assert(m.skip(d_abs - start + 1) =~= s@.subrange(d_abs + 1, e_abs as int));
        }
        let head_ok = all_digits_range(s, start, d_abs);
        let tail_ok = all_digits_range(s, d_abs + 1, e_abs);
        head_ok && tail_ok && (d_abs > start || e_abs > d_abs + 1)
    };
    if !mantissa_ok {
        assert(!is_mantissa(m));
        return false;
    }
    if e_abs == len {
        assert(is_number_text(t));
        return true;
    }
    let ghost x = t.skip(e_abs - start);
    proof {
        assert(x =~= s@.subrange(e_abs as int, len as int));
        assert(x[0] == s@[e_abs as int]);
        assert(x.skip(1) =~= s@.subrange(e_abs + 1, len as int));
    }
    let mut j = e_abs + 1;
    if j < len {
        let c = s.get_char(j);
        if c == '+' || c == '-' {
            j = j + 1;
        }
    }
    proof {
        assert(strip_sign(x.skip(1)) =~= s@.subrange(j as int, len as int));
    }
    let digits_ok = j < len && all_digits_range(s, j, len);
    proof {
        if digits_ok {
            assert(is_exp_suffix(x));
        } else {
            assert(!is_exp_suffix(x));
        }
    }
    digits_ok
}

} // verus!
