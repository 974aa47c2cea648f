//! Cell reference strings: the decimal row component, partitioning a
//! reference into its column-letter and row parts by character class, and
//! the canonical form that the allocator emits.

use vstd::prelude::*;

use crate::RowError;
use crate::column::{all_upper, col_letters, is_upper_letter};

verus! {

/// The character for a decimal digit value `d` in 0..10.
pub open spec fn digit_of(d: int) -> char {
    if d == 0 {
        '0'
    } else if d == 1 {
        '1'
    } else if d == 2 {
        '2'
    } else if d == 3 {
        '3'
    } else if d == 4 {
        '4'
    } else if d == 5 {
        '5'
    } else if d == 6 {
        '6'
    } else if d == 7 {
        '7'
    } else if d == 8 {
        '8'
    } else {
        '9'
    }
}

/// The value of a decimal digit character ('0' is 0, '9' is 9).
pub open spec fn digit_num(c: char) -> int {
    c as int - 48
}

/// Whether `c` is an ASCII decimal digit.
pub open spec fn is_dec_digit(c: char) -> bool {
    48 <= c as int && c as int <= 57
}

/// Whether every character of `s` is an ASCII decimal digit.
pub open spec fn all_digits(s: Seq<char>) -> bool {
    forall|i: int| 0 <= i < s.len() ==> is_dec_digit(#[trigger] s[i])
}

/// The decimal digit string of `n`, without leading zeros ("0" for zero).
pub open spec fn dec_digits(n: nat) -> Seq<char>
    decreases n,
{
    if n < 10 {
        seq![digit_of(n as int)]
    } else {
        dec_digits(n / 10).push(digit_of((n % 10) as int))
    }
}

/// The number named by a digit string, read left to right.
pub open spec fn digits_val(s: Seq<char>) -> int
    decreases s.len(),
{
    if s.len() == 0 {
        0
    } else {
        digits_val(s.drop_last()) * 10 + digit_num(s.last())
    }
}

/// Whether `s` is a non-empty digit string whose value is `n`. This is the
/// row-component check of reference validation.
pub open spec fn row_matches(s: Seq<char>, n: nat) -> bool {
    s.len() > 0 && all_digits(s) && digits_val(s) == n
}

/// Every character that `dec_digits` emits is a decimal digit.
pub proof fn lemma_dec_digits_digits(n: nat)
    ensures
        all_digits(dec_digits(n)),
        dec_digits(n).len() >= 1,
    decreases n,
{
    if n >= 10 {
        lemma_dec_digits_digits(n / 10);
        assert(is_dec_digit(digit_of((n % 10) as int)));
    }
}

/// Round trip: reading the decimal digits of `n` back yields `n`, so the
/// digit string of a row number matches that row number and no other.
pub proof fn lemma_dec_digits_roundtrip(n: nat)
    ensures
        digits_val(dec_digits(n)) == n,
        row_matches(dec_digits(n), n),
    decreases n,
{
    lemma_dec_digits_digits(n);
    if n < 10 {
        let w = dec_digits(n);
        assert(w =~= seq![digit_of(n as int)]);
        assert(w.drop_last() =~= Seq::<char>::empty());
        assert(digits_val(w) == digits_val(w.drop_last()) * 10 + digit_num(w.last()));
        assert(digits_val(w) == n);
    }
    if n >= 10 {
        let q = n / 10;
        let r = (n % 10) as int;
        lemma_dec_digits_roundtrip(q);
        let w = dec_digits(n);
        assert(w == dec_digits(q).push(digit_of(r)));
        assert(w.drop_last() =~= dec_digits(q));
        assert(w.last() == digit_of(r));
        assert(digit_num(digit_of(r)) == r);
        assert(digits_val(w) == q * 10 + r);
        assert(n == 10 * (q as int) + r) by {
            vstd::arithmetic::div_mod::lemma_fundamental_div_mod(n as int, 10);
        }
    }
}

/// The single-character string for decimal digit value `d`.
fn digit_str(d: usize) -> (r: &'static str)
    requires
        d < 10,
    ensures
        r@ =~= seq![digit_of(d as int)],
{
    proof {
        reveal_strlit("0");
        reveal_strlit("1");
        reveal_strlit("2");
        reveal_strlit("3");
        reveal_strlit("4");
        reveal_strlit("5");
        reveal_strlit("6");
        reveal_strlit("7");
        reveal_strlit("8");
        reveal_strlit("9");
    }
    match d {
        0 => "0",
        1 => "1",
        2 => "2",
        3 => "3",
        4 => "4",
        5 => "5",
        6 => "6",
        7 => "7",
        8 => "8",
        _ => "9",
    }
}

/// The digit string still owed for the unconverted high part `idx` of a
/// number: empty once `idx` has reached zero.
pub open spec fn dec_prefix(idx: nat) -> Seq<char> {
    if idx == 0 {
        Seq::empty()
    } else {
        dec_digits(idx)
    }
}

/// Renders `n` as its decimal digit string.
pub fn dec_string(n: usize) -> (r: String)
    ensures
        r@ == dec_digits(n as nat),
{
    let d = n % 10;
    let mut tail = digit_str(d).to_owned();
    let mut idx: usize = n / 10;
    proof {
        if n >= 10 {
            assert(dec_digits(n as nat) == dec_digits((n / 10) as nat).push(digit_of(d as int)));
            assert(dec_digits((n / 10) as nat).push(digit_of(d as int)) =~= dec_digits(
                (n / 10) as nat,
            ) + seq![digit_of(d as int)]);
        } else {
            assert(dec_digits(n as nat) =~= Seq::empty() + seq![digit_of(d as int)]);
        }
    }
    while idx > 0
        invariant
            dec_digits(n as nat) == dec_prefix(idx as nat) + tail@,
        decreases idx,
    {
        let e = idx % 10;
        let mut piece = digit_str(e).to_owned();
        piece.append(tail.as_str());
        proof {
            if idx >= 10 {
                let q = (idx / 10) as nat;
                assert(dec_digits(idx as nat) == dec_digits(q).push(digit_of(e as int)));
                assert(dec_digits(q).push(digit_of(e as int)) + tail@ =~= dec_prefix(q) + (seq![
                    digit_of(e as int),
                ] + tail@));
            } else {
                assert(dec_digits(idx as nat) =~= seq![digit_of(e as int)]);
                assert(dec_digits(idx as nat) + tail@ =~= Seq::empty() + (seq![
                    digit_of(e as int),
                ] + tail@));
            }
        }
        tail = piece;
        idx = idx / 10;
    }
    proof {
        assert(dec_digits(n as nat) =~= tail@);
    }
    tail
}

/// If every character from position `i` on is a decimal digit, the value of
/// the whole string is at least the value of the prefix before `i`, provided
/// that prefix value is nonnegative.
proof fn lemma_digits_val_grows(s: Seq<char>, i: int)
    requires
        0 <= i <= s.len(),
        forall|j: int| i <= j < s.len() ==> is_dec_digit(#[trigger] s[j]),
        digits_val(s.take(i)) >= 0,
    ensures
        digits_val(s) >= digits_val(s.take(i)),
    decreases s.len() - i,
{
    if i < s.len() {
        let t = s.take(i + 1);
        assert(t.drop_last() =~= s.take(i));
        assert(t.last() == s[i]);
        assert(digits_val(t) == digits_val(s.take(i)) * 10 + digit_num(s[i]));
        assert(digits_val(t) >= digits_val(s.take(i))) by {
            assert(digits_val(s.take(i)) * 10 >= digits_val(s.take(i))) by (nonlinear_arith)
                requires
                    digits_val(s.take(i)) >= 0,
            ;
        }
        lemma_digits_val_grows(s, i + 1);
    } else {
        assert(s.take(i) =~= s);
    }
}

/// Decides whether `s` is a non-empty digit string whose value is `n`:
/// the row-component validation of a reference.
pub fn row_part_matches(s: &str, n: usize) -> (b: bool)
    ensures
        b == row_matches(s@, n as nat),
{
    let len = s.unicode_len();
    if len == 0 {
        return false;
    }
    let mut value: usize = 0;
    let mut i: usize = 0;
    while i < len
        invariant
            len == s@.len(),
            0 <= i <= len,
            forall|j: int| 0 <= j < i ==> is_dec_digit(#[trigger] s@[j]),
            value == digits_val(s@.take(i as int)),
        decreases len - i,
    {
        let c = s.get_char(i);
        let v = c as u32;
        if !(48 <= v && v <= 57) {
            assert(!is_dec_digit(s@[i as int]));
            return false;
        }
        let step = match value.checked_mul(10) {
            Some(m) => m.checked_add((v - 48) as usize),
            None => None,
        };
        match step {
            Some(next) => {
                proof {
                    assert(s@.take(i + 1).drop_last() =~= s@.take(i as int));
                }
                value = next;
                i = i + 1;
            },
            None => {
                // The digits seen so far already name a number above
                // usize::MAX, so the string cannot name `n`.
                proof {
                    let t = s@.take(i + 1);
                    assert(t.drop_last() =~= s@.take(i as int));
                    assert(digits_val(t) > usize::MAX);
                    if all_digits(s@) {
                        lemma_digits_val_grows(s@, i + 1);
                    }
                }
                return false;
            },
        }
    }
    proof {
        assert(s@.take(len as int) =~= s@);
    }
    value == n
}

/// Whether the Unicode Alphabetic property holds of a character outside the
/// ASCII range. Only `is_alphabetic_char` says anything about this.
pub uninterp spec fn unicode_alphabetic(c: char) -> bool;

/// Whether `c` is an ASCII letter.
pub open spec fn is_ascii_alpha(c: char) -> bool {
    (65 <= c as int && c as int <= 90) || (97 <= c as int && c as int <= 122)
}

/// Whether `c` counts as alphabetic when a reference is partitioned: within
/// ASCII exactly the letters, and beyond ASCII whatever the Unicode
/// Alphabetic property says.
pub open spec fn alphabetic(c: char) -> bool {
    if (c as int) < 128 {
        is_ascii_alpha(c)
    } else {
        unicode_alphabetic(c)
    }
}

/// Relies on char::is_alphabetic: true exactly for characters with the
/// Unicode Alphabetic property, which within ASCII are the letters
/// 'a'..='z' and 'A'..='Z' and nothing else.
#[verifier::external_body]
fn is_alphabetic_char(c: char) -> (r: bool)
    ensures
        r == alphabetic(c),
        (c as int) >= 128 ==> r == unicode_alphabetic(c),
{
    c.is_alphabetic()
}

/// Relies on String::push: appends the given character to the end of the
/// string.
#[verifier::external_body]
fn push_char(s: &mut String, c: char)
    ensures
        final (s)@ == old(s)@.push(c),
{
    s.push(c);
}

/// The alphabetic characters of `s`, in order.
pub open spec fn alpha_part(s: Seq<char>) -> Seq<char>
    decreases s.len(),
{
    if s.len() == 0 {
        Seq::empty()
    } else if alphabetic(s.last()) {
        alpha_part(s.drop_last()).push(s.last())
    } else {
        alpha_part(s.drop_last())
    }
}

/// The non-alphabetic characters of `s`, in order.
pub open spec fn rest_part(s: Seq<char>) -> Seq<char>
    decreases s.len(),
{
    if s.len() == 0 {
        Seq::empty()
    } else if alphabetic(s.last()) {
        rest_part(s.drop_last())
    } else {
        rest_part(s.drop_last()).push(s.last())
    }
}

/// Partitioning distributes over concatenation.
pub proof fn lemma_parts_add(a: Seq<char>, b: Seq<char>)
    ensures
        alpha_part(a + b) == alpha_part(a) + alpha_part(b),
        rest_part(a + b) == rest_part(a) + rest_part(b),
    decreases b.len(),
{
    if b.len() == 0 {
        assert(a + b =~= a);
        assert(alpha_part(a) + alpha_part(b) =~= alpha_part(a));
        assert(rest_part(a) + rest_part(b) =~= rest_part(a));
    } else {
        lemma_parts_add(a, b.drop_last());
        let w = a + b;
        assert(w.drop_last() =~= a + b.drop_last());
        assert(w.last() == b.last());
        if alphabetic(b.last()) {
            assert(alpha_part(w) =~= alpha_part(a) + alpha_part(b));
            assert(rest_part(w) =~= rest_part(a) + rest_part(b));
        } else {
            assert(alpha_part(w) =~= alpha_part(a) + alpha_part(b));
            assert(rest_part(w) =~= rest_part(a) + rest_part(b));
        }
    }
}

/// A string of uppercase letters is all column part; a string of digits is
/// all row part.
pub proof fn lemma_parts_classified(s: Seq<char>)
    ensures
        all_upper(s) ==> alpha_part(s) == s && rest_part(s) == Seq::<char>::empty(),
        all_digits(s) ==> alpha_part(s) == Seq::<char>::empty() && rest_part(s) == s,
    decreases s.len(),
{
    if s.len() > 0 {
        lemma_parts_classified(s.drop_last());
        if all_upper(s) {
            assert(is_upper_letter(s.last()));
            assert(all_upper(s.drop_last()));
            assert(alpha_part(s) =~= s);
        }
        if all_digits(s) {
            assert(is_dec_digit(s.last()));
            assert(all_digits(s.drop_last()));
            assert(rest_part(s) =~= s);
        }
    }
}

/// The reference string the allocator writes for column `col` of row `row`:
/// the column letters followed by the decimal row number.
pub open spec fn cell_ref(col: nat, row: nat) -> Seq<char> {
    col_letters(col) + dec_digits(row)
}

/// A canonical reference partitions back into exactly its column letters and
/// its row digits.
pub proof fn lemma_cell_ref_parts(col: nat, row: nat)
    ensures
        alpha_part(cell_ref(col, row)) == col_letters(col),
        rest_part(cell_ref(col, row)) == dec_digits(row),
{
    crate::column::lemma_col_letters_upper(col);
    lemma_dec_digits_digits(row);
    lemma_parts_add(col_letters(col), dec_digits(row));
    lemma_parts_classified(col_letters(col));
    lemma_parts_classified(dec_digits(row));
    assert(alpha_part(cell_ref(col, row)) =~= col_letters(col));
    assert(rest_part(cell_ref(col, row)) =~= dec_digits(row));
}

/// Partitions a reference string into its alphabetic (column) and
/// non-alphabetic (row) characters, in order, regardless of how the two
/// classes interleave. Succeeds exactly when both partitions are non-empty.
pub fn split_cell_ref(cell_ref_text: &str) -> (r: Result<(String, String), RowError>)
    ensures
        r is Ok <==> (alpha_part(cell_ref_text@).len() > 0 && rest_part(cell_ref_text@).len() > 0),
        r is Ok ==> r->Ok_0.0@ == alpha_part(cell_ref_text@) && r->Ok_0.1@ == rest_part(
            cell_ref_text@,
        ),
        r is Err ==> r->Err_0 == RowError::InvalidReference,
{
    let len = cell_ref_text.unicode_len();
    let mut col_ref = String::new();
    let mut row_ref = String::new();
    let mut i: usize = 0;
    while i < len
        invariant
            len == cell_ref_text@.len(),
            0 <= i <= len,
            col_ref@ == alpha_part(cell_ref_text@.take(i as int)),
            row_ref@ == rest_part(cell_ref_text@.take(i as int)),
        decreases len - i,
    {
        let c = cell_ref_text.get_char(i);
        proof {
            assert(cell_ref_text@.take(i + 1).drop_last() =~= cell_ref_text@.take(i as int));
            assert(cell_ref_text@.take(i + 1).last() == c);
        }
        if is_alphabetic_char(c) {
            push_char(&mut col_ref, c);
        } else {
            push_char(&mut row_ref, c);
        }
        i = i + 1;
    }
    proof {
        assert(cell_ref_text@.take(len as int) =~= cell_ref_text@);
    }
    if col_ref.as_str().is_empty() || row_ref.as_str().is_empty() {
        return Err(RowError::InvalidReference);
    }
    Ok((col_ref, row_ref))
}

} // verus!
