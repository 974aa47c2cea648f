//! Bijective base-26 conversion between a positive column index and its
//! letter representation, and the inverse.
//!
//! Digit values 1 through 26 map to the letters 'A' through 'Z'; no digit
//! stands for zero, so every positive integer has exactly one letter string
//! and every letter string names exactly one positive integer.

use vstd::prelude::*;

use crate::RowError;

verus! {

/// The letter for a single digit value `d` in 0..26 ('A' for 0, 'Z' for 25).
pub open spec fn letter_of(d: int) -> char {
    if d == 0 {
        'A'
    } else if d == 1 {
        'B'
    } else if d == 2 {
        'C'
    } else if d == 3 {
        'D'
    } else if d == 4 {
        'E'
    } else if d == 5 {
        'F'
    } else if d == 6 {
        'G'
    } else if d == 7 {
        'H'
    } else if d == 8 {
        'I'
    } else if d == 9 {
        'J'
    } else if d == 10 {
        'K'
    } else if d == 11 {
        'L'
    } else if d == 12 {
        'M'
    } else if d == 13 {
        'N'
    } else if d == 14 {
        'O'
    } else if d == 15 {
        'P'
    } else if d == 16 {
        'Q'
    } else if d == 17 {
        'R'
    } else if d == 18 {
        'S'
    } else if d == 19 {
        'T'
    } else if d == 20 {
        'U'
    } else if d == 21 {
        'V'
    } else if d == 22 {
        'W'
    } else if d == 23 {
        'X'
    } else if d == 24 {
        'Y'
    } else {
        'Z'
    }
}

/// The 1-based value of an uppercase letter ('A' is 1, 'Z' is 26).
pub open spec fn letter_num(c: char) -> int {
    c as int - 64
}

/// Whether `c` is an uppercase ASCII letter.
pub open spec fn is_upper_letter(c: char) -> bool {
    65 <= c as int && c as int <= 90
}

/// Whether every character of `s` is an uppercase ASCII letter.
pub open spec fn all_upper(s: Seq<char>) -> bool {
    forall|i: int| 0 <= i < s.len() ==> is_upper_letter(#[trigger] s[i])
}

/// The bijective base-26 letter string of `n` (empty only for `n == 0`,
/// which is not a valid column index).
pub open spec fn col_letters(n: nat) -> Seq<char>
    decreases n,
{
    if n == 0 {
        Seq::empty()
    } else {
        col_letters((((n - 1) as int) / 26) as nat).push(letter_of(((n - 1) as int) % 26))
    }
}

/// The number named by a letter string, read left to right:
/// each step multiplies by 26 and adds the letter's 1-based value.
pub open spec fn letters_val(s: Seq<char>) -> int
    decreases s.len(),
{
    if s.len() == 0 {
        0
    } else {
        letters_val(s.drop_last()) * 26 + letter_num(s.last())
    }
}

/// Every character that `col_letters` emits is an uppercase letter.
pub proof fn lemma_col_letters_upper(n: nat)
    ensures
        all_upper(col_letters(n)),
    decreases n,
{
    if n > 0 {
        lemma_col_letters_upper((((n - 1) as int) / 26) as nat);
        assert(is_upper_letter(letter_of(((n - 1) as int) % 26)));
    }
}

/// `col_letters` of a positive index is never empty.
pub proof fn lemma_col_letters_nonempty(n: nat)
    ensures
        n >= 1 ==> col_letters(n).len() >= 1,
{
}

/// Round trip: reading the letters of `n` back as a number yields `n`.
/// This is the bijectivity law of the encoding.
pub proof fn lemma_letters_roundtrip(n: nat)
    ensures
        letters_val(col_letters(n)) == n,
    decreases n,
{
    if n > 0 {
        let q = (((n - 1) as int) / 26) as nat;
        let r = ((n - 1) as int) % 26;
        lemma_letters_roundtrip(q);
        assert(letter_num(letter_of(r)) == r + 1);
        let w = col_letters(n);
        assert(w == col_letters(q).push(letter_of(r)));
        assert(w.drop_last() =~= col_letters(q));
        assert(w.last() == letter_of(r));
        assert(letters_val(w) == q * 26 + (r + 1));
        vstd::arithmetic::div_mod::lemma_fundamental_div_mod((n - 1) as int, 26);
        assert(n - 1 == 26 * (q as int) + r);
    }
}

/// Round trip at the interface: for any positive column index `n` that fits
/// the machine, the letter string that `number_to_letters` returns satisfies
/// everything `letters_to_number` asks of an accepted input, and decodes
/// back to `n`; so decoding an encoded index always succeeds and is the
/// identity.
pub proof fn lemma_encode_decode(n: nat)
    requires
        1 <= n <= usize::MAX,
    ensures
        col_letters(n).len() > 0,
        all_upper(col_letters(n)),
        letters_val(col_letters(n)) == n,
{
    lemma_col_letters_nonempty(n);
    lemma_col_letters_upper(n);
    lemma_letters_roundtrip(n);
}

/// The single-character string for digit value `d` in 0..26.
fn letter_str(d: usize) -> (r: &'static str)
    requires
        d < 26,
    ensures
        r@ =~= seq![letter_of(d as int)],
{
    proof {
        reveal_strlit("A");
        reveal_strlit("B");
        reveal_strlit("C");
        reveal_strlit("D");
        reveal_strlit("E");
        reveal_strlit("F");
        reveal_strlit("G");
        reveal_strlit("H");
        reveal_strlit("I");
        reveal_strlit("J");
        reveal_strlit("K");
        reveal_strlit("L");
        reveal_strlit("M");
        reveal_strlit("N");
        reveal_strlit("O");
        reveal_strlit("P");
        reveal_strlit("Q");
        reveal_strlit("R");
        reveal_strlit("S");
        reveal_strlit("T");
        reveal_strlit("U");
        reveal_strlit("V");
        reveal_strlit("W");
        reveal_strlit("X");
        reveal_strlit("Y");
        reveal_strlit("Z");
    }
    match d {
        0 => "A",
        1 => "B",
        2 => "C",
        3 => "D",
        4 => "E",
        5 => "F",
        6 => "G",
        7 => "H",
        8 => "I",
        9 => "J",
        10 => "K",
        11 => "L",
        12 => "M",
        13 => "N",
        14 => "O",
        15 => "P",
        16 => "Q",
        17 => "R",
        18 => "S",
        19 => "T",
        20 => "U",
        21 => "V",
        22 => "W",
        23 => "X",
        24 => "Y",
        _ => "Z",
    }
}

/// Encodes a positive column index as its bijective base-26 letter string.
pub fn number_to_letters(n: usize) -> (r: String)
    requires
        n >= 1,
    ensures
        r@ == col_letters(n as nat),
{
    let mut tail = String::new();
    let mut idx: usize = n;
    while idx > 0
        invariant
            col_letters(n as nat) == col_letters(idx as nat) + tail@,
        decreases idx,
    {
        let d = (idx - 1) % 26;
        let mut piece = letter_str(d).to_owned();
        piece.append(tail.as_str());
        proof {
            let q = (((idx - 1) as int) / 26) as nat;
            assert(col_letters(idx as nat) == col_letters(q).push(letter_of(d as int)));
            assert(col_letters(q).push(letter_of(d as int)) + tail@ =~= col_letters(q) + (seq![
                letter_of(d as int),
            ] + tail@));
        }
        tail = piece;
        idx = (idx - 1) / 26;
    }
    proof {
        assert(col_letters(n as nat) =~= tail@);
    }
    tail
}

/// If every character from position `i` on is an uppercase letter, the value
/// of the whole string is at least the value of the prefix before `i`,
/// provided that prefix value is nonnegative.
proof fn lemma_letters_val_grows(s: Seq<char>, i: int)
    requires
        0 <= i <= s.len(),
        forall|j: int| i <= j < s.len() ==> is_upper_letter(#[trigger] s[j]),
        letters_val(s.take(i)) >= 0,
    ensures
        letters_val(s) >= letters_val(s.take(i)),
    decreases s.len() - i,
{
    if i < s.len() {
        let t = s.take(i + 1);
        assert(t.drop_last() =~= s.take(i));
        assert(t.last() == s[i]);
        assert(letters_val(t) == letters_val(s.take(i)) * 26 + letter_num(s[i]));
        assert(letters_val(t) >= letters_val(s.take(i))) by {
            assert(letters_val(s.take(i)) * 26 >= letters_val(s.take(i))) by (nonlinear_arith)
                requires
                    letters_val(s.take(i)) >= 0,
            ;
        }
        lemma_letters_val_grows(s, i + 1);
    } else {
        assert(s.take(i) =~= s);
    }
}

/// Decodes a letter string into the column index it names. Succeeds exactly
/// when the string is non-empty, every character is an uppercase ASCII
/// letter, and the value fits in `usize`; any other string is rejected as an
/// invalid reference.
pub fn letters_to_number(s: &str) -> (r: Result<usize, RowError>)
    ensures
        r is Ok <==> (s@.len() > 0 && all_upper(s@) && letters_val(s@) <= usize::MAX),
        r is Ok ==> r->Ok_0 == letters_val(s@),
        r is Err ==> r->Err_0 == RowError::InvalidReference,
{
    let len = s.unicode_len();
    if len == 0 {
        return Err(RowError::InvalidReference);
    }
    let mut index: usize = 0;
    let mut i: usize = 0;
    while i < len
        invariant
            len == s@.len(),
            0 <= i <= len,
            all_upper(s@.take(i as int)),
            index == letters_val(s@.take(i as int)),
        decreases len - i,
    {
        let c = s.get_char(i);
        let v = c as u32;
        if !(65 <= v && v <= 90) {
            assert(!is_upper_letter(s@[i as int]));
            return Err(RowError::InvalidReference);
        }
        let step = match index.checked_mul(26) {
            Some(m) => m.checked_add((v - 64) as usize),
            None => None,
        };
        match step {
            Some(next) => {
                proof {
                    assert(s@.take(i + 1).drop_last() =~= s@.take(i as int));
                }
                index = next;
                i = i + 1;
            },
            None => {
                // The prefix up to and including this character already
                // exceeds usize::MAX, so the whole string cannot fit.
                proof {
                    let t = s@.take(i + 1);
                    assert(t.drop_last() =~= s@.take(i as int));
                    assert(letters_val(t) > usize::MAX);
                    if all_upper(s@) {
                        lemma_letters_val_grows(s@, i + 1);
                    }
                }
                return Err(RowError::InvalidReference);
            },
        }
    }
    proof {
        assert(s@.take(len as int) =~= s@);
    }
    Ok(index)
}

} // verus!
