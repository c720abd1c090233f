//! Scanning of assembly source text: whitespace-delimited words, register
//! names, and decimal or hexadecimal number literals. The spec functions
//! here are the model that the assembler's contract is stated over.

use vstd::prelude::*;

verus! {

/// Whitespace for the assembler: space, tab and newline separate words.
pub open spec fn is_space(c: char) -> bool {
    c == ' ' || c == '\t' || c == '\n'
}

/// Decides whether `c` separates words in assembly source.
pub fn is_whitespace(c: char) -> (r: bool)
    ensures
        r == is_space(c),
{
    c == ' ' || c == '\t' || c == '\n'
}

/// Position of the first non-whitespace character at or after `i`, or the
/// end of the text.
pub open spec fn skip_ws(s: Seq<char>, i: int) -> int
    decreases s.len() - i when 0 <= i <= s.len()
{
    if i >= s.len() {
        s.len() as int
    } else if is_space(s[i]) {
        skip_ws(s, i + 1)
    } else {
        i
    }
}

/// Position of the first whitespace character at or after `i`, or the end
/// of the text.
pub open spec fn word_end(s: Seq<char>, i: int) -> int
    decreases s.len() - i when 0 <= i <= s.len()
{
    if i >= s.len() {
        s.len() as int
    } else if is_space(s[i]) {
        i
    } else {
        word_end(s, i + 1)
    }
}

/// The next whitespace-delimited word at or after `i`, together with the
/// position just past it; `None` when only whitespace remains.
pub open spec fn next_word(s: Seq<char>, i: int) -> Option<(Seq<char>, int)> {
    let start = skip_ws(s, i);
    if start >= s.len() {
        None
    } else {
        Some((s.subrange(start, word_end(s, start)), word_end(s, start)))
    }
}

pub proof fn lemma_skip_ws_bounds(s: Seq<char>, i: int)
    requires
        0 <= i <= s.len(),
    ensures
        i <= skip_ws(s, i) <= s.len(),
        skip_ws(s, i) < s.len() ==> !is_space(s[skip_ws(s, i)]),
    decreases s.len() - i,
{
    if i < s.len() && is_space(s[i]) {
        lemma_skip_ws_bounds(s, i + 1);
    }
}

pub proof fn lemma_word_end_bounds(s: Seq<char>, i: int)
    requires
        0 <= i <= s.len(),
    ensures
        i <= word_end(s, i) <= s.len(),
        i < s.len() && !is_space(s[i]) ==> word_end(s, i) > i,
        word_end(s, i) < s.len() ==> is_space(s[word_end(s, i)]),
    decreases s.len() - i,
{
    if i < s.len() && !is_space(s[i]) {
        lemma_word_end_bounds(s, i + 1);
    }
}

/// A word returned by `next_word` is non-empty and the cursor strictly
/// advances past it.
pub proof fn lemma_next_word_advances(s: Seq<char>, i: int)
    requires
        0 <= i <= s.len(),
    ensures
        match next_word(s, i) {
            Some((w, j)) => i < j <= s.len() && w.len() > 0,
            None => skip_ws(s, i) == s.len(),
        },
{
    lemma_skip_ws_bounds(s, i);
    let start = skip_ws(s, i);
    if start < s.len() {
        lemma_word_end_bounds(s, start);
    }
}

/// Character-by-character equality of two string slices.
pub fn str_eq(a: &str, b: &str) -> (r: bool)
    ensures
        r == (a@ == b@),
{
    let la = a.unicode_len();
    let lb = b.unicode_len();
    if la != lb {
        return false;
    }
    let mut i: usize = 0;
    while i < la
        invariant
            la == a@.len(),
            la == b@.len(),
            i <= la,
            forall|k: int| 0 <= k < i ==> a@[k] == b@[k],
        decreases la - i,
    {
        if a.get_char(i) != b.get_char(i) {
            return false;
        }
        i += 1;
    }
    proof {
        assert(a@ =~= b@);
    }
    true
}

/// A decimal digit.
pub open spec fn is_dec_digit(c: char) -> bool {
    '0' <= c && c <= '9'
}

pub open spec fn dec_digit_val(c: char) -> int {
    c as int - '0' as int
}

/// A hexadecimal digit, either case.
pub open spec fn is_hex_digit(c: char) -> bool {
    is_dec_digit(c) || ('a' <= c && c <= 'f') || ('A' <= c && c <= 'F')
}

pub open spec fn hex_digit_val(c: char) -> int {
    if is_dec_digit(c) {
        c as int - '0' as int
    } else if 'a' <= c && c <= 'f' {
        10 + c as int - 'a' as int
    } else {
        10 + c as int - 'A' as int
    }
}

/// Value of a non-empty string of decimal digits; `None` when the string is
/// empty or holds a character that is no decimal digit.
pub open spec fn dec_value(s: Seq<char>) -> Option<int>
    decreases s.len(),
{
    if s.len() == 0 {
        None
    } else if s.len() == 1 {
        if is_dec_digit(s[0]) {
            Some(dec_digit_val(s[0]))
        } else {
            None
        }
    } else {
        match dec_value(s.drop_last()) {
            Some(v) => if is_dec_digit(s.last()) {
                Some(v * 10 + dec_digit_val(s.last()))
            } else {
                None
            },
            None => None,
        }
    }
}

/// Value of a non-empty string of hexadecimal digits; `None` otherwise.
pub open spec fn hex_value(s: Seq<char>) -> Option<int>
    decreases s.len(),
{
    if s.len() == 0 {
        None
    } else if s.len() == 1 {
        if is_hex_digit(s[0]) {
            Some(hex_digit_val(s[0]))
        } else {
            None
        }
    } else {
        match hex_value(s.drop_last()) {
            Some(v) => if is_hex_digit(s.last()) {
                Some(v * 16 + hex_digit_val(s.last()))
            } else {
                None
            },
            None => None,
        }
    }
}

/// A register operand: the letter `r` followed by one decimal digit 0-7,
/// naming that register.
pub open spec fn reg_of_word(w: Seq<char>) -> Option<u8> {
    if w.len() == 2 && w[0] == 'r' && '0' <= w[1] && w[1] <= '7' {
        Some((w[1] as int - '0' as int) as u8)
    } else {
        None
    }
}

/// The value of a decimal numeral when it fits 32 unsigned bits.
pub open spec fn dec_u32(s: Seq<char>) -> Option<u32> {
    match dec_value(s) {
        Some(v) => if v <= u32::MAX as int {
            Some(v as u32)
        } else {
            None
        },
        None => None,
    }
}

/// The value of a hexadecimal numeral when it fits 32 unsigned bits.
pub open spec fn hex_u32(s: Seq<char>) -> Option<u32> {
    match hex_value(s) {
        Some(v) => if v <= u32::MAX as int {
            Some(v as u32)
        } else {
            None
        },
        None => None,
    }
}

/// An immediate operand: decimal digits, or `#` followed by hexadecimal
/// digits of either case, valued in the unsigned 32-bit range.
pub open spec fn u32_of_word(w: Seq<char>) -> Option<u32> {
    if w.len() > 0 && w[0] == '#' {
        hex_u32(w.subrange(1, w.len() as int))
    } else {
        dec_u32(w)
    }
}

pub proof fn lemma_dec_value_nonneg(s: Seq<char>)
    ensures
        match dec_value(s) {
            Some(v) => v >= 0,
            None => true,
        },
    decreases s.len(),
{
    if s.len() > 1 {
        lemma_dec_value_nonneg(s.drop_last());
    }
}

pub proof fn lemma_hex_value_nonneg(s: Seq<char>)
    ensures
        match hex_value(s) {
            Some(v) => v >= 0,
            None => true,
        },
    decreases s.len(),
{
    if s.len() > 1 {
        lemma_hex_value_nonneg(s.drop_last());
    }
}

/// A string holding a non-digit is not a decimal numeral.
pub proof fn lemma_dec_value_none(s: Seq<char>, k: int)
    requires
        0 <= k < s.len(),
        !is_dec_digit(s[k]),
    ensures
        dec_value(s) is None,
    decreases s.len(),
{
    if s.len() > 1 && k < s.len() - 1 {
        lemma_dec_value_none(s.drop_last(), k);
    }
}

/// A string holding a non-hex-digit is not a hexadecimal numeral.
pub proof fn lemma_hex_value_none(s: Seq<char>, k: int)
    requires
        0 <= k < s.len(),
        !is_hex_digit(s[k]),
    ensures
        hex_value(s) is None,
    decreases s.len(),
{
    if s.len() > 1 && k < s.len() - 1 {
        lemma_hex_value_none(s.drop_last(), k);
    }
}

} // verus!
