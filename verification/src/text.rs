//! Verified text utilities: character classification, string equality,
//! bounded decimal parsing, and decimal rendering.

use vstd::prelude::*;
use crate::outside::push_char;

verus! {

/// Equality of two string slices, character by character.
pub fn str_eq(a: &str, b: &str) -> (r: bool)
    ensures
        r == (a@ == b@),
{
    let alen = a.unicode_len();
    let blen = b.unicode_len();
    if alen != blen {
        return false;
    }
    let mut i: usize = 0;
    while i < alen
        invariant
            alen == a@.len(),
            blen == b@.len(),
            alen == blen,
            i <= alen,
            forall|j: int| 0 <= j < i ==> a@[j] == b@[j],
        decreases alen - i,
    {
        if a.get_char(i) != b.get_char(i) {
            return false;
        }
        i += 1;
    }
    proof {
        assert(a@ =~= b@);
    }
    true
}

/// The upper-case form of an ASCII lower-case letter; any other character
/// is left as it is.
pub open spec fn spec_upper(c: char) -> char {
    match c {
        'a' => 'A',
        'b' => 'B',
        'c' => 'C',
        'd' => 'D',
        'e' => 'E',
        'f' => 'F',
        'g' => 'G',
        'h' => 'H',
        'i' => 'I',
        'j' => 'J',
        'k' => 'K',
        'l' => 'L',
        'm' => 'M',
        'n' => 'N',
        'o' => 'O',
        'p' => 'P',
        'q' => 'Q',
        'r' => 'R',
        's' => 'S',
        't' => 'T',
        'u' => 'U',
        'v' => 'V',
        'w' => 'W',
        'x' => 'X',
        'y' => 'Y',
        'z' => 'Z',
        _ => c,
    }
}

/// A character sequence mapped to ASCII upper case.
pub open spec fn upper_seq(s: Seq<char>) -> Seq<char> {
    s.map_values(|c: char| spec_upper(c))
}

/// The upper-case form of an ASCII lower-case letter; any other character
/// is returned unchanged.
pub fn upper_char(c: char) -> (r: char)
    ensures
        r == spec_upper(c),
{
    match c {
        'a' => 'A',
        'b' => 'B',
        'c' => 'C',
        'd' => 'D',
        'e' => 'E',
        'f' => 'F',
        'g' => 'G',
        'h' => 'H',
        'i' => 'I',
        'j' => 'J',
        'k' => 'K',
        'l' => 'L',
        'm' => 'M',
        'n' => 'N',
        'o' => 'O',
        'p' => 'P',
        'q' => 'Q',
        'r' => 'R',
        's' => 'S',
        't' => 'T',
        'u' => 'U',
        'v' => 'V',
        'w' => 'W',
        'x' => 'X',
        'y' => 'Y',
        'z' => 'Z',
        _ => c,
    }
}

/// Whether `s`, mapped to ASCII upper case, equals `upper` exactly. With an
/// already-upper-case `upper` this is ASCII-case-insensitive equality.
pub fn upper_eq(s: &str, upper: &str) -> (r: bool)
    ensures
        r == (upper_seq(s@) == upper@),
{
    let slen = s.unicode_len();
    let ulen = upper.unicode_len();
    if slen != ulen {
        return false;
    }
    let mut i: usize = 0;
    while i < slen
        invariant
            slen == s@.len(),
            ulen == upper@.len(),
            slen == ulen,
            i <= slen,
            forall|j: int| 0 <= j < i ==> spec_upper(s@[j]) == upper@[j],
        decreases slen - i,
    {
        if upper_char(s.get_char(i)) != upper.get_char(i) {
            return false;
        }
        i += 1;
    }
    proof {
        assert(upper_seq(s@) =~= upper@);
    }
    true
}

/// The numeric value of a decimal digit character, `None` for any other
/// character.
pub open spec fn spec_digit(c: char) -> Option<u64> {
    match c {
        '0' => Some(0u64),
        '1' => Some(1u64),
        '2' => Some(2u64),
        '3' => Some(3u64),
        '4' => Some(4u64),
        '5' => Some(5u64),
        '6' => Some(6u64),
        '7' => Some(7u64),
        '8' => Some(8u64),
        '9' => Some(9u64),
        _ => None,
    }
}

/// The numeric value of a decimal digit character, `None` for any other
/// character.
pub fn digit_of(c: char) -> (r: Option<u64>)
    ensures
        r == spec_digit(c),
{
    match c {
        '0' => Some(0u64),
        '1' => Some(1u64),
        '2' => Some(2u64),
        '3' => Some(3u64),
        '4' => Some(4u64),
        '5' => Some(5u64),
        '6' => Some(6u64),
        '7' => Some(7u64),
        '8' => Some(8u64),
        '9' => Some(9u64),
        _ => None,
    }
}

/// Whether every character of `s` is a decimal digit.
pub open spec fn all_digits(s: Seq<char>) -> bool {
    forall|i: int| 0 <= i < s.len() ==> (#[trigger] spec_digit(s[i])) is Some
}

/// The number denoted by a sequence of decimal digit characters.
pub open spec fn digits_val(s: Seq<char>) -> nat
    decreases s.len(),
{
    if s.len() == 0 {
        0
    } else {
        digits_val(s.drop_last()) * 10 + spec_digit(s.last())->Some_0 as nat
    }
}

/// A digit string's value never falls below the value of any of its
/// prefixes.
pub proof fn lemma_digits_val_prefix(s: Seq<char>, k: int)
    requires
        0 <= k <= s.len(),
    ensures
        digits_val(s) >= digits_val(s.subrange(0, k)),
    decreases s.len(),
{
    if k == s.len() {
        assert(s.subrange(0, k) =~= s);
    } else {
        lemma_digits_val_prefix(s.drop_last(), k);
        assert(s.drop_last().subrange(0, k) =~= s.subrange(0, k));
    }
}

/// The result of parsing a non-empty, all-digit decimal string whose value
/// is at most `bound`; `None` otherwise.
pub open spec fn spec_parse_dec(s: Seq<char>, bound: u64) -> Option<u64> {
    if s.len() > 0 && all_digits(s) && digits_val(s) <= bound {
        Some(digits_val(s) as u64)
    } else {
        None
    }
}

/// Parses a non-negative decimal digit string, rejecting the empty string,
/// any non-digit character, and any value above `bound`.
pub fn parse_dec_bounded(s: &str, bound: u64) -> (r: Option<u64>)
    ensures
        r == spec_parse_dec(s@, bound),
{
    let len = s.unicode_len();
    if len == 0 {
        return None;
    }
    let mut acc: u64 = 0;
    let mut i: usize = 0;
    while i < len
        invariant
            len == s@.len(),
            0 < len,
            i <= len,
            forall|j: int| 0 <= j < i ==> (#[trigger] spec_digit(s@[j])) is Some,
            acc == digits_val(s@.subrange(0, i as int)),
            acc <= bound,
        decreases len - i,
    {
        let c = s.get_char(i);
        let d = match digit_of(c) {
            Some(d) => d,
            None => {
                return None;
            },
        };
        proof {
            assert(s@.subrange(0, i + 1).drop_last() =~= s@.subrange(0, i as int));
            assert(s@.subrange(0, i + 1).last() == s@[i as int]);
        }
        if acc > bound / 10 || (acc == bound / 10 && d > bound % 10) {
            proof {
                assert(digits_val(s@.subrange(0, i + 1)) > bound) by {
                    assert(acc * 10 + d > bound) by (nonlinear_arith)
                        requires
                            acc > bound / 10 || (acc == bound / 10 && d > bound % 10),
                            bound == (bound / 10) * 10 + bound % 10,
                            d < 10,
                    ;
                };
                lemma_digits_val_prefix(s@, i + 1);
            }
            return None;
        }
        proof {
            assert(acc * 10 + d <= bound) by (nonlinear_arith)
                requires
                    acc <= bound / 10,
                    !(acc == bound / 10 && d > bound % 10),
                    bound == (bound / 10) * 10 + bound % 10,
                    d < 10,
            ;
        }
        acc = acc * 10 + d;
        i += 1;
    }
    proof {
        assert(s@.subrange(0, len as int) =~= s@);
    }
    Some(acc)
}

/// The characters of `s` from index `i` on, with every digit-group
/// separator `_` removed.
pub open spec fn spec_strip_from(s: Seq<char>, i: int) -> Seq<char>
    decreases s.len() - i,
    when 0 <= i <= s.len()
{
    if i >= s.len() {
        Seq::empty()
    } else if s[i] == '_' {
        spec_strip_from(s, i + 1)
    } else {
        seq![s[i]] + spec_strip_from(s, i + 1)
    }
}

/// A character sequence with every digit-group separator `_` removed.
pub open spec fn spec_strip(s: Seq<char>) -> Seq<char> {
    spec_strip_from(s, 0)
}

/// Removes every digit-group separator `_` from a literal's text.
pub fn strip_separators(s: &str) -> (r: String)
    ensures
        r@ == spec_strip(s@),
{
    let len = s.unicode_len();
    let mut buf = String::new();
    let mut i: usize = 0;
    proof {
        assert(buf@ + spec_strip_from(s@, 0) =~= spec_strip_from(s@, 0));
    }
    while i < len
        invariant
            len == s@.len(),
            i <= len,
            spec_strip(s@) == buf@ + spec_strip_from(s@, i as int),
        decreases len - i,
    {
        let ghost buf0 = buf@;
        let c = s.get_char(i);
        if c != '_' {
            push_char(&mut buf, c);
            proof {
                assert(buf0 + (seq![c] + spec_strip_from(s@, i + 1)) =~= buf@ + spec_strip_from(
                    s@,
                    i + 1,
                ));
            }
        }
        i += 1;
    }
    proof {
        assert(buf@ + spec_strip_from(s@, len as int) =~= buf@);
    }
    buf
}

/// The largest exponent magnitude an arbitrary-precision literal may
/// carry. Beyond it the decimal crate's 64-bit scale arithmetic is not
/// safe to call into, and no meaningful literal comes anywhere near it.
pub const MAX_LITERAL_EXPONENT: u64 = 1000000000;

/// The index of the first exponent marker `e`/`E` in `s` at or after `i`.
pub open spec fn spec_first_exp_from(s: Seq<char>, i: int) -> Option<int>
    decreases s.len() - i,
    when 0 <= i <= s.len()
{
    if i >= s.len() {
        None
    } else if s[i] == 'e' || s[i] == 'E' {
        Some(i)
    } else {
        spec_first_exp_from(s, i + 1)
    }
}

/// Whether a decimal literal's exponent part is of tolerable magnitude:
/// either the text has no exponent marker, or what follows the first one
/// (after an optional sign) is not a plain digit string — the decimal
/// parser then rejects the text itself — or it is one and its value is at
/// most [`MAX_LITERAL_EXPONENT`].
pub open spec fn spec_exponent_ok(s: Seq<char>) -> bool {
    match spec_first_exp_from(s, 0) {
        None => true,
        Some(p) => {
            let t = s.subrange(p + 1, s.len() as int);
            let d = if t.len() > 0 && (t[0] == '+' || t[0] == '-') {
                t.subrange(1, t.len() as int)
            } else {
                t
            };
            if d.len() > 0 && all_digits(d) {
                digits_val(d) <= MAX_LITERAL_EXPONENT
            } else {
                true
            }
        },
    }
}

fn all_digits_check(s: &str) -> (r: bool)
    ensures
        r == all_digits(s@),
{
    let len = s.unicode_len();
    let mut i: usize = 0;
    while i < len
        invariant
            len == s@.len(),
            i <= len,
            forall|j: int| 0 <= j < i ==> (#[trigger] spec_digit(s@[j])) is Some,
        decreases len - i,
    {
        if digit_of(s.get_char(i)).is_none() {
            return false;
        }
        i += 1;
    }
    true
}

/// Whether a literal's exponent part, if it is a plain digit string, stays
/// within [`MAX_LITERAL_EXPONENT`]; texts without a well-formed exponent
/// pass, since the decimal parser rejects them cleanly on its own.
pub fn exponent_ok(s: &str) -> (r: bool)
    ensures
        r == spec_exponent_ok(s@),
{
    let len = s.unicode_len();
    let mut i: usize = 0;
    while i < len
        invariant
            len == s@.len(),
            i <= len,
            spec_first_exp_from(s@, 0) == spec_first_exp_from(s@, i as int),
        decreases len - i,
    {
        let c = s.get_char(i);
        if c == 'e' || c == 'E' {
            let mut dstart: usize = i + 1;
            if dstart < len {
                let sign = s.get_char(dstart);
                if sign == '+' || sign == '-' {
                    dstart = dstart + 1;
                }
            }
            let d = s.substring_char(dstart, len);
            proof {
                let t = s@.subrange(i + 1, len as int);
                if t.len() > 0 && (t[0] == '+' || t[0] == '-') {
                    assert(d@ =~= t.subrange(1, t.len() as int));
                } else {
                    assert(d@ =~= t);
                }
            }
            if d.is_empty() {
                return true;
            }
            if !all_digits_check(d) {
                return true;
            }
            return parse_dec_bounded(d, MAX_LITERAL_EXPONENT).is_some();
        }
        i += 1;
    }
    true
}

/// The decimal digit character for a value below ten.
pub open spec fn spec_digit_char(d: u64) -> char {
    if d == 0 {
        '0'
    } else if d == 1 {
        '1'
    } else if d == 2 {
        '2'
    } else if d == 3 {
        '3'
    } else if d == 4 {
        '4'
    } else if d == 5 {
        '5'
    } else if d == 6 {
        '6'
    } else if d == 7 {
        '7'
    } else if d == 8 {
        '8'
    } else {
        '9'
    }
}

/// The decimal digit character for a value below ten.
pub fn digit_char(d: u64) -> (r: char)
    requires
        d < 10,
    ensures
        r == spec_digit_char(d),
{
    if d == 0 {
        '0'
    } else if d == 1 {
        '1'
    } else if d == 2 {
        '2'
    } else if d == 3 {
        '3'
    } else if d == 4 {
        '4'
    } else if d == 5 {
        '5'
    } else if d == 6 {
        '6'
    } else if d == 7 {
        '7'
    } else if d == 8 {
        '8'
    } else {
        '9'
    }
}

/// The decimal rendering of a non-negative number, without leading zeros
/// (a single zero digit for zero).
pub open spec fn spec_dec_str(n: nat) -> Seq<char>
    decreases n,
{
    if n < 10 {
        seq![spec_digit_char(n as u64)]
    } else {
        spec_dec_str(n / 10).push(spec_digit_char((n % 10) as u64))
    }
}

/// Renders a number as decimal digits.
pub fn dec_string_u128(n: u128) -> (r: String)
    ensures
        r@ == spec_dec_str(n as nat),
    decreases n,
{
    if n < 10 {
        let mut s = String::new();
        push_char(&mut s, digit_char(n as u64));
        proof {
            assert(s@ =~= spec_dec_str(n as nat));
        }
        s
    } else {
        let mut s = dec_string_u128(n / 10);
        push_char(&mut s, digit_char((n % 10) as u64));
        proof {
            assert((n / 10) as nat == (n as nat) / 10);
            assert((n % 10) as nat == (n as nat) % 10);
        }
        s
    }
}

} // verus!
