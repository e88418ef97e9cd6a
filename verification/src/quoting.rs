//! String-literal unquoting: strips the quotes of a raw or ordinary string
//! literal and resolves the escape sequences of the ordinary form.
//!
//! The grammar: a raw literal `r'…'` or `r"…"` whose body is taken as it
//! stands; an ordinary literal `'…'` or `"…"` whose body may hold the
//! escapes `\\`, `\'`, `\"`, `\b`, `\f`, `\n`, `\r`, `\t`, `\xHH` (two hex
//! digits, below 0x80), `\uHHHH` and `\UHHHHHHHH` (the hex code of a
//! Unicode scalar value). Anything else fails to unquote.

use vstd::prelude::*;
use crate::outside::{char_from_u32, push_char, is_scalar_value, opt_str_view};

verus! {

/// The numeric value of a hexadecimal digit character, `None` for any
/// other character.
pub open spec fn spec_hex(c: char) -> Option<u64> {
    match c {
        '0' => Some(0u64),
        '1' => Some(1u64),
        '2' => Some(2u64),
        '3' => Some(3u64),
        '4' => Some(4u64),
        '5' => Some(5u64),
        '6' => Some(6u64),
        '7' => Some(7u64),
        '8' => Some(8u64),
        '9' => Some(9u64),
        'a' => Some(10u64),
        'b' => Some(11u64),
        'c' => Some(12u64),
        'd' => Some(13u64),
        'e' => Some(14u64),
        'f' => Some(15u64),
        'A' => Some(10u64),
        'B' => Some(11u64),
        'C' => Some(12u64),
        'D' => Some(13u64),
        'E' => Some(14u64),
        'F' => Some(15u64),
        _ => None,
    }
}

/// The numeric value of a hexadecimal digit character, `None` for any
/// other character.
pub fn hex_of(c: char) -> (r: Option<u64>)
    ensures
        r == spec_hex(c),
{
    match c {
        '0' => Some(0u64),
        '1' => Some(1u64),
        '2' => Some(2u64),
        '3' => Some(3u64),
        '4' => Some(4u64),
        '5' => Some(5u64),
        '6' => Some(6u64),
        '7' => Some(7u64),
        '8' => Some(8u64),
        '9' => Some(9u64),
        'a' => Some(10u64),
        'b' => Some(11u64),
        'c' => Some(12u64),
        'd' => Some(13u64),
        'e' => Some(14u64),
        'f' => Some(15u64),
        'A' => Some(10u64),
        'B' => Some(11u64),
        'C' => Some(12u64),
        'D' => Some(13u64),
        'E' => Some(14u64),
        'F' => Some(15u64),
        _ => None,
    }
}

/// Sixteen to the power `n`.
pub open spec fn pow16(n: nat) -> nat
    decreases n,
{
    if n == 0 {
        1
    } else {
        16 * pow16((n - 1) as nat)
    }
}

/// The value of the `n` hexadecimal digits of `s` starting at index `i`,
/// `None` where any of them is not a hexadecimal digit.
pub open spec fn spec_hex_val(s: Seq<char>, i: int, n: int) -> Option<int>
    decreases n,
    when 0 <= i && i + n <= s.len()
{
    if n <= 0 {
        Some(0)
    } else {
        match spec_hex_val(s, i, n - 1) {
            Some(v) => match spec_hex(s[i + n - 1]) {
                Some(d) => Some(v * 16 + d),
                None => None,
            },
            None => None,
        }
    }
}

proof fn lemma_hex_val_bound(s: Seq<char>, i: int, n: int)
    requires
        0 <= i,
        0 <= n,
        i + n <= s.len(),
        spec_hex_val(s, i, n) is Some,
    ensures
        0 <= spec_hex_val(s, i, n)->Some_0 < pow16(n as nat),
    decreases n,
{
    if n > 0 {
        lemma_hex_val_bound(s, i, n - 1);
    }
}

proof fn lemma_pow16_le(a: nat, b: nat)
    requires
        a <= b,
    ensures
        pow16(a) <= pow16(b),
    decreases b,
{
    if a < b {
        lemma_pow16_le(a, (b - 1) as nat);
    }
}

proof fn lemma_hex_val_none(s: Seq<char>, i: int, j: int, n: int)
    requires
        0 <= i,
        0 <= j < n,
        i + n <= s.len(),
        spec_hex(s[i + j]) is None,
    ensures
        spec_hex_val(s, i, n) is None,
    decreases n,
{
    if j < n - 1 {
        lemma_hex_val_none(s, i, j, n - 1);
    }
}

/// Reads the value of `n` hexadecimal digits starting at `start`.
fn hex_val(s: &str, start: usize, n: usize) -> (r: Option<u64>)
    requires
        start + n <= s@.len(),
        start + n <= usize::MAX,
        n <= 8,
    ensures
        (match r {
            Some(v) => Some(v as int),
            None => None::<int>,
        }) == spec_hex_val(s@, start as int, n as int),
        r is Some ==> r->Some_0 < 0x100000000,
{
    let mut acc: u64 = 0;
    let mut j: usize = 0;
    while j < n
        invariant
            start + n <= s@.len(),
            start + n <= usize::MAX,
            n <= 8,
            j <= n,
            spec_hex_val(s@, start as int, j as int) == Some(acc as int),
            acc < 0x100000000,
        decreases n - j,
    {
        let c = s.get_char(start + j);
        let d = match hex_of(c) {
            Some(d) => d,
            None => {
                proof {
                    lemma_hex_val_none(s@, start as int, j as int, n as int);
                }
                return None;
            },
        };
        proof {
            lemma_hex_val_bound(s@, start as int, j as int);
            lemma_pow16_le((j + 1) as nat, 8nat);
            reveal_with_fuel(pow16, 9);
            assert(pow16(8nat) == 0x100000000);
            assert(acc < pow16(j as nat));
            assert(16 * pow16(j as nat) == pow16((j + 1) as nat));
            assert(acc * 16 + d < pow16((j + 1) as nat));
        }
        acc = acc * 16 + d;
        j += 1;
    }
    Some(acc)
}

/// Prepends a character to an optional tail.
pub open spec fn cons_char(c: char, rest: Option<Seq<char>>) -> Option<Seq<char>> {
    match rest {
        Some(t) => Some(seq![c] + t),
        None => None,
    }
}

/// The unescaped form of the characters of `s` from index `i` up to (not
/// including) index `to`, or `None` where an escape is malformed.
pub open spec fn spec_unescape_range(s: Seq<char>, i: int, to: int) -> Option<Seq<char>>
    decreases to - i,
    when 0 <= i <= to <= s.len()
{
    if i >= to {
        Some(Seq::empty())
    } else if s[i] != '\\' {
        cons_char(s[i], spec_unescape_range(s, i + 1, to))
    } else if i + 1 >= to {
        None
    } else {
        let e = s[i + 1];
        if e == '\\' {
            cons_char('\\', spec_unescape_range(s, i + 2, to))
        } else if e == '\'' {
            cons_char('\'', spec_unescape_range(s, i + 2, to))
        } else if e == '"' {
            cons_char('"', spec_unescape_range(s, i + 2, to))
        } else if e == 'b' {
            cons_char('\u{0008}', spec_unescape_range(s, i + 2, to))
        } else if e == 'f' {
            cons_char('\u{000C}', spec_unescape_range(s, i + 2, to))
        } else if e == 'n' {
            cons_char('\n', spec_unescape_range(s, i + 2, to))
        } else if e == 'r' {
            cons_char('\r', spec_unescape_range(s, i + 2, to))
        } else if e == 't' {
            cons_char('\t', spec_unescape_range(s, i + 2, to))
        } else if e == 'x' {
            if i + 4 <= to {
                match spec_hex_val(s, i + 2, 2) {
                    Some(code) => if code < 0x80 {
                        cons_char((code as u32) as char, spec_unescape_range(s, i + 4, to))
                    } else {
                        None
                    },
                    None => None,
                }
            } else {
                None
            }
        } else if e == 'u' {
            if i + 6 <= to {
                match spec_hex_val(s, i + 2, 4) {
                    Some(code) => if is_scalar_value(code as u32) {
                        cons_char((code as u32) as char, spec_unescape_range(s, i + 6, to))
                    } else {
                        None
                    },
                    None => None,
                }
            } else {
                None
            }
        } else if e == 'U' {
            if i + 10 <= to {
                match spec_hex_val(s, i + 2, 8) {
                    Some(code) => if is_scalar_value(code as u32) {
                        cons_char((code as u32) as char, spec_unescape_range(s, i + 10, to))
                    } else {
                        None
                    },
                    None => None,
                }
            } else {
                None
            }
        } else {
            None
        }
    }
}

/// The unquoted form of a string literal's source text: the body of a raw
/// literal as it stands, the unescaped body of an ordinary literal, `None`
/// where the text is not a well-formed literal.
pub open spec fn spec_unquote(s: Seq<char>) -> Option<Seq<char>> {
    if s.len() >= 3 && s[0] == 'r' && (s[1] == '\'' || s[1] == '"') && s.last() == s[1] {
        Some(s.subrange(2, s.len() - 1))
    } else if s.len() >= 2 && (s[0] == '\'' || s[0] == '"') && s.last() == s[0] {
        spec_unescape_range(s, 1, s.len() - 1)
    } else {
        None
    }
}

fn unescape_range(s: &str, from: usize, to: usize) -> (r: Option<String>)
    requires
        from <= to <= s@.len(),
    ensures
        opt_str_view(r) == spec_unescape_range(s@, from as int, to as int),
{
    let mut buf = String::new();
    let mut i: usize = from;
    proof {
        if spec_unescape_range(s@, from as int, to as int) is Some {
            assert(buf@ + spec_unescape_range(s@, from as int, to as int)->Some_0
                =~= spec_unescape_range(s@, from as int, to as int)->Some_0);
        }
    }
    while i < to
        invariant
            from <= i <= to <= s@.len(),
            spec_unescape_range(s@, from as int, to as int) == (match spec_unescape_range(
                s@,
                i as int,
                to as int,
            ) {
                Some(t) => Some(buf@ + t),
                None => None::<Seq<char>>,
            }),
        decreases to - i,
    {
        let ghost buf0 = buf@;
        let c = s.get_char(i);
        if c != '\\' {
            push_char(&mut buf, c);
            proof {
                if spec_unescape_range(s@, i + 1, to as int) is Some {
                    assert(buf0 + (seq![c] + spec_unescape_range(s@, i + 1, to as int)->Some_0)
                        =~= buf@ + spec_unescape_range(s@, i + 1, to as int)->Some_0);
                }
            }
            i += 1;
        } else {
            if i + 1 >= to {
                return None;
            }
            let e = s.get_char(i + 1);
            let simple: Option<char> = match e {
                '\\' => Some('\\'),
                '\'' => Some('\''),
                '"' => Some('"'),
                'b' => Some('\u{0008}'),
                'f' => Some('\u{000C}'),
                'n' => Some('\n'),
                'r' => Some('\r'),
                't' => Some('\t'),
                _ => None,
            };
            if let Some(sc) = simple {
                push_char(&mut buf, sc);
                proof {
                    if spec_unescape_range(s@, i + 2, to as int) is Some {
                        assert(buf0 + (seq![sc] + spec_unescape_range(s@, i + 2, to as int)->Some_0)
                            =~= buf@ + spec_unescape_range(s@, i + 2, to as int)->Some_0);
                    }
                }
                i += 2;
            } else if e == 'x' || e == 'u' || e == 'U' {
                let ndig: usize = if e == 'x' {
                    2
                } else if e == 'u' {
                    4
                } else {
                    8
                };
                let adv: usize = ndig + 2;
                if to - i < adv {
                    return None;
                }
                let code = match hex_val(s, i + 2, ndig) {
                    Some(code) => code,
                    None => {
                        return None;
                    },
                };
                let ok = if e == 'x' {
                    code < 0x80
                } else {
                    code < 0xD800 || (0xE000 <= code && code <= 0x10FFFF)
                };
                if !ok {
                    return None;
                }
                let cu: u32 = code as u32;
                proof {
                    assert(is_scalar_value(cu));
                    assert(cu as int == code as int);
                }
                let sc = char_from_u32(cu).unwrap();
                push_char(&mut buf, sc);
                proof {
                    let after = i + adv;
                    if spec_unescape_range(s@, after as int, to as int) is Some {
                        assert(buf0 + (seq![sc] + spec_unescape_range(
                            s@,
                            after as int,
                            to as int,
                        )->Some_0) =~= buf@ + spec_unescape_range(
                            s@,
                            after as int,
                            to as int,
                        )->Some_0);
                    }
                }
                i += adv;
            } else {
                return None;
            }
        }
    }
    Some(buf)
}

/// Unquotes a string literal's source text: the raw form loses its prefix
/// and quotes, the ordinary form additionally has its escapes resolved.
/// `None` where the text is not a well-formed literal of either form.
pub fn unquote_string(s: &str) -> (r: Option<String>)
    ensures
        opt_str_view(r) == spec_unquote(s@),
{
    let len = s.unicode_len();
    if len >= 3 && s.get_char(0) == 'r' {
        let q = s.get_char(1);
        if (q == '\'' || q == '"') && s.get_char(len - 1) == q {
            let mid = s.substring_char(2, len - 1);
            return Some(mid.to_owned());
        }
        return None;
    }
    if len >= 2 {
        let q = s.get_char(0);
        if (q == '\'' || q == '"') && s.get_char(len - 1) == q {
            return unescape_range(s, 1, len - 1);
        }
        return None;
    }
    None
}

} // verus!
