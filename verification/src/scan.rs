//! The argument-scheme scanner: inspects parameter-reference tokens and
//! decides whether the query numbers its arguments positionally or by name,
//! and what the next free slot (or the distinct-name count) is.

use vstd::prelude::*;
use crate::tokens::{Token, TokView, Kind};
use crate::text::{parse_dec_bounded, spec_parse_dec, str_eq};

verus! {

/// The index a parameter-reference token's text parses to: the characters
/// after the leading `$`, read as a decimal number no larger than the
/// machine's index range. `None` where the text is anything else — such a
/// reference is a name.
pub open spec fn spec_arg_index(v: Seq<char>) -> Option<u64> {
    if v.len() >= 1 {
        spec_parse_dec(v.subrange(1, v.len() as int), usize::MAX as u64)
    } else {
        None
    }
}

/// A parameter reference written with a numeric index.
pub open spec fn is_numeric_arg(t: TokView) -> bool {
    t.kind == Kind::Argument && spec_arg_index(t.value) is Some
}

/// A parameter reference written with a non-numeric name.
pub open spec fn is_named_arg(t: TokView) -> bool {
    t.kind == Kind::Argument && spec_arg_index(t.value) is None
}

/// The scanner's verdict on the tokens from index `i` on, carrying the
/// largest numeric index and the distinct names seen so far (names keep
/// their whole text, `$` included, in first-seen order).
pub open spec fn spec_scan_from(
    toks: Seq<TokView>,
    i: int,
    max: Option<u64>,
    names: Seq<Seq<char>>,
) -> Option<(bool, usize)>
    decreases toks.len() - i,
    when 0 <= i <= toks.len()
{
    if i >= toks.len() {
        if names.len() == 0 {
            match max {
                None => Some((false, 0)),
                Some(m) => if m < usize::MAX as u64 {
                    Some((false, (m + 1) as usize))
                } else {
                    None
                },
            }
        } else if max is Some {
            None
        } else {
            Some((true, names.len() as usize))
        }
    } else {
        let t = toks[i];
        if t.kind == Kind::Argument {
            match spec_arg_index(t.value) {
                Some(v) => spec_scan_from(
                    toks,
                    i + 1,
                    if max is Some && v <= max->Some_0 {
                        max
                    } else {
                        Some(v)
                    },
                    names,
                ),
                None => spec_scan_from(
                    toks,
                    i + 1,
                    max,
                    if names.contains(t.value) {
                        names
                    } else {
                        names.push(t.value)
                    },
                ),
            }
        } else {
            spec_scan_from(toks, i + 1, max, names)
        }
    }
}

/// The scanner's verdict on a whole token sequence: `Some((false, next))`
/// for a positional scheme with `next` the first free index, `Some((true,
/// n))` for a named scheme with `n` distinct names, `None` for a mixed
/// scheme (or a positional index at the very end of the machine's range).
pub open spec fn spec_scan_vars(toks: Seq<TokView>) -> Option<(bool, usize)> {
    spec_scan_from(toks, 0, None, Seq::empty())
}

fn names_contains(names: &Vec<String>, v: &str) -> (r: bool)
    ensures
        r == names.deep_view().contains(v@),
{
    let mut i: usize = 0;
    while i < names.len()
        invariant
            i <= names.len(),
            forall|j: int| 0 <= j < i ==> names.deep_view()[j] != v@,
        decreases names.len() - i,
    {
        if str_eq(names[i].as_str(), v) {
            proof {
                assert(names.deep_view()[i as int] == v@);
            }
            return true;
        }
        i += 1;
    }
    proof {
        assert(forall|j: int|
            0 <= j < names.deep_view().len() ==> names.deep_view()[j] != v@);
    }
    false
}

/// Scans every parameter-reference token and infers the argument scheme:
/// `Some((false, next))` when all references are numeric (or there are
/// none), with `next` one past the largest index; `Some((true, n))` when
/// all references are names, with `n` the number of distinct names; `None`
/// when the two forms are mixed.
pub fn scan_vars(tokens: &Vec<Token>) -> (r: Option<(bool, usize)>)
    ensures
        r == spec_scan_vars(tokens.deep_view()),
{
    let ghost toks = tokens.deep_view();
    let mut max_visited: Option<u64> = None;
    let mut names: Vec<String> = Vec::new();
    let mut i: usize = 0;
    proof {
        assert(names.deep_view() =~= Seq::<Seq<char>>::empty());
    }
    while i < tokens.len()
        invariant
            toks == tokens.deep_view(),
            toks.len() == tokens@.len(),
            i <= tokens.len(),
            spec_scan_vars(toks) == spec_scan_from(toks, i as int, max_visited, names.deep_view()),
        decreases tokens.len() - i,
    {
        let t = &tokens[i];
        proof {
            assert(toks[i as int] == tokens@[i as int]@);
        }
        if matches!(t.kind, Kind::Argument) {
            let vlen = t.value.as_str().unicode_len();
            let parsed: Option<u64> = if vlen >= 1 {
                let digits = t.value.as_str().substring_char(1, vlen);
                proof {
                    assert(digits@ =~= t.value@.subrange(1, t.value@.len() as int));
                }
                parse_dec_bounded(digits, usize::MAX as u64)
            } else {
                None
            };
            proof {
                assert(parsed == spec_arg_index(toks[i as int].value));
            }
            match parsed {
                Some(v) => {
                    let update = match max_visited {
                        Some(m) => v > m,
                        None => true,
                    };
                    if update {
                        max_visited = Some(v);
                    }
                },
                None => {
                    if !names_contains(&names, t.value.as_str()) {
                        let ghost names0 = names.deep_view();
                        names.push(t.value.clone());
                        proof {
                            assert(names.deep_view() =~= names0.push(toks[i as int].value));
                        }
                    }
                },
            }
        }
        i += 1;
    }
    if names.len() == 0 {
        match max_visited {
            None => Some((false, 0)),
            Some(m) => {
                if m < usize::MAX as u64 {
                    Some((false, (m + 1) as usize))
                } else {
                    None
                }
            },
        }
    } else {
        match max_visited {
            Some(_) => None,
            None => Some((true, names.len())),
        }
    }
}

/// The larger of two optional indices, absent only where both are.
pub open spec fn opt_max(a: Option<u64>, b: Option<u64>) -> Option<u64> {
    match (a, b) {
        (None, x) => x,
        (Some(v), None) => Some(v),
        (Some(v), Some(m)) => Some(
            if v > m {
                v
            } else {
                m
            },
        ),
    }
}

/// The largest numeric parameter index among the tokens from `i` on,
/// `None` where there is none.
pub open spec fn spec_max_arg(toks: Seq<TokView>, i: int) -> Option<u64>
    decreases toks.len() - i,
    when 0 <= i <= toks.len()
{
    if i >= toks.len() {
        None
    } else {
        let rest = spec_max_arg(toks, i + 1);
        if toks[i].kind == Kind::Argument {
            match spec_arg_index(toks[i].value) {
                Some(v) => opt_max(Some(v), rest),
                None => rest,
            }
        } else {
            rest
        }
    }
}

/// `spec_max_arg` is exactly the maximum: where it is `Some(m)`, some
/// parameter reference carries index `m` and none carries a larger one;
/// where it is `None`, no numeric parameter reference exists at all.
pub proof fn lemma_max_arg_is_max(toks: Seq<TokView>, i: int)
    requires
        0 <= i <= toks.len(),
    ensures
        (match spec_max_arg(toks, i) {
            Some(m) => (exists|k: int|
                i <= k < toks.len() && is_numeric_arg(toks[k]) && spec_arg_index(toks[k].value)
                    == Some(m)) && (forall|k: int|
                i <= k < toks.len() && is_numeric_arg(#[trigger] toks[k])
                    ==> spec_arg_index(toks[k].value)->Some_0 <= m),
            None => forall|k: int| i <= k < toks.len() ==> !is_numeric_arg(#[trigger] toks[k]),
        }),
    decreases toks.len() - i,
{
    if i < toks.len() {
        lemma_max_arg_is_max(toks, i + 1);
    }
}

proof fn lemma_scan_from_numeric(toks: Seq<TokView>, i: int, max: Option<u64>)
    requires
        0 <= i <= toks.len(),
        forall|k: int|
            i <= k < toks.len() && (#[trigger] toks[k]).kind == Kind::Argument ==> is_numeric_arg(
                toks[k],
            ),
    ensures
        spec_scan_from(toks, i, max, Seq::empty()) == (match opt_max(max, spec_max_arg(toks, i)) {
            None => Some((false, 0usize)),
            Some(m) => if m < usize::MAX as u64 {
                Some((false, (m + 1) as usize))
            } else {
                None::<(bool, usize)>
            },
        }),
    decreases toks.len() - i,
{
    if i < toks.len() {
        let t = toks[i];
        if t.kind == Kind::Argument {
            let v = spec_arg_index(t.value)->Some_0;
            lemma_scan_from_numeric(toks, i + 1, opt_max(max, Some(v)));
        } else {
            lemma_scan_from_numeric(toks, i + 1, max);
        }
    }
}

/// Positional-scheme inference: where every parameter reference carries a
/// numeric index (there may be none at all), scanning yields the
/// positional scheme with the next free index — zero without references,
/// one past the largest index otherwise. Duplicate or non-contiguous
/// indices play no part beyond the maximum. The one exception: a largest
/// index at the very end of the machine's range has no next free slot, and
/// scanning yields no result.
pub proof fn lemma_positional_inference(toks: Seq<TokView>)
    requires
        forall|k: int|
            0 <= k < toks.len() && (#[trigger] toks[k]).kind == Kind::Argument ==> is_numeric_arg(
                toks[k],
            ),
    ensures
        spec_scan_vars(toks) == (match spec_max_arg(toks, 0) {
            None => Some((false, 0usize)),
            Some(m) => if m < usize::MAX as u64 {
                Some((false, (m + 1) as usize))
            } else {
                None::<(bool, usize)>
            },
        }),
{
    lemma_scan_from_numeric(toks, 0, None);
}

/// The distinct parameter-reference texts among the tokens from `i` on, in
/// first-seen order, continuing from those already `seen`.
pub open spec fn spec_distinct_names(
    toks: Seq<TokView>,
    i: int,
    seen: Seq<Seq<char>>,
) -> Seq<Seq<char>>
    decreases toks.len() - i,
    when 0 <= i <= toks.len()
{
    if i >= toks.len() {
        seen
    } else {
        let t = toks[i];
        if t.kind == Kind::Argument && !seen.contains(t.value) {
            spec_distinct_names(toks, i + 1, seen.push(t.value))
        } else {
            spec_distinct_names(toks, i + 1, seen)
        }
    }
}

proof fn lemma_distinct_prefix(toks: Seq<TokView>, i: int, seen: Seq<Seq<char>>, j: int)
    requires
        0 <= i <= toks.len(),
        0 <= j < seen.len(),
    ensures
        seen.len() <= spec_distinct_names(toks, i, seen).len(),
        spec_distinct_names(toks, i, seen)[j] == seen[j],
    decreases toks.len() - i,
{
    if i < toks.len() {
        let t = toks[i];
        if t.kind == Kind::Argument && !seen.contains(t.value) {
            lemma_distinct_prefix(toks, i + 1, seen.push(t.value), j);
        } else {
            lemma_distinct_prefix(toks, i + 1, seen, j);
        }
    }
}

proof fn lemma_distinct_contains_token(toks: Seq<TokView>, i: int, seen: Seq<Seq<char>>, k: int)
    requires
        0 <= i <= k < toks.len(),
        toks[k].kind == Kind::Argument,
    ensures
        spec_distinct_names(toks, i, seen).contains(toks[k].value),
    decreases toks.len() - i,
{
    let t = toks[i];
    let result = spec_distinct_names(toks, i, seen);
    if k == i {
        if t.kind == Kind::Argument && !seen.contains(t.value) {
            let seen2 = seen.push(t.value);
            lemma_distinct_prefix(toks, i + 1, seen2, seen.len() as int);
            assert(result[seen.len() as int] == t.value);
        } else {
            let idx = choose|idx: int| 0 <= idx < seen.len() && seen[idx] == t.value;
            lemma_distinct_prefix(toks, i + 1, seen, idx);
            assert(result[idx] == t.value);
        }
    } else {
        if t.kind == Kind::Argument && !seen.contains(t.value) {
            lemma_distinct_contains_token(toks, i + 1, seen.push(t.value), k);
        } else {
            lemma_distinct_contains_token(toks, i + 1, seen, k);
        }
    }
}

/// Every entry of `spec_distinct_names` beyond those already `seen` is the
/// text of some parameter-reference token at or after `i`.
pub proof fn lemma_distinct_entry_source(toks: Seq<TokView>, i: int, seen: Seq<Seq<char>>, j: int)
    requires
        0 <= i <= toks.len(),
        seen.len() <= j < spec_distinct_names(toks, i, seen).len(),
    ensures
        exists|k: int|
            i <= k < toks.len() && (#[trigger] toks[k]).kind == Kind::Argument && toks[k].value
                == spec_distinct_names(toks, i, seen)[j],
    decreases toks.len() - i,
{
    let t = toks[i];
    let result = spec_distinct_names(toks, i, seen);
    if t.kind == Kind::Argument && !seen.contains(t.value) {
        let seen2 = seen.push(t.value);
        if j == seen.len() {
            lemma_distinct_prefix(toks, i + 1, seen2, j);
            assert(toks[i].kind == Kind::Argument && toks[i].value == result[j]);
        } else {
            lemma_distinct_entry_source(toks, i + 1, seen2, j);
            let k = choose|k: int|
                i + 1 <= k < toks.len() && (#[trigger] toks[k]).kind == Kind::Argument
                    && toks[k].value == spec_distinct_names(toks, i + 1, seen2)[j];
            assert(i <= k < toks.len() && toks[k].kind == Kind::Argument && toks[k].value
                == result[j]);
        }
    } else {
        lemma_distinct_entry_source(toks, i + 1, seen, j);
        let k = choose|k: int|
            i + 1 <= k < toks.len() && (#[trigger] toks[k]).kind == Kind::Argument
                && toks[k].value == spec_distinct_names(toks, i + 1, seen)[j];
        assert(i <= k < toks.len() && toks[k].kind == Kind::Argument && toks[k].value
            == result[j]);
    }
}

proof fn lemma_distinct_no_dup(toks: Seq<TokView>, i: int, seen: Seq<Seq<char>>)
    requires
        0 <= i <= toks.len(),
        seen.no_duplicates(),
    ensures
        spec_distinct_names(toks, i, seen).no_duplicates(),
    decreases toks.len() - i,
{
    if i < toks.len() {
        let t = toks[i];
        if t.kind == Kind::Argument && !seen.contains(t.value) {
            let seen2 = seen.push(t.value);
            assert(seen2.no_duplicates()) by {
                assert forall|a: int, b: int|
                    0 <= a < b < seen2.len() implies seen2[a] != seen2[b] by {
                    if b == seen2.len() - 1 {
                        assert(seen2[a] == seen[a]);
                        assert(seen.contains(seen[a]));
                    }
                }
            }
            lemma_distinct_no_dup(toks, i + 1, seen2);
        } else {
            lemma_distinct_no_dup(toks, i + 1, seen);
        }
    }
}

/// `spec_distinct_names` holds each parameter-reference text once: it
/// extends `seen` without repeating an entry, and every reference token's
/// text from `i` on is in it ([`lemma_distinct_entry_source`] adds the
/// converse: nothing else is).
pub proof fn lemma_distinct_names_meaning(toks: Seq<TokView>, i: int, seen: Seq<Seq<char>>)
    requires
        0 <= i <= toks.len(),
        seen.no_duplicates(),
    ensures
        spec_distinct_names(toks, i, seen).no_duplicates(),
        seen.len() <= spec_distinct_names(toks, i, seen).len(),
        forall|j: int| 0 <= j < seen.len() ==> spec_distinct_names(toks, i, seen)[j] == seen[j],
        forall|k: int|
            i <= k < toks.len() && (#[trigger] toks[k]).kind == Kind::Argument
                ==> spec_distinct_names(toks, i, seen).contains(toks[k].value),
{
    lemma_distinct_no_dup(toks, i, seen);
    if seen.len() > 0 {
        lemma_distinct_prefix(toks, i, seen, 0);
    }
    assert forall|j: int|
        0 <= j < seen.len() implies spec_distinct_names(toks, i, seen)[j] == seen[j] by {
        lemma_distinct_prefix(toks, i, seen, j);
    }
    assert forall|k: int|
        i <= k < toks.len() && (#[trigger] toks[k]).kind == Kind::Argument
            implies spec_distinct_names(toks, i, seen).contains(toks[k].value) by {
        lemma_distinct_contains_token(toks, i, seen, k);
    }
}

proof fn lemma_scan_from_named(toks: Seq<TokView>, i: int, names: Seq<Seq<char>>)
    requires
        0 <= i <= toks.len(),
        forall|k: int|
            i <= k < toks.len() && (#[trigger] toks[k]).kind == Kind::Argument ==> is_named_arg(
                toks[k],
            ),
        names.len() > 0 || exists|k: int|
            i <= k < toks.len() && (#[trigger] toks[k]).kind == Kind::Argument,
    ensures
        spec_scan_from(toks, i, None, names) == Some(
            (true, spec_distinct_names(toks, i, names).len() as usize),
        ),
    decreases toks.len() - i,
{
    if i == toks.len() {
        assert(names.len() > 0);
    } else {
        let t = toks[i];
        if t.kind == Kind::Argument {
            let names2 = if names.contains(t.value) {
                names
            } else {
                names.push(t.value)
            };
            assert(names2.len() > 0);
            lemma_scan_from_named(toks, i + 1, names2);
        } else {
            if names.len() == 0 {
                let k = choose|k: int|
                    i <= k < toks.len() && (#[trigger] toks[k]).kind == Kind::Argument;
                assert(i + 1 <= k < toks.len() && toks[k].kind == Kind::Argument);
            }
            lemma_scan_from_named(toks, i + 1, names);
        }
    }
}

/// Named-scheme inference: where at least one parameter reference exists
/// and none carries a numeric index, scanning yields the named scheme with
/// the number of distinct reference texts — each repeated name counted
/// once.
pub proof fn lemma_named_inference(toks: Seq<TokView>)
    requires
        exists|k: int| 0 <= k < toks.len() && (#[trigger] toks[k]).kind == Kind::Argument,
        forall|k: int|
            0 <= k < toks.len() && (#[trigger] toks[k]).kind == Kind::Argument ==> is_named_arg(
                toks[k],
            ),
    ensures
        spec_scan_vars(toks) == Some(
            (true, spec_distinct_names(toks, 0, Seq::empty()).len() as usize),
        ),
{
    lemma_scan_from_named(toks, 0, Seq::empty());
}

proof fn lemma_scan_from_mixed(
    toks: Seq<TokView>,
    i: int,
    max: Option<u64>,
    names: Seq<Seq<char>>,
)
    requires
        0 <= i <= toks.len(),
        max is Some || exists|k: int| i <= k < toks.len() && is_numeric_arg(toks[k]),
        names.len() > 0 || exists|k: int| i <= k < toks.len() && is_named_arg(toks[k]),
    ensures
        spec_scan_from(toks, i, max, names) is None,
    decreases toks.len() - i,
{
    if i == toks.len() {
    } else {
        let t = toks[i];
        if max is None {
            let k = choose|k: int| i <= k < toks.len() && is_numeric_arg(toks[k]);
            if k > i {
                assert(exists|k2: int| i + 1 <= k2 < toks.len() && is_numeric_arg(toks[k2]));
            }
        }
        if names.len() == 0 {
            let k = choose|k: int| i <= k < toks.len() && is_named_arg(toks[k]);
            if k > i {
                assert(exists|k2: int| i + 1 <= k2 < toks.len() && is_named_arg(toks[k2]));
            }
        }
        if t.kind == Kind::Argument {
            match spec_arg_index(t.value) {
                Some(v) => {
                    lemma_scan_from_mixed(
                        toks,
                        i + 1,
                        if max is Some && v <= max->Some_0 {
                            max
                        } else {
                            Some(v)
                        },
                        names,
                    );
                },
                None => {
                    let names2 = if names.contains(t.value) {
                        names
                    } else {
                        names.push(t.value)
                    };
                    assert(names2.len() > 0);
                    lemma_scan_from_mixed(toks, i + 1, max, names2);
                },
            }
        } else {
            lemma_scan_from_mixed(toks, i + 1, max, names);
        }
    }
}

/// Mixed-scheme rejection: a token sequence that contains both a numeric
/// parameter reference and a named one scans to no result at all.
pub proof fn lemma_mixed_scheme_rejected(toks: Seq<TokView>, a: int, b: int)
    requires
        0 <= a < toks.len(),
        0 <= b < toks.len(),
        is_numeric_arg(toks[a]),
        is_named_arg(toks[b]),
    ensures
        spec_scan_vars(toks) is None,
{
    lemma_scan_from_mixed(toks, 0, None, Seq::empty());
}

} // verus!
