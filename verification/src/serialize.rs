//! The canonical serializer: renders a token sequence as a single string
//! with deterministic minimal whitespace.

use vstd::prelude::*;
use crate::tokens::{Token, TokView, Kind, spec_is_operator, is_operator};

verus! {

/// Whether one space is inserted before token `t`: only when a space is
/// owed by the previously emitted token, `t` is not an operator, and `t`
/// is not a parameter reference.
pub open spec fn spec_space_before(needs_space: bool, t: TokView) -> bool {
    needs_space && !spec_is_operator(t.kind) && t.kind != Kind::Argument
}

/// The canonical rendering of the tokens from index `i` on, given whether
/// the previously emitted token leaves a space owed.
pub open spec fn spec_serialize_from(toks: Seq<TokView>, i: int, needs_space: bool) -> Seq<char>
    decreases toks.len() - i,
    when 0 <= i <= toks.len()
{
    if i >= toks.len() {
        Seq::empty()
    } else {
        let t = toks[i];
        let sep: Seq<char> = if spec_space_before(needs_space, t) {
            seq![' ']
        } else {
            Seq::empty()
        };
        sep + t.value + spec_serialize_from(toks, i + 1, !spec_is_operator(t.kind))
    }
}

/// The canonical serialization of a token sequence.
pub open spec fn spec_serialize(toks: Seq<TokView>) -> Seq<char> {
    spec_serialize_from(toks, 0, false)
}

/// Whether a serialized sequence leaves a space owed to what follows it:
/// it is non-empty and its last token is not an operator.
pub open spec fn spec_needs_space_after(toks: Seq<TokView>, initial: bool) -> bool {
    if toks.len() == 0 {
        initial
    } else {
        !spec_is_operator(toks.last().kind)
    }
}

proof fn lemma_serialize_from_snoc(toks: Seq<TokView>, t: TokView, i: int, needs_space: bool)
    requires
        0 <= i <= toks.len(),
    ensures
        spec_serialize_from(toks.push(t), i, needs_space) == spec_serialize_from(
            toks,
            i,
            needs_space,
        ) + (if spec_space_before(spec_needs_space_after(toks.subrange(i, toks.len() as int), needs_space), t) {
            seq![' ']
        } else {
            Seq::<char>::empty()
        }) + t.value,
    decreases toks.len() - i,
{
    let ext = toks.push(t);
    if i == toks.len() {
        assert(ext[i as int] == t);
        assert(spec_serialize_from(ext, i + 1, !spec_is_operator(t.kind)) =~= Seq::<char>::empty());
        assert(spec_serialize_from(toks, i, needs_space) =~= Seq::<char>::empty());
        assert(toks.subrange(i, toks.len() as int) =~= Seq::<TokView>::empty());
        assert(spec_serialize_from(ext, i, needs_space) =~= (if spec_space_before(
            needs_space,
            t,
        ) {
            seq![' ']
        } else {
            Seq::<char>::empty()
        }) + t.value);
    } else {
        assert(ext[i as int] == toks[i as int]);
        lemma_serialize_from_snoc(toks, t, i + 1, !spec_is_operator(toks[i as int].kind));
        let tail = toks.subrange(i, toks.len() as int);
        let tail1 = toks.subrange(i + 1, toks.len() as int);
        assert(tail.last() == toks.last());
        assert(spec_needs_space_after(tail1, !spec_is_operator(toks[i as int].kind))
            == spec_needs_space_after(tail, needs_space)) by {
            if i + 1 == toks.len() {
                assert(tail.len() == 1);
                assert(tail[0] == toks[i as int]);
            }
        };
        assert(spec_serialize_from(ext, i, needs_space) =~= spec_serialize_from(toks, i, needs_space)
            + (if spec_space_before(spec_needs_space_after(tail, needs_space), t) {
            seq![' ']
        } else {
            Seq::<char>::empty()
        }) + t.value);
    }
}

/// Canonical spacing, stated for one appended token: serializing a sequence
/// extended by `t` appends exactly `t`'s text, preceded by exactly one
/// space when the sequence ends in a non-operator token and `t` is itself
/// a non-operator token other than a parameter reference — so two adjacent
/// non-operator tokens never fuse, and no space is ever inserted next to
/// an operator or before a parameter reference.
pub proof fn lemma_serialize_snoc(toks: Seq<TokView>, t: TokView)
    ensures
        spec_serialize(toks.push(t)) == spec_serialize(toks) + (if spec_space_before(
            spec_needs_space_after(toks, false),
            t,
        ) {
            seq![' ']
        } else {
            Seq::<char>::empty()
        }) + t.value,
{
    lemma_serialize_from_snoc(toks, t, 0, false);
    assert(toks.subrange(0, toks.len() as int) =~= toks);
}

/// Renders a token sequence as the canonical key string: token texts in
/// order, one space between adjacent non-operator tokens, none elsewhere
/// and none before parameter references.
pub fn serialize_tokens(tokens: &Vec<Token>) -> (r: String)
    ensures
        r@ == spec_serialize(tokens.deep_view()),
{
    let ghost toks = tokens.deep_view();
    let mut buf = String::new();
    let mut needs_space = false;
    let mut i: usize = 0;
    proof {
        assert(toks.len() == tokens@.len());
        assert(buf@ + spec_serialize_from(toks, 0, false) =~= spec_serialize_from(toks, 0, false));
    }
    while i < tokens.len()
        invariant
            toks == tokens.deep_view(),
            toks.len() == tokens@.len(),
            i <= tokens.len(),
            spec_serialize(toks) == buf@ + spec_serialize_from(toks, i as int, needs_space),
        decreases tokens.len() - i,
    {
        let t = &tokens[i];
        proof {
            assert(toks[i as int] == tokens@[i as int]@);
        }
        let ghost buf0 = buf@;
        let ghost sep: Seq<char> = if spec_space_before(needs_space, toks[i as int]) {
            seq![' ']
        } else {
            Seq::empty()
        };
        if needs_space && !is_operator(t) && !(matches!(t.kind, Kind::Argument)) {
            buf.append(" ");
            proof {
                reveal_strlit(" ");
                assert(" "@ =~= seq![' ']);
                assert(buf@ =~= buf0 + sep);
            }
        } else {
            proof {
                assert(buf@ =~= buf0 + sep);
            }
        }
        buf.append(t.value.as_str());
        proof {
            assert(buf@ + spec_serialize_from(toks, i + 1, !spec_is_operator(toks[i as int].kind))
                =~= buf0 + spec_serialize_from(toks, i as int, needs_space));
        }
        needs_space = !is_operator(t);
        i += 1;
    }
    proof {
        assert(buf@ + spec_serialize_from(toks, toks.len() as int, needs_space) =~= buf@);
    }
    buf
}

} // verus!
