//! Normalization: classifies each token, extracts literal constants into
//! deduplicated, type-annotated parameters, and serializes the rewritten
//! sequence into the canonical cache key.

use vstd::prelude::*;
use crate::tokens::{Token, TokView, Kind, Pos};
use crate::text::{
    str_eq, upper_eq, upper_seq, spec_strip, strip_separators, spec_parse_dec, parse_dec_bounded,
    spec_dec_str, dec_string_u128, spec_exponent_ok, exponent_ok,
};
use crate::values::{Value, ValueModel, Variable, spec_find_first, find_var};
use crate::scan::{scan_vars, spec_scan_vars};
use crate::serialize::{serialize_tokens, spec_serialize};
use crate::quoting::{unquote_string, spec_unquote};
use crate::outside::{
    parse_float_bits, parse_bigint_digits, bigint_digits_of, parse_decimal_repr, decimal_repr_of,
};

verus! {

/// A failed normalization, with a message and the source position it
/// concerns. `Tokenizer` failures are rooted in the input text (a literal
/// that does not parse, is out of range, or does not unquote); an
/// `Assertion` failure signals a broken contract between the lexer and
/// this library (a token classified as an arbitrary-precision integer
/// whose text is not integral) and should never arise from a correct
/// lexer.
#[derive(Debug, Clone, PartialEq, Eq)]
pub enum Error {
    Tokenizer(String, Pos),
    Assertion(String, Pos),
}

/// The mathematical model of an [`Error`].
pub enum ErrorModel {
    Tokenizer(Seq<char>, Pos),
    Assertion(Seq<char>, Pos),
}

impl View for Error {
    type V = ErrorModel;

    open spec fn view(&self) -> ErrorModel {
        match self {
            Error::Tokenizer(m, p) => ErrorModel::Tokenizer(m@, *p),
            Error::Assertion(m, p) => ErrorModel::Assertion(m@, *p),
        }
    }
}

/// The result of normalization: the canonical cache key, the (possibly
/// rewritten) token sequence, the extracted variables in order of first
/// occurrence, the position just past the last token, and the argument
/// scheme — whether parameters are named, and at which index synthesized
/// parameters start (absent when none were synthesized).
#[derive(Debug, Clone, PartialEq, Eq)]
pub struct Entry {
    pub key: String,
    pub tokens: Vec<Token>,
    pub variables: Vec<Variable>,
    pub end_pos: Pos,
    pub named_args: bool,
    pub first_arg: Option<usize>,
}

/// The mathematical model of an [`Entry`].
pub struct EntryModel {
    pub key: Seq<char>,
    pub tokens: Seq<TokView>,
    pub variables: Seq<ValueModel>,
    pub end_pos: Pos,
    pub named_args: bool,
    pub first_arg: Option<usize>,
}

impl View for Entry {
    type V = EntryModel;

    open spec fn view(&self) -> EntryModel {
        EntryModel {
            key: self.key@,
            tokens: self.tokens.deep_view(),
            variables: self.variables.deep_view(),
            end_pos: self.end_pos,
            named_args: self.named_args,
            first_arg: self.first_arg,
        }
    }
}

/// Whether a keyword's text names one of the administrative statement
/// categories that are never parameterized: CONFIGURE, CREATE, ALTER,
/// DROP or START, case-insensitively.
pub open spec fn spec_is_admin(v: Seq<char>) -> bool {
    ||| upper_seq(v) == "CONFIGURE"@
    ||| upper_seq(v) == "CREATE"@
    ||| upper_seq(v) == "ALTER"@
    ||| upper_seq(v) == "DROP"@
    ||| upper_seq(v) == "START"@
}

/// Whether a keyword's text names an administrative statement category.
pub fn is_admin_keyword(s: &str) -> (r: bool)
    ensures
        r == spec_is_admin(s@),
{
    upper_eq(s, "CONFIGURE") || upper_eq(s, "CREATE") || upper_eq(s, "ALTER") || upper_eq(s, "DROP")
        || upper_eq(s, "START")
}

/// The name synthesized for the parameter at overall index `n`:
/// `$n` under the positional scheme, `$__edb_arg_n` under the named one.
pub open spec fn spec_var_name(named: bool, n: nat) -> Seq<char> {
    (if named {
        "$__edb_arg_"@
    } else {
        "$"@
    }) + spec_dec_str(n)
}

/// Synthesizes the name of the parameter at overall index `n`.
pub fn make_var_name(named: bool, n: u128) -> (r: String)
    ensures
        r@ == spec_var_name(named, n as nat),
{
    let mut buf = if named {
        "$__edb_arg_".to_owned()
    } else {
        "$".to_owned()
    };
    let digits = dec_string_u128(n);
    buf.append(digits.as_str());
    buf
}

/// The six tokens that replace one extracted literal: an explicitly typed
/// parameter reference `(<type>$name)`, every token tagged with the
/// literal's original span.
pub open spec fn spec_param_tokens(ty: Seq<char>, name: Seq<char>, start: Pos, end: Pos) -> Seq<
    TokView,
> {
    seq![
        TokView { kind: Kind::OpenParen, value: "("@, start, end },
        TokView { kind: Kind::Less, value: "<"@, start, end },
        TokView { kind: Kind::Ident, value: ty, start, end },
        TokView { kind: Kind::Greater, value: ">"@, start, end },
        TokView { kind: Kind::Argument, value: name, start, end },
        TokView { kind: Kind::CloseParen, value: ")"@, start, end },
    ]
}

/// Appends the six-token typed parameter reference that stands in for one
/// extracted literal.
pub fn push_var(res: &mut Vec<Token>, typ: &str, var: String, start: Pos, end: Pos)
    ensures
        final(res).deep_view() == old(res).deep_view() + spec_param_tokens(typ@, var@, start, end),
{
    res.push(Token { kind: Kind::OpenParen, value: "(".to_owned(), start, end });
    res.push(Token { kind: Kind::Less, value: "<".to_owned(), start, end });
    res.push(Token { kind: Kind::Ident, value: typ.to_owned(), start, end });
    res.push(Token { kind: Kind::Greater, value: ">".to_owned(), start, end });
    res.push(Token { kind: Kind::Argument, value: var, start, end });
    res.push(Token { kind: Kind::CloseParen, value: ")".to_owned(), start, end });
    proof {
        assert(res.deep_view() =~= old(res).deep_view() + spec_param_tokens(
            typ@,
            var@,
            start,
            end,
        ));
    }
}

/// Whether an integer literal is left untouched: it directly follows a
/// member-access dot (tuple access), it is the literal `1` directly after
/// a `LIMIT` keyword, or it is the magnitude of the minimum 64-bit signed
/// integer, which only parses as one unit with a preceding unary minus.
pub open spec fn spec_int_excluded(t: TokView, rewritten: Seq<TokView>) -> bool {
    ||| (rewritten.len() > 0 && rewritten.last().kind == Kind::Dot)
    ||| (t.value == "1"@ && rewritten.len() > 0 && rewritten.last().kind == Kind::Keyword
        && upper_seq(rewritten.last().value) == "LIMIT"@)
    ||| t.value == "9223372036854775808"@
}

/// One extraction step: the rewritten tokens and variables after replacing
/// literal token `t` (parsed to value `v`, of canonical type name `ty`) by
/// a typed parameter reference, reusing the variable of an equal earlier
/// value or else recording a new one.
pub open spec fn spec_step_extract(
    t: TokView,
    ty: Seq<char>,
    v: ValueModel,
    named: bool,
    idx: usize,
    rewritten: Seq<TokView>,
    vars: Seq<ValueModel>,
) -> (Seq<TokView>, Seq<ValueModel>) {
    match spec_find_first(vars, v, 0) {
        Some(j) => (
            rewritten + spec_param_tokens(
                ty,
                spec_var_name(named, idx as nat + j as nat),
                t.start,
                t.end,
            ),
            vars,
        ),
        None => (
            rewritten + spec_param_tokens(
                ty,
                spec_var_name(named, idx as nat + vars.len()),
                t.start,
                t.end,
            ),
            vars.push(v),
        ),
    }
}

/// What extraction comes to: a rewritten sequence with its variables, an
/// abandonment (an administrative statement was seen), or a failure.
pub enum NormOutcome {
    Done(Seq<TokView>, Seq<ValueModel>),
    Aborted,
    Failed(ErrorModel),
}

/// The literal's cleaned text: digit-group separators removed, and for the
/// arbitrary-precision kinds the trailing type-suffix character removed
/// first.
pub open spec fn spec_suffix_free(v: Seq<char>) -> Seq<char> {
    if v.len() > 0 {
        v.subrange(0, v.len() - 1)
    } else {
        v
    }
}

/// One outcome of processing a single token: carry on with a new state,
/// abandon extraction, or fail.
pub enum StepResult {
    Continue(Seq<TokView>, Seq<ValueModel>),
    Abort,
    Fail(ErrorModel),
}

/// The effect of one token on the extractor's state. `conv` is what the
/// double-precision conversion returns for this token's cleaned text; it is
/// read only where the token is a float literal, since that conversion's
/// precision is machine-dependent while everything else here is an exact
/// function of the token.
pub open spec fn spec_step(
    t: TokView,
    conv: Option<u64>,
    named: bool,
    idx: usize,
    rewritten: Seq<TokView>,
    vars: Seq<ValueModel>,
) -> StepResult {
    if t.kind == Kind::IntConst && !spec_int_excluded(t, rewritten) {
        match spec_parse_dec(spec_strip(t.value), i64::MAX as u64) {
            Some(n) => {
                let (rw, vs) = spec_step_extract(
                    t,
                    "__std__::int64"@,
                    ValueModel::Int(n as i64),
                    named,
                    idx,
                    rewritten,
                    vars,
                );
                StepResult::Continue(rw, vs)
            },
            None => StepResult::Fail(ErrorModel::Tokenizer("can't parse integer"@, t.start)),
        }
    } else if t.kind == Kind::FloatConst {
        if !spec_exponent_ok(spec_strip(t.value)) {
            StepResult::Fail(
                ErrorModel::Tokenizer("number is out of range for std::float64"@, t.start),
            )
        } else {
            match conv {
                Some(bits) => if bits == 0x7FF0000000000000u64 || bits == 0xFFF0000000000000u64 {
                    StepResult::Fail(
                        ErrorModel::Tokenizer("number is out of range for std::float64"@, t.start),
                    )
                } else {
                    let (rw, vs) = spec_step_extract(
                        t,
                        "__std__::float64"@,
                        ValueModel::Float(bits),
                        named,
                        idx,
                        rewritten,
                        vars,
                    );
                    StepResult::Continue(rw, vs)
                },
                None => StepResult::Fail(
                    ErrorModel::Tokenizer("can't parse std::float64"@, t.start),
                ),
            }
        }
    } else if t.kind == Kind::BigIntConst {
        if !spec_exponent_ok(spec_strip(spec_suffix_free(t.value))) {
            StepResult::Fail(ErrorModel::Tokenizer("can't parse bigint"@, t.start))
        } else {
            match bigint_digits_of(spec_strip(spec_suffix_free(t.value))) {
                None => StepResult::Fail(ErrorModel::Tokenizer("can't parse bigint"@, t.start)),
                Some(None) => StepResult::Fail(
                    ErrorModel::Assertion("number is not integer"@, t.start),
                ),
                Some(Some(digits)) => {
                    let (rw, vs) = spec_step_extract(
                        t,
                        "__std__::bigint"@,
                        ValueModel::BigInt(digits),
                        named,
                        idx,
                        rewritten,
                        vars,
                    );
                    StepResult::Continue(rw, vs)
                },
            }
        }
    } else if t.kind == Kind::DecimalConst {
        if !spec_exponent_ok(spec_strip(spec_suffix_free(t.value))) {
            StepResult::Fail(ErrorModel::Tokenizer("can't parse decimal"@, t.start))
        } else {
            match decimal_repr_of(spec_strip(spec_suffix_free(t.value))) {
                None => StepResult::Fail(ErrorModel::Tokenizer("can't parse decimal"@, t.start)),
                Some(repr) => {
                    let (rw, vs) = spec_step_extract(
                        t,
                        "__std__::decimal"@,
                        ValueModel::Decimal(repr),
                        named,
                        idx,
                        rewritten,
                        vars,
                    );
                    StepResult::Continue(rw, vs)
                },
            }
        }
    } else if t.kind == Kind::Str {
        match spec_unquote(t.value) {
            None => StepResult::Fail(ErrorModel::Tokenizer("can't unquote string"@, t.start)),
            Some(u) => {
                let (rw, vs) = spec_step_extract(
                    t,
                    "__std__::str"@,
                    ValueModel::Str(u),
                    named,
                    idx,
                    rewritten,
                    vars,
                );
                StepResult::Continue(rw, vs)
            },
        }
    } else if t.kind == Kind::Keyword && spec_is_admin(t.value) {
        StepResult::Abort
    } else {
        StepResult::Continue(rewritten.push(t), vars)
    }
}

/// The extractor's walk over the tokens from index `i` on, with the
/// rewritten tokens and recorded variables accumulated so far. `convs[i]`
/// is the double-precision conversion's outcome where token `i` is a float
/// literal, immaterial everywhere else.
pub open spec fn spec_extract_from(
    toks: Seq<TokView>,
    convs: Seq<Option<u64>>,
    i: int,
    named: bool,
    idx: usize,
    rewritten: Seq<TokView>,
    vars: Seq<ValueModel>,
) -> NormOutcome
    decreases toks.len() - i,
    when 0 <= i <= toks.len()
{
    if i >= toks.len() {
        NormOutcome::Done(rewritten, vars)
    } else {
        match spec_step(toks[i], convs[i], named, idx, rewritten, vars) {
            StepResult::Continue(rw, vs) => spec_extract_from(toks, convs, i + 1, named, idx, rw, vs),
            StepResult::Abort => NormOutcome::Aborted,
            StepResult::Fail(e) => NormOutcome::Failed(e),
        }
    }
}

/// The entry produced when extraction does not take place: the original
/// tokens serialized unchanged, no variables, positional scheme, no
/// starting index.
pub open spec fn spec_original_entry(toks: Seq<TokView>, end_pos: Pos) -> EntryModel {
    EntryModel {
        key: spec_serialize(toks),
        tokens: toks,
        variables: Seq::empty(),
        end_pos,
        named_args: false,
        first_arg: None,
    }
}

/// What normalization returns on a given token sequence, with `convs[i]`
/// the double-precision conversion's outcome for token `i`: the original
/// entry when the argument scheme is inconsistent or an administrative
/// statement is present, the rewritten entry otherwise, or the first
/// literal-parsing error in token order.
pub open spec fn spec_normalize(
    toks: Seq<TokView>,
    convs: Seq<Option<u64>>,
    end_pos: Pos,
) -> Result<EntryModel, ErrorModel> {
    match spec_scan_vars(toks) {
        None => Ok(spec_original_entry(toks, end_pos)),
        Some((named, idx)) => match spec_extract_from(
            toks,
            convs,
            0,
            named,
            idx,
            Seq::empty(),
            Seq::empty(),
        ) {
            NormOutcome::Done(rw, vars) => Ok(
                EntryModel {
                    key: spec_serialize(rw),
                    tokens: rw,
                    variables: vars,
                    end_pos,
                    named_args: named,
                    first_arg: if vars.len() == 0 {
                        None
                    } else {
                        Some(idx)
                    },
                },
            ),
            NormOutcome::Aborted => Ok(spec_original_entry(toks, end_pos)),
            NormOutcome::Failed(e) => Err(e),
        },
    }
}

/// The exec walk's summary after the first `i` tokens, whose conversion
/// outcomes are `convs`: however the remaining conversions come out, the
/// whole walk from the start reaches exactly this state at `i`.
pub open spec fn walk_inv(
    toks: Seq<TokView>,
    convs: Seq<Option<u64>>,
    i: int,
    named: bool,
    idx: usize,
    rewritten: Seq<TokView>,
    vars: Seq<ValueModel>,
) -> bool {
    forall|rest: Seq<Option<u64>>|
        rest.len() == toks.len() - i ==> spec_extract_from(
            toks,
            #[trigger] (convs + rest),
            i,
            named,
            idx,
            rewritten,
            vars,
        ) == spec_extract_from(
            toks,
            convs + rest,
            0,
            named,
            idx,
            Seq::<TokView>::empty(),
            Seq::<ValueModel>::empty(),
        )
}

proof fn lemma_walk_step(
    toks: Seq<TokView>,
    convs: Seq<Option<u64>>,
    i: int,
    named: bool,
    idx: usize,
    rw: Seq<TokView>,
    vars: Seq<ValueModel>,
    conv: Option<u64>,
    rw2: Seq<TokView>,
    vars2: Seq<ValueModel>,
)
    requires
        0 <= i < toks.len(),
        convs.len() == i,
        walk_inv(toks, convs, i, named, idx, rw, vars),
        spec_step(toks[i], conv, named, idx, rw, vars) == StepResult::Continue(rw2, vars2),
    ensures
        walk_inv(toks, convs.push(conv), i + 1, named, idx, rw2, vars2),
{
    let convs2 = convs.push(conv);
    assert forall|rest: Seq<Option<u64>>|
        rest.len() == toks.len() - (i + 1) implies spec_extract_from(
        toks,
        #[trigger] (convs2 + rest),
        i + 1,
        named,
        idx,
        rw2,
        vars2,
    ) == spec_extract_from(
        toks,
        convs2 + rest,
        0,
        named,
        idx,
        Seq::<TokView>::empty(),
        Seq::<ValueModel>::empty(),
    ) by {
        let old_rest = seq![conv] + rest;
        assert(old_rest.len() == toks.len() - i);
        assert(convs + old_rest =~= convs2 + rest);
        assert(spec_extract_from(toks, convs + old_rest, i, named, idx, rw, vars)
            == spec_extract_from(
            toks,
            convs + old_rest,
            0,
            named,
            idx,
            Seq::<TokView>::empty(),
            Seq::<ValueModel>::empty(),
        ));
        assert((convs2 + rest)[i] == conv);
        assert(spec_extract_from(toks, convs2 + rest, i, named, idx, rw, vars)
            == spec_extract_from(toks, convs2 + rest, i + 1, named, idx, rw2, vars2));
    };
}

proof fn lemma_walk_exit(
    toks: Seq<TokView>,
    convs: Seq<Option<u64>>,
    i: int,
    named: bool,
    idx: usize,
    rw: Seq<TokView>,
    vars: Seq<ValueModel>,
    conv: Option<u64>,
)
    requires
        0 <= i < toks.len(),
        convs.len() == i,
        walk_inv(toks, convs, i, named, idx, rw, vars),
    ensures
        ({
            let cw = convs.push(conv) + Seq::new((toks.len() - i - 1) as nat, |j: int| None::<u64>);
            &&& cw.len() == toks.len()
            &&& cw[i] == conv
            &&& spec_extract_from(toks, cw, i, named, idx, rw, vars) == spec_extract_from(
                toks,
                cw,
                0,
                named,
                idx,
                Seq::<TokView>::empty(),
                Seq::<ValueModel>::empty(),
            )
        }),
{
    let pad = Seq::new((toks.len() - i - 1) as nat, |j: int| None::<u64>);
    let rest = seq![conv] + pad;
    let cw = convs.push(conv) + pad;
    assert(rest.len() == toks.len() - i);
    assert(convs + rest =~= cw);
    assert(spec_extract_from(toks, convs + rest, i, named, idx, rw, vars) == spec_extract_from(
        toks,
        convs + rest,
        0,
        named,
        idx,
        Seq::<TokView>::empty(),
        Seq::<ValueModel>::empty(),
    ));
    assert(cw[i] == conv);
}

fn process(
    res: &mut Vec<Token>,
    variables: &mut Vec<Variable>,
    t: &Token,
    typ: &str,
    value: Value,
    named: bool,
    idx: usize,
)
    ensures
        (final(res).deep_view(), final(variables).deep_view()) == spec_step_extract(
            t@,
            typ@,
            value@,
            named,
            idx,
            old(res).deep_view(),
            old(variables).deep_view(),
        ),
{
    let ghost vars0 = variables.deep_view();
    let var_name = match find_var(variables, &value) {
        Some(j) => make_var_name(named, idx as u128 + j as u128),
        None => {
            let name = make_var_name(named, idx as u128 + variables.len() as u128);
            let ghost vlen = variables.deep_view().len();
            variables.push(Variable { value });
            proof {
                assert(variables.deep_view() =~= vars0.push(variables@[vlen as int].value@));
            }
            name
        },
    };
    push_var(res, typ, var_name, t.start, t.end);
}

/// Normalizes a tokenized query. The argument scheme is inferred from the
/// parameter references already present; every eligible literal is parsed,
/// deduplicated by exact value, and replaced by a typed reference to a
/// synthesized parameter; the rewritten sequence is serialized into the
/// cache key. On an inconsistent argument scheme, or on an administrative
/// statement, the original tokens are kept and no variables are produced.
/// A literal that cannot be parsed fails the whole call with the error and
/// the literal's position.
///
/// The double-precision conversion's precision is machine-dependent, so
/// the contract pins the result up to its outcomes and in nothing else:
/// the result equals `spec_normalize` under some sequence of conversion
/// outcomes, one per token. A query without float literals never reads
/// them, so its result is the exact function of its tokens.
pub fn normalize(tokens: Vec<Token>, end_pos: Pos) -> (r: Result<Entry, Error>)
    ensures
        exists|convs: Seq<Option<u64>>|
            #![trigger spec_normalize(tokens.deep_view(), convs, end_pos)]
            convs.len() == tokens.deep_view().len() && (match r {
                Ok(e) => Ok::<EntryModel, ErrorModel>(e@),
                Err(x) => Err::<EntryModel, ErrorModel>(x@),
            }) == spec_normalize(tokens.deep_view(), convs, end_pos),
{
    let ghost toks = tokens.deep_view();
    let (named_args, var_idx) = match scan_vars(&tokens) {
        Some(pair) => pair,
        None => {
            let key = serialize_tokens(&tokens);
            let entry = Entry {
                key,
                tokens,
                variables: Vec::new(),
                end_pos,
                named_args: false,
                first_arg: None,
            };
            proof {
                assert(entry@.variables =~= Seq::<ValueModel>::empty());
                assert(entry@ == spec_original_entry(toks, end_pos));
                let cw = Seq::new(toks.len(), |j: int| None::<u64>);
                assert(cw.len() == toks.len());
                assert(spec_normalize(toks, cw, end_pos) == Ok::<EntryModel, ErrorModel>(entry@));
            }
            return Ok(entry);
        },
    };
    let ghost mut convs_acc: Seq<Option<u64>> = Seq::<Option<u64>>::empty();
    let mut rewritten: Vec<Token> = Vec::new();
    let mut variables: Vec<Variable> = Vec::new();
    let mut i: usize = 0;
    proof {
        assert(rewritten.deep_view() =~= Seq::<TokView>::empty());
        assert(variables.deep_view() =~= Seq::<ValueModel>::empty());
        assert(walk_inv(
            toks,
            convs_acc,
            0,
            named_args,
            var_idx,
            rewritten.deep_view(),
            variables.deep_view(),
        )) by {
            assert forall|rest: Seq<Option<u64>>|
                rest.len() == toks.len() - 0 implies spec_extract_from(
                toks,
                #[trigger] (convs_acc + rest),
                0,
                named_args,
                var_idx,
                rewritten.deep_view(),
                variables.deep_view(),
            ) == spec_extract_from(
                toks,
                convs_acc + rest,
                0,
                named_args,
                var_idx,
                Seq::<TokView>::empty(),
                Seq::<ValueModel>::empty(),
            ) by {
                assert(rewritten.deep_view() =~= Seq::<TokView>::empty());
                assert(variables.deep_view() =~= Seq::<ValueModel>::empty());
            }
        }
    }
    while i < tokens.len()
        invariant
            toks == tokens.deep_view(),
            toks.len() == tokens@.len(),
            i <= tokens.len(),
            spec_scan_vars(toks) == Some((named_args, var_idx)),
            convs_acc.len() == i as nat,
            walk_inv(
                toks,
                convs_acc,
                i as int,
                named_args,
                var_idx,
                rewritten.deep_view(),
                variables.deep_view(),
            ),
        decreases tokens.len() - i,
    {
        let t = &tokens[i];
        proof {
            assert(toks[i as int] == tokens@[i as int]@);
        }
        let ghost rw0 = rewritten.deep_view();
        let ghost vs0 = variables.deep_view();
        match t.kind {
            Kind::IntConst => {
                let mut excluded = str_eq(t.value.as_str(), "9223372036854775808");
                if !excluded && rewritten.len() > 0 {
                    let prev = &rewritten[rewritten.len() - 1];
                    proof {
                        assert(rw0.last() == rewritten@[rewritten@.len() - 1]@);
                    }
                    if matches!(prev.kind, Kind::Dot) {
                        excluded = true;
                    } else if matches!(prev.kind, Kind::Keyword) && str_eq(t.value.as_str(), "1")
                        && upper_eq(prev.value.as_str(), "LIMIT") {
                        excluded = true;
                    }
                }
                proof {
                    assert(excluded == spec_int_excluded(toks[i as int], rw0));
                }
                if excluded {
                    let copy = Token {
                        kind: t.kind,
                        value: t.value.clone(),
                        start: t.start,
                        end: t.end,
                    };
                    rewritten.push(copy);
                    proof {
                        assert(rewritten.deep_view() =~= rw0.push(toks[i as int]));
                    }
                proof {
                    assert(spec_step(toks[i as int], None::<u64>, named_args, var_idx, rw0, vs0)
                        == StepResult::Continue(rewritten.deep_view(), variables.deep_view()));
                    lemma_walk_step(
                        toks,
                        convs_acc,
                        i as int,
                        named_args,
                        var_idx,
                        rw0,
                        vs0,
                        None::<u64>,
                        rewritten.deep_view(),
                        variables.deep_view(),
                    );
                    convs_acc = convs_acc.push(None::<u64>);
                }
                } else {
                    let cleaned = strip_separators(t.value.as_str());
                    match parse_dec_bounded(cleaned.as_str(), 9223372036854775807u64) {
                        Some(n) => {
                            process(
                                &mut rewritten,
                                &mut variables,
                                t,
                                "__std__::int64",
                                Value::Int(n as i64),
                                named_args,
                                var_idx,
                            );
                proof {
                    assert(spec_step(toks[i as int], None::<u64>, named_args, var_idx, rw0, vs0)
                        == StepResult::Continue(rewritten.deep_view(), variables.deep_view()));
                    lemma_walk_step(
                        toks,
                        convs_acc,
                        i as int,
                        named_args,
                        var_idx,
                        rw0,
                        vs0,
                        None::<u64>,
                        rewritten.deep_view(),
                        variables.deep_view(),
                    );
                    convs_acc = convs_acc.push(None::<u64>);
                }
                        },
                        None => {
                            proof {
                                assert(spec_step(toks[i as int], None::<u64>, named_args, var_idx, rw0, vs0)
                                    == StepResult::Fail(ErrorModel::Tokenizer("can't parse integer"@, toks[i as int].start)));
                                lemma_walk_exit(
                                    toks,
                                    convs_acc,
                                    i as int,
                                    named_args,
                                    var_idx,
                                    rw0,
                                    vs0,
                                    None::<u64>,
                                );
                                let cw = convs_acc.push(None::<u64>) + Seq::new(
                                    (toks.len() - i as int - 1) as nat,
                                    |j: int| None::<u64>,
                                );
                                assert(spec_extract_from(toks, cw, i as int, named_args, var_idx, rw0, vs0)
                                    == NormOutcome::Failed(ErrorModel::Tokenizer("can't parse integer"@, toks[i as int].start)));
                                assert(spec_normalize(toks, cw, end_pos) == Err::<EntryModel, ErrorModel>(ErrorModel::Tokenizer("can't parse integer"@, toks[i as int].start)));
                            }
                            return Err(
                                Error::Tokenizer("can't parse integer".to_owned(), t.start),
                            );
                        },
                    }
                }
            },
            Kind::FloatConst => {
                let cleaned = strip_separators(t.value.as_str());
                if !exponent_ok(cleaned.as_str()) {
                    proof {
                                assert(spec_step(toks[i as int], None::<u64>, named_args, var_idx, rw0, vs0)
                                    == StepResult::Fail(ErrorModel::Tokenizer("number is out of range for std::float64"@, toks[i as int].start)));
                                lemma_walk_exit(
                                    toks,
                                    convs_acc,
                                    i as int,
                                    named_args,
                                    var_idx,
                                    rw0,
                                    vs0,
                                    None::<u64>,
                                );
                                let cw = convs_acc.push(None::<u64>) + Seq::new(
                                    (toks.len() - i as int - 1) as nat,
                                    |j: int| None::<u64>,
                                );
                                assert(spec_extract_from(toks, cw, i as int, named_args, var_idx, rw0, vs0)
                                    == NormOutcome::Failed(ErrorModel::Tokenizer("number is out of range for std::float64"@, toks[i as int].start)));
                                assert(spec_normalize(toks, cw, end_pos) == Err::<EntryModel, ErrorModel>(ErrorModel::Tokenizer("number is out of range for std::float64"@, toks[i as int].start)));
                            }
                            return Err(
                        Error::Tokenizer(
                            "number is out of range for std::float64".to_owned(),
                            t.start,
                        ),
                    );
                }
                match parse_float_bits(cleaned.as_str()) {
                    Some(bits) => {
                        if bits == 0x7FF0000000000000u64 || bits == 0xFFF0000000000000u64 {
                            proof {
                                assert(spec_step(toks[i as int], Some(bits), named_args, var_idx, rw0, vs0)
                                    == StepResult::Fail(ErrorModel::Tokenizer("number is out of range for std::float64"@, toks[i as int].start)));
                                lemma_walk_exit(
                                    toks,
                                    convs_acc,
                                    i as int,
                                    named_args,
                                    var_idx,
                                    rw0,
                                    vs0,
                                    Some(bits),
                                );
                                let cw = convs_acc.push(Some(bits)) + Seq::new(
                                    (toks.len() - i as int - 1) as nat,
                                    |j: int| None::<u64>,
                                );
                                assert(spec_extract_from(toks, cw, i as int, named_args, var_idx, rw0, vs0)
                                    == NormOutcome::Failed(ErrorModel::Tokenizer("number is out of range for std::float64"@, toks[i as int].start)));
                                assert(spec_normalize(toks, cw, end_pos) == Err::<EntryModel, ErrorModel>(ErrorModel::Tokenizer("number is out of range for std::float64"@, toks[i as int].start)));
                            }
                            return Err(
                                Error::Tokenizer(
                                    "number is out of range for std::float64".to_owned(),
                                    t.start,
                                ),
                            );
                        }
                        process(
                            &mut rewritten,
                            &mut variables,
                            t,
                            "__std__::float64",
                            Value::Float(crate::values::FloatWrapper(bits)),
                            named_args,
                            var_idx,
                        );
                proof {
                    assert(spec_step(toks[i as int], Some(bits), named_args, var_idx, rw0, vs0)
                        == StepResult::Continue(rewritten.deep_view(), variables.deep_view()));
                    lemma_walk_step(
                        toks,
                        convs_acc,
                        i as int,
                        named_args,
                        var_idx,
                        rw0,
                        vs0,
                        Some(bits),
                        rewritten.deep_view(),
                        variables.deep_view(),
                    );
                    convs_acc = convs_acc.push(Some(bits));
                }
                    },
                    None => {
                        proof {
                                assert(spec_step(toks[i as int], None::<u64>, named_args, var_idx, rw0, vs0)
                                    == StepResult::Fail(ErrorModel::Tokenizer("can't parse std::float64"@, toks[i as int].start)));
                                lemma_walk_exit(
                                    toks,
                                    convs_acc,
                                    i as int,
                                    named_args,
                                    var_idx,
                                    rw0,
                                    vs0,
                                    None::<u64>,
                                );
                                let cw = convs_acc.push(None::<u64>) + Seq::new(
                                    (toks.len() - i as int - 1) as nat,
                                    |j: int| None::<u64>,
                                );
                                assert(spec_extract_from(toks, cw, i as int, named_args, var_idx, rw0, vs0)
                                    == NormOutcome::Failed(ErrorModel::Tokenizer("can't parse std::float64"@, toks[i as int].start)));
                                assert(spec_normalize(toks, cw, end_pos) == Err::<EntryModel, ErrorModel>(ErrorModel::Tokenizer("can't parse std::float64"@, toks[i as int].start)));
                            }
                            return Err(
                            Error::Tokenizer("can't parse std::float64".to_owned(), t.start),
                        );
                    },
                }
            },
            Kind::BigIntConst => {
                let vlen = t.value.as_str().unicode_len();
                let body = if vlen > 0 {
                    t.value.as_str().substring_char(0, vlen - 1)
                } else {
                    t.value.as_str()
                };
                proof {
                    assert(body@ =~= spec_suffix_free(toks[i as int].value));
                }
                let cleaned = strip_separators(body);
                if !exponent_ok(cleaned.as_str()) {
                    proof {
                                assert(spec_step(toks[i as int], None::<u64>, named_args, var_idx, rw0, vs0)
                                    == StepResult::Fail(ErrorModel::Tokenizer("can't parse bigint"@, toks[i as int].start)));
                                lemma_walk_exit(
                                    toks,
                                    convs_acc,
                                    i as int,
                                    named_args,
                                    var_idx,
                                    rw0,
                                    vs0,
                                    None::<u64>,
                                );
                                let cw = convs_acc.push(None::<u64>) + Seq::new(
                                    (toks.len() - i as int - 1) as nat,
                                    |j: int| None::<u64>,
                                );
                                assert(spec_extract_from(toks, cw, i as int, named_args, var_idx, rw0, vs0)
                                    == NormOutcome::Failed(ErrorModel::Tokenizer("can't parse bigint"@, toks[i as int].start)));
                                assert(spec_normalize(toks, cw, end_pos) == Err::<EntryModel, ErrorModel>(ErrorModel::Tokenizer("can't parse bigint"@, toks[i as int].start)));
                            }
                            return Err(Error::Tokenizer("can't parse bigint".to_owned(), t.start));
                }
                match parse_bigint_digits(cleaned.as_str()) {
                    None => {
                        proof {
                                assert(spec_step(toks[i as int], None::<u64>, named_args, var_idx, rw0, vs0)
                                    == StepResult::Fail(ErrorModel::Tokenizer("can't parse bigint"@, toks[i as int].start)));
                                lemma_walk_exit(
                                    toks,
                                    convs_acc,
                                    i as int,
                                    named_args,
                                    var_idx,
                                    rw0,
                                    vs0,
                                    None::<u64>,
                                );
                                let cw = convs_acc.push(None::<u64>) + Seq::new(
                                    (toks.len() - i as int - 1) as nat,
                                    |j: int| None::<u64>,
                                );
                                assert(spec_extract_from(toks, cw, i as int, named_args, var_idx, rw0, vs0)
                                    == NormOutcome::Failed(ErrorModel::Tokenizer("can't parse bigint"@, toks[i as int].start)));
                                assert(spec_normalize(toks, cw, end_pos) == Err::<EntryModel, ErrorModel>(ErrorModel::Tokenizer("can't parse bigint"@, toks[i as int].start)));
                            }
                            return Err(Error::Tokenizer("can't parse bigint".to_owned(), t.start));
                    },
                    Some(None) => {
                        proof {
                                assert(spec_step(toks[i as int], None::<u64>, named_args, var_idx, rw0, vs0)
                                    == StepResult::Fail(ErrorModel::Assertion("number is not integer"@, toks[i as int].start)));
                                lemma_walk_exit(
                                    toks,
                                    convs_acc,
                                    i as int,
                                    named_args,
                                    var_idx,
                                    rw0,
                                    vs0,
                                    None::<u64>,
                                );
                                let cw = convs_acc.push(None::<u64>) + Seq::new(
                                    (toks.len() - i as int - 1) as nat,
                                    |j: int| None::<u64>,
                                );
                                assert(spec_extract_from(toks, cw, i as int, named_args, var_idx, rw0, vs0)
                                    == NormOutcome::Failed(ErrorModel::Assertion("number is not integer"@, toks[i as int].start)));
                                assert(spec_normalize(toks, cw, end_pos) == Err::<EntryModel, ErrorModel>(ErrorModel::Assertion("number is not integer"@, toks[i as int].start)));
                            }
                            return Err(Error::Assertion("number is not integer".to_owned(), t.start));
                    },
                    Some(Some(digits)) => {
                        process(
                            &mut rewritten,
                            &mut variables,
                            t,
                            "__std__::bigint",
                            Value::BigInt(digits),
                            named_args,
                            var_idx,
                        );
                proof {
                    assert(spec_step(toks[i as int], None::<u64>, named_args, var_idx, rw0, vs0)
                        == StepResult::Continue(rewritten.deep_view(), variables.deep_view()));
                    lemma_walk_step(
                        toks,
                        convs_acc,
                        i as int,
                        named_args,
                        var_idx,
                        rw0,
                        vs0,
                        None::<u64>,
                        rewritten.deep_view(),
                        variables.deep_view(),
                    );
                    convs_acc = convs_acc.push(None::<u64>);
                }
                    },
                }
            },
            Kind::DecimalConst => {
                let vlen = t.value.as_str().unicode_len();
                let body = if vlen > 0 {
                    t.value.as_str().substring_char(0, vlen - 1)
                } else {
                    t.value.as_str()
                };
                proof {
                    assert(body@ =~= spec_suffix_free(toks[i as int].value));
                }
                let cleaned = strip_separators(body);
                if !exponent_ok(cleaned.as_str()) {
                    proof {
                                assert(spec_step(toks[i as int], None::<u64>, named_args, var_idx, rw0, vs0)
                                    == StepResult::Fail(ErrorModel::Tokenizer("can't parse decimal"@, toks[i as int].start)));
                                lemma_walk_exit(
                                    toks,
                                    convs_acc,
                                    i as int,
                                    named_args,
                                    var_idx,
                                    rw0,
                                    vs0,
                                    None::<u64>,
                                );
                                let cw = convs_acc.push(None::<u64>) + Seq::new(
                                    (toks.len() - i as int - 1) as nat,
                                    |j: int| None::<u64>,
                                );
                                assert(spec_extract_from(toks, cw, i as int, named_args, var_idx, rw0, vs0)
                                    == NormOutcome::Failed(ErrorModel::Tokenizer("can't parse decimal"@, toks[i as int].start)));
                                assert(spec_normalize(toks, cw, end_pos) == Err::<EntryModel, ErrorModel>(ErrorModel::Tokenizer("can't parse decimal"@, toks[i as int].start)));
                            }
                            return Err(Error::Tokenizer("can't parse decimal".to_owned(), t.start));
                }
                match parse_decimal_repr(cleaned.as_str()) {
                    None => {
                        proof {
                                assert(spec_step(toks[i as int], None::<u64>, named_args, var_idx, rw0, vs0)
                                    == StepResult::Fail(ErrorModel::Tokenizer("can't parse decimal"@, toks[i as int].start)));
                                lemma_walk_exit(
                                    toks,
                                    convs_acc,
                                    i as int,
                                    named_args,
                                    var_idx,
                                    rw0,
                                    vs0,
                                    None::<u64>,
                                );
                                let cw = convs_acc.push(None::<u64>) + Seq::new(
                                    (toks.len() - i as int - 1) as nat,
                                    |j: int| None::<u64>,
                                );
                                assert(spec_extract_from(toks, cw, i as int, named_args, var_idx, rw0, vs0)
                                    == NormOutcome::Failed(ErrorModel::Tokenizer("can't parse decimal"@, toks[i as int].start)));
                                assert(spec_normalize(toks, cw, end_pos) == Err::<EntryModel, ErrorModel>(ErrorModel::Tokenizer("can't parse decimal"@, toks[i as int].start)));
                            }
                            return Err(Error::Tokenizer("can't parse decimal".to_owned(), t.start));
                    },
                    Some(repr) => {
                        process(
                            &mut rewritten,
                            &mut variables,
                            t,
                            "__std__::decimal",
                            Value::Decimal(repr),
                            named_args,
                            var_idx,
                        );
                proof {
                    assert(spec_step(toks[i as int], None::<u64>, named_args, var_idx, rw0, vs0)
                        == StepResult::Continue(rewritten.deep_view(), variables.deep_view()));
                    lemma_walk_step(
                        toks,
                        convs_acc,
                        i as int,
                        named_args,
                        var_idx,
                        rw0,
                        vs0,
                        None::<u64>,
                        rewritten.deep_view(),
                        variables.deep_view(),
                    );
                    convs_acc = convs_acc.push(None::<u64>);
                }
                    },
                }
            },
            Kind::Str => {
                match unquote_string(t.value.as_str()) {
                    None => {
                        proof {
                                assert(spec_step(toks[i as int], None::<u64>, named_args, var_idx, rw0, vs0)
                                    == StepResult::Fail(ErrorModel::Tokenizer("can't unquote string"@, toks[i as int].start)));
                                lemma_walk_exit(
                                    toks,
                                    convs_acc,
                                    i as int,
                                    named_args,
                                    var_idx,
                                    rw0,
                                    vs0,
                                    None::<u64>,
                                );
                                let cw = convs_acc.push(None::<u64>) + Seq::new(
                                    (toks.len() - i as int - 1) as nat,
                                    |j: int| None::<u64>,
                                );
                                assert(spec_extract_from(toks, cw, i as int, named_args, var_idx, rw0, vs0)
                                    == NormOutcome::Failed(ErrorModel::Tokenizer("can't unquote string"@, toks[i as int].start)));
                                assert(spec_normalize(toks, cw, end_pos) == Err::<EntryModel, ErrorModel>(ErrorModel::Tokenizer("can't unquote string"@, toks[i as int].start)));
                            }
                            return Err(Error::Tokenizer("can't unquote string".to_owned(), t.start));
                    },
                    Some(u) => {
                        process(
                            &mut rewritten,
                            &mut variables,
                            t,
                            "__std__::str",
                            Value::Str(u),
                            named_args,
                            var_idx,
                        );
                proof {
                    assert(spec_step(toks[i as int], None::<u64>, named_args, var_idx, rw0, vs0)
                        == StepResult::Continue(rewritten.deep_view(), variables.deep_view()));
                    lemma_walk_step(
                        toks,
                        convs_acc,
                        i as int,
                        named_args,
                        var_idx,
                        rw0,
                        vs0,
                        None::<u64>,
                        rewritten.deep_view(),
                        variables.deep_view(),
                    );
                    convs_acc = convs_acc.push(None::<u64>);
                }
                    },
                }
            },
            Kind::Keyword => {
                if is_admin_keyword(t.value.as_str()) {
                    let ghost cw = convs_acc.push(None::<u64>) + Seq::new(
                        (toks.len() - i as int - 1) as nat,
                        |j: int| None::<u64>,
                    );
                    proof {
                        assert(spec_step(toks[i as int], None::<u64>, named_args, var_idx, rw0, vs0)
                            == StepResult::Abort);
                        lemma_walk_exit(
                            toks,
                            convs_acc,
                            i as int,
                            named_args,
                            var_idx,
                            rw0,
                            vs0,
                            None::<u64>,
                        );
                        assert(spec_extract_from(toks, cw, i as int, named_args, var_idx, rw0, vs0)
                            == NormOutcome::Aborted);
                    }
                    let key = serialize_tokens(&tokens);
                    let entry = Entry {
                        key,
                        tokens,
                        variables: Vec::new(),
                        end_pos,
                        named_args: false,
                        first_arg: None,
                    };
                    proof {
                        assert(entry@.variables =~= Seq::<ValueModel>::empty());
                        assert(entry@ == spec_original_entry(toks, end_pos));
                        assert(spec_normalize(toks, cw, end_pos) == Ok::<EntryModel, ErrorModel>(
                            entry@,
                        ));
                    }
                    return Ok(entry);
                }
                let copy = Token {
                    kind: t.kind,
                    value: t.value.clone(),
                    start: t.start,
                    end: t.end,
                };
                rewritten.push(copy);
                proof {
                    assert(rewritten.deep_view() =~= rw0.push(toks[i as int]));
                }
                proof {
                    assert(spec_step(toks[i as int], None::<u64>, named_args, var_idx, rw0, vs0)
                        == StepResult::Continue(rewritten.deep_view(), variables.deep_view()));
                    lemma_walk_step(
                        toks,
                        convs_acc,
                        i as int,
                        named_args,
                        var_idx,
                        rw0,
                        vs0,
                        None::<u64>,
                        rewritten.deep_view(),
                        variables.deep_view(),
                    );
                    convs_acc = convs_acc.push(None::<u64>);
                }
            },
            _ => {
                let copy = Token {
                    kind: t.kind,
                    value: t.value.clone(),
                    start: t.start,
                    end: t.end,
                };
                rewritten.push(copy);
                proof {
                    assert(rewritten.deep_view() =~= rw0.push(toks[i as int]));
                }
                proof {
                    assert(spec_step(toks[i as int], None::<u64>, named_args, var_idx, rw0, vs0)
                        == StepResult::Continue(rewritten.deep_view(), variables.deep_view()));
                    lemma_walk_step(
                        toks,
                        convs_acc,
                        i as int,
                        named_args,
                        var_idx,
                        rw0,
                        vs0,
                        None::<u64>,
                        rewritten.deep_view(),
                        variables.deep_view(),
                    );
                    convs_acc = convs_acc.push(None::<u64>);
                }
            },
        }
        i += 1;
    }
    proof {
        assert(convs_acc + Seq::<Option<u64>>::empty() =~= convs_acc);
        assert(spec_extract_from(
            toks,
            convs_acc + Seq::<Option<u64>>::empty(),
            i as int,
            named_args,
            var_idx,
            rewritten.deep_view(),
            variables.deep_view(),
        ) == spec_extract_from(
            toks,
            convs_acc + Seq::<Option<u64>>::empty(),
            0,
            named_args,
            var_idx,
            Seq::<TokView>::empty(),
            Seq::<ValueModel>::empty(),
        ));
        assert(spec_extract_from(
            toks,
            convs_acc,
            0,
            named_args,
            var_idx,
            Seq::<TokView>::empty(),
            Seq::<ValueModel>::empty(),
        ) == NormOutcome::Done(rewritten.deep_view(), variables.deep_view()));
    }
    let key = serialize_tokens(&rewritten);
    let first_arg = if variables.len() == 0 {
        None
    } else {
        Some(var_idx)
    };
    let entry = Entry { key, tokens: rewritten, variables, end_pos, named_args, first_arg };
    proof {
        assert(spec_normalize(toks, convs_acc, end_pos) == Ok::<EntryModel, ErrorModel>(entry@));
    }
    Ok(entry)
}

/// No two recorded variables hold the same value.
pub open spec fn no_dup_vals(vars: Seq<ValueModel>) -> bool {
    forall|j: int, k: int| 0 <= j < k < vars.len() ==> vars[j] != vars[k]
}

proof fn lemma_find_first_none(vars: Seq<ValueModel>, v: ValueModel, i: int)
    requires
        0 <= i <= vars.len(),
        spec_find_first(vars, v, i) is None,
    ensures
        forall|j: int| i <= j < vars.len() ==> vars[j] != v,
    decreases vars.len() - i,
{
    if i < vars.len() {
        lemma_find_first_none(vars, v, i + 1);
    }
}

proof fn lemma_extract_from_distinct(
    toks: Seq<TokView>,
    convs: Seq<Option<u64>>,
    i: int,
    named: bool,
    idx: usize,
    rewritten: Seq<TokView>,
    vars: Seq<ValueModel>,
)
    requires
        0 <= i <= toks.len(),
        no_dup_vals(vars),
    ensures
        (match spec_extract_from(toks, convs, i, named, idx, rewritten, vars) {
            NormOutcome::Done(_, vs) => no_dup_vals(vs),
            _ => true,
        }),
    decreases toks.len() - i,
{
    if i < toks.len() {
        let t = toks[i];
        if t.kind == Kind::IntConst && !spec_int_excluded(t, rewritten) {
            match spec_parse_dec(spec_strip(t.value), i64::MAX as u64) {
                Some(n) => {
                    lemma_step_distinct(t, "__std__::int64"@, ValueModel::Int(n as i64), named, idx, rewritten, vars);
                    let (rw, vs) = spec_step_extract(t, "__std__::int64"@, ValueModel::Int(n as i64), named, idx, rewritten, vars);
                    lemma_extract_from_distinct(toks, convs, i + 1, named, idx, rw, vs);
                },
                None => {},
            }
        } else if t.kind == Kind::FloatConst {
            if spec_exponent_ok(spec_strip(t.value)) {
                match convs[i] {
                    Some(bits) => {
                        if !(bits == 0x7FF0000000000000u64 || bits == 0xFFF0000000000000u64) {
                            lemma_step_distinct(t, "__std__::float64"@, ValueModel::Float(bits), named, idx, rewritten, vars);
                            let (rw, vs) = spec_step_extract(t, "__std__::float64"@, ValueModel::Float(bits), named, idx, rewritten, vars);
                            lemma_extract_from_distinct(toks, convs, i + 1, named, idx, rw, vs);
                        }
                    },
                    None => {},
                }
            }
        } else if t.kind == Kind::BigIntConst {
            if spec_exponent_ok(spec_strip(spec_suffix_free(t.value))) {
            match bigint_digits_of(spec_strip(spec_suffix_free(t.value))) {
                Some(Some(digits)) => {
                    lemma_step_distinct(t, "__std__::bigint"@, ValueModel::BigInt(digits), named, idx, rewritten, vars);
                    let (rw, vs) = spec_step_extract(t, "__std__::bigint"@, ValueModel::BigInt(digits), named, idx, rewritten, vars);
                    lemma_extract_from_distinct(toks, convs, i + 1, named, idx, rw, vs);
                },
                _ => {},
            }
            }
        } else if t.kind == Kind::DecimalConst {
            if spec_exponent_ok(spec_strip(spec_suffix_free(t.value))) {
            match decimal_repr_of(spec_strip(spec_suffix_free(t.value))) {
                Some(repr) => {
                    lemma_step_distinct(t, "__std__::decimal"@, ValueModel::Decimal(repr), named, idx, rewritten, vars);
                    let (rw, vs) = spec_step_extract(t, "__std__::decimal"@, ValueModel::Decimal(repr), named, idx, rewritten, vars);
                    lemma_extract_from_distinct(toks, convs, i + 1, named, idx, rw, vs);
                },
                None => {},
            }
            }
        } else if t.kind == Kind::Str {
            match spec_unquote(t.value) {
                Some(u) => {
                    lemma_step_distinct(t, "__std__::str"@, ValueModel::Str(u), named, idx, rewritten, vars);
                    let (rw, vs) = spec_step_extract(t, "__std__::str"@, ValueModel::Str(u), named, idx, rewritten, vars);
                    lemma_extract_from_distinct(toks, convs, i + 1, named, idx, rw, vs);
                },
                None => {},
            }
        } else if t.kind == Kind::Keyword && spec_is_admin(t.value) {
        } else {
            lemma_extract_from_distinct(toks, convs, i + 1, named, idx, rewritten.push(t), vars);
        }
    }
}

proof fn lemma_step_distinct(
    t: TokView,
    ty: Seq<char>,
    v: ValueModel,
    named: bool,
    idx: usize,
    rewritten: Seq<TokView>,
    vars: Seq<ValueModel>,
)
    requires
        no_dup_vals(vars),
    ensures
        no_dup_vals(spec_step_extract(t, ty, v, named, idx, rewritten, vars).1),
{
    match spec_find_first(vars, v, 0) {
        Some(_) => {},
        None => {
            lemma_find_first_none(vars, v, 0);
            let vs = vars.push(v);
            assert forall|j: int, k: int| 0 <= j < k < vs.len() implies vs[j] != vs[k] by {
                if k == vs.len() - 1 {
                    assert(vs[k] == v);
                    assert(vs[j] == vars[j]);
                }
            };
        },
    }
}

/// Deduplication: every normalization that succeeds records each distinct
/// literal value at most once — no two of its variables hold equal values.
pub proof fn lemma_variables_distinct(toks: Seq<TokView>, convs: Seq<Option<u64>>, end_pos: Pos)
    ensures
        (match spec_normalize(toks, convs, end_pos) {
            Ok(e) => no_dup_vals(e.variables),
            Err(_) => true,
        }),
{
    match spec_scan_vars(toks) {
        None => {},
        Some((named, idx)) => {
            lemma_extract_from_distinct(
                toks,
                convs,
                0,
                named,
                idx,
                Seq::<TokView>::empty(),
                Seq::<ValueModel>::empty(),
            );
        },
    }
}

/// Deduplication of names: two extraction steps on one and the same value —
/// the second working on the variables the first left behind — write the
/// same synthesized parameter name into their six-token replacements,
/// whatever tokens they rewrite, whatever type names they carry, and
/// whatever else was rewritten in between.
pub proof fn lemma_same_value_same_name(
    t1: TokView,
    ty1: Seq<char>,
    t2: TokView,
    ty2: Seq<char>,
    v: ValueModel,
    named: bool,
    idx: usize,
    rw1: Seq<TokView>,
    vars: Seq<ValueModel>,
    rw2: Seq<TokView>,
)
    ensures
        ({
            let (rwa, vsa) = spec_step_extract(t1, ty1, v, named, idx, rw1, vars);
            let (rwb, vsb) = spec_step_extract(t2, ty2, v, named, idx, rw2, vsa);
            &&& rwa[rwa.len() - 2].kind == Kind::Argument
            &&& rwb[rwb.len() - 2].kind == Kind::Argument
            &&& rwa[rwa.len() - 2].value == rwb[rwb.len() - 2].value
        }),
{
    let (rwa, vsa) = spec_step_extract(t1, ty1, v, named, idx, rw1, vars);
    let (rwb, vsb) = spec_step_extract(t2, ty2, v, named, idx, rw2, vsa);
    let name = match spec_find_first(vars, v, 0) {
        Some(j) => spec_var_name(named, idx as nat + j as nat),
        None => spec_var_name(named, idx as nat + vars.len()),
    };
    match spec_find_first(vars, v, 0) {
        Some(j) => {
            assert(vsa == vars);
            assert(rwa[rw1.len() as int + 4].value == name);
        },
        None => {
            crate::values::lemma_find_first_push_self(vars, v, 0);
            assert(vsa == vars.push(v));
            assert(spec_find_first(vsa, v, 0) == Some(vars.len() as int));
            assert(rwa[rw1.len() as int + 4].value == name);
        },
    }
    assert(rwb[rw2.len() as int + 4].value == name);
    assert(rwa.len() == rw1.len() + 6);
    assert(rwb.len() == rw2.len() + 6);
    assert(rwa[rw1.len() as int + 4].kind == Kind::Argument);
    assert(rwb[rw2.len() as int + 4].kind == Kind::Argument);
}

proof fn lemma_no_floats_extract(
    toks: Seq<TokView>,
    convs1: Seq<Option<u64>>,
    convs2: Seq<Option<u64>>,
    i: int,
    named: bool,
    idx: usize,
    rewritten: Seq<TokView>,
    vars: Seq<ValueModel>,
)
    requires
        0 <= i <= toks.len(),
        forall|k: int| 0 <= k < toks.len() ==> (#[trigger] toks[k]).kind != Kind::FloatConst,
    ensures
        spec_extract_from(toks, convs1, i, named, idx, rewritten, vars) == spec_extract_from(
            toks,
            convs2,
            i,
            named,
            idx,
            rewritten,
            vars,
        ),
    decreases toks.len() - i,
{
    if i < toks.len() {
        assert(spec_step(toks[i], convs1[i], named, idx, rewritten, vars) == spec_step(
            toks[i],
            convs2[i],
            named,
            idx,
            rewritten,
            vars,
        ));
        match spec_step(toks[i], convs1[i], named, idx, rewritten, vars) {
            StepResult::Continue(rw2, vs2) => {
                lemma_no_floats_extract(toks, convs1, convs2, i + 1, named, idx, rw2, vs2);
            },
            StepResult::Abort => {},
            StepResult::Fail(_) => {},
        }
    }
}

/// Exactness without floats: a query holding no float literal never reads
/// a conversion outcome, so its normalization is one and the same exact
/// function of its tokens, whatever the outcomes.
pub proof fn lemma_no_floats_exact(
    toks: Seq<TokView>,
    convs1: Seq<Option<u64>>,
    convs2: Seq<Option<u64>>,
    end_pos: Pos,
)
    requires
        forall|k: int| 0 <= k < toks.len() ==> (#[trigger] toks[k]).kind != Kind::FloatConst,
    ensures
        spec_normalize(toks, convs1, end_pos) == spec_normalize(toks, convs2, end_pos),
{
    match spec_scan_vars(toks) {
        None => {},
        Some((named, idx)) => {
            lemma_no_floats_extract(
                toks,
                convs1,
                convs2,
                0,
                named,
                idx,
                Seq::<TokView>::empty(),
                Seq::<ValueModel>::empty(),
            );
        },
    }
}

/// Exclusions preserved: an integer literal that directly follows a
/// member-access dot is copied into the rewritten sequence unchanged, right
/// after the dot itself, and yields no variable — whatever the literal's
/// text and whatever was extracted before.
pub proof fn lemma_dot_exclusion(
    toks: Seq<TokView>,
    convs: Seq<Option<u64>>,
    i: int,
    named: bool,
    idx: usize,
    rewritten: Seq<TokView>,
    vars: Seq<ValueModel>,
)
    requires
        0 <= i,
        i + 1 < toks.len(),
        toks[i].kind == Kind::Dot,
        toks[i + 1].kind == Kind::IntConst,
    ensures
        spec_extract_from(toks, convs, i, named, idx, rewritten, vars) == spec_extract_from(
            toks,
            convs,
            i + 2,
            named,
            idx,
            rewritten.push(toks[i]).push(toks[i + 1]),
            vars,
        ),
{
    let rw1 = rewritten.push(toks[i]);
    assert(rw1.last().kind == Kind::Dot);
    assert(spec_int_excluded(toks[i + 1], rw1));
    assert(spec_step(toks[i], convs[i], named, idx, rewritten, vars) == StepResult::Continue(
        rw1,
        vars,
    ));
    assert(spec_step(toks[i + 1], convs[i + 1], named, idx, rw1, vars) == StepResult::Continue(
        rw1.push(toks[i + 1]),
        vars,
    ));
    assert(spec_extract_from(toks, convs, i, named, idx, rewritten, vars) == spec_extract_from(
        toks,
        convs,
        i + 1,
        named,
        idx,
        rw1,
        vars,
    ));
    assert(spec_extract_from(toks, convs, i + 1, named, idx, rw1, vars) == spec_extract_from(
        toks,
        convs,
        i + 2,
        named,
        idx,
        rw1.push(toks[i + 1]),
        vars,
    ));
}

/// The administrative guard: a query whose first token is one of the
/// administrative keywords (CONFIGURE, CREATE, ALTER, DROP, START — case
/// insensitively) always normalizes to the original, unrewritten token
/// sequence with no variables, whatever else the query holds.
pub proof fn lemma_admin_guard(toks: Seq<TokView>, convs: Seq<Option<u64>>, end_pos: Pos)
    requires
        toks.len() > 0,
        toks[0].kind == Kind::Keyword,
        spec_is_admin(toks[0].value),
    ensures
        spec_normalize(toks, convs, end_pos) == Ok::<EntryModel, ErrorModel>(
            spec_original_entry(toks, end_pos),
        ),
{
    match spec_scan_vars(toks) {
        None => {},
        Some((named, idx)) => {
            assert(spec_step(
                toks[0],
                convs[0],
                named,
                idx,
                Seq::<TokView>::empty(),
                Seq::<ValueModel>::empty(),
            ) == StepResult::Abort);
            assert(spec_extract_from(
                toks,
                convs,
                0,
                named,
                idx,
                Seq::<TokView>::empty(),
                Seq::<ValueModel>::empty(),
            ) == NormOutcome::Aborted);
        },
    }
}

proof fn lemma_admin_no_done(
    toks: Seq<TokView>,
    convs: Seq<Option<u64>>,
    i: int,
    named: bool,
    idx: usize,
    rewritten: Seq<TokView>,
    vars: Seq<ValueModel>,
)
    requires
        0 <= i <= toks.len(),
        exists|k: int|
            i <= k < toks.len() && (#[trigger] toks[k]).kind == Kind::Keyword && spec_is_admin(
                toks[k].value,
            ),
    ensures
        !(spec_extract_from(toks, convs, i, named, idx, rewritten, vars) is Done),
    decreases toks.len() - i,
{
    let k = choose|k: int|
        i <= k < toks.len() && (#[trigger] toks[k]).kind == Kind::Keyword && spec_is_admin(
            toks[k].value,
        );
    match spec_step(toks[i], convs[i], named, idx, rewritten, vars) {
        StepResult::Continue(rw2, vs2) => {
            assert(k != i);
            assert(i + 1 <= k < toks.len() && toks[k].kind == Kind::Keyword && spec_is_admin(
                toks[k].value,
            ));
            lemma_admin_no_done(toks, convs, i + 1, named, idx, rw2, vs2);
        },
        StepResult::Abort => {},
        StepResult::Fail(_) => {},
    }
}

/// The administrative guard, at any position: where any keyword token
/// names an administrative statement category, a normalization that
/// succeeds at all — no earlier literal failed — returns the original,
/// unrewritten token sequence with no variables, whatever the argument
/// scheme and whatever the conversion outcomes.
pub proof fn lemma_admin_guard_any_position(
    toks: Seq<TokView>,
    convs: Seq<Option<u64>>,
    end_pos: Pos,
)
    requires
        exists|k: int|
            0 <= k < toks.len() && (#[trigger] toks[k]).kind == Kind::Keyword && spec_is_admin(
                toks[k].value,
            ),
    ensures
        (match spec_normalize(toks, convs, end_pos) {
            Ok(e) => e == spec_original_entry(toks, end_pos),
            Err(_) => true,
        }),
{
    match spec_scan_vars(toks) {
        None => {},
        Some((named, idx)) => {
            lemma_admin_no_done(
                toks,
                convs,
                0,
                named,
                idx,
                Seq::<TokView>::empty(),
                Seq::<ValueModel>::empty(),
            );
        },
    }
}

} // verus!
