//! The token data model: lexical kinds, source positions, and tokens.

use vstd::prelude::*;

verus! {

/// The lexical category of a token, as classified by the external lexer.
///
/// The set is closed: every token the lexer yields carries exactly one of
/// these kinds, and both the extraction eligibility of a token and the
/// operator-adjacency rule of the serializer are exhaustive functions of it.
#[derive(Debug, Clone, Copy, PartialEq, Eq, Structural)]
pub enum Kind {
    Assign,
    SubAssign,
    AddAssign,
    Arrow,
    Coalesce,
    Namespace,
    ForwardLink,
    BackwardLink,
    FloorDiv,
    Concat,
    GreaterEq,
    LessEq,
    NotEq,
    NotDistinctFrom,
    DistinctFrom,
    Comma,
    OpenParen,
    CloseParen,
    OpenBracket,
    CloseBracket,
    OpenBrace,
    CloseBrace,
    Dot,
    Semicolon,
    Colon,
    Add,
    Sub,
    Mul,
    Div,
    Modulo,
    Pow,
    Less,
    Greater,
    Eq,
    Ampersand,
    Pipe,
    At,
    DecimalConst,
    FloatConst,
    IntConst,
    BigIntConst,
    BinStr,
    Argument,
    Str,
    BacktickName,
    Keyword,
    Ident,
}

/// A position in the query source: 1-based line and column, 0-based byte
/// offset.
#[derive(Debug, Clone, Copy, PartialEq, Eq, Structural)]
pub struct Pos {
    pub line: u64,
    pub column: u64,
    pub offset: u64,
}

/// One classified lexical unit: its kind, its source text, and the source
/// span it was read from.
#[derive(Debug, Clone, PartialEq, Eq)]
pub struct Token {
    pub kind: Kind,
    pub value: String,
    pub start: Pos,
    pub end: Pos,
}

/// The mathematical model of a [`Token`]: the text is a sequence of
/// characters, everything else is plain data.
pub struct TokView {
    pub kind: Kind,
    pub value: Seq<char>,
    pub start: Pos,
    pub end: Pos,
}

impl View for Token {
    type V = TokView;

    open spec fn view(&self) -> TokView {
        TokView { kind: self.kind, value: self.value@, start: self.start, end: self.end }
    }
}

impl DeepView for Token {
    type V = TokView;

    open spec fn deep_view(&self) -> TokView {
        self.view()
    }
}

/// Whether a token kind belongs to the operator/punctuation set of the
/// canonical serializer: no space is ever inserted next to such a token.
pub open spec fn spec_is_operator(k: Kind) -> bool {
    match k {
        Kind::Assign => true,
        Kind::SubAssign => true,
        Kind::AddAssign => true,
        Kind::Arrow => true,
        Kind::Coalesce => true,
        Kind::Namespace => true,
        Kind::ForwardLink => true,
        Kind::BackwardLink => true,
        Kind::FloorDiv => true,
        Kind::Concat => true,
        Kind::GreaterEq => true,
        Kind::LessEq => true,
        Kind::NotEq => true,
        Kind::NotDistinctFrom => true,
        Kind::DistinctFrom => true,
        Kind::Comma => true,
        Kind::OpenParen => true,
        Kind::CloseParen => true,
        Kind::OpenBracket => true,
        Kind::CloseBracket => true,
        Kind::OpenBrace => true,
        Kind::CloseBrace => true,
        Kind::Dot => true,
        Kind::Semicolon => true,
        Kind::Colon => true,
        Kind::Add => true,
        Kind::Sub => true,
        Kind::Mul => true,
        Kind::Div => true,
        Kind::Modulo => true,
        Kind::Pow => true,
        Kind::Less => true,
        Kind::Greater => true,
        Kind::Eq => true,
        Kind::Ampersand => true,
        Kind::Pipe => true,
        Kind::At => true,
        Kind::DecimalConst => false,
        Kind::FloatConst => false,
        Kind::IntConst => false,
        Kind::BigIntConst => false,
        Kind::BinStr => false,
        Kind::Argument => false,
        Kind::Str => false,
        Kind::BacktickName => false,
        Kind::Keyword => false,
        Kind::Ident => false,
    }
}

/// Whether this token belongs to the serializer's operator/punctuation set.
pub fn is_operator(token: &Token) -> (r: bool)
    ensures
        r == spec_is_operator(token.kind),
{
    match token.kind {
        Kind::Assign => true,
        Kind::SubAssign => true,
        Kind::AddAssign => true,
        Kind::Arrow => true,
        Kind::Coalesce => true,
        Kind::Namespace => true,
        Kind::ForwardLink => true,
        Kind::BackwardLink => true,
        Kind::FloorDiv => true,
        Kind::Concat => true,
        Kind::GreaterEq => true,
        Kind::LessEq => true,
        Kind::NotEq => true,
        Kind::NotDistinctFrom => true,
        Kind::DistinctFrom => true,
        Kind::Comma => true,
        Kind::OpenParen => true,
        Kind::CloseParen => true,
        Kind::OpenBracket => true,
        Kind::CloseBracket => true,
        Kind::OpenBrace => true,
        Kind::CloseBrace => true,
        Kind::Dot => true,
        Kind::Semicolon => true,
        Kind::Colon => true,
        Kind::Add => true,
        Kind::Sub => true,
        Kind::Mul => true,
        Kind::Div => true,
        Kind::Modulo => true,
        Kind::Pow => true,
        Kind::Less => true,
        Kind::Greater => true,
        Kind::Eq => true,
        Kind::Ampersand => true,
        Kind::Pipe => true,
        Kind::At => true,
        Kind::DecimalConst => false,
        Kind::FloatConst => false,
        Kind::IntConst => false,
        Kind::BigIntConst => false,
        Kind::BinStr => false,
        Kind::Argument => false,
        Kind::Str => false,
        Kind::BacktickName => false,
        Kind::Keyword => false,
        Kind::Ident => false,
    }
}

} // verus!
