//! Token stream interface. The host tokenizer turns raw source text into a
//! sequence of [`Token`]s; the parser consumes them in order.
use vstd::prelude::*;

verus! {

/// The kind of one token. Every source line's token list ends with a
/// `Newline` token.
#[derive(Debug, Clone, Copy, PartialEq, Eq, Structural)]
pub enum TokenType {
    Tilda,
    Print,
    Length,
    Equals,
    Number,
    Float,
    Bool,
    Name,
    Plus,
    Minus,
    Times,
    Divide,
    For,
    If,
    Else,
    ElseIf,
    Import,
    Return,
    Function,
    GreaterThan,
    LesserThan,
    EqualTo,
    EqualGreater,
    EqualLesser,
    Or,
    And,
    Not,
    NotEqual,
    PlusPlus,
    MinusMinus,
    Comment,
    Newline,
    Comma,
    Semicolon,
    OpeningBrace,
    ClosingBrace,
    OpeningBracket,
    ClosingBracket,
    OpeningSquareBracket,
    ClosingSquareBracket,
    SingleQuote,
    DoubleQuote,
    FormattedQuote,
    CommandQuote,
    Content,
    Dollar,
}

/// One token: its kind and its source text (keywords and punctuation carry
/// their spelling, names and numbers carry the matched run).
#[derive(Debug, Clone)]
pub struct Token {
    pub kind: TokenType,
    pub value: String,
}

impl Token {
    /// Builds a token; convenient for hosts and tests.
    pub fn new(kind: TokenType, value: String) -> (t: Token)
        ensures
            t.kind == kind,
            t.value == value,
    {
        Token { kind, value }
    }
}


/// The mathematical shape of a token.
pub ghost struct TokenV {
    pub kind: TokenType,
    pub value: Seq<char>,
}

/// The denotation of one token.
pub open spec fn token_view(t: Token) -> TokenV {
    TokenV { kind: t.kind, value: t.value@ }
}

/// The denotation of a token stream.
pub open spec fn tokens_view(ts: Seq<Token>) -> Seq<TokenV>
    decreases ts,
{
    if ts.len() == 0 {
        Seq::empty()
    } else {
        tokens_view(ts.drop_last()).push(token_view(ts.last()))
    }
}

/// `tokens_view` maps the stream pointwise.
pub proof fn lemma_tokens_view(ts: Seq<Token>)
    ensures
        tokens_view(ts).len() == ts.len(),
        forall|i: int| 0 <= i < ts.len() ==> tokens_view(ts)[i] == token_view(#[trigger] ts[i]),
    decreases ts,
{
    if ts.len() > 0 {
        lemma_tokens_view(ts.drop_last());
        assert forall|i: int|
            0 <= i < ts.len() implies tokens_view(ts)[i] == token_view(#[trigger] ts[i]) by {
            if i < ts.len() - 1 {
                assert(ts.drop_last()[i] == ts[i]);
            } else {
                assert(ts.last() == ts[i]);
            }
        }
    }
}

} // verus!
