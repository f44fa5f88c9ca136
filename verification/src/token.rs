//! The token alphabet of the JSON-like grammar.

use vstd::prelude::*;

verus! {

/// A classified lexical unit: structural markers (`{` `}` `[` `]` `:` `,`),
/// the literal keywords `true`, `false` and `null`, payload-carrying
/// variants for quoted strings and integer literals, and the end-of-input
/// marker.  Payload variants own their text; no token refers back to the
/// scanner.
#[derive(Debug, PartialEq, Eq)]
pub enum Token {
    LSquirly,
    RSquirly,
    LSquare,
    RSquare,
    Colon,
    Word(String),
    Comma,
    True,
    False,
    Null,
    Int(String),
    EOF,
}

/// The mathematical model of a token: the same variants, with payloads
/// abstracted to character sequences.
pub enum TokenV {
    LSquirly,
    RSquirly,
    LSquare,
    RSquare,
    Colon,
    Word(Seq<char>),
    Comma,
    True,
    False,
    Null,
    Int(Seq<char>),
    EOF,
}

impl View for Token {
    type V = TokenV;

    open spec fn view(&self) -> TokenV {
        match self {
            Token::LSquirly => TokenV::LSquirly,
            Token::RSquirly => TokenV::RSquirly,
            Token::LSquare => TokenV::LSquare,
            Token::RSquare => TokenV::RSquare,
            Token::Colon => TokenV::Colon,
            Token::Word(s) => TokenV::Word(s@),
            Token::Comma => TokenV::Comma,
            Token::True => TokenV::True,
            Token::False => TokenV::False,
            Token::Null => TokenV::Null,
            Token::Int(s) => TokenV::Int(s@),
            Token::EOF => TokenV::EOF,
        }
    }
}

impl DeepView for Token {
    type V = TokenV;

    open spec fn deep_view(&self) -> TokenV {
        self.view()
    }
}

/// Whether a token opens a bracketed scope (`{` or `[`).
pub open spec fn spec_is_open_bracket(t: TokenV) -> bool {
    t is LSquirly || t is LSquare
}

/// Whether a token closes a bracketed scope (`}` or `]`).
pub open spec fn spec_is_close_bracket(t: TokenV) -> bool {
    t is RSquirly || t is RSquare
}

/// The open bracket that matches a close bracket; any other token is
/// returned unchanged.
pub open spec fn spec_matching_open(t: TokenV) -> TokenV {
    match t {
        TokenV::RSquirly => TokenV::LSquirly,
        TokenV::RSquare => TokenV::LSquare,
        other => other,
    }
}

impl Token {
    /// Whether this token is `{` or `[`.
    pub fn is_open_bracket(&self) -> (r: bool)
        ensures
            r == spec_is_open_bracket(self@),
    {
        matches!(self, Token::LSquirly | Token::LSquare)
    }

    /// Whether this token is `}` or `]`.
    pub fn is_close_bracket(&self) -> (r: bool)
        ensures
            r == spec_is_close_bracket(self@),
    {
        matches!(self, Token::RSquirly | Token::RSquare)
    }

    /// Whether this token is a comma.
    pub fn is_comma(&self) -> (r: bool)
        ensures
            r == (self@ is Comma),
    {
        matches!(self, Token::Comma)
    }

    /// The open bracket matching a close bracket; any other token comes
    /// back unchanged.
    pub fn convert_to_open_bracket(&self) -> (r: Token)
        ensures
            r@ == spec_matching_open(self@),
    {
        match self {
            Token::RSquirly => Token::LSquirly,
            Token::RSquare => Token::LSquare,
            Token::LSquirly => Token::LSquirly,
            Token::LSquare => Token::LSquare,
            Token::Colon => Token::Colon,
            Token::Comma => Token::Comma,
            Token::True => Token::True,
            Token::False => Token::False,
            Token::Null => Token::Null,
            Token::EOF => Token::EOF,
            Token::Word(s) => Token::Word(s.clone()),
            Token::Int(s) => Token::Int(s.clone()),
        }
    }
}

} // verus!
