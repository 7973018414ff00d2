use vstd::prelude::*;

verus! {

/// The category of a token. Literal-bearing kinds (`String`, `Number`,
/// `Boolean`, `Null`) carry raw text whose lexical grammar is checked only
/// by the validator, never by the lexer.
#[derive(Debug, PartialEq, Eq, Structural, Clone, Copy)]
pub enum TokenType {
    LeftBrace,
    RightBrace,
    LeftBracket,
    RightBracket,
    Colon,
    Comma,
    String,
    Number,
    Boolean,
    Null,
    EndOfFile,
}

/// An immutable token: a kind, the raw text for literal-bearing kinds, and
/// the lexer's running character count recorded just past the token's span.
#[derive(Debug, PartialEq)]
pub struct Token {
    pub token_type: TokenType,
    pub value: Option<String>,
    pub position: usize,
}

/// The mathematical image of a `Token`: the raw text becomes a sequence of
/// characters and the position a natural number.
#[verifier::ext_equal]
pub struct TokenView {
    pub kind: TokenType,
    pub value: Option<Seq<char>>,
    pub position: nat,
}

impl View for Token {
    type V = TokenView;

    open spec fn view(&self) -> TokenView {
        TokenView {
            kind: self.token_type,
            value: match self.value {
                Some(s) => Some(s@),
                None => None,
            },
            position: self.position as nat,
        }
    }
}

/// The images of a sequence of tokens, in order.
pub open spec fn token_views(ts: Seq<Token>) -> Seq<TokenView> {
    ts.map_values(|t: Token| t@)
}

/// A well-formed token stream: finite, ending with exactly one
/// end-of-file token. Every stream the lexer produces has this shape.
pub open spec fn stream_wf(ts: Seq<TokenView>) -> bool {
    &&& ts.len() >= 1
    &&& ts.last().kind == TokenType::EndOfFile
    &&& forall|i: int| 0 <= i < ts.len() - 1 ==> ts[i].kind != TokenType::EndOfFile
}

impl Token {
    /// Packs a kind, an optional raw text and a position into a token.
    pub fn new(token_type: TokenType, value: Option<String>, position: usize) -> (t: Token)
        ensures
            t@ == (TokenView {
                kind: token_type,
                value: match value {
                    Some(s) => Some(s@),
                    None => None,
                },
                position: position as nat,
            }),
    {
        Token { token_type, value, position }
    }
}

} // verus!
