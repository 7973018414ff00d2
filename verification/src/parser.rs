use vstd::prelude::*;
use vstd::string::*;

use crate::messages::empty_document_msg;
use crate::messages::invalid_token_msg;
use crate::messages::render_unexpected;
use crate::messages::unexpected_token_msg;
use crate::number::check_float;
use crate::number::is_float_literal;
use crate::token::Token;
use crate::token::TokenType;
use crate::token::TokenView;
use crate::token::stream_wf;
use crate::token::token_views;

verus! {

/// A grammar violation, before it is rendered as a message.
#[verifier::ext_equal]
pub enum Violation {
    /// The token stream opens with end-of-file: nothing to validate.
    EmptyDocument,
    /// A literal-bearing token carries no raw text.
    InvalidToken,
    /// A token breaks the expected grammar production, or a literal's raw
    /// text fails its lexical check.
    UnexpectedToken { position: nat, value: Option<Seq<char>> },
}

/// The message the validator reports for a violation.
pub open spec fn violation_msg(e: Violation) -> Seq<char> {
    match e {
        Violation::EmptyDocument => empty_document_msg(),
        Violation::InvalidToken => invalid_token_msg(),
        Violation::UnexpectedToken { position, value } => unexpected_token_msg(position, value),
    }
}

/// The unexpected-token violation for a given token.
pub open spec fn unexpected(t: TokenView) -> Violation {
    Violation::UnexpectedToken { position: t.position, value: t.value }
}

/// Raw text that passes the null literal's lexical check.
pub open spec fn null_ok(v: Seq<char>) -> bool {
    v == "null"@
}

/// Raw text that passes the boolean literal's lexical check.
pub open spec fn boolean_ok(v: Seq<char>) -> bool {
    v == "false"@ || v == "true"@
}

/// The token kinds that may not follow a comma inside an array.
pub open spec fn invalid_array_next(k: TokenType) -> bool {
    ||| k == TokenType::Colon
    ||| k == TokenType::Comma
    ||| k == TokenType::RightBrace
    ||| k == TokenType::RightBracket
    ||| k == TokenType::EndOfFile
}

/// What validating a single value at cursor `i` yields: the cursor of the
/// value's last token, or the first violation. A `String` is accepted
/// outright; other literals must pass their lexical check; an opening
/// brace or bracket descends into the structural validator.
pub open spec fn spec_value(ts: Seq<TokenView>, i: int) -> Result<int, Violation>
    decreases ts.len() - i, 0int,
{
    if !(0 <= i < ts.len()) {
        Err(Violation::InvalidToken)
    } else {
        let t = ts[i];
        match t.kind {
            TokenType::String => Ok(i),
            TokenType::Boolean => match t.value {
                Some(v) => if boolean_ok(v) {
                    Ok(i)
                } else {
                    Err(unexpected(t))
                },
                None => Err(Violation::InvalidToken),
            },
            TokenType::Number => match t.value {
                Some(v) => if is_float_literal(v) {
                    Ok(i)
                } else {
                    Err(unexpected(t))
                },
                None => Err(Violation::InvalidToken),
            },
            TokenType::Null => match t.value {
                Some(v) => if null_ok(v) {
                    Ok(i)
                } else {
                    Err(unexpected(t))
                },
                None => Err(Violation::InvalidToken),
            },
            TokenType::LeftBrace => spec_object(ts, i + 1),
            TokenType::LeftBracket => spec_array(ts, i + 1),
            _ => Err(unexpected(t)),
        }
    }
}

/// What validating an object body from cursor `i` (just past the opening
/// brace) yields: the cursor of the closing brace, or the first
/// violation. Keys must be strings, each key is followed by a colon and a
/// value, entries are separated by commas, and a comma must be followed
/// by another key: no trailing comma.
pub open spec fn spec_object(ts: Seq<TokenView>, i: int) -> Result<int, Violation>
    decreases ts.len() - i, 1int,
{
    if !(0 <= i < ts.len()) {
        Err(Violation::InvalidToken)
    } else {
        let t = ts[i];
        if t.kind == TokenType::RightBrace {
            Ok(i)
        } else if t.kind == TokenType::String {
            if !(i + 1 < ts.len() && ts[i + 1].kind == TokenType::Colon) {
                Err(unexpected(ts[i + 1]))
            } else {
                match spec_value(ts, i + 2) {
                    Err(e) => Err(e),
                    Ok(j) => {
                        // the cursor never moves backwards; the lower bound
                        // makes that evident to the termination checker and
                        // is the identity in every reachable case
                        let j1 = if j < i + 2 {
                            i + 2
                        } else {
                            j
                        };
                        if j1 + 1 < ts.len() && ts[j1 + 1].kind == TokenType::Comma {
                            if j1 + 2 < ts.len() && ts[j1 + 2].kind == TokenType::String {
                                spec_object(ts, j1 + 2)
                            } else {
                                Err(unexpected(ts[j1 + 2]))
                            }
                        } else if j1 + 1 < ts.len() && ts[j1 + 1].kind == TokenType::RightBrace {
                            Ok(j1 + 1)
                        } else {
                            Err(unexpected(ts[j1 + 1]))
                        }
                    },
                }
            }
        } else {
            Err(unexpected(t))
        }
    }
}

/// What validating an array body from cursor `i` (just past the opening
/// bracket) yields: the cursor of the closing bracket, or the first
/// violation. Elements are separated by commas, and a comma must be
/// followed by a token that can begin a value.
pub open spec fn spec_array(ts: Seq<TokenView>, i: int) -> Result<int, Violation>
    decreases ts.len() - i, 2int,
{
    if !(0 <= i < ts.len()) {
        Err(Violation::InvalidToken)
    } else {
        let t = ts[i];
        if t.kind == TokenType::RightBracket {
            Ok(i)
        } else {
            match spec_value(ts, i) {
                Err(e) => Err(e),
                Ok(j) => {
                    // see the bound in `spec_object`
                    let j1 = if j < i {
                        i
                    } else {
                        j
                    };
                    if j1 + 1 < ts.len() && ts[j1 + 1].kind == TokenType::Comma {
                        if j1 + 2 < ts.len() && !invalid_array_next(ts[j1 + 2].kind) {
                            spec_array(ts, j1 + 2)
                        } else {
                            Err(unexpected(ts[j1 + 2]))
                        }
                    } else if j1 + 1 < ts.len() && ts[j1 + 1].kind == TokenType::RightBracket {
                        Ok(j1 + 1)
                    } else {
                        Err(unexpected(ts[j1 + 1]))
                    }
                },
            }
        }
    }
}

/// What checking the first token yields: an empty document is rejected, a
/// bare scalar must pass its lexical check and be the last token before
/// end-of-file, and an opening brace or bracket is left for the
/// structural validators.
pub open spec fn spec_first_token(ts: Seq<TokenView>, i: int) -> Result<(), Violation> {
    if !(0 <= i < ts.len()) {
        Err(Violation::InvalidToken)
    } else {
        let t = ts[i];
        if t.kind == TokenType::EndOfFile {
            Err(Violation::EmptyDocument)
        } else if t.kind != TokenType::LeftBrace && t.kind != TokenType::LeftBracket {
            match t.value {
                Some(v) => {
                    if t.kind == TokenType::Null && !null_ok(v) {
                        Err(unexpected(t))
                    } else if t.kind == TokenType::Boolean && !boolean_ok(v) {
                        Err(unexpected(t))
                    } else if t.kind == TokenType::Number && !is_float_literal(v) {
                        Err(unexpected(t))
                    } else if !(i + 1 < ts.len() && ts[i + 1].kind == TokenType::EndOfFile) {
                        Err(unexpected(t))
                    } else {
                        Ok(())
                    }
                },
                None => Err(unexpected(t)),
            }
        } else {
            Ok(())
        }
    }
}

/// What validating a whole document from cursor `i` yields: exactly one
/// top-level value, with nothing but end-of-file after it.
pub open spec fn spec_parse(ts: Seq<TokenView>, i: int) -> Result<(), Violation> {
    match spec_first_token(ts, i) {
        Err(e) => Err(e),
        Ok(u) => {
            let t = ts[i];
            if t.kind != TokenType::LeftBrace && t.kind != TokenType::LeftBracket {
                Ok(())
            } else {
                let r = if t.kind == TokenType::LeftBrace {
                    spec_object(ts, i + 1)
                } else {
                    spec_array(ts, i + 1)
                };
                match r {
                    Err(e) => Err(e),
                    Ok(j) => if j + 1 < ts.len() && ts[j + 1].kind == TokenType::EndOfFile {
                        Ok(())
                    } else {
                        Err(unexpected(ts[j]))
                    },
                }
            }
        },
    }
}

/// A successful value validation leaves the cursor on the value's last
/// token: within bounds, no earlier than where it started, and never on
/// the end-of-file token.
pub proof fn lemma_value_range(ts: Seq<TokenView>, i: int)
    ensures
        spec_value(ts, i) matches Ok(j) ==> 0 <= i <= j < ts.len() && ts[j].kind
            != TokenType::EndOfFile,
    decreases ts.len() - i, 0int,
{
    if 0 <= i < ts.len() {
        let t = ts[i];
        if t.kind == TokenType::LeftBrace {
            lemma_object_range(ts, i + 1);
        } else if t.kind == TokenType::LeftBracket {
            lemma_array_range(ts, i + 1);
        }
    }
}

/// A successful object validation leaves the cursor on the closing brace.
pub proof fn lemma_object_range(ts: Seq<TokenView>, i: int)
    ensures
        spec_object(ts, i) matches Ok(k) ==> 0 <= i <= k < ts.len() && ts[k].kind
            == TokenType::RightBrace,
    decreases ts.len() - i, 1int,
{
    if 0 <= i < ts.len() {
        let t = ts[i];
        if t.kind == TokenType::String {
            if i + 1 < ts.len() && ts[i + 1].kind == TokenType::Colon {
                lemma_value_range(ts, i + 2);
                match spec_value(ts, i + 2) {
                    Ok(j) => {
                        if j + 1 < ts.len() && ts[j + 1].kind == TokenType::Comma {
                            if j + 2 < ts.len() && ts[j + 2].kind == TokenType::String {
                                lemma_object_range(ts, j + 2);
                            }
                        }
                    },
                    Err(e) => {},
                }
            }
        }
    }
}

/// A successful array validation leaves the cursor on the closing bracket.
pub proof fn lemma_array_range(ts: Seq<TokenView>, i: int)
    ensures
        spec_array(ts, i) matches Ok(k) ==> 0 <= i <= k < ts.len() && ts[k].kind
            == TokenType::RightBracket,
    decreases ts.len() - i, 2int,
{
    if 0 <= i < ts.len() {
        let t = ts[i];
        if t.kind != TokenType::RightBracket {
            lemma_value_range(ts, i);
            match spec_value(ts, i) {
                Ok(j) => {
                    if j + 1 < ts.len() && ts[j + 1].kind == TokenType::Comma {
                        if j + 2 < ts.len() && !invalid_array_next(ts[j + 2].kind) {
                            lemma_array_range(ts, j + 2);
                        }
                    }
                },
                Err(e) => {},
            }
        }
    }
}

/// A successful value validation reads only tokens up to the value's
/// last one, so it is unchanged on any longer stream that agrees with
/// the well-formed one everywhere before its end-of-file token.
proof fn lemma_value_agree(ts1: Seq<TokenView>, ts2: Seq<TokenView>, i: int)
    requires
        stream_wf(ts1),
        ts1.len() <= ts2.len(),
        forall|k: int| 0 <= k < ts1.len() - 1 ==> ts1[k] == ts2[k],
        spec_value(ts1, i) is Ok,
    ensures
        spec_value(ts2, i) == spec_value(ts1, i),
    decreases ts1.len() - i, 0int,
{
    let t = ts1[i];
    assert(ts1.last().kind == TokenType::EndOfFile);
    if t.kind == TokenType::LeftBrace {
        lemma_not_last(ts1, i);
        lemma_object_agree(ts1, ts2, i + 1);
    } else if t.kind == TokenType::LeftBracket {
        lemma_not_last(ts1, i);
        lemma_array_agree(ts1, ts2, i + 1);
    } else {
        lemma_not_last(ts1, i);
    }
}

/// The object-body analogue of [`lemma_value_agree`].
proof fn lemma_object_agree(ts1: Seq<TokenView>, ts2: Seq<TokenView>, i: int)
    requires
        stream_wf(ts1),
        ts1.len() <= ts2.len(),
        forall|k: int| 0 <= k < ts1.len() - 1 ==> ts1[k] == ts2[k],
        spec_object(ts1, i) is Ok,
    ensures
        spec_object(ts2, i) == spec_object(ts1, i),
    decreases ts1.len() - i, 1int,
{
    let t = ts1[i];
    if t.kind == TokenType::RightBrace {
        lemma_not_last(ts1, i);
    } else {
        lemma_not_last(ts1, i);
        lemma_not_last(ts1, i + 1);
        lemma_value_agree(ts1, ts2, i + 2);
        lemma_value_range(ts1, i + 2);
        let j = spec_value(ts1, i + 2)->Ok_0;
        lemma_not_last(ts1, j);
        if j + 1 < ts1.len() && ts1[j + 1].kind == TokenType::Comma {
            lemma_not_last(ts1, j + 1);
            lemma_object_agree(ts1, ts2, j + 2);
        } else {
            lemma_not_last(ts1, j + 1);
        }
    }
}

/// The array-body analogue of [`lemma_value_agree`].
proof fn lemma_array_agree(ts1: Seq<TokenView>, ts2: Seq<TokenView>, i: int)
    requires
        stream_wf(ts1),
        ts1.len() <= ts2.len(),
        forall|k: int| 0 <= k < ts1.len() - 1 ==> ts1[k] == ts2[k],
        spec_array(ts1, i) is Ok,
    ensures
        spec_array(ts2, i) == spec_array(ts1, i),
    decreases ts1.len() - i, 2int,
{
    let t = ts1[i];
    if t.kind == TokenType::RightBracket {
        lemma_not_last(ts1, i);
    } else {
        lemma_value_agree(ts1, ts2, i);
        lemma_value_range(ts1, i);
        let j = spec_value(ts1, i)->Ok_0;
        lemma_not_last(ts1, j);
        if j + 1 < ts1.len() && ts1[j + 1].kind == TokenType::Comma {
            lemma_not_last(ts1, j + 1);
            lemma_array_agree(ts1, ts2, j + 2);
        } else {
            lemma_not_last(ts1, j + 1);
        }
    }
}

/// Trailing content is always rejected: take any well-formed stream that
/// validates as a whole document, and slip one extra token — any kind
/// but end-of-file — in front of its end-of-file marker; validation of
/// the longer stream fails.
pub proof fn lemma_trailing_content_rejected(pre: Seq<TokenView>, t: TokenView, eof: TokenView)
    requires
        stream_wf(pre.push(eof)),
        t.kind != TokenType::EndOfFile,
        eof.kind == TokenType::EndOfFile,
        spec_parse(pre.push(eof), 0) is Ok,
    ensures
        spec_parse(pre.push(t).push(eof), 0) is Err,
{
    let ts1 = pre.push(eof);
    let ts2 = pre.push(t).push(eof);
    assert(ts1.len() == pre.len() + 1 && ts2.len() == pre.len() + 2);
    assert(forall|k: int| 0 <= k < ts1.len() - 1 ==> ts1[k] == ts2[k]);
    assert(spec_first_token(ts1, 0) is Ok);
    assert(ts1[0].kind != TokenType::EndOfFile);
    lemma_not_last(ts1, 0);
    let first = ts1[0];
    if first.kind == TokenType::LeftBrace {
        lemma_object_agree(ts1, ts2, 1);
        lemma_object_range(ts1, 1);
        let j = spec_object(ts1, 1)->Ok_0;
        assert(ts1[j + 1].kind == TokenType::EndOfFile);
        assert(j + 1 == ts1.len() - 1);
        assert(ts2[j + 1] == t);
    } else if first.kind == TokenType::LeftBracket {
        lemma_array_agree(ts1, ts2, 1);
        lemma_array_range(ts1, 1);
        let j = spec_array(ts1, 1)->Ok_0;
        assert(ts1[j + 1].kind == TokenType::EndOfFile);
        assert(j + 1 == ts1.len() - 1);
        assert(ts2[j + 1] == t);
    } else {
        assert(ts1[1].kind == TokenType::EndOfFile);
        assert(1 == ts1.len() - 1);
        assert(ts2[1] == t);
        assert(spec_first_token(ts2, 0) is Err);
    }
}

/// In a well-formed stream only the last token is end-of-file, so any
/// other token sits strictly before it.
proof fn lemma_not_last(ts: Seq<TokenView>, i: int)
    requires
        stream_wf(ts),
        0 <= i < ts.len(),
        ts[i].kind != TokenType::EndOfFile,
    ensures
        i < ts.len() - 1,
{
    if i == ts.len() - 1 {
        assert(ts.last() == ts[i]);
    }
}

/// The validator: a single forward-only cursor over an externally owned,
/// read-only token sequence.
pub struct Parser<'a> {
    tokens: &'a Vec<Token>,
    current: usize,
}

/// The mathematical image of a `Parser`.
#[verifier::ext_equal]
pub struct ParserView {
    pub tokens: Seq<TokenView>,
    pub current: nat,
}

impl<'a> View for Parser<'a> {
    type V = ParserView;

    closed spec fn view(&self) -> ParserView {
        ParserView { tokens: token_views(self.tokens@), current: self.current as nat }
    }
}

impl<'a> Parser<'a> {
    /// A validator in a usable state: its stream is well formed and its
    /// cursor within bounds.
    pub open spec fn wf(self) -> bool {
        stream_wf(self@.tokens) && self@.current < self@.tokens.len()
    }

    /// A fresh validator over the given tokens, cursor at the start.
    pub fn new(tokens: &'a Vec<Token>) -> (p: Parser<'a>)
        ensures
            p@.tokens == token_views(tokens@),
            p@.current == 0,
    {
        Parser { tokens, current: 0 }
    }

    /// The unexpected-token message for a position and an optional raw
    /// text.
    fn token_error(position: usize, value: Option<&String>) -> (msg: String)
        ensures
            msg@ == unexpected_token_msg(
                position as nat,
                match value {
                    Some(v) => Some(v@),
                    None => None,
                },
            ),
    {
        render_unexpected(position, value)
    }

    /// Moves the cursor one token forward, stopping at the final token.
    fn advance(&mut self)
        requires
            old(self)@.tokens.len() >= 1,
            old(self)@.current < old(self)@.tokens.len(),
        ensures
            final(self)@.tokens == old(self)@.tokens,
            final(self)@.current as int == if old(self)@.current < old(self)@.tokens.len()
                - 1 {
                old(self)@.current + 1 as int
            } else {
                old(self)@.current as int
            },
    {
        if self.current < self.tokens.len() - 1 {
            self.current = self.current + 1;
        }
    }

    /// The token under the cursor.
    fn get_current_token(&self) -> (t: &Token)
        requires
            self@.current < self@.tokens.len(),
        ensures
            t@ == self@.tokens[self@.current as int],
    {
        &self.tokens[self.current]
    }

    /// Whether the cursor sits on a comma.
    fn is_comma(&self) -> (b: bool)
        requires
            self@.current < self@.tokens.len(),
        ensures
            b == (self@.tokens[self@.current as int].kind == TokenType::Comma),
    {
        self.get_current_token().token_type == TokenType::Comma
    }

    /// Whether the cursor sits on a colon.
    fn is_colon(&self) -> (b: bool)
        requires
            self@.current < self@.tokens.len(),
        ensures
            b == (self@.tokens[self@.current as int].kind == TokenType::Colon),
    {
        self.get_current_token().token_type == TokenType::Colon
    }

    /// Whether the cursor sits on a right brace.
    fn is_right_brace(&self) -> (b: bool)
        requires
            self@.current < self@.tokens.len(),
        ensures
            b == (self@.tokens[self@.current as int].kind == TokenType::RightBrace),
    {
        self.get_current_token().token_type == TokenType::RightBrace
    }

    /// Whether the cursor sits on a right bracket.
    fn is_right_bracket(&self) -> (b: bool)
        requires
            self@.current < self@.tokens.len(),
        ensures
            b == (self@.tokens[self@.current as int].kind == TokenType::RightBracket),
    {
        self.get_current_token().token_type == TokenType::RightBracket
    }

    /// Whether raw text passes the null literal's lexical check.
    fn is_null(value: &String) -> (b: bool)
        ensures
            b == null_ok(value@),
    {
        *value == String::from_str("null")
    }

    /// Whether raw text passes the boolean literal's lexical check.
    fn is_boolean(value: &String) -> (b: bool)
        ensures
            b == boolean_ok(value@),
    {
        *value == String::from_str("false") || *value == String::from_str("true")
    }

    /// Whether raw text passes the number literal's lexical check: it
    /// must match the floating-point grammar of [`is_float_literal`].
    fn is_number(value: &String) -> (b: bool)
        ensures
            b == is_float_literal(value@),
    {
        check_float(value.as_str())
    }

    /// Whether a token kind may not follow a comma inside an array.
    fn is_not_valid_array_next_value(&self, token: &TokenType) -> (b: bool)
        ensures
            b == invalid_array_next(*token),
    {
        *token == TokenType::Colon || *token == TokenType::Comma || *token
            == TokenType::RightBrace || *token == TokenType::RightBracket || *token
            == TokenType::EndOfFile
    }

    /// Whether the token just after the cursor is end-of-file.
    fn expect_end_of_file(&self) -> (b: bool)
        requires
            self@.current < self@.tokens.len(),
        ensures
            b == (self@.current + 1 < self@.tokens.len() && self@.tokens[self@.current as int
                + 1].kind == TokenType::EndOfFile),
    {
        let n = self.tokens.len();
        if self.current + 1 < n {
            self.tokens[self.current + 1].token_type == TokenType::EndOfFile
        } else {
            false
        }
    }

    /// The raw text of a literal-bearing token, or the invalid-token
    /// error when it carries none.
    fn get_value(value: Option<&String>) -> (r: Result<&String, String>)
        ensures
            match r {
                Ok(v) => value == Some(v),
                Err(m) => value is None && m@ == invalid_token_msg(),
            },
    {
        match value {
            Some(v) => Ok(v),
            None => Err(String::from_str("invalid token")),
        }
    }

    /// Validates the single value under the cursor, leaving the cursor on
    /// the value's last token, exactly as [`spec_value`] states.
    #[verifier::loop_isolation(false)]
    fn validate_value(&mut self) -> (r: Result<(), String>)
        requires
            old(self).wf(),
        ensures
            final(self).wf(),
            final(self)@.tokens == old(self)@.tokens,
            match spec_value(old(self)@.tokens, old(self)@.current as int) {
                Ok(j) => r is Ok && final(self)@.current == j,
                Err(e) => r matches Err(m) && m@ == violation_msg(e),
            },
        decreases old(self)@.tokens.len() - old(self)@.current, 0int,
    {
        let ghost ts = self@.tokens;
        let ghost cur = self@.current as int;
        let token = self.get_current_token();
        match token.token_type {
            TokenType::String => {},
            TokenType::Boolean => {
                let value = match Parser::get_value(token.value.as_ref()) {
                    Ok(v) => v,
                    Err(m) => {
                        return Err(m);
                    },
                };
                if !Parser::is_boolean(value) {
                    return Err(Parser::token_error(token.position, token.value.as_ref()));
                }
            },
            TokenType::Number => {
                let value = match Parser::get_value(token.value.as_ref()) {
                    Ok(v) => v,
                    Err(m) => {
                        return Err(m);
                    },
                };
                if !Parser::is_number(value) {
                    return Err(Parser::token_error(token.position, token.value.as_ref()));
                }
            },
            TokenType::Null => {
                let value = match Parser::get_value(token.value.as_ref()) {
                    Ok(v) => v,
                    Err(m) => {
                        return Err(m);
                    },
                };
                if !Parser::is_null(value) {
                    return Err(Parser::token_error(token.position, token.value.as_ref()));
                }
            },
            TokenType::LeftBrace => {
                proof {
                    lemma_not_last(ts, cur);
                }
                self.advance();
                match self.validate_object() {
                    Ok(u) => {},
                    Err(m) => {
                        return Err(m);
                    },
                }
            },
            TokenType::LeftBracket => {
                proof {
                    lemma_not_last(ts, cur);
                }
                self.advance();
                match self.validate_array() {
                    Ok(u) => {},
                    Err(m) => {
                        return Err(m);
                    },
                }
            },
            _ => {
                return Err(Parser::token_error(token.position, token.value.as_ref()));
            },
        }
        Ok(())
    }

    /// Validates an object body with the cursor just past the opening
    /// brace, leaving the cursor on the closing brace, exactly as
    /// [`spec_object`] states.
    #[verifier::loop_isolation(false)]
    fn validate_object(&mut self) -> (r: Result<(), String>)
        requires
            old(self).wf(),
        ensures
            final(self).wf(),
            final(self)@.tokens == old(self)@.tokens,
            match spec_object(old(self)@.tokens, old(self)@.current as int) {
                Ok(k) => r is Ok && final(self)@.current == k,
                Err(e) => r matches Err(m) && m@ == violation_msg(e),
            },
        decreases old(self)@.tokens.len() - old(self)@.current, 1int,
    {
        let ghost ts = self@.tokens;
        let ghost cur0 = self@.current as int;
        let mut done = false;
        while !done
            invariant
                self.wf(),
                self@.tokens == ts,
                cur0 <= self@.current as int,
                !done ==> spec_object(ts, cur0) == spec_object(ts, self@.current as int),
                done ==> spec_object(ts, cur0) == Ok::<int, Violation>(self@.current as int),
            decreases ts.len() - self@.current + (if done {
                0int
            } else {
                1int
            }),
        {
            let ghost c = self@.current as int;
            match self.get_current_token().token_type {
                TokenType::RightBrace => {
                    done = true;
                },
                TokenType::String => {
                    proof {
                        lemma_not_last(ts, c);
                    }
                    self.advance();
                    if !self.is_colon() {
                        let token = self.get_current_token();
                        return Err(Parser::token_error(token.position, token.value.as_ref()));
                    }
                    proof {
                        lemma_not_last(ts, c + 1);
                    }
                    self.advance();
                    match self.validate_value() {
                        Ok(u) => {},
                        Err(m) => {
                            return Err(m);
                        },
                    }
                    proof {
                        lemma_value_range(ts, c + 2);
                        lemma_not_last(ts, self@.current as int);
                    }
                    self.advance();

                    if self.is_comma() {
                        proof {
                            lemma_not_last(ts, self@.current as int);
                        }
                        self.advance();
                        let token = self.get_current_token();
                        if token.token_type != TokenType::String {
                            return Err(Parser::token_error(token.position, token.value.as_ref()));
                        }
                    } else if self.is_right_brace() {
                        done = true;
                    } else {
                        let token = self.get_current_token();
                        return Err(Parser::token_error(token.position, token.value.as_ref()));
                    }
                },
                _ => {
                    let token = self.get_current_token();
                    return Err(Parser::token_error(token.position, token.value.as_ref()));
                },
            }
        }
        Ok(())
    }

    /// Validates an array body with the cursor just past the opening
    /// bracket, leaving the cursor on the closing bracket, exactly as
    /// [`spec_array`] states.
    #[verifier::loop_isolation(false)]
    fn validate_array(&mut self) -> (r: Result<(), String>)
        requires
            old(self).wf(),
        ensures
            final(self).wf(),
            final(self)@.tokens == old(self)@.tokens,
            match spec_array(old(self)@.tokens, old(self)@.current as int) {
                Ok(k) => r is Ok && final(self)@.current == k,
                Err(e) => r matches Err(m) && m@ == violation_msg(e),
            },
        decreases old(self)@.tokens.len() - old(self)@.current, 2int,
    {
        let ghost ts = self@.tokens;
        let ghost cur0 = self@.current as int;
        let mut done = false;
        while !done
            invariant
                self.wf(),
                self@.tokens == ts,
                cur0 <= self@.current as int,
                !done ==> spec_array(ts, cur0) == spec_array(ts, self@.current as int),
                done ==> spec_array(ts, cur0) == Ok::<int, Violation>(self@.current as int),
            decreases ts.len() - self@.current + (if done {
                0int
            } else {
                1int
            }),
        {
            let ghost c = self@.current as int;
            if self.is_right_bracket() {
                done = true;
            } else {
            match self.validate_value() {
                Ok(u) => {},
                Err(m) => {
                    return Err(m);
                },
            }
            proof {
                lemma_value_range(ts, c);
                lemma_not_last(ts, self@.current as int);
            }
            self.advance();

            if self.is_comma() {
                proof {
                    lemma_not_last(ts, self@.current as int);
                }
                self.advance();
                let token = self.get_current_token();
                if self.is_not_valid_array_next_value(&token.token_type) {
                    return Err(Parser::token_error(token.position, token.value.as_ref()));
                }
            } else if self.is_right_bracket() {
                done = true;
            } else {
                let token = self.get_current_token();
                return Err(Parser::token_error(token.position, token.value.as_ref()));
            }
            }
        }
        Ok(())
    }

    /// Checks the first token, exactly as [`spec_first_token`] states: an
    /// empty document is rejected, and a bare scalar must pass its
    /// lexical check and be followed directly by end-of-file.
    fn validate_first_token(&self) -> (r: Result<(), String>)
        requires
            self.wf(),
        ensures
            match spec_first_token(self@.tokens, self@.current as int) {
                Ok(u) => r is Ok,
                Err(e) => r matches Err(m) && m@ == violation_msg(e),
            },
    {
        let token = self.get_current_token();

        if token.token_type == TokenType::EndOfFile {
            return Err(String::from_str("empty JSON file"));
        } else if token.token_type != TokenType::LeftBrace && token.token_type
            != TokenType::LeftBracket {
            match &token.value {
                Some(value) => {
                    if token.token_type == TokenType::Null && !Parser::is_null(value) {
                        return Err(Parser::token_error(token.position, Some(value)));
                    }
                    if token.token_type == TokenType::Boolean && !Parser::is_boolean(value) {
                        return Err(Parser::token_error(token.position, Some(value)));
                    }
                    if token.token_type == TokenType::Number && !Parser::is_number(value) {
                        return Err(Parser::token_error(token.position, Some(value)));
                    }
                    if !self.expect_end_of_file() {
                        return Err(Parser::token_error(token.position, Some(value)));
                    }
                },
                None => {
                    return Err(Parser::token_error(token.position, None));
                },
            }
        }
        Ok(())
    }

    /// Validates the whole document, exactly as [`spec_parse`] states:
    /// one top-level value, nothing but end-of-file after it, and the
    /// first violation reported with its position. Success returns the
    /// neutral code zero.
    pub fn parse(&mut self) -> (r: Result<i32, String>)
        requires
            old(self).wf(),
        ensures
            final(self).wf(),
            final(self)@.tokens == old(self)@.tokens,
            match spec_parse(old(self)@.tokens, old(self)@.current as int) {
                Ok(u) => r matches Ok(code) && code == 0,
                Err(e) => r matches Err(m) && m@ == violation_msg(e),
            },
    {
        let ghost ts = self@.tokens;
        let ghost cur = self@.current as int;
        match self.validate_first_token() {
            Ok(u) => {},
            Err(m) => {
                return Err(m);
            },
        }
        let token_type = self.get_current_token().token_type;

        if token_type != TokenType::LeftBrace && token_type != TokenType::LeftBracket {
            return Ok(0);
        }
        proof {
            lemma_not_last(ts, cur);
        }
        self.advance();

        match token_type {
            TokenType::LeftBrace => {
                match self.validate_object() {
                    Ok(u) => {},
                    Err(m) => {
                        return Err(m);
                    },
                }
            },
            _ => {
                match self.validate_array() {
                    Ok(u) => {},
                    Err(m) => {
                        return Err(m);
                    },
                }
            },
        }
        if !self.expect_end_of_file() {
            let token = self.get_current_token();
            return Err(Parser::token_error(token.position, token.value.as_ref()));
        }
        Ok(0)
    }
}

} // verus!
