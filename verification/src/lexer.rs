use vstd::prelude::*;
use vstd::string::*;

use crate::token::Token;
use crate::token::TokenType;
use crate::token::TokenView;
use crate::token::stream_wf;
use crate::token::token_views;

verus! {

/// A character the scanner skips or stops at: the Unicode `White_Space`
/// set, exactly as `char::is_whitespace` recognises it.
pub open spec fn is_ws(c: char) -> bool {
    let u = c as u32;
    u == 0x20 || (0x09 <= u && u <= 0x0D) || u == 0x85 || u == 0xA0 || u == 0x1680 || (0x2000
        <= u && u <= 0x200A) || u == 0x2028 || u == 0x2029 || u == 0x202F || u == 0x205F || u
        == 0x3000
}

/// Decides [`is_ws`].
pub fn is_whitespace_char(c: char) -> (b: bool)
    ensures
        b == is_ws(c),
{
    let u = c as u32;
    u == 0x20 || (0x09 <= u && u <= 0x0D) || u == 0x85 || u == 0xA0 || u == 0x1680 || (0x2000
        <= u && u <= 0x200A) || u == 0x2028 || u == 0x2029 || u == 0x202F || u == 0x205F || u
        == 0x3000
}

/// String scanning, started just past an opening quote: the accumulated
/// characters up to (and excluding) the first quote or newline, and the
/// number of characters consumed, terminator included. A newline ends the
/// span silently; so does running out of input.
pub open spec fn string_scan(s: Seq<char>) -> (Seq<char>, nat)
    decreases s.len(),
{
    if s.len() == 0 {
        (Seq::<char>::empty(), 0nat)
    } else if s[0] == '\n' || s[0] == '"' {
        (Seq::<char>::empty(), 1nat)
    } else {
        let r = string_scan(s.drop_first());
        (seq![s[0]] + r.0, r.1 + 1)
    }
}

pub proof fn lemma_string_scan_len(s: Seq<char>)
    ensures
        string_scan(s).1 <= s.len(),
    decreases s.len(),
{
    if s.len() > 0 && !(s[0] == '\n' || s[0] == '"') {
        lemma_string_scan_len(s.drop_first());
    }
}

/// Non-string scanning, started just past the seed character: the
/// accumulated characters, the number of characters consumed, and the
/// terminator when the scan ended at a comma, right brace or right
/// bracket rather than at whitespace or the end of the input.
pub open spec fn nonstring_scan(s: Seq<char>) -> (Seq<char>, nat, Option<char>)
    decreases s.len(),
{
    if s.len() == 0 {
        (Seq::<char>::empty(), 0nat, None)
    } else if is_ws(s[0]) {
        (Seq::<char>::empty(), 1nat, None)
    } else if s[0] == ',' || s[0] == '}' || s[0] == ']' {
        (Seq::<char>::empty(), 1nat, Some(s[0]))
    } else {
        let r = nonstring_scan(s.drop_first());
        (seq![s[0]] + r.0, r.1 + 1, r.2)
    }
}

pub proof fn lemma_nonstring_scan_len(s: Seq<char>)
    ensures
        nonstring_scan(s).1 <= s.len(),
    decreases s.len(),
{
    if s.len() > 0 && !is_ws(s[0]) && !(s[0] == ',' || s[0] == '}' || s[0] == ']') {
        lemma_nonstring_scan_len(s.drop_first());
    }
}

/// The kind of the token synthesized for a non-string terminator. Note
/// that a `}` terminator yields `LeftBrace` and a `]` yields
/// `LeftBracket`: the synthesized kind mirrors the terminator's family
/// but reuses the opening kind, a deliberate quirk of this lexer that
/// the validator's callers must live with.
pub open spec fn terminator_kind(c: char) -> TokenType {
    if c == ',' {
        TokenType::Comma
    } else if c == '}' {
        TokenType::LeftBrace
    } else {
        TokenType::LeftBracket
    }
}

/// The tokens emitted for a non-string literal: the literal itself (seed
/// character plus scanned text, positioned past its span) and, when the
/// scan ended at a terminator, a second synthesized token at the same
/// position.
pub open spec fn literal_tokens(
    token_type: TokenType,
    seed: char,
    s: Seq<char>,
    position: nat,
) -> Seq<TokenView> {
    let r = nonstring_scan(s);
    let lit = TokenView { kind: token_type, value: Some(seq![seed] + r.0), position: position + r.1 };
    match r.2 {
        Some(c) => seq![
            lit,
            TokenView { kind: terminator_kind(c), value: None, position: position + r.1 },
        ],
        None => seq![lit],
    }
}

/// The token stream produced by scanning `s` with the running character
/// counter starting at `position`: one forward pass, whitespace skipped
/// without advancing the counter, and a single end-of-file token appended
/// at the final counter value.
pub open spec fn lex_from(s: Seq<char>, position: nat) -> Seq<TokenView>
    decreases s.len(),
{
    if s.len() == 0 {
        seq![TokenView { kind: TokenType::EndOfFile, value: None, position }]
    } else {
        let c = s[0];
        let rest = s.drop_first();
        if is_ws(c) {
            lex_from(rest, position)
        } else if c == '{' {
            seq![TokenView { kind: TokenType::LeftBrace, value: None, position }] + lex_from(
                rest,
                position + 1,
            )
        } else if c == '}' {
            seq![TokenView { kind: TokenType::RightBrace, value: None, position }] + lex_from(
                rest,
                position + 1,
            )
        } else if c == '[' {
            seq![TokenView { kind: TokenType::LeftBracket, value: None, position }] + lex_from(
                rest,
                position + 1,
            )
        } else if c == ']' {
            seq![TokenView { kind: TokenType::RightBracket, value: None, position }] + lex_from(
                rest,
                position + 1,
            )
        } else if c == ':' {
            seq![TokenView { kind: TokenType::Colon, value: None, position }] + lex_from(
                rest,
                position + 1,
            )
        } else if c == ',' {
            seq![TokenView { kind: TokenType::Comma, value: None, position }] + lex_from(
                rest,
                position + 1,
            )
        } else if c == '"' {
            let r = string_scan(rest);
            proof {
                lemma_string_scan_len(rest);
            }
            seq![
                TokenView { kind: TokenType::String, value: Some(r.0), position: position + r.1 },
            ] + lex_from(s.skip(1 + r.1 as int), position + r.1 + 1)
        } else {
            let token_type = if c == 'f' || c == 't' {
                TokenType::Boolean
            } else if c == 'n' {
                TokenType::Null
            } else {
                TokenType::Number
            };
            let r = nonstring_scan(rest);
            proof {
                lemma_nonstring_scan_len(rest);
            }
            literal_tokens(token_type, c, rest, position) + lex_from(
                s.skip(1 + r.1 as int),
                position + r.1 + 1,
            )
        }
    }
}

/// Tokenizing is a pure function of the input text and the starting
/// counter: the same input always yields the same token sequence.
pub proof fn lemma_tokenize_deterministic(
    s: Seq<char>,
    position: nat,
    t1: Seq<TokenView>,
    t2: Seq<TokenView>,
)
    requires
        t1 == lex_from(s, position),
        t2 == lex_from(s, position),
    ensures
        t1 == t2,
{
}

proof fn lemma_wf_prepend(h: Seq<TokenView>, t: Seq<TokenView>)
    requires
        stream_wf(t),
        forall|i: int| 0 <= i < h.len() ==> h[i].kind != TokenType::EndOfFile,
    ensures
        stream_wf(h + t),
{
    assert((h + t).last() == t.last());
    assert forall|i: int| 0 <= i < (h + t).len() - 1 implies (h + t)[i].kind
        != TokenType::EndOfFile by {
        if i >= h.len() {
            assert((h + t)[i] == t[i - h.len()]);
        }
    }
}

/// Every stream the lexer produces is well formed: it ends with exactly
/// one end-of-file token, whatever the input looked like.
pub proof fn lemma_lex_from_wf(s: Seq<char>, position: nat)
    ensures
        stream_wf(lex_from(s, position)),
    decreases s.len(),
{
    if s.len() == 0 {
    } else {
        let c = s[0];
        let rest = s.drop_first();
        if is_ws(c) {
            lemma_lex_from_wf(rest, position);
        } else if c == '{' || c == '}' || c == '[' || c == ']' || c == ':' || c == ',' {
            lemma_lex_from_wf(rest, position + 1);
            let kind = if c == '{' {
                TokenType::LeftBrace
            } else if c == '}' {
                TokenType::RightBrace
            } else if c == '[' {
                TokenType::LeftBracket
            } else if c == ']' {
                TokenType::RightBracket
            } else if c == ':' {
                TokenType::Colon
            } else {
                TokenType::Comma
            };
            let h = seq![TokenView { kind, value: None, position }];
            assert(lex_from(s, position) == h + lex_from(rest, position + 1));
            lemma_wf_prepend(h, lex_from(rest, position + 1));
        } else if c == '"' {
            let r = string_scan(rest);
            lemma_string_scan_len(rest);
            lemma_lex_from_wf(s.skip(1 + r.1 as int), position + r.1 + 1);
            let h = seq![
                TokenView { kind: TokenType::String, value: Some(r.0), position: position + r.1 },
            ];
            lemma_wf_prepend(h, lex_from(s.skip(1 + r.1 as int), position + r.1 + 1));
        } else {
            let token_type = if c == 'f' || c == 't' {
                TokenType::Boolean
            } else if c == 'n' {
                TokenType::Null
            } else {
                TokenType::Number
            };
            let r = nonstring_scan(rest);
            lemma_nonstring_scan_len(rest);
            lemma_lex_from_wf(s.skip(1 + r.1 as int), position + r.1 + 1);
            let h = literal_tokens(token_type, c, rest, position);
            assert(forall|i: int| 0 <= i < h.len() ==> h[i].kind != TokenType::EndOfFile);
            lemma_wf_prepend(h, lex_from(s.skip(1 + r.1 as int), position + r.1 + 1));
        }
    }
}

/// The lexer: owns the input text, a running character counter, and the
/// append-only token list for the duration of one `tokenize` call.
pub struct Lexer {
    content: String,
    position: usize,
    tokens: Vec<Token>,
}

/// The mathematical image of a `Lexer`.
#[verifier::ext_equal]
pub struct LexerView {
    pub content: Seq<char>,
    pub position: nat,
    pub tokens: Seq<TokenView>,
}

impl View for Lexer {
    type V = LexerView;

    closed spec fn view(&self) -> LexerView {
        LexerView {
            content: self.content@,
            position: self.position as nat,
            tokens: token_views(self.tokens@),
        }
    }
}

impl Lexer {
    /// A fresh lexer over the given text: counter at zero, no tokens yet.
    pub fn new(content: String) -> (l: Lexer)
        ensures
            l@.content == content@,
            l@.position == 0,
            l@.tokens == Seq::<TokenView>::empty(),
    {
        let l = Lexer { content, position: 0, tokens: Vec::new() };
        proof {
            assert(l@.tokens =~= Seq::<TokenView>::empty());
        }
        l
    }

    /// The tokens produced so far, read-only.
    pub fn get_tokens(&self) -> (r: &Vec<Token>)
        ensures
            token_views(r@) == self@.tokens,
    {
        &self.tokens
    }

    /// String scanning over `s` starting at character index `from`, just
    /// past an opening quote; returns the accumulated text and the number
    /// of characters consumed, exactly as [`string_scan`] states.
    fn tokenize_string(s: &str, from: usize) -> (r: (String, usize))
        requires
            from as nat <= s@.len(),
        ensures
            r.0@ == string_scan(s@.skip(from as int)).0,
            r.1 as nat == string_scan(s@.skip(from as int)).1,
            from + r.1 <= s@.len(),
    {
        let n = s.unicode_len();
        let mut str_content = String::new();
        let mut i: usize = from;
        let mut stopped = false;
        while !stopped && i < n
            invariant
                from <= i <= n,
                n as nat == s@.len(),
                stopped ==> {
                    &&& str_content@ == string_scan(s@.skip(from as int)).0
                    &&& (i - from) as nat == string_scan(s@.skip(from as int)).1
                },
                !stopped ==> {
                    &&& string_scan(s@.skip(from as int)).0 == str_content@ + string_scan(
                        s@.skip(i as int),
                    ).0
                    &&& string_scan(s@.skip(from as int)).1 == (i - from) + string_scan(
                        s@.skip(i as int),
                    ).1
                },
            decreases n - i,
        {
            let c = s.get_char(i);
            proof {
                assert(s@.skip(i as int)[0] == c);
                assert(s@.skip(i as int).drop_first() =~= s@.skip(i + 1 as int));
            }
            let ghost prev = str_content@;
            i = i + 1;
            if c == '\n' || c == '"' {
                stopped = true;
                proof {
                    assert(str_content@ + string_scan(s@.skip(i as int - 1)).0 =~= str_content@);
                }
            } else {
                str_content.push(c);
                proof {
                    assert(prev + string_scan(s@.skip(i - 1 as int)).0 =~= str_content@
                        + string_scan(s@.skip(i as int)).0);
                }
            }
        }
        if !stopped {
            proof {
                assert(s@.skip(i as int) =~= Seq::<char>::empty());
                assert(str_content@ + string_scan(s@.skip(i as int)).0 =~= str_content@);
            }
        }
        (str_content, i - from)
    }

    /// Non-string scanning over `s` starting at character index `from`,
    /// just past the seed character; returns the accumulated text, the
    /// number of characters consumed and the terminator, exactly as
    /// [`nonstring_scan`] states.
    fn tokenize_non_string(s: &str, from: usize) -> (r: (String, usize, Option<char>))
        requires
            from as nat <= s@.len(),
        ensures
            r.0@ == nonstring_scan(s@.skip(from as int)).0,
            r.1 as nat == nonstring_scan(s@.skip(from as int)).1,
            r.2 == nonstring_scan(s@.skip(from as int)).2,
            from + r.1 <= s@.len(),
    {
        let n = s.unicode_len();
        let mut content = String::new();
        let mut end_char: Option<char> = None;
        let mut i: usize = from;
        let mut stopped = false;
        while !stopped && i < n
            invariant
                from <= i <= n,
                n as nat == s@.len(),
                stopped ==> {
                    &&& content@ == nonstring_scan(s@.skip(from as int)).0
                    &&& (i - from) as nat == nonstring_scan(s@.skip(from as int)).1
                    &&& end_char == nonstring_scan(s@.skip(from as int)).2
                },
                !stopped ==> {
                    &&& end_char is None
                    &&& nonstring_scan(s@.skip(from as int)).0 == content@ + nonstring_scan(
                        s@.skip(i as int),
                    ).0
                    &&& nonstring_scan(s@.skip(from as int)).1 == (i - from) + nonstring_scan(
                        s@.skip(i as int),
                    ).1
                    &&& nonstring_scan(s@.skip(from as int)).2 == nonstring_scan(
                        s@.skip(i as int),
                    ).2
                },
            decreases n - i,
        {
            let c = s.get_char(i);
            proof {
                assert(s@.skip(i as int)[0] == c);
                assert(s@.skip(i as int).drop_first() =~= s@.skip(i + 1 as int));
            }
            let ghost prev = content@;
            i = i + 1;
            if is_whitespace_char(c) {
                stopped = true;
                proof {
                    assert(content@ + nonstring_scan(s@.skip(i as int - 1)).0 =~= content@);
                }
            } else if c == ',' || c == '}' || c == ']' {
                end_char = Some(c);
                stopped = true;
                proof {
                    assert(content@ + nonstring_scan(s@.skip(i as int - 1)).0 =~= content@);
                }
            } else {
                content.push(c);
                proof {
                    assert(prev + nonstring_scan(s@.skip(i - 1 as int)).0 =~= content@
                        + nonstring_scan(s@.skip(i as int)).0);
                }
            }
        }
        if !stopped {
            proof {
                assert(s@.skip(i as int) =~= Seq::<char>::empty());
                assert(content@ + nonstring_scan(s@.skip(i as int)).0 =~= content@);
            }
        }
        (content, i - from, end_char)
    }

    /// Builds the token or token pair for a non-string literal whose seed
    /// character sits just before index `from`, exactly as
    /// [`literal_tokens`] states; also returns the number of characters
    /// the scan consumed.
    fn non_string_token_gen(
        s: &str,
        from: usize,
        seed: char,
        token_type: TokenType,
        position: usize,
    ) -> (r: (Vec<Token>, usize))
        requires
            from as nat <= s@.len(),
            position + s@.len() - from <= usize::MAX,
        ensures
            token_views(r.0@) == literal_tokens(
                token_type,
                seed,
                s@.skip(from as int),
                position as nat,
            ),
            r.1 as nat == nonstring_scan(s@.skip(from as int)).1,
            from + r.1 <= s@.len(),
    {
        let (scanned, count, end_char) = Self::tokenize_non_string(s, from);
        let mut content = String::new();
        content.push(seed);
        content.append(scanned.as_str());
        proof {
            assert(content@ =~= seq![seed] + nonstring_scan(s@.skip(from as int)).0);
        }
        let mut tokens: Vec<Token> = Vec::new();
        tokens.push(Token::new(token_type, Some(content), position + count));
        match end_char {
            Some(c) => {
                if c == ',' {
                    tokens.push(Token::new(TokenType::Comma, None, position + count));
                } else if c == '}' {
                    tokens.push(Token::new(TokenType::LeftBrace, None, position + count));
                } else {
                    tokens.push(Token::new(TokenType::LeftBracket, None, position + count));
                }
            },
            None => {},
        }
        proof {
            assert(token_views(tokens@) =~= literal_tokens(
                token_type,
                seed,
                s@.skip(from as int),
                position as nat,
            ));
        }
        (tokens, count)
    }

    /// Consumes the whole input in one forward pass, appending the token
    /// stream that [`lex_from`] states, end-of-file marker included. It
    /// never fails: malformed input is left for the validator to reject.
    pub fn tokenize(&mut self)
        requires
            old(self)@.position + old(self)@.content.len() <= usize::MAX,
        ensures
            final(self)@.content == old(self)@.content,
            final(self)@.tokens == old(self)@.tokens + lex_from(
                old(self)@.content,
                old(self)@.position,
            ),
    {
        let ghost s0 = self@.content;
        let ghost p0 = self@.position;
        let ghost base = self@.tokens;
        let n = self.content.as_str().unicode_len();
        let mut i: usize = 0;
        proof {
            assert(s0.skip(0) =~= s0);
        }
        while i < n
            invariant
                i <= n,
                n as nat == s0.len(),
                self@.content == s0,
                self@.position + s0.len() - i <= usize::MAX,
                base + lex_from(s0, p0) == self@.tokens + lex_from(
                    s0.skip(i as int),
                    self@.position,
                ),
            decreases n - i,
        {
            let c = self.content.as_str().get_char(i);
            let ghost toks0 = self@.tokens;
            let ghost pos0 = self@.position;
            proof {
                assert(s0.skip(i as int)[0] == c);
                assert(s0.skip(i as int).drop_first() =~= s0.skip(i + 1 as int));
            }
            if is_whitespace_char(c) {
                i = i + 1;
            } else if c == '{' || c == '}' || c == '[' || c == ']' || c == ':' || c == ',' {
                let kind = if c == '{' {
                    TokenType::LeftBrace
                } else if c == '}' {
                    TokenType::RightBrace
                } else if c == '[' {
                    TokenType::LeftBracket
                } else if c == ']' {
                    TokenType::RightBracket
                } else if c == ':' {
                    TokenType::Colon
                } else {
                    TokenType::Comma
                };
                self.tokens.push(Token::new(kind, None, self.position));
                proof {
                    let tv = TokenView { kind, value: None, position: pos0 };
                    assert(lex_from(s0.skip(i as int), pos0) == seq![tv] + lex_from(
                        s0.skip(i + 1 as int),
                        pos0 + 1,
                    ));
                    assert(self@.tokens =~= toks0.push(tv));
                    assert(toks0 + (seq![tv] + lex_from(s0.skip(i + 1 as int), pos0 + 1)) =~= self@.tokens
                        + lex_from(s0.skip(i + 1 as int), pos0 + 1));
                }
                self.position = self.position + 1;
                i = i + 1;
            } else if c == '"' {
                let (str_content, count) = Self::tokenize_string(self.content.as_str(), i + 1);
                let ghost cs = str_content@;
                self.position = self.position + count;
                self.tokens.push(
                    Token::new(TokenType::String, Some(str_content), self.position),
                );
                self.position = self.position + 1;
                proof {
                    let r = string_scan(s0.skip(i as int).drop_first());
                    assert(s0.skip(i as int).drop_first() =~= s0.skip(i + 1 as int));
                    assert(r.0 == cs && r.1 == count as nat);
                    assert(s0.skip(i as int).skip(1 + r.1 as int) =~= s0.skip(
                        i + 1 + count as int,
                    ));
                    let h = seq![
                        TokenView {
                            kind: TokenType::String,
                            value: Some(cs),
                            position: (pos0 + count) as nat,
                        },
                    ];
                    assert(lex_from(s0.skip(i as int), pos0) == h + lex_from(
                        s0.skip(i + 1 + count as int),
                        (pos0 + count + 1) as nat,
                    ));
                    assert(self@.tokens =~= toks0 + h);
                    assert(toks0 + (h + lex_from(s0.skip(i + 1 + count as int), (pos0 + count + 1) as nat))
                        =~= (toks0 + h) + lex_from(s0.skip(i + 1 + count as int), (pos0 + count + 1) as nat));
                }
                i = i + 1 + count;
            } else {
                let token_type = if c == 'f' || c == 't' {
                    TokenType::Boolean
                } else if c == 'n' {
                    TokenType::Null
                } else {
                    TokenType::Number
                };
                let (mut new_tokens, count) = Self::non_string_token_gen(
                    self.content.as_str(),
                    i + 1,
                    c,
                    token_type,
                    self.position,
                );
                let ghost h = token_views(new_tokens@);
                self.tokens.append(&mut new_tokens);
                self.position = self.position + count;
                self.position = self.position + 1;
                proof {
                    let r = nonstring_scan(s0.skip(i as int).drop_first());
                    assert(s0.skip(i as int).drop_first() =~= s0.skip(i + 1 as int));
                    assert(r.1 == count as nat);
                    assert(s0.skip(i as int).skip(1 + r.1 as int) =~= s0.skip(
                        i + 1 + count as int,
                    ));
                    assert(h == literal_tokens(token_type, c, s0.skip(i + 1 as int), pos0));
                    assert(lex_from(s0.skip(i as int), pos0) == h + lex_from(
                        s0.skip(i + 1 + count as int),
                        (pos0 + count + 1) as nat,
                    ));
                    assert(self@.tokens =~= toks0 + h);
                    assert(toks0 + (h + lex_from(s0.skip(i + 1 + count as int), (pos0 + count + 1) as nat))
                        =~= (toks0 + h) + lex_from(s0.skip(i + 1 + count as int), (pos0 + count + 1) as nat));
                }
                i = i + 1 + count;
            }
        }
        proof {
            assert(s0.skip(i as int) =~= Seq::<char>::empty());
        }
        self.tokens.push(Token::new(TokenType::EndOfFile, None, self.position));
        proof {
            let eof = TokenView {
                kind: TokenType::EndOfFile,
                value: None,
                position: self@.position,
            };
            assert(lex_from(s0.skip(s0.len() as int), self@.position) == seq![eof]);
            assert(self@.tokens =~= base + lex_from(s0, p0));
        }
    }
}

} // verus!
