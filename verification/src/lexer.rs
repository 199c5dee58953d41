//! Lexical scanning: turns source text into a stream of [`Token`]s.
//!
//! The scanner is a single left-to-right fold over the characters of the
//! input; its behaviour is pinned down by the spec-level fold
//! [`spec_tokenize`], which the executable [`Lexer::tokenize`] mirrors
//! exactly.

use vstd::prelude::*;

use crate::CompileError;

verus! {

/// The kind tag of a token.
#[derive(Clone, Copy, Debug, PartialEq, Eq, Structural)]
pub enum TokenType {
    Identifier,
    Keyword,
    Number,
    Operator,
    SemiColon,
}

/// The operator sub-kind carried by operator tokens.
#[derive(Clone, Copy, Debug, PartialEq, Eq, Structural)]
pub enum OperatorType {
    Plus,
    Minus,
    Multiply,
    Equals,
}

/// The keyword sub-kind carried by keyword tokens.
#[derive(Clone, Copy, Debug, PartialEq, Eq, Structural)]
pub enum KeywordType {
    Let,
    Exit,
}

/// The mathematical image of a [`Token`]: the same fields with the text as
/// a sequence of characters.
pub struct SpecToken {
    pub token_type: TokenType,
    pub op_type: Option<OperatorType>,
    pub keyword_type: Option<KeywordType>,
    pub value: Seq<char>,
}

/// One lexical unit of the source text.
#[derive(Debug)]
pub struct Token {
    pub token_type: TokenType,
    pub op_type: Option<OperatorType>,
    pub keyword_type: Option<KeywordType>,
    pub value: String,
}

impl View for Token {
    type V = SpecToken;

    open spec fn view(&self) -> SpecToken {
        SpecToken {
            token_type: self.token_type,
            op_type: self.op_type,
            keyword_type: self.keyword_type,
            value: self.value@,
        }
    }
}

impl Clone for Token {
    fn clone(&self) -> (t: Token)
        ensures
            t@ == self@,
    {
        Token {
            token_type: self.token_type,
            op_type: self.op_type,
            keyword_type: self.keyword_type,
            value: self.value.clone(),
        }
    }
}

impl Token {
    /// A fresh, empty token: an identifier with no text yet.
    pub fn new() -> (t: Token)
        ensures
            t@ == blank_token(),
    {
        Token {
            token_type: TokenType::Identifier,
            op_type: None,
            keyword_type: None,
            value: String::new(),
        }
    }
}

/// The token the scanner starts each lexical unit from.
pub open spec fn blank_token() -> SpecToken {
    SpecToken {
        token_type: TokenType::Identifier,
        op_type: None,
        keyword_type: None,
        value: Seq::empty(),
    }
}

/// The token emitted for each `;` separator.
pub open spec fn semicolon_token() -> SpecToken {
    SpecToken {
        token_type: TokenType::SemiColon,
        op_type: None,
        keyword_type: None,
        value: ";"@,
    }
}

/// The views of a sequence of tokens.
pub open spec fn tokens_view(s: Seq<Token>) -> Seq<SpecToken> {
    s.map_values(|t: Token| t@)
}

pub proof fn lemma_tokens_view_push(s: Seq<Token>, t: Token)
    ensures
        tokens_view(s.push(t)) == tokens_view(s).push(t@),
{
    assert(tokens_view(s.push(t)) =~= tokens_view(s).push(t@));
}

/// Whether the character has the Unicode `Alphabetic` property.
pub uninterp spec fn alphabetic(c: char) -> bool;

/// Whether the character has a Unicode numeric property.
pub uninterp spec fn numeric(c: char) -> bool;

/// The Unicode lowercase mapping of a sequence of characters.
pub uninterp spec fn lower_of(s: Seq<char>) -> Seq<char>;

/// Relies on `char::is_alphabetic`: whether the character is alphabetic
/// under Unicode, a function of the character alone.
pub assume_specification[ char::is_alphabetic ](c: char) -> (r: bool)
    ensures
        r == alphabetic(c),
;

/// Relies on `char::is_numeric`: whether the character is numeric under
/// Unicode, a function of the character alone.
pub assume_specification[ char::is_numeric ](c: char) -> (r: bool)
    ensures
        r == numeric(c),
;

/// Relies on `str::to_lowercase`: the Unicode lowercase form of the text,
/// a function of the characters alone.
#[verifier::external_body]
fn lowercase(s: &str) -> (r: String)
    ensures
        r@ == lower_of(s@),
{
    s.to_lowercase()
}

/// Relies on `String::push`: appends the given character to the end of the
/// string.
#[verifier::external_body]
fn push_char(s: &mut String, c: char)
    ensures
        final(s)@ == old(s)@.push(c),
{
    s.push(c);
}

/// The keyword, if any, that a token's text spells (case-insensitively).
pub open spec fn keyword_of(v: Seq<char>) -> Option<KeywordType> {
    if lower_of(v) == "exit"@ {
        Some(KeywordType::Exit)
    } else if lower_of(v) == "let"@ {
        Some(KeywordType::Let)
    } else {
        None
    }
}

/// What finishing the token under construction adds to the output: nothing
/// for an empty token, else the token itself with keywords recognised.
pub open spec fn push_token_spec(cur: SpecToken, out: Seq<SpecToken>) -> Seq<SpecToken> {
    if cur.value.len() == 0 {
        out
    } else {
        let kw = keyword_of(cur.value);
        out.push(
            SpecToken {
                token_type: if kw is Some {
                    TokenType::Keyword
                } else {
                    cur.token_type
                },
                op_type: cur.op_type,
                keyword_type: kw,
                value: cur.value,
            },
        )
    }
}

/// The scanner's state: the token under construction and the tokens
/// already emitted.
pub struct LexState {
    pub cur: SpecToken,
    pub out: Seq<SpecToken>,
}

pub open spec fn initial_lex_state() -> LexState {
    LexState { cur: blank_token(), out: Seq::empty() }
}

/// One step of the scanning fold, on a single character.
pub open spec fn lex_step(st: LexState, c: char) -> Result<LexState, CompileError> {
    if alphabetic(c) {
        if st.cur.token_type == TokenType::Number {
            Err(CompileError::NumberPrefixedIdentifier)
        } else {
            Ok(LexState { cur: SpecToken { value: st.cur.value.push(c), ..st.cur }, ..st })
        }
    } else if numeric(c) {
        let t1 = if st.cur.value.len() == 0 {
            SpecToken { token_type: TokenType::Number, ..st.cur }
        } else {
            st.cur
        };
        Ok(LexState { cur: SpecToken { value: t1.value.push(c), ..t1 }, ..st })
    } else if c == '=' || c == '+' || c == '-' || c == '*' || c == '/' {
        if c == '=' && st.cur.value.len() > 1 {
            Err(CompileError::MisplacedEquals)
        } else if c == '/' {
            Err(CompileError::UnsupportedOperator)
        } else {
            let t1 = if c == '=' || st.cur.value.len() == 0 {
                SpecToken { token_type: TokenType::Operator, ..st.cur }
            } else {
                st.cur
            };
            let op = if c == '+' {
                OperatorType::Plus
            } else if c == '-' {
                OperatorType::Minus
            } else if c == '*' {
                OperatorType::Multiply
            } else {
                OperatorType::Equals
            };
            Ok(LexState { cur: SpecToken { op_type: Some(op), value: t1.value.push(c), ..t1 }, ..st })
        }
    } else if c == ';' {
        Ok(
            LexState {
                cur: blank_token(),
                out: push_token_spec(st.cur, st.out).push(semicolon_token()),
            },
        )
    } else {
        Ok(LexState { cur: blank_token(), out: push_token_spec(st.cur, st.out) })
    }
}

/// The scanning fold from position `i` onward; at the end of the text the
/// token still under construction is finished.
pub open spec fn lex_from(text: Seq<char>, i: int, st: LexState) -> Result<
    Seq<SpecToken>,
    CompileError,
>
    decreases text.len() - i,
{
    if i < 0 || i >= text.len() {
        Ok(push_token_spec(st.cur, st.out))
    } else {
        match lex_step(st, text[i]) {
            Ok(st2) => lex_from(text, i + 1, st2),
            Err(e) => Err(e),
        }
    }
}

/// The token stream of a source text, or the first scanning fault.
pub open spec fn spec_tokenize(text: Seq<char>) -> Result<Seq<SpecToken>, CompileError> {
    lex_from(text, 0, initial_lex_state())
}

/// The lexical scanner.
pub struct Lexer {}

impl Lexer {
    pub fn new() -> (r: Lexer) {
        Lexer {  }
    }

    /// Scans the source text into tokens, exactly as [`spec_tokenize`]
    /// describes: identifiers and numbers grow character by character,
    /// operators are tagged with their kind, `;` both finishes the current
    /// token and stands alone, and any other character only finishes the
    /// current token.
    pub fn tokenize(&self, text: String) -> (r: Result<Vec<Token>, CompileError>)
        ensures
            match r {
                Ok(v) => spec_tokenize(text@) == Ok::<Seq<SpecToken>, CompileError>(
                    tokens_view(v@),
                ),
                Err(e) => spec_tokenize(text@) == Err::<Seq<SpecToken>, CompileError>(e),
            },
    {
        let mut tokens: Vec<Token> = Vec::new();
        let mut token: Token = Token::new();
        let s = text.as_str();
        let n = s.unicode_len();
        let mut i: usize = 0;
        proof {
            assert(tokens_view(tokens@) =~= Seq::<SpecToken>::empty());
        }
        while i < n
            invariant
                n == text@.len(),
                s@ == text@,
                i <= n,
                lex_from(text@, i as int, LexState { cur: token@, out: tokens_view(tokens@) })
                    == spec_tokenize(text@),
            decreases n - i,
        {
            let ghost st = LexState { cur: token@, out: tokens_view(tokens@) };
            let c = s.get_char(i);
            if c.is_alphabetic() {
                if token.token_type == TokenType::Number {
                    return Err(CompileError::NumberPrefixedIdentifier);
                }
                push_char(&mut token.value, c);
            } else if c.is_numeric() {
                if token.value.as_str().is_empty() {
                    token.token_type = TokenType::Number;
                }
                push_char(&mut token.value, c);
            } else if c == '=' || c == '+' || c == '-' || c == '*' || c == '/' {
                let len = token.value.as_str().unicode_len();
                if c == '=' && len > 1 {
                    return Err(CompileError::MisplacedEquals);
                }
                if c == '/' {
                    return Err(CompileError::UnsupportedOperator);
                }
                if c == '=' || len == 0 {
                    token.token_type = TokenType::Operator;
                }
                if c == '+' {
                    token.op_type = Some(OperatorType::Plus);
                } else if c == '-' {
                    token.op_type = Some(OperatorType::Minus);
                } else if c == '*' {
                    token.op_type = Some(OperatorType::Multiply);
                } else {
                    token.op_type = Some(OperatorType::Equals);
                }
                push_char(&mut token.value, c);
            } else if c == ';' {
                self.push_token(token, &mut tokens);
                token = Token::new();
                let semi = Token {
                    token_type: TokenType::SemiColon,
                    op_type: None,
                    keyword_type: None,
                    value: String::from_str(";"),
                };
                proof {
                    lemma_tokens_view_push(tokens@, semi);
                    assert(semi@ == semicolon_token());
                }
                tokens.push(semi);
            } else {
                self.push_token(token, &mut tokens);
                token = Token::new();
            }
            proof {
                assert(lex_step(st, text@[i as int]) == Ok::<LexState, CompileError>(
                    LexState { cur: token@, out: tokens_view(tokens@) },
                ));
            }
            i = i + 1;
        }
        self.push_token(token, &mut tokens);
        Ok(tokens)
    }

    /// Finishes the token under construction: an empty token is dropped; a
    /// non-empty one has keywords recognised and joins the output.
    fn push_token(&self, token: Token, tokens: &mut Vec<Token>)
        ensures
            tokens_view(final(tokens)@) == push_token_spec(token@, tokens_view(old(tokens)@)),
    {
        if token.value.as_str().is_empty() {
            return ;
        }
        let lowered = lowercase(token.value.as_str());
        let kw: Option<KeywordType> = if lowered == String::from_str("exit") {
            Some(KeywordType::Exit)
        } else if lowered == String::from_str("let") {
            Some(KeywordType::Let)
        } else {
            None
        };
        let mut t = token;
        t.keyword_type = kw;
        if kw.is_some() {
            t.token_type = TokenType::Keyword;
        }
        proof {
            lemma_tokens_view_push(tokens@, t);
        }
        tokens.push(t);
    }
}

} // verus!
