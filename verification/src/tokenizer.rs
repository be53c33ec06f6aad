//! The tokenizer: raw statement text to a sequence of lexical tokens.
//!
//! Whitespace is skipped; the punctuation `( ) , = ; *` are single-character
//! tokens; a single-quoted run is a string literal (an unterminated one
//! consumes to the end of the input); a maximal digit run is an integer
//! literal, rejected when it exceeds the 32-bit signed range; a maximal
//! word run is matched case-insensitively against the keyword set, and
//! otherwise is an identifier preserving its case.  Any other character is
//! a tokenizing error.

use vstd::prelude::*;
use vstd::string::StrSliceExecFns;
use crate::digits::{is_digit, digit_val, digits_val, lemma_digits_val_nonneg};
use crate::text::{eq_ignore_ascii_case, str_eq_ignore_case};

verus! {

/// A lexical token.
#[derive(Debug, Clone, PartialEq)]
pub enum Token {
    Insert,
    Into,
    Values,
    LeftParen,
    RightParen,
    Comma,
    Equals,
    Semicolon,
    String(String),
    Int(i32),
    Identifier(String),
    Select,
    From,
    Star,
    Delete,
    Create,
    Update,
    SetKw,
    Where,
}

/// The mathematical model of a token.
pub enum SpecToken {
    Insert,
    Into,
    Values,
    LeftParen,
    RightParen,
    Comma,
    Equals,
    Semicolon,
    String(Seq<char>),
    Int(int),
    Identifier(Seq<char>),
    Select,
    From,
    Star,
    Delete,
    Create,
    Update,
    SetKw,
    Where,
}

impl View for Token {
    type V = SpecToken;

    open spec fn view(&self) -> SpecToken {
        match self {
            Token::Insert => SpecToken::Insert,
            Token::Into => SpecToken::Into,
            Token::Values => SpecToken::Values,
            Token::LeftParen => SpecToken::LeftParen,
            Token::RightParen => SpecToken::RightParen,
            Token::Comma => SpecToken::Comma,
            Token::Equals => SpecToken::Equals,
            Token::Semicolon => SpecToken::Semicolon,
            Token::String(s) => SpecToken::String(s@),
            Token::Int(i) => SpecToken::Int(*i as int),
            Token::Identifier(s) => SpecToken::Identifier(s@),
            Token::Select => SpecToken::Select,
            Token::From => SpecToken::From,
            Token::Star => SpecToken::Star,
            Token::Delete => SpecToken::Delete,
            Token::Create => SpecToken::Create,
            Token::Update => SpecToken::Update,
            Token::SetKw => SpecToken::SetKw,
            Token::Where => SpecToken::Where,
        }
    }
}

impl DeepView for Token {
    type V = SpecToken;

    open spec fn deep_view(&self) -> SpecToken {
        self.view()
    }
}

/// A fatal scanning error: the input line produces no tokens.
#[derive(Debug, Clone, Copy, PartialEq, Eq, Structural)]
pub enum TokenizeError {
    UnexpectedCharacter(char),
    IntegerOutOfRange,
}

/// Whitespace skipped between tokens.
pub open spec fn is_space(c: char) -> bool {
    c == ' ' || c == '\t' || c == '\n'
}

/// A character that may start a word: an ASCII letter or an underscore.
pub open spec fn is_word_start(c: char) -> bool {
    ('a' <= c && c <= 'z') || ('A' <= c && c <= 'Z') || c == '_'
}

/// A character that may continue a word.
pub open spec fn is_word_char(c: char) -> bool {
    is_word_start(c) || is_digit(c)
}

/// The end of the maximal word run starting at `i`.
pub open spec fn word_end(s: Seq<char>, i: int) -> int
    decreases s.len() - i,
{
    if i < s.len() && is_word_char(s[i]) {
        word_end(s, i + 1)
    } else {
        i
    }
}

/// The end of the maximal digit run starting at `i`.
pub open spec fn digit_end(s: Seq<char>, i: int) -> int
    decreases s.len() - i,
{
    if i < s.len() && is_digit(s[i]) {
        digit_end(s, i + 1)
    } else {
        i
    }
}

/// The position of the first quote at or after `i`, or the input's end.
pub open spec fn quote_end(s: Seq<char>, i: int) -> int
    decreases s.len() - i,
{
    if i < s.len() && s[i] != '\'' {
        quote_end(s, i + 1)
    } else {
        i
    }
}

pub proof fn lemma_word_end(s: Seq<char>, i: int)
    requires
        0 <= i <= s.len(),
    ensures
        i <= word_end(s, i) <= s.len(),
        i < s.len() && is_word_char(s[i]) ==> i + 1 <= word_end(s, i),
    decreases s.len() - i,
{
    if i < s.len() && is_word_char(s[i]) {
        lemma_word_end(s, i + 1);
    }
}

pub proof fn lemma_digit_end(s: Seq<char>, i: int)
    requires
        0 <= i <= s.len(),
    ensures
        i <= digit_end(s, i) <= s.len(),
        i < s.len() && is_digit(s[i]) ==> i + 1 <= digit_end(s, i),
    decreases s.len() - i,
{
    if i < s.len() && is_digit(s[i]) {
        lemma_digit_end(s, i + 1);
    }
}

pub proof fn lemma_quote_end(s: Seq<char>, i: int)
    requires
        0 <= i <= s.len(),
    ensures
        i <= quote_end(s, i) <= s.len(),
    decreases s.len() - i,
{
    if i < s.len() && s[i] != '\'' {
        lemma_quote_end(s, i + 1);
    }
}

/// The token for a completed word run: a keyword, case-insensitively, or an
/// identifier preserving its case.
pub open spec fn spec_word_token(w: Seq<char>) -> SpecToken {
    if eq_ignore_ascii_case(w, "INSERT"@) {
        SpecToken::Insert
    } else if eq_ignore_ascii_case(w, "INTO"@) {
        SpecToken::Into
    } else if eq_ignore_ascii_case(w, "VALUES"@) {
        SpecToken::Values
    } else if eq_ignore_ascii_case(w, "SELECT"@) {
        SpecToken::Select
    } else if eq_ignore_ascii_case(w, "FROM"@) {
        SpecToken::From
    } else if eq_ignore_ascii_case(w, "DELETE"@) {
        SpecToken::Delete
    } else if eq_ignore_ascii_case(w, "CREATE"@) {
        SpecToken::Create
    } else if eq_ignore_ascii_case(w, "UPDATE"@) {
        SpecToken::Update
    } else if eq_ignore_ascii_case(w, "SET"@) {
        SpecToken::SetKw
    } else if eq_ignore_ascii_case(w, "WHERE"@) {
        SpecToken::Where
    } else {
        SpecToken::Identifier(w)
    }
}

/// The token sequence of the input from position `i` on, given the tokens
/// `acc` already produced.
pub open spec fn spec_tokenize_at(s: Seq<char>, i: int, acc: Seq<SpecToken>) -> Result<
    Seq<SpecToken>,
    TokenizeError,
>
    decreases s.len() - i,
    when 0 <= i
{
    if i >= s.len() {
        Ok(acc)
    } else {
        let c = s[i];
        if is_space(c) {
            spec_tokenize_at(s, i + 1, acc)
        } else if c == '(' {
            spec_tokenize_at(s, i + 1, acc.push(SpecToken::LeftParen))
        } else if c == ')' {
            spec_tokenize_at(s, i + 1, acc.push(SpecToken::RightParen))
        } else if c == ',' {
            spec_tokenize_at(s, i + 1, acc.push(SpecToken::Comma))
        } else if c == ';' {
            spec_tokenize_at(s, i + 1, acc.push(SpecToken::Semicolon))
        } else if c == '=' {
            spec_tokenize_at(s, i + 1, acc.push(SpecToken::Equals))
        } else if c == '*' {
            spec_tokenize_at(s, i + 1, acc.push(SpecToken::Star))
        } else if c == '\'' {
            proof {
                lemma_quote_end(s, i + 1);
            }
            let e = quote_end(s, i + 1);
            let acc2 = acc.push(SpecToken::String(s.subrange(i + 1, e)));
            if e < s.len() {
                spec_tokenize_at(s, e + 1, acc2)
            } else {
                spec_tokenize_at(s, e, acc2)
            }
        } else if is_digit(c) {
            proof {
                lemma_digit_end(s, i);
            }
            let e = digit_end(s, i);
            let v = digits_val(s.subrange(i, e));
            if v > i32::MAX {
                Err(TokenizeError::IntegerOutOfRange)
            } else {
                spec_tokenize_at(s, e, acc.push(SpecToken::Int(v)))
            }
        } else if is_word_start(c) {
            proof {
                lemma_word_end(s, i);
            }
            let e = word_end(s, i);
            spec_tokenize_at(s, e, acc.push(spec_word_token(s.subrange(i, e))))
        } else {
            Err(TokenizeError::UnexpectedCharacter(c))
        }
    }
}

/// The token sequence of the whole input, or its first scanning error.
pub open spec fn spec_tokenize(s: Seq<char>) -> Result<Seq<SpecToken>, TokenizeError> {
    spec_tokenize_at(s, 0, Seq::empty())
}

/// Scans the input left to right into tokens, matching `spec_tokenize`.
pub fn tokenize(input: &str) -> (r: Result<Vec<Token>, TokenizeError>)
    ensures
        match r {
            Ok(toks) => spec_tokenize(input@) == Ok::<Seq<SpecToken>, TokenizeError>(
                toks.deep_view(),
            ),
            Err(e) => spec_tokenize(input@) == Err::<Seq<SpecToken>, TokenizeError>(e),
        },
{
    let n = input.unicode_len();
    let mut cs: Vec<char> = Vec::new();
    let mut k: usize = 0;
    while k < n
        invariant
            n == input@.len(),
            k <= n,
            cs@ == input@.subrange(0, k as int),
        decreases n - k,
    {
        cs.push(input.get_char(k));
        assert(cs@ =~= input@.subrange(0, k + 1 as int));
        k += 1;
    }
    assert(cs@ =~= input@);
    let s = cs;

    let mut toks: Vec<Token> = Vec::new();
    assert(toks.deep_view() =~= Seq::<SpecToken>::empty());
    let mut i: usize = 0;
    while i < n
        invariant
            n == s@.len(),
            s@ == input@,
            i <= n,
            spec_tokenize_at(s@, i as int, toks.deep_view()) == spec_tokenize(input@),
        decreases n - i,
    {
        let ghost dv0 = toks.deep_view();
        let ghost i0 = i as int;
        let c = s[i];
        if c == ' ' || c == '\t' || c == '\n' {
            i += 1;
        } else if c == '(' {
            toks.push(Token::LeftParen);
            assert(toks.deep_view() =~= dv0.push(SpecToken::LeftParen));
            i += 1;
        } else if c == ')' {
            toks.push(Token::RightParen);
            assert(toks.deep_view() =~= dv0.push(SpecToken::RightParen));
            i += 1;
        } else if c == ',' {
            toks.push(Token::Comma);
            assert(toks.deep_view() =~= dv0.push(SpecToken::Comma));
            i += 1;
        } else if c == ';' {
            toks.push(Token::Semicolon);
            assert(toks.deep_view() =~= dv0.push(SpecToken::Semicolon));
            i += 1;
        } else if c == '=' {
            toks.push(Token::Equals);
            assert(toks.deep_view() =~= dv0.push(SpecToken::Equals));
            i += 1;
        } else if c == '*' {
            toks.push(Token::Star);
            assert(toks.deep_view() =~= dv0.push(SpecToken::Star));
            i += 1;
        } else if c == '\'' {
            let start = i + 1;
            let mut j = start;
            let mut content = String::new();
            while j < n && s[j] != '\''
                invariant
                    n == s@.len(),
                    start <= j <= n,
                    content@ == s@.subrange(start as int, j as int),
                    quote_end(s@, start as int) == quote_end(s@, j as int),
                decreases n - j,
            {
                content.push(s[j]);
                assert(content@ =~= s@.subrange(start as int, j + 1 as int));
                j += 1;
            }
            assert(quote_end(s@, j as int) == j);
            toks.push(Token::String(content));
            assert(toks.deep_view() =~= dv0.push(
                SpecToken::String(s@.subrange(start as int, j as int)),
            ));
            if j < n {
                i = j + 1;
            } else {
                i = j;
            }
        } else if '0' <= c && c <= '9' {
            let mut j = i;
            let mut val: u64 = 0;
            let mut over = false;
            while j < n && '0' <= s[j] && s[j] <= '9'
                invariant
                    n == s@.len(),
                    i <= j <= n,
                    i0 == i as int,
                    digit_end(s@, i as int) == digit_end(s@, j as int),
                    forall|m: int| i0 <= m < j ==> is_digit(#[trigger] s@[m]),
                    !over ==> val == digits_val(s@.subrange(i0, j as int)) && val <= i32::MAX,
                    over ==> digits_val(s@.subrange(i0, j as int)) > i32::MAX,
                decreases n - j,
            {
                let d: u64 = (s[j] as u32 - 48) as u64;
                assert(d == digit_val(s@[j as int]));
                assert(s@.subrange(i0, j + 1 as int).drop_last() =~= s@.subrange(i0, j as int));
                proof {
                    lemma_digits_val_nonneg(s@.subrange(i0, j as int));
                }
                if !over {
                    let nv = val * 10 + d;
                    if nv > 0x7fff_ffff {
                        over = true;
                    } else {
                        val = nv;
                    }
                }
                j += 1;
            }
            assert(digit_end(s@, j as int) == j);
            if over {
                return Err(TokenizeError::IntegerOutOfRange);
            }
            toks.push(Token::Int(val as i32));
            assert(toks.deep_view() =~= dv0.push(SpecToken::Int(val as int)));
            i = j;
        } else if ('a' <= c && c <= 'z') || ('A' <= c && c <= 'Z') || c == '_' {
            let mut j = i;
            let mut word = String::new();
            while j < n && (('a' <= s[j] && s[j] <= 'z') || ('A' <= s[j] && s[j] <= 'Z') || s[j]
                == '_' || ('0' <= s[j] && s[j] <= '9'))
                invariant
                    n == s@.len(),
                    i <= j <= n,
                    i0 == i as int,
                    word@ == s@.subrange(i0, j as int),
                    word_end(s@, i as int) == word_end(s@, j as int),
                decreases n - j,
            {
                word.push(s[j]);
                assert(word@ =~= s@.subrange(i0, j + 1 as int));
                j += 1;
            }
            assert(word_end(s@, j as int) == j);
            let tok = if str_eq_ignore_case(word.as_str(), "INSERT") {
                Token::Insert
            } else if str_eq_ignore_case(word.as_str(), "INTO") {
                Token::Into
            } else if str_eq_ignore_case(word.as_str(), "VALUES") {
                Token::Values
            } else if str_eq_ignore_case(word.as_str(), "SELECT") {
                Token::Select
            } else if str_eq_ignore_case(word.as_str(), "FROM") {
                Token::From
            } else if str_eq_ignore_case(word.as_str(), "DELETE") {
                Token::Delete
            } else if str_eq_ignore_case(word.as_str(), "CREATE") {
                Token::Create
            } else if str_eq_ignore_case(word.as_str(), "UPDATE") {
                Token::Update
            } else if str_eq_ignore_case(word.as_str(), "SET") {
                Token::SetKw
            } else if str_eq_ignore_case(word.as_str(), "WHERE") {
                Token::Where
            } else {
                Token::Identifier(word)
            };
            assert(tok@ == spec_word_token(s@.subrange(i0, j as int)));
            toks.push(tok);
            assert(toks.deep_view() =~= dv0.push(spec_word_token(s@.subrange(i0, j as int))));
            i = j;
        } else {
            return Err(TokenizeError::UnexpectedCharacter(c));
        }
    }
    Ok(toks)
}

} // verus!
