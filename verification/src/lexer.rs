pub mod token;

use vstd::prelude::*;
use vstd::string::StrSliceExecFns;
use vstd::string::StringExecFns;

use self::token::{keyword_of, keyword_token_type, Token, TokenModel, TokenType};

verus! {

/// An error found while scanning: either a character no token can start with,
/// or a string literal left open at the end of the input. Both carry the
/// 1-based line they were found on.
#[derive(Debug, PartialEq)]
pub enum LexerError {
    UnexpectedCharacter(char, usize),
    UnterminatedString(usize),
}

/// The mathematical view of a lexical error.
pub ghost enum LexerErrorModel {
    UnexpectedCharacter(char, nat),
    UnterminatedString(nat),
}

impl View for LexerError {
    type V = LexerErrorModel;

    open spec fn view(&self) -> LexerErrorModel {
        match self {
            LexerError::UnexpectedCharacter(c, l) => LexerErrorModel::UnexpectedCharacter(
                *c,
                *l as nat,
            ),
            LexerError::UnterminatedString(l) => LexerErrorModel::UnterminatedString(*l as nat),
        }
    }
}

/// Whether a character is an ASCII decimal digit.
pub open spec fn is_digit(c: char) -> bool {
    ('0' as u32) <= (c as u32) && (c as u32) <= ('9' as u32)
}

/// What char::is_alphabetic returns: whether the character has Unicode's
/// Alphabetic property.
pub uninterp spec fn char_alphabetic(c: char) -> bool;

/// What char::is_alphanumeric returns: whether the character is a Unicode
/// letter or digit.
pub uninterp spec fn char_alphanumeric(c: char) -> bool;

/// Whether a character may continue an identifier.
pub open spec fn ident_continue(c: char) -> bool {
    char_alphanumeric(c) || c == '_'
}

/// Relies on char::is_alphabetic; the result depends on the character alone.
#[verifier::external_body]
fn is_alphabetic(c: char) -> (r: bool)
    ensures
        r == char_alphabetic(c),
{
    c.is_alphabetic()
}

/// Relies on char::is_alphanumeric; the result depends on the character alone.
#[verifier::external_body]
fn is_alphanumeric(c: char) -> (r: bool)
    ensures
        r == char_alphanumeric(c),
{
    c.is_alphanumeric()
}

pub fn is_digit_char(c: char) -> (r: bool)
    ensures
        r == is_digit(c),
{
    let u: u32 = c as u32;
    48 <= u && u <= 57
}

fn is_ident_continue(c: char) -> (r: bool)
    ensures
        r == ident_continue(c),
{
    is_alphanumeric(c) || c == '_'
}

/// How many consecutive digits stand at position `i`.
pub open spec fn digit_run(s: Seq<char>, i: int) -> nat
    decreases s.len() - i,
{
    if 0 <= i < s.len() && is_digit(s[i]) {
        (1 + digit_run(s, i + 1)) as nat
    } else {
        0
    }
}

/// How many consecutive identifier-continuation characters stand at `i`.
pub open spec fn ident_run(s: Seq<char>, i: int) -> nat
    decreases s.len() - i,
{
    if 0 <= i < s.len() && ident_continue(s[i]) {
        (1 + ident_run(s, i + 1)) as nat
    } else {
        0
    }
}

/// How many consecutive characters other than a double quote stand at `i`.
pub open spec fn nonquote_run(s: Seq<char>, i: int) -> nat
    decreases s.len() - i,
{
    if 0 <= i < s.len() && s[i] != '"' {
        (1 + nonquote_run(s, i + 1)) as nat
    } else {
        0
    }
}

pub proof fn lemma_digit_run_bound(s: Seq<char>, i: int)
    requires
        i <= s.len(),
    ensures
        i + digit_run(s, i) <= s.len(),
    decreases s.len() - i,
{
    if 0 <= i < s.len() && is_digit(s[i]) {
        lemma_digit_run_bound(s, i + 1);
    }
}

pub proof fn lemma_ident_run_bound(s: Seq<char>, i: int)
    requires
        i <= s.len(),
    ensures
        i + ident_run(s, i) <= s.len(),
    decreases s.len() - i,
{
    if 0 <= i < s.len() && ident_continue(s[i]) {
        lemma_ident_run_bound(s, i + 1);
    }
}

/// Everything one scan of the source yields: the tokens in order, and the
/// lexical errors in order.
pub ghost struct LexOutput {
    pub tokens: Seq<TokenModel>,
    pub errors: Seq<LexerErrorModel>,
}

pub open spec fn empty_output() -> LexOutput {
    LexOutput { tokens: seq![], errors: seq![] }
}

pub open spec fn tok(token_type: TokenType, lexeme: Seq<char>, line: nat) -> TokenModel {
    TokenModel { token_type, lexeme, line }
}

pub open spec fn with_token(t: TokenModel, rest: LexOutput) -> LexOutput {
    LexOutput { tokens: seq![t] + rest.tokens, errors: rest.errors }
}

pub open spec fn with_error(e: LexerErrorModel, rest: LexOutput) -> LexOutput {
    LexOutput { tokens: rest.tokens, errors: seq![e] + rest.errors }
}

/// What scanning the source from position `i`, with the line counter at
/// `line`, yields. One token of lookahead serves the two-character operators;
/// a string lexeme is the text between its quotes; a number is a maximal
/// digit run; an identifier is a maximal alphanumeric-or-underscore run after
/// an alphabetic start, and becomes a keyword token when the whole lexeme is
/// reserved. An unterminated string ends the scan; any other unexpected
/// character is recorded and skipped.
pub open spec fn lex_from(s: Seq<char>, i: int, line: nat) -> LexOutput
    decreases s.len() - i,
{
    if !(0 <= i < s.len()) {
        empty_output()
    } else {
        let c = s[i];
        if c == '(' {
            with_token(
                tok(TokenType::LeftParenthesis, s.subrange(i, i + 1), line),
                lex_from(s, i + 1, line),
            )
        } else if c == ')' {
            with_token(
                tok(TokenType::RightParenthesis, s.subrange(i, i + 1), line),
                lex_from(s, i + 1, line),
            )
        } else if c == '{' {
            with_token(
                tok(TokenType::LeftBrace, s.subrange(i, i + 1), line),
                lex_from(s, i + 1, line),
            )
        } else if c == '}' {
            with_token(
                tok(TokenType::RightBrace, s.subrange(i, i + 1), line),
                lex_from(s, i + 1, line),
            )
        } else if c == '!' {
            if i + 1 < s.len() && s[i + 1] == '=' {
                with_token(
                    tok(TokenType::BangEqual, s.subrange(i, i + 2), line),
                    lex_from(s, i + 2, line),
                )
            } else {
                with_token(
                    tok(TokenType::Bang, s.subrange(i, i + 1), line),
                    lex_from(s, i + 1, line),
                )
            }
        } else if c == '=' {
            if i + 1 < s.len() && s[i + 1] == '=' {
                with_token(
                    tok(TokenType::EqualEqual, s.subrange(i, i + 2), line),
                    lex_from(s, i + 2, line),
                )
            } else {
                with_token(
                    tok(TokenType::Equal, s.subrange(i, i + 1), line),
                    lex_from(s, i + 1, line),
                )
            }
        } else if c == ';' {
            with_token(
                tok(TokenType::Semicolon, s.subrange(i, i + 1), line),
                lex_from(s, i + 1, line),
            )
        } else if c == '"' {
            let body = nonquote_run(s, i + 1) as int;
            if i + 1 + body < s.len() {
                with_token(
                    tok(TokenType::String, s.subrange(i + 1, i + 1 + body), line),
                    lex_from(s, i + 2 + body, line),
                )
            } else {
                with_error(LexerErrorModel::UnterminatedString(line), empty_output())
            }
        } else if is_digit(c) {
            let j = i + 1 + digit_run(s, i + 1);
            proof {
                lemma_digit_run_bound(s, i + 1);
            }
            with_token(tok(TokenType::Number, s.subrange(i, j), line), lex_from(s, j, line))
        } else if char_alphabetic(c) {
            let j = i + 1 + ident_run(s, i + 1);
            proof {
                lemma_ident_run_bound(s, i + 1);
            }
            let lexeme = s.subrange(i, j);
            let token_type = match keyword_of(lexeme) {
                Some(k) => k,
                None => TokenType::Identifier,
            };
            with_token(tok(token_type, lexeme, line), lex_from(s, j, line))
        } else if c == ' ' || c == '\r' || c == '\t' {
            lex_from(s, i + 1, line)
        } else if c == '\n' {
            lex_from(s, i + 1, line + 1)
        } else {
            with_error(LexerErrorModel::UnexpectedCharacter(c, line), lex_from(s, i + 1, line))
        }
    }
}

/// What one scan of the whole source yields.
pub open spec fn lex(s: Seq<char>) -> LexOutput {
    lex_from(s, 0, 1)
}

pub open spec fn tokens_view(ts: Seq<Token>) -> Seq<TokenModel> {
    ts.map_values(|t: Token| t@)
}

pub open spec fn errors_view(es: Seq<LexerError>) -> Seq<LexerErrorModel> {
    es.map_values(|e: LexerError| e@)
}

/// Consumes a following `expected` character, if one is there.
fn match_two_char_token(expected: char, s: &str, n: usize, i: &mut usize) -> (r: bool)
    requires
        n == s@.len(),
        *old(i) <= n,
    ensures
        r == (*old(i) < n && s@[*old(i) as int] == expected),
        r ==> *final(i) == *old(i) + 1,
        !r ==> *final(i) == *old(i),
{
    if *i < n {
        let c = s.get_char(*i);
        if c == expected {
            *i = *i + 1;
            return true;
        }
    }
    false
}

/// Scans a string literal's contents, the opening quote already consumed;
/// no escape sequences are processed. Reaching the end of the input before a
/// closing quote is an unterminated string, reported at the line the opening
/// quote appeared.
fn match_string(s: &str, n: usize, i: &mut usize, line: usize) -> (r: Result<String, LexerError>)
    requires
        n == s@.len(),
        *old(i) <= n,
    ensures
        ({
            let body = nonquote_run(s@, *old(i) as int) as int;
            if *old(i) + body < n {
                &&& *final(i) == *old(i) + body + 1
                &&& r is Ok
                &&& r.unwrap()@ == s@.subrange(*old(i) as int, *old(i) + body)
            } else {
                &&& *final(i) == n
                &&& r == Err::<String, LexerError>(LexerError::UnterminatedString(line))
            }
        }),
{
    let start: usize = *i;
    let mut j: usize = *i;
    while j < n && s.get_char(j) != '"'
        invariant
            n == s@.len(),
            start <= j <= n,
            nonquote_run(s@, start as int) == (j - start) + nonquote_run(s@, j as int),
        decreases n - j,
    {
        j += 1;
    }
    if j < n {
        let contents = s.substring_char(start, j).to_owned();
        *i = j + 1;
        Ok(contents)
    } else {
        *i = n;
        Err(LexerError::UnterminatedString(line))
    }
}

/// Scans the digits that continue a number literal, the first digit already
/// consumed, and returns them.
fn match_number(s: &str, n: usize, i: &mut usize) -> (r: String)
    requires
        n == s@.len(),
        *old(i) <= n,
    ensures
        *final(i) == *old(i) + digit_run(s@, *old(i) as int),
        *final(i) <= n,
        r@ == s@.subrange(*old(i) as int, *final(i) as int),
{
    let start: usize = *i;
    let mut j: usize = *i;
    while j < n && is_digit_char(s.get_char(j))
        invariant
            n == s@.len(),
            start <= j <= n,
            digit_run(s@, start as int) == (j - start) + digit_run(s@, j as int),
        decreases n - j,
    {
        j += 1;
    }
    let text = s.substring_char(start, j).to_owned();
    *i = j;
    text
}

/// Scans the characters that continue an identifier, the alphabetic first
/// character already consumed, and returns them.
fn match_identifier(s: &str, n: usize, i: &mut usize) -> (r: String)
    requires
        n == s@.len(),
        *old(i) <= n,
    ensures
        *final(i) == *old(i) + ident_run(s@, *old(i) as int),
        *final(i) <= n,
        r@ == s@.subrange(*old(i) as int, *final(i) as int),
{
    let start: usize = *i;
    let mut j: usize = *i;
    while j < n && is_ident_continue(s.get_char(j))
        invariant
            n == s@.len(),
            start <= j <= n,
            ident_run(s@, start as int) == (j - start) + ident_run(s@, j as int),
        decreases n - j,
    {
        j += 1;
    }
    let text = s.substring_char(start, j).to_owned();
    *i = j;
    text
}

/// Scans the next token, skipping whitespace and counting lines; at the end
/// of the input it yields the EOF token.
fn scan_token(s: &str, n: usize, i: &mut usize, line: &mut usize) -> (r: Result<Token, LexerError>)
    requires
        n == s@.len(),
        n < usize::MAX,
        *old(i) <= n,
        1 <= *old(line) <= *old(i) + 1,
    ensures
        *old(i) <= *final(i) <= n,
        1 <= *final(line) <= *final(i) + 1,
        match r {
            Ok(t) => if t.token_type == TokenType::EOF {
                &&& *final(i) == n
                &&& lex_from(s@, *old(i) as int, *old(line) as nat) == empty_output()
            } else {
                &&& *final(i) > *old(i)
                &&& lex_from(s@, *old(i) as int, *old(line) as nat) == with_token(
                    t@,
                    lex_from(s@, *final(i) as int, *final(line) as nat),
                )
            },
            Err(e) => {
                &&& *final(i) > *old(i)
                &&& lex_from(s@, *old(i) as int, *old(line) as nat) == with_error(
                    e@,
                    lex_from(s@, *final(i) as int, *final(line) as nat),
                )
            },
        },
{
    loop
        invariant
            n == s@.len(),
            n < usize::MAX,
            *old(i) <= *i <= n,
            1 <= *line <= *i + 1,
            lex_from(s@, *old(i) as int, *old(line) as nat) == lex_from(
                s@,
                *i as int,
                *line as nat,
            ),
        decreases n - *i,
    {
        if *i >= n {
            return Ok(Token::new(TokenType::EOF, String::new(), *line));
        }
        let c = s.get_char(*i);
        let token_line: usize = *line;
        if c == '(' {
            let lexeme = s.substring_char(*i, *i + 1).to_owned();
            *i = *i + 1;
            return Ok(Token::new(TokenType::LeftParenthesis, lexeme, token_line));
        } else if c == ')' {
            let lexeme = s.substring_char(*i, *i + 1).to_owned();
            *i = *i + 1;
            return Ok(Token::new(TokenType::RightParenthesis, lexeme, token_line));
        } else if c == '{' {
            let lexeme = s.substring_char(*i, *i + 1).to_owned();
            *i = *i + 1;
            return Ok(Token::new(TokenType::LeftBrace, lexeme, token_line));
        } else if c == '}' {
            let lexeme = s.substring_char(*i, *i + 1).to_owned();
            *i = *i + 1;
            return Ok(Token::new(TokenType::RightBrace, lexeme, token_line));
        } else if c == '!' {
            let start: usize = *i;
            *i = *i + 1;
            if match_two_char_token('=', s, n, i) {
                let lexeme = s.substring_char(start, start + 2).to_owned();
                return Ok(Token::new(TokenType::BangEqual, lexeme, token_line));
            } else {
                let lexeme = s.substring_char(start, start + 1).to_owned();
                return Ok(Token::new(TokenType::Bang, lexeme, token_line));
            }
        } else if c == '=' {
            let start: usize = *i;
            *i = *i + 1;
            if match_two_char_token('=', s, n, i) {
                let lexeme = s.substring_char(start, start + 2).to_owned();
                return Ok(Token::new(TokenType::EqualEqual, lexeme, token_line));
            } else {
                let lexeme = s.substring_char(start, start + 1).to_owned();
                return Ok(Token::new(TokenType::Equal, lexeme, token_line));
            }
        } else if c == ';' {
            let lexeme = s.substring_char(*i, *i + 1).to_owned();
            *i = *i + 1;
            return Ok(Token::new(TokenType::Semicolon, lexeme, token_line));
        } else if c == '"' {
            *i = *i + 1;
            match match_string(s, n, i, token_line) {
                Ok(contents) => {
                    return Ok(Token::new(TokenType::String, contents, token_line));
                },
                Err(e) => {
                    return Err(e);
                },
            }
        } else if is_digit_char(c) {
            let start: usize = *i;
            *i = *i + 1;
            let rest = match_number(s, n, i);
            let mut text = s.substring_char(start, start + 1).to_owned();
            text.append(rest.as_str());
            proof {
                assert(text@ =~= s@.subrange(start as int, *i as int));
            }
            return Ok(Token::new(TokenType::Number, text, token_line));
        } else if is_alphabetic(c) {
            let start: usize = *i;
            *i = *i + 1;
            let rest = match_identifier(s, n, i);
            let mut text = s.substring_char(start, start + 1).to_owned();
            text.append(rest.as_str());
            proof {
                assert(text@ =~= s@.subrange(start as int, *i as int));
            }
            let token_type = match keyword_token_type(text.as_str()) {
                Some(k) => k,
                None => TokenType::Identifier,
            };
            return Ok(Token::new(token_type, text, token_line));
        } else if c == ' ' || c == '\r' || c == '\t' {
            *i = *i + 1;
        } else if c == '\n' {
            *i = *i + 1;
            *line = *line + 1;
        } else {
            *i = *i + 1;
            return Err(LexerError::UnexpectedCharacter(c, token_line));
        }
    }
}

/// Scans the whole source into its token sequence. When lexical errors were
/// found, strict mode (the default) returns the collected error list and
/// lenient mode discards the errors and returns the tokens scanned. The
/// source must leave room for the 1-based line counter in a machine word; a
/// string one character shorter than the address space cannot exist anyway.
pub fn tokenize(source: String, lenient: bool) -> (r: Result<Vec<Token>, Vec<LexerError>>)
    requires
        source@.len() < usize::MAX,
    ensures
        ({
            let out = lex(source@);
            match r {
                Ok(tokens) => (lenient || out.errors.len() == 0) && tokens_view(tokens@)
                    == out.tokens,
                Err(errors) => !lenient && out.errors.len() > 0 && errors_view(errors@)
                    == out.errors,
            }
        }),
{
    let s: &str = source.as_str();
    let n: usize = s.unicode_len();
    let mut tokens: Vec<Token> = Vec::new();
    let mut errors: Vec<LexerError> = Vec::new();
    let mut i: usize = 0;
    let mut line: usize = 1;
    while i < n
        invariant
            n == s@.len(),
            s@ == source@,
            n < usize::MAX,
            i <= n,
            1 <= line <= i + 1,
            lex(source@).tokens == tokens_view(tokens@) + lex_from(
                source@,
                i as int,
                line as nat,
            ).tokens,
            lex(source@).errors == errors_view(errors@) + lex_from(
                source@,
                i as int,
                line as nat,
            ).errors,
        decreases n - i,
    {
        let ghost tokens_before = tokens@;
        let ghost errors_before = errors@;
        let ghost rest_before = lex_from(source@, i as int, line as nat);
        let result = scan_token(s, n, &mut i, &mut line);
        let ghost rest_after = lex_from(source@, i as int, line as nat);
        match result {
            Ok(t) => {
                if t.token_type != TokenType::EOF {
                    tokens.push(t);
                    proof {
                        assert(tokens_view(tokens_before.push(t)) =~= tokens_view(tokens_before)
                            .push(t@));
                        assert(tokens_view(tokens_before) + (seq![t@] + rest_after.tokens)
                            =~= tokens_view(tokens_before).push(t@) + rest_after.tokens);
                    }
                }
            },
            Err(e) => {
                errors.push(e);
                proof {
                    assert(errors_view(errors_before.push(e)) =~= errors_view(errors_before).push(
                        e@,
                    ));
                    assert(errors_view(errors_before) + (seq![e@] + rest_after.errors)
                        =~= errors_view(errors_before).push(e@) + rest_after.errors);
                }
            },
        }
    }
    if errors.len() > 0 && !lenient {
        proof {
            assert(errors_view(errors@).len() == errors@.len());
        }
        Err(errors)
    } else {
        proof {
            assert(errors_view(errors@).len() == errors@.len());
        }
        Ok(tokens)
    }
}

} // verus!
