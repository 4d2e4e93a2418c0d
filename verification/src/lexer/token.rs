use vstd::prelude::*;
use vstd::string::StrSliceExecFns;
use vstd::string::StringExecFns;

verus! {

/// The kind of a lexical token.
#[derive(Debug, Clone, Copy, PartialEq, Eq, Structural)]
pub enum TokenType {
    // Single-character tokens
    LeftParenthesis,
    RightParenthesis,
    LeftBrace,
    RightBrace,
    Semicolon,
    // One- or two-character operators
    Bang,
    BangEqual,
    Equal,
    EqualEqual,
    // Literals and names
    Identifier,
    String,
    Number,
    // Keywords
    And,
    Class,
    If,
    Else,
    True,
    False,
    Int,
    Bool,
    Char,
    Float,
    Double,
    Void,
    Return,
    EOF,
}

/// The token kind reserved for a lexeme, if the whole lexeme is a keyword.
pub open spec fn keyword_of(s: Seq<char>) -> Option<TokenType> {
    if s == "and"@ {
        Some(TokenType::And)
    } else if s == "class"@ {
        Some(TokenType::Class)
    } else if s == "if"@ {
        Some(TokenType::If)
    } else if s == "else"@ {
        Some(TokenType::Else)
    } else if s == "true"@ {
        Some(TokenType::True)
    } else if s == "false"@ {
        Some(TokenType::False)
    } else if s == "int"@ {
        Some(TokenType::Int)
    } else if s == "bool"@ {
        Some(TokenType::Bool)
    } else if s == "char"@ {
        Some(TokenType::Char)
    } else if s == "float"@ {
        Some(TokenType::Float)
    } else if s == "double"@ {
        Some(TokenType::Double)
    } else if s == "void"@ {
        Some(TokenType::Void)
    } else if s == "return"@ {
        Some(TokenType::Return)
    } else {
        None
    }
}

/// Whether a lexeme is reserved as a keyword.
pub open spec fn is_keyword(s: Seq<char>) -> bool {
    keyword_of(s) is Some
}

/// Character-for-character equality of two string slices.
pub fn str_eq(a: &str, b: &str) -> (r: bool)
    ensures
        r == (a@ == b@),
{
    let alen: usize = a.unicode_len();
    let blen: usize = b.unicode_len();
    if alen != blen {
        return false;
    }
    let mut i: usize = 0;
    while i < alen
        invariant
            alen == a@.len(),
            alen == b@.len(),
            i <= alen,
            forall|j: int| 0 <= j < i ==> a@[j] == b@[j],
        decreases alen - i,
    {
        if a.get_char(i) != b.get_char(i) {
            return false;
        }
        i += 1;
    }
    proof {
        assert(a@ =~= b@);
    }
    true
}

/// Looks a complete lexeme up in the keyword table; matching is exact on the
/// whole lexeme, never on a prefix.
pub fn keyword_token_type(lexeme: &str) -> (r: Option<TokenType>)
    ensures
        r == keyword_of(lexeme@),
{
    if str_eq(lexeme, "and") {
        Some(TokenType::And)
    } else if str_eq(lexeme, "class") {
        Some(TokenType::Class)
    } else if str_eq(lexeme, "if") {
        Some(TokenType::If)
    } else if str_eq(lexeme, "else") {
        Some(TokenType::Else)
    } else if str_eq(lexeme, "true") {
        Some(TokenType::True)
    } else if str_eq(lexeme, "false") {
        Some(TokenType::False)
    } else if str_eq(lexeme, "int") {
        Some(TokenType::Int)
    } else if str_eq(lexeme, "bool") {
        Some(TokenType::Bool)
    } else if str_eq(lexeme, "char") {
        Some(TokenType::Char)
    } else if str_eq(lexeme, "float") {
        Some(TokenType::Float)
    } else if str_eq(lexeme, "double") {
        Some(TokenType::Double)
    } else if str_eq(lexeme, "void") {
        Some(TokenType::Void)
    } else if str_eq(lexeme, "return") {
        Some(TokenType::Return)
    } else {
        None
    }
}

/// A lexical token: its kind, its exact source text, and its 1-based line.
#[derive(Debug, PartialEq)]
pub struct Token {
    pub token_type: TokenType,
    pub lexeme: String,
    pub line: usize,
}

/// The mathematical view of a token.
pub ghost struct TokenModel {
    pub token_type: TokenType,
    pub lexeme: Seq<char>,
    pub line: nat,
}

impl View for Token {
    type V = TokenModel;

    open spec fn view(&self) -> TokenModel {
        TokenModel {
            token_type: self.token_type,
            lexeme: self.lexeme@,
            line: self.line as nat,
        }
    }
}

/// The display name of a token kind.
pub open spec fn type_name_seq(t: TokenType) -> Seq<char> {
    match t {
        TokenType::LeftParenthesis => "LeftParenthesis"@,
        TokenType::RightParenthesis => "RightParenthesis"@,
        TokenType::LeftBrace => "LeftBrace"@,
        TokenType::RightBrace => "RightBrace"@,
        TokenType::Semicolon => "Semicolon"@,
        TokenType::Bang => "Bang"@,
        TokenType::BangEqual => "BangEqual"@,
        TokenType::Equal => "Equal"@,
        TokenType::EqualEqual => "EqualEqual"@,
        TokenType::Identifier => "Identifier"@,
        TokenType::String => "String"@,
        TokenType::Number => "Number"@,
        TokenType::And => "And"@,
        TokenType::Class => "Class"@,
        TokenType::If => "If"@,
        TokenType::Else => "Else"@,
        TokenType::True => "True"@,
        TokenType::False => "False"@,
        TokenType::Int => "Int"@,
        TokenType::Bool => "Bool"@,
        TokenType::Char => "Char"@,
        TokenType::Float => "Float"@,
        TokenType::Double => "Double"@,
        TokenType::Void => "Void"@,
        TokenType::Return => "Return"@,
        TokenType::EOF => "EOF"@,
    }
}

/// The display form of a token: its kind's name, a space, and its lexeme.
pub open spec fn token_display(t: TokenModel) -> Seq<char> {
    type_name_seq(t.token_type) + " "@ + t.lexeme
}

fn kind_name(t: TokenType) -> (r: &'static str)
    ensures
        r@ == type_name_seq(t),
{
    match t {
        TokenType::LeftParenthesis => "LeftParenthesis",
        TokenType::RightParenthesis => "RightParenthesis",
        TokenType::LeftBrace => "LeftBrace",
        TokenType::RightBrace => "RightBrace",
        TokenType::Semicolon => "Semicolon",
        TokenType::Bang => "Bang",
        TokenType::BangEqual => "BangEqual",
        TokenType::Equal => "Equal",
        TokenType::EqualEqual => "EqualEqual",
        TokenType::Identifier => "Identifier",
        TokenType::String => "String",
        TokenType::Number => "Number",
        TokenType::And => "And",
        TokenType::Class => "Class",
        TokenType::If => "If",
        TokenType::Else => "Else",
        TokenType::True => "True",
        TokenType::False => "False",
        TokenType::Int => "Int",
        TokenType::Bool => "Bool",
        TokenType::Char => "Char",
        TokenType::Float => "Float",
        TokenType::Double => "Double",
        TokenType::Void => "Void",
        TokenType::Return => "Return",
        TokenType::EOF => "EOF",
    }
}

impl Token {
    pub fn new(token_type: TokenType, lexeme: String, line: usize) -> (t: Token)
        ensures
            t.token_type == token_type,
            t.lexeme == lexeme,
            t.line == line,
    {
        Token { token_type, lexeme, line }
    }

    pub fn to_string(&self) -> (r: String)
        ensures
            r@ == token_display(self@),
    {
        let mut text = kind_name(self.token_type).to_owned();
        text.append(" ");
        text.append(self.lexeme.as_str());
        text
    }
}

} // verus!
