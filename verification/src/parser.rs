use vstd::prelude::*;
use vstd::string::StrSliceExecFns;

use crate::ast::{
    Assignment, AssignmentModel, BooleanLiteral, DataType, Expr, ExprModel, Function,
    FunctionModel, Identifier, Instruction, InstructionModel, IntegerLiteral, Literal,
    LiteralModel, Program, ProgramModel, Return, ReturnModel, StringLiteral,
};
use crate::lexer::token::{Token, TokenModel, TokenType};
use crate::lexer::{is_digit, is_digit_char, tokens_view};

verus! {

/// A structural error: the first token that does not fit the grammar aborts
/// the whole parse, and no partial tree is returned. The recorded number is
/// not always the offending token's actual line: the prologue and the
/// closing brace report fixed numbers — a known reporting defect.
#[derive(Debug, PartialEq)]
pub enum ParseError {
    UnexpectedToken(usize),
}

/// The mathematical view of a parse error.
pub ghost enum ParseErrorModel {
    UnexpectedToken(nat),
}

impl View for ParseError {
    type V = ParseErrorModel;

    open spec fn view(&self) -> ParseErrorModel {
        match self {
            ParseError::UnexpectedToken(l) => ParseErrorModel::UnexpectedToken(*l as nat),
        }
    }
}

/// Whether a lexeme is a nonempty run of ASCII digits.
pub open spec fn all_digits(s: Seq<char>) -> bool {
    s.len() > 0 && forall|k: int| 0 <= k < s.len() ==> is_digit(s[k])
}

/// The numeric value of a digit string, read in decimal.
pub open spec fn digits_val(s: Seq<char>) -> nat
    decreases s.len(),
{
    if s.len() == 0 {
        0
    } else {
        (digits_val(s.drop_last()) * 10 + (s.last() as u32 - '0' as u32)) as nat
    }
}

/// How a number lexeme is read as a 64-bit signed integer: it must be a
/// nonempty run of digits whose value fits; anything else fails, and the
/// failed literal match later surfaces as an unexpected token.
pub open spec fn spec_parse_i64(s: Seq<char>) -> Option<i64> {
    if all_digits(s) && digits_val(s) <= i64::MAX {
        Some(digits_val(s) as i64)
    } else {
        None
    }
}

proof fn lemma_digits_val_monotone(s: Seq<char>, j: int, m: int)
    requires
        0 <= j <= m <= s.len(),
        forall|k: int| j <= k < m ==> is_digit(s[k]),
    ensures
        digits_val(s.subrange(0, j)) <= digits_val(s.subrange(0, m)),
    decreases m - j,
{
    if j < m {
        lemma_digits_val_monotone(s, j, m - 1);
        assert(s.subrange(0, m).drop_last() =~= s.subrange(0, m - 1));
        assert(s.subrange(0, m).last() == s[m - 1]);
    }
}

/// Reads a number lexeme in decimal as a 64-bit signed integer.
pub fn parse_i64_digits(s: &str) -> (r: Option<i64>)
    ensures
        r == spec_parse_i64(s@),
{
    let n: usize = s.unicode_len();
    if n == 0 {
        return None;
    }
    let mut value: u64 = 0;
    let mut k: usize = 0;
    while k < n
        invariant
            n == s@.len(),
            k <= n,
            forall|m: int| 0 <= m < k ==> is_digit(s@[m]),
            value == digits_val(s@.subrange(0, k as int)),
            value <= i64::MAX as u64,
        decreases n - k,
    {
        let c = s.get_char(k);
        if !is_digit_char(c) {
            return None;
        }
        let d: u64 = (c as u32 as u64) - 48;
        if value > (9223372036854775807u64 - d) / 10 {
            proof {
                assert(s@.subrange(0, k as int + 1).drop_last() =~= s@.subrange(0, k as int));
                assert(s@.subrange(0, k as int + 1).last() == s@[k as int]);
                assert(digits_val(s@.subrange(0, k as int + 1)) > i64::MAX);
                if all_digits(s@) {
                    lemma_digits_val_monotone(s@, k as int + 1, s@.len() as int);
                    assert(s@.subrange(0, s@.len() as int) =~= s@);
                }
            }
            return None;
        }
        value = value * 10 + d;
        k += 1;
        proof {
            assert(s@.subrange(0, k as int).drop_last() =~= s@.subrange(0, k as int - 1));
            assert(s@.subrange(0, k as int).last() == s@[k as int - 1]);
        }
    }
    proof {
        assert(s@.subrange(0, n as int) =~= s@);
    }
    Some(value as i64)
}

/// One token of lookahead against an expected kind: the token is consumed
/// only when it matches.
pub open spec fn spec_match_token(toks: Seq<TokenModel>, i: int, expected: TokenType) -> (Option<
    TokenModel,
>, int) {
    if 0 <= i < toks.len() && toks[i].token_type == expected {
        (Some(toks[i]), i + 1)
    } else {
        (None, i)
    }
}

/// An attempted literal: number, string, `true` or `false`, consumed only on
/// success.
pub open spec fn spec_parse_literal(toks: Seq<TokenModel>, i: int) -> Option<(LiteralModel, int)> {
    if 0 <= i < toks.len() {
        let t = toks[i];
        match t.token_type {
            TokenType::Number => match spec_parse_i64(t.lexeme) {
                Some(v) => Some((LiteralModel::Integer(v), i + 1)),
                None => None,
            },
            TokenType::True => Some((LiteralModel::Boolean(true), i + 1)),
            TokenType::False => Some((LiteralModel::Boolean(false), i + 1)),
            TokenType::String => Some((LiteralModel::String(t.lexeme), i + 1)),
            _ => None,
        }
    } else {
        None
    }
}

/// An attempted identifier reference, consumed only on success.
pub open spec fn spec_parse_identifier(toks: Seq<TokenModel>, i: int) -> Option<(Seq<char>, int)> {
    if 0 <= i < toks.len() && toks[i].token_type == TokenType::Identifier {
        Some((toks[i].lexeme, i + 1))
    } else {
        None
    }
}

/// An attempted expression: a literal, else an identifier.
pub open spec fn spec_parse_expression(toks: Seq<TokenModel>, i: int) -> Option<(ExprModel, int)> {
    match spec_parse_literal(toks, i) {
        Some((l, j)) => Some((ExprModel::Literal(l), j)),
        None => match spec_parse_identifier(toks, i) {
            Some((name, j)) => Some((ExprModel::Identifier(name), j)),
            None => None,
        },
    }
}

/// An attempted type keyword, consumed only on success.
pub open spec fn spec_parse_type(toks: Seq<TokenModel>, i: int) -> Option<(DataType, int)> {
    if 0 <= i < toks.len() {
        match toks[i].token_type {
            TokenType::Int => Some((DataType::Int, i + 1)),
            TokenType::Bool => Some((DataType::Bool, i + 1)),
            TokenType::Char => Some((DataType::Char, i + 1)),
            TokenType::Float => Some((DataType::Float, i + 1)),
            TokenType::Double => Some((DataType::Double, i + 1)),
            TokenType::Void => Some((DataType::Void, i + 1)),
            _ => None,
        }
    } else {
        None
    }
}

/// An attempted assignment, `Type Identifier = Expr ;`. There is no
/// backtracking: tokens taken before the point of failure stay consumed, and
/// the returned index reflects that.
pub open spec fn spec_parse_assignment(toks: Seq<TokenModel>, i: int) -> (Option<AssignmentModel>, int) {
    match spec_parse_type(toks, i) {
        None => (None, i),
        Some((data_type, i1)) => match spec_parse_identifier(toks, i1) {
            None => (None, i1),
            Some((name, i2)) => {
                let (eq, i3) = spec_match_token(toks, i2, TokenType::Equal);
                if eq is None {
                    (None, i3)
                } else {
                    match spec_parse_expression(toks, i3) {
                        None => (None, i3),
                        Some((value, i4)) => {
                            let (semi, i5) = spec_match_token(toks, i4, TokenType::Semicolon);
                            if semi is None {
                                (None, i5)
                            } else {
                                (Some(AssignmentModel { data_type, identifier: name, value }), i5)
                            }
                        },
                    }
                }
            },
        },
    }
}

/// An attempted return statement, `return Expr ;`, with the same
/// no-backtracking behaviour as an assignment.
pub open spec fn spec_parse_return(toks: Seq<TokenModel>, i: int) -> (Option<ReturnModel>, int) {
    let (kw, i1) = spec_match_token(toks, i, TokenType::Return);
    if kw is None {
        (None, i1)
    } else {
        match spec_parse_expression(toks, i1) {
            None => (None, i1),
            Some((value, i2)) => {
                let (semi, i3) = spec_match_token(toks, i2, TokenType::Semicolon);
                if semi is None {
                    (None, i3)
                } else {
                    (Some(ReturnModel { value }), i3)
                }
            },
        }
    }
}

pub proof fn lemma_assignment_progress(toks: Seq<TokenModel>, i: int)
    requires
        0 <= i <= toks.len(),
    ensures
        ({
            let (r, j) = spec_parse_assignment(toks, i);
            i <= j <= toks.len() && (r is Some ==> j == i + 5)
        }),
{
}

pub proof fn lemma_return_progress(toks: Seq<TokenModel>, i: int)
    requires
        0 <= i <= toks.len(),
    ensures
        ({
            let (r, j) = spec_parse_return(toks, i);
            i <= j <= toks.len() && (r is Some ==> j == i + 3)
        }),
{
}

/// The instruction list: an assignment is attempted first, then a return;
/// when neither matches, the next token must close the block with `}`,
/// otherwise parsing fails at once. An exhausted token stream fails too.
pub open spec fn spec_parse_instructions(toks: Seq<TokenModel>, i: int) -> Result<
    (Seq<InstructionModel>, int),
    ParseErrorModel,
>
    decreases toks.len() - i,
    when 0 <= i <= toks.len()
{
    let (a, ia) = spec_parse_assignment(toks, i);
    match a {
        Some(am) => {
            proof {
                lemma_assignment_progress(toks, i);
            }
            match spec_parse_instructions(toks, ia) {
                Ok((rest, j)) => Ok((seq![InstructionModel::Assignment(am)] + rest, j)),
                Err(e) => Err(e),
            }
        },
        None => {
            let (r, ir) = spec_parse_return(toks, ia);
            match r {
                Some(rm) => {
                    proof {
                        lemma_assignment_progress(toks, i);
                        lemma_return_progress(toks, ia);
                    }
                    match spec_parse_instructions(toks, ir) {
                        Ok((rest, j)) => Ok((seq![InstructionModel::Return(rm)] + rest, j)),
                        Err(e) => Err(e),
                    }
                },
                None => {
                    if ir < toks.len() {
                        if toks[ir].token_type == TokenType::RightBrace {
                            Ok((seq![], ir))
                        } else {
                            Err(ParseErrorModel::UnexpectedToken(toks[ir].line))
                        }
                    } else {
                        Err(ParseErrorModel::UnexpectedToken(1))
                    }
                },
            }
        },
    }
}

/// The fixed six-token function prologue: `int Identifier ( void ) {`.
pub open spec fn prologue() -> Seq<TokenType> {
    seq![
        TokenType::Int,
        TokenType::Identifier,
        TokenType::LeftParenthesis,
        TokenType::Void,
        TokenType::RightParenthesis,
        TokenType::LeftBrace,
    ]
}

/// Whether the function prologue stands at position `i`.
pub open spec fn prologue_ok(toks: Seq<TokenModel>, i: int) -> bool {
    &&& 0 <= i
    &&& i + 6 <= toks.len()
    &&& forall|k: int| 0 <= k < 6 ==> toks[i + k].token_type == prologue()[k]
}

/// The single function: its prologue, its instructions, and the closing
/// brace. The declared name is discarded; the node is always labelled as the
/// program's single function, with return type `int`.
pub open spec fn spec_parse_function(toks: Seq<TokenModel>) -> Result<FunctionModel, ParseErrorModel> {
    if !prologue_ok(toks, 0) {
        Err(ParseErrorModel::UnexpectedToken(10))
    } else {
        match spec_parse_instructions(toks, 6) {
            Err(e) => Err(e),
            Ok((instructions, j)) => if j < toks.len() && toks[j].token_type
                == TokenType::RightBrace {
                Ok(FunctionModel { return_type: DataType::Int, name: "main"@, instructions })
            } else {
                Err(ParseErrorModel::UnexpectedToken(20))
            },
        }
    }
}

/// The whole parse: one function, wrapped as the program. Tokens after the
/// closing brace are not examined.
pub open spec fn spec_parse(toks: Seq<TokenModel>) -> Result<ProgramModel, ParseErrorModel> {
    match spec_parse_function(toks) {
        Ok(f) => Ok(ProgramModel { functions: seq![f] }),
        Err(e) => Err(e),
    }
}

fn match_token(tokens: &Vec<Token>, i: &mut usize, expected: TokenType) -> (r: bool)
    requires
        *old(i) <= tokens@.len(),
    ensures
        *final(i) <= tokens@.len(),
        ({
            let (m, j) = spec_match_token(tokens_view(tokens@), *old(i) as int, expected);
            *final(i) == j && r == (m is Some)
        }),
{
    if *i < tokens.len() && tokens[*i].token_type == expected {
        *i = *i + 1;
        true
    } else {
        false
    }
}

fn match_tokens(tokens: &Vec<Token>, i: &mut usize, expected: &Vec<TokenType>) -> (r: bool)
    requires
        *old(i) <= tokens@.len(),
    ensures
        *old(i) <= *final(i) <= tokens@.len(),
        r == (*old(i) + expected@.len() <= tokens@.len() && (forall|k: int|
            0 <= k < expected@.len() ==> tokens@[*old(i) + k].token_type == expected@[k])),
        r ==> *final(i) == *old(i) + expected@.len(),
{
    let mut k: usize = 0;
    while k < expected.len()
        invariant
            *old(i) <= tokens@.len(),
            k <= expected@.len(),
            *i == *old(i) + k,
            *i <= tokens@.len(),
            forall|m: int| 0 <= m < k ==> tokens@[*old(i) + m].token_type == expected@[m],
        decreases expected@.len() - k,
    {
        if *i >= tokens.len() {
            *i = tokens.len();
            return false;
        }
        if tokens[*i].token_type != expected[k] {
            *i = *i + 1;
            return false;
        }
        *i = *i + 1;
        k += 1;
    }
    true
}

fn parse_literal(tokens: &Vec<Token>, i: &mut usize) -> (r: Option<Literal>)
    requires
        *old(i) <= tokens@.len(),
    ensures
        *final(i) <= tokens@.len(),
        ({
            let sm = spec_parse_literal(tokens_view(tokens@), *old(i) as int);
            match (r, sm) {
                (Some(l), Some((lm, j))) => l@ == lm && *final(i) == j,
                (None, None) => *final(i) == *old(i),
                _ => false,
            }
        }),
{
    if *i < tokens.len() {
        let t = &tokens[*i];
        match t.token_type {
            TokenType::Number => {
                match parse_i64_digits(t.lexeme.as_str()) {
                    Some(v) => {
                        *i = *i + 1;
                        Some(Literal::Integer(IntegerLiteral { value: v }))
                    },
                    None => None,
                }
            },
            TokenType::True => {
                *i = *i + 1;
                Some(Literal::Boolean(BooleanLiteral { value: true }))
            },
            TokenType::False => {
                *i = *i + 1;
                Some(Literal::Boolean(BooleanLiteral { value: false }))
            },
            TokenType::String => {
                let text = t.lexeme.clone();
                *i = *i + 1;
                Some(Literal::String(StringLiteral { value: text }))
            },
            _ => None,
        }
    } else {
        None
    }
}

fn parse_identifier(tokens: &Vec<Token>, i: &mut usize) -> (r: Option<Identifier>)
    requires
        *old(i) <= tokens@.len(),
    ensures
        *final(i) <= tokens@.len(),
        ({
            let sm = spec_parse_identifier(tokens_view(tokens@), *old(i) as int);
            match (r, sm) {
                (Some(id), Some((name, j))) => id.name@ == name && *final(i) == j,
                (None, None) => *final(i) == *old(i),
                _ => false,
            }
        }),
{
    if *i < tokens.len() {
        let t = &tokens[*i];
        match t.token_type {
            TokenType::Identifier => {
                let name = t.lexeme.clone();
                *i = *i + 1;
                Some(Identifier { name })
            },
            _ => None,
        }
    } else {
        None
    }
}

fn parse_expression(tokens: &Vec<Token>, i: &mut usize) -> (r: Option<Expr>)
    requires
        *old(i) <= tokens@.len(),
    ensures
        *final(i) <= tokens@.len(),
        ({
            let sm = spec_parse_expression(tokens_view(tokens@), *old(i) as int);
            match (r, sm) {
                (Some(e), Some((em, j))) => e@ == em && *final(i) == j,
                (None, None) => *final(i) == *old(i),
                _ => false,
            }
        }),
{
    match parse_literal(tokens, i) {
        Some(l) => Some(Expr::Literal(l)),
        None => match parse_identifier(tokens, i) {
            Some(id) => Some(Expr::Identifier(id)),
            None => None,
        },
    }
}

fn parse_type(tokens: &Vec<Token>, i: &mut usize) -> (r: Option<DataType>)
    requires
        *old(i) <= tokens@.len(),
    ensures
        *final(i) <= tokens@.len(),
        ({
            let sm = spec_parse_type(tokens_view(tokens@), *old(i) as int);
            match (r, sm) {
                (Some(dt), Some((dtm, j))) => dt == dtm && *final(i) == j,
                (None, None) => *final(i) == *old(i),
                _ => false,
            }
        }),
{
    if *i < tokens.len() {
        let t = &tokens[*i];
        let data_type = match t.token_type {
            TokenType::Int => Some(DataType::Int),
            TokenType::Bool => Some(DataType::Bool),
            TokenType::Char => Some(DataType::Char),
            TokenType::Float => Some(DataType::Float),
            TokenType::Double => Some(DataType::Double),
            TokenType::Void => Some(DataType::Void),
            _ => None,
        };
        match data_type {
            Some(dt) => {
                *i = *i + 1;
                Some(dt)
            },
            None => None,
        }
    } else {
        None
    }
}

fn parse_assignment(tokens: &Vec<Token>, i: &mut usize) -> (r: Option<Assignment>)
    requires
        *old(i) <= tokens@.len(),
    ensures
        *final(i) <= tokens@.len(),
        ({
            let (sm, j) = spec_parse_assignment(tokens_view(tokens@), *old(i) as int);
            *final(i) == j && match (r, sm) {
                (Some(a), Some(am)) => a@ == am,
                (None, None) => true,
                _ => false,
            }
        }),
{
    let data_type = match parse_type(tokens, i) {
        Some(dt) => dt,
        None => {
            return None;
        },
    };
    let identifier = match parse_identifier(tokens, i) {
        Some(id) => id,
        None => {
            return None;
        },
    };
    if !match_token(tokens, i, TokenType::Equal) {
        return None;
    }
    let value = match parse_expression(tokens, i) {
        Some(e) => e,
        None => {
            return None;
        },
    };
    if !match_token(tokens, i, TokenType::Semicolon) {
        return None;
    }
    Some(Assignment { data_type, identifier, value })
}

fn parse_return(tokens: &Vec<Token>, i: &mut usize) -> (r: Option<Return>)
    requires
        *old(i) <= tokens@.len(),
    ensures
        *final(i) <= tokens@.len(),
        ({
            let (sm, j) = spec_parse_return(tokens_view(tokens@), *old(i) as int);
            *final(i) == j && match (r, sm) {
                (Some(rt), Some(rm)) => rt@ == rm,
                (None, None) => true,
                _ => false,
            }
        }),
{
    if !match_token(tokens, i, TokenType::Return) {
        return None;
    }
    let value = match parse_expression(tokens, i) {
        Some(e) => e,
        None => {
            return None;
        },
    };
    if !match_token(tokens, i, TokenType::Semicolon) {
        return None;
    }
    Some(Return { value })
}

pub open spec fn prepend_instructions(
    pre: Seq<InstructionModel>,
    r: Result<(Seq<InstructionModel>, int), ParseErrorModel>,
) -> Result<(Seq<InstructionModel>, int), ParseErrorModel> {
    match r {
        Ok((s, j)) => Ok((pre + s, j)),
        Err(e) => Err(e),
    }
}

proof fn lemma_prepend_assoc(
    pre: Seq<InstructionModel>,
    im: InstructionModel,
    r: Result<(Seq<InstructionModel>, int), ParseErrorModel>,
)
    ensures
        prepend_instructions(pre, prepend_instructions(seq![im], r)) == prepend_instructions(
            pre.push(im),
            r,
        ),
{
    match r {
        Ok(pair) => {
            assert(pre + (seq![im] + pair.0) =~= pre.push(im) + pair.0);
        },
        Err(_) => {},
    }
}

fn parse_instructions(tokens: &Vec<Token>, i: &mut usize) -> (r: Result<
    Vec<Instruction>,
    ParseError,
>)
    requires
        *old(i) <= tokens@.len(),
    ensures
        *final(i) <= tokens@.len(),
        ({
            let sm = spec_parse_instructions(tokens_view(tokens@), *old(i) as int);
            match (r, sm) {
                (Ok(instrs), Ok((ims, j))) => crate::ast::instructions_view(instrs@) == ims
                    && *final(i) == j,
                (Err(e), Err(em)) => e@ == em,
                _ => false,
            }
        }),
{
    let ghost toks = tokens_view(tokens@);
    let ghost i0 = *old(i) as int;
    let mut instructions: Vec<Instruction> = Vec::new();
    loop
        invariant
            *i <= tokens@.len(),
            toks == tokens_view(tokens@),
            i0 == *old(i) as int,
            0 <= i0 <= toks.len(),
            spec_parse_instructions(toks, i0) == prepend_instructions(
                crate::ast::instructions_view(instructions@),
                spec_parse_instructions(toks, *i as int),
            ),
        decreases tokens@.len() - *i,
    {
        let ghost i_before = *i as int;
        let ghost instrs_before = instructions@;
        match parse_assignment(tokens, i) {
            Some(a) => {
                let ghost i_after = *i as int;
                proof {
                    lemma_assignment_progress(toks, i_before);
                }
                let instr = Instruction::Assignment(a);
                let ghost im = instr@;
                proof {
                    assert(spec_parse_instructions(toks, i_before) == prepend_instructions(
                        seq![im],
                        spec_parse_instructions(toks, i_after),
                    ));
                }
                instructions.push(instr);
                proof {
                    assert(crate::ast::instructions_view(instructions@)
                        =~= crate::ast::instructions_view(instrs_before).push(im));
                    lemma_prepend_assoc(
                        crate::ast::instructions_view(instrs_before),
                        im,
                        spec_parse_instructions(toks, i_after),
                    );
                }
            },
            None => {
                let ghost ia = *i as int;
                match parse_return(tokens, i) {
                    Some(rt) => {
                        let ghost i_after = *i as int;
                        proof {
                            lemma_assignment_progress(toks, i_before);
                            lemma_return_progress(toks, ia);
                        }
                        let instr = Instruction::Return(rt);
                        let ghost im = instr@;
                        proof {
                            assert(spec_parse_instructions(toks, i_before) == prepend_instructions(
                                seq![im],
                                spec_parse_instructions(toks, i_after),
                            ));
                        }
                        instructions.push(instr);
                        proof {
                            assert(crate::ast::instructions_view(instructions@)
                                =~= crate::ast::instructions_view(instrs_before).push(im));
                            lemma_prepend_assoc(
                                crate::ast::instructions_view(instrs_before),
                                im,
                                spec_parse_instructions(toks, i_after),
                            );
                        }
                    },
                    None => {
                        if *i < tokens.len() {
                            if tokens[*i].token_type == TokenType::RightBrace {
                                proof {
                                    assert(spec_parse_instructions(toks, i_before) == Ok::<
                                        (Seq<InstructionModel>, int),
                                        ParseErrorModel,
                                    >((seq![], *i as int)));
                                    assert(crate::ast::instructions_view(instructions@) + seq![]
                                        =~= crate::ast::instructions_view(instructions@));
                                }
                                return Ok(instructions);
                            }
                            let line = tokens[*i].line;
                            return Err(ParseError::UnexpectedToken(line));
                        } else {
                            return Err(ParseError::UnexpectedToken(1));
                        }
                    },
                }
            },
        }
    }
}

fn parse_function(tokens: &Vec<Token>, i: &mut usize) -> (r: Result<Function, ParseError>)
    requires
        *old(i) == 0,
    ensures
        *final(i) <= tokens@.len(),
        ({
            match (r, spec_parse_function(tokens_view(tokens@))) {
                (Ok(f), Ok(fm)) => f@ == fm,
                (Err(e), Err(em)) => e@ == em,
                _ => false,
            }
        }),
{
    let ghost toks = tokens_view(tokens@);
    let expected: Vec<TokenType> = vec![
        TokenType::Int,
        TokenType::Identifier,
        TokenType::LeftParenthesis,
        TokenType::Void,
        TokenType::RightParenthesis,
        TokenType::LeftBrace,
    ];
    proof {
        assert(expected@ =~= prologue());
    }
    if !match_tokens(tokens, i, &expected) {
        return Err(ParseError::UnexpectedToken(10));
    }
    let instructions = match parse_instructions(tokens, i) {
        Ok(x) => x,
        Err(e) => {
            return Err(e);
        },
    };
    if !match_token(tokens, i, TokenType::RightBrace) {
        return Err(ParseError::UnexpectedToken(20));
    }
    Ok(Function { return_type: DataType::Int, name: "main".to_owned(), instructions })
}

/// Parses a token sequence into the program tree, or fails with the first
/// structural error. Tokens after the function's closing brace are ignored.
pub fn parse(tokens: Vec<Token>) -> (r: Result<Program, ParseError>)
    ensures
        ({
            match (r, spec_parse(tokens_view(tokens@))) {
                (Ok(p), Ok(pm)) => p@ == pm,
                (Err(e), Err(em)) => e@ == em,
                _ => false,
            }
        }),
{
    let mut i: usize = 0;
    let function = match parse_function(&tokens, &mut i) {
        Ok(f) => f,
        Err(e) => {
            return Err(e);
        },
    };
    let ghost fm = function@;
    let mut functions: Vec<Function> = Vec::new();
    functions.push(function);
    let program = Program { functions };
    proof {
        assert(crate::ast::functions_view(program.functions@) =~= seq![fm]);
    }
    Ok(program)
}

} // verus!
