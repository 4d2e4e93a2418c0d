use vstd::prelude::*;

use crate::ast::AssignmentModel;
use crate::ast::ReturnModel;
use crate::lexer::lex;
use crate::lexer::token::{TokenModel, TokenType};
use crate::parser::{
    prologue_ok, spec_parse, spec_parse_assignment, spec_parse_i64, spec_parse_instructions,
    spec_parse_return,
};

verus! {

/// Whether a token opens a literal that the parser accepts: a number whose
/// digits fit a 64-bit signed integer, a string, `true` or `false`.
pub open spec fn is_literal_token(t: TokenModel) -> bool {
    match t.token_type {
        TokenType::Number => spec_parse_i64(t.lexeme) is Some,
        TokenType::True => true,
        TokenType::False => true,
        TokenType::String => true,
        _ => false,
    }
}

/// Whether a token fits the grammar's Expr rule: a literal or an identifier.
pub open spec fn is_expr_token(t: TokenModel) -> bool {
    is_literal_token(t) || t.token_type == TokenType::Identifier
}

/// Whether a token is one of the six type keywords.
pub open spec fn is_type_token(t: TokenModel) -> bool {
    match t.token_type {
        TokenType::Int => true,
        TokenType::Bool => true,
        TokenType::Char => true,
        TokenType::Float => true,
        TokenType::Double => true,
        TokenType::Void => true,
        _ => false,
    }
}

/// Whether the five tokens at `i` derive the Assignment rule,
/// `Type Identifier = Expr ;`.
pub open spec fn assignment_at(toks: Seq<TokenModel>, i: int) -> bool {
    &&& 0 <= i
    &&& i + 5 <= toks.len()
    &&& is_type_token(toks[i])
    &&& toks[i + 1].token_type == TokenType::Identifier
    &&& toks[i + 2].token_type == TokenType::Equal
    &&& is_expr_token(toks[i + 3])
    &&& toks[i + 4].token_type == TokenType::Semicolon
}

/// Whether the three tokens at `i` derive the Return rule, `return Expr ;`.
pub open spec fn return_at(toks: Seq<TokenModel>, i: int) -> bool {
    &&& 0 <= i
    &&& i + 3 <= toks.len()
    &&& toks[i].token_type == TokenType::Return
    &&& is_expr_token(toks[i + 1])
    &&& toks[i + 2].token_type == TokenType::Semicolon
}

/// Whether the tokens from `i` up to `k` derive the grammar's `Instruction*`.
pub open spec fn instructions_shape(toks: Seq<TokenModel>, i: int, k: int) -> bool
    decreases k - i,
{
    if i == k {
        true
    } else if i < k {
        (if assignment_at(toks, i) && i + 5 <= k {
            instructions_shape(toks, i + 5, k)
        } else {
            false
        }) || (if return_at(toks, i) && i + 3 <= k {
            instructions_shape(toks, i + 3, k)
        } else {
            false
        })
    } else {
        false
    }
}

/// Whether a whole token sequence derives from the grammar: the fixed
/// six-token prologue, instructions, and a closing brace that ends the input.
pub open spec fn matches_grammar(toks: Seq<TokenModel>) -> bool {
    &&& toks.len() >= 7
    &&& prologue_ok(toks, 0)
    &&& instructions_shape(toks, 6, toks.len() - 1)
    &&& toks[toks.len() - 1].token_type == TokenType::RightBrace
}

proof fn lemma_instructions_parse(toks: Seq<TokenModel>, i: int, k: int)
    requires
        0 <= i <= k < toks.len(),
        instructions_shape(toks, i, k),
        toks[k].token_type == TokenType::RightBrace,
    ensures
        spec_parse_instructions(toks, i) is Ok,
        spec_parse_instructions(toks, i) matches Ok(pair) ==> pair.1 == k,
    decreases k - i,
{
    if i == k {
        assert(spec_parse_assignment(toks, i) == (None::<AssignmentModel>, i));
        assert(spec_parse_return(toks, i) == (None::<ReturnModel>, i));
    } else if assignment_at(toks, i) && i + 5 <= k && instructions_shape(toks, i + 5, k) {
        assert(spec_parse_assignment(toks, i).0 is Some && spec_parse_assignment(toks, i).1 == i
            + 5);
        lemma_instructions_parse(toks, i + 5, k);
    } else {
        assert(return_at(toks, i) && i + 3 <= k && instructions_shape(toks, i + 3, k));
        assert(spec_parse_assignment(toks, i) == (None::<AssignmentModel>, i));
        assert(spec_parse_return(toks, i).0 is Some && spec_parse_return(toks, i).1 == i + 3);
        lemma_instructions_parse(toks, i + 3, k);
    }
}

/// For any token sequence that derives from the grammar, the parse succeeds
/// and yields a program with exactly one function, always labelled `main`
/// with return type `int`.
pub proof fn lemma_grammar_parse(toks: Seq<TokenModel>)
    requires
        matches_grammar(toks),
    ensures
        spec_parse(toks) is Ok,
        spec_parse(toks) matches Ok(p) ==> {
            &&& p.functions.len() == 1
            &&& p.functions[0].name == "main"@
            &&& p.functions[0].return_type == crate::ast::DataType::Int
        },
{
    lemma_instructions_parse(toks, 6, toks.len() - 1);
}

/// A source whose scan finds no lexical error and whose token sequence
/// derives from the grammar parses into a program with exactly one function.
/// Together with the contracts of `tokenize`, `parse` and `check`, such a
/// source runs the whole pipeline without a failure whenever the semantic
/// rules accept the parsed program.
pub proof fn lemma_pipeline(s: Seq<char>)
    requires
        lex(s).errors.len() == 0,
        matches_grammar(lex(s).tokens),
    ensures
        spec_parse(lex(s).tokens) is Ok,
        spec_parse(lex(s).tokens) matches Ok(p) ==> p.functions.len() == 1,
{
    lemma_grammar_parse(lex(s).tokens);
}

} // verus!
