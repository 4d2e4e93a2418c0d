use compiler::ast::{DataType, Expr, Instruction, Literal};
use compiler::lexer::token::Token;
use compiler::lexer::tokenize;
use compiler::parser::{parse, ParseError};

fn scan(source: &str) -> Vec<Token> {
    tokenize(source.to_string(), false).unwrap()
}

#[test]
fn parse_assignment_and_return() {
    let program = parse(scan("int main(void){int x=5;return x;}")).unwrap();
    assert_eq!(program.functions.len(), 1);
    let function = &program.functions[0];
    assert_eq!(function.name, "main");
    assert_eq!(function.return_type, DataType::Int);
    assert_eq!(function.instructions.len(), 2);
    match &function.instructions[0] {
        Instruction::Assignment(a) => {
            assert_eq!(a.data_type, DataType::Int);
            assert_eq!(a.identifier.name, "x");
            match &a.value {
                Expr::Literal(Literal::Integer(i)) => assert_eq!(i.value, 5),
                _ => panic!("expected an integer literal"),
            }
        }
        _ => panic!("expected an assignment"),
    }
    match &function.instructions[1] {
        Instruction::Return(r) => match &r.value {
            Expr::Identifier(id) => assert_eq!(id.name, "x"),
            _ => panic!("expected an identifier"),
        },
        _ => panic!("expected a return"),
    }
}

#[test]
fn empty_body_parses() {
    let program = parse(scan("int main(void){}")).unwrap();
    assert_eq!(program.functions.len(), 1);
    assert_eq!(program.functions[0].instructions.len(), 0);
}

#[test]
fn bad_prologue_is_rejected() {
    let error = parse(scan("float main(void){}")).unwrap_err();
    assert_eq!(error, ParseError::UnexpectedToken(10));
}

#[test]
fn missing_closing_brace_is_rejected() {
    let error = parse(scan("int main(void){")).unwrap_err();
    assert_eq!(error, ParseError::UnexpectedToken(1));
}

#[test]
fn unexpected_token_in_block_is_rejected_at_its_line() {
    let error = parse(scan("int main(void){\n;}")).unwrap_err();
    assert_eq!(error, ParseError::UnexpectedToken(2));
}

#[test]
fn number_overflow_fails_the_literal_match() {
    let error = parse(scan("int main(void){int x=99999999999999999999;return x;}")).unwrap_err();
    assert_eq!(error, ParseError::UnexpectedToken(1));
}

#[test]
fn i64_boundary_values() {
    let program = parse(scan("int main(void){int x=9223372036854775807;return x;}")).unwrap();
    match &program.functions[0].instructions[0] {
        Instruction::Assignment(a) => match &a.value {
            Expr::Literal(Literal::Integer(i)) => assert_eq!(i.value, 9223372036854775807),
            _ => panic!("expected an integer literal"),
        },
        _ => panic!("expected an assignment"),
    }
    let error = parse(scan("int main(void){int x=9223372036854775808;return x;}")).unwrap_err();
    assert_eq!(error, ParseError::UnexpectedToken(1));
}

#[test]
fn boolean_and_string_literals_parse() {
    let program = parse(scan("int main(void){bool b=true;char s=\"hi\";return b;}")).unwrap();
    let instructions = &program.functions[0].instructions;
    assert_eq!(instructions.len(), 3);
    match &instructions[0] {
        Instruction::Assignment(a) => match &a.value {
            Expr::Literal(Literal::Boolean(b)) => assert!(b.value),
            _ => panic!("expected a boolean literal"),
        },
        _ => panic!("expected an assignment"),
    }
    match &instructions[1] {
        Instruction::Assignment(a) => {
            assert_eq!(a.data_type, DataType::Char);
            match &a.value {
                Expr::Literal(Literal::String(s)) => assert_eq!(s.value, "hi"),
                _ => panic!("expected a string literal"),
            }
        }
        _ => panic!("expected an assignment"),
    }
}

#[test]
fn tokens_after_the_closing_brace_are_ignored() {
    let program = parse(scan("int main(void){} }")).unwrap();
    assert_eq!(program.functions.len(), 1);
}

#[test]
fn consumed_tokens_are_not_given_back() {
    // `return` with no expression is consumed and the block then closes: the
    // parser does not backtrack, so the body comes out empty.
    let program = parse(scan("int main(void){return}")).unwrap();
    assert_eq!(program.functions[0].instructions.len(), 0);
    // likewise a type keyword with nothing usable after it
    let program = parse(scan("int main(void){int}")).unwrap();
    assert_eq!(program.functions[0].instructions.len(), 0);
}
