use compiler::ast::{
    Assignment, DataType, Expr, FloatLiteral, Function, Identifier, Instruction, Literal, Program,
};
use compiler::lexer::tokenize;
use compiler::parser::parse;
use compiler::semantic_checker::{check, SemanticError};

fn parsed(source: &str) -> Program {
    parse(tokenize(source.to_string(), false).unwrap()).unwrap()
}

fn one_function(instructions: Vec<Instruction>) -> Program {
    Program {
        functions: vec![Function {
            return_type: DataType::Int,
            name: "main".to_string(),
            instructions,
        }],
    }
}

fn declaration(data_type: DataType, name: &str, value: Expr) -> Instruction {
    Instruction::Assignment(Assignment {
        data_type,
        identifier: Identifier { name: name.to_string() },
        value,
    })
}

#[test]
fn valid_program_passes() {
    assert!(check(&parsed("int main(void){int x=5;return x;}")).is_ok());
}

#[test]
fn boolean_literal_for_int_declaration_is_a_type_error() {
    match check(&parsed("int main(void){int x=true;return x;}")) {
        Err(SemanticError::TypeError(message)) => {
            assert_eq!(message, "Type mismatch: expected 'int' for variable 'x'");
        }
        _ => panic!("expected a type error"),
    }
}

#[test]
fn undefined_variable_in_return() {
    match check(&parsed("int main(void){return y;}")) {
        Err(SemanticError::UndefinedVariable(name)) => assert_eq!(name, "y"),
        _ => panic!("expected an undefined variable"),
    }
}

#[test]
fn name_is_not_visible_to_its_own_initializer() {
    match check(&parsed("int main(void){int x=x;return x;}")) {
        Err(SemanticError::UndefinedVariable(name)) => assert_eq!(name, "x"),
        _ => panic!("expected an undefined variable"),
    }
}

#[test]
fn reserved_keyword_as_declared_name() {
    // The scanner turns `int` into a keyword token, so such a declaration
    // never gets past the parser; the rule is visible on a tree built here.
    let program = one_function(vec![declaration(
        DataType::Int,
        "int",
        Expr::Literal(Literal::Integer(compiler::ast::IntegerLiteral { value: 1 })),
    )]);
    match check(&program) {
        Err(SemanticError::ReservedKeyword(name)) => assert_eq!(name, "int"),
        _ => panic!("expected a reserved-keyword error"),
    }
}

#[test]
fn keyword_declaration_source_fails_at_the_parser() {
    let tokens = tokenize("int main(void){int int=1;return int;}".to_string(), false).unwrap();
    assert!(parse(tokens).is_err());
}

#[test]
fn duplicate_declaration_is_a_type_error() {
    match check(&parsed("int main(void){int x=1;int x=2;return x;}")) {
        Err(SemanticError::TypeError(message)) => {
            assert_eq!(message, "Variable 'x' already declared");
        }
        _ => panic!("expected a type error"),
    }
}

#[test]
fn void_declaration_is_a_type_error() {
    match check(&parsed("int main(void){void v=1;return v;}")) {
        Err(SemanticError::TypeError(message)) => {
            assert_eq!(message, "Cannot assign void type to variable 'v'");
        }
        _ => panic!("expected a type error"),
    }
}

#[test]
fn string_literal_for_char_declaration_is_a_type_error() {
    match check(&parsed("int main(void){char c=\"s\";return c;}")) {
        Err(SemanticError::TypeError(message)) => {
            assert_eq!(message, "Type mismatch: expected 'char' for variable 'c'");
        }
        _ => panic!("expected a type error"),
    }
}

#[test]
fn identifier_value_is_not_type_checked() {
    // a known gap, by design: only literal values are compared to the
    // declared type
    assert!(check(&parsed("int main(void){bool b=true;int x=b;return x;}")).is_ok());
}

#[test]
fn return_type_is_not_checked() {
    assert!(check(&parsed("int main(void){bool b=true;return b;}")).is_ok());
}

#[test]
fn float_and_double_declarations_accept_a_float_literal() {
    let program = one_function(vec![
        declaration(
            DataType::Float,
            "f",
            Expr::Literal(Literal::Float(FloatLiteral { bits: 0 })),
        ),
        declaration(
            DataType::Double,
            "d",
            Expr::Literal(Literal::Float(FloatLiteral { bits: 1 })),
        ),
    ]);
    assert!(check(&program).is_ok());
}

#[test]
fn float_literal_for_int_declaration_is_a_type_error() {
    let program = one_function(vec![declaration(
        DataType::Int,
        "x",
        Expr::Literal(Literal::Float(FloatLiteral { bits: 0 })),
    )]);
    match check(&program) {
        Err(SemanticError::TypeError(message)) => {
            assert_eq!(message, "Type mismatch: expected 'int' for variable 'x'");
        }
        _ => panic!("expected a type error"),
    }
}

#[test]
fn whole_pipeline_succeeds_on_a_grammar_conforming_source() {
    let source = "int main(void){int a=5;bool b=false;char c=b;return a;}";
    let tokens = tokenize(source.to_string(), false).unwrap();
    let program = parse(tokens).unwrap();
    assert_eq!(program.functions.len(), 1);
    assert!(check(&program).is_ok());
}
