use vstd::prelude::*;

verus! {

/// The declared type of a variable, or of a function's return value.
#[derive(Debug, Clone, Copy, PartialEq, Eq, Structural)]
pub enum DataType {
    Int,
    Char,
    Float,
    Double,
    Bool,
    Void,
}

#[derive(Debug)]
pub struct BooleanLiteral {
    pub value: bool,
}

#[derive(Debug)]
pub struct IntegerLiteral {
    pub value: i64,
}

/// A floating-point literal. The value is carried as the bit pattern of an
/// IEEE 754 double; the front end never computes with it, so the bits are
/// kept as plain data.
#[derive(Debug)]
pub struct FloatLiteral {
    pub bits: u64,
}

#[derive(Debug)]
pub struct CharLiteral {
    pub value: char,
}

#[derive(Debug)]
pub struct StringLiteral {
    pub value: String,
}

/// A literal expression; each variant carries its own fully-typed value.
#[derive(Debug)]
pub enum Literal {
    Boolean(BooleanLiteral),
    Integer(IntegerLiteral),
    Float(FloatLiteral),
    Char(CharLiteral),
    String(StringLiteral),
}

/// A name appearing in the program.
#[derive(Debug, Clone)]
pub struct Identifier {
    pub name: String,
}

/// An expression: a literal or a reference to a declared name.
#[derive(Debug)]
pub enum Expr {
    Literal(Literal),
    Identifier(Identifier),
}

/// A declaration with an initializer: `Type name = value;`.
#[derive(Debug)]
pub struct Assignment {
    pub data_type: DataType,
    pub identifier: Identifier,
    pub value: Expr,
}

/// A `return value;` statement.
#[derive(Debug)]
pub struct Return {
    pub value: Expr,
}

/// One statement of a function body.
#[derive(Debug)]
pub enum Instruction {
    Assignment(Assignment),
    Return(Return),
}

/// A function: its return type, its name, and its body in order.
#[derive(Debug)]
pub struct Function {
    pub return_type: DataType,
    pub name: String,
    pub instructions: Vec<Instruction>,
}

/// A whole program; the grammar admits exactly one function.
#[derive(Debug)]
pub struct Program {
    pub functions: Vec<Function>,
}

/// The mathematical view of a literal.
pub ghost enum LiteralModel {
    Boolean(bool),
    Integer(i64),
    Float(u64),
    Char(char),
    String(Seq<char>),
}

/// The mathematical view of an expression.
pub ghost enum ExprModel {
    Literal(LiteralModel),
    Identifier(Seq<char>),
}

/// The mathematical view of a declaration with an initializer.
pub ghost struct AssignmentModel {
    pub data_type: DataType,
    pub identifier: Seq<char>,
    pub value: ExprModel,
}

/// The mathematical view of a return statement.
pub ghost struct ReturnModel {
    pub value: ExprModel,
}

/// The mathematical view of a statement.
pub ghost enum InstructionModel {
    Assignment(AssignmentModel),
    Return(ReturnModel),
}

/// The mathematical view of a function.
pub ghost struct FunctionModel {
    pub return_type: DataType,
    pub name: Seq<char>,
    pub instructions: Seq<InstructionModel>,
}

/// The mathematical view of a program.
pub ghost struct ProgramModel {
    pub functions: Seq<FunctionModel>,
}

impl View for Literal {
    type V = LiteralModel;

    open spec fn view(&self) -> LiteralModel {
        match self {
            Literal::Boolean(b) => LiteralModel::Boolean(b.value),
            Literal::Integer(x) => LiteralModel::Integer(x.value),
            Literal::Float(f) => LiteralModel::Float(f.bits),
            Literal::Char(c) => LiteralModel::Char(c.value),
            Literal::String(s) => LiteralModel::String(s.value@),
        }
    }
}

impl View for Expr {
    type V = ExprModel;

    open spec fn view(&self) -> ExprModel {
        match self {
            Expr::Literal(l) => ExprModel::Literal(l@),
            Expr::Identifier(id) => ExprModel::Identifier(id.name@),
        }
    }
}

impl View for Assignment {
    type V = AssignmentModel;

    open spec fn view(&self) -> AssignmentModel {
        AssignmentModel {
            data_type: self.data_type,
            identifier: self.identifier.name@,
            value: self.value@,
        }
    }
}

impl View for Return {
    type V = ReturnModel;

    open spec fn view(&self) -> ReturnModel {
        ReturnModel { value: self.value@ }
    }
}

impl View for Instruction {
    type V = InstructionModel;

    open spec fn view(&self) -> InstructionModel {
        match self {
            Instruction::Assignment(a) => InstructionModel::Assignment(a@),
            Instruction::Return(r) => InstructionModel::Return(r@),
        }
    }
}

pub open spec fn instructions_view(v: Seq<Instruction>) -> Seq<InstructionModel> {
    v.map_values(|x: Instruction| x@)
}

pub open spec fn functions_view(v: Seq<Function>) -> Seq<FunctionModel> {
    v.map_values(|f: Function| f@)
}

impl View for Function {
    type V = FunctionModel;

    open spec fn view(&self) -> FunctionModel {
        FunctionModel {
            return_type: self.return_type,
            name: self.name@,
            instructions: instructions_view(self.instructions@),
        }
    }
}

impl View for Program {
    type V = ProgramModel;

    open spec fn view(&self) -> ProgramModel {
        ProgramModel { functions: functions_view(self.functions@) }
    }
}

} // verus!
