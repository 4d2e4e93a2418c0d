use vstd::prelude::*;
use vstd::string::StringExecFns;

use crate::ast::{
    Assignment, AssignmentModel, DataType, Expr, ExprModel, Function, FunctionModel, Identifier,
    Instruction, InstructionModel, Literal, LiteralModel, Program, ProgramModel, Return,
};
use crate::ast::{functions_view, instructions_view};
use crate::lexer::token::{is_keyword, keyword_token_type};

verus! {

/// A semantic error: the first violation found halts the traversal. An
/// undefined variable and a reserved keyword carry the offending name; a
/// type error carries its description, duplicate declarations included.
#[derive(Debug, PartialEq)]
pub enum SemanticError {
    UndefinedVariable(String),
    ReservedKeyword(String),
    TypeError(String),
}

/// The mathematical view of a semantic error.
pub ghost enum SemanticErrorModel {
    UndefinedVariable(Seq<char>),
    ReservedKeyword(Seq<char>),
    TypeError(Seq<char>),
}

impl View for SemanticError {
    type V = SemanticErrorModel;

    open spec fn view(&self) -> SemanticErrorModel {
        match self {
            SemanticError::UndefinedVariable(s) => SemanticErrorModel::UndefinedVariable(s@),
            SemanticError::ReservedKeyword(s) => SemanticErrorModel::ReservedKeyword(s@),
            SemanticError::TypeError(s) => SemanticErrorModel::TypeError(s@),
        }
    }
}

/// The lowercase keyword for a declared type.
pub open spec fn type_keyword(dt: DataType) -> Seq<char> {
    match dt {
        DataType::Int => "int"@,
        DataType::Bool => "bool"@,
        DataType::Char => "char"@,
        DataType::Float => "float"@,
        DataType::Double => "double"@,
        DataType::Void => "void"@,
    }
}

/// The description of a literal whose type does not match its declaration.
pub open spec fn mismatch_message(dt: DataType, name: Seq<char>) -> Seq<char> {
    "Type mismatch: expected '"@ + type_keyword(dt) + "' for variable '"@ + name + "'"@
}

/// The description of a literal assigned to a void declaration.
pub open spec fn void_message(name: Seq<char>) -> Seq<char> {
    "Cannot assign void type to variable '"@ + name + "'"@
}

/// The description of a name declared twice.
pub open spec fn duplicate_message(name: Seq<char>) -> Seq<char> {
    "Variable '"@ + name + "' already declared"@
}

/// Whether a literal may initialize a declaration of the given type: int
/// takes an integer, bool a boolean, char a character, and both float-typed
/// declarations take a float literal; nothing may initialize a void
/// declaration.
pub open spec fn literal_compatible(dt: DataType, l: LiteralModel) -> bool {
    match dt {
        DataType::Int => l is Integer,
        DataType::Bool => l is Boolean,
        DataType::Float => l is Float,
        DataType::Double => l is Float,
        DataType::Char => l is Char,
        DataType::Void => false,
    }
}

/// How an expression resolves against the declared names: a literal always
/// does; an identifier must already be declared at the moment of use.
pub open spec fn spec_check_expr(e: ExprModel, names: Set<Seq<char>>) -> Result<
    (),
    SemanticErrorModel,
> {
    match e {
        ExprModel::Literal(_) => Ok(()),
        ExprModel::Identifier(name) => if names.contains(name) {
            Ok(())
        } else {
            Err(SemanticErrorModel::UndefinedVariable(name))
        },
    }
}

/// How one assignment is checked: its value is resolved against the table as
/// it stood before this declaration (a name is not visible to its own
/// initializer), the target name is then declared — a keyword is refused, as
/// is a name already declared — and a literal value must match the declared
/// type. An identifier value is never type-checked.
pub open spec fn spec_check_assignment(a: AssignmentModel, names: Set<Seq<char>>) -> Result<
    Set<Seq<char>>,
    SemanticErrorModel,
> {
    match spec_check_expr(a.value, names) {
        Err(e) => Err(e),
        Ok(_) => if is_keyword(a.identifier) {
            Err(SemanticErrorModel::ReservedKeyword(a.identifier))
        } else if names.contains(a.identifier) {
            Err(SemanticErrorModel::TypeError(duplicate_message(a.identifier)))
        } else {
            let declared = names.insert(a.identifier);
            match a.value {
                ExprModel::Identifier(_) => Ok(declared),
                ExprModel::Literal(l) => if a.data_type is Void {
                    Err(SemanticErrorModel::TypeError(void_message(a.identifier)))
                } else if literal_compatible(a.data_type, l) {
                    Ok(declared)
                } else {
                    Err(SemanticErrorModel::TypeError(mismatch_message(a.data_type, a.identifier)))
                },
            }
        },
    }
}

/// How one instruction is checked; a return only resolves its expression,
/// never comparing its type against the function's declared return type.
pub open spec fn spec_check_instruction(ins: InstructionModel, names: Set<Seq<char>>) -> Result<
    Set<Seq<char>>,
    SemanticErrorModel,
> {
    match ins {
        InstructionModel::Assignment(a) => spec_check_assignment(a, names),
        InstructionModel::Return(r) => match spec_check_expr(r.value, names) {
            Ok(_) => Ok(names),
            Err(e) => Err(e),
        },
    }
}

/// The instructions in declaration order, threading the growing table.
pub open spec fn spec_check_instructions(
    list: Seq<InstructionModel>,
    names: Set<Seq<char>>,
) -> Result<Set<Seq<char>>, SemanticErrorModel>
    decreases list.len(),
{
    if list.len() == 0 {
        Ok(names)
    } else {
        match spec_check_instruction(list[0], names) {
            Err(e) => Err(e),
            Ok(declared) => spec_check_instructions(list.skip(1), declared),
        }
    }
}

pub open spec fn spec_check_function(f: FunctionModel, names: Set<Seq<char>>) -> Result<
    Set<Seq<char>>,
    SemanticErrorModel,
> {
    spec_check_instructions(f.instructions, names)
}

/// The functions in order, sharing one flat table.
pub open spec fn spec_check_functions(
    list: Seq<FunctionModel>,
    names: Set<Seq<char>>,
) -> Result<Set<Seq<char>>, SemanticErrorModel>
    decreases list.len(),
{
    if list.len() == 0 {
        Ok(names)
    } else {
        match spec_check_function(list[0], names) {
            Err(e) => Err(e),
            Ok(declared) => spec_check_functions(list.skip(1), declared),
        }
    }
}

/// Whether a whole program passes the semantic check, and with which error
/// it fails first: functions in order, then instructions in declaration
/// order, over one flat symbol table that starts empty and only grows.
pub open spec fn spec_check(p: ProgramModel) -> Result<(), SemanticErrorModel> {
    match spec_check_functions(p.functions, Set::empty()) {
        Ok(_) => Ok(()),
        Err(e) => Err(e),
    }
}

fn type_keyword_str(dt: DataType) -> (r: &'static str)
    ensures
        r@ == type_keyword(dt),
{
    match dt {
        DataType::Int => "int",
        DataType::Bool => "bool",
        DataType::Char => "char",
        DataType::Float => "float",
        DataType::Double => "double",
        DataType::Void => "void",
    }
}

fn literal_matches(dt: DataType, lit: &Literal) -> (r: bool)
    ensures
        r == literal_compatible(dt, lit@),
{
    match (dt, lit) {
        (DataType::Int, Literal::Integer(_)) => true,
        (DataType::Bool, Literal::Boolean(_)) => true,
        (DataType::Float, Literal::Float(_)) => true,
        (DataType::Double, Literal::Float(_)) => true,
        (DataType::Char, Literal::Char(_)) => true,
        _ => false,
    }
}

/// The checker's state: the flat symbol table, one for the whole program.
struct SemanticChecker {
    symbol_table: Vec<Identifier>,
}

impl SemanticChecker {
    /// The set of names declared so far.
    spec fn names(&self) -> Set<Seq<char>> {
        Set::new(
            |n: Seq<char>|
                exists|k: int|
                    0 <= k < self.symbol_table@.len() && self.symbol_table@[k].name@ == n,
        )
    }

    fn new() -> (checker: Self)
        ensures
            checker.names() == Set::<Seq<char>>::empty(),
    {
        let checker = SemanticChecker { symbol_table: Vec::new() };
        proof {
            assert(checker.names() =~= Set::<Seq<char>>::empty());
        }
        checker
    }

    fn get_variable(&self, name: &str) -> (r: Option<&Identifier>)
        ensures
            (r is Some) == self.names().contains(name@),
            match r {
                Some(id) => id.name@ == name@,
                None => true,
            },
    {
        let mut j: usize = 0;
        while j < self.symbol_table.len()
            invariant
                j <= self.symbol_table@.len(),
                forall|k: int| 0 <= k < j ==> self.symbol_table@[k].name@ != name@,
            decreases self.symbol_table@.len() - j,
        {
            if crate::lexer::token::str_eq(self.symbol_table[j].name.as_str(), name) {
                return Some(&self.symbol_table[j]);
            }
            j += 1;
        }
        None
    }

    /// Declares a name: a reserved keyword is refused as such, a name already
    /// in the table as a type error, and anything else is added.
    fn declare_variable(&mut self, identifier: &Identifier) -> (r: Result<(), SemanticError>)
        ensures
            ({
                let name = identifier.name@;
                let before = old(self).names();
                match r {
                    Ok(_) => {
                        &&& !is_keyword(name)
                        &&& !before.contains(name)
                        &&& final(self).names() == before.insert(name)
                    },
                    Err(e) => {
                        &&& *final(self) == *old(self)
                        &&& is_keyword(name) || before.contains(name)
                        &&& e@ == (if is_keyword(name) {
                            SemanticErrorModel::ReservedKeyword(name)
                        } else {
                            SemanticErrorModel::TypeError(duplicate_message(name))
                        })
                    },
                }
            }),
    {
        if keyword_token_type(identifier.name.as_str()).is_some() {
            return Err(SemanticError::ReservedKeyword(identifier.name.clone()));
        }
        if self.get_variable(identifier.name.as_str()).is_some() {
            let mut message = "Variable '".to_owned();
            message.append(identifier.name.as_str());
            message.append("' already declared");
            return Err(SemanticError::TypeError(message));
        }
        let ghost names_before = self.names();
        let ghost table_before = self.symbol_table@;
        self.symbol_table.push(Identifier { name: identifier.name.clone() });
        proof {
            let table_after = self.symbol_table@;
            assert forall|n: Seq<char>|
                self.names().contains(n) == names_before.insert(identifier.name@).contains(
                    n,
                ) by {
                let len_before = table_before.len() as int;
                if n == identifier.name@ {
                    assert(table_after[len_before].name@ == n);
                    assert(self.names().contains(n));
                } else {
                    if self.names().contains(n) {
                        let k = choose|k: int|
                            0 <= k < table_after.len() && table_after[k].name@ == n;
                        assert(table_before[k].name@ == n);
                    }
                    if names_before.contains(n) {
                        let k = choose|k: int|
                            0 <= k < table_before.len() && table_before[k].name@ == n;
                        assert(table_after[k].name@ == n);
                    }
                }
            }
            assert(self.names() =~= names_before.insert(identifier.name@));
        }
        Ok(())
    }

    fn visit_literal(&mut self, _literal: &Literal) -> (r: Result<(), SemanticError>)
        ensures
            *final(self) == *old(self),
            r is Ok,
    {
        Ok(())
    }

    fn visit_identifier(&mut self, identifier: &Identifier) -> (r: Result<(), SemanticError>)
        ensures
            *final(self) == *old(self),
            match (r, spec_check_expr(ExprModel::Identifier(identifier.name@), old(self).names())) {
                (Ok(_), Ok(_)) => true,
                (Err(e), Err(em)) => e@ == em,
                _ => false,
            },
    {
        if self.get_variable(identifier.name.as_str()).is_none() {
            return Err(SemanticError::UndefinedVariable(identifier.name.clone()));
        }
        Ok(())
    }

    fn visit_expr(&mut self, expr: &Expr) -> (r: Result<(), SemanticError>)
        ensures
            *final(self) == *old(self),
            match (r, spec_check_expr(expr@, old(self).names())) {
                (Ok(_), Ok(_)) => true,
                (Err(e), Err(em)) => e@ == em,
                _ => false,
            },
    {
        match expr {
            Expr::Literal(literal) => self.visit_literal(literal),
            Expr::Identifier(identifier) => self.visit_identifier(identifier),
        }
    }

    fn visit_assignment(&mut self, assignment: &Assignment) -> (r: Result<(), SemanticError>)
        ensures
            match (r, spec_check_assignment(assignment@, old(self).names())) {
                (Ok(_), Ok(declared)) => final(self).names() == declared,
                (Err(e), Err(em)) => e@ == em,
                _ => false,
            },
    {
        match self.visit_expr(&assignment.value) {
            Ok(_) => {},
            Err(e) => {
                return Err(e);
            },
        }
        match self.declare_variable(&assignment.identifier) {
            Ok(_) => {},
            Err(e) => {
                return Err(e);
            },
        }
        match &assignment.value {
            Expr::Identifier(_) => Ok(()),
            Expr::Literal(literal) => {
                match assignment.data_type {
                    DataType::Void => {
                        let mut message = "Cannot assign void type to variable '".to_owned();
                        message.append(assignment.identifier.name.as_str());
                        message.append("'");
                        Err(SemanticError::TypeError(message))
                    },
                    _ => {
                        if literal_matches(assignment.data_type, literal) {
                            Ok(())
                        } else {
                            let mut message = "Type mismatch: expected '".to_owned();
                            message.append(type_keyword_str(assignment.data_type));
                            message.append("' for variable '");
                            message.append(assignment.identifier.name.as_str());
                            message.append("'");
                            Err(SemanticError::TypeError(message))
                        }
                    },
                }
            },
        }
    }

    fn visit_return(&mut self, return_stmt: &Return) -> (r: Result<(), SemanticError>)
        ensures
            *final(self) == *old(self),
            match (r, spec_check_expr(return_stmt.value@, old(self).names())) {
                (Ok(_), Ok(_)) => true,
                (Err(e), Err(em)) => e@ == em,
                _ => false,
            },
    {
        self.visit_expr(&return_stmt.value)
    }

    fn visit_instruction(&mut self, instruction: &Instruction) -> (r: Result<(), SemanticError>)
        ensures
            match (r, spec_check_instruction(instruction@, old(self).names())) {
                (Ok(_), Ok(declared)) => final(self).names() == declared,
                (Err(e), Err(em)) => e@ == em,
                _ => false,
            },
    {
        match instruction {
            Instruction::Assignment(assignment) => self.visit_assignment(assignment),
            Instruction::Return(return_stmt) => self.visit_return(return_stmt),
        }
    }

    fn visit_function(&mut self, function: &Function) -> (r: Result<(), SemanticError>)
        ensures
            match (r, spec_check_function(function@, old(self).names())) {
                (Ok(_), Ok(declared)) => final(self).names() == declared,
                (Err(e), Err(em)) => e@ == em,
                _ => false,
            },
    {
        let ghost list = instructions_view(function.instructions@);
        let ghost names0 = self.names();
        proof {
            assert(list.skip(0) =~= list);
        }
        let mut k: usize = 0;
        while k < function.instructions.len()
            invariant
                k <= function.instructions@.len(),
                list == instructions_view(function.instructions@),
                names0 == old(self).names(),
                spec_check_instructions(list, names0) == spec_check_instructions(
                    list.skip(k as int),
                    self.names(),
                ),
            decreases function.instructions@.len() - k,
        {
            let ghost names_k = self.names();
            proof {
                assert(list.skip(k as int)[0] == list[k as int]);
            }
            match self.visit_instruction(&function.instructions[k]) {
                Ok(_) => {},
                Err(e) => {
                    proof {
                        assert(list[k as int] == function.instructions@[k as int]@);
                        assert(spec_check_instruction(list[k as int], names_k) is Err);
                        assert(spec_check_instructions(list.skip(k as int), names_k)
                            == spec_check_instruction(list[k as int], names_k));
                    }
                    return Err(e);
                },
            }
            proof {
                assert(list.skip(k as int)[0] == list[k as int]);
                assert(list.skip(k as int).skip(1) =~= list.skip(k as int + 1));
            }
            k += 1;
        }
        proof {
            assert(list.skip(function.instructions@.len() as int).len() == 0);
        }
        Ok(())
    }

    fn visit_program(&mut self, program: &Program) -> (r: Result<(), SemanticError>)
        ensures
            match (r, spec_check_functions(functions_view(program.functions@), old(self).names())) {
                (Ok(_), Ok(declared)) => final(self).names() == declared,
                (Err(e), Err(em)) => e@ == em,
                _ => false,
            },
    {
        let ghost list = functions_view(program.functions@);
        let ghost names0 = self.names();
        proof {
            assert(list.skip(0) =~= list);
        }
        let mut k: usize = 0;
        while k < program.functions.len()
            invariant
                k <= program.functions@.len(),
                list == functions_view(program.functions@),
                names0 == old(self).names(),
                spec_check_functions(list, names0) == spec_check_functions(
                    list.skip(k as int),
                    self.names(),
                ),
            decreases program.functions@.len() - k,
        {
            proof {
                assert(list.skip(k as int)[0] == list[k as int]);
            }
            let ghost names_k = self.names();
            match self.visit_function(&program.functions[k]) {
                Ok(_) => {},
                Err(e) => {
                    proof {
                        assert(list[k as int] == program.functions@[k as int]@);
                        assert(spec_check_function(list[k as int], names_k) is Err);
                        assert(spec_check_functions(list.skip(k as int), names_k)
                            == spec_check_function(list[k as int], names_k));
                    }
                    return Err(e);
                },
            }
            proof {
                assert(list.skip(k as int)[0] == list[k as int]);
                assert(list.skip(k as int).skip(1) =~= list.skip(k as int + 1));
            }
            k += 1;
        }
        proof {
            assert(list.skip(program.functions@.len() as int).len() == 0);
        }
        Ok(())
    }
}

proof fn lemma_check_instructions_declares(list: Seq<InstructionModel>, names: Set<Seq<char>>)
    requires
        spec_check_instructions(list, names) is Ok,
    ensures
        ({
            let declared = spec_check_instructions(list, names)->Ok_0;
            &&& names.subset_of(declared)
            &&& forall|j: int|
                0 <= j < list.len() && list[j] is Assignment ==> declared.contains(
                    #[trigger] list[j]->Assignment_0.identifier,
                )
            &&& forall|j: int|
                0 <= j < list.len() && list[j] is Assignment ==> !is_keyword(
                    #[trigger] list[j]->Assignment_0.identifier,
                )
        }),
    decreases list.len(),
{
    if list.len() > 0 {
        let after_first = spec_check_instruction(list[0], names)->Ok_0;
        lemma_check_instructions_declares(list.skip(1), after_first);
        assert forall|j: int| 0 <= j < list.len() && list[j] is Assignment implies {
            &&& spec_check_instructions(list, names)->Ok_0.contains(
                list[j]->Assignment_0.identifier,
            )
            &&& !is_keyword(list[j]->Assignment_0.identifier)
        } by {
            if j > 0 {
                assert(list.skip(1)[j - 1] == list[j]);
            }
        }
    }
}

proof fn lemma_check_instructions_append(
    a: Seq<InstructionModel>,
    b: Seq<InstructionModel>,
    names: Set<Seq<char>>,
)
    ensures
        spec_check_instructions(a + b, names) == (match spec_check_instructions(a, names) {
            Ok(declared) => spec_check_instructions(b, declared),
            Err(e) => Err(e),
        }),
    decreases a.len(),
{
    if a.len() == 0 {
        assert(a + b =~= b);
    } else {
        assert((a + b)[0] == a[0]);
        match spec_check_instruction(a[0], names) {
            Err(_) => {
                assert((a + b).len() > 0);
            },
            Ok(declared) => {
                lemma_check_instructions_append(a.skip(1), b, declared);
                assert((a + b).skip(1) =~= a.skip(1) + b);
            },
        }
    }
}

/// Declaring the same identifier twice in one function fails the check with
/// a type error, even when each declaration is well-typed on its own: the
/// flat table only grows, so the name declared earlier is still present when
/// the later declaration is reached. The check before the later declaration
/// must have found no other fault first, and the later declaration's own
/// value must resolve, since an earlier fault would win under the
/// first-error rule.
pub proof fn lemma_duplicate_declaration(p: ProgramModel, j: int, k: int)
    requires
        p.functions.len() == 1,
        0 <= j < k < p.functions[0].instructions.len(),
        p.functions[0].instructions[j] is Assignment,
        p.functions[0].instructions[k] is Assignment,
        p.functions[0].instructions[j]->Assignment_0.identifier == p.functions[0].instructions[k]
            ->Assignment_0.identifier,
        spec_check_instructions(p.functions[0].instructions.take(k), Set::empty()) is Ok,
        spec_check_expr(
            p.functions[0].instructions[k]->Assignment_0.value,
            spec_check_instructions(p.functions[0].instructions.take(k), Set::empty())->Ok_0,
        ) is Ok,
    ensures
        spec_check(p) == Err::<(), SemanticErrorModel>(
            SemanticErrorModel::TypeError(
                duplicate_message(p.functions[0].instructions[k]->Assignment_0.identifier),
            ),
        ),
{
    let instrs = p.functions[0].instructions;
    let name = instrs[k]->Assignment_0.identifier;
    let prefix = instrs.take(k);
    let names_k = spec_check_instructions(prefix, Set::empty())->Ok_0;
    lemma_check_instructions_declares(prefix, Set::empty());
    assert(prefix[j] == instrs[j]);
    assert(names_k.contains(name));
    assert(!is_keyword(name));
    lemma_check_instructions_append(prefix, instrs.skip(k), Set::empty());
    assert(prefix + instrs.skip(k) =~= instrs);
    assert(instrs.skip(k)[0] == instrs[k]);
    assert(spec_check_instruction(instrs[k], names_k) == Err::<Set<Seq<char>>, SemanticErrorModel>(
        SemanticErrorModel::TypeError(duplicate_message(name)),
    ));
    assert(spec_check_instructions(instrs, Set::empty()) == Err::<
        Set<Seq<char>>,
        SemanticErrorModel,
    >(SemanticErrorModel::TypeError(duplicate_message(name))));
    assert(p.functions[0] == p.functions.skip(0)[0]);
}

/// Checks a parsed program against the static-semantic rules, with a fresh
/// symbol table; the tree is only read, never changed.
pub fn check(program: &Program) -> (r: Result<(), SemanticError>)
    ensures
        match (r, spec_check(program@)) {
            (Ok(_), Ok(_)) => true,
            (Err(e), Err(em)) => e@ == em,
            _ => false,
        },
{
    let mut checker = SemanticChecker::new();
    checker.visit_program(program)
}

} // verus!
