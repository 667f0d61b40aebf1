//! Syntax trees and operator tables.

use vstd::prelude::*;
use crate::number::Number;

verus! {

/// Binary operators of the language.
#[derive(Debug, PartialEq, Eq, Clone, Copy, Structural)]
pub enum BinaryOperator {
    Add,
    Subtract,
    Multiply,
    Divide,
    Equal,
    NotEqual,
    Greater,
    Less,
    GreaterEqual,
    LessEqual,
    And,
    Or,
    Assign,
}

/// Prefix operators of the language.
#[derive(Debug, PartialEq, Eq, Clone, Copy, Structural)]
pub enum UnaryOperator {
    Minus,
    Not,
}

impl BinaryOperator {
    /// Binding strength of the operator; a higher number binds tighter.
    pub open spec fn spec_precedence(&self) -> u8 {
        match self {
            BinaryOperator::Assign => 1,
            BinaryOperator::Or => 2,
            BinaryOperator::And => 3,
            BinaryOperator::Equal | BinaryOperator::NotEqual => 4,
            BinaryOperator::Less | BinaryOperator::LessEqual | BinaryOperator::Greater
            | BinaryOperator::GreaterEqual => 5,
            BinaryOperator::Add | BinaryOperator::Subtract => 6,
            BinaryOperator::Multiply | BinaryOperator::Divide => 7,
        }
    }

    #[verifier::when_used_as_spec(spec_precedence)]
    pub fn precedence(&self) -> (p: u8)
        ensures
            p == self.spec_precedence(),
            1 <= p <= 7,
    {
        match self {
            BinaryOperator::Assign => 1,
            BinaryOperator::Or => 2,
            BinaryOperator::And => 3,
            BinaryOperator::Equal | BinaryOperator::NotEqual => 4,
            BinaryOperator::Less | BinaryOperator::LessEqual | BinaryOperator::Greater
            | BinaryOperator::GreaterEqual => 5,
            BinaryOperator::Add | BinaryOperator::Subtract => 6,
            BinaryOperator::Multiply | BinaryOperator::Divide => 7,
        }
    }
}

/// An expression tree. Each node owns its children.
#[allow(inconsistent_fields)]
#[derive(Debug, PartialEq)]
pub enum Expression {
    Number(Number),
    String(String),
    Boolean(bool),
    Identifier(String),
    Binary { left: Box<Expression>, operator: BinaryOperator, right: Box<Expression> },
    Unary { operator: UnaryOperator, operand: Box<Expression> },
    Call { callee: Box<Expression>, arguments: Vec<Expression> },
}

/// A statement tree. Each node owns its children.
#[allow(inconsistent_fields)]
#[derive(Debug, PartialEq)]
pub enum Statement {
    VarDeclaration { name: String, initializer: Option<Expression> },
    FunctionDeclaration { name: String, params: Vec<String>, body: Vec<Statement> },
    If { condition: Expression, then_branch: Box<Statement>, else_branch: Option<Box<Statement>> },
    While { condition: Expression, body: Box<Statement> },
    For {
        initializer: Option<Box<Statement>>,
        condition: Option<Expression>,
        increment: Option<Expression>,
        body: Box<Statement>,
    },
    Switch {
        condition: Expression,
        cases: Vec<(Expression, Vec<Statement>)>,
        default: Option<Vec<Statement>>,
    },
    Block(Vec<Statement>),
    Expression(Expression),
    Return(Option<Expression>),
}

/// The mathematical value of an expression tree.
#[allow(inconsistent_fields)]
pub enum ExprModel {
    Number(Number),
    String(Seq<char>),
    Boolean(bool),
    Identifier(Seq<char>),
    Binary { left: Box<ExprModel>, operator: BinaryOperator, right: Box<ExprModel> },
    Unary { operator: UnaryOperator, operand: Box<ExprModel> },
    Call { callee: Box<ExprModel>, arguments: Seq<ExprModel> },
}

/// The mathematical value of a statement tree.
#[allow(inconsistent_fields)]
pub enum StmtModel {
    VarDeclaration { name: Seq<char>, initializer: Option<ExprModel> },
    FunctionDeclaration { name: Seq<char>, params: Seq<Seq<char>>, body: Seq<StmtModel> },
    If { condition: ExprModel, then_branch: Box<StmtModel>, else_branch: Option<Box<StmtModel>> },
    While { condition: ExprModel, body: Box<StmtModel> },
    For {
        initializer: Option<Box<StmtModel>>,
        condition: Option<ExprModel>,
        increment: Option<ExprModel>,
        body: Box<StmtModel>,
    },
    Switch {
        condition: ExprModel,
        cases: Seq<(ExprModel, Seq<StmtModel>)>,
        default: Option<Seq<StmtModel>>,
    },
    Block(Seq<StmtModel>),
    Expression(ExprModel),
    Return(Option<ExprModel>),
}

/// The values of a list of names.
pub open spec fn names_model(names: Seq<String>) -> Seq<Seq<char>> {
    Seq::new(names.len(), |i: int| names[i]@)
}

/// The value of an expression tree.
pub open spec fn expr_model(e: Expression) -> ExprModel
    decreases e,
{
    match e {
        Expression::Number(n) => ExprModel::Number(n),
        Expression::String(s) => ExprModel::String(s@),
        Expression::Boolean(b) => ExprModel::Boolean(b),
        Expression::Identifier(name) => ExprModel::Identifier(name@),
        Expression::Binary { left, operator, right } => ExprModel::Binary {
            left: Box::new(expr_model(*left)),
            operator,
            right: Box::new(expr_model(*right)),
        },
        Expression::Unary { operator, operand } => ExprModel::Unary {
            operator,
            operand: Box::new(expr_model(*operand)),
        },
        Expression::Call { callee, arguments } => ExprModel::Call {
            callee: Box::new(expr_model(*callee)),
            arguments: Seq::new(
                arguments.len() as nat,
                |i: int|
                    if 0 <= i < arguments.len() {
                        expr_model(arguments[i])
                    } else {
                        ExprModel::Boolean(false)
                    },
            ),
        },
    }
}

/// The values of a list of expressions.
pub open spec fn exprs_model(list: Seq<Expression>) -> Seq<ExprModel> {
    Seq::new(list.len(), |i: int| expr_model(list[i]))
}

/// The value of an optional expression.
pub open spec fn opt_expr_model(e: Option<Expression>) -> Option<ExprModel> {
    match e {
        Some(e) => Some(expr_model(e)),
        None => None,
    }
}

/// The value of a statement tree.
pub open spec fn stmt_model(s: Statement) -> StmtModel
    decreases s,
{
    match s {
        Statement::VarDeclaration { name, initializer } => StmtModel::VarDeclaration {
            name: name@,
            initializer: opt_expr_model(initializer),
        },
        Statement::FunctionDeclaration { name, params, body } => StmtModel::FunctionDeclaration {
            name: name@,
            params: names_model(params@),
            body: Seq::new(
                body.len() as nat,
                |i: int|
                    if 0 <= i < body.len() {
                        stmt_model(body[i])
                    } else {
                        StmtModel::Return(None)
                    },
            ),
        },
        Statement::If { condition, then_branch, else_branch } => StmtModel::If {
            condition: expr_model(condition),
            then_branch: Box::new(stmt_model(*then_branch)),
            else_branch: match else_branch {
                Some(b) => Some(Box::new(stmt_model(*b))),
                None => None,
            },
        },
        Statement::While { condition, body } => StmtModel::While {
            condition: expr_model(condition),
            body: Box::new(stmt_model(*body)),
        },
        Statement::For { initializer, condition, increment, body } => StmtModel::For {
            initializer: match initializer {
                Some(b) => Some(Box::new(stmt_model(*b))),
                None => None,
            },
            condition: opt_expr_model(condition),
            increment: opt_expr_model(increment),
            body: Box::new(stmt_model(*body)),
        },
        Statement::Switch { condition, cases, default } => StmtModel::Switch {
            condition: expr_model(condition),
            cases: Seq::new(
                cases.len() as nat,
                |i: int|
                    if 0 <= i < cases.len() {
                        (
                            expr_model(cases[i].0),
                            Seq::new(
                                cases[i].1.len() as nat,
                                |j: int|
                                    if 0 <= j < cases[i].1.len() {
                                        stmt_model(cases[i].1[j])
                                    } else {
                                        StmtModel::Return(None)
                                    },
                            ),
                        )
                    } else {
                        (ExprModel::Boolean(false), Seq::empty())
                    },
            ),
            default: match default {
                Some(list) => Some(
                    Seq::new(
                        list.len() as nat,
                        |i: int|
                            if 0 <= i < list.len() {
                                stmt_model(list[i])
                            } else {
                                StmtModel::Return(None)
                            },
                    ),
                ),
                None => None,
            },
        },
        Statement::Block(list) => StmtModel::Block(
            Seq::new(
                list.len() as nat,
                |i: int|
                    if 0 <= i < list.len() {
                        stmt_model(list[i])
                    } else {
                        StmtModel::Return(None)
                    },
            ),
        ),
        Statement::Expression(e) => StmtModel::Expression(expr_model(e)),
        Statement::Return(e) => StmtModel::Return(opt_expr_model(e)),
    }
}

/// The values of a list of statements.
pub open spec fn stmts_model(list: Seq<Statement>) -> Seq<StmtModel> {
    Seq::new(list.len(), |i: int| stmt_model(list[i]))
}

/// The values of the cases of a `switch`.
pub open spec fn cases_model(cases: Seq<(Expression, Vec<Statement>)>) -> Seq<
    (ExprModel, Seq<StmtModel>),
> {
    Seq::new(cases.len(), |i: int| (expr_model(cases[i].0), stmts_model(cases[i].1@)))
}

/// The value of an optional list of statements.
pub open spec fn opt_stmts_model(list: Option<Vec<Statement>>) -> Option<Seq<StmtModel>> {
    match list {
        Some(list) => Some(stmts_model(list@)),
        None => None,
    }
}

/// The value of an optional statement.
pub open spec fn opt_stmt_model(s: Option<Statement>) -> Option<StmtModel> {
    match s {
        Some(s) => Some(stmt_model(s)),
        None => None,
    }
}

/// The value of a tree is built from the values of its children.
pub proof fn lemma_stmt_model(s: Statement)
    ensures
        s matches Statement::Block(list) ==> stmt_model(s) == StmtModel::Block(
            stmts_model(list@),
        ),
        s matches Statement::FunctionDeclaration { name, params, body } ==> stmt_model(s)
            == (StmtModel::FunctionDeclaration {
            name: name@,
            params: names_model(params@),
            body: stmts_model(body@),
        }),
        s matches Statement::Switch { condition, cases, default } ==> stmt_model(s)
            == (StmtModel::Switch {
            condition: expr_model(condition),
            cases: cases_model(cases@),
            default: opt_stmts_model(default),
        }),
{
    match s {
        Statement::Block(list) => {
            assert(stmt_model(s)->Block_0 =~= stmts_model(list@));
        },
        Statement::FunctionDeclaration { name, params, body } => {
            assert(stmt_model(s)->FunctionDeclaration_body =~= stmts_model(body@));
        },
        Statement::Switch { condition, cases, default } => {
            assert(stmt_model(s)->Switch_cases =~= cases_model(cases@)) by {
                assert forall|i: int| 0 <= i < cases.len() implies (#[trigger] stmt_model(
                    s,
                )->Switch_cases[i]).1 =~= stmts_model(cases[i].1@) by {}
            }
            match default {
                Some(list) => {
                    assert(stmt_model(s)->Switch_default->0 =~= stmts_model(list@));
                },
                None => {},
            }
        },
        _ => {},
    }
}

/// The value of a call is built from the values of its parts.
pub proof fn lemma_call_model(e: Expression)
    ensures
        e matches Expression::Call { callee, arguments } ==> expr_model(e) == (ExprModel::Call {
            callee: Box::new(expr_model(*callee)),
            arguments: exprs_model(arguments@),
        }),
{
    match e {
        Expression::Call { callee, arguments } => {
            assert(expr_model(e)->arguments =~= exprs_model(arguments@));
        },
        _ => {},
    }
}

/// A copy of a list of names.
pub fn clone_names(names: &Vec<String>) -> (r: Vec<String>)
    ensures
        names_model(r@) == names_model(names@),
{
    let mut r: Vec<String> = Vec::new();
    let mut i: usize = 0;
    while i < names.len()
        invariant
            i <= names.len(),
            r.len() == i,
            forall|j: int| 0 <= j < i ==> r[j]@ == names[j]@,
        decreases names.len() - i,
    {
        r.push(names[i].clone());
        i += 1;
    }
    assert(names_model(r@) =~= names_model(names@));
    r
}

/// A copy of an expression tree.
#[verifier::loop_isolation(false)]
pub fn clone_expr(e: &Expression) -> (r: Expression)
    ensures
        r@ == e@,
    decreases e,
{
    match e {
        Expression::Number(n) => Expression::Number(*n),
        Expression::String(s) => Expression::String(s.clone()),
        Expression::Boolean(b) => Expression::Boolean(*b),
        Expression::Identifier(name) => Expression::Identifier(name.clone()),
        Expression::Binary { left, operator, right } => Expression::Binary {
            left: Box::new(clone_expr(left)),
            operator: *operator,
            right: Box::new(clone_expr(right)),
        },
        Expression::Unary { operator, operand } => Expression::Unary {
            operator: *operator,
            operand: Box::new(clone_expr(operand)),
        },
        Expression::Call { callee, arguments } => {
            let mut list: Vec<Expression> = Vec::new();
            let mut i: usize = 0;
            while i < arguments.len()
                invariant
                    i <= arguments.len(),
                    list.len() == i,
                    forall|j: int| 0 <= j < i ==> list[j]@ == arguments[j]@,
                decreases arguments.len() - i,
            {
                list.push(clone_expr(&arguments[i]));
                i += 1;
            }
            let r = Expression::Call { callee: Box::new(clone_expr(callee)), arguments: list };
            assert(r@->arguments =~= e@->arguments);
            r
        },
    }
}

/// A copy of a list of statements.
#[verifier::loop_isolation(false)]
pub fn clone_stmts(list: &Vec<Statement>) -> (r: Vec<Statement>)
    ensures
        stmts_model(r@) == stmts_model(list@),
    decreases list,
{
    let mut r: Vec<Statement> = Vec::new();
    let mut i: usize = 0;
    while i < list.len()
        invariant
            i <= list.len(),
            r.len() == i,
            forall|j: int| 0 <= j < i ==> r[j]@ == list[j]@,
        decreases list.len() - i,
    {
        r.push(clone_stmt(&list[i]));
        i += 1;
    }
    assert(stmts_model(r@) =~= stmts_model(list@));
    r
}

/// A copy of an optional expression.
pub fn clone_opt_expr(e: &Option<Expression>) -> (r: Option<Expression>)
    ensures
        opt_expr_model(r) == opt_expr_model(*e),
{
    match e {
        Some(e) => Some(clone_expr(e)),
        None => None,
    }
}

/// A copy of a statement tree.
#[verifier::loop_isolation(false)]
pub fn clone_stmt(s: &Statement) -> (r: Statement)
    ensures
        r@ == s@,
    decreases s,
{
    proof {
        lemma_stmt_model(*s);
    }
    match s {
        Statement::VarDeclaration { name, initializer } => Statement::VarDeclaration {
            name: name.clone(),
            initializer: clone_opt_expr(initializer),
        },
        Statement::FunctionDeclaration { name, params, body } => {
            let r = Statement::FunctionDeclaration {
                name: name.clone(),
                params: clone_names(params),
                body: clone_stmts(body),
            };
            proof {
                lemma_stmt_model(r);
            }
            r
        },
        Statement::If { condition, then_branch, else_branch } => Statement::If {
            condition: clone_expr(condition),
            then_branch: Box::new(clone_stmt(then_branch)),
            else_branch: match else_branch {
                Some(b) => Some(Box::new(clone_stmt(b))),
                None => None,
            },
        },
        Statement::While { condition, body } => Statement::While {
            condition: clone_expr(condition),
            body: Box::new(clone_stmt(body)),
        },
        Statement::For { initializer, condition, increment, body } => Statement::For {
            initializer: match initializer {
                Some(b) => Some(Box::new(clone_stmt(b))),
                None => None,
            },
            condition: clone_opt_expr(condition),
            increment: clone_opt_expr(increment),
            body: Box::new(clone_stmt(body)),
        },
        Statement::Switch { condition, cases, default } => {
            let mut list: Vec<(Expression, Vec<Statement>)> = Vec::new();
            let mut i: usize = 0;
            while i < cases.len()
                invariant
                    i <= cases.len(),
                    list.len() == i,
                    forall|j: int|
                        0 <= j < i ==> list[j].0@ == cases[j].0@ && stmts_model(list[j].1@)
                            == stmts_model(cases[j].1@),
                decreases cases.len() - i,
            {
                list.push((clone_expr(&cases[i].0), clone_stmts(&cases[i].1)));
                i += 1;
            }
            assert(cases_model(list@) =~= cases_model(cases@));
            let r = Statement::Switch {
                condition: clone_expr(condition),
                cases: list,
                default: match default {
                    Some(d) => Some(clone_stmts(d)),
                    None => None,
                },
            };
            proof {
                lemma_stmt_model(r);
            }
            r
        },
        Statement::Block(list) => {
            let r = Statement::Block(clone_stmts(list));
            proof {
                lemma_stmt_model(r);
            }
            r
        },
        Statement::Expression(e) => Statement::Expression(clone_expr(e)),
        Statement::Return(e) => Statement::Return(clone_opt_expr(e)),
    }
}

impl Expression {
    /// A numeric literal.
    pub fn number(value: Number) -> (e: Expression)
        ensures
            e == Expression::Number(value),
    {
        Expression::Number(value)
    }

    /// A string literal.
    pub fn string(value: String) -> (e: Expression)
        ensures
            e == Expression::String(value),
    {
        Expression::String(value)
    }

    /// A truth value.
    pub fn boolean(value: bool) -> (e: Expression)
        ensures
            e == Expression::Boolean(value),
    {
        Expression::Boolean(value)
    }

    /// A reference to the binding of `name`.
    pub fn identifier(name: String) -> (e: Expression)
        ensures
            e == Expression::Identifier(name),
    {
        Expression::Identifier(name)
    }

    /// `operator` applied to `left` and `right`.
    pub fn binary(left: Expression, operator: BinaryOperator, right: Expression) -> (e:
        Expression)
        ensures
            e == (Expression::Binary { left: Box::new(left), operator, right: Box::new(right) }),
            e@ == (ExprModel::Binary {
                left: Box::new(left@),
                operator,
                right: Box::new(right@),
            }),
    {
        Expression::Binary { left: Box::new(left), operator, right: Box::new(right) }
    }

    /// `operator` applied to `operand`.
    pub fn unary(operator: UnaryOperator, operand: Expression) -> (e: Expression)
        ensures
            e == (Expression::Unary { operator, operand: Box::new(operand) }),
            e@ == (ExprModel::Unary { operator, operand: Box::new(operand@) }),
    {
        Expression::Unary { operator, operand: Box::new(operand) }
    }

    /// A call of `callee` with `arguments`.
    pub fn call(callee: Expression, arguments: Vec<Expression>) -> (e: Expression)
        ensures
            e == (Expression::Call { callee: Box::new(callee), arguments }),
            e@ == (ExprModel::Call {
                callee: Box::new(callee@),
                arguments: exprs_model(arguments@),
            }),
    {
        let e = Expression::Call { callee: Box::new(callee), arguments };
        proof {
            lemma_call_model(e);
        }
        e
    }
}

impl Clone for Expression {
    fn clone(&self) -> (r: Self)
        ensures
            r@ == self@,
    {
        clone_expr(self)
    }
}

impl Clone for Statement {
    fn clone(&self) -> (r: Self)
        ensures
            r@ == self@,
    {
        clone_stmt(self)
    }
}

impl View for Expression {
    type V = ExprModel;

    open spec fn view(&self) -> ExprModel {
        expr_model(*self)
    }
}

impl View for Statement {
    type V = StmtModel;

    open spec fn view(&self) -> StmtModel {
        stmt_model(*self)
    }
}

} // verus!
