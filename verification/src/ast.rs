//! Abstract syntax tree node types: a program is an ordered sequence of
//! expression statements; an expression is a number literal or a binary
//! expression that exclusively owns its two children.

use vstd::prelude::*;
use crate::lexer::{Token, TokenModel};

verus! {

/// The parsed program: its statements in program order.
#[derive(Debug)]
pub struct Ast {
    pub statements: Vec<AstStatement>,
}

#[derive(Debug)]
pub struct AstStatement {
    pub kind: AstStatementKind,
}

#[derive(Debug)]
pub enum AstStatementKind {
    Expression(AstExpression),
}

#[derive(Debug)]
pub struct AstExpression {
    pub kind: AstExpressionKind,
}

#[derive(Debug)]
pub enum AstExpressionKind {
    Number(isize),
    Binary(AstBinaryExpression),
}

/// A binary expression owns its operands exclusively: the tree is strict,
/// with no sharing and no cycles.
#[derive(Debug)]
pub struct AstBinaryExpression {
    pub left: Box<AstExpression>,
    pub right: Box<AstExpression>,
    pub operator: AstBinaryOperator,
}

/// A binary operator together with the source token that produced it.
#[derive(Debug)]
pub struct AstBinaryOperator {
    pub kind: AstBinaryOperatorKind,
    pub token: Token,
}

#[derive(Clone, Copy, Debug, PartialEq, Eq, Structural)]
pub enum AstBinaryOperatorKind {
    Plus,
    Minus,
    Multiply,
    Divide,
}

/// Mathematical model of a binary operator.
pub struct OperatorModel {
    pub kind: AstBinaryOperatorKind,
    pub token: TokenModel,
}

/// Mathematical model of an expression tree.
pub enum ExprModel {
    Number(int),
    Binary(Box<ExprModel>, Box<ExprModel>, OperatorModel),
}

/// Mathematical model of a statement.
pub enum StmtModel {
    Expression(ExprModel),
}

impl View for AstBinaryOperator {
    type V = OperatorModel;

    open spec fn view(&self) -> OperatorModel {
        OperatorModel { kind: self.kind, token: self.token@ }
    }
}

impl View for AstExpression {
    type V = ExprModel;

    open spec fn view(&self) -> ExprModel
        decreases self,
    {
        match self.kind {
            AstExpressionKind::Number(value) => ExprModel::Number(value as int),
            AstExpressionKind::Binary(binary) => ExprModel::Binary(
                Box::new((*binary.left)@),
                Box::new((*binary.right)@),
                binary.operator@,
            ),
        }
    }
}

impl View for AstStatement {
    type V = StmtModel;

    open spec fn view(&self) -> StmtModel {
        match self.kind {
            AstStatementKind::Expression(expression) => StmtModel::Expression(expression@),
        }
    }
}

impl View for Ast {
    type V = Seq<StmtModel>;

    open spec fn view(&self) -> Seq<StmtModel> {
        self.statements@.map_values(|statement: AstStatement| statement@)
    }
}

/// The numeric binding power of an operator: additive operators bind at one,
/// multiplicative operators at two.
pub open spec fn operator_precedence(kind: AstBinaryOperatorKind) -> int {
    match kind {
        AstBinaryOperatorKind::Plus => 1,
        AstBinaryOperatorKind::Minus => 1,
        AstBinaryOperatorKind::Multiply => 2,
        AstBinaryOperatorKind::Divide => 2,
    }
}

impl Ast {
    pub fn new(statements: Vec<AstStatement>) -> (ast: Self)
        ensures
            ast.statements == statements,
            ast@ == statements@.map_values(|statement: AstStatement| statement@),
    {
        Self { statements }
    }
}

impl AstStatement {
    pub fn from_expression(expression: AstExpression) -> (statement: Self)
        ensures
            statement.kind == AstStatementKind::Expression(expression),
            statement@ == StmtModel::Expression(expression@),
    {
        Self { kind: AstStatementKind::Expression(expression) }
    }
}

impl AstExpression {
    pub fn from_number(value: isize) -> (expression: Self)
        ensures
            expression.kind == AstExpressionKind::Number(value),
            expression@ == ExprModel::Number(value as int),
    {
        Self { kind: AstExpressionKind::Number(value) }
    }

    pub fn from_binary_expression(
        left: AstExpression,
        right: AstExpression,
        operator: AstBinaryOperator,
    ) -> (expression: Self)
        ensures
            expression@ == ExprModel::Binary(Box::new(left@), Box::new(right@), operator@),
    {
        let binary_expression = AstBinaryExpression {
            left: Box::new(left),
            right: Box::new(right),
            operator,
        };
        Self { kind: AstExpressionKind::Binary(binary_expression) }
    }
}

impl AstBinaryOperator {
    pub fn new(kind: AstBinaryOperatorKind, token: Token) -> (operator: Self)
        ensures
            operator.kind == kind,
            operator.token == token,
            operator@ == (OperatorModel { kind, token: token@ }),
    {
        Self { kind, token }
    }

    /// The binding power used during precedence climbing.
    pub fn get_precedence(&self) -> (precedence: u8)
        ensures
            precedence as int == operator_precedence(self.kind),
    {
        match self.kind {
            AstBinaryOperatorKind::Plus => 1,
            AstBinaryOperatorKind::Minus => 1,
            AstBinaryOperatorKind::Multiply => 2,
            AstBinaryOperatorKind::Divide => 2,
        }
    }
}

} // verus!
