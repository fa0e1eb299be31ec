use vstd::prelude::*;

use crate::token::{spelled_right, Token, TokenModel, TokenType};

verus! {

/// Mathematical model of an expression tree.
pub enum ExprModel {
    Literal(TokenModel),
    Unary(TokenModel, Box<ExprModel>),
    Binary(Box<ExprModel>, TokenModel, Box<ExprModel>),
    Grouping(Box<ExprModel>),
}

pub open spec fn is_unary_operator(k: TokenType) -> bool {
    k == TokenType::BANG || k == TokenType::MINUS
}

pub open spec fn is_binary_operator(k: TokenType) -> bool {
    ||| k == TokenType::EQUAL_EQUAL
    ||| k == TokenType::BANG_EQUAL
    ||| k == TokenType::LESS
    ||| k == TokenType::LESS_EQUAL
    ||| k == TokenType::GREATER
    ||| k == TokenType::GREATER_EQUAL
    ||| k == TokenType::PLUS
    ||| k == TokenType::MINUS
    ||| k == TokenType::STAR
    ||| k == TokenType::SLASH
}

pub open spec fn is_literal_kind(k: TokenType) -> bool {
    ||| k == TokenType::NUMBER
    ||| k == TokenType::STRING
    ||| k == TokenType::TRUE
    ||| k == TokenType::FALSE
    ||| k == TokenType::NIL
}

/// The tree written with its structure made explicit: a literal as its lexeme, a
/// composite node as `(operator operands...)`, a grouping as `(group inner)`.
pub open spec fn render_model(e: ExprModel) -> Seq<char>
    decreases e,
{
    match e {
        ExprModel::Literal(t) => t.lexeme,
        ExprModel::Unary(op, inner) => "("@ + op.lexeme + " "@ + render_model(*inner) + ")"@,
        ExprModel::Binary(l, op, r) => "("@ + op.lexeme + " "@ + render_model(*l) + " "@
            + render_model(*r) + ")"@,
        ExprModel::Grouping(inner) => "(group "@ + render_model(*inner) + ")"@,
    }
}

/// A prefix operator (`-` or `!`) applied to an operand.
#[derive(Debug)]
pub struct Unary {
    operator: Token,
    expression: Box<Expression>,
}

impl Unary {
    pub fn new(operator: Token, expression: Expression) -> (r: Unary)
        requires
            is_unary_operator(operator.model().kind),
            spelled_right(operator.model()),
        ensures
            Expression::Unary(r).model() == ExprModel::Unary(operator.model(), Box::new(expression.model())),
    {
        Unary { operator, expression: Box::new(expression) }
    }
}

/// A binary operator applied to two operands.
#[derive(Debug)]
pub struct Binary {
    left: Box<Expression>,
    operator: Operator,
    right: Box<Expression>,
}

impl Binary {
    pub fn new(left: Expression, operator: Operator, right: Expression) -> (r: Binary)
        ensures
            Expression::Binary(r).model() == ExprModel::Binary(
                Box::new(left.model()),
                operator.token_model(),
                Box::new(right.model()),
            ),
    {
        Binary { left: Box::new(left), operator, right: Box::new(right) }
    }
}

/// A parenthesized sub-expression.
#[derive(Debug)]
pub struct Grouping {
    expression: Box<Expression>,
}

impl Grouping {
    pub fn new(expression: Expression) -> (r: Grouping)
        ensures
            Expression::Grouping(r).model() == ExprModel::Grouping(Box::new(expression.model())),
    {
        Grouping { expression: Box::new(expression) }
    }
}

/// The operator token of a binary expression: one of the ten binary operators.
#[derive(Debug)]
pub struct Operator {
    token: Token,
}

impl Operator {
    pub closed spec fn token_model(&self) -> TokenModel {
        self.token.model()
    }

    pub closed spec fn wf(&self) -> bool {
        is_binary_operator(self.token.model().kind) && spelled_right(self.token.model())
    }

    pub fn new(operator: Token) -> (r: Operator)
        requires
            is_binary_operator(operator.model().kind),
            spelled_right(operator.model()),
        ensures
            r.wf(),
            r.token_model() == operator.model(),
    {
        Operator { token: operator }
    }
}

/// A literal value: a number, a string, `true`, `false` or `nil`.
#[derive(Debug)]
pub struct LiteralExp {
    literal_expression: Token,
}

impl LiteralExp {
    pub fn new(token: Token) -> (r: LiteralExp)
        requires
            is_literal_kind(token.model().kind),
        ensures
            Expression::LiteralExp(r).model() == ExprModel::Literal(token.model()),
    {
        LiteralExp { literal_expression: token }
    }
}

/// An expression tree; each node owns its children.
#[derive(Debug)]
pub enum Expression {
    LiteralExp(LiteralExp),
    Unary(Unary),
    Binary(Binary),
    Grouping(Grouping),
}

impl Expression {
    pub closed spec fn model(&self) -> ExprModel
        decreases self,
    {
        match self {
            Expression::LiteralExp(l) => ExprModel::Literal(l.literal_expression.model()),
            Expression::Unary(u) => ExprModel::Unary(u.operator.model(), Box::new(u.expression.model())),
            Expression::Binary(b) => ExprModel::Binary(
                Box::new(b.left.model()),
                b.operator.token.model(),
                Box::new(b.right.model()),
            ),
            Expression::Grouping(g) => ExprModel::Grouping(Box::new(g.expression.model())),
        }
    }

    /// The tree written out as `render_model` describes.
    pub fn render(&self) -> (r: String)
        ensures
            r@ == render_model(self.model()),
        decreases self,
    {
        match self {
            Expression::LiteralExp(l) => l.literal_expression.lexeme(),
            Expression::Unary(u) => {
                let mut out = String::new();
                out.append("(");
                out.append(u.operator.lexeme().as_str());
                out.append(" ");
                out.append(u.expression.render().as_str());
                out.append(")");
                out
            },
            Expression::Binary(b) => {
                let mut out = String::new();
                out.append("(");
                out.append(b.operator.token.lexeme().as_str());
                out.append(" ");
                out.append(b.left.render().as_str());
                out.append(" ");
                out.append(b.right.render().as_str());
                out.append(")");
                out
            },
            Expression::Grouping(g) => {
                let mut out = String::new();
                out.append("(group ");
                out.append(g.expression.render().as_str());
                out.append(")");
                out
            },
        }
    }
}

} // verus!
