use vstd::prelude::*;

use crate::error::{Error, ErrorModel};
use crate::expression::{
    is_literal_kind, Binary, ExprModel, Expression, Grouping, LiteralExp, Operator, Unary,
};
use crate::scanner::token_models;
use crate::token::{well_spelled, Token, TokenModel, TokenType};

verus! {

/// Where a parsing rule stopped, and what it produced.
pub struct Parsed {
    pub result: Result<ExprModel, ErrorModel>,
    pub pos: int,
}

pub open spec fn missing_paren() -> Seq<char> {
    "Expect ')' after expression."@
}

pub open spec fn no_primary() -> Seq<char> {
    "No primary expression matched."@
}

/// A token stream as the scanner produces it: non-empty and closed by an end-of-file token.
pub open spec fn closed_stream(t: Seq<TokenModel>) -> bool {
    t.len() > 0 && t.last().kind == TokenType::EOF
}

/// Whether an end-of-file token stands at `pos` or after it: the parser never reads
/// past such a token.
pub open spec fn eof_ahead(t: Seq<TokenModel>, pos: int) -> bool {
    exists|j: int| pos <= j < t.len() && #[trigger] t[j].kind == TokenType::EOF
}

pub open spec fn in_stream(t: Seq<TokenModel>, pos: int) -> bool {
    0 <= pos < t.len()
}

pub open spec fn at_end(t: Seq<TokenModel>, pos: int) -> bool {
    t[pos].kind == TokenType::EOF
}

/// Whether the token at `pos` is of kind `k` (never true of the end-of-file token).
pub open spec fn check(t: Seq<TokenModel>, pos: int, k: TokenType) -> bool {
    in_stream(t, pos) && !at_end(t, pos) && t[pos].kind == k
}

pub open spec fn is_equality_op(k: TokenType) -> bool {
    k == TokenType::EQUAL_EQUAL || k == TokenType::BANG_EQUAL
}

pub open spec fn is_comparison_op(k: TokenType) -> bool {
    k == TokenType::GREATER || k == TokenType::GREATER_EQUAL || k == TokenType::LESS || k
        == TokenType::LESS_EQUAL
}

pub open spec fn is_term_op(k: TokenType) -> bool {
    k == TokenType::MINUS || k == TokenType::PLUS
}

pub open spec fn is_factor_op(k: TokenType) -> bool {
    k == TokenType::SLASH || k == TokenType::STAR
}

/// Whether the token at `pos` is one of the operators of a binary layer.
pub open spec fn matches_op(t: Seq<TokenModel>, pos: int, layer: nat) -> bool {
    in_stream(t, pos) && !at_end(t, pos) && {
        let k = t[pos].kind;
        if layer == 3 {
            is_equality_op(k)
        } else if layer == 2 {
            is_comparison_op(k)
        } else if layer == 1 {
            is_term_op(k)
        } else {
            is_factor_op(k)
        }
    }
}

pub open spec fn binary(left: ExprModel, op: TokenModel, right: ExprModel) -> ExprModel {
    ExprModel::Binary(Box::new(left), op, Box::new(right))
}

/// The value of a rule where a sub-rule would have moved backwards. Positions
/// only move forward, so no parse reaches it: it keeps the definitions total.
pub open spec fn stuck(pos: int) -> Parsed {
    Parsed { result: Err(ErrorModel { line: 0, message: no_primary() }), pos }
}

/// The binary layers of the grammar, by number: 3 equality, 2 comparison, 1 term,
/// 0 factor; each parses operands of the layer below (`unary` below layer 0).
pub open spec fn operand(t: Seq<TokenModel>, pos: int, layer: nat) -> Parsed
    decreases t.len() - pos, 4 * layer + 2,
{
    if layer == 0 {
        unary(t, pos)
    } else {
        binary_layer(t, pos, (layer - 1) as nat)
    }
}

/// One binary layer at `pos`: an operand, then operators and operands folded to the left.
pub open spec fn binary_layer(t: Seq<TokenModel>, pos: int, layer: nat) -> Parsed
    decreases t.len() - pos, 4 * layer + 4,
{
    let first = operand(t, pos, layer);
    match first.result {
        Ok(e) => if pos <= first.pos < t.len() {
            fold_layer(t, first.pos, layer, e)
        } else {
            stuck(pos)
        },
        Err(_) => first,
    }
}

/// The loop of a binary layer at `pos`, with `left` parsed so far.
pub open spec fn fold_layer(t: Seq<TokenModel>, pos: int, layer: nat, left: ExprModel) -> Parsed
    decreases t.len() - pos, 4 * layer + 3,
{
    if pos < 0 || pos >= t.len() {
        stuck(pos)
    } else if matches_op(t, pos, layer) {
        let right = operand(t, pos + 1, layer);
        match right.result {
            Ok(r) => if pos < right.pos < t.len() {
                fold_layer(t, right.pos, layer, binary(left, t[pos], r))
            } else {
                stuck(pos)
            },
            Err(_) => right,
        }
    } else {
        Parsed { result: Ok(left), pos }
    }
}

/// `unary → ("!" | "-") unary | primary`
pub open spec fn unary(t: Seq<TokenModel>, pos: int) -> Parsed
    decreases t.len() - pos, 1nat,
{
    if pos < 0 || pos >= t.len() {
        stuck(pos)
    } else if check(t, pos, TokenType::BANG) || check(t, pos, TokenType::MINUS) {
        let operand = unary(t, pos + 1);
        match operand.result {
            Ok(e) => Parsed { result: Ok(ExprModel::Unary(t[pos], Box::new(e))), pos: operand.pos },
            Err(_) => operand,
        }
    } else {
        primary(t, pos)
    }
}

/// `primary → NUMBER | STRING | "true" | "false" | "nil" | "(" expression ")"`
pub open spec fn primary(t: Seq<TokenModel>, pos: int) -> Parsed
    decreases t.len() - pos, 0nat,
{
    if pos < 0 || pos >= t.len() {
        stuck(pos)
    } else if !at_end(t, pos) && is_literal_kind(t[pos].kind) {
        Parsed { result: Ok(ExprModel::Literal(t[pos])), pos: pos + 1 }
    } else if check(t, pos, TokenType::LEFT_PAREN) {
        let inner = expression(t, pos + 1);
        match inner.result {
            Ok(e) => if check(t, inner.pos, TokenType::RIGHT_PAREN) {
                Parsed { result: Ok(ExprModel::Grouping(Box::new(e))), pos: inner.pos + 1 }
            } else {
                Parsed {
                    result: Err(ErrorModel { line: t[inner.pos].line, message: missing_paren() }),
                    pos: inner.pos,
                }
            },
            Err(_) => inner,
        }
    } else {
        Parsed { result: Err(ErrorModel { line: t[pos].line, message: no_primary() }), pos }
    }
}

/// `expression → equality`
pub open spec fn expression(t: Seq<TokenModel>, pos: int) -> Parsed
    decreases t.len() - pos, 20nat,
{
    binary_layer(t, pos, 3)
}

pub open spec fn is_statement_start(k: TokenType) -> bool {
    ||| k == TokenType::CLASS
    ||| k == TokenType::FUN
    ||| k == TokenType::VAR
    ||| k == TokenType::FOR
    ||| k == TokenType::IF
    ||| k == TokenType::WHILE
    ||| k == TokenType::PRINT
    ||| k == TokenType::RETURN
}

/// Where recovery stops, looking from `pos` on: at the end of the stream, after
/// a `;`, or before a token that starts a statement.
pub open spec fn sync_from(t: Seq<TokenModel>, pos: int) -> int
    decreases t.len() - pos,
{
    if pos < 0 || pos >= t.len() || at_end(t, pos) {
        pos
    } else if pos > 0 && t[pos - 1].kind == TokenType::SEMICOLON {
        pos
    } else if is_statement_start(t[pos].kind) {
        pos
    } else {
        sync_from(t, pos + 1)
    }
}

/// Recovery from `pos`: the token there is dropped, then tokens up to a boundary.
pub open spec fn synchronized(t: Seq<TokenModel>, pos: int) -> int {
    if in_stream(t, pos) && !at_end(t, pos) {
        sync_from(t, pos + 1)
    } else {
        pos
    }
}

pub open spec fn result_model(r: Result<Expression, Error>) -> Result<ExprModel, ErrorModel> {
    match r {
        Ok(e) => Ok(e.model()),
        Err(e) => Err(e.model()),
    }
}

/// A recursive-descent parser over a token stream.
pub struct Parser {
    tokens: Vec<Token>,
    current: usize,
}

impl Parser {
    /// The token stream.
    pub closed spec fn stream(&self) -> Seq<TokenModel> {
        token_models(self.tokens@)
    }

    /// The index of the next token to read.
    pub closed spec fn position(&self) -> int {
        self.current as int
    }

    pub closed spec fn wf(&self) -> bool {
        &&& eof_ahead(self.stream(), self.current as int)
        &&& well_spelled(self.stream())
        &&& self.current < self.tokens.len()
    }

    pub fn new(tokens: Vec<Token>) -> (r: Parser)
        requires
            eof_ahead(token_models(tokens@), 0),
            well_spelled(token_models(tokens@)),
        ensures
            r.wf(),
            r.stream() == token_models(tokens@),
            r.position() == 0,
    {
        Parser { tokens, current: 0 }
    }

    fn is_at_end(&self) -> (r: bool)
        requires
            self.wf(),
        ensures
            r == at_end(self.stream(), self.current as int),
    {
        self.tokens[self.current].token_type() == TokenType::EOF
    }

    fn peek(&self) -> (r: Token)
        requires
            self.wf(),
        ensures
            r.model() == self.stream()[self.current as int],
    {
        self.tokens[self.current].copied()
    }

    fn previous(&self) -> (r: Token)
        requires
            self.wf(),
            self.current > 0,
        ensures
            r.model() == self.stream()[self.current - 1],
    {
        self.tokens[self.current - 1].copied()
    }

    /// Moves past the current token unless it is the end of the stream, and
    /// returns the token moved past.
    fn advance(&mut self) -> (r: Token)
        requires
            old(self).wf(),
        ensures
            final(self).wf(),
            final(self).tokens@ == old(self).tokens@,
            final(self).current == old(self).current + if at_end(
                old(self).stream(),
                old(self).current as int,
            ) {
                0int
            } else {
                1int
            },
            r.model() == old(self).stream()[old(self).current as int],
    {
        if self.is_at_end() {
            return self.peek();
        }
        proof {
            let j = choose|j: int|
                self.current <= j < self.stream().len() && #[trigger] self.stream()[j].kind
                    == TokenType::EOF;
            assert(j != self.current);
        }
        self.current = self.current + 1;
        self.previous()
    }

    fn check(&self, token_type: TokenType) -> (r: bool)
        requires
            self.wf(),
        ensures
            r == check(self.stream(), self.current as int, token_type),
    {
        if self.is_at_end() {
            false
        } else {
            self.tokens[self.current].token_type() == token_type
        }
    }

    /// Moves past the current token when it is of one of `types`.
    fn match_token(&mut self, types: &[TokenType]) -> (r: bool)
        requires
            old(self).wf(),
        ensures
            final(self).wf(),
            final(self).tokens@ == old(self).tokens@,
            r == (!at_end(old(self).stream(), old(self).current as int) && types@.contains(
                old(self).stream()[old(self).current as int].kind,
            )),
            final(self).current == if r {
                old(self).current + 1
            } else {
                old(self).current as int
            },
    {
        let mut i: usize = 0;
        while i < types.len()
            invariant
                self.wf(),
                *self == *old(self),
                i <= types@.len(),
                forall|k: int| 0 <= k < i ==> !check(self.stream(), self.current as int, types@[k]),
            decreases types.len() - i,
        {
            if self.check(types[i]) {
                self.advance();
                return true;
            }
            i = i + 1;
        }
        proof {
            if !at_end(self.stream(), self.current as int) && types@.contains(self.stream()[self.current as int].kind) {
                let k = choose|k: int| 0 <= k < types@.len() && types@[k] == self.stream()[self.current as int].kind;
                assert(check(self.stream(), self.current as int, types@[k]));
            }
        }
        false
    }

    fn scan_error(&self, message: String) -> (r: Error)
        requires
            self.wf(),
        ensures
            r.model() == (ErrorModel { line: self.stream()[self.current as int].line, message: message@ }),
    {
        let line = self.peek().line();
        Error::new(line, message)
    }

    fn consume(&mut self, token_type: TokenType, message: String) -> (r: Result<Token, Error>)
        requires
            old(self).wf(),
        ensures
            final(self).wf(),
            final(self).tokens@ == old(self).tokens@,
            check(old(self).stream(), old(self).current as int, token_type) ==> r is Ok
                && r->Ok_0.model() == old(self).stream()[old(self).current as int]
                && final(self).current == old(self).current + 1,
            !check(old(self).stream(), old(self).current as int, token_type) ==> r is Err
                && final(self).current == old(self).current
                && r->Err_0.model() == (ErrorModel {
                    line: old(self).stream()[old(self).current as int].line,
                    message: message@,
                }),
    {
        if self.check(token_type) {
            Ok(self.advance())
        } else {
            Err(self.scan_error(message))
        }
    }

    /// Skips tokens after a syntax error: the current token, then up to just after
    /// a `;` or up to a token that starts a statement, or to the end of the stream.
    pub fn synchronize(&mut self)
        requires
            old(self).wf(),
        ensures
            final(self).wf(),
            final(self).stream() == old(self).stream(),
            final(self).position() == synchronized(old(self).stream(), old(self).position()),
    {
        if self.is_at_end() {
            return;
        }
        self.advance();
        while !self.is_at_end()
            invariant
                self.wf(),
                self.tokens@ == old(self).tokens@,
                self.current > 0,
                sync_from(self.stream(), self.current as int) == synchronized(old(self).stream(), old(self).current as int),
            decreases self.tokens.len() - self.current,
        {
            if self.previous().token_type() == TokenType::SEMICOLON {
                return;
            }
            let t = self.peek().token_type();
            if t == TokenType::CLASS || t == TokenType::FUN || t == TokenType::VAR || t == TokenType::FOR
                || t == TokenType::IF || t == TokenType::WHILE || t == TokenType::PRINT || t == TokenType::RETURN {
                return;
            }
            self.advance();
        }
    }

    /// Parses the expression at the current token: its tree, or the first syntax error.
    pub fn parse(&mut self) -> (r: Result<Expression, Error>)
        requires
            old(self).wf(),
        ensures
            final(self).wf(),
            final(self).stream() == old(self).stream(),
            result_model(r) == expression(old(self).stream(), old(self).position()).result,
            final(self).position() == expression(old(self).stream(), old(self).position()).pos,
    {
        self.expression()
    }

    fn expression(&mut self) -> (r: Result<Expression, Error>)
        requires
            old(self).wf(),
        ensures
            parsed_as(*old(self), *final(self), expression(old(self).stream(), old(self).current as int), r),
        decreases old(self).tokens.len() - old(self).current, 20nat,
    {
        self.equality()
    }

    fn equality(&mut self) -> (r: Result<Expression, Error>)
        requires
            old(self).wf(),
        ensures
            parsed_as(*old(self), *final(self), binary_layer(old(self).stream(), old(self).current as int, 3), r),
        decreases old(self).tokens.len() - old(self).current, 16nat,
    {
        let ghost start = self.current as int;
        let mut expr = match self.comparison() {
            Ok(e) => e,
            Err(e) => return Err(e),
        };
        let ops = [TokenType::BANG_EQUAL, TokenType::EQUAL_EQUAL];
        loop
            invariant
                ops@ == seq![TokenType::BANG_EQUAL, TokenType::EQUAL_EQUAL],
                self.wf(),
                self.tokens@ == old(self).tokens@,
                start == old(self).current,
                start <= self.current,
                fold_layer(self.stream(), self.current as int, 3, expr.model()) == binary_layer(self.stream(), start, 3),
            decreases self.tokens.len() - self.current,
        {
            let ghost c = self.current as int;
            if !self.match_token(&ops) {
                return Ok(expr);
            }
            proof {
                assert(operand(self.stream(), c + 1, 3) == binary_layer(self.stream(), c + 1, 2));
            }
            let operator = Operator::new(self.previous());
            let right = match self.comparison() {
                Ok(e) => e,
                Err(e) => return Err(e),
            };
            expr = Expression::Binary(Binary::new(expr, operator, right));
        }
    }

    fn comparison(&mut self) -> (r: Result<Expression, Error>)
        requires
            old(self).wf(),
        ensures
            parsed_as(*old(self), *final(self), binary_layer(old(self).stream(), old(self).current as int, 2), r),
        decreases old(self).tokens.len() - old(self).current, 12nat,
    {
        let ghost start = self.current as int;
        let mut expr = match self.term() {
            Ok(e) => e,
            Err(e) => return Err(e),
        };
        let ops = [TokenType::GREATER, TokenType::GREATER_EQUAL, TokenType::LESS, TokenType::LESS_EQUAL];
        loop
            invariant
                ops@ == seq![TokenType::GREATER, TokenType::GREATER_EQUAL, TokenType::LESS, TokenType::LESS_EQUAL],
                self.wf(),
                self.tokens@ == old(self).tokens@,
                start == old(self).current,
                start <= self.current,
                fold_layer(self.stream(), self.current as int, 2, expr.model()) == binary_layer(self.stream(), start, 2),
            decreases self.tokens.len() - self.current,
        {
            let ghost c = self.current as int;
            if !self.match_token(&ops) {
                return Ok(expr);
            }
            proof {
                assert(operand(self.stream(), c + 1, 2) == binary_layer(self.stream(), c + 1, 1));
            }
            let operator = Operator::new(self.previous());
            let right = match self.term() {
                Ok(e) => e,
                Err(e) => return Err(e),
            };
            expr = Expression::Binary(Binary::new(expr, operator, right));
        }
    }

    fn term(&mut self) -> (r: Result<Expression, Error>)
        requires
            old(self).wf(),
        ensures
            parsed_as(*old(self), *final(self), binary_layer(old(self).stream(), old(self).current as int, 1), r),
        decreases old(self).tokens.len() - old(self).current, 8nat,
    {
        let ghost start = self.current as int;
        let mut expr = match self.factor() {
            Ok(e) => e,
            Err(e) => return Err(e),
        };
        let ops = [TokenType::MINUS, TokenType::PLUS];
        loop
            invariant
                ops@ == seq![TokenType::MINUS, TokenType::PLUS],
                self.wf(),
                self.tokens@ == old(self).tokens@,
                start == old(self).current,
                start <= self.current,
                fold_layer(self.stream(), self.current as int, 1, expr.model()) == binary_layer(self.stream(), start, 1),
            decreases self.tokens.len() - self.current,
        {
            let ghost c = self.current as int;
            if !self.match_token(&ops) {
                return Ok(expr);
            }
            proof {
                assert(operand(self.stream(), c + 1, 1) == binary_layer(self.stream(), c + 1, 0));
            }
            let operator = Operator::new(self.previous());
            let right = match self.factor() {
                Ok(e) => e,
                Err(e) => return Err(e),
            };
            expr = Expression::Binary(Binary::new(expr, operator, right));
        }
    }

    fn factor(&mut self) -> (r: Result<Expression, Error>)
        requires
            old(self).wf(),
        ensures
            parsed_as(*old(self), *final(self), binary_layer(old(self).stream(), old(self).current as int, 0), r),
        decreases old(self).tokens.len() - old(self).current, 4nat,
    {
        let ghost start = self.current as int;
        let mut expr = match self.unary() {
            Ok(e) => e,
            Err(e) => return Err(e),
        };
        let ops = [TokenType::SLASH, TokenType::STAR];
        loop
            invariant
                ops@ == seq![TokenType::SLASH, TokenType::STAR],
                self.wf(),
                self.tokens@ == old(self).tokens@,
                start == old(self).current,
                start <= self.current,
                fold_layer(self.stream(), self.current as int, 0, expr.model()) == binary_layer(self.stream(), start, 0),
            decreases self.tokens.len() - self.current,
        {
            let ghost c = self.current as int;
            if !self.match_token(&ops) {
                return Ok(expr);
            }
            proof {
                assert(operand(self.stream(), c + 1, 0) == unary(self.stream(), c + 1));
            }
            let operator = Operator::new(self.previous());
            let right = match self.unary() {
                Ok(e) => e,
                Err(e) => return Err(e),
            };
            expr = Expression::Binary(Binary::new(expr, operator, right));
        }
    }

    fn unary(&mut self) -> (r: Result<Expression, Error>)
        requires
            old(self).wf(),
        ensures
            parsed_as(*old(self), *final(self), unary(old(self).stream(), old(self).current as int), r),
        decreases old(self).tokens.len() - old(self).current, 1nat,
    {
        if self.match_token(&[TokenType::BANG, TokenType::MINUS]) {
            let operator = self.previous();
            match self.unary() {
                Ok(right) => Ok(Expression::Unary(Unary::new(operator, right))),
                Err(e) => Err(e),
            }
        } else {
            self.primary()
        }
    }

    fn primary(&mut self) -> (r: Result<Expression, Error>)
        requires
            old(self).wf(),
        ensures
            parsed_as(*old(self), *final(self), primary(old(self).stream(), old(self).current as int), r),
        decreases old(self).tokens.len() - old(self).current, 0nat,
    {
        if self.match_token(&[TokenType::FALSE, TokenType::TRUE, TokenType::NIL, TokenType::NUMBER, TokenType::STRING]) {
            return Ok(Expression::LiteralExp(LiteralExp::new(self.previous())));
        }
        if self.match_token(&[TokenType::LEFT_PAREN]) {
            let expression = match self.expression() {
                Ok(e) => e,
                Err(e) => return Err(e),
            };
            match self.consume(TokenType::RIGHT_PAREN, "Expect ')' after expression.".to_string()) {
                Ok(_) => Ok(Expression::Grouping(Grouping::new(expression))),
                Err(e) => Err(e),
            }
        } else {
            let line = self.peek().line();
            Err(Error::new(line, "No primary expression matched.".to_string()))
        }
    }
}

/// `new` is `old` after a parsing rule that produced `r`, as `p` describes.
spec fn parsed_as(old: Parser, new: Parser, p: Parsed, r: Result<Expression, Error>) -> bool {
    &&& new.wf()
    &&& new.tokens@ == old.tokens@
    &&& old.current <= new.current
    &&& new.current == p.pos
    &&& result_model(r) == p.result
}

} // verus!
