//! Recursive-descent parser with precedence climbing.
//!
//! The parser consumes a token sequence with all `Whitespace` and `Eof`
//! tokens filtered out, advances a cursor, and builds the syntax tree
//! bottom-up. Operators of equal precedence group from the right: the
//! right-hand side of an operator is parsed at the *same* minimum precedence,
//! so `1-2-3` parses as `1-(2-3)`.
//!
//! A missing closing parenthesis is a structured error carrying the start
//! offset of the unmatched `(`. Expression recursion is capped at a
//! documented depth, `EXPRESSION_DEPTH_LIMIT`; exceeding it is a structured
//! error as well, not a stack overflow.

use vstd::prelude::*;
use crate::ast::{
    Ast, AstBinaryOperator, AstBinaryOperatorKind, AstExpression, AstStatement, ExprModel,
    OperatorModel, StmtModel, operator_precedence,
};
use crate::lexer::{Token, TokenKind, TokenModel, token_models};

verus! {

/// How a parse can fail.
#[derive(Clone, Copy, Debug, PartialEq, Eq, Structural)]
pub enum ParseError {
    /// A parenthesized group was not closed; `offset` is the start offset of
    /// the unmatched `(`.
    MissingClosingParen { offset: usize },
    /// The expression nested more deeply than `EXPRESSION_DEPTH_LIMIT`.
    DepthLimitExceeded,
}

/// The defensive cap on expression recursion depth.
pub const EXPRESSION_DEPTH_LIMIT: usize = 4096;

/// The binary operator a token stands for, if any.
pub open spec fn binary_operator_kind_of(kind: TokenKind) -> Option<AstBinaryOperatorKind> {
    match kind {
        TokenKind::Plus => Some(AstBinaryOperatorKind::Plus),
        TokenKind::Minus => Some(AstBinaryOperatorKind::Minus),
        TokenKind::Asterisk => Some(AstBinaryOperatorKind::Multiply),
        TokenKind::Slash => Some(AstBinaryOperatorKind::Divide),
        _ => None,
    }
}

/// Tokens the parser keeps: everything but `Whitespace` and `Eof`.
pub open spec fn kept_for_parsing(kind: TokenKind) -> bool {
    !(kind is Whitespace) && !(kind is Eof)
}

/// The token sequence with `Whitespace` and `Eof` tokens filtered out, in
/// order.
pub open spec fn parse_token_filter(toks: Seq<TokenModel>) -> Seq<TokenModel>
    decreases toks.len(),
{
    if toks.len() == 0 {
        Seq::empty()
    } else {
        let rest = parse_token_filter(toks.drop_last());
        if kept_for_parsing(toks.last().kind) {
            rest.push(toks.last())
        } else {
            rest
        }
    }
}

/// The outcome of parsing one expression: an expression and the cursor just
/// past it, no expression here (with the cursor after what was examined), a
/// missing closing parenthesis at an offset, or exhausted recursion depth.
pub enum ExprOutcome {
    Parsed(ExprModel, int),
    NoExpr(int),
    Failed(int),
    TooDeep,
}

/// The outcome of parsing the statement sequence.
pub enum StmtsOutcome {
    Parsed(Seq<StmtModel>, int),
    Failed(int),
    TooDeep,
}

/// What `parse_primary_expression` yields at cursor `pos`: it consumes one
/// token; a `Number` is a leaf, an `OpenParen` parses an inner expression and
/// requires the next token to be `CloseParen` (else a fatal error carrying
/// the offset of the `(`), and any other token, or none, yields no
/// expression.
pub open spec fn sp_primary(toks: Seq<TokenModel>, pos: int, fuel: nat) -> ExprOutcome
    decreases fuel,
{
    if fuel == 0 {
        ExprOutcome::TooDeep
    } else if pos < 0 || pos >= toks.len() {
        ExprOutcome::NoExpr(pos)
    } else {
        let token = toks[pos];
        match token.kind {
            TokenKind::Number(value) => ExprOutcome::Parsed(ExprModel::Number(value as int), pos + 1),
            TokenKind::OpenParen => match sp_binary(toks, pos + 1, 0, (fuel - 1) as nat) {
                ExprOutcome::Parsed(inner, after) => if after < toks.len() && toks[after].kind
                    is CloseParen {
                    ExprOutcome::Parsed(inner, after + 1)
                } else {
                    ExprOutcome::Failed(token.span.start)
                },
                ExprOutcome::NoExpr(after) => if after < toks.len() && toks[after].kind
                    is CloseParen {
                    ExprOutcome::NoExpr(after + 1)
                } else {
                    ExprOutcome::Failed(token.span.start)
                },
                ExprOutcome::Failed(offset) => ExprOutcome::Failed(offset),
                ExprOutcome::TooDeep => ExprOutcome::TooDeep,
            },
            _ => ExprOutcome::NoExpr(pos + 1),
        }
    }
}

/// What `parse_binary_expression` yields: a primary expression, then a climb
/// over binary operators of at least `min_precedence`.
pub open spec fn sp_binary(toks: Seq<TokenModel>, pos: int, min_precedence: int, fuel: nat) -> ExprOutcome
    decreases fuel,
{
    if fuel == 0 {
        ExprOutcome::TooDeep
    } else {
        match sp_primary(toks, pos, (fuel - 1) as nat) {
            ExprOutcome::Parsed(left, after) => sp_binary_loop(
                toks,
                after,
                left,
                min_precedence,
                (fuel - 1) as nat,
            ),
            other => other,
        }
    }
}

/// The climbing loop: while the next token is a binary operator of at least
/// `min_precedence`, consume it, parse its right-hand side at *its own*
/// precedence (so equal-precedence operators group from the right), and fold
/// it into `left`. A right-hand side that yields no expression stops the
/// climb with `left` as parsed so far.
pub open spec fn sp_binary_loop(
    toks: Seq<TokenModel>,
    pos: int,
    left: ExprModel,
    min_precedence: int,
    fuel: nat,
) -> ExprOutcome
    decreases fuel,
{
    if fuel == 0 {
        ExprOutcome::TooDeep
    } else if 0 <= pos < toks.len() && binary_operator_kind_of(toks[pos].kind) is Some
        && operator_precedence(binary_operator_kind_of(toks[pos].kind)->Some_0)
        >= min_precedence {
        let operator_kind = binary_operator_kind_of(toks[pos].kind)->Some_0;
        let operator = OperatorModel { kind: operator_kind, token: toks[pos] };
        match sp_binary(toks, pos + 1, operator_precedence(operator_kind), (fuel - 1) as nat) {
            ExprOutcome::Parsed(right, after) => sp_binary_loop(
                toks,
                after,
                ExprModel::Binary(Box::new(left), Box::new(right), operator),
                min_precedence,
                (fuel - 1) as nat,
            ),
            ExprOutcome::NoExpr(after) => ExprOutcome::Parsed(left, after),
            ExprOutcome::Failed(offset) => ExprOutcome::Failed(offset),
            ExprOutcome::TooDeep => ExprOutcome::TooDeep,
        }
    } else {
        ExprOutcome::Parsed(left, pos)
    }
}

/// Parsing an expression never moves the cursor backward, never moves it
/// past the end of the tokens, and a parsed expression consumes at least one
/// token.
pub proof fn lemma_parse_progress(
    toks: Seq<TokenModel>,
    pos: int,
    min_precedence: int,
    left: ExprModel,
    fuel: nat,
)
    ensures
        match sp_primary(toks, pos, fuel) {
            ExprOutcome::Parsed(_, after) => 0 <= pos && pos < after <= toks.len(),
            ExprOutcome::NoExpr(after) => pos <= after && (0 <= pos <= toks.len() ==> after
                <= toks.len()),
            _ => true,
        },
        match sp_binary(toks, pos, min_precedence, fuel) {
            ExprOutcome::Parsed(_, after) => 0 <= pos && pos < after <= toks.len(),
            ExprOutcome::NoExpr(after) => pos <= after && (0 <= pos <= toks.len() ==> after
                <= toks.len()),
            _ => true,
        },
        match sp_binary_loop(toks, pos, left, min_precedence, fuel) {
            ExprOutcome::Parsed(_, after) => pos <= after && (0 <= pos <= toks.len() ==> after
                <= toks.len()),
            ExprOutcome::NoExpr(_) => false,
            _ => true,
        },
    decreases fuel,
{
    if fuel > 0 {
        let reduced = (fuel - 1) as nat;
        // the inner expression of a parenthesized primary
        lemma_parse_progress(toks, pos + 1, 0, left, reduced);
        // the primary expression that starts a binary expression
        lemma_parse_progress(toks, pos, min_precedence, left, reduced);
        match sp_primary(toks, pos, reduced) {
            ExprOutcome::Parsed(first_left, after) => {
                lemma_parse_progress(toks, after, min_precedence, first_left, reduced);
            },
            _ => {},
        }
        // one step of the climbing loop
        if 0 <= pos < toks.len() {
            match binary_operator_kind_of(toks[pos].kind) {
                Some(operator_kind) => {
                    let operator_prec = operator_precedence(operator_kind);
                    if operator_prec >= min_precedence {
                        lemma_parse_progress(toks, pos + 1, operator_prec, left, reduced);
                        match sp_binary(toks, pos + 1, operator_prec, reduced) {
                            ExprOutcome::Parsed(right, after) => {
                                let operator = OperatorModel {
                                    kind: operator_kind,
                                    token: toks[pos],
                                };
                                let folded = ExprModel::Binary(
                                    Box::new(left),
                                    Box::new(right),
                                    operator,
                                );
                                lemma_parse_progress(toks, after, min_precedence, folded, reduced);
                            },
                            _ => {},
                        }
                    }
                },
                None => {},
            }
        }
    }
}

/// What `parse` yields from cursor `pos`: statements accumulate while
/// expressions keep coming; the first "no expression" ends the program
/// normally.
pub open spec fn sp_statements(toks: Seq<TokenModel>, pos: int) -> StmtsOutcome
    decreases toks.len() - pos,
        via sp_statements_decreases
{
    match sp_binary(toks, pos, 0, EXPRESSION_DEPTH_LIMIT as nat) {
        ExprOutcome::Parsed(expression, after) => match sp_statements(toks, after) {
            StmtsOutcome::Parsed(rest, end) => StmtsOutcome::Parsed(
                seq![StmtModel::Expression(expression)] + rest,
                end,
            ),
            other => other,
        },
        ExprOutcome::NoExpr(after) => StmtsOutcome::Parsed(Seq::empty(), after),
        ExprOutcome::Failed(offset) => StmtsOutcome::Failed(offset),
        ExprOutcome::TooDeep => StmtsOutcome::TooDeep,
    }
}

#[via_fn]
proof fn sp_statements_decreases(toks: Seq<TokenModel>, pos: int) {
    lemma_parse_progress(toks, pos, 0, ExprModel::Number(0), EXPRESSION_DEPTH_LIMIT as nat);
}

/// The parser: the filtered token buffer and a cursor into it.
pub struct Parser {
    tokens: Vec<Token>,
    current_position: usize,
}

impl Parser {
    /// The cursor stays inside the token buffer.
    pub closed spec fn wf(&self) -> bool {
        self.current_position <= self.tokens@.len()
    }

    /// The models of the buffered tokens.
    pub closed spec fn token_seq(&self) -> Seq<TokenModel> {
        token_models(self.tokens@)
    }

    /// The current cursor position.
    pub closed spec fn position(&self) -> int {
        self.current_position as int
    }

    /// Builds a parser over the given tokens with `Whitespace` and `Eof`
    /// filtered out and the cursor at the start.
    #[verifier::loop_isolation(false)]
    pub fn new(tokens: Vec<Token>) -> (parser: Self)
        ensures
            parser.wf(),
            parser.position() == 0,
            parser.token_seq() == parse_token_filter(token_models(tokens@)),
    {
        let ghost original = tokens@;
        let ghost mut done: int = 0;
        let mut remaining = tokens;
        let mut kept: Vec<Token> = Vec::new();
        proof {
            assert(remaining@ =~= original.subrange(0, original.len() as int));
            assert(token_models(original.subrange(0, 0)) =~= Seq::<TokenModel>::empty());
        }
        while remaining.len() > 0
            invariant
                0 <= done <= original.len(),
                remaining@ == original.subrange(done, original.len() as int),
                token_models(kept@) == parse_token_filter(
                    token_models(original.subrange(0, done)),
                ),
            decreases remaining@.len(),
        {
            let token = remaining.remove(0);
            proof {
                assert(token == original[done]);
                assert(remaining@ =~= original.subrange(done + 1, original.len() as int));
                let prefix = original.subrange(0, done);
                let extended = original.subrange(0, done + 1);
                assert(token_models(extended).drop_last() =~= token_models(prefix));
                assert(token_models(extended).last() == original[done]@);
                assert(token_models(kept@.push(token)) =~= token_models(kept@).push(token@));
            }
            let keep = match token.kind {
                TokenKind::Whitespace => false,
                TokenKind::Eof => false,
                _ => true,
            };
            if keep {
                kept.push(token);
            }
            proof {
                done = done + 1;
            }
        }
        proof {
            assert(original.subrange(0, done) =~= original);
        }
        Self { tokens: kept, current_position: 0 }
    }

    /// The token under the cursor, if any.
    fn current_token(&self) -> (result: Option<&Token>)
        requires
            self.wf(),
        ensures
            match result {
                Some(token) => self.position() < self.token_seq().len() && token@
                    == self.token_seq()[self.position()],
                None => self.position() >= self.token_seq().len(),
            },
    {
        if self.current_position < self.tokens.len() {
            Some(&self.tokens[self.current_position])
        } else {
            None
        }
    }

    /// Reads the token under the cursor as a binary operator, without
    /// consuming it.
    fn parse_operator_kind(&self) -> (result: Option<AstBinaryOperator>)
        requires
            self.wf(),
        ensures
            match result {
                Some(operator) => {
                    &&& self.position() < self.token_seq().len()
                    &&& binary_operator_kind_of(self.token_seq()[self.position()].kind)
                        == Some(operator.kind)
                    &&& operator.token@ == self.token_seq()[self.position()]
                },
                None => self.position() >= self.token_seq().len() || binary_operator_kind_of(
                    self.token_seq()[self.position()].kind,
                ) is None,
            },
    {
        let token = match self.current_token() {
            Some(token) => token,
            None => {
                return None;
            },
        };
        let kind = match token.kind {
            TokenKind::Plus => AstBinaryOperatorKind::Plus,
            TokenKind::Minus => AstBinaryOperatorKind::Minus,
            TokenKind::Asterisk => AstBinaryOperatorKind::Multiply,
            TokenKind::Slash => AstBinaryOperatorKind::Divide,
            _ => {
                return None;
            },
        };
        Some(AstBinaryOperator::new(kind, token.clone()))
    }

    /// Consumes one token and parses a primary expression: a number literal
    /// or a parenthesized expression. Any other token yields no expression;
    /// a group missing its `)` is a fatal error carrying the offset of the
    /// `(`.
    fn parse_primary_expression(&mut self, fuel: usize) -> (result: Result<
        Option<AstExpression>,
        ParseError,
    >)
        requires
            old(self).wf(),
        ensures
            final(self).wf(),
            final(self).token_seq() == old(self).token_seq(),
            match sp_primary(old(self).token_seq(), old(self).position(), fuel as nat) {
                ExprOutcome::Parsed(model, after) => result matches Ok(Some(expression))
                    && expression@ == model && final(self).position() == after,
                ExprOutcome::NoExpr(after) => result matches Ok(option) && option is None && final(self).position() == after,
                ExprOutcome::Failed(offset) => result matches Err(error) && error
                    == (ParseError::MissingClosingParen { offset: offset as usize }) && offset
                    >= 0,
                ExprOutcome::TooDeep => result matches Err(error) && error
                    is DepthLimitExceeded,
            },
        decreases fuel, 2int,
    {
        if fuel == 0 {
            return Err(ParseError::DepthLimitExceeded);
        }
        if self.current_position >= self.tokens.len() {
            return Ok(None);
        }
        let token_kind = self.tokens[self.current_position].kind;
        let token_start = self.tokens[self.current_position].span.start;
        self.current_position = self.current_position + 1;
        match token_kind {
            TokenKind::Number(value) => Ok(Some(AstExpression::from_number(value))),
            TokenKind::OpenParen => {
                let expression = self.parse_expression(fuel - 1)?;
                if self.current_position < self.tokens.len() {
                    let is_close = match self.tokens[self.current_position].kind {
                        TokenKind::CloseParen => true,
                        _ => false,
                    };
                    if is_close {
                        self.current_position = self.current_position + 1;
                        return Ok(expression);
                    }
                }
                Err(ParseError::MissingClosingParen { offset: token_start })
            },
            _ => Ok(None),
        }
    }

    /// Parses one expression at the lowest precedence.
    fn parse_expression(&mut self, fuel: usize) -> (result: Result<
        Option<AstExpression>,
        ParseError,
    >)
        requires
            old(self).wf(),
        ensures
            final(self).wf(),
            final(self).token_seq() == old(self).token_seq(),
            match sp_binary(old(self).token_seq(), old(self).position(), 0, fuel as nat) {
                ExprOutcome::Parsed(model, after) => result matches Ok(Some(expression))
                    && expression@ == model && final(self).position() == after,
                ExprOutcome::NoExpr(after) => result matches Ok(option) && option is None && final(self).position() == after,
                ExprOutcome::Failed(offset) => result matches Err(error) && error
                    == (ParseError::MissingClosingParen { offset: offset as usize }) && offset
                    >= 0,
                ExprOutcome::TooDeep => result matches Err(error) && error
                    is DepthLimitExceeded,
            },
        decreases fuel, 1int,
    {
        self.parse_binary_expression(0, fuel)
    }

    /// Precedence climbing: parses a primary expression, then folds in
    /// binary operators whose precedence is at least `precedence`. The
    /// right-hand side is parsed at the operator's own precedence, so
    /// operators of equal precedence group from the right.
    #[verifier::loop_isolation(false)]
    fn parse_binary_expression(&mut self, precedence: u8, fuel: usize) -> (result: Result<
        Option<AstExpression>,
        ParseError,
    >)
        requires
            old(self).wf(),
        ensures
            final(self).wf(),
            final(self).token_seq() == old(self).token_seq(),
            match sp_binary(
                old(self).token_seq(),
                old(self).position(),
                precedence as int,
                fuel as nat,
            ) {
                ExprOutcome::Parsed(model, after) => result matches Ok(Some(expression))
                    && expression@ == model && final(self).position() == after,
                ExprOutcome::NoExpr(after) => result matches Ok(option) && option is None && final(self).position() == after,
                ExprOutcome::Failed(offset) => result matches Err(error) && error
                    == (ParseError::MissingClosingParen { offset: offset as usize }) && offset
                    >= 0,
                ExprOutcome::TooDeep => result matches Err(error) && error
                    is DepthLimitExceeded,
            },
        decreases fuel, 0int,
    {
        if fuel == 0 {
            return Err(ParseError::DepthLimitExceeded);
        }
        let left_option = self.parse_primary_expression(fuel - 1)?;
        let mut left = match left_option {
            Some(expression) => expression,
            None => {
                return Ok(None);
            },
        };
        let mut loop_fuel: usize = fuel - 1;
        let ghost toks = self.token_seq();
        loop
            invariant
                self.wf(),
                self.token_seq() == toks,
                loop_fuel < fuel,
                sp_binary(toks, old(self).position(), precedence as int, fuel as nat)
                    == sp_binary_loop(
                    toks,
                    self.position(),
                    left@,
                    precedence as int,
                    loop_fuel as nat,
                ),
            decreases loop_fuel,
        {
            if loop_fuel == 0 {
                return Err(ParseError::DepthLimitExceeded);
            }
            let operator = match self.parse_operator_kind() {
                Some(operator) => operator,
                None => {
                    return Ok(Some(left));
                },
            };
            let operator_precedence_value = operator.get_precedence();
            if operator_precedence_value < precedence {
                return Ok(Some(left));
            }
            let total = self.tokens.len();
            proof {
                assert(self.current_position < total);
            }
            self.current_position = self.current_position + 1;
            let right_option = self.parse_binary_expression(operator_precedence_value, loop_fuel - 1)?;
            let right = match right_option {
                Some(expression) => expression,
                None => {
                    return Ok(Some(left));
                },
            };
            left = AstExpression::from_binary_expression(left, right, operator);
            loop_fuel = loop_fuel - 1;
        }
    }

    /// Parses one statement: an expression wrapped as a statement, or
    /// nothing at the end of the program.
    fn parse_statement(&mut self) -> (result: Result<Option<AstStatement>, ParseError>)
        requires
            old(self).wf(),
        ensures
            final(self).wf(),
            final(self).token_seq() == old(self).token_seq(),
            match sp_binary(
                old(self).token_seq(),
                old(self).position(),
                0,
                EXPRESSION_DEPTH_LIMIT as nat,
            ) {
                ExprOutcome::Parsed(model, after) => result matches Ok(Some(statement))
                    && statement@ == StmtModel::Expression(model) && final(self).position() == after,
                ExprOutcome::NoExpr(after) => result matches Ok(option) && option is None && final(self).position() == after,
                ExprOutcome::Failed(offset) => result matches Err(error) && error
                    == (ParseError::MissingClosingParen { offset: offset as usize }) && offset
                    >= 0,
                ExprOutcome::TooDeep => result matches Err(error) && error
                    is DepthLimitExceeded,
            },
    {
        let expression = self.parse_expression(EXPRESSION_DEPTH_LIMIT)?;
        match expression {
            Some(expression) => Ok(Some(AstStatement::from_expression(expression))),
            None => Ok(None),
        }
    }

    /// Parses the whole program: statements accumulate until no further
    /// expression is found, which ends the program normally.
    #[verifier::loop_isolation(false)]
    pub fn parse(&mut self) -> (result: Result<Ast, ParseError>)
        requires
            old(self).wf(),
        ensures
            final(self).wf(),
            final(self).token_seq() == old(self).token_seq(),
            match sp_statements(old(self).token_seq(), old(self).position()) {
                StmtsOutcome::Parsed(models, end) => result matches Ok(ast) && ast@ == models
                    && final(self).position() == end,
                StmtsOutcome::Failed(offset) => result matches Err(error) && error
                    == (ParseError::MissingClosingParen { offset: offset as usize }) && offset
                    >= 0,
                StmtsOutcome::TooDeep => result matches Err(error) && error
                    is DepthLimitExceeded,
            },
    {
        let ghost toks = self.token_seq();
        let ghost start = self.position();
        let mut statements: Vec<AstStatement> = Vec::new();
        proof {
            assert(statements@.map_values(|statement: AstStatement| statement@) =~= Seq::<
                StmtModel,
            >::empty());
        }
        loop
            invariant
                self.wf(),
                self.token_seq() == toks,
                match sp_statements(toks, self.position()) {
                    StmtsOutcome::Parsed(rest, end) => sp_statements(toks, start)
                        == StmtsOutcome::Parsed(
                        statements@.map_values(|statement: AstStatement| statement@) + rest,
                        end,
                    ),
                    other => sp_statements(toks, start) == other,
                },
            decreases toks.len() - self.position(),
        {
            let ghost position_before = self.position();
            proof {
                lemma_parse_progress(
                    toks,
                    position_before,
                    0,
                    ExprModel::Number(0),
                    EXPRESSION_DEPTH_LIMIT as nat,
                );
            }
            let statement = match self.parse_statement() {
                Ok(Some(statement)) => statement,
                Ok(None) => {
                    break ;
                },
                Err(error) => {
                    return Err(error);
                },
            };
            proof {
                let seq_before = statements@.map_values(|statement: AstStatement| statement@);
                assert(statements@.push(statement).map_values(
                    |statement: AstStatement| statement@,
                ) =~= seq_before.push(statement@));
                match sp_statements(toks, self.position()) {
                    StmtsOutcome::Parsed(rest, end) => {
                        assert(seq_before + (seq![statement@] + rest) =~= seq_before.push(
                            statement@,
                        ) + rest);
                    },
                    _ => {},
                }
            }
            statements.push(statement);
        }
        Ok(Ast::new(statements))
    }
}

} // verus!
