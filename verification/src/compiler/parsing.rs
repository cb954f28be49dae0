//! The reader of the grammar: one method for each of its rules.

use vstd::prelude::*;
use crate::compiler::BinaryOp;
use crate::compiler::Compiler;
use crate::compiler::Expr;
use crate::compiler::Func0Op;
use crate::compiler::Func1Op;
use crate::compiler::RecursiveExpression;
use crate::compiler::exprs_view;
use crate::compiler::names_view;
use crate::compiler::option_view;
use crate::compiler::grammar;
use crate::lexer::Tok;
use crate::lexer::Token;
use crate::number::Numeral;

verus! {

/// The value of a token that may be missing.
pub open spec fn peeked(r: Option<&Token>) -> Option<Tok> {
    match r {
        Some(t) => Some(t@),
        None => None,
    }
}

impl<'a> Compiler<'a> {
    /// The position is within the token sequence.
    pub(crate) open spec fn wf(&self) -> bool {
        self.position <= self.program@.len()
    }

    /// What reading one rule leaves: the same tokens, the position advanced by the count
    /// that the grammar gives, and the expression that it gives.
    pub(crate) open spec fn reads(
        self,
        after: Compiler<'a>,
        r: Option<RecursiveExpression>,
        expected: (Option<Expr>, nat),
    ) -> bool {
        &&& after.program == self.program
        &&& after.position == self.position + expected.1
        &&& after.position <= self.program@.len()
        &&& option_view(r) == expected.0
    }

    fn peek(&self) -> (r: Option<&'a Token>)
        requires
            self.wf(),
        ensures
            peeked(r) == grammar::peek(self.tokens(), self.position as nat),
    {
        if self.position < self.program.len() {
            Some(&self.program[self.position])
        } else {
            None
        }
    }

    /// Steps over the token at the position, if there is one.
    fn consume(&mut self)
        requires
            old(self).wf(),
        ensures
            final(self).program == old(self).program,
            final(self).wf(),
            old(self).position < old(self).program@.len() ==> final(self).position == old(
                self,
            ).position + 1,
            old(self).position == old(self).program@.len() ==> final(self).position == old(
                self,
            ).position,
    {
        if self.position < self.program.len() {
            self.position += 1;
        }
    }

    /// Steps over the token at the position if it is `token`.
    fn try_consume(&mut self, token: &Token) -> (r: bool)
        requires
            old(self).wf(),
        ensures
            final(self).program == old(self).program,
            final(self).wf(),
            r == grammar::at(old(self).tokens(), old(self).position as nat, token@),
            r ==> final(self).position == old(self).position + 1,
            !r ==> final(self).position == old(self).position,
    {
        if self.position < self.program.len() && token.same(&self.program[self.position]) {
            self.position += 1;
            true
        } else {
            false
        }
    }

    fn peek_binary_op(&self) -> (r: Option<BinaryOp>)
        requires
            self.wf(),
        ensures
            r == grammar::peek_binary_op(self.tokens(), self.position as nat),
    {
        match self.peek() {
            Some(token) => match token {
                Token::Plus => Some(BinaryOp::Add),
                Token::Sub => Some(BinaryOp::Sub),
                Token::Mul => Some(BinaryOp::Mul),
                Token::Div => Some(BinaryOp::Div),
                Token::Mod => Some(BinaryOp::Mod),
                Token::Pow => Some(BinaryOp::Pow),
                Token::Eq => Some(BinaryOp::EQ),
                Token::NotEq => Some(BinaryOp::NEQ),
                Token::LessThan => Some(BinaryOp::LT),
                Token::LessThanEquals => Some(BinaryOp::LTE),
                Token::GreaterThan => Some(BinaryOp::GT),
                Token::GreaterThanEquals => Some(BinaryOp::GTE),
                Token::OpenParen => Some(BinaryOp::Mul),
                Token::Identifier(_) => Some(BinaryOp::Mul),
                _ => None,
            },
            None => None,
        }
    }

    /// The operator at the position, if its precedence is at least `min`.
    fn peek_op_from(&self, min: usize) -> (r: Option<BinaryOp>)
        requires
            self.wf(),
        ensures
            r == grammar::peek_op_from(self.tokens(), self.position as nat, min as nat),
    {
        match self.peek_binary_op() {
            Some(op) => if op.precedence() >= min {
                Some(op)
            } else {
                None
            },
            None => None,
        }
    }

    fn peek_func_0_op(&self) -> (r: Option<Func0Op>)
        requires
            self.wf(),
        ensures
            r is Some <==> grammar::at(self.tokens(), self.position as nat, Tok::Rand),
    {
        match self.peek() {
            Some(token) => match token {
                Token::Rand => Some(Func0Op::Rand),
                _ => None,
            },
            None => None,
        }
    }

    fn peek_func_1_op(&self) -> (r: Option<Func1Op>)
        requires
            self.wf(),
        ensures
            r == match grammar::peek(self.tokens(), self.position as nat) {
                Some(tok) => grammar::func1_of(tok),
                None => None,
            },
    {
        match self.peek() {
            Some(token) => match token {
                Token::Sine => Some(Func1Op::Sin),
                Token::Cosine => Some(Func1Op::Cos),
                Token::Sqrt => Some(Func1Op::Sqrt),
                Token::Log => Some(Func1Op::Log),
                Token::Round => Some(Func1Op::Round),
                Token::Floor => Some(Func1Op::Floor),
                _ => None,
            },
            None => None,
        }
    }

    fn peek_const_literal(&self) -> (r: Option<Numeral>)
        requires
            self.wf(),
        ensures
            match r {
                Some(x) => Some(x@),
                None => None,
            } == match grammar::peek(self.tokens(), self.position as nat) {
                Some(tok) => grammar::constant_of(tok),
                None => None,
            },
    {
        match self.peek() {
            Some(token) => match token {
                Token::Pi => Some(Numeral::pi()),
                Token::E => Some(Numeral::e()),
                _ => None,
            },
            None => None,
        }
    }

    fn parse_const_expression(&mut self) -> (r: Option<RecursiveExpression>)
        requires
            old(self).wf(),
            grammar::at(old(self).tokens(), old(self).position as nat, Tok::Pi) || grammar::at(
                old(self).tokens(),
                old(self).position as nat,
                Tok::E,
            ),
        ensures
            old(self).reads(
                *final(self),
                r,
                grammar::parse_primary(old(self).tokens(), old(self).position as nat),
            ),
            r is Some,
    {
        match self.peek_const_literal() {
            Some(x) => {
                self.consume();
                Some(RecursiveExpression::Literal(x))
            },
            None => None,
        }
    }

    fn parse_literal_expression(&mut self) -> (r: Option<RecursiveExpression>)
        requires
            old(self).wf(),
            grammar::peek(old(self).tokens(), old(self).position as nat) matches Some(
                Tok::LiteralNum(_),
            ),
        ensures
            old(self).reads(
                *final(self),
                r,
                grammar::parse_primary(old(self).tokens(), old(self).position as nat),
            ),
            r is Some,
    {
        match self.peek() {
            Some(token) => match token {
                Token::LiteralNum(x) => {
                    let x = x.clone();
                    self.consume();
                    Some(RecursiveExpression::Literal(x))
                },
                _ => None,
            },
            None => None,
        }
    }

    fn parse_func_0(&mut self) -> (r: Option<RecursiveExpression>)
        requires
            old(self).wf(),
        ensures
            old(self).reads(
                *final(self),
                r,
                grammar::parse_func_0(old(self).tokens(), old(self).position as nat),
            ),
            r is Some ==> final(self).position > old(self).position,
    {
        let func_op = match self.peek_func_0_op() {
            Some(op) => op,
            None => {
                return None;
            },
        };
        self.consume();
        if !self.try_consume(&Token::OpenParen) {
            return None;
        }
        if !self.try_consume(&Token::CloseParen) {
            return None;
        }
        Some(RecursiveExpression::Func0(func_op))
    }

    fn parse_func_params(&mut self) -> (r: Vec<String>)
        requires
            old(self).wf(),
        ensures
            final(self).program == old(self).program,
            final(self).wf(),
            names_view(r@) == grammar::parse_params(
                old(self).tokens(),
                old(self).position as nat,
            ).0,
            final(self).position == old(self).position + grammar::parse_params(
                old(self).tokens(),
                old(self).position as nat,
            ).1,
    {
        let mut idents: Vec<String> = Vec::new();
        let ghost tokens = self.tokens();
        let ghost start = self.position as nat;
        assert(names_view(idents@) =~= Seq::<Seq<char>>::empty());
        loop
            invariant
                self.wf(),
                self.program == old(self).program,
                tokens == self.tokens(),
                start == old(self).position,
                start <= self.position,
                names_view(idents@) + grammar::parse_params(tokens, self.position as nat).0
                    == grammar::parse_params(tokens, start).0,
                (self.position - start) + grammar::parse_params(tokens, self.position as nat).1
                    == grammar::parse_params(tokens, start).1,
            decreases self.program@.len() - self.position,
        {
            let ghost before = names_view(idents@);
            let ghost here = self.position as nat;
            match self.peek() {
                Some(token) => match token {
                    Token::Identifier(ident) => {
                        idents.push(ident.clone());
                        assert(names_view(idents@) =~= before + seq![ident@]);
                        self.consume();
                        if !self.try_consume(&Token::Comma) {
                            assert(grammar::parse_params(tokens, here).0 =~= seq![ident@]);
                            assert(names_view(idents@) =~= grammar::parse_params(tokens, start).0);
                            return idents;
                        }
                        assert(names_view(idents@) + grammar::parse_params(
                            tokens,
                            self.position as nat,
                        ).0 =~= before + grammar::parse_params(tokens, here).0);
                    },
                    _ => {
                        assert(names_view(idents@) =~= grammar::parse_params(tokens, start).0);
                        return idents;
                    },
                },
                None => {
                    assert(names_view(idents@) =~= grammar::parse_params(tokens, start).0);
                    return idents;
                },
            }
        }
    }
}

impl<'a> Compiler<'a> {
    pub(crate) fn parse_expression(&mut self) -> (r: Option<RecursiveExpression>)
        requires
            old(self).wf(),
        ensures
            old(self).reads(
                *final(self),
                r,
                grammar::parse_expression(old(self).tokens(), old(self).position as nat),
            ),
            r is Some ==> final(self).position > old(self).position,
        decreases old(self).program@.len() - old(self).position, 5nat,
    {
        let expression = self.parse_primary_expression();
        match expression {
            Some(lhs) => {
                if self.peek_binary_op().is_some() {
                    self.parse_binary_op(lhs, 0)
                } else {
                    Some(lhs)
                }
            },
            None => None,
        }
    }

    fn parse_primary_expression(&mut self) -> (r: Option<RecursiveExpression>)
        requires
            old(self).wf(),
        ensures
            old(self).reads(
                *final(self),
                r,
                grammar::parse_primary(old(self).tokens(), old(self).position as nat),
            ),
            r is Some ==> final(self).position > old(self).position,
        decreases old(self).program@.len() - old(self).position, 2nat,
    {
        match self.peek() {
            Some(token) => match token {
                Token::OpenCurly => self.parse_block(),
                Token::OpenParen => self.parse_parens_expression(),
                Token::Let => self.parse_assignment_expression(),
                Token::If => self.parse_if_expression(),
                Token::Pi => self.parse_const_expression(),
                Token::E => self.parse_const_expression(),
                Token::LiteralNum(_) => self.parse_literal_expression(),
                Token::Identifier(_) => self.parse_var_expression(),
                _ => {
                    if self.peek_func_0_op().is_some() {
                        self.parse_func_0()
                    } else if self.peek_func_1_op().is_some() {
                        self.parse_func_1()
                    } else {
                        None
                    }
                },
            },
            None => None,
        }
    }

    fn parse_var_expression(&mut self) -> (r: Option<RecursiveExpression>)
        requires
            old(self).wf(),
        ensures
            old(self).reads(
                *final(self),
                r,
                grammar::parse_var(old(self).tokens(), old(self).position as nat),
            ),
            r is Some ==> final(self).position > old(self).position,
        decreases old(self).program@.len() - old(self).position, 0nat,
    {
        match self.peek() {
            Some(token) => match token {
                Token::Identifier(ident) => {
                    let ident = ident.clone();
                    self.consume();
                    if self.try_consume(&Token::OpenParen) {
                        let mut args: Vec<RecursiveExpression> = Vec::new();
                        assert(exprs_view(args@) =~= Seq::<Expr>::empty());
                        self.parse_list(&Token::Comma, &mut args);
                        assert(exprs_view(args@) =~= grammar::parse_list(
                            old(self).tokens(),
                            (old(self).position + 2) as nat,
                            Tok::Comma,
                        ).0);
                        if !self.try_consume(&Token::CloseParen) {
                            return None;
                        }
                        Some(RecursiveExpression::FuncLocal(ident, args))
                    } else {
                        Some(RecursiveExpression::Local(ident))
                    }
                },
                _ => None,
            },
            None => None,
        }
    }

    /// Reads expressions separated by `sep` and appends them to `items`.
    fn parse_list(&mut self, sep: &Token, items: &mut Vec<RecursiveExpression>)
        requires
            old(self).wf(),
        ensures
            final(self).program == old(self).program,
            final(self).wf(),
            exprs_view(final(items)@) == exprs_view(old(items)@) + grammar::parse_list(
                old(self).tokens(),
                old(self).position as nat,
                sep@,
            ).0,
            final(self).position == old(self).position + grammar::parse_list(
                old(self).tokens(),
                old(self).position as nat,
                sep@,
            ).1,
        decreases old(self).program@.len() - old(self).position, 6nat,
    {
        let ghost tokens = self.tokens();
        let ghost start = self.position as nat;
        let ghost base = exprs_view(items@);
        assert(grammar::parse_list(tokens, start, sep@).0 =~= Seq::<Expr>::empty()
            + grammar::parse_list(tokens, start, sep@).0);
        assert(exprs_view(items@) + grammar::parse_list(tokens, start, sep@).0 =~= base
            + grammar::parse_list(tokens, start, sep@).0);
        loop
            invariant
                self.wf(),
                self.program == old(self).program,
                tokens == self.tokens(),
                tokens == old(self).tokens(),
                base == exprs_view(old(items)@),
                start == old(self).position,
                start <= self.position,
                exprs_view(items@) + grammar::parse_list(tokens, self.position as nat, sep@).0
                    == base + grammar::parse_list(tokens, start, sep@).0,
                (self.position - start) + grammar::parse_list(
                    tokens,
                    self.position as nat,
                    sep@,
                ).1 == grammar::parse_list(tokens, start, sep@).1,
            decreases self.program@.len() - self.position,
        {
            let ghost before = exprs_view(items@);
            let ghost here = self.position as nat;
            match self.parse_expression() {
                Some(expression) => {
                    let ghost x = expression@;
                    items.push(expression);
                    assert(exprs_view(items@) =~= before + seq![x]);
                    if !self.try_consume(sep) {
                        assert(grammar::parse_list(tokens, here, sep@).0 =~= seq![x]);
                        assert(exprs_view(items@) =~= base + grammar::parse_list(
                            tokens,
                            start,
                            sep@,
                        ).0);
                        return ;
                    }
                    assert(exprs_view(items@) + grammar::parse_list(
                        tokens,
                        self.position as nat,
                        sep@,
                    ).0 =~= before + grammar::parse_list(tokens, here, sep@).0);
                },
                None => {
                    assert(grammar::parse_list(tokens, here, sep@).0 =~= Seq::<Expr>::empty());
                    assert(exprs_view(items@) =~= base + grammar::parse_list(tokens, start, sep@).0);
                    return ;
                },
            }
        }
    }

    fn parse_parens_expression(&mut self) -> (r: Option<RecursiveExpression>)
        requires
            old(self).wf(),
        ensures
            old(self).reads(
                *final(self),
                r,
                grammar::parse_parens(old(self).tokens(), old(self).position as nat),
            ),
            r is Some ==> final(self).position > old(self).position,
        decreases old(self).program@.len() - old(self).position, 1nat,
    {
        let initial_position = self.position;
        match self.parse_func_expression() {
            Some(fn_expression) => {
                return Some(fn_expression);
            },
            None => {
                self.position = initial_position;
            },
        }
        if !self.try_consume(&Token::OpenParen) {
            return None;
        }
        let expression = match self.parse_expression() {
            Some(e) => e,
            None => {
                return None;
            },
        };
        if !self.try_consume(&Token::CloseParen) {
            return None;
        }
        Some(expression)
    }

    fn parse_block(&mut self) -> (r: Option<RecursiveExpression>)
        requires
            old(self).wf(),
        ensures
            old(self).reads(
                *final(self),
                r,
                grammar::parse_block(old(self).tokens(), old(self).position as nat),
            ),
            r is Some ==> final(self).position > old(self).position,
        decreases old(self).program@.len() - old(self).position, 0nat,
    {
        if !self.try_consume(&Token::OpenCurly) {
            return None;
        }
        if self.try_consume(&Token::CloseCurly) {
            let statements: Vec<RecursiveExpression> = Vec::new();
            assert(exprs_view(statements@) =~= Seq::<Expr>::empty());
            return Some(RecursiveExpression::Block(statements));
        }
        let expression = match self.parse_expression() {
            Some(e) => e,
            None => {
                return None;
            },
        };
        let ghost first = expression@;
        let mut statements: Vec<RecursiveExpression> = Vec::new();
        statements.push(expression);
        assert(exprs_view(statements@) =~= seq![first]);
        if self.try_consume(&Token::Semicolon) {
            self.parse_list(&Token::Semicolon, &mut statements);
        } else {
            assert(exprs_view(statements@) =~= seq![first] + Seq::<Expr>::empty());
        }
        if !self.try_consume(&Token::CloseCurly) {
            return None;
        }
        Some(RecursiveExpression::Block(statements))
    }

    /// Reads a closure literal. Where there is none, the position is left anywhere.
    fn parse_func_expression(&mut self) -> (r: Option<RecursiveExpression>)
        requires
            old(self).wf(),
        ensures
            final(self).program == old(self).program,
            final(self).wf(),
            option_view(r) == grammar::parse_func_expression(
                old(self).tokens(),
                old(self).position as nat,
            ).0,
            r is Some ==> final(self).position == old(self).position
                + grammar::parse_func_expression(
                old(self).tokens(),
                old(self).position as nat,
            ).1 && final(self).position > old(self).position,
        decreases old(self).program@.len() - old(self).position, 0nat,
    {
        if !self.try_consume(&Token::OpenParen) {
            return None;
        }
        let parameters = self.parse_func_params();
        if !self.try_consume(&Token::CloseParen) {
            return None;
        }
        if !self.try_consume(&Token::LeftArrow) {
            return None;
        }
        let body = match self.parse_expression() {
            Some(e) => e,
            None => {
                return None;
            },
        };
        Some(RecursiveExpression::FuncDeclaration(parameters, Box::new(body)))
    }

    fn parse_assignment_expression(&mut self) -> (r: Option<RecursiveExpression>)
        requires
            old(self).wf(),
        ensures
            old(self).reads(
                *final(self),
                r,
                grammar::parse_assignment(old(self).tokens(), old(self).position as nat),
            ),
            r is Some ==> final(self).position > old(self).position,
        decreases old(self).program@.len() - old(self).position, 0nat,
    {
        if !self.try_consume(&Token::Let) {
            return None;
        }
        let identifier = match self.peek() {
            Some(token) => match token {
                Token::Identifier(ident) => ident.clone(),
                _ => {
                    return None;
                },
            },
            None => {
                return None;
            },
        };
        self.consume();
        if !self.try_consume(&Token::Equals) {
            return None;
        }
        let expression = match self.parse_expression() {
            Some(e) => e,
            None => {
                return None;
            },
        };
        Some(RecursiveExpression::AssignOp(identifier, Box::new(expression)))
    }

    #[verifier::rlimit(40)]
    fn parse_if_expression(&mut self) -> (r: Option<RecursiveExpression>)
        requires
            old(self).wf(),
        ensures
            old(self).reads(
                *final(self),
                r,
                grammar::parse_if(old(self).tokens(), old(self).position as nat),
            ),
            r is Some ==> final(self).position > old(self).position,
        decreases old(self).program@.len() - old(self).position, 0nat,
    {
        if !self.try_consume(&Token::If) {
            return None;
        }
        if !self.try_consume(&Token::OpenParen) {
            return None;
        }
        let expression = match self.parse_expression() {
            Some(e) => e,
            None => {
                return None;
            },
        };
        if !self.try_consume(&Token::CloseParen) {
            return None;
        }
        let block = match self.parse_block() {
            Some(e) => e,
            None => {
                return None;
            },
        };
        if self.try_consume(&Token::Else) {
            let else_block = match self.parse_block() {
                Some(e) => e,
                None => {
                    return None;
                },
            };
            Some(
                RecursiveExpression::IfElse(
                    Box::new(expression),
                    Box::new(block),
                    Box::new(else_block),
                ),
            )
        } else {
            Some(RecursiveExpression::If(Box::new(expression), Box::new(block)))
        }
    }

    fn parse_func_1(&mut self) -> (r: Option<RecursiveExpression>)
        requires
            old(self).wf(),
        ensures
            old(self).reads(
                *final(self),
                r,
                grammar::parse_func_1(old(self).tokens(), old(self).position as nat),
            ),
            r is Some ==> final(self).position > old(self).position,
        decreases old(self).program@.len() - old(self).position, 0nat,
    {
        let func_op = match self.peek_func_1_op() {
            Some(op) => op,
            None => {
                return None;
            },
        };
        self.consume();
        if !self.try_consume(&Token::OpenParen) {
            return None;
        }
        let expression = match self.parse_expression() {
            Some(e) => e,
            None => {
                return None;
            },
        };
        if !self.try_consume(&Token::CloseParen) {
            return None;
        }
        Some(RecursiveExpression::Func1(func_op, Box::new(expression)))
    }

    /// Steps over the operator at the position, unless it is implied. Refuses a name after
    /// anything but a numeral.
    fn step_over_operator(&mut self, lhs: &RecursiveExpression) -> (r: bool)
        requires
            old(self).wf(),
            grammar::peek_binary_op(old(self).tokens(), old(self).position as nat) is Some,
        ensures
            final(self).program == old(self).program,
            final(self).wf(),
            match grammar::operator_width(old(self).tokens(), old(self).position as nat, lhs@) {
                Some(w) => r && final(self).position == old(self).position + w,
                None => !r && final(self).position == old(self).position,
            },
    {
        match self.peek() {
            Some(token) => match token {
                Token::OpenParen => true,
                Token::Identifier(_) => match lhs {
                    RecursiveExpression::Literal(_) => true,
                    _ => false,
                },
                _ => {
                    self.consume();
                    true
                },
            },
            None => true,
        }
    }

    fn parse_binary_op(&mut self, lhs: RecursiveExpression, min_precedence: usize) -> (r: Option<
        RecursiveExpression,
    >)
        requires
            old(self).wf(),
        ensures
            old(self).reads(
                *final(self),
                r,
                grammar::parse_binary_op(
                    old(self).tokens(),
                    old(self).position as nat,
                    lhs@,
                    min_precedence as nat,
                ),
            ),
            r is Some && grammar::peek_op_from(
                old(self).tokens(),
                old(self).position as nat,
                min_precedence as nat,
            ) is Some ==> final(self).position > old(self).position,
        decreases old(self).program@.len() - old(self).position, 3nat,
    {
        let ghost tokens = self.tokens();
        let ghost start = self.position as nat;
        let ghost first = lhs@;
        let ghost min = min_precedence as nat;
        let mut acc = lhs;
        loop
            invariant
                self.wf(),
                self.program == old(self).program,
                tokens == self.tokens(),
                tokens == old(self).tokens(),
                first == lhs@,
                start == old(self).position,
                min == min_precedence,
                start <= self.position,
                self.position == start ==> acc@ == first,
                grammar::parse_binary_op(tokens, self.position as nat, acc@, min).0
                    == grammar::parse_binary_op(tokens, start, first, min).0,
                (self.position - start) + grammar::parse_binary_op(
                    tokens,
                    self.position as nat,
                    acc@,
                    min,
                ).1 == grammar::parse_binary_op(tokens, start, first, min).1,
            decreases self.program@.len() - self.position,
        {
            let op = match self.peek_op_from(min_precedence) {
                Some(op) => op,
                None => {
                    return Some(acc);
                },
            };
            if !self.step_over_operator(&acc) {
                return None;
            }
            let rhs = match self.parse_primary_expression() {
                Some(e) => e,
                None => {
                    return None;
                },
            };
            let rhs = match self.parse_tighter(rhs, op) {
                Some(e) => e,
                None => {
                    return None;
                },
            };
            acc = RecursiveExpression::BinaryOp(Box::new(acc), op, Box::new(rhs));
        }
    }

    /// Continues the operand `rhs` of `op` by the operations that bind tighter than `op`.
    fn parse_tighter(&mut self, rhs: RecursiveExpression, op: BinaryOp) -> (r: Option<
        RecursiveExpression,
    >)
        requires
            old(self).wf(),
        ensures
            old(self).reads(
                *final(self),
                r,
                grammar::parse_tighter(old(self).tokens(), old(self).position as nat, rhs@, op),
            ),
        decreases old(self).program@.len() - old(self).position, 4nat,
    {
        let ghost tokens = self.tokens();
        let ghost start = self.position as nat;
        let ghost first = rhs@;
        let mut acc = rhs;
        loop
            invariant
                self.wf(),
                self.program == old(self).program,
                tokens == self.tokens(),
                tokens == old(self).tokens(),
                first == rhs@,
                start == old(self).position,
                start <= self.position,
                grammar::parse_tighter(tokens, self.position as nat, acc@, op).0
                    == grammar::parse_tighter(tokens, start, first, op).0,
                (self.position - start) + grammar::parse_tighter(
                    tokens,
                    self.position as nat,
                    acc@,
                    op,
                ).1 == grammar::parse_tighter(tokens, start, first, op).1,
            decreases self.program@.len() - self.position,
        {
            if self.peek_op_from(op.precedence() + 1).is_none() {
                return Some(acc);
            }
            acc = match self.parse_binary_op(acc, op.precedence() + 1) {
                Some(e) => e,
                None => {
                    return None;
                },
            };
        }
    }
}

} // verus!
