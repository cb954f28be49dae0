//! The expression tree, and the compiler that reads it from tokens and lowers it to
//! bytecode.

use vstd::prelude::*;
use crate::lexer::Tok;
use crate::lexer::Token;
use crate::lexer::tokens_view;
use crate::lexer::describe_tokens;
use crate::number::Numeral;
use crate::vm::Instr;
use crate::vm::Instruction;
use crate::vm::code_view;
use vstd::string::StringExecFns;

pub mod grammar;
pub mod legible;
pub mod lowering;
pub mod parsing;

verus! {

/// A binary operator.
#[derive(Debug, Clone, Copy, PartialEq, Eq)]
pub enum BinaryOp {
    Add,
    Sub,
    Div,
    Mul,
    Mod,
    Pow,
    EQ,
    NEQ,
    LT,
    LTE,
    GT,
    GTE,
}

impl BinaryOp {
    /// The operator's precedence class: comparisons 0, additive 1, multiplicative 2,
    /// exponent and modulo 3.
    pub open spec fn spec_precedence(self) -> nat {
        match self {
            BinaryOp::Pow | BinaryOp::Mod => 3,
            BinaryOp::Mul | BinaryOp::Div => 2,
            BinaryOp::Add | BinaryOp::Sub => 1,
            BinaryOp::EQ | BinaryOp::NEQ | BinaryOp::LT | BinaryOp::LTE | BinaryOp::GT
            | BinaryOp::GTE => 0,
        }
    }

    /// The precedence class of the operator.
    pub fn precedence(&self) -> (r: usize)
        ensures
            r == self.spec_precedence(),
            r <= 3,
    {
        match self {
            BinaryOp::Pow | BinaryOp::Mod => 3,
            BinaryOp::Mul | BinaryOp::Div => 2,
            BinaryOp::Add | BinaryOp::Sub => 1,
            BinaryOp::EQ | BinaryOp::NEQ | BinaryOp::LT | BinaryOp::LTE | BinaryOp::GT
            | BinaryOp::GTE => 0,
        }
    }
}

/// A built-in function without arguments.
#[derive(Debug, Clone, Copy, PartialEq, Eq)]
pub enum Func0Op {
    Rand,
}

/// A built-in function of one argument.
#[derive(Debug, Clone, Copy, PartialEq, Eq)]
pub enum Func1Op {
    Sin,
    Cos,
    Sqrt,
    Log,
    Round,
    Floor,
}

/// An expression. Every node owns its children.
#[derive(Debug, PartialEq)]
pub enum RecursiveExpression {
    /// A scoped sequence of statements; its value is that of the last one.
    Block(Vec<RecursiveExpression>),
    Literal(Numeral),
    Local(String),
    /// A closure literal: parameter names and body.
    FuncDeclaration(Vec<String>, Box<RecursiveExpression>),
    If(Box<RecursiveExpression>, Box<RecursiveExpression>),
    IfElse(Box<RecursiveExpression>, Box<RecursiveExpression>, Box<RecursiveExpression>),
    /// Binds the identifier to the value.
    AssignOp(String, Box<RecursiveExpression>),
    BinaryOp(Box<RecursiveExpression>, BinaryOp, Box<RecursiveExpression>),
    Func0(Func0Op),
    Func1(Func1Op, Box<RecursiveExpression>),
    /// A call of a user closure by name.
    FuncLocal(String, Vec<RecursiveExpression>),
}

/// The mathematical value of an expression tree: strings are character sequences,
/// vectors are sequences.
pub ghost enum Expr {
    Block(Seq<Expr>),
    Literal(Seq<char>),
    Local(Seq<char>),
    FuncDeclaration(Seq<Seq<char>>, Box<Expr>),
    If(Box<Expr>, Box<Expr>),
    IfElse(Box<Expr>, Box<Expr>, Box<Expr>),
    AssignOp(Seq<char>, Box<Expr>),
    BinaryOp(Box<Expr>, BinaryOp, Box<Expr>),
    Func0(Func0Op),
    Func1(Func1Op, Box<Expr>),
    FuncLocal(Seq<char>, Seq<Expr>),
}

/// The character sequences of a list of strings.
pub open spec fn names_view(names: Seq<String>) -> Seq<Seq<char>> {
    Seq::new(names.len(), |i: int| names[i]@)
}

/// The values of a list of expression trees.
pub open spec fn exprs_view(items: Seq<RecursiveExpression>) -> Seq<Expr>
    decreases items,
{
    Seq::new(
        items.len(),
        |i: int|
            if 0 <= i < items.len() {
                expr_view(items[i])
            } else {
                Expr::Block(Seq::empty())
            },
    )
}

/// The value of an expression tree.
pub open spec fn expr_view(e: RecursiveExpression) -> Expr
    decreases e,
{
    match e {
        RecursiveExpression::Block(items) => Expr::Block(exprs_view(items@)),
        RecursiveExpression::Literal(x) => Expr::Literal(x@),
        RecursiveExpression::Local(name) => Expr::Local(name@),
        RecursiveExpression::FuncDeclaration(params, body) => Expr::FuncDeclaration(
            names_view(params@),
            Box::new(expr_view(*body)),
        ),
        RecursiveExpression::If(c, b) => Expr::If(Box::new(expr_view(*c)), Box::new(expr_view(*b))),
        RecursiveExpression::IfElse(c, a, b) => Expr::IfElse(
            Box::new(expr_view(*c)),
            Box::new(expr_view(*a)),
            Box::new(expr_view(*b)),
        ),
        RecursiveExpression::AssignOp(name, v) => Expr::AssignOp(name@, Box::new(expr_view(*v))),
        RecursiveExpression::BinaryOp(l, op, r) => Expr::BinaryOp(
            Box::new(expr_view(*l)),
            op,
            Box::new(expr_view(*r)),
        ),
        RecursiveExpression::Func0(op) => Expr::Func0(op),
        RecursiveExpression::Func1(op, v) => Expr::Func1(op, Box::new(expr_view(*v))),
        RecursiveExpression::FuncLocal(name, args) => Expr::FuncLocal(name@, exprs_view(args@)),
    }
}

impl View for RecursiveExpression {
    type V = Expr;

    open spec fn view(&self) -> Expr {
        expr_view(*self)
    }
}

/// The value of an expression tree that may be missing.
pub open spec fn option_view(r: Option<RecursiveExpression>) -> Option<Expr> {
    match r {
        Some(e) => Some(e@),
        None => None,
    }
}

/// Reads expressions from a token sequence, and remembers how far it has read.
pub struct Compiler<'a> {
    pub(crate) position: usize,
    pub(crate) program: &'a [Token],
}

impl<'a> Compiler<'a> {
    /// The tokens that are read.
    pub closed spec fn tokens(&self) -> Seq<Tok> {
        tokens_view(self.program@)
    }

    /// The number of tokens read so far.
    pub closed spec fn position(&self) -> nat {
        self.position as nat
    }

    /// A reader at the first of the tokens.
    pub fn new(program: &'a [Token]) -> (r: Self)
        ensures
            r.tokens() == tokens_view(program@),
            r.position() == 0,
    {
        Self { position: 0, program }
    }

    /// Goes back to the first token and says how far reading had come.
    fn reset(&mut self) -> (r: usize)
        ensures
            r == old(self).position,
            final(self).position == 0,
            final(self).program == old(self).program,
    {
        let last_pos = self.position;
        self.position = 0;
        last_pos
    }

    /// Reads the tokens as one program and lowers it to bytecode.
    pub fn compile(&mut self) -> (r: Result<Vec<Instruction>, String>)
        ensures
            final(self).tokens() == old(self).tokens(),
            final(self).position() == 0,
            compiled(r) == translate(old(self).tokens()),
    {
        match self.compile_expression_tree() {
            Ok(program_expression) => Ok(lowering::lower(&program_expression)),
            Err(msg) => Err(msg),
        }
    }

    /// Reads the tokens as one program.
    pub fn compile_expression_tree(&mut self) -> (r: Result<RecursiveExpression, String>)
        ensures
            final(self).tokens() == old(self).tokens(),
            final(self).position() == 0,
            parsed(r) == grammar::parse_program(old(self).tokens()),
    {
        self.position = 0;
        let program_expression = self.parse_expression();
        let last_pos = self.reset();
        if last_pos != self.program.len() {
            let mut err_msg = if program_expression.is_some() {
                String::from_str("failed to compile remaining tokens: ")
            } else {
                String::from_str("failed to parse expression, unexpected token sequence: ")
            };
            describe_tokens(self.program, last_pos, &mut err_msg);
            return Err(err_msg);
        }
        match program_expression {
            Some(e) => Ok(e),
            None => Err(String::from_str("invalid program expression.")),
        }
    }
}

/// The value of what reading a program gives: an expression or a message.
pub open spec fn parsed(r: Result<RecursiveExpression, String>) -> Result<Expr, Seq<char>> {
    match r {
        Ok(e) => Ok(e@),
        Err(msg) => Err(msg@),
    }
}

/// The value of what compiling gives: bytecode or a message.
pub open spec fn compiled(r: Result<Vec<Instruction>, String>) -> Result<Seq<Instr>, Seq<char>> {
    match r {
        Ok(code) => Ok(code_view(code@)),
        Err(msg) => Err(msg@),
    }
}

/// The bytecode of the program that the tokens make.
pub open spec fn translate(tokens: Seq<Tok>) -> Result<Seq<Instr>, Seq<char>> {
    match grammar::parse_program(tokens) {
        Ok(e) => Ok(lowering::bytecode(e)),
        Err(msg) => Err(msg),
    }
}

} // verus!
