//! The grammar, as functions from a token sequence and a position to the expression that
//! starts there and the number of tokens that reading it takes.
//!
//! Reading may fail after it has taken tokens; the count says how far it got, because what
//! follows a failure (the end of a block, the error message) depends on it.

use vstd::prelude::*;
use crate::compiler::BinaryOp;
use crate::compiler::Expr;
use crate::compiler::Func0Op;
use crate::compiler::Func1Op;
use crate::lexer::Tok;
use crate::lexer::tokens_text;

verus! {

/// The token at a position, if there is one.
pub open spec fn peek(tokens: Seq<Tok>, pos: nat) -> Option<Tok> {
    if pos < tokens.len() {
        Some(tokens[pos as int])
    } else {
        None
    }
}

/// Whether the token at a position is `tok`.
pub open spec fn at(tokens: Seq<Tok>, pos: nat, tok: Tok) -> bool {
    peek(tokens, pos) == Some(tok)
}

/// The binary operator that a token stands for. An opening parenthesis or a name where an
/// operator is expected stands for a multiplication.
pub open spec fn binary_op_of(tok: Tok) -> Option<BinaryOp> {
    match tok {
        Tok::Plus => Some(BinaryOp::Add),
        Tok::Sub => Some(BinaryOp::Sub),
        Tok::Mul => Some(BinaryOp::Mul),
        Tok::Div => Some(BinaryOp::Div),
        Tok::Mod => Some(BinaryOp::Mod),
        Tok::Pow => Some(BinaryOp::Pow),
        Tok::Eq => Some(BinaryOp::EQ),
        Tok::NotEq => Some(BinaryOp::NEQ),
        Tok::LessThan => Some(BinaryOp::LT),
        Tok::LessThanEquals => Some(BinaryOp::LTE),
        Tok::GreaterThan => Some(BinaryOp::GT),
        Tok::GreaterThanEquals => Some(BinaryOp::GTE),
        Tok::OpenParen => Some(BinaryOp::Mul),
        Tok::Identifier(_) => Some(BinaryOp::Mul),
        _ => None,
    }
}

/// The binary operator at a position.
pub open spec fn peek_binary_op(tokens: Seq<Tok>, pos: nat) -> Option<BinaryOp> {
    match peek(tokens, pos) {
        Some(tok) => binary_op_of(tok),
        None => None,
    }
}

/// The operator at a position, if its precedence is at least `min`.
pub open spec fn peek_op_from(tokens: Seq<Tok>, pos: nat, min: nat) -> Option<BinaryOp> {
    match peek_binary_op(tokens, pos) {
        Some(op) => if op.spec_precedence() >= min {
            Some(op)
        } else {
            None
        },
        None => None,
    }
}

/// The built-in function of one argument that a token names.
pub open spec fn func1_of(tok: Tok) -> Option<Func1Op> {
    match tok {
        Tok::Sine => Some(Func1Op::Sin),
        Tok::Cosine => Some(Func1Op::Cos),
        Tok::Sqrt => Some(Func1Op::Sqrt),
        Tok::Log => Some(Func1Op::Log),
        Tok::Round => Some(Func1Op::Round),
        Tok::Floor => Some(Func1Op::Floor),
        _ => None,
    }
}

/// The numeral of a named constant.
pub open spec fn constant_of(tok: Tok) -> Option<Seq<char>> {
    match tok {
        Tok::Pi => Some("3.141592653589793"@),
        Tok::E => Some("2.718281828459045"@),
        _ => None,
    }
}

/// Parameter names separated by commas; a comma may follow the last.
pub open spec fn parse_params(tokens: Seq<Tok>, pos: nat) -> (Seq<Seq<char>>, nat)
    decreases tokens.len() - pos,
{
    match peek(tokens, pos) {
        Some(Tok::Identifier(name)) => {
            if at(tokens, pos + 1, Tok::Comma) {
                let (rest, d) = parse_params(tokens, pos + 2);
                (seq![name] + rest, 2 + d)
            } else {
                (seq![name], 1)
            }
        },
        _ => (Seq::empty(), 0),
    }
}

/// An expression: a primary expression, and the binary operations that continue it.
pub open spec fn parse_expression(tokens: Seq<Tok>, pos: nat) -> (Option<Expr>, nat)
    decreases tokens.len() - pos, 5nat,
{
    let (e, d) = parse_primary(tokens, pos);
    match e {
        Some(lhs) => if peek_binary_op(tokens, pos + d) is Some {
            let (r, d2) = parse_binary_op(tokens, pos + d, lhs, 0);
            (r, d + d2)
        } else {
            (e, d)
        },
        None => (e, d),
    }
}

/// A primary expression, chosen by its first token.
pub open spec fn parse_primary(tokens: Seq<Tok>, pos: nat) -> (Option<Expr>, nat)
    decreases tokens.len() - pos, 2nat,
{
    match peek(tokens, pos) {
        Some(Tok::OpenCurly) => parse_block(tokens, pos),
        Some(Tok::OpenParen) => parse_parens(tokens, pos),
        Some(Tok::Let) => parse_assignment(tokens, pos),
        Some(Tok::If) => parse_if(tokens, pos),
        Some(Tok::Pi) => (Some(Expr::Literal(constant_of(Tok::Pi)->0)), 1),
        Some(Tok::E) => (Some(Expr::Literal(constant_of(Tok::E)->0)), 1),
        Some(Tok::LiteralNum(x)) => (Some(Expr::Literal(x)), 1),
        Some(Tok::Identifier(name)) => parse_var(tokens, pos),
        Some(Tok::Rand) => parse_func_0(tokens, pos),
        Some(tok) => if func1_of(tok) is Some {
            parse_func_1(tokens, pos)
        } else {
            (None, 0)
        },
        None => (None, 0),
    }
}

/// `rand ( )`.
pub open spec fn parse_func_0(tokens: Seq<Tok>, pos: nat) -> (Option<Expr>, nat) {
    if !at(tokens, pos, Tok::Rand) {
        (None, 0)
    } else if !at(tokens, pos + 1, Tok::OpenParen) {
        (None, 1)
    } else if !at(tokens, pos + 2, Tok::CloseParen) {
        (None, 2)
    } else {
        (Some(Expr::Func0(Func0Op::Rand)), 3)
    }
}

/// A built-in function, `(`, its argument, `)`.
pub open spec fn parse_func_1(tokens: Seq<Tok>, pos: nat) -> (Option<Expr>, nat)
    decreases tokens.len() - pos, 0nat,
{
    match peek(tokens, pos) {
        Some(tok) => match func1_of(tok) {
            Some(op) => {
                if !at(tokens, pos + 1, Tok::OpenParen) {
                    (None, 1)
                } else {
                    let (e, d) = parse_expression(tokens, pos + 2);
                    match e {
                        Some(value) => if at(tokens, pos + 2 + d, Tok::CloseParen) {
                            (Some(Expr::Func1(op, Box::new(value))), 3 + d)
                        } else {
                            (None, 2 + d)
                        },
                        None => (None, 2 + d),
                    }
                }
            },
            None => (None, 0),
        },
        None => (None, 0),
    }
}

/// A name, or a name with a parenthesised argument list: a call.
pub open spec fn parse_var(tokens: Seq<Tok>, pos: nat) -> (Option<Expr>, nat)
    decreases tokens.len() - pos, 0nat,
{
    match peek(tokens, pos) {
        Some(Tok::Identifier(name)) => {
            if at(tokens, pos + 1, Tok::OpenParen) {
                let (args, d) = parse_list(tokens, pos + 2, Tok::Comma);
                if at(tokens, pos + 2 + d, Tok::CloseParen) {
                    (Some(Expr::FuncLocal(name, args)), 3 + d)
                } else {
                    (None, 2 + d)
                }
            } else {
                (Some(Expr::Local(name)), 1)
            }
        },
        _ => (None, 0),
    }
}

/// Expressions separated by `sep`, up to the first that cannot be read. A separator may
/// follow the last. The count includes what the expression that could not be read took.
pub open spec fn parse_list(tokens: Seq<Tok>, pos: nat, sep: Tok) -> (Seq<Expr>, nat)
    decreases tokens.len() - pos, 6nat,
{
    let (e, d) = parse_expression(tokens, pos);
    match e {
        Some(x) => if at(tokens, pos + d, sep) {
            let (rest, d2) = parse_list(tokens, pos + d + 1, sep);
            (seq![x] + rest, d + 1 + d2)
        } else {
            (seq![x], d)
        },
        None => (Seq::empty(), d),
    }
}

/// A closure literal if one can be read, else a parenthesised expression, which stands for
/// the expression itself.
pub open spec fn parse_parens(tokens: Seq<Tok>, pos: nat) -> (Option<Expr>, nat)
    decreases tokens.len() - pos, 1nat,
{
    let (f, df) = parse_func_expression(tokens, pos);
    if f is Some {
        (f, df)
    } else if !at(tokens, pos, Tok::OpenParen) {
        (None, 0)
    } else {
        let (e, d) = parse_expression(tokens, pos + 1);
        match e {
            Some(x) => if at(tokens, pos + 1 + d, Tok::CloseParen) {
                (Some(x), 2 + d)
            } else {
                (None, 1 + d)
            },
            None => (None, 1 + d),
        }
    }
}

/// `{ }`, or statements between braces.
pub open spec fn parse_block(tokens: Seq<Tok>, pos: nat) -> (Option<Expr>, nat)
    decreases tokens.len() - pos, 0nat,
{
    if !at(tokens, pos, Tok::OpenCurly) {
        (None, 0)
    } else if at(tokens, pos + 1, Tok::CloseCurly) {
        (Some(Expr::Block(Seq::empty())), 2)
    } else {
        let (e, d) = parse_expression(tokens, pos + 1);
        match e {
            Some(first) => {
                let (more, d2) = if at(tokens, pos + 1 + d, Tok::Semicolon) {
                    let (rest, dr) = parse_list(tokens, pos + 2 + d, Tok::Semicolon);
                    (rest, 1 + dr)
                } else {
                    (Seq::empty(), 0)
                };
                if at(tokens, pos + 1 + d + d2, Tok::CloseCurly) {
                    (Some(Expr::Block(seq![first] + more)), 2 + d + d2)
                } else {
                    (None, 1 + d + d2)
                }
            },
            None => (None, 1 + d),
        }
    }
}

/// `(`, parameters, `)`, the arrow, and the body. A failure takes nothing: the caller reads
/// the parenthesis again.
pub open spec fn parse_func_expression(tokens: Seq<Tok>, pos: nat) -> (Option<Expr>, nat)
    decreases tokens.len() - pos, 0nat,
{
    if !at(tokens, pos, Tok::OpenParen) {
        (None, 0)
    } else {
        let (params, d) = parse_params(tokens, pos + 1);
        if at(tokens, pos + 1 + d, Tok::CloseParen) && at(tokens, pos + 2 + d, Tok::LeftArrow) {
            let (body, d2) = parse_expression(tokens, pos + 3 + d);
            match body {
                Some(b) => (Some(Expr::FuncDeclaration(params, Box::new(b))), 3 + d + d2),
                None => (None, 0),
            }
        } else {
            (None, 0)
        }
    }
}

/// `let`, a name, `=`, and the value.
pub open spec fn parse_assignment(tokens: Seq<Tok>, pos: nat) -> (Option<Expr>, nat)
    decreases tokens.len() - pos, 0nat,
{
    if !at(tokens, pos, Tok::Let) {
        (None, 0)
    } else {
        match peek(tokens, pos + 1) {
            Some(Tok::Identifier(name)) => {
                if at(tokens, pos + 2, Tok::Equals) {
                    let (e, d) = parse_expression(tokens, pos + 3);
                    match e {
                        Some(value) => (Some(Expr::AssignOp(name, Box::new(value))), 3 + d),
                        None => (None, 3 + d),
                    }
                } else {
                    (None, 2)
                }
            },
            _ => (None, 1),
        }
    }
}

/// `if`, a parenthesised condition, a block, and optionally `else` and a block.
pub open spec fn parse_if(tokens: Seq<Tok>, pos: nat) -> (Option<Expr>, nat)
    decreases tokens.len() - pos, 0nat,
{
    if !at(tokens, pos, Tok::If) {
        (None, 0)
    } else if !at(tokens, pos + 1, Tok::OpenParen) {
        (None, 1)
    } else {
        let (c, d) = parse_expression(tokens, pos + 2);
        match c {
            Some(condition) => {
                if !at(tokens, pos + 2 + d, Tok::CloseParen) {
                    (None, 2 + d)
                } else {
                    let (b, d2) = parse_block(tokens, pos + 3 + d);
                    match b {
                        Some(block) => {
                            if at(tokens, pos + 3 + d + d2, Tok::Else) {
                                let (eb, d3) = parse_block(tokens, pos + 4 + d + d2);
                                match eb {
                                    Some(else_block) => (
                                        Some(
                                            Expr::IfElse(
                                                Box::new(condition),
                                                Box::new(block),
                                                Box::new(else_block),
                                            ),
                                        ),
                                        4 + d + d2 + d3,
                                    ),
                                    None => (None, 4 + d + d2 + d3),
                                }
                            } else {
                                (Some(Expr::If(Box::new(condition), Box::new(block))), 3 + d + d2)
                            }
                        },
                        None => (None, 3 + d + d2),
                    }
                }
            },
            None => (None, 2 + d),
        }
    }
}

/// Reading from `pos` took `d` tokens, at least one, and none beyond the end. This holds of
/// every expression that is read; the definitions below test it where they go on reading
/// behind one, which shows that they end.
pub open spec fn advanced(tokens: Seq<Tok>, pos: nat, d: nat) -> bool {
    d > 0 && pos + d <= tokens.len()
}

/// How many tokens the operator at `pos` itself takes: none where it is implied, that is
/// before an opening parenthesis and between a numeral and a name. A name after anything
/// but a numeral cannot be read (`None`).
pub open spec fn operator_width(tokens: Seq<Tok>, pos: nat, lhs: Expr) -> Option<nat> {
    match peek(tokens, pos) {
        Some(Tok::OpenParen) => Some(0),
        Some(Tok::Identifier(_)) => if lhs is Literal {
            Some(0)
        } else {
            None
        },
        _ => Some(1),
    }
}

/// The binary operations that continue `lhs` with operators of at least precedence `min`,
/// folded to the left. An operand takes with it the operations of higher precedence that
/// follow it.
pub open spec fn parse_binary_op(tokens: Seq<Tok>, pos: nat, lhs: Expr, min: nat) -> (
    Option<Expr>,
    nat,
)
    decreases tokens.len() - pos, 3nat,
{
    match peek_op_from(tokens, pos, min) {
        Some(op) => match operator_width(tokens, pos, lhs) {
            Some(w) => {
                let (operand, d) = parse_primary(tokens, pos + w);
                match operand {
                    Some(rhs) => if !advanced(tokens, pos, w + d) {
                        (None, 0)
                    } else {
                        let (climbed, d2) = parse_tighter(tokens, pos + w + d, rhs, op);
                        match climbed {
                            Some(rhs) => if !advanced(tokens, pos, w + d + d2) {
                                (None, 0)
                            } else {
                                let (r, d3) = parse_binary_op(
                                    tokens,
                                    pos + w + d + d2,
                                    Expr::BinaryOp(Box::new(lhs), op, Box::new(rhs)),
                                    min,
                                );
                                (r, w + d + d2 + d3)
                            },
                            None => (None, w + d + d2),
                        }
                    },
                    None => (None, w + d),
                }
            },
            None => (None, 0),
        },
        None => (Some(lhs), 0),
    }
}

/// The operand `rhs` of `op`, continued by the operations that bind tighter than `op`.
pub open spec fn parse_tighter(tokens: Seq<Tok>, pos: nat, rhs: Expr, op: BinaryOp) -> (
    Option<Expr>,
    nat,
)
    decreases tokens.len() - pos, 4nat,
{
    if peek_op_from(tokens, pos, op.spec_precedence() + 1) is Some {
        let (r, d) = parse_binary_op(tokens, pos, rhs, op.spec_precedence() + 1);
        match r {
            Some(next) => if !advanced(tokens, pos, d) {
                (None, 0)
            } else {
                let (r2, d2) = parse_tighter(tokens, pos + d, next, op);
                (r2, d + d2)
            },
            None => (None, d),
        }
    } else {
        (Some(rhs), 0)
    }
}

/// What holds of everything that is read from a position within the tokens: it ends
/// within the tokens, and an expression that was read took at least one token.
pub open spec fn progress(tokens: Seq<Tok>, pos: nat, r: (Option<Expr>, nat)) -> bool {
    pos + r.1 <= tokens.len() && (r.0 is Some ==> r.1 > 0)
}

/// Parameters end within the tokens.
pub proof fn lemma_params_progress(tokens: Seq<Tok>, pos: nat)
    requires
        pos <= tokens.len(),
    ensures
        pos + parse_params(tokens, pos).1 <= tokens.len(),
    decreases tokens.len() - pos,
{
    match peek(tokens, pos) {
        Some(Tok::Identifier(name)) => {
            if at(tokens, pos + 1, Tok::Comma) {
                lemma_params_progress(tokens, pos + 2);
            }
        },
        _ => {},
    }
}

/// Reading an expression makes progress. The tests on `advanced` in the grammar therefore
/// never fail.
pub proof fn lemma_expression_progress(tokens: Seq<Tok>, pos: nat)
    requires
        pos <= tokens.len(),
    ensures
        progress(tokens, pos, parse_expression(tokens, pos)),
    decreases tokens.len() - pos, 5nat,
{
    lemma_primary_progress(tokens, pos);
    let (e, d) = parse_primary(tokens, pos);
    if e is Some && peek_binary_op(tokens, pos + d) is Some {
        lemma_binary_op_progress(tokens, pos + d, e->0, 0);
    }
}

/// Reading a primary expression makes progress.
pub proof fn lemma_primary_progress(tokens: Seq<Tok>, pos: nat)
    requires
        pos <= tokens.len(),
    ensures
        progress(tokens, pos, parse_primary(tokens, pos)),
    decreases tokens.len() - pos, 2nat,
{
    match peek(tokens, pos) {
        Some(Tok::OpenCurly) => lemma_block_progress(tokens, pos),
        Some(Tok::OpenParen) => lemma_parens_progress(tokens, pos),
        Some(Tok::Let) => lemma_assignment_progress(tokens, pos),
        Some(Tok::If) => lemma_if_progress(tokens, pos),
        Some(Tok::Identifier(name)) => lemma_var_progress(tokens, pos),
        Some(tok) => {
            if func1_of(tok) is Some {
                lemma_func_1_progress(tokens, pos);
            }
        },
        None => {},
    }
}

proof fn lemma_func_1_progress(tokens: Seq<Tok>, pos: nat)
    requires
        pos <= tokens.len(),
    ensures
        progress(tokens, pos, parse_func_1(tokens, pos)),
    decreases tokens.len() - pos, 0nat,
{
    if pos < tokens.len() && func1_of(tokens[pos as int]) is Some && at(
        tokens,
        pos + 1,
        Tok::OpenParen,
    ) {
        lemma_expression_progress(tokens, pos + 2);
    }
}

proof fn lemma_var_progress(tokens: Seq<Tok>, pos: nat)
    requires
        pos <= tokens.len(),
    ensures
        progress(tokens, pos, parse_var(tokens, pos)),
    decreases tokens.len() - pos, 0nat,
{
    match peek(tokens, pos) {
        Some(Tok::Identifier(name)) => {
            if at(tokens, pos + 1, Tok::OpenParen) {
                lemma_list_progress(tokens, pos + 2, Tok::Comma);
            }
        },
        _ => {},
    }
}

/// A list ends within the tokens.
pub proof fn lemma_list_progress(tokens: Seq<Tok>, pos: nat, sep: Tok)
    requires
        pos <= tokens.len(),
    ensures
        pos + parse_list(tokens, pos, sep).1 <= tokens.len(),
    decreases tokens.len() - pos, 6nat,
{
    lemma_expression_progress(tokens, pos);
    let (e, d) = parse_expression(tokens, pos);
    if e is Some && at(tokens, pos + d, sep) {
        lemma_list_progress(tokens, pos + d + 1, sep);
    }
}

proof fn lemma_parens_progress(tokens: Seq<Tok>, pos: nat)
    requires
        pos <= tokens.len(),
    ensures
        progress(tokens, pos, parse_parens(tokens, pos)),
    decreases tokens.len() - pos, 1nat,
{
    lemma_func_expression_progress(tokens, pos);
    if parse_func_expression(tokens, pos).0 is None && at(tokens, pos, Tok::OpenParen) {
        lemma_expression_progress(tokens, pos + 1);
    }
}

proof fn lemma_block_progress(tokens: Seq<Tok>, pos: nat)
    requires
        pos <= tokens.len(),
    ensures
        progress(tokens, pos, parse_block(tokens, pos)),
    decreases tokens.len() - pos, 0nat,
{
    if at(tokens, pos, Tok::OpenCurly) && !at(tokens, pos + 1, Tok::CloseCurly) {
        lemma_expression_progress(tokens, pos + 1);
        let (e, d) = parse_expression(tokens, pos + 1);
        if e is Some && at(tokens, pos + 1 + d, Tok::Semicolon) {
            lemma_list_progress(tokens, pos + 2 + d, Tok::Semicolon);
        }
    }
}

proof fn lemma_func_expression_progress(tokens: Seq<Tok>, pos: nat)
    requires
        pos <= tokens.len(),
    ensures
        progress(tokens, pos, parse_func_expression(tokens, pos)),
    decreases tokens.len() - pos, 0nat,
{
    if at(tokens, pos, Tok::OpenParen) {
        lemma_params_progress(tokens, pos + 1);
        let (params, d) = parse_params(tokens, pos + 1);
        if at(tokens, pos + 1 + d, Tok::CloseParen) && at(tokens, pos + 2 + d, Tok::LeftArrow) {
            lemma_expression_progress(tokens, pos + 3 + d);
        }
    }
}

proof fn lemma_assignment_progress(tokens: Seq<Tok>, pos: nat)
    requires
        pos <= tokens.len(),
    ensures
        progress(tokens, pos, parse_assignment(tokens, pos)),
    decreases tokens.len() - pos, 0nat,
{
    if at(tokens, pos, Tok::Let) {
        match peek(tokens, pos + 1) {
            Some(Tok::Identifier(name)) => {
                if at(tokens, pos + 2, Tok::Equals) {
                    lemma_expression_progress(tokens, pos + 3);
                }
            },
            _ => {},
        }
    }
}

proof fn lemma_if_progress(tokens: Seq<Tok>, pos: nat)
    requires
        pos <= tokens.len(),
    ensures
        progress(tokens, pos, parse_if(tokens, pos)),
    decreases tokens.len() - pos, 0nat,
{
    if at(tokens, pos, Tok::If) && at(tokens, pos + 1, Tok::OpenParen) {
        lemma_expression_progress(tokens, pos + 2);
        let (c, d) = parse_expression(tokens, pos + 2);
        if c is Some && at(tokens, pos + 2 + d, Tok::CloseParen) {
            lemma_block_progress(tokens, pos + 3 + d);
            let (b, d2) = parse_block(tokens, pos + 3 + d);
            if b is Some && at(tokens, pos + 3 + d + d2, Tok::Else) {
                lemma_block_progress(tokens, pos + 4 + d + d2);
            }
        }
    }
}

/// Reading binary operations ends within the tokens, and takes tokens where there is an
/// operator to begin with.
pub proof fn lemma_binary_op_progress(tokens: Seq<Tok>, pos: nat, lhs: Expr, min: nat)
    requires
        pos <= tokens.len(),
    ensures
        pos + parse_binary_op(tokens, pos, lhs, min).1 <= tokens.len(),
        parse_binary_op(tokens, pos, lhs, min).0 is Some && peek_op_from(tokens, pos, min) is Some
            ==> parse_binary_op(tokens, pos, lhs, min).1 > 0,
    decreases tokens.len() - pos, 3nat,
{
    match peek_op_from(tokens, pos, min) {
        Some(op) => match operator_width(tokens, pos, lhs) {
            Some(w) => {
                lemma_primary_progress(tokens, pos + w);
                let (operand, d) = parse_primary(tokens, pos + w);
                if operand is Some {
                    lemma_tighter_progress(tokens, pos + w + d, operand->0, op);
                    let (climbed, d2) = parse_tighter(tokens, pos + w + d, operand->0, op);
                    if climbed is Some {
                        lemma_binary_op_progress(
                            tokens,
                            pos + w + d + d2,
                            Expr::BinaryOp(Box::new(lhs), op, Box::new(climbed->0)),
                            min,
                        );
                    }
                }
            },
            None => {},
        },
        None => {},
    }
}

/// Reading the tighter operations behind an operand ends within the tokens.
pub proof fn lemma_tighter_progress(tokens: Seq<Tok>, pos: nat, rhs: Expr, op: BinaryOp)
    requires
        pos <= tokens.len(),
    ensures
        pos + parse_tighter(tokens, pos, rhs, op).1 <= tokens.len(),
    decreases tokens.len() - pos, 4nat,
{
    if peek_op_from(tokens, pos, op.spec_precedence() + 1) is Some {
        lemma_binary_op_progress(tokens, pos, rhs, op.spec_precedence() + 1);
        let (r, d) = parse_binary_op(tokens, pos, rhs, op.spec_precedence() + 1);
        if r is Some {
            lemma_tighter_progress(tokens, pos + d, r->0, op);
        }
    }
}

/// A whole program: one expression that takes every token.
///
/// Tokens that are left over are an error, which lists them: after an expression that was
/// read they could not be compiled, after none they are an unexpected sequence. No tokens
/// at all are an invalid program.
pub open spec fn parse_program(tokens: Seq<Tok>) -> Result<Expr, Seq<char>> {
    let (e, d) = parse_expression(tokens, 0);
    if d != tokens.len() {
        if e is Some {
            Err("failed to compile remaining tokens: "@ + tokens_text(tokens.skip(d as int)))
        } else {
            Err(
                "failed to parse expression, unexpected token sequence: "@ + tokens_text(
                    tokens.skip(d as int),
                ),
            )
        }
    } else {
        match e {
            Some(x) => Ok(x),
            None => Err("invalid program expression."@),
        }
    }
}

} // verus!
