//! Reading back what was written: the token sequence that writes a tree, and the proof
//! that the grammar reads the tree back from it.
//!
//! `written` lays tokens out as the printer lays out text: in the same order, with the same
//! parentheses, and with separators between the items of a list. A tree is read back from
//! what writes it if the branches of its conditionals are blocks: that is `legible`.

use vstd::prelude::*;
use crate::compiler::BinaryOp;
use crate::compiler::Expr;
use crate::compiler::Func1Op;
use crate::compiler::grammar::advanced;
use crate::compiler::grammar::at;
use crate::compiler::grammar::binary_op_of;
use crate::compiler::grammar::func1_of;
use crate::compiler::grammar::operator_width;
use crate::compiler::grammar::parse_binary_op;
use crate::compiler::grammar::parse_expression;
use crate::compiler::grammar::parse_func_expression;
use crate::compiler::grammar::parse_list;
use crate::compiler::grammar::parse_parens;
use crate::compiler::grammar::parse_params;
use crate::compiler::grammar::parse_primary;
use crate::compiler::grammar::parse_program;
use crate::compiler::grammar::parse_tighter;
use crate::compiler::grammar::peek_binary_op;
use crate::compiler::grammar::peek_op_from;
use crate::compiler::lowering::bytecode;
use crate::compiler::translate;
use crate::lexer::Tok;
use crate::pretty::Place;
use crate::pretty::in_parens;
use crate::pretty::needs_parens;
use crate::vm::Instr;

verus! {

/// The token of a binary operator.
pub open spec fn operator_token(op: BinaryOp) -> Tok {
    match op {
        BinaryOp::Add => Tok::Plus,
        BinaryOp::Sub => Tok::Sub,
        BinaryOp::Div => Tok::Div,
        BinaryOp::Mul => Tok::Mul,
        BinaryOp::Mod => Tok::Mod,
        BinaryOp::Pow => Tok::Pow,
        BinaryOp::EQ => Tok::Eq,
        BinaryOp::NEQ => Tok::NotEq,
        BinaryOp::LT => Tok::LessThan,
        BinaryOp::LTE => Tok::LessThanEquals,
        BinaryOp::GT => Tok::GreaterThan,
        BinaryOp::GTE => Tok::GreaterThanEquals,
    }
}

/// The token of a built-in function.
pub open spec fn function_token(op: Func1Op) -> Tok {
    match op {
        Func1Op::Sin => Tok::Sine,
        Func1Op::Cos => Tok::Cosine,
        Func1Op::Sqrt => Tok::Sqrt,
        Func1Op::Log => Tok::Log,
        Func1Op::Round => Tok::Round,
        Func1Op::Floor => Tok::Floor,
    }
}

/// Names as tokens, with commas between them.
pub open spec fn written_names(names: Seq<Seq<char>>) -> Seq<Tok>
    decreases names.len(),
{
    if names.len() == 0 {
        Seq::empty()
    } else if names.len() == 1 {
        seq![Tok::Identifier(names[0])]
    } else {
        seq![Tok::Identifier(names[0]), Tok::Comma] + written_names(names.skip(1))
    }
}

/// Expressions as tokens, with `sep` between them.
pub open spec fn written_list(items: Seq<Expr>, sep: Tok) -> Seq<Tok>
    decreases items, 0nat,
{
    if items.len() == 0 {
        Seq::empty()
    } else if items.len() == 1 {
        written(items[0], None)
    } else {
        written(items[0], None) + seq![sep] + written_list(items.skip(1), sep)
    }
}

/// An expression as tokens, where it is an operand of `parent` or of no binary operation.
pub open spec fn written(e: Expr, parent: Place) -> Seq<Tok>
    decreases e, 1nat,
{
    match e {
        Expr::Block(items) => seq![Tok::OpenCurly] + written_list(items, Tok::Semicolon) + seq![
            Tok::CloseCurly,
        ],
        Expr::Literal(x) => seq![Tok::LiteralNum(x)],
        Expr::Local(name) => seq![Tok::Identifier(name)],
        Expr::FuncDeclaration(params, body) => {
            let inner = seq![Tok::OpenParen] + written_names(params) + seq![
                Tok::CloseParen,
                Tok::LeftArrow,
            ] + written(*body, None);
            if parent is Some {
                seq![Tok::OpenParen] + inner + seq![Tok::CloseParen]
            } else {
                inner
            }
        },
        Expr::If(c, b) => seq![Tok::If, Tok::OpenParen] + written(*c, None) + seq![
            Tok::CloseParen,
        ] + written(*b, None),
        Expr::IfElse(c, a, b) => seq![Tok::If, Tok::OpenParen] + written(*c, None) + seq![
            Tok::CloseParen,
        ] + written(*a, None) + seq![Tok::Else] + written(*b, None),
        Expr::AssignOp(name, v) => {
            let inner = seq![Tok::Let, Tok::Identifier(name), Tok::Equals] + written(*v, None);
            if parent is Some {
                seq![Tok::OpenParen] + inner + seq![Tok::CloseParen]
            } else {
                inner
            }
        },
        Expr::BinaryOp(l, op, r) => {
            let inner = written(*l, Some((op, false))) + seq![operator_token(op)] + written(*r, Some((op, true)));
            if needs_parens(op, parent) {
                seq![Tok::OpenParen] + inner + seq![Tok::CloseParen]
            } else {
                inner
            }
        },
        Expr::Func0(op) => seq![Tok::Rand, Tok::OpenParen, Tok::CloseParen],
        Expr::Func1(op, v) => seq![function_token(op), Tok::OpenParen] + written(*v, None) + seq![
            Tok::CloseParen,
        ],
        Expr::FuncLocal(name, args) => seq![Tok::Identifier(name), Tok::OpenParen] + written_list(
            args,
            Tok::Comma,
        ) + seq![Tok::CloseParen],
    }
}

/// Every item of a list is legible.
pub open spec fn all_legible(items: Seq<Expr>) -> bool
    decreases items, 0nat,
{
    items.len() == 0 || (legible(items[0]) && all_legible(items.skip(1)))
}

/// The trees that are read back from what writes them: those in which the branches of
/// every conditional are blocks. The grammar reads no other branch, so every tree that was
/// read is legible.
pub open spec fn legible(e: Expr) -> bool
    decreases e, 1nat,
{
    match e {
        Expr::Block(items) => all_legible(items),
        Expr::Literal(x) => true,
        Expr::Local(name) => true,
        Expr::FuncDeclaration(params, body) => legible(*body),
        Expr::If(c, b) => legible(*c) && *b is Block && legible(*b),
        Expr::IfElse(c, a, b) => legible(*c) && *a is Block && legible(*a) && *b is Block
            && legible(*b),
        Expr::AssignOp(name, v) => legible(*v),
        Expr::BinaryOp(l, op, r) => legible(*l) && legible(*r),
        Expr::Func0(op) => true,
        Expr::Func1(op, v) => legible(*v),
        Expr::FuncLocal(name, args) => all_legible(args),
    }
}

/// Whether an expression is written without parentheses as a chain of operations.
pub open spec fn is_chain(e: Expr, parent: Place) -> bool {
    e matches Expr::BinaryOp(_, op, _) && !needs_parens(op, parent)
}

/// The precedence of the operation at the top of an expression; the highest for what is no
/// binary operation.
pub open spec fn level(e: Expr) -> nat {
    match e {
        Expr::BinaryOp(_, op, _) => op.spec_precedence(),
        _ => 3,
    }
}

/// The first operand of a chain, with the operation it is an operand of; for anything else
/// the expression itself.
pub open spec fn first_operand(e: Expr, parent: Place) -> (Expr, Place)
    decreases e,
{
    match e {
        Expr::BinaryOp(l, op, r) => if needs_parens(op, parent) {
            (e, parent)
        } else {
            first_operand(*l, Some((op, false)))
        },
        _ => (e, parent),
    }
}

/// The tokens `w` stand in `tokens` from `start` on.
pub open spec fn spells(tokens: Seq<Tok>, start: nat, w: Seq<Tok>) -> bool {
    start + w.len() <= tokens.len() && forall|i: int|
        0 <= i < w.len() ==> tokens[start + i] == #[trigger] w[i]
}

/// A token that ends an expression: a separator or a closing bracket.
pub open spec fn is_stop(tok: Tok) -> bool {
    tok == Tok::Semicolon || tok == Tok::Comma || tok == Tok::CloseParen || tok
        == Tok::CloseCurly
}

/// A token that is written for a binary operator.
pub open spec fn is_operator(tok: Tok) -> bool {
    binary_op_of(tok) is Some && tok != Tok::OpenParen && !(tok is Identifier)
}

/// The expression that ends before `end` ends there: the tokens end, or a stop follows.
pub open spec fn stops_at(tokens: Seq<Tok>, end: nat) -> bool {
    end >= tokens.len() || is_stop(tokens[end as int])
}

/// What follows an operand: the end, a stop, or an operator.
pub open spec fn operand_ends_at(tokens: Seq<Tok>, end: nat) -> bool {
    stops_at(tokens, end) || is_operator(tokens[end as int])
}

/// A result with `k` more tokens taken before it.
pub open spec fn shifted(r: (Option<Expr>, nat), k: nat) -> (Option<Expr>, nat) {
    (r.0, k + r.1)
}

/// Tokens that stand one after the other stand there together.
pub proof fn lemma_spells_split(tokens: Seq<Tok>, start: nat, a: Seq<Tok>, b: Seq<Tok>)
    ensures
        spells(tokens, start, a + b) <==> spells(tokens, start, a) && spells(
            tokens,
            start + a.len(),
            b,
        ),
{
    let w = a + b;
    if spells(tokens, start, w) {
        assert forall|i: int| 0 <= i < a.len() implies tokens[start + i] == #[trigger] a[i] by {
            assert(w[i] == a[i]);
        }
        assert forall|i: int| 0 <= i < b.len() implies tokens[start + a.len() + i]
            == #[trigger] b[i] by {
            assert(w[a.len() + i] == b[i]);
        }
    }
    if spells(tokens, start, a) && spells(tokens, start + a.len(), b) {
        assert forall|i: int| 0 <= i < w.len() implies tokens[start + i] == #[trigger] w[i] by {
            if i < a.len() {
                assert(w[i] == a[i]);
            } else {
                assert(w[i] == b[i - a.len()]);
            }
        }
    }
}

/// A token that stands at a position is the token there.
pub proof fn lemma_spells_one(tokens: Seq<Tok>, start: nat, tok: Tok)
    ensures
        spells(tokens, start, seq![tok]) <==> at(tokens, start, tok),
{
    let w = seq![tok];
    if spells(tokens, start, w) {
        assert(w[0] == tok);
    }
}

/// The token of an operator is an operator, stands for that operator, and is no bracket,
/// separator, name or keyword.
pub proof fn lemma_operator_token(op: BinaryOp)
    ensures
        is_operator(operator_token(op)),
        binary_op_of(operator_token(op)) == Some(op),
        !is_stop(operator_token(op)),
        operator_token(op) != Tok::Else,
{
}

/// An expression is written with at least one token.
pub proof fn lemma_written_nonempty(e: Expr, parent: Place)
    ensures
        written(e, parent).len() > 0,
    decreases e,
{
    match e {
        Expr::BinaryOp(l, op, r) => {
            lemma_written_nonempty(*l, Some((op, false)));
        },
        _ => {},
    }
}

/// An expression that ends where operands may end is read no further as a binding of
/// higher precedence would be.
proof fn lemma_no_tighter_operator(tokens: Seq<Tok>, end: nat)
    ensures
        peek_op_from(tokens, end, 4) is None,
        stops_at(tokens, end) ==> peek_binary_op(tokens, end) is None,
{
}

/// Parameter names that are written before a closing parenthesis are read back.
pub proof fn lemma_params(tokens: Seq<Tok>, start: nat, names: Seq<Seq<char>>)
    requires
        spells(tokens, start, written_names(names)),
        at(tokens, start + written_names(names).len(), Tok::CloseParen),
    ensures
        parse_params(tokens, start) == (names, written_names(names).len()),
    decreases names.len(),
{
    let w = written_names(names);
    if names.len() == 0 {
        assert(parse_params(tokens, start).0 =~= names);
    } else if names.len() == 1 {
        assert(w[0] == Tok::Identifier(names[0]));
        assert(parse_params(tokens, start).0 =~= names);
    } else {
        let rest = names.skip(1);
        let head = seq![Tok::Identifier(names[0]), Tok::Comma];
        lemma_spells_split(tokens, start, head, written_names(rest));
        assert(head[0] == Tok::Identifier(names[0]));
        assert(head[1] == Tok::Comma);
        lemma_params(tokens, start + 2, rest);
        assert(seq![names[0]] + rest =~= names);
    }
}

/// From the first operand of a chain and the operations that follow it, the whole chain
/// is read as an expression.
proof fn lemma_expression_of_chain(
    tokens: Seq<Tok>,
    start: nat,
    e: Expr,
    f: Expr,
    nf: nat,
    n: nat,
)
    requires
        start + nf <= tokens.len(),
        parse_primary(tokens, start) == (Some(f), nf),
        nf < n,
        parse_binary_op(tokens, start + nf, f, 0) == (Some(e), (n - nf) as nat),
    ensures
        parse_expression(tokens, start) == (Some(e), n),
{
    if peek_binary_op(tokens, start + nf) is None {
        assert(peek_op_from(tokens, start + nf, 0) is None);
        assert(parse_binary_op(tokens, start + nf, f, 0) == (Some(f), 0nat));
    }
}

/// An operand that is followed by nothing tighter than `op` is what `op` gets.
proof fn lemma_tighter(
    tokens: Seq<Tok>,
    pos: nat,
    f: Expr,
    r: Expr,
    op: BinaryOp,
    k: nat,
)
    requires
        pos + k <= tokens.len(),
        parse_binary_op(tokens, pos, f, op.spec_precedence() + 1) == (Some(r), k),
        k == 0 ==> r == f,
        peek_op_from(tokens, pos + k, op.spec_precedence() + 1) is None,
    ensures
        parse_tighter(tokens, pos, f, op) == (Some(r), k),
{
    if peek_op_from(tokens, pos, op.spec_precedence() + 1) is Some {
        crate::compiler::grammar::lemma_binary_op_progress(
            tokens,
            pos,
            f,
            op.spec_precedence() + 1,
        );
        assert(advanced(tokens, pos, k));
        assert(parse_tighter(tokens, pos + k, r, op) == (Some(r), 0nat));
    } else {
        assert(parse_binary_op(tokens, pos, f, op.spec_precedence() + 1) == (Some(f), 0nat));
    }
}

/// One operation is folded: the operator is read, then its right operand from the first
/// operand of that on, and reading goes on with the operation as the left operand.
proof fn lemma_fold_step(
    tokens: Seq<Tok>,
    mid: nat,
    l: Expr,
    op: BinaryOp,
    r: Expr,
    g: Expr,
    ng: nat,
    nr: nat,
    min: nat,
)
    requires
        at(tokens, mid, operator_token(op)),
        op.spec_precedence() >= min,
        ng <= nr,
        mid + 1 + nr <= tokens.len(),
        parse_primary(tokens, mid + 1) == (Some(g), ng),
        parse_binary_op(tokens, mid + 1 + ng, g, op.spec_precedence() + 1) == (
            Some(r),
            (nr - ng) as nat,
        ),
        nr == ng ==> g == r,
        peek_op_from(tokens, mid + 1 + nr, op.spec_precedence() + 1) is None,
    ensures
        parse_binary_op(tokens, mid, l, min) == shifted(
            parse_binary_op(
                tokens,
                mid + 1 + nr,
                Expr::BinaryOp(Box::new(l), op, Box::new(r)),
                min,
            ),
            1 + nr,
        ),
{
    lemma_operator_token(op);
    crate::compiler::grammar::lemma_primary_progress(tokens, mid + 1);
    lemma_tighter(tokens, mid + 1 + ng, g, r, op, (nr - ng) as nat);
    assert(peek_op_from(tokens, mid, min) == Some(op));
    assert(operator_width(tokens, mid, l) == Some(1nat));
    assert(advanced(tokens, mid, 1 + ng));
    assert(advanced(tokens, mid, 1 + nr));
}

/// What a chain begins with: its first operand, which is no chain itself, and then the
/// token of an operator.
pub proof fn lemma_chain_start(e: Expr, parent: Place)
    requires
        legible(e),
    ensures
        ({
            let (f, fp) = first_operand(e, parent);
            let w = written(e, parent);
            let nf = written(f, fp).len();
            &&& legible(f)
            &&& is_chain(e, parent) ==> fp is Some
            &&& !is_chain(f, fp)
            &&& 0 < nf <= w.len()
            &&& w.take(nf as int) == written(f, fp)
            &&& is_chain(e, parent) ==> nf < w.len() && is_operator(w[nf as int])
            &&& !is_chain(e, parent) ==> f == e && fp == parent
        }),
    decreases e,
{
    let w = written(e, parent);
    match e {
        Expr::BinaryOp(l, op, r) => {
            if !needs_parens(op, parent) {
                lemma_chain_start(*l, Some((op, false)));
                let (f, fp) = first_operand(*l, Some((op, false)));
                let nf = written(f, fp).len();
                let wl = written(*l, Some((op, false)));
                lemma_operator_token(op);
                assert(w.take(nf as int) =~= wl.take(nf as int));
                if is_chain(*l, Some((op, false))) {
                    assert(w[nf as int] == wl[nf as int]);
                } else {
                    assert(w[nf as int] == operator_token(op));
                }
            } else {
                lemma_written_nonempty(e, parent);
                assert(w.take(w.len() as int) =~= w);
            }
        },
        _ => {
            lemma_written_nonempty(e, parent);
            assert(w.take(w.len() as int) =~= w);
        },
    }
}

/// What an expression begins with is no separator, no closing bracket and no `else`.
pub proof fn lemma_first_token(e: Expr, parent: Place)
    ensures
        written(e, parent).len() > 0,
        !is_stop(written(e, parent)[0]),
        written(e, parent)[0] != Tok::Else,
        written(e, parent)[0] is Identifier ==> e is Local || e is FuncLocal || is_chain(e, parent),
        e is Block ==> written(e, parent)[0] == Tok::OpenCurly,
    decreases e,
{
    match e {
        Expr::BinaryOp(l, op, r) => {
            lemma_first_token(*l, Some((op, false)));
            if !needs_parens(op, parent) {
                assert(written(e, parent)[0] == written(*l, Some((op, false)))[0]);
            }
        },
        Expr::Func1(op, v) => {
            assert(written(e, parent)[0] == function_token(op));
        },
        _ => {},
    }
}

/// What must follow an expression for it to be read alone: after a name no opening
/// parenthesis, after a conditional without `else` no `else`, and after a binding or a
/// closure literal nothing that goes on with an expression.
pub open spec fn ends_at(tokens: Seq<Tok>, end: nat, e: Expr, parent: Place) -> bool {
    match e {
        Expr::Local(_) => !at(tokens, end, Tok::OpenParen),
        Expr::If(_, _) => !at(tokens, end, Tok::Else),
        Expr::AssignOp(_, _) => parent is Some || stops_at(tokens, end),
        Expr::FuncDeclaration(_, _) => parent is Some || stops_at(tokens, end),
        _ => true,
    }
}

/// The parenthesised chain is no closure literal.
proof fn lemma_not_closure(tokens: Seq<Tok>, start: nat, e: Expr)
    requires
        legible(e),
        is_chain(e, None),
        at(tokens, start, Tok::OpenParen),
        spells(tokens, start + 1, written(e, None)),
    ensures
        parse_func_expression(tokens, start).0 is None,
{
    lemma_chain_start(e, None);
    let (f, fp) = first_operand(e, None);
    let w = written(e, None);
    let wf = written(f, fp);
    let nf = wf.len();
    lemma_first_token(f, fp);
    assert(w[0] == w.take(nf as int)[0]);
    assert(tokens[(start + 1) as int] == w[0]);
    assert(tokens[(start + 1 + nf) as int] == w[nf as int]);
    match f {
        Expr::Local(name) => {
            assert(nf == 1);
            assert(parse_params(tokens, start + 1) == (seq![name], 1nat));
        },
        Expr::FuncLocal(name, args) => {
            assert(wf[1] == Tok::OpenParen);
            assert(w[1] == w.take(nf as int)[1]);
            assert(tokens[(start + 2) as int] == w[1]);
            assert(parse_params(tokens, start + 1) == (seq![name], 1nat));
        },
        _ => {
            assert(!(w[0] is Identifier));
            assert(parse_params(tokens, start + 1).1 == 0);
        },
    }
}

/// Expressions that are written with separators between them, before something that ends
/// the list, are read back.
pub proof fn lemma_list(tokens: Seq<Tok>, start: nat, items: Seq<Expr>, sep: Tok)
    requires
        items.len() > 0,
        all_legible(items),
        is_stop(sep),
        spells(tokens, start, written_list(items, sep)),
        stops_at(tokens, start + written_list(items, sep).len()),
        !at(tokens, start + written_list(items, sep).len(), sep),
    ensures
        parse_list(tokens, start, sep) == (items, written_list(items, sep).len()),
    decreases items, 0nat,
{
    let first = items[0];
    let n = written(first, None).len();
    if items.len() == 1 {
        lemma_expression(tokens, start, first);
        assert(seq![first] =~= items);
    } else {
        let rest = items.skip(1);
        lemma_spells_split(
            tokens,
            start,
            written(first, None) + seq![sep],
            written_list(rest, sep),
        );
        lemma_spells_split(tokens, start, written(first, None), seq![sep]);
        lemma_spells_one(tokens, start + n, sep);
        lemma_expression(tokens, start, first);
        lemma_list(tokens, start + n + 1, rest, sep);
        assert(seq![first] + rest =~= items);
    }
}

/// A legible expression that is written before something that ends it is read back.
pub proof fn lemma_expression(tokens: Seq<Tok>, start: nat, e: Expr)
    requires
        legible(e),
        spells(tokens, start, written(e, None)),
        stops_at(tokens, start + written(e, None).len()),
    ensures
        parse_expression(tokens, start) == (Some(e), written(e, None).len()),
    decreases e, 7nat,
{
    let n = written(e, None).len();
    lemma_no_tighter_operator(tokens, start + n);
    if is_chain(e, None) {
        lemma_chain(tokens, start, e, None, 0);
        let (f, fp) = first_operand(e, None);
        let nf = written(f, fp).len();
        assert(parse_binary_op(tokens, start + n, e, 0) == (Some(e), 0nat));
        lemma_expression_of_chain(tokens, start, e, f, nf, n);
    } else {
        lemma_primary(tokens, start, e, None);
    }
}

/// A legible expression that is no chain is read back as a primary expression.
pub proof fn lemma_primary(tokens: Seq<Tok>, start: nat, e: Expr, parent: Place)
    requires
        legible(e),
        !is_chain(e, parent),
        spells(tokens, start, written(e, parent)),
        ends_at(tokens, start + written(e, parent).len(), e, parent),
    ensures
        parse_primary(tokens, start) == (Some(e), written(e, parent).len()),
    decreases e, 5nat,
{
    let w = written(e, parent);
    match e {
        Expr::Block(_) => lemma_block(tokens, start, e, parent),
        Expr::Literal(x) => {
            assert(w[0] == Tok::LiteralNum(x));
        },
        Expr::Local(name) => {
            assert(w[0] == Tok::Identifier(name));
        },
        Expr::FuncDeclaration(_, _) => {
            if parent is Some {
                lemma_wrapped(tokens, start, e, parent);
            } else {
                lemma_closure(tokens, start, e, parent);
            }
        },
        Expr::If(_, _) => lemma_if(tokens, start, e, parent),
        Expr::IfElse(_, _, _) => lemma_if_else(tokens, start, e, parent),
        Expr::AssignOp(_, _) => {
            if parent is Some {
                lemma_wrapped(tokens, start, e, parent);
            } else {
                lemma_assignment(tokens, start, e, parent);
            }
        },
        Expr::BinaryOp(_, _, _) => lemma_parenthesised(tokens, start, e, parent),
        Expr::Func0(op) => {
            assert(w[0] == Tok::Rand);
            assert(w[1] == Tok::OpenParen);
            assert(w[2] == Tok::CloseParen);
        },
        Expr::Func1(_, _) => lemma_func_1(tokens, start, e, parent),
        Expr::FuncLocal(_, _) => lemma_call(tokens, start, e, parent),
    }
}

/// A legible block is read back.
proof fn lemma_block(tokens: Seq<Tok>, start: nat, e: Expr, parent: Place)
    requires
        e is Block,
        legible(e),
        !is_chain(e, parent),
        spells(tokens, start, written(e, parent)),
        ends_at(tokens, start + written(e, parent).len(), e, parent),
    ensures
        parse_primary(tokens, start) == (Some(e), written(e, parent).len()),
    decreases e, 3nat,
{
    let w = written(e, parent);
    match e {
        Expr::Block(items) => {
            let l = written_list(items, Tok::Semicolon);
            lemma_spells_split(tokens, start, seq![Tok::OpenCurly] + l, seq![Tok::CloseCurly]);
            lemma_spells_split(tokens, start, seq![Tok::OpenCurly], l);
            lemma_spells_one(tokens, start, Tok::OpenCurly);
            lemma_spells_one(tokens, start + 1 + l.len(), Tok::CloseCurly);
            if items.len() == 0 {
                assert(items =~= Seq::<Expr>::empty());
            } else {
                let first = items[0];
                let n = written(first, None).len();
                assert(all_legible(items));
                assert(legible(first) && all_legible(items.skip(1)));
                lemma_first_token(first, None);
                if items.len() == 1 {
                    assert(tokens[(start + 1) as int] == l[0]);
                    lemma_expression(tokens, start + 1, first);
                    assert(seq![first] + Seq::<Expr>::empty() =~= items);
                } else {
                    let rest = items.skip(1);
                    lemma_spells_split(
                        tokens,
                        start + 1,
                        written(first, None) + seq![Tok::Semicolon],
                        written_list(rest, Tok::Semicolon),
                    );
                    lemma_spells_split(
                        tokens,
                        start + 1,
                        written(first, None),
                        seq![Tok::Semicolon],
                    );
                    lemma_spells_one(tokens, start + 1 + n, Tok::Semicolon);
                    assert(l[0] == written(first, None)[0]);
                    assert(tokens[(start + 1) as int] == l[0]);
                    lemma_expression(tokens, start + 1, first);
                    lemma_list(tokens, start + 2 + n, rest, Tok::Semicolon);
                    assert(seq![first] + rest =~= items);
                }
            }
        },
        _ => {},
    }
}

/// A legible closure literal is read back.
proof fn lemma_closure(tokens: Seq<Tok>, start: nat, e: Expr, parent: Place)
    requires
        parent is None,
        e is FuncDeclaration,
        legible(e),
        !is_chain(e, parent),
        spells(tokens, start, written(e, parent)),
        ends_at(tokens, start + written(e, parent).len(), e, parent),
    ensures
        parse_primary(tokens, start) == (Some(e), written(e, parent).len()),
    decreases e, 3nat,
{
    let w = written(e, parent);
    match e {
        Expr::FuncDeclaration(params, body) => {
            let names = written_names(params);
            let head = seq![Tok::OpenParen] + names;
            let arrow = seq![Tok::CloseParen, Tok::LeftArrow];
            lemma_spells_split(tokens, start, head + arrow, written(*body, None));
            lemma_spells_split(tokens, start, head, arrow);
            lemma_spells_split(tokens, start, seq![Tok::OpenParen], names);
            lemma_spells_one(tokens, start, Tok::OpenParen);
            assert(arrow[0] == Tok::CloseParen);
            assert(arrow[1] == Tok::LeftArrow);
            lemma_params(tokens, start + 1, params);
            lemma_expression(tokens, start + 3 + names.len(), *body);
        },
        _ => {},
    }
}

/// A legible conditional without `else` is read back.
proof fn lemma_if(tokens: Seq<Tok>, start: nat, e: Expr, parent: Place)
    requires
        e is If,
        legible(e),
        !is_chain(e, parent),
        spells(tokens, start, written(e, parent)),
        ends_at(tokens, start + written(e, parent).len(), e, parent),
    ensures
        parse_primary(tokens, start) == (Some(e), written(e, parent).len()),
    decreases e, 3nat,
{
    let w = written(e, parent);
    match e {
        Expr::If(c, b) => {
            let head = seq![Tok::If, Tok::OpenParen];
            let wc = written(*c, None);
            let wb = written(*b, None);
            lemma_spells_split(tokens, start, head + wc + seq![Tok::CloseParen], wb);
            lemma_spells_split(tokens, start, head + wc, seq![Tok::CloseParen]);
            lemma_spells_split(tokens, start, head, wc);
            assert(head[0] == Tok::If);
            assert(head[1] == Tok::OpenParen);
            lemma_spells_one(tokens, start + 2 + wc.len(), Tok::CloseParen);
            lemma_expression(tokens, start + 2, *c);
            lemma_first_token(*b, None);
            assert(tokens[(start + 3 + wc.len()) as int] == wb[0]);
            lemma_primary(tokens, start + 3 + wc.len(), *b, None);
        },
        _ => {},
    }
}

/// A legible conditional with `else` is read back.
proof fn lemma_if_else(tokens: Seq<Tok>, start: nat, e: Expr, parent: Place)
    requires
        e is IfElse,
        legible(e),
        !is_chain(e, parent),
        spells(tokens, start, written(e, parent)),
        ends_at(tokens, start + written(e, parent).len(), e, parent),
    ensures
        parse_primary(tokens, start) == (Some(e), written(e, parent).len()),
    decreases e, 3nat,
{
    let w = written(e, parent);
    match e {
        Expr::IfElse(c, a, b) => {
            let head = seq![Tok::If, Tok::OpenParen];
            let wc = written(*c, None);
            let wa = written(*a, None);
            let wb = written(*b, None);
            lemma_spells_split(
                tokens,
                start,
                head + wc + seq![Tok::CloseParen] + wa + seq![Tok::Else],
                wb,
            );
            lemma_spells_split(
                tokens,
                start,
                head + wc + seq![Tok::CloseParen] + wa,
                seq![Tok::Else],
            );
            lemma_spells_split(tokens, start, head + wc + seq![Tok::CloseParen], wa);
            lemma_spells_split(tokens, start, head + wc, seq![Tok::CloseParen]);
            lemma_spells_split(tokens, start, head, wc);
            assert(head[0] == Tok::If);
            assert(head[1] == Tok::OpenParen);
            lemma_spells_one(tokens, start + 2 + wc.len(), Tok::CloseParen);
            lemma_spells_one(tokens, start + 3 + wc.len() + wa.len(), Tok::Else);
            lemma_expression(tokens, start + 2, *c);
            lemma_first_token(*a, None);
            lemma_first_token(*b, None);
            assert(tokens[(start + 3 + wc.len()) as int] == wa[0]);
            assert(tokens[(start + 4 + wc.len() + wa.len()) as int] == wb[0]);
            lemma_primary(tokens, start + 3 + wc.len(), *a, None);
            lemma_primary(tokens, start + 4 + wc.len() + wa.len(), *b, None);
        },
        _ => {},
    }
}

/// A legible binding is read back.
proof fn lemma_assignment(tokens: Seq<Tok>, start: nat, e: Expr, parent: Place)
    requires
        parent is None,
        e is AssignOp,
        legible(e),
        !is_chain(e, parent),
        spells(tokens, start, written(e, parent)),
        ends_at(tokens, start + written(e, parent).len(), e, parent),
    ensures
        parse_primary(tokens, start) == (Some(e), written(e, parent).len()),
    decreases e, 3nat,
{
    let w = written(e, parent);
    match e {
        Expr::AssignOp(name, v) => {
            let head = seq![Tok::Let, Tok::Identifier(name), Tok::Equals];
            lemma_spells_split(tokens, start, head, written(*v, None));
            assert(head[0] == Tok::Let);
            assert(head[1] == Tok::Identifier(name));
            assert(head[2] == Tok::Equals);
            lemma_expression(tokens, start + 3, *v);
        },
        _ => {},
    }
}

/// A legible binding or closure literal in parentheses is read back.
proof fn lemma_wrapped(tokens: Seq<Tok>, start: nat, e: Expr, parent: Place)
    requires
        e is AssignOp || e is FuncDeclaration,
        parent is Some,
        legible(e),
        spells(tokens, start, written(e, parent)),
    ensures
        parse_primary(tokens, start) == (Some(e), written(e, parent).len()),
    decreases e, 4nat,
{
    let inner = written(e, None);
    let n = inner.len();
    assert(written(e, parent) == seq![Tok::OpenParen] + inner + seq![Tok::CloseParen]);
    lemma_spells_split(tokens, start, seq![Tok::OpenParen] + inner, seq![Tok::CloseParen]);
    lemma_spells_split(tokens, start, seq![Tok::OpenParen], inner);
    lemma_spells_one(tokens, start, Tok::OpenParen);
    lemma_spells_one(tokens, start + 1 + n, Tok::CloseParen);
    lemma_no_tighter_operator(tokens, start + 1 + n);
    lemma_written_nonempty(e, None);
    assert(tokens[(start + 1) as int] == inner[0]);
    match e {
        Expr::AssignOp(name, v) => {
            assert(inner[0] == Tok::Let);
            lemma_assignment(tokens, start + 1, e, None);
        },
        Expr::FuncDeclaration(params, body) => {
            assert(inner[0] == Tok::OpenParen);
            lemma_closure(tokens, start + 1, e, None);
        },
        _ => {},
    }
    assert(parse_params(tokens, start + 1).1 == 0);
    assert(parse_func_expression(tokens, start).0 is None);
    assert(parse_primary(tokens, start + 1) == (Some(e), n));
    assert(parse_expression(tokens, start + 1) == (Some(e), n));
    assert(parse_parens(tokens, start) == (Some(e), 2 + n));
}

/// A legible binary operation in parentheses is read back.
proof fn lemma_parenthesised(tokens: Seq<Tok>, start: nat, e: Expr, parent: Place)
    requires
        e is BinaryOp,
        legible(e),
        !is_chain(e, parent),
        spells(tokens, start, written(e, parent)),
        ends_at(tokens, start + written(e, parent).len(), e, parent),
    ensures
        parse_primary(tokens, start) == (Some(e), written(e, parent).len()),
    decreases e, 3nat,
{
    let w = written(e, parent);
    match e {
        Expr::BinaryOp(l, op, r) => {
            let inner = written(e, None);
            lemma_spells_split(tokens, start, seq![Tok::OpenParen] + inner, seq![Tok::CloseParen]);
            lemma_spells_split(tokens, start, seq![Tok::OpenParen], inner);
            lemma_spells_one(tokens, start, Tok::OpenParen);
            lemma_spells_one(tokens, start + 1 + inner.len(), Tok::CloseParen);
            lemma_not_closure(tokens, start, e);
            lemma_no_tighter_operator(tokens, start + 1 + inner.len());
            lemma_chain(tokens, start + 1, e, None, 0);
            let (f, fp) = first_operand(e, None);
            let nf = written(f, fp).len();
            assert(parse_binary_op(tokens, start + 1 + inner.len(), e, 0) == (Some(e), 0nat));
            lemma_expression_of_chain(tokens, start + 1, e, f, nf, inner.len());
        },
        _ => {},
    }
}

/// A legible call of a built-in function is read back.
proof fn lemma_func_1(tokens: Seq<Tok>, start: nat, e: Expr, parent: Place)
    requires
        e is Func1,
        legible(e),
        !is_chain(e, parent),
        spells(tokens, start, written(e, parent)),
        ends_at(tokens, start + written(e, parent).len(), e, parent),
    ensures
        parse_primary(tokens, start) == (Some(e), written(e, parent).len()),
    decreases e, 3nat,
{
    let w = written(e, parent);
    match e {
        Expr::Func1(op, v) => {
            let head = seq![function_token(op), Tok::OpenParen];
            let wv = written(*v, None);
            lemma_spells_split(tokens, start, head + wv, seq![Tok::CloseParen]);
            lemma_spells_split(tokens, start, head, wv);
            assert(head[0] == function_token(op));
            assert(head[1] == Tok::OpenParen);
            lemma_spells_one(tokens, start + 2 + wv.len(), Tok::CloseParen);
            lemma_expression(tokens, start + 2, *v);
            assert(func1_of(function_token(op)) == Some(op));
        },
        _ => {},
    }
}

/// A legible call of a closure is read back.
proof fn lemma_call(tokens: Seq<Tok>, start: nat, e: Expr, parent: Place)
    requires
        e is FuncLocal,
        legible(e),
        !is_chain(e, parent),
        spells(tokens, start, written(e, parent)),
        ends_at(tokens, start + written(e, parent).len(), e, parent),
    ensures
        parse_primary(tokens, start) == (Some(e), written(e, parent).len()),
    decreases e, 3nat,
{
    let w = written(e, parent);
    match e {
        Expr::FuncLocal(name, args) => {
            let head = seq![Tok::Identifier(name), Tok::OpenParen];
            let l = written_list(args, Tok::Comma);
            lemma_spells_split(tokens, start, head + l, seq![Tok::CloseParen]);
            lemma_spells_split(tokens, start, head, l);
            assert(head[0] == Tok::Identifier(name));
            assert(head[1] == Tok::OpenParen);
            lemma_spells_one(tokens, start + 2 + l.len(), Tok::CloseParen);
            if args.len() == 0 {
                assert(args =~= Seq::<Expr>::empty());
                assert(parse_primary(tokens, start + 2) == (None::<Expr>, 0nat));
                assert(parse_expression(tokens, start + 2) == (None::<Expr>, 0nat));
                assert(parse_list(tokens, start + 2, Tok::Comma).0 =~= Seq::<Expr>::empty());
            } else {
                lemma_list(tokens, start + 2, args, Tok::Comma);
            }
        },
        _ => {},
    }
}

/// A legible operand is read back from its first operand on: the operations of the chain
/// are folded onto the first operand until the whole operand is reached.
pub proof fn lemma_chain(
    tokens: Seq<Tok>,
    start: nat,
    e: Expr,
    parent: Place,
    min: nat,
)
    requires
        legible(e),
        parent is Some || is_chain(e, parent),
        spells(tokens, start, written(e, parent)),
        operand_ends_at(tokens, start + written(e, parent).len()),
        is_chain(e, parent) ==> level(e) >= min && peek_op_from(
            tokens,
            start + written(e, parent).len(),
            level(e) + 1,
        ) is None,
    ensures
        ({
            let (f, fp) = first_operand(e, parent);
            let n = written(e, parent).len();
            let nf = written(f, fp).len();
            &&& nf <= n
            &&& is_chain(e, parent) ==> nf < n
            &&& !is_chain(e, parent) ==> f == e
            &&& parse_primary(tokens, start) == (Some(f), nf)
            &&& parse_binary_op(tokens, start + nf, f, min) == shifted(
                parse_binary_op(tokens, start + n, e, min),
                (n - nf) as nat,
            )
        }),
    decreases e,
        (if is_chain(e, parent) {
            0nat
        } else {
            6nat
        }),
{
    let w = written(e, parent);
    let n = w.len();
    let end = start + n;
    lemma_chain_start(e, parent);
    match e {
        Expr::BinaryOp(l, op, r) => {
            if needs_parens(op, parent) {
                lemma_primary(tokens, start, e, parent);
            } else {
                let p = op.spec_precedence();
                let wl = written(*l, Some((op, false)));
                let wr = written(*r, Some((op, true)));
                let mid = start + wl.len();
                lemma_spells_split(tokens, start, wl + seq![operator_token(op)], wr);
                lemma_spells_split(tokens, start, wl, seq![operator_token(op)]);
                lemma_spells_one(tokens, mid, operator_token(op));
                lemma_operator_token(op);
                lemma_no_tighter_operator(tokens, mid);
                lemma_no_tighter_operator(tokens, end);
                lemma_chain(tokens, start, *l, Some((op, false)), min);
                lemma_chain(tokens, mid + 1, *r, Some((op, true)), p + 1);
                let (f, fp) = first_operand(*l, Some((op, false)));
                let nf = written(f, fp).len();
                let (g, gp) = first_operand(*r, Some((op, true)));
                let ng = written(g, gp).len();
                assert(parse_binary_op(tokens, end, *r, p + 1) == (Some(*r), 0nat));
                lemma_fold_step(tokens, mid, *l, op, *r, g, ng, wr.len(), min);
            }
        },
        _ => {
            lemma_primary(tokens, start, e, parent);
        },
    }
}

/// A legible tree is read back from the tokens that write it, and so the tokens compile to
/// the bytecode of the tree.
pub proof fn lemma_read_back(e: Expr)
    requires
        legible(e),
    ensures
        parse_program(written(e, None)) == Ok::<Expr, Seq<char>>(e),
        translate(written(e, None)) == Ok::<Seq<Instr>, Seq<char>>(bytecode(e)),
{
    let tokens = written(e, None);
    lemma_expression(tokens, 0, e);
}

} // verus!
