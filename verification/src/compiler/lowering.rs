//! From the expression tree to bytecode.

use vstd::prelude::*;
use crate::compiler::BinaryOp;
use crate::compiler::Expr;
use crate::compiler::Func0Op;
use crate::compiler::Func1Op;
use crate::compiler::RecursiveExpression;
use crate::compiler::exprs_view;
use crate::compiler::names_view;
use crate::number::Numeral;
use crate::vm::Instr;
use crate::vm::Instruction;
use crate::vm::code_view;

verus! {

/// The instruction of a binary operator.
pub open spec fn binary_instr(op: BinaryOp) -> Instr {
    match op {
        BinaryOp::Add => Instr::Add,
        BinaryOp::Sub => Instr::Sub,
        BinaryOp::Div => Instr::Div,
        BinaryOp::Mul => Instr::Mul,
        BinaryOp::Mod => Instr::Mod,
        BinaryOp::Pow => Instr::Pow,
        BinaryOp::EQ => Instr::CmpEQ,
        BinaryOp::NEQ => Instr::CmpNEQ,
        BinaryOp::LT => Instr::CmpLT,
        BinaryOp::LTE => Instr::CmpLTE,
        BinaryOp::GT => Instr::CmpGT,
        BinaryOp::GTE => Instr::CmpGTE,
    }
}

/// The instructions of a built-in function, run after its argument. The square root is
/// the power one half.
pub open spec fn func1_code(op: Func1Op) -> Seq<Instr> {
    match op {
        Func1Op::Sin => seq![Instr::Sine],
        Func1Op::Cos => seq![Instr::Cosine],
        Func1Op::Sqrt => seq![Instr::Push("0.5"@), Instr::Pow],
        Func1Op::Log => seq![Instr::Log],
        Func1Op::Round => seq![Instr::Round],
        Func1Op::Floor => seq![Instr::Floor],
    }
}

/// One parameter binding per name, in declaration order.
pub open spec fn shadow_assigns(params: Seq<Seq<char>>) -> Seq<Instr> {
    Seq::new(params.len(), |i: int| Instr::ShadowAssign(params[i]))
}

/// The instructions of the items, one after another.
pub open spec fn bytecode_all(items: Seq<Expr>) -> Seq<Instr>
    decreases items, 0nat,
{
    if items.len() == 0 {
        Seq::empty()
    } else {
        bytecode_all(items.drop_last()) + bytecode(items.last())
    }
}

/// The instructions of the items, the last item first.
pub open spec fn bytecode_reversed(items: Seq<Expr>) -> Seq<Instr>
    decreases items, 0nat,
{
    if items.len() == 0 {
        Seq::empty()
    } else {
        bytecode(items.last()) + bytecode_reversed(items.drop_last())
    }
}

/// The bytecode of an expression.
///
/// A block is bracketed by `Enter` and `Leave`. A closure literal becomes one `PushRoutine`
/// whose routine binds the parameters in declaration order and then runs the body. A call
/// evaluates its arguments from the last to the first, loads the callee and calls it.
pub open spec fn bytecode(e: Expr) -> Seq<Instr>
    decreases e, 1nat,
{
    match e {
        Expr::Block(items) => seq![Instr::Enter] + bytecode_all(items) + seq![Instr::Leave],
        Expr::Literal(x) => seq![Instr::Push(x)],
        Expr::Local(name) => seq![Instr::LoadLocal(name)],
        Expr::FuncDeclaration(params, body) => seq![
            Instr::PushRoutine(shadow_assigns(params) + bytecode(*body)),
        ],
        Expr::If(c, b) => bytecode(*c) + seq![Instr::SkipIfNot(bytecode(*b))],
        Expr::IfElse(c, a, b) => bytecode(*c) + seq![Instr::IfElse(bytecode(*a), bytecode(*b))],
        Expr::AssignOp(name, v) => bytecode(*v) + seq![Instr::Assign(name)],
        Expr::BinaryOp(l, op, r) => bytecode(*l) + bytecode(*r) + seq![binary_instr(op)],
        Expr::Func0(op) => seq![Instr::PushRandom],
        Expr::Func1(op, v) => bytecode(*v) + func1_code(op),
        Expr::FuncLocal(name, args) => bytecode_reversed(args) + seq![
            Instr::LoadLocal(name),
            Instr::CallRoutine,
        ],
    }
}

fn binary_instruction(op: BinaryOp) -> (r: Instruction)
    ensures
        r@ == binary_instr(op),
{
    match op {
        BinaryOp::Add => Instruction::Add,
        BinaryOp::Sub => Instruction::Sub,
        BinaryOp::Div => Instruction::Div,
        BinaryOp::Mul => Instruction::Mul,
        BinaryOp::Mod => Instruction::Mod,
        BinaryOp::Pow => Instruction::Pow,
        BinaryOp::EQ => Instruction::CmpEQ,
        BinaryOp::NEQ => Instruction::CmpNEQ,
        BinaryOp::LT => Instruction::CmpLT,
        BinaryOp::LTE => Instruction::CmpLTE,
        BinaryOp::GT => Instruction::CmpGT,
        BinaryOp::GTE => Instruction::CmpGTE,
    }
}

/// Appends one instruction.
fn emit(stream: &mut Vec<Instruction>, instruction: Instruction)
    ensures
        code_view(final(stream)@) == code_view(old(stream)@).push(instruction@),
{
    stream.push(instruction);
    assert(code_view(stream@) =~= code_view(old(stream)@).push(instruction@));
}

fn delve_all(items: &Vec<RecursiveExpression>, stream: &mut Vec<Instruction>)
    ensures
        code_view(final(stream)@) == code_view(old(stream)@) + bytecode_all(exprs_view(items@)),
    decreases items,
{
    let ghost base = code_view(stream@);
    let ghost all = exprs_view(items@);
    let mut i: usize = 0;
    assert(all.take(0) =~= Seq::<Expr>::empty());
    assert(code_view(stream@) =~= base + bytecode_all(all.take(0)));
    while i < items.len()
        invariant
            i <= items.len(),
            all == exprs_view(items@),
            code_view(stream@) == base + bytecode_all(all.take(i as int)),
        decreases items.len() - i,
    {
        delve(&items[i], stream);
        proof {
            assert(all.take(i + 1).drop_last() =~= all.take(i as int));
            assert(all.take(i + 1).last() == items@[i as int]@);
            assert(code_view(stream@) =~= base + bytecode_all(all.take(i + 1)));
        }
        i += 1;
    }
    assert(all.take(i as int) =~= all);
}

fn delve_reversed(items: &Vec<RecursiveExpression>, stream: &mut Vec<Instruction>)
    ensures
        code_view(final(stream)@) == code_view(old(stream)@) + bytecode_reversed(exprs_view(items@)),
    decreases items,
{
    let ghost base = code_view(stream@);
    let ghost all = exprs_view(items@);
    let mut i: usize = items.len();
    assert(all.take(i as int) =~= all);
    assert(code_view(stream@) =~= base);
    while i > 0
        invariant
            i <= items.len(),
            all == exprs_view(items@),
            base + bytecode_reversed(all) == code_view(stream@) + bytecode_reversed(all.take(i as int)),
        decreases i,
    {
        i -= 1;
        delve(&items[i], stream);
        proof {
            assert(all.take(i + 1).drop_last() =~= all.take(i as int));
            assert(all.take(i + 1).last() == items@[i as int]@);
            assert(code_view(stream@) + bytecode_reversed(all.take(i as int)) =~= base
                + bytecode_reversed(all)) by {
                assert(bytecode_reversed(all.take(i + 1)) == bytecode(all[i as int]) + bytecode_reversed(
                    all.take(i as int),
                ));
            }
        }
    }
    assert(all.take(0) =~= Seq::<Expr>::empty());
    assert(code_view(stream@) =~= base + bytecode_reversed(all));
}

fn parameter_bindings(params: &Vec<String>) -> (r: Vec<Instruction>)
    ensures
        code_view(r@) == shadow_assigns(names_view(params@)),
{
    let mut routine: Vec<Instruction> = Vec::new();
    let mut i: usize = 0;
    while i < params.len()
        invariant
            i <= params.len(),
            routine.len() == i,
            forall|k: int| 0 <= k < i ==> routine@[k]@ == Instr::ShadowAssign(params@[k]@),
        decreases params.len() - i,
    {
        routine.push(Instruction::ShadowAssign(params[i].clone()));
        i += 1;
    }
    assert(code_view(routine@) =~= shadow_assigns(names_view(params@)));
    routine
}

/// Appends the bytecode of `node` to `stream`.
fn delve(node: &RecursiveExpression, stream: &mut Vec<Instruction>)
    ensures
        code_view(final(stream)@) == code_view(old(stream)@) + bytecode(node@),
    decreases node,
{
    let ghost base = code_view(stream@);
    match node {
        RecursiveExpression::Block(statements) => {
            emit(stream, Instruction::Enter);
            delve_all(statements, stream);
            emit(stream, Instruction::Leave);
            assert(code_view(stream@) =~= base + bytecode(node@));
        },
        RecursiveExpression::Literal(x) => {
            emit(stream, Instruction::Push(x.clone()));
            assert(code_view(stream@) =~= base + bytecode(node@));
        },
        RecursiveExpression::Local(ident) => {
            emit(stream, Instruction::LoadLocal(ident.clone()));
            assert(code_view(stream@) =~= base + bytecode(node@));
        },
        RecursiveExpression::FuncDeclaration(params, body) => {
            let mut routine = parameter_bindings(params);
            delve(body, &mut routine);
            emit(stream, Instruction::PushRoutine(routine));
            assert(code_view(stream@) =~= base + bytecode(node@));
        },
        RecursiveExpression::If(condition, block) => {
            delve(condition, stream);
            let mut routine: Vec<Instruction> = Vec::new();
            assert(code_view(routine@) =~= Seq::<Instr>::empty());
            delve(block, &mut routine);
            assert(code_view(routine@) =~= bytecode(block@));
            emit(stream, Instruction::SkipIfNot(routine));
            assert(code_view(stream@) =~= base + bytecode(node@));
        },
        RecursiveExpression::IfElse(condition, if_block, else_block) => {
            delve(condition, stream);
            let mut if_routine: Vec<Instruction> = Vec::new();
            assert(code_view(if_routine@) =~= Seq::<Instr>::empty());
            delve(if_block, &mut if_routine);
            assert(code_view(if_routine@) =~= bytecode(if_block@));
            let mut else_routine: Vec<Instruction> = Vec::new();
            assert(code_view(else_routine@) =~= Seq::<Instr>::empty());
            delve(else_block, &mut else_routine);
            assert(code_view(else_routine@) =~= bytecode(else_block@));
            emit(stream, Instruction::IfElse(if_routine, else_routine));
            assert(code_view(stream@) =~= base + bytecode(node@));
        },
        RecursiveExpression::AssignOp(ident, value) => {
            delve(value, stream);
            emit(stream, Instruction::Assign(ident.clone()));
            assert(code_view(stream@) =~= base + bytecode(node@));
        },
        RecursiveExpression::BinaryOp(lhs, op, rhs) => {
            delve(lhs, stream);
            delve(rhs, stream);
            emit(stream, binary_instruction(*op));
            assert(code_view(stream@) =~= base + bytecode(node@));
        },
        RecursiveExpression::Func0(op) => match op {
            Func0Op::Rand => {
                emit(stream, Instruction::PushRandom);
                assert(code_view(stream@) =~= base + bytecode(node@));
            },
        },
        RecursiveExpression::Func1(op, value) => {
            delve(value, stream);
            match op {
                Func1Op::Sin => emit(stream, Instruction::Sine),
                Func1Op::Cos => emit(stream, Instruction::Cosine),
                Func1Op::Sqrt => {
                    emit(stream, Instruction::Push(Numeral::half()));
                    emit(stream, Instruction::Pow);
                },
                Func1Op::Log => emit(stream, Instruction::Log),
                Func1Op::Round => emit(stream, Instruction::Round),
                Func1Op::Floor => emit(stream, Instruction::Floor),
            }
            assert(code_view(stream@) =~= base + bytecode(node@));
        },
        RecursiveExpression::FuncLocal(ident, args) => {
            delve_reversed(args, stream);
            emit(stream, Instruction::LoadLocal(ident.clone()));
            emit(stream, Instruction::CallRoutine);
            assert(code_view(stream@) =~= base + bytecode(node@));
        },
    }
}

/// The bytecode of an expression tree.
pub fn lower(tree: &RecursiveExpression) -> (r: Vec<Instruction>)
    ensures
        code_view(r@) == bytecode(tree@),
{
    let mut instruction_stream: Vec<Instruction> = Vec::new();
    assert(code_view(instruction_stream@) =~= Seq::<Instr>::empty());
    delve(tree, &mut instruction_stream);
    assert(code_view(instruction_stream@) =~= bytecode(tree@));
    instruction_stream
}

} // verus!
