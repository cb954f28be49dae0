//! What an arithmetic expression computes: its value is a matter of the expression and of
//! the host's arithmetic alone, whatever the machine held before.

use vstd::prelude::*;
use crate::compiler::BinaryOp;
use crate::compiler::Expr;
use crate::compiler::Func1Op;
use crate::compiler::lowering::bytecode;
use crate::number::truth_bits;
use crate::vm::Instr;
use crate::vm::determinism::run;
use crate::vm::machine::Activation;
use crate::vm::machine::ArithmeticOp;
use crate::vm::machine::Comparison;
use crate::vm::machine::Machine;
use crate::vm::machine::Outcome;
use crate::vm::machine::Task;
use crate::vm::machine::UnaryOp;
use crate::vm::machine::compare;
use crate::vm::value::Val;

verus! {

/// An expression made of numerals, binary operations and built-in functions of one
/// argument: no names, no blocks, no conditionals, no `rand()`.
pub open spec fn is_arithmetic(e: Expr) -> bool
    decreases e,
{
    match e {
        Expr::Literal(_) => true,
        Expr::BinaryOp(l, _, r) => is_arithmetic(*l) && is_arithmetic(*r),
        Expr::Func1(_, v) => is_arithmetic(*v),
        _ => false,
    }
}

/// The double that a binary operation gives for two doubles, with a host that answers a
/// task with `answer(task)`. Comparisons are decided without the host.
pub open spec fn binary_value(op: BinaryOp, lhs: u64, rhs: u64, answer: spec_fn(Task) -> u64) -> u64 {
    match op {
        BinaryOp::Add => answer(Task::Binary(ArithmeticOp::Add, lhs, rhs)),
        BinaryOp::Sub => answer(Task::Binary(ArithmeticOp::Sub, lhs, rhs)),
        BinaryOp::Mul => answer(Task::Binary(ArithmeticOp::Mul, lhs, rhs)),
        BinaryOp::Div => answer(Task::Binary(ArithmeticOp::Div, lhs, rhs)),
        BinaryOp::Mod => answer(Task::Binary(ArithmeticOp::Mod, lhs, rhs)),
        BinaryOp::Pow => answer(Task::Binary(ArithmeticOp::Pow, lhs, rhs)),
        BinaryOp::EQ => truth_bits(compare(Comparison::EQ, lhs, rhs)),
        BinaryOp::NEQ => truth_bits(compare(Comparison::NEQ, lhs, rhs)),
        BinaryOp::LT => truth_bits(compare(Comparison::LT, lhs, rhs)),
        BinaryOp::LTE => truth_bits(compare(Comparison::LTE, lhs, rhs)),
        BinaryOp::GT => truth_bits(compare(Comparison::GT, lhs, rhs)),
        BinaryOp::GTE => truth_bits(compare(Comparison::GTE, lhs, rhs)),
    }
}

/// The double that a built-in function gives for a double. The square root is the power
/// one half.
pub open spec fn function_value(op: Func1Op, v: u64, answer: spec_fn(Task) -> u64) -> u64 {
    match op {
        Func1Op::Sin => answer(Task::Unary(UnaryOp::Sine, v)),
        Func1Op::Cos => answer(Task::Unary(UnaryOp::Cosine, v)),
        Func1Op::Log => answer(Task::Unary(UnaryOp::Log, v)),
        Func1Op::Round => answer(Task::Unary(UnaryOp::Round, v)),
        Func1Op::Floor => answer(Task::Unary(UnaryOp::Floor, v)),
        Func1Op::Sqrt => answer(Task::Binary(ArithmeticOp::Pow, v, answer(Task::Convert("0.5"@)))),
    }
}

/// The value of an arithmetic expression, with a host that answers a task with
/// `answer(task)`.
pub open spec fn value(e: Expr, answer: spec_fn(Task) -> u64) -> u64
    decreases e,
{
    match e {
        Expr::Literal(x) => answer(Task::Convert(x)),
        Expr::BinaryOp(l, op, r) => binary_value(op, value(*l, answer), value(*r, answer), answer),
        Expr::Func1(op, v) => function_value(op, value(*v, answer), answer),
        _ => 0,
    }
}

/// The machine after the code of an expression that stands next in its innermost
/// activation: the value is pushed, and the activation has moved on behind the code.
pub open spec fn evaluated(m: Machine, n: nat, v: u64) -> Machine {
    Machine {
        stack: m.stack.push(Val::Number(v)),
        scopes: m.scopes,
        frames: m.frames.update(
            m.frames.len() - 1,
            Activation { next: m.frames.last().next + n, ..m.frames.last() },
        ),
    }
}

/// The code `code` stands next in the innermost activation of the machine.
pub open spec fn stands_next(m: Machine, code: Seq<Instr>) -> bool {
    &&& m.frames.len() > 0
    &&& m.frames.last().next + code.len() <= m.frames.last().code.len()
    &&& forall|i: int|
        0 <= i < code.len() ==> m.frames.last().code[m.frames.last().next + i] == #[trigger] code[i]
}

/// A part of the code that stands next stands next, behind what stands before it.
proof fn lemma_stands_part(m: Machine, before: Seq<Instr>, code: Seq<Instr>, after: Seq<Instr>, v: u64)
    requires
        stands_next(m, before + code + after),
    ensures
        stands_next(m, before),
        stands_next(evaluated(m, before.len(), v), code),
        before.len() == 0 ==> stands_next(m, code),
{
    let all = before + code + after;
    let top = m.frames.last();
    assert forall|i: int| 0 <= i < before.len() implies top.code[top.next + i]
        == #[trigger] before[i] by {
        assert(all[i] == before[i]);
    }
    let m2 = evaluated(m, before.len(), v);
    assert(m2.frames.last().code == top.code);
    assert(m2.frames.last().next == top.next + before.len());
    assert forall|i: int| 0 <= i < code.len() implies m2.frames.last().code[m2.frames.last().next
        + i] == #[trigger] code[i] by {
        assert(all[before.len() + i] == code[i]);
    }
    if before.len() == 0 {
        assert forall|i: int| 0 <= i < code.len() implies top.code[top.next + i]
            == #[trigger] code[i] by {
            assert(all[i] == code[i]);
        }
    }
}

/// A numeral is converted by the host and pushed.
proof fn lemma_push(
    m: Machine,
    x: Seq<char>,
    answer: spec_fn(Task) -> u64,
    samples: spec_fn(nat) -> u32,
    fuel: nat,
)
    requires
        stands_next(m, seq![Instr::Push(x)]),
        fuel >= 1,
    ensures
        run(m, answer, samples, fuel) == run(
            evaluated(m, 1, answer(Task::Convert(x))),
            answer,
            samples,
            (fuel - 1) as nat,
        ),
{
    let code = seq![Instr::Push(x)];
    assert(m.frames.last().code[m.frames.last().next as int + 0] == code[0]);
    assert(m.current() == Some(Instr::Push(x)));
    let after = m.advanced().pushed(Val::Number(answer(Task::Convert(x))));
    assert(after.frames =~= evaluated(m, 1, answer(Task::Convert(x))).frames);
    assert(after == evaluated(m, 1, answer(Task::Convert(x))));
}

/// The machine with two doubles on the stack that are replaced by one, one instruction on.
pub open spec fn folded(m: Machine, base: Seq<Val>, v: u64) -> Machine {
    Machine {
        stack: base.push(Val::Number(v)),
        scopes: m.scopes,
        frames: m.frames.update(
            m.frames.len() - 1,
            Activation { next: m.frames.last().next + 1, ..m.frames.last() },
        ),
    }
}

/// A binary operation takes its two operands from the stack and leaves its value.
proof fn lemma_binary(
    m: Machine,
    base: Seq<Val>,
    op: BinaryOp,
    lhs: u64,
    rhs: u64,
    answer: spec_fn(Task) -> u64,
    samples: spec_fn(nat) -> u32,
    fuel: nat,
)
    requires
        stands_next(m, seq![crate::compiler::lowering::binary_instr(op)]),
        m.stack == base.push(Val::Number(lhs)).push(Val::Number(rhs)),
        fuel >= 1,
    ensures
        run(m, answer, samples, fuel) == run(
            folded(m, base, binary_value(op, lhs, rhs, answer)),
            answer,
            samples,
            (fuel - 1) as nat,
        ),
{
    let instruction = crate::compiler::lowering::binary_instr(op);
    let code = seq![instruction];
    assert(m.frames.last().code[m.frames.last().next as int + 0] == code[0]);
    assert(m.current() == Some(instruction));
    let a = m.advanced();
    assert(a.stack.len() == base.len() + 2);
    assert(a.stack[a.stack.len() - 1] == Val::Number(rhs));
    assert(a.stack[a.stack.len() - 2] == Val::Number(lhs));
    assert(a.stack.drop_last().drop_last() =~= base);
    let v = binary_value(op, lhs, rhs, answer);
    let (next, outcome) = a.executed(instruction, samples(fuel));
    let after = match outcome {
        Outcome::Evaluate(task) => next.pushed(Val::Number(answer(task))),
        _ => next,
    };
    assert(after.stack =~= base.push(Val::Number(v)));
    assert(after.frames =~= folded(m, base, v).frames);
    assert(after == folded(m, base, v));
}

/// A built-in function takes its argument from the stack and leaves its value.
proof fn lemma_unary(
    m: Machine,
    base: Seq<Val>,
    op: Func1Op,
    v: u64,
    answer: spec_fn(Task) -> u64,
    samples: spec_fn(nat) -> u32,
    fuel: nat,
)
    requires
        op != Func1Op::Sqrt,
        stands_next(m, crate::compiler::lowering::func1_code(op)),
        m.stack == base.push(Val::Number(v)),
        fuel >= 1,
    ensures
        run(m, answer, samples, fuel) == run(
            folded(m, base, function_value(op, v, answer)),
            answer,
            samples,
            (fuel - 1) as nat,
        ),
{
    let code = crate::compiler::lowering::func1_code(op);
    let instruction = code[0];
    assert(m.frames.last().code[m.frames.last().next as int + 0] == code[0]);
    assert(m.current() == Some(instruction));
    let a = m.advanced();
    assert(a.stack.last() == Val::Number(v));
    assert(a.stack.drop_last() =~= base);
    let r = function_value(op, v, answer);
    let (next, outcome) = a.executed(instruction, samples(fuel));
    let after = match outcome {
        Outcome::Evaluate(task) => next.pushed(Val::Number(answer(task))),
        _ => next,
    };
    assert(after.stack =~= base.push(Val::Number(r)));
    assert(after.frames =~= folded(m, base, r).frames);
    assert(after == folded(m, base, r));
}

/// The code of an arithmetic expression, where it stands next and there is fuel for it,
/// leaves the value of the expression on the stack and nothing else changed.
pub proof fn lemma_evaluates(
    e: Expr,
    m: Machine,
    answer: spec_fn(Task) -> u64,
    samples: spec_fn(nat) -> u32,
    fuel: nat,
)
    requires
        is_arithmetic(e),
        stands_next(m, bytecode(e)),
        fuel >= bytecode(e).len(),
    ensures
        run(m, answer, samples, fuel) == run(
            evaluated(m, bytecode(e).len(), value(e, answer)),
            answer,
            samples,
            (fuel - bytecode(e).len()) as nat,
        ),
    decreases e,
{
    let none = Seq::<Instr>::empty();
    match e {
        Expr::Literal(x) => {
            lemma_push(m, x, answer, samples, fuel);
        },
        Expr::BinaryOp(l, op, r) => {
            let cl = bytecode(*l);
            let cr = bytecode(*r);
            let last = seq![crate::compiler::lowering::binary_instr(op)];
            let vl = value(*l, answer);
            let vr = value(*r, answer);
            assert(bytecode(e) =~= none + cl + (cr + last));
            lemma_stands_part(m, none, cl, cr + last, 0);
            lemma_evaluates(*l, m, answer, samples, fuel);
            let m1 = evaluated(m, cl.len(), vl);
            assert(bytecode(e) =~= cl + cr + last);
            lemma_stands_part(m, cl, cr, last, vl);
            let f1 = (fuel - cl.len()) as nat;
            lemma_evaluates(*r, m1, answer, samples, f1);
            let m2 = evaluated(m1, cr.len(), vr);
            assert(bytecode(e) =~= (cl + cr) + last + none);
            lemma_stands_part(m, cl + cr, last, none, 0);
            assert(stands_next(m2, last)) by {
                assert(m2.frames.last().code == m.frames.last().code);
                assert(m2.frames.last().next == m.frames.last().next + cl.len() + cr.len());
                assert(last[0] == bytecode(e)[(cl.len() + cr.len()) as int]);
            }
            let f2 = (f1 - cr.len()) as nat;
            lemma_binary(m2, m.stack, op, vl, vr, answer, samples, f2);
            let done = folded(m2, m.stack, binary_value(op, vl, vr, answer));
            assert(done.frames =~= evaluated(m, bytecode(e).len(), value(e, answer)).frames);
            assert(done == evaluated(m, bytecode(e).len(), value(e, answer)));
        },
        Expr::Func1(op, v) => {
            let cv = bytecode(*v);
            let tail = crate::compiler::lowering::func1_code(op);
            let vv = value(*v, answer);
            assert(bytecode(e) =~= none + cv + tail);
            lemma_stands_part(m, none, cv, tail, 0);
            lemma_evaluates(*v, m, answer, samples, fuel);
            let m1 = evaluated(m, cv.len(), vv);
            assert(bytecode(e) =~= cv + tail + none);
            lemma_stands_part(m, cv, tail, none, vv);
            let f1 = (fuel - cv.len()) as nat;
            if op == Func1Op::Sqrt {
                let half = answer(Task::Convert("0.5"@));
                let push = seq![Instr::Push("0.5"@)];
                let pow = seq![Instr::Pow];
                assert(tail =~= none + push + pow);
                lemma_stands_part(m1, none, push, pow, 0);
                lemma_push(m1, "0.5"@, answer, samples, f1);
                let m2 = evaluated(m1, 1, half);
                assert(tail =~= push + pow + none);
                lemma_stands_part(m1, push, pow, none, half);
                lemma_binary(m2, m.stack, BinaryOp::Pow, vv, half, answer, samples, (f1 - 1) as nat);
                let done = folded(m2, m.stack, binary_value(BinaryOp::Pow, vv, half, answer));
                assert(done.frames =~= evaluated(m, bytecode(e).len(), value(e, answer)).frames);
                assert(done == evaluated(m, bytecode(e).len(), value(e, answer)));
            } else {
                lemma_unary(m1, m.stack, op, vv, answer, samples, f1);
                let done = folded(m1, m.stack, function_value(op, vv, answer));
                assert(done.frames =~= evaluated(m, bytecode(e).len(), value(e, answer)).frames);
                assert(done == evaluated(m, bytecode(e).len(), value(e, answer)));
            }
        },
        _ => {},
    }
}

/// What an arithmetic expression computes. On a machine that executes nothing, the
/// bytecode of an arithmetic expression runs to its end and leaves the value of the
/// expression on the stack: whatever the stack and the variables held, they hold it still,
/// and the value depends on the expression and the host's arithmetic alone. So two
/// machines give the same value, and a machine gives it again.
pub proof fn lemma_arithmetic_result(
    e: Expr,
    m: Machine,
    answer: spec_fn(Task) -> u64,
    samples: spec_fn(nat) -> u32,
    fuel: nat,
)
    requires
        is_arithmetic(e),
        m.frames.len() == 0,
        fuel >= bytecode(e).len() + 2,
    ensures
        run(m.entered(bytecode(e), false), answer, samples, fuel) == (
            m.pushed(Val::Number(value(e, answer))),
            Outcome::Finish,
        ),
{
    let code = bytecode(e);
    let started = m.entered(code, false);
    assert(stands_next(started, code));
    lemma_evaluates(e, started, answer, samples, fuel);
    let after = evaluated(started, code.len(), value(e, answer));
    let f1 = (fuel - code.len()) as nat;
    assert(after.current() is None);
    let back = after.returned();
    assert(back.frames =~= m.frames);
    assert(back == m.pushed(Val::Number(value(e, answer))));
    assert(run(after, answer, samples, f1) == run(back, answer, samples, (f1 - 1) as nat));
    assert(run(back, answer, samples, (f1 - 1) as nat) == (back, Outcome::Finish));
}

} // verus!
