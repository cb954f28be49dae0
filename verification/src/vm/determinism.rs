//! What a run depends on: the state of the machine, the answers of the host, and, only
//! where the code asks the generator, the samples.

use vstd::prelude::*;
use crate::compiler::Expr;
use crate::compiler::lowering::bytecode;
use crate::compiler::lowering::bytecode_all;
use crate::compiler::lowering::bytecode_reversed;
use crate::compiler::lowering::shadow_assigns;
use crate::vm::Instr;
use crate::vm::machine::Activation;
use crate::vm::machine::Machine;
use crate::vm::machine::Outcome;
use crate::vm::machine::Task;
use crate::vm::machine::lemma_step_ignores_sample;
use crate::vm::machine::lemma_step_well_formed;
use crate::vm::machine::unwound;
use crate::vm::scope::Scope;
use crate::vm::scope::assign;
use crate::vm::scope::binds;
use crate::vm::scope::bound;
use crate::vm::scope::layer;
use crate::vm::scope::left;
use crate::vm::scope::lemma_layer;
use crate::vm::scope::lemma_slot_exists;
use crate::vm::scope::lookup;
use crate::vm::scope::put;
use crate::vm::scope::slot;
use crate::vm::value::Val;

verus! {

/// Code that never asks the generator, however deep in it one looks.
pub open spec fn code_is_fixed(code: Seq<Instr>) -> bool
    decreases code, 0nat,
{
    forall|i: int| 0 <= i < code.len() ==> instruction_is_fixed(#[trigger] code[i])
}

/// An instruction that does not ask the generator and holds no code that does.
pub open spec fn instruction_is_fixed(instruction: Instr) -> bool
    decreases instruction, 1nat,
{
    match instruction {
        Instr::PushRandom => false,
        Instr::PushRoutine(code) => code_is_fixed(code),
        Instr::SkipIfNot(code) => code_is_fixed(code),
        Instr::IfElse(then, otherwise) => code_is_fixed(then) && code_is_fixed(otherwise),
        _ => true,
    }
}

/// A value that holds no code that asks the generator.
pub open spec fn value_is_fixed(v: Val) -> bool {
    match v {
        Val::Number(_) => true,
        Val::Routine(code) => code_is_fixed(code),
    }
}

/// Scopes that bind no code that asks the generator.
pub open spec fn scopes_are_fixed(scopes: Seq<Scope>) -> bool {
    forall|l: int, i: int|
        0 <= l < scopes.len() && 0 <= i < scopes[l].len() ==> value_is_fixed(
            (#[trigger] scopes[l][i]).1,
        )
}

/// A machine in which no code asks the generator: not the code that is being executed,
/// and not the routines on the operand stack and in the variables.
pub open spec fn machine_is_fixed(m: Machine) -> bool {
    &&& forall|i: int| 0 <= i < m.stack.len() ==> value_is_fixed(#[trigger] m.stack[i])
    &&& scopes_are_fixed(m.scopes)
    &&& forall|i: int| 0 <= i < m.frames.len() ==> code_is_fixed((#[trigger] m.frames[i]).code)
}

/// The machine and the outcome after at most `fuel` steps, or at the end of the program if
/// that comes first. The host answers a task with the double `answer(task)`; the generator
/// gives `samples(n)` when `n` steps are left.
pub open spec fn run(
    m: Machine,
    answer: spec_fn(Task) -> u64,
    samples: spec_fn(nat) -> u32,
    fuel: nat,
) -> (Machine, Outcome)
    decreases fuel,
{
    if fuel == 0 {
        (m, Outcome::Proceed)
    } else {
        let (next, outcome) = m.step(samples(fuel));
        match outcome {
            Outcome::Finish => (next, outcome),
            Outcome::Abort(_) => (next, outcome),
            Outcome::Evaluate(task) => run(
                next.pushed(Val::Number(answer(task))),
                answer,
                samples,
                (fuel - 1) as nat,
            ),
            _ => run(next, answer, samples, (fuel - 1) as nat),
        }
    }
}

/// Leaving a scope binds nothing new.
proof fn lemma_left_fixed(scopes: Seq<Scope>)
    requires
        scopes_are_fixed(scopes),
    ensures
        scopes_are_fixed(left(scopes)),
{
    let after = left(scopes);
    assert forall|l: int, i: int| 0 <= l < after.len() && 0 <= i < after[l].len() implies value_is_fixed(
        (#[trigger] after[l][i]).1,
    ) by {
        assert(after[l] == scopes[l]);
    }
}

/// Abandoning code binds nothing new.
proof fn lemma_unwound_fixed(scopes: Seq<Scope>, frames: Seq<Activation>)
    requires
        scopes_are_fixed(scopes),
    ensures
        scopes_are_fixed(unwound(scopes, frames)),
    decreases frames.len(),
{
    if frames.len() > 0 {
        lemma_left_fixed(scopes);
        lemma_unwound_fixed(
            if frames.last().call {
                left(scopes)
            } else {
                scopes
            },
            frames.drop_last(),
        );
    }
}

/// Entering a scope binds nothing.
proof fn lemma_entered_fixed(scopes: Seq<Scope>)
    requires
        scopes_are_fixed(scopes),
    ensures
        scopes_are_fixed(scopes.push(Seq::empty())),
{
    let after = scopes.push(Seq::empty());
    assert forall|l: int, i: int| 0 <= l < after.len() && 0 <= i < after[l].len() implies value_is_fixed(
        (#[trigger] after[l][i]).1,
    ) by {
        if l < scopes.len() {
            assert(after[l] == scopes[l]);
        }
    }
}

/// What a name is bound to in fixed scopes is fixed.
proof fn lemma_lookup_fixed(scopes: Seq<Scope>, name: Seq<char>)
    requires
        scopes_are_fixed(scopes),
    ensures
        lookup(scopes, name) matches Some(v) ==> value_is_fixed(v),
{
    lemma_layer(scopes, name);
    match layer(scopes, name) {
        Some(l) => {
            lemma_slot_exists(scopes[l], name);
            let i = slot(scopes[l], name);
            assert(value_is_fixed(scopes[l][i].1));
        },
        None => {},
    }
}

/// Fixed scopes in which one scope gets a binding to a fixed value are fixed.
proof fn lemma_rebound_fixed(scopes: Seq<Scope>, l: int, name: Seq<char>, value: Val)
    requires
        scopes_are_fixed(scopes),
        value_is_fixed(value),
        0 <= l < scopes.len(),
    ensures
        scopes_are_fixed(scopes.update(l, bound(scopes[l], name, value))),
{
    let scope = scopes[l];
    let after = scopes.update(l, bound(scope, name, value));
    if binds(scope, name) {
        lemma_slot_exists(scope, name);
    }
    assert forall|k: int, i: int| 0 <= k < after.len() && 0 <= i < after[k].len() implies value_is_fixed(
        (#[trigger] after[k][i]).1,
    ) by {
        if k != l {
            assert(after[k] == scopes[k]);
        } else if binds(scope, name) {
            if i != slot(scope, name) {
                assert(after[k][i] == scope[i]);
            }
        } else {
            if i < scope.len() {
                assert(after[k][i] == scope[i]);
            }
        }
    }
}

/// A machine that gets a fixed value pushed stays fixed.
proof fn lemma_pushed_fixed(m: Machine, v: Val)
    requires
        machine_is_fixed(m),
        value_is_fixed(v),
    ensures
        machine_is_fixed(m.pushed(v)),
{
    let after = m.pushed(v);
    assert forall|i: int| 0 <= i < after.stack.len() implies value_is_fixed(
        #[trigger] after.stack[i],
    ) by {
        if i < m.stack.len() {
            assert(after.stack[i] == m.stack[i]);
        }
    }
}

/// A machine that loses operands stays fixed.
proof fn lemma_popped_fixed(m: Machine, stack: Seq<Val>)
    requires
        machine_is_fixed(m),
        stack.len() <= m.stack.len(),
        forall|i: int| 0 <= i < stack.len() ==> #[trigger] stack[i] == m.stack[i],
    ensures
        machine_is_fixed(m.with_stack(stack)),
{
    let after = m.with_stack(stack);
    assert forall|i: int| 0 <= i < after.stack.len() implies value_is_fixed(
        #[trigger] after.stack[i],
    ) by {
        assert(after.stack[i] == m.stack[i]);
    }
}

/// A machine that starts on fixed code stays fixed.
proof fn lemma_entered_code_fixed(m: Machine, code: Seq<Instr>, call: bool)
    requires
        machine_is_fixed(m),
        code_is_fixed(code),
    ensures
        machine_is_fixed(m.entered(code, call)),
{
    let after = m.entered(code, call);
    assert forall|i: int| 0 <= i < after.frames.len() implies code_is_fixed(
        (#[trigger] after.frames[i]).code,
    ) by {
        if i < m.frames.len() {
            assert(after.frames[i] == m.frames[i]);
        }
    }
}

/// A machine that is abandoned stays fixed.
proof fn lemma_aborted_fixed(m: Machine, msg: Seq<char>)
    requires
        machine_is_fixed(m),
    ensures
        machine_is_fixed(m.aborted(msg).0),
{
    lemma_unwound_fixed(m.scopes, m.frames);
}

/// An instruction of fixed code leaves a fixed machine fixed.
proof fn lemma_executed_fixed(m: Machine, instruction: Instr, sample: u32)
    requires
        m.well_formed(),
        machine_is_fixed(m),
        instruction_is_fixed(instruction),
    ensures
        machine_is_fixed(m.executed(instruction, sample).0),
{
    let after = m.executed(instruction, sample).0;
    let one = m.with_stack(m.stack.drop_last());
    let two = m.with_stack(m.stack.drop_last().drop_last());
    if m.stack.len() > 0 {
        lemma_popped_fixed(m, m.stack.drop_last());
        lemma_aborted_fixed(one, "missing lhs"@);
        lemma_aborted_fixed(one, "missing operand"@);
        assert(value_is_fixed(m.stack.last()));
    }
    if m.stack.len() > 1 {
        lemma_popped_fixed(m, m.stack.drop_last().drop_last());
    }
    lemma_aborted_fixed(m, "missing rhs"@);
    lemma_aborted_fixed(m, "missing operand"@);
    lemma_aborted_fixed(m, "missing assignment value"@);
    lemma_aborted_fixed(m, "no scope to leave"@);
    match instruction {
        Instr::CmpEQ | Instr::CmpNEQ | Instr::CmpLT | Instr::CmpLTE | Instr::CmpGT
        | Instr::CmpGTE => {
            if m.stack.len() > 1 {
                assert(after.stack.drop_last() =~= two.stack);
                assert(after == two.pushed(after.stack.last()));
                lemma_pushed_fixed(two, after.stack.last());
            }
        },
        Instr::LoadLocal(name) => {
            lemma_lookup_fixed(m.scopes, name);
            match lookup(m.scopes, name) {
                Some(v) => lemma_pushed_fixed(m, v),
                None => lemma_pushed_fixed(m, Val::Number(0)),
            }
        },
        Instr::Assign(name) => {
            if m.stack.len() > 0 {
                lemma_layer(m.scopes, name);
                match layer(m.scopes, name) {
                    Some(l) => lemma_rebound_fixed(m.scopes, l, name, m.stack.last()),
                    None => lemma_rebound_fixed(
                        m.scopes,
                        m.scopes.len() - 1,
                        name,
                        m.stack.last(),
                    ),
                }
                assert(scopes_are_fixed(assign(m.scopes, name, m.stack.last())));
                assert(after.stack == one.stack);
            }
        },
        Instr::ShadowAssign(name) => {
            if m.stack.len() > 0 {
                lemma_rebound_fixed(m.scopes, m.scopes.len() - 1, name, m.stack.last());
                assert(scopes_are_fixed(put(m.scopes, name, m.stack.last())));
                assert(after.stack == one.stack);
            }
        },
        Instr::CallRoutine => {
            if m.stack.len() > 0 {
                match m.stack.last() {
                    Val::Routine(code) => {
                        lemma_entered_fixed(m.scopes);
                        let inside = Machine {
                            stack: m.stack.drop_last(),
                            scopes: m.scopes.push(Seq::empty()),
                            frames: m.frames,
                        };
                        assert(machine_is_fixed(inside)) by {
                            assert(inside.stack == one.stack);
                        }
                        lemma_entered_code_fixed(inside, code, true);
                    },
                    Val::Number(_) => {},
                }
            }
        },
        Instr::PushRoutine(code) => {
            lemma_pushed_fixed(m, Val::Routine(code));
        },
        Instr::SkipIfNot(block) => {
            if m.stack.len() > 0 {
                lemma_entered_code_fixed(one, block, false);
            }
        },
        Instr::IfElse(then, otherwise) => {
            if m.stack.len() > 0 {
                lemma_entered_code_fixed(one, then, false);
                lemma_entered_code_fixed(one, otherwise, false);
            }
        },
        Instr::Enter => {
            lemma_entered_fixed(m.scopes);
        },
        Instr::Leave => {
            lemma_left_fixed(m.scopes);
            if m.scopes.len() > 1 {
                assert(left(m.scopes) == m.scopes.drop_last());
            }
        },
        _ => {},
    }
}

/// A step leaves a fixed machine fixed, and does not depend on the sample.
pub proof fn lemma_step_fixed(m: Machine, first: u32, second: u32)
    requires
        m.well_formed(),
        machine_is_fixed(m),
    ensures
        m.step(first) == m.step(second),
        machine_is_fixed(m.step(first).0),
        m.step(first).0.well_formed(),
{
    lemma_step_well_formed(m, first);
    if m.frames.len() > 0 {
        let top = m.frames.last();
        assert(code_is_fixed(top.code));
        match m.current() {
            Some(instruction) => {
                assert(instruction == top.code[top.next as int]);
                assert(instruction_is_fixed(instruction));
                lemma_step_ignores_sample(m, first, second);
                let a = m.advanced();
                assert(machine_is_fixed(a)) by {
                    assert forall|i: int| 0 <= i < a.frames.len() implies code_is_fixed(
                        (#[trigger] a.frames[i]).code,
                    ) by {
                        if i < m.frames.len() - 1 {
                            assert(a.frames[i] == m.frames[i]);
                        }
                    }
                }
                lemma_executed_fixed(a, instruction, first);
            },
            None => {
                lemma_left_fixed(m.scopes);
                let r = m.returned();
                assert forall|i: int| 0 <= i < r.frames.len() implies code_is_fixed(
                    (#[trigger] r.frames[i]).code,
                ) by {
                    assert(r.frames[i] == m.frames[i]);
                }
            },
        }
    }
}

/// Determinism. A run of a machine in which no code asks the generator does not depend on
/// the samples: with the same answers of the host it ends in the same state with the same
/// outcome, whatever the generator would have given.
pub proof fn lemma_run_ignores_samples(
    m: Machine,
    answer: spec_fn(Task) -> u64,
    first: spec_fn(nat) -> u32,
    second: spec_fn(nat) -> u32,
    fuel: nat,
)
    requires
        m.well_formed(),
        machine_is_fixed(m),
    ensures
        run(m, answer, first, fuel) == run(m, answer, second, fuel),
    decreases fuel,
{
    if fuel > 0 {
        lemma_step_fixed(m, first(fuel), second(fuel));
        let (next, outcome) = m.step(first(fuel));
        match outcome {
            Outcome::Finish => {},
            Outcome::Abort(_) => {},
            Outcome::Evaluate(task) => {
                let v = Val::Number(answer(task));
                lemma_pushed_fixed(next, v);
                lemma_run_ignores_samples(
                    next.pushed(v),
                    answer,
                    first,
                    second,
                    (fuel - 1) as nat,
                );
            },
            _ => {
                lemma_run_ignores_samples(next, answer, first, second, (fuel - 1) as nat);
            },
        }
    }
}

/// Every item of a list is without `rand()`.
pub open spec fn all_without_rand(items: Seq<Expr>) -> bool
    decreases items, 0nat,
{
    forall|i: int| 0 <= i < items.len() ==> without_rand(#[trigger] items[i])
}

/// An expression in which `rand()` does not occur.
pub open spec fn without_rand(e: Expr) -> bool
    decreases e, 1nat,
{
    match e {
        Expr::Block(items) => all_without_rand(items),
        Expr::Literal(_) => true,
        Expr::Local(_) => true,
        Expr::FuncDeclaration(_, body) => without_rand(*body),
        Expr::If(c, b) => without_rand(*c) && without_rand(*b),
        Expr::IfElse(c, a, b) => without_rand(*c) && without_rand(*a) && without_rand(*b),
        Expr::AssignOp(_, v) => without_rand(*v),
        Expr::BinaryOp(l, _, r) => without_rand(*l) && without_rand(*r),
        Expr::Func0(_) => false,
        Expr::Func1(_, v) => without_rand(*v),
        Expr::FuncLocal(_, args) => all_without_rand(args),
    }
}

/// Fixed code after fixed code is fixed.
proof fn lemma_fixed_concat(a: Seq<Instr>, b: Seq<Instr>)
    requires
        code_is_fixed(a),
        code_is_fixed(b),
    ensures
        code_is_fixed(a + b),
{
    let w = a + b;
    assert forall|i: int| 0 <= i < w.len() implies instruction_is_fixed(#[trigger] w[i]) by {
        if i < a.len() {
            assert(w[i] == a[i]);
        } else {
            assert(w[i] == b[i - a.len()]);
        }
    }
}

/// The bytecode of a list without `rand()` is fixed.
proof fn lemma_bytecode_all_fixed(items: Seq<Expr>)
    requires
        all_without_rand(items),
    ensures
        code_is_fixed(bytecode_all(items)),
        code_is_fixed(bytecode_reversed(items)),
    decreases items, 0nat,
{
    if items.len() > 0 {
        let front = items.drop_last();
        assert forall|i: int| 0 <= i < front.len() implies without_rand(#[trigger] front[i]) by {
            assert(front[i] == items[i]);
        }
        lemma_bytecode_all_fixed(front);
        lemma_bytecode_fixed(items.last());
        lemma_fixed_concat(bytecode_all(front), bytecode(items.last()));
        lemma_fixed_concat(bytecode(items.last()), bytecode_reversed(front));
    }
}

/// The bytecode of an expression without `rand()` never asks the generator.
pub proof fn lemma_bytecode_fixed(e: Expr)
    requires
        without_rand(e),
    ensures
        code_is_fixed(bytecode(e)),
    decreases e, 1nat,
{
    match e {
        Expr::Block(items) => {
            lemma_bytecode_all_fixed(items);
            lemma_fixed_concat(seq![Instr::Enter], bytecode_all(items));
            lemma_fixed_concat(seq![Instr::Enter] + bytecode_all(items), seq![Instr::Leave]);
        },
        Expr::Literal(x) => {},
        Expr::Local(name) => {},
        Expr::FuncDeclaration(params, body) => {
            lemma_bytecode_fixed(*body);
            lemma_fixed_concat(shadow_assigns(params), bytecode(*body));
        },
        Expr::If(c, b) => {
            lemma_bytecode_fixed(*c);
            lemma_bytecode_fixed(*b);
            lemma_fixed_concat(bytecode(*c), seq![Instr::SkipIfNot(bytecode(*b))]);
        },
        Expr::IfElse(c, a, b) => {
            lemma_bytecode_fixed(*c);
            lemma_bytecode_fixed(*a);
            lemma_bytecode_fixed(*b);
            lemma_fixed_concat(bytecode(*c), seq![Instr::IfElse(bytecode(*a), bytecode(*b))]);
        },
        Expr::AssignOp(name, v) => {
            lemma_bytecode_fixed(*v);
            lemma_fixed_concat(bytecode(*v), seq![Instr::Assign(name)]);
        },
        Expr::BinaryOp(l, op, r) => {
            lemma_bytecode_fixed(*l);
            lemma_bytecode_fixed(*r);
            lemma_fixed_concat(bytecode(*l), bytecode(*r));
            lemma_fixed_concat(
                bytecode(*l) + bytecode(*r),
                seq![crate::compiler::lowering::binary_instr(op)],
            );
        },
        Expr::Func0(op) => {},
        Expr::Func1(op, v) => {
            lemma_bytecode_fixed(*v);
            lemma_fixed_concat(bytecode(*v), crate::compiler::lowering::func1_code(op));
        },
        Expr::FuncLocal(name, args) => {
            lemma_bytecode_all_fixed(args);
            lemma_fixed_concat(
                bytecode_reversed(args),
                seq![Instr::LoadLocal(name), Instr::CallRoutine],
            );
        },
    }
}

/// Determinism of an expression. Where `rand()` occurs neither in an expression nor in the
/// routines that the machine holds, running the bytecode of the expression does not depend
/// on the samples of the generator.
pub proof fn lemma_expression_ignores_samples(
    e: Expr,
    m: Machine,
    answer: spec_fn(Task) -> u64,
    first: spec_fn(nat) -> u32,
    second: spec_fn(nat) -> u32,
    fuel: nat,
)
    requires
        without_rand(e),
        m.well_formed(),
        machine_is_fixed(m),
    ensures
        run(m.entered(bytecode(e), false), answer, first, fuel) == run(
            m.entered(bytecode(e), false),
            answer,
            second,
            fuel,
        ),
{
    lemma_bytecode_fixed(e);
    lemma_entered_code_fixed(m, bytecode(e), false);
    let started = m.entered(bytecode(e), false);
    assert(started.well_formed()) by {
        assert forall|i: int| 0 <= i < started.frames.len() implies (
        #[trigger] started.frames[i]).next <= started.frames[i].code.len() by {
            if i < m.frames.len() {
                assert(started.frames[i] == m.frames[i]);
            }
        }
    }
    lemma_run_ignores_samples(started, answer, first, second, fuel);
}

} // verus!
