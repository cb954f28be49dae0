//! The stack machine, one instruction at a time.
//!
//! The machine decides everything but arithmetic on doubles: for that it hands the host an
//! operation, and the host pushes the result. What one step does is the function `step`.
//! To run a program the host loads it and steps until the machine says `Finish` or `Abort`.
//!
//! Code within code (a block of a conditional, the body of a call) is kept on a stack of
//! activations in the machine, not on the call stack: how deep calls may nest is a matter
//! of memory, and a closure that calls itself without end makes that stack grow without
//! end.

use vstd::prelude::*;
use vstd::string::StringExecFns;
use crate::number::Number;
use crate::number::Numeral;
use crate::number::is_nonzero;
use crate::number::number_eq;
use crate::number::number_lt;
use crate::number::truth_bits;
use crate::number::unit_fraction_bits;
use crate::vm::Instr;
use crate::vm::Instruction;
use crate::vm::code_view;
use crate::vm::copy_code;
use crate::vm::random::draw;
use crate::vm::random::seeded;
use crate::vm::scope::Scope;
use crate::vm::scope::ScopeStack;
use crate::vm::scope::assign;
use crate::vm::scope::left;
use crate::vm::scope::lemma_layer;
use crate::vm::scope::lookup;
use crate::vm::scope::put;
use crate::vm::value::Val;
use crate::vm::value::Value;
use crate::vm::value::as_number;
use crate::vm::value::values_view;

verus! {

/// An operation on one double that the host computes.
#[derive(Debug, Clone, Copy, PartialEq, Eq)]
pub enum UnaryOp {
    /// The sine of an angle in degrees.
    Sine,
    /// The cosine of an angle in degrees.
    Cosine,
    /// The logarithm to base ten.
    Log,
    /// The nearest integer, halves away from zero.
    Round,
    /// The largest integer that is not greater.
    Floor,
}

/// An operation on two doubles that the host computes.
#[derive(Debug, Clone, Copy, PartialEq, Eq)]
pub enum ArithmeticOp {
    Add,
    Sub,
    Mul,
    Div,
    /// The remainder of the division, with the sign of the dividend.
    Mod,
    Pow,
}

/// A comparison, which the machine decides itself.
#[derive(Debug, Clone, Copy, PartialEq, Eq)]
pub enum Comparison {
    EQ,
    NEQ,
    LT,
    LTE,
    GT,
    GTE,
}

/// What the host is asked to compute. It answers by pushing the result.
#[derive(Debug)]
pub enum Operation {
    /// The double nearest to a decimal numeral.
    Convert(Numeral),
    Unary(UnaryOp, Number),
    /// The operation on a left and a right operand.
    Binary(ArithmeticOp, Number, Number),
}

/// What a step asks of the host.
#[derive(Debug)]
pub enum Action {
    /// Nothing: go on with the next step.
    Proceed,
    /// Compute the operation, push its result, and go on.
    Evaluate(Operation),
    /// A recoverable condition was met and a default was taken: report it and go on.
    Warn(String),
    /// The program has ended. Its result, if it has one, is on top of the operand stack.
    Finish,
    /// A fatal condition was met and the program was abandoned.
    Abort(String),
}

/// The mathematical value of an operation.
pub ghost enum Task {
    Convert(Seq<char>),
    Unary(UnaryOp, u64),
    Binary(ArithmeticOp, u64, u64),
}

/// The mathematical value of an action.
pub ghost enum Outcome {
    Proceed,
    Evaluate(Task),
    Warn(Seq<char>),
    Finish,
    Abort(Seq<char>),
}

impl View for Operation {
    type V = Task;

    open spec fn view(&self) -> Task {
        match *self {
            Operation::Convert(x) => Task::Convert(x@),
            Operation::Unary(op, x) => Task::Unary(op, x.bits),
            Operation::Binary(op, lhs, rhs) => Task::Binary(op, lhs.bits, rhs.bits),
        }
    }
}

impl View for Action {
    type V = Outcome;

    open spec fn view(&self) -> Outcome {
        match *self {
            Action::Proceed => Outcome::Proceed,
            Action::Evaluate(operation) => Outcome::Evaluate(operation@),
            Action::Warn(msg) => Outcome::Warn(msg@),
            Action::Finish => Outcome::Finish,
            Action::Abort(msg) => Outcome::Abort(msg@),
        }
    }
}

/// A piece of code that is being executed: the instructions, how many of them are done,
/// and whether it is the body of a call, which has a scope of its own.
pub ghost struct Activation {
    pub code: Seq<Instr>,
    pub next: nat,
    pub call: bool,
}

/// The state of the machine: the operand stack, the scopes, and the code that is being
/// executed, the innermost piece last.
pub ghost struct Machine {
    pub stack: Seq<Val>,
    pub scopes: Seq<Scope>,
    pub frames: Seq<Activation>,
}

/// The scopes after all the code in `frames` is abandoned: each call takes its scope
/// with it.
pub open spec fn unwound(scopes: Seq<Scope>, frames: Seq<Activation>) -> Seq<Scope>
    decreases frames.len(),
{
    if frames.len() == 0 {
        scopes
    } else {
        unwound(
            if frames.last().call {
                left(scopes)
            } else {
                scopes
            },
            frames.drop_last(),
        )
    }
}

/// The result of a comparison of two doubles.
pub open spec fn compare(c: Comparison, lhs: u64, rhs: u64) -> bool {
    match c {
        Comparison::EQ => number_eq(lhs, rhs),
        Comparison::NEQ => !number_eq(lhs, rhs),
        Comparison::LT => number_lt(lhs, rhs),
        Comparison::LTE => number_lt(lhs, rhs) || number_eq(lhs, rhs),
        Comparison::GT => number_lt(rhs, lhs),
        Comparison::GTE => number_lt(rhs, lhs) || number_eq(lhs, rhs),
    }
}

impl Machine {
    /// Every activation is within its code, and there is a global scope.
    pub open spec fn well_formed(self) -> bool {
        &&& self.scopes.len() > 0
        &&& forall|i: int|
            0 <= i < self.frames.len() ==> (#[trigger] self.frames[i]).next
                <= self.frames[i].code.len()
    }

    /// The machine with another operand stack.
    pub open spec fn with_stack(self, stack: Seq<Val>) -> Machine {
        Machine { stack, ..self }
    }

    /// The machine with other scopes.
    pub open spec fn with_scopes(self, scopes: Seq<Scope>) -> Machine {
        Machine { scopes, ..self }
    }

    /// The machine with a value pushed on the operand stack.
    pub open spec fn pushed(self, v: Val) -> Machine {
        self.with_stack(self.stack.push(v))
    }

    /// The machine that starts on a piece of code.
    pub open spec fn entered(self, code: Seq<Instr>, call: bool) -> Machine {
        Machine { frames: self.frames.push(Activation { code, next: 0, call }), ..self }
    }

    /// The program is abandoned with a message.
    pub open spec fn aborted(self, msg: Seq<char>) -> (Machine, Outcome) {
        (
            Machine {
                stack: self.stack,
                scopes: unwound(self.scopes, self.frames),
                frames: Seq::empty(),
            },
            Outcome::Abort(msg),
        )
    }

    /// Two operands are popped, the right one first, and handed out with the operation.
    /// A missing operand is fatal.
    pub open spec fn binary(self, op: ArithmeticOp) -> (Machine, Outcome) {
        if self.stack.len() == 0 {
            self.aborted("missing rhs"@)
        } else if self.stack.len() == 1 {
            self.with_stack(self.stack.drop_last()).aborted("missing lhs"@)
        } else {
            let rhs = as_number(self.stack[self.stack.len() - 1]);
            let lhs = as_number(self.stack[self.stack.len() - 2]);
            (
                self.with_stack(self.stack.drop_last().drop_last()),
                Outcome::Evaluate(Task::Binary(op, lhs, rhs)),
            )
        }
    }

    /// Two operands are popped, the right one first, and one or zero is pushed.
    pub open spec fn compared(self, c: Comparison) -> (Machine, Outcome) {
        if self.stack.len() == 0 {
            self.aborted("missing rhs"@)
        } else if self.stack.len() == 1 {
            self.with_stack(self.stack.drop_last()).aborted("missing lhs"@)
        } else {
            let rhs = as_number(self.stack[self.stack.len() - 1]);
            let lhs = as_number(self.stack[self.stack.len() - 2]);
            (
                self.with_stack(
                    self.stack.drop_last().drop_last().push(
                        Val::Number(truth_bits(compare(c, lhs, rhs))),
                    ),
                ),
                Outcome::Proceed,
            )
        }
    }

    /// One operand is popped and handed out with the operation.
    pub open spec fn unary(self, op: UnaryOp) -> (Machine, Outcome) {
        if self.stack.len() == 0 {
            self.aborted("missing operand"@)
        } else {
            (
                self.with_stack(self.stack.drop_last()),
                Outcome::Evaluate(Task::Unary(op, as_number(self.stack.last()))),
            )
        }
    }

    /// A condition is popped, and the block chosen by it is entered.
    pub open spec fn branched(self, then: Seq<Instr>, otherwise: Option<Seq<Instr>>) -> (
        Machine,
        Outcome,
    ) {
        if self.stack.len() == 0 {
            self.aborted("missing operand"@)
        } else {
            let popped = self.with_stack(self.stack.drop_last());
            if is_nonzero(as_number(self.stack.last())) {
                (popped.entered(then, false), Outcome::Proceed)
            } else {
                match otherwise {
                    Some(code) => (popped.entered(code, false), Outcome::Proceed),
                    None => (popped, Outcome::Proceed),
                }
            }
        }
    }

    /// The value of a name is pushed; a name without a binding counts as zero, with a
    /// warning.
    pub open spec fn loaded(self, name: Seq<char>) -> (Machine, Outcome) {
        match lookup(self.scopes, name) {
            Some(v) => (self.pushed(v), Outcome::Proceed),
            None => (
                self.pushed(Val::Number(0)),
                Outcome::Warn("WARN: missing variable '"@ + name + "'"@),
            ),
        }
    }

    /// A value is popped and bound: by `Assign` to the innermost binding of the name, by
    /// `ShadowAssign` in the innermost scope.
    pub open spec fn stored(self, name: Seq<char>, shadow: bool) -> (Machine, Outcome) {
        if self.stack.len() == 0 {
            self.aborted("missing assignment value"@)
        } else {
            let scopes = if shadow {
                put(self.scopes, name, self.stack.last())
            } else {
                assign(self.scopes, name, self.stack.last())
            };
            (
                Machine { stack: self.stack.drop_last(), scopes, frames: self.frames },
                Outcome::Proceed,
            )
        }
    }

    /// A routine is popped and entered in a scope of its own. Anything else cannot be
    /// called: it is dropped with a warning.
    pub open spec fn called(self) -> (Machine, Outcome) {
        if self.stack.len() == 0 {
            (self, Outcome::Warn("WARN: no current value to call"@))
        } else {
            match self.stack.last() {
                Val::Routine(code) => (
                    Machine {
                        stack: self.stack.drop_last(),
                        scopes: self.scopes.push(Seq::empty()),
                        frames: self.frames,
                    }.entered(code, true),
                    Outcome::Proceed,
                ),
                Val::Number(_) => (
                    self.with_stack(self.stack.drop_last()),
                    Outcome::Warn("WARN: current value is not callable"@),
                ),
            }
        }
    }

    /// The effect of one instruction. `sample` is what the generator gives if the
    /// instruction asks it.
    pub open spec fn executed(self, instruction: Instr, sample: u32) -> (Machine, Outcome) {
        match instruction {
            Instr::Add => self.binary(ArithmeticOp::Add),
            Instr::Sub => self.binary(ArithmeticOp::Sub),
            Instr::Mul => self.binary(ArithmeticOp::Mul),
            Instr::Div => self.binary(ArithmeticOp::Div),
            Instr::Mod => self.binary(ArithmeticOp::Mod),
            Instr::Pow => self.binary(ArithmeticOp::Pow),
            Instr::Sine => self.unary(UnaryOp::Sine),
            Instr::Cosine => self.unary(UnaryOp::Cosine),
            Instr::Log => self.unary(UnaryOp::Log),
            Instr::Round => self.unary(UnaryOp::Round),
            Instr::Floor => self.unary(UnaryOp::Floor),
            Instr::CmpEQ => self.compared(Comparison::EQ),
            Instr::CmpNEQ => self.compared(Comparison::NEQ),
            Instr::CmpLT => self.compared(Comparison::LT),
            Instr::CmpLTE => self.compared(Comparison::LTE),
            Instr::CmpGT => self.compared(Comparison::GT),
            Instr::CmpGTE => self.compared(Comparison::GTE),
            Instr::Push(x) => (self, Outcome::Evaluate(Task::Convert(x))),
            Instr::LoadLocal(name) => self.loaded(name),
            Instr::Assign(name) => self.stored(name, false),
            Instr::ShadowAssign(name) => self.stored(name, true),
            Instr::CallRoutine => self.called(),
            Instr::PushRoutine(code) => (self.pushed(Val::Routine(code)), Outcome::Proceed),
            Instr::SkipIfNot(block) => self.branched(block, None),
            Instr::IfElse(then, otherwise) => self.branched(then, Some(otherwise)),
            Instr::PushRandom => (
                self.pushed(Val::Number(unit_fraction_bits(sample))),
                Outcome::Proceed,
            ),
            Instr::Enter => (self.with_scopes(self.scopes.push(Seq::empty())), Outcome::Proceed),
            Instr::Leave => if self.scopes.len() > 1 {
                (self.with_scopes(self.scopes.drop_last()), Outcome::Proceed)
            } else {
                self.aborted("no scope to leave"@)
            },
        }
    }

    /// The instruction that the next step executes, if it executes one.
    pub open spec fn current(self) -> Option<Instr> {
        if self.frames.len() > 0 && self.frames.last().next < self.frames.last().code.len() {
            Some(self.frames.last().code[self.frames.last().next as int])
        } else {
            None
        }
    }

    /// The machine with the innermost activation moved on by one instruction.
    pub open spec fn advanced(self) -> Machine {
        Machine {
            frames: self.frames.update(
                self.frames.len() - 1,
                Activation { next: self.frames.last().next + 1, ..self.frames.last() },
            ),
            ..self
        }
    }

    /// The machine without its innermost activation, and without the scope of that
    /// activation if it was a call.
    pub open spec fn returned(self) -> Machine {
        Machine {
            stack: self.stack,
            scopes: if self.frames.last().call {
                left(self.scopes)
            } else {
                self.scopes
            },
            frames: self.frames.drop_last(),
        }
    }

    /// One step. Where no code is left the program has ended. Where the innermost piece
    /// of code is done the machine returns from it. Otherwise the next instruction is
    /// executed.
    pub open spec fn step(self, sample: u32) -> (Machine, Outcome) {
        if self.frames.len() == 0 {
            (self, Outcome::Finish)
        } else {
            match self.current() {
                Some(instruction) => self.advanced().executed(instruction, sample),
                None => (self.returned(), Outcome::Proceed),
            }
        }
    }
}

/// Only a step that executes `PushRandom` depends on the sample: every other step is
/// decided by the state of the machine alone.
pub proof fn lemma_step_ignores_sample(m: Machine, first: u32, second: u32)
    requires
        m.current() != Some(Instr::PushRandom),
    ensures
        m.step(first) == m.step(second),
{
}

/// A step keeps the machine well formed: in particular the global scope stays.
pub proof fn lemma_step_well_formed(m: Machine, sample: u32)
    requires
        m.well_formed(),
    ensures
        m.step(sample).0.well_formed(),
{
    if m.frames.len() > 0 {
        lemma_unwound_keeps_global(m.scopes, m.frames);
        let a = m.advanced();
        match m.current() {
            Some(instruction) => {
                assert(a.well_formed());
                lemma_unwound_keeps_global(a.scopes, a.frames);
                lemma_executed_well_formed(a, instruction, sample);
            },
            None => {
                assert(m.returned().well_formed());
            },
        }
    }
}

/// An instruction keeps the machine well formed.
proof fn lemma_executed_well_formed(a: Machine, instruction: Instr, sample: u32)
    requires
        a.well_formed(),
    ensures
        a.executed(instruction, sample).0.well_formed(),
{
    lemma_unwound_keeps_global(a.scopes, a.frames);
    let after = a.executed(instruction, sample).0;
    match instruction {
        Instr::Assign(name) => {
            if a.stack.len() > 0 {
                lemma_layer(a.scopes, name);
                assert(assign(a.scopes, name, a.stack.last()).len() == a.scopes.len());
            }
        },
        Instr::ShadowAssign(name) => {
            if a.stack.len() > 0 {
                assert(put(a.scopes, name, a.stack.last()).len() == a.scopes.len());
            }
        },
        Instr::CallRoutine => {
            assert(after.scopes.len() > 0);
        },
        Instr::SkipIfNot(block) => {
            assert(after.scopes.len() > 0);
        },
        Instr::IfElse(then, otherwise) => {
            assert(after.scopes.len() > 0);
        },
        _ => {
            assert(after.scopes.len() > 0);
        },
    }
}

/// Abandoning code never takes the global scope.
pub proof fn lemma_unwound_keeps_global(scopes: Seq<Scope>, frames: Seq<Activation>)
    requires
        scopes.len() > 0,
    ensures
        unwound(scopes, frames).len() > 0,
    decreases frames.len(),
{
    if frames.len() > 0 {
        lemma_unwound_keeps_global(
            if frames.last().call {
                left(scopes)
            } else {
                scopes
            },
            frames.drop_last(),
        );
    }
}

/// A piece of code that is being executed.
struct Frame {
    code: Vec<Instruction>,
    next: usize,
    call: bool,
}

impl View for Frame {
    type V = Activation;

    closed spec fn view(&self) -> Activation {
        Activation { code: code_view(self.code@), next: self.next as nat, call: self.call }
    }
}

/// The stack machine. It keeps its variables from one program to the next.
pub struct VM {
    stack: Vec<Value>,
    scopes: ScopeStack,
    rng: tiny_rng::Rng,
    frames: Vec<Frame>,
}

impl View for VM {
    type V = Machine;

    closed spec fn view(&self) -> Machine {
        Machine {
            stack: values_view(self.stack@),
            scopes: self.scopes@,
            frames: Seq::new(self.frames@.len(), |i: int| self.frames@[i]@),
        }
    }
}

impl Default for VM {
    /// The machine that `VM::new` makes.
    fn default() -> (r: VM)
        ensures
            r@ == (Machine {
                stack: Seq::empty(),
                scopes: seq![Seq::<(Seq<char>, Val)>::empty()],
                frames: Seq::empty(),
            }),
            r@.well_formed(),
    {
        VM::new()
    }
}

impl VM {
    /// A machine with an empty operand stack, an empty global scope, no code, and a
    /// generator with the seed zero.
    pub fn new() -> (r: VM)
        ensures
            r@ == (Machine {
                stack: Seq::empty(),
                scopes: seq![Seq::<(Seq<char>, Val)>::empty()],
                frames: Seq::empty(),
            }),
            r@.well_formed(),
    {
        let r = VM {
            stack: Vec::new(),
            scopes: ScopeStack::new(),
            rng: seeded(0),
            frames: Vec::new(),
        };
        assert(r@.stack =~= Seq::<Val>::empty());
        assert(r@.frames =~= Seq::<Activation>::empty());
        r
    }

    /// Starts on a program. If code is being executed, it goes on when the program has
    /// ended.
    pub fn load(&mut self, program: &Vec<Instruction>)
        requires
            old(self)@.well_formed(),
        ensures
            final(self)@ == old(self)@.entered(code_view(program@), false),
            final(self)@.well_formed(),
    {
        self.enter(copy_code(program), false);
    }

    /// Pushes a value on the operand stack. This is how the host answers `Evaluate`.
    pub fn push(&mut self, x: Value)
        ensures
            final(self)@ == old(self)@.pushed(x@),
            old(self)@.well_formed() ==> final(self)@.well_formed(),
    {
        self.stack.push(x);
        assert(self@.stack =~= old(self)@.stack.push(x@));
        assert(self@.frames =~= old(self)@.frames);
    }

    /// Takes the top of the operand stack as a number. `None` says that the stack is
    /// empty: the program had no result.
    pub fn pop_result(&mut self) -> (r: Option<Number>)
        ensures
            old(self)@.stack.len() == 0 ==> r is None && final(self)@ == old(self)@,
            old(self)@.stack.len() > 0 ==> r is Some && r.unwrap().bits == as_number(
                old(self)@.stack.last(),
            ) && final(self)@ == old(self)@.with_stack(old(self)@.stack.drop_last()),
    {
        match self.stack.pop() {
            Some(result) => {
                assert(self@.stack =~= old(self)@.stack.drop_last());
                assert(self@.frames =~= old(self)@.frames);
                Some(result.as_number())
            },
            None => {
                assert(self@.stack =~= old(self)@.stack);
                assert(self@.frames =~= old(self)@.frames);
                None
            },
        }
    }

    /// The code of the routine on top of the operand stack, if a routine is there.
    pub fn peek_routine(&self) -> (r: Option<&Vec<Instruction>>)
        ensures
            match r {
                Some(code) => self@.stack.len() > 0 && self@.stack.last() == Val::Routine(
                    code_view(code@),
                ),
                None => self@.stack.len() == 0 || self@.stack.last() is Number,
            },
    {
        let n = self.stack.len();
        if n == 0 {
            return None;
        }
        match &self.stack[n - 1] {
            Value::Routine(routine) => Some(routine),
            _ => None,
        }
    }

    /// Whether the machine is well formed. A machine that was made by `new` and changed by
    /// its own methods always is.
    pub fn is_well_formed(&self) -> (r: bool)
        ensures
            r == self@.well_formed(),
    {
        if self.scopes.depth() == 0 {
            return false;
        }
        let mut i: usize = 0;
        while i < self.frames.len()
            invariant
                i <= self.frames@.len(),
                forall|k: int| 0 <= k < i ==> (#[trigger] self@.frames[k]).next
                    <= self@.frames[k].code.len(),
            decreases self.frames.len() - i,
        {
            if self.frames[i].next > self.frames[i].code.len() {
                assert(self@.frames[i as int].next > self@.frames[i as int].code.len());
                return false;
            }
            i += 1;
        }
        true
    }

    /// Whether the next step asks the generator for a sample.
    pub fn next_is_random(&self) -> (r: bool)
        ensures
            r == (self@.current() == Some(Instr::PushRandom)),
    {
        let n = self.frames.len();
        if n == 0 {
            return false;
        }
        let frame = &self.frames[n - 1];
        if frame.next < frame.code.len() {
            match &frame.code[frame.next] {
                Instruction::PushRandom => true,
                _ => false,
            }
        } else {
            false
        }
    }

    /// One step of the machine. Where the step asks the generator, the sample may be any.
    pub fn step(&mut self) -> (r: Action)
        requires
            old(self)@.well_formed(),
        ensures
            final(self)@.well_formed(),
            old(self)@.current() != Some(Instr::PushRandom) ==> (final(self)@, r@) == old(
                self,
            )@.step(0),
            old(self)@.current() == Some(Instr::PushRandom) ==> exists|sample: u32|
                (final(self)@, r@) == #[trigger] old(self)@.step(sample),
    {
        if self.next_is_random() {
            let sample = draw(&mut self.rng);
            assert(self@ == old(self)@) by {
                assert(self@.frames =~= old(self)@.frames);
            }
            self.step_with(sample)
        } else {
            self.step_with(0)
        }
    }

    /// One step of the machine, with the sample that the generator gives if it is asked.
    pub fn step_with(&mut self, sample: u32) -> (r: Action)
        requires
            old(self)@.well_formed(),
        ensures
            (final(self)@, r@) == old(self)@.step(sample),
            final(self)@.well_formed(),
    {
        proof {
            lemma_step_well_formed(self@, sample);
        }
        let mut frame = match self.frames.pop() {
            Some(frame) => frame,
            None => {
                assert(self@.frames =~= old(self)@.frames);
                return Action::Finish;
            },
        };
        if frame.next < frame.code.len() {
            let instruction = frame.code[frame.next].clone();
            frame.next = frame.next + 1;
            self.frames.push(frame);
            assert(self@.frames =~= old(self)@.advanced().frames);
            assert(instruction@ == old(self)@.current()->0);
            self.execute(instruction, sample)
        } else {
            if frame.call {
                self.scopes.pop();
            }
            assert(self@.frames =~= old(self)@.returned().frames);
            Action::Proceed
        }
    }

    /// Starts on a piece of code.
    fn enter(&mut self, code: Vec<Instruction>, call: bool)
        requires
            old(self)@.well_formed(),
        ensures
            final(self)@ == old(self)@.entered(code_view(code@), call),
            final(self)@.well_formed(),
    {
        self.frames.push(Frame { code, next: 0, call });
        assert(self@.frames =~= old(self)@.entered(code_view(code@), call).frames);
    }

    /// Abandons all code.
    fn abort(&mut self, msg: &str) -> (r: Action)
        ensures
            (final(self)@, r@) == old(self)@.aborted(msg@),
    {
        loop
            invariant
                self@.stack == old(self)@.stack,
                unwound(self@.scopes, self@.frames) == unwound(old(self)@.scopes, old(self)@.frames),
            decreases self.frames@.len(),
        {
            let ghost before = self@;
            match self.frames.pop() {
                Some(frame) => {
                    if frame.call {
                        self.scopes.pop();
                    }
                    assert(self@.frames =~= before.frames.drop_last());
                },
                None => {
                    assert(self@.frames =~= Seq::<Activation>::empty());
                    return Action::Abort(String::from_str(msg));
                },
            }
        }
    }

    fn binary_op(&mut self, op: ArithmeticOp) -> (r: Action)
        ensures
            (final(self)@, r@) == old(self)@.binary(op),
    {
        let rhs = match self.stack.pop() {
            Some(v) => v.as_number(),
            None => {
                return self.abort("missing rhs");
            },
        };
        assert(self@ == old(self)@.with_stack(old(self)@.stack.drop_last())) by {
            assert(self@.stack =~= old(self)@.stack.drop_last());
            assert(self@.frames =~= old(self)@.frames);
        }
        let lhs = match self.stack.pop() {
            Some(v) => v.as_number(),
            None => {
                return self.abort("missing lhs");
            },
        };
        assert(self@.stack =~= old(self)@.stack.drop_last().drop_last());
        assert(self@.frames =~= old(self)@.frames);
        Action::Evaluate(Operation::Binary(op, lhs, rhs))
    }

    fn unary_op(&mut self, op: UnaryOp) -> (r: Action)
        ensures
            (final(self)@, r@) == old(self)@.unary(op),
    {
        let operand = match self.stack.pop() {
            Some(v) => v.as_number(),
            None => {
                return self.abort("missing operand");
            },
        };
        assert(self@.stack =~= old(self)@.stack.drop_last());
        assert(self@.frames =~= old(self)@.frames);
        Action::Evaluate(Operation::Unary(op, operand))
    }

    fn comparison(&mut self, c: Comparison) -> (r: Action)
        ensures
            (final(self)@, r@) == old(self)@.compared(c),
    {
        let rhs = match self.stack.pop() {
            Some(v) => v.as_number(),
            None => {
                return self.abort("missing rhs");
            },
        };
        assert(self@ == old(self)@.with_stack(old(self)@.stack.drop_last())) by {
            assert(self@.stack =~= old(self)@.stack.drop_last());
            assert(self@.frames =~= old(self)@.frames);
        }
        let lhs = match self.stack.pop() {
            Some(v) => v.as_number(),
            None => {
                return self.abort("missing lhs");
            },
        };
        let holds = match c {
            Comparison::EQ => lhs.equals(rhs),
            Comparison::NEQ => !lhs.equals(rhs),
            Comparison::LT => lhs.less_than(rhs),
            Comparison::LTE => lhs.at_most(rhs),
            Comparison::GT => rhs.less_than(lhs),
            Comparison::GTE => rhs.at_most(lhs),
        };
        assert(holds == compare(c, lhs.bits, rhs.bits));
        self.stack.push(Value::Number(Number::from_bool(holds)));
        assert(self@.stack =~= old(self)@.compared(c).0.stack);
        assert(self@.frames =~= old(self)@.frames);
        Action::Proceed
    }

    fn conditional(&mut self, then: Vec<Instruction>, otherwise: Option<Vec<Instruction>>) -> (r:
        Action)
        requires
            old(self)@.well_formed(),
        ensures
            (final(self)@, r@) == old(self)@.branched(
                code_view(then@),
                match otherwise {
                    Some(code) => Some(code_view(code@)),
                    None => None,
                },
            ),
    {
        let operand = match self.stack.pop() {
            Some(v) => v.as_number(),
            None => {
                return self.abort("missing operand");
            },
        };
        assert(self@ == old(self)@.with_stack(old(self)@.stack.drop_last())) by {
            assert(self@.stack =~= old(self)@.stack.drop_last());
            assert(self@.frames =~= old(self)@.frames);
        }
        if operand.is_truthy() {
            self.enter(then, false);
        } else {
            match otherwise {
                Some(code) => {
                    self.enter(code, false);
                },
                None => {},
            }
        }
        Action::Proceed
    }

    fn load_local(&mut self, identifier: &str) -> (r: Action)
        ensures
            (final(self)@, r@) == old(self)@.loaded(identifier@),
    {
        let found = match self.scopes.get(identifier) {
            Some(v) => Some(v.clone()),
            None => None,
        };
        match found {
            Some(x) => {
                self.stack.push(x);
                assert(self@.stack =~= old(self)@.stack.push(x@));
                assert(self@.frames =~= old(self)@.frames);
                Action::Proceed
            },
            None => {
                self.stack.push(Value::Number(Number::from_bits(0)));
                assert(self@.stack =~= old(self)@.stack.push(Val::Number(0)));
                assert(self@.frames =~= old(self)@.frames);
                let mut msg = String::from_str("WARN: missing variable '");
                msg.append(identifier);
                msg.append("'");
                Action::Warn(msg)
            },
        }
    }

    fn store(&mut self, identifier: String, shadow: bool) -> (r: Action)
        requires
            old(self)@.well_formed(),
        ensures
            (final(self)@, r@) == old(self)@.stored(identifier@, shadow),
    {
        let value = match self.stack.pop() {
            Some(v) => v,
            None => {
                return self.abort("missing assignment value");
            },
        };
        if shadow {
            let _ = self.scopes.put(identifier, value);
        } else {
            let _ = self.scopes.set(identifier, value);
        }
        assert(self@.stack =~= old(self)@.stack.drop_last());
        assert(self@.frames =~= old(self)@.frames);
        Action::Proceed
    }

    fn call_routine(&mut self) -> (r: Action)
        requires
            old(self)@.well_formed(),
        ensures
            (final(self)@, r@) == old(self)@.called(),
    {
        match self.stack.pop() {
            Some(value) => {
                assert(self@.stack =~= old(self)@.stack.drop_last());
                assert(self@.frames =~= old(self)@.frames);
                match value {
                    Value::Routine(routine) => {
                        self.scopes.push();
                        self.enter(routine, true);
                        Action::Proceed
                    },
                    Value::Number(_) => Action::Warn(
                        String::from_str("WARN: current value is not callable"),
                    ),
                }
            },
            None => {
                assert(self@.stack =~= old(self)@.stack);
                assert(self@.frames =~= old(self)@.frames);
                Action::Warn(String::from_str("WARN: no current value to call"))
            },
        }
    }

    fn leave(&mut self) -> (r: Action)
        ensures
            (final(self)@, r@) == old(self)@.executed(Instr::Leave, 0),
    {
        if self.scopes.depth() > 1 {
            self.scopes.pop();
            assert(self@.frames =~= old(self)@.frames);
            Action::Proceed
        } else {
            self.abort("no scope to leave")
        }
    }

    /// Executes one instruction.
    fn execute(&mut self, instruction: Instruction, sample: u32) -> (r: Action)
        requires
            old(self)@.well_formed(),
        ensures
            (final(self)@, r@) == old(self)@.executed(instruction@, sample),
    {
        match instruction {
            Instruction::Add => self.binary_op(ArithmeticOp::Add),
            Instruction::Sub => self.binary_op(ArithmeticOp::Sub),
            Instruction::Mul => self.binary_op(ArithmeticOp::Mul),
            Instruction::Div => self.binary_op(ArithmeticOp::Div),
            Instruction::Mod => self.binary_op(ArithmeticOp::Mod),
            Instruction::Pow => self.binary_op(ArithmeticOp::Pow),
            Instruction::Sine => self.unary_op(UnaryOp::Sine),
            Instruction::Cosine => self.unary_op(UnaryOp::Cosine),
            Instruction::Log => self.unary_op(UnaryOp::Log),
            Instruction::Round => self.unary_op(UnaryOp::Round),
            Instruction::Floor => self.unary_op(UnaryOp::Floor),
            Instruction::CmpEQ => self.comparison(Comparison::EQ),
            Instruction::CmpNEQ => self.comparison(Comparison::NEQ),
            Instruction::CmpLT => self.comparison(Comparison::LT),
            Instruction::CmpLTE => self.comparison(Comparison::LTE),
            Instruction::CmpGT => self.comparison(Comparison::GT),
            Instruction::CmpGTE => self.comparison(Comparison::GTE),
            Instruction::Push(x) => Action::Evaluate(Operation::Convert(x)),
            Instruction::LoadLocal(ident) => self.load_local(ident.as_str()),
            Instruction::Assign(ident) => self.store(ident, false),
            Instruction::ShadowAssign(ident) => self.store(ident, true),
            Instruction::CallRoutine => self.call_routine(),
            Instruction::PushRoutine(routine) => {
                self.push(Value::Routine(routine));
                Action::Proceed
            },
            Instruction::SkipIfNot(block) => self.conditional(block, None),
            Instruction::IfElse(if_block, else_block) => self.conditional(
                if_block,
                Some(else_block),
            ),
            Instruction::PushRandom => {
                self.push(Value::Number(Number::unit_fraction(sample)));
                Action::Proceed
            },
            Instruction::Enter => {
                self.scopes.push();
                assert(self@.frames =~= old(self)@.frames);
                Action::Proceed
            },
            Instruction::Leave => self.leave(),
        }
    }
}

} // verus!
