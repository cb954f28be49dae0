//! The bytecode and the machine that executes it.

use vstd::prelude::*;
use crate::number::Numeral;

pub use crate::vm::machine::VM;
pub use crate::vm::machine::Action;
pub use crate::vm::machine::Operation;
pub use crate::vm::value::Value;

pub mod arithmetic;
pub mod determinism;
pub mod machine;
pub mod random;
pub mod scope;
pub mod value;

verus! {

/// One instruction of the stack machine.
#[derive(Debug, PartialEq)]
pub enum Instruction {
    Add,
    Sub,
    Sine,
    Cosine,
    Log,
    Round,
    Floor,
    /// Pushes the value of a numeral.
    Push(Numeral),
    /// Pops a value and binds it: to the innermost existing binding of the name, or, where
    /// there is none, in the innermost scope.
    Assign(String),
    /// Pops a value and binds it in the innermost scope.
    ShadowAssign(String),
    LoadLocal(String),
    CallRoutine,
    PushRoutine(Vec<Instruction>),
    /// Pops a condition and runs the block where it is not zero.
    SkipIfNot(Vec<Instruction>),
    /// Pops a condition and runs the first block where it is not zero, else the second.
    IfElse(Vec<Instruction>, Vec<Instruction>),
    PushRandom,
    Mul,
    Mod,
    Div,
    Pow,
    CmpEQ,
    CmpNEQ,
    CmpLT,
    CmpLTE,
    CmpGT,
    CmpGTE,
    Enter,
    Leave,
}

/// The mathematical value of an instruction.
pub ghost enum Instr {
    Add,
    Sub,
    Sine,
    Cosine,
    Log,
    Round,
    Floor,
    Push(Seq<char>),
    Assign(Seq<char>),
    ShadowAssign(Seq<char>),
    LoadLocal(Seq<char>),
    CallRoutine,
    PushRoutine(Seq<Instr>),
    SkipIfNot(Seq<Instr>),
    IfElse(Seq<Instr>, Seq<Instr>),
    PushRandom,
    Mul,
    Mod,
    Div,
    Pow,
    CmpEQ,
    CmpNEQ,
    CmpLT,
    CmpLTE,
    CmpGT,
    CmpGTE,
    Enter,
    Leave,
}

/// The values of a list of instructions.
pub open spec fn code_view(code: Seq<Instruction>) -> Seq<Instr>
    decreases code,
{
    Seq::new(
        code.len(),
        |i: int|
            if 0 <= i < code.len() {
                instruction_view(code[i])
            } else {
                Instr::Add
            },
    )
}

/// The value of an instruction.
pub open spec fn instruction_view(instruction: Instruction) -> Instr
    decreases instruction,
{
    match instruction {
        Instruction::Add => Instr::Add,
        Instruction::Sub => Instr::Sub,
        Instruction::Sine => Instr::Sine,
        Instruction::Cosine => Instr::Cosine,
        Instruction::Log => Instr::Log,
        Instruction::Round => Instr::Round,
        Instruction::Floor => Instr::Floor,
        Instruction::Push(x) => Instr::Push(x@),
        Instruction::Assign(name) => Instr::Assign(name@),
        Instruction::ShadowAssign(name) => Instr::ShadowAssign(name@),
        Instruction::LoadLocal(name) => Instr::LoadLocal(name@),
        Instruction::CallRoutine => Instr::CallRoutine,
        Instruction::PushRoutine(code) => Instr::PushRoutine(code_view(code@)),
        Instruction::SkipIfNot(code) => Instr::SkipIfNot(code_view(code@)),
        Instruction::IfElse(a, b) => Instr::IfElse(code_view(a@), code_view(b@)),
        Instruction::PushRandom => Instr::PushRandom,
        Instruction::Mul => Instr::Mul,
        Instruction::Mod => Instr::Mod,
        Instruction::Div => Instr::Div,
        Instruction::Pow => Instr::Pow,
        Instruction::CmpEQ => Instr::CmpEQ,
        Instruction::CmpNEQ => Instr::CmpNEQ,
        Instruction::CmpLT => Instr::CmpLT,
        Instruction::CmpLTE => Instr::CmpLTE,
        Instruction::CmpGT => Instr::CmpGT,
        Instruction::CmpGTE => Instr::CmpGTE,
        Instruction::Enter => Instr::Enter,
        Instruction::Leave => Instr::Leave,
    }
}

impl View for Instruction {
    type V = Instr;

    open spec fn view(&self) -> Instr {
        instruction_view(*self)
    }
}

/// A copy of a list of instructions.
pub fn copy_code(code: &Vec<Instruction>) -> (r: Vec<Instruction>)
    ensures
        code_view(r@) == code_view(code@),
    decreases code,
{
    let mut out: Vec<Instruction> = Vec::new();
    let mut i: usize = 0;
    while i < code.len()
        invariant
            i <= code.len(),
            out.len() == i,
            forall|k: int| 0 <= k < i ==> instruction_view(out@[k]) == instruction_view(code@[k]),
        decreases code.len() - i,
    {
        let c = code[i].clone();
        out.push(c);
        i += 1;
    }
    assert(code_view(out@) =~= code_view(code@));
    out
}

impl Clone for Instruction {
    fn clone(&self) -> (r: Instruction)
        ensures
            r@ == self@,
        decreases self,
    {
        match self {
            Instruction::Add => Instruction::Add,
            Instruction::Sub => Instruction::Sub,
            Instruction::Sine => Instruction::Sine,
            Instruction::Cosine => Instruction::Cosine,
            Instruction::Log => Instruction::Log,
            Instruction::Round => Instruction::Round,
            Instruction::Floor => Instruction::Floor,
            Instruction::Push(x) => Instruction::Push(x.clone()),
            Instruction::Assign(name) => Instruction::Assign(name.clone()),
            Instruction::ShadowAssign(name) => Instruction::ShadowAssign(name.clone()),
            Instruction::LoadLocal(name) => Instruction::LoadLocal(name.clone()),
            Instruction::CallRoutine => Instruction::CallRoutine,
            Instruction::PushRoutine(code) => Instruction::PushRoutine(copy_code(code)),
            Instruction::SkipIfNot(code) => Instruction::SkipIfNot(copy_code(code)),
            Instruction::IfElse(a, b) => Instruction::IfElse(copy_code(a), copy_code(b)),
            Instruction::PushRandom => Instruction::PushRandom,
            Instruction::Mul => Instruction::Mul,
            Instruction::Mod => Instruction::Mod,
            Instruction::Div => Instruction::Div,
            Instruction::Pow => Instruction::Pow,
            Instruction::CmpEQ => Instruction::CmpEQ,
            Instruction::CmpNEQ => Instruction::CmpNEQ,
            Instruction::CmpLT => Instruction::CmpLT,
            Instruction::CmpLTE => Instruction::CmpLTE,
            Instruction::CmpGT => Instruction::CmpGT,
            Instruction::CmpGTE => Instruction::CmpGTE,
            Instruction::Enter => Instruction::Enter,
            Instruction::Leave => Instruction::Leave,
        }
    }
}

} // verus!
