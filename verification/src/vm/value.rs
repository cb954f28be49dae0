//! What the machine computes with: numbers and routines.

use vstd::prelude::*;
use crate::number::Number;
use crate::number::ONE_BITS;
use crate::vm::Instr;
use crate::vm::Instruction;
use crate::vm::code_view;
use crate::vm::copy_code;

verus! {

/// A value on the operand stack or in a variable.
#[derive(Debug)]
pub enum Value {
    Number(Number),
    /// A closure: nothing but its code.
    Routine(Vec<Instruction>),
}

/// The mathematical value of a `Value`: the bit pattern of a number, or the code of a
/// routine.
pub ghost enum Val {
    Number(u64),
    Routine(Seq<Instr>),
}

impl View for Value {
    type V = Val;

    open spec fn view(&self) -> Val {
        match *self {
            Value::Number(x) => Val::Number(x.bits),
            Value::Routine(code) => Val::Routine(code_view(code@)),
        }
    }
}

/// The values of a list of `Value`s.
pub open spec fn values_view(values: Seq<Value>) -> Seq<Val> {
    Seq::new(values.len(), |i: int| values[i]@)
}

/// A value read as a number: a routine counts as one if it has code and as zero if it has
/// none.
pub open spec fn as_number(v: Val) -> u64 {
    match v {
        Val::Number(bits) => bits,
        Val::Routine(code) => if code.len() > 0 {
            ONE_BITS
        } else {
            0
        },
    }
}

impl Value {
    /// The value read as a number.
    pub fn as_number(&self) -> (r: Number)
        ensures
            r.bits == as_number(self@),
    {
        match self {
            Value::Number(v) => *v,
            Value::Routine(routine) => {
                assert(code_view(routine@).len() == routine@.len());
                Number::from_bool(routine.len() > 0)
            },
        }
    }
}

impl Clone for Value {
    fn clone(&self) -> (r: Value)
        ensures
            r@ == self@,
    {
        match self {
            Value::Number(v) => Value::Number(*v),
            Value::Routine(routine) => Value::Routine(copy_code(routine)),
        }
    }
}

} // verus!
