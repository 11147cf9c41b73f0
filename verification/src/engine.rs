//! The execution engine: a linear fetch-decode-execute loop over an
//! operand stack and a local-variable slot array.
//!
//! One run owns its state: the stack and the slots start empty, and
//! nothing survives the run. The instruction pointer starts at 0 and moves
//! forward by 1; there are no jumps. A `LoadConst` operand is resolved as
//! the literal value itself (there is no separate constant pool), so it
//! must fit in a signed 64-bit value. Addition is fixed-width signed
//! 64-bit with wrap-around on overflow. Every precondition violation is a
//! fault that halts the run immediately with an error; a program that
//! runs past its last instruction without `ReturnValue` faults too.
//!
//! The spec function [`run_program`] gives the outcome of a run;
//! [`execute`] is proved to return exactly that.

use vstd::prelude::*;

use crate::instr::{Instruction, Value};

verus! {

/// An execution-time fault. Fatal to the run: execution halts immediately
/// and no partial result is returned.
#[derive(Clone, Copy, Debug, PartialEq, Eq, Structural)]
pub enum ExecError {
    /// A pop was needed and the operand stack held too few values.
    StackUnderflow,
    /// `LoadFast` read a slot that no `StoreFast` had set.
    UnsetLocalSlot(usize),
    /// A `LoadConst` operand too large to resolve as a 64-bit value.
    ConstantIndexOutOfRange(usize),
    /// The instruction pointer ran past the end of the sequence without
    /// reaching `ReturnValue`.
    FellOffEnd,
}

/// Signed 64-bit addition with wrap-around on overflow: the engine's
/// declared overflow policy.
pub open spec fn wrap_add(a: i64, b: i64) -> i64 {
    if a + b > i64::MAX {
        (a + b - 0x1_0000_0000_0000_0000) as i64
    } else if a + b < i64::MIN {
        (a + b + 0x1_0000_0000_0000_0000) as i64
    } else {
        (a + b) as i64
    }
}

/// The sum of two runtime values.
pub open spec fn value_add(a: Value, b: Value) -> Value {
    match (a, b) {
        (Value::Int(x), Value::Int(y)) => Value::Int(wrap_add(x, y)),
    }
}

/// Writing slot `i`: slots below the current extent are updated in place;
/// a slot beyond it grows the array to reach it, the skipped slots staying
/// unset.
pub open spec fn store_slot(slots: Seq<Option<Value>>, i: int, v: Value) -> Seq<Option<Value>>
    recommends
        0 <= i,
{
    if i < slots.len() {
        slots.update(i, Some(v))
    } else {
        slots + Seq::new((i - slots.len()) as nat, |k: int| None::<Value>) + seq![Some(v)]
    }
}

/// The outcome of executing `prog` in a state with operand stack `stack`
/// (last element on top) and local slots `slots`: the returned value, or
/// the first fault.
pub open spec fn run(prog: Seq<Instruction>, stack: Seq<Value>, slots: Seq<Option<Value>>) -> Result<
    Value,
    ExecError,
>
    decreases prog.len(),
{
    if prog.len() == 0 {
        Err(ExecError::FellOffEnd)
    } else {
        let rest = prog.skip(1);
        match prog[0] {
            Instruction::LoadConst(c) => {
                if c <= i64::MAX {
                    run(rest, stack.push(Value::Int(c as i64)), slots)
                } else {
                    Err(ExecError::ConstantIndexOutOfRange(c))
                }
            },
            Instruction::StoreFast(i) => {
                if stack.len() == 0 {
                    Err(ExecError::StackUnderflow)
                } else {
                    run(rest, stack.drop_last(), store_slot(slots, i as int, stack.last()))
                }
            },
            Instruction::LoadFast(i) => {
                if i < slots.len() {
                    match slots[i as int] {
                        Some(v) => run(rest, stack.push(v), slots),
                        None => Err(ExecError::UnsetLocalSlot(i)),
                    }
                } else {
                    Err(ExecError::UnsetLocalSlot(i))
                }
            },
            Instruction::BinaryAdd => {
                if stack.len() < 2 {
                    Err(ExecError::StackUnderflow)
                } else {
                    let b = stack.last();
                    let a = stack[stack.len() - 2];
                    run(rest, stack.drop_last().drop_last().push(value_add(a, b)), slots)
                }
            },
            Instruction::ReturnValue => {
                if stack.len() == 0 {
                    Err(ExecError::StackUnderflow)
                } else {
                    Ok(stack.last())
                }
            },
        }
    }
}

/// The outcome of one whole run of `prog`, from empty stack and all slots
/// unset.
pub open spec fn run_program(prog: Seq<Instruction>) -> Result<Value, ExecError> {
    run(prog, Seq::empty(), Seq::empty())
}

/// Execution is deterministic: two runs of the same instruction sequence,
/// each from its own fresh (empty) state, have the same outcome — the
/// same returned value, or the same fault.
pub proof fn lemma_run_deterministic(
    prog: Seq<Instruction>,
    r1: Result<Value, ExecError>,
    r2: Result<Value, ExecError>,
)
    requires
        r1 == run_program(prog),
        r2 == run_program(prog),
    ensures
        r1 == r2,
{
}

fn store_into(slots: &mut Vec<Option<Value>>, i: usize, v: Value)
    ensures
        final(slots)@ == store_slot(old(slots)@, i as int, v),
{
    if i < slots.len() {
        slots[i] = Some(v);
    } else {
        let ghost base = slots@;
        while slots.len() < i
            invariant
                base.len() <= i,
                base.len() <= slots@.len() <= i,
                slots@ == base + Seq::new(
                    (slots@.len() - base.len()) as nat,
                    |k: int| None::<Value>,
                ),
            decreases i - slots@.len(),
        {
            slots.push(None);
            proof {
                assert(slots@ =~= base + Seq::new(
                    (slots@.len() - base.len()) as nat,
                    |k: int| None::<Value>,
                ));
            }
        }
        slots.push(Some(v));
        proof {
            assert(slots@ =~= store_slot(base, i as int, v));
        }
    }
}

/// Execute an instruction sequence from a fresh state: empty operand
/// stack, no slot set. Returns the value of the `ReturnValue` that halts
/// the run, or the first fault; the outcome is exactly [`run_program`] of
/// the sequence. Faults are ordinary reported errors, never a panic.
pub fn execute(instructions: &Vec<Instruction>) -> (r: Result<Value, ExecError>)
    ensures
        r == run_program(instructions@),
{
    let n = instructions.len();
    let mut stack: Vec<Value> = Vec::new();
    let mut slots: Vec<Option<Value>> = Vec::new();
    let mut pc: usize = 0;
    proof {
        assert(instructions@.skip(0) =~= instructions@);
    }
    while pc < n
        invariant
            pc <= n,
            n == instructions@.len(),
            run(instructions@.skip(pc as int), stack@, slots@) == run_program(instructions@),
        decreases n - pc,
    {
        let ghost prog_rest = instructions@.skip(pc as int);
        proof {
            assert(prog_rest.skip(1) =~= instructions@.skip(pc as int + 1));
            assert(prog_rest[0] == instructions@[pc as int]);
        }
        let ins = instructions[pc];
        match ins {
            Instruction::LoadConst(c) => {
                if (c as u64) <= (i64::MAX as u64) {
                    stack.push(Value::Int(c as i64));
                } else {
                    return Err(ExecError::ConstantIndexOutOfRange(c));
                }
            },
            Instruction::StoreFast(i) => {
                let ghost stack_old = stack@;
                match stack.pop() {
                    Some(v) => {
                        proof {
                            assert(stack@ =~= stack_old.drop_last());
                        }
                        store_into(&mut slots, i, v);
                    },
                    None => {
                        return Err(ExecError::StackUnderflow);
                    },
                }
            },
            Instruction::LoadFast(i) => {
                if i < slots.len() {
                    match slots[i] {
                        Some(v) => {
                            stack.push(v);
                        },
                        None => {
                            return Err(ExecError::UnsetLocalSlot(i));
                        },
                    }
                } else {
                    return Err(ExecError::UnsetLocalSlot(i));
                }
            },
            Instruction::BinaryAdd => {
                let ghost stack_old = stack@;
                let b = match stack.pop() {
                    Some(v) => v,
                    None => {
                        return Err(ExecError::StackUnderflow);
                    },
                };
                let a = match stack.pop() {
                    Some(v) => v,
                    None => {
                        return Err(ExecError::StackUnderflow);
                    },
                };
                let Value::Int(x) = a;
                let Value::Int(y) = b;
                stack.push(Value::Int(x.wrapping_add(y)));
                proof {
                    assert(stack@ =~= stack_old.drop_last().drop_last().push(
                        value_add(a, b),
                    ));
                }
            },
            Instruction::ReturnValue => {
                match stack.pop() {
                    Some(v) => {
                        return Ok(v);
                    },
                    None => {
                        return Err(ExecError::StackUnderflow);
                    },
                }
            },
        }
        pc = pc + 1;
    }
    proof {
        assert(instructions@.skip(n as int) =~= Seq::<Instruction>::empty());
    }
    Err(ExecError::FellOffEnd)
}

} // verus!
