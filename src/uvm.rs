use vstd::prelude::*;
use vstd::wrapping::i64_specs;

use crate::error::UVMError;
use crate::instruction::{Instruction, InstructionType, Integer};
use crate::loader::{parse_program, parse_source};
use crate::trap::Trap;

verus! {

/// The abstract state of the engine.
pub ghost struct Machine {
    pub stack: Seq<Integer>,
    pub program: Seq<Instruction>,
    pub ip: usize,
    pub halted: bool,
}

/// A fresh engine holding `program`: empty stack, pointer 0, not halted.
pub open spec fn start(program: Seq<Instruction>) -> Machine {
    Machine { stack: Seq::empty(), program, ip: 0, halted: false }
}

/// Integer division rounding toward zero.
pub open spec fn div_trunc(x: int, d: int) -> int {
    if x == 0 {
        0
    } else if x > 0 && d > 0 {
        x / d
    } else if x < 0 && d < 0 {
        (-x) / (-d)
    } else if x < 0 {
        -((-x) / d)
    } else {
        -(x / (-d))
    }
}

/// Truncating 64-bit division; the one overflowing case, `MIN / -1`, wraps to `MIN`.
pub open spec fn quotient(a: Integer, b: Integer) -> Integer {
    if a == i64::MIN && b == -1 {
        i64::MIN
    } else {
        div_trunc(a as int, b as int) as Integer
    }
}

/// The value that a binary opcode computes from `a` (deeper) and `b` (top).
pub open spec fn binary_result(op: InstructionType, a: Integer, b: Integer) -> Integer {
    match op {
        InstructionType::Add => i64_specs::wrapping_add(a, b),
        InstructionType::Subtract => i64_specs::wrapping_sub(a, b),
        InstructionType::Multiply => i64_specs::wrapping_mul(a, b),
        InstructionType::Divide => quotient(a, b),
        _ => if a == b {
            1
        } else {
            0
        },
    }
}

pub open spec fn is_binary(op: InstructionType) -> bool {
    match op {
        InstructionType::Add | InstructionType::Subtract | InstructionType::Multiply
        | InstructionType::Divide | InstructionType::Equal => true,
        _ => false,
    }
}

/// The stack after `pop b, pop a, push v`.
pub open spec fn replace_top_two(stack: Seq<Integer>, v: Integer) -> Seq<Integer> {
    stack.take(stack.len() - 2).push(v)
}

/// One fetch-decode-execute step. `Ok` carries the next state and the value
/// written out by `Dump`; `Err` carries the trap, which leaves the state as it was.
/// A halted machine stays where it is.
pub open spec fn step(m: Machine) -> Result<(Machine, Option<Integer>), Trap> {
    if m.halted {
        Ok((m, None))
    } else if m.ip >= m.program.len() {
        Err(Trap::InvalidInstructionPointer)
    } else {
        let ins = m.program[m.ip as int];
        let next = (m.ip + 1) as usize;
        let len = m.stack.len();
        match ins.instruction_type {
            InstructionType::Push => match ins.operand {
                Some(v) => Ok((Machine { stack: m.stack.push(v), ip: next, ..m }, None)),
                None => Err(Trap::IllegalOperand),
            },
            InstructionType::Pop => if len < 1 {
                Err(Trap::StackUnderflow)
            } else {
                Ok((Machine { stack: m.stack.drop_last(), ip: next, ..m }, None))
            },
            InstructionType::Duplicate => match ins.operand {
                Some(n) => if n < 0 {
                    Err(Trap::IllegalOperand)
                } else if n >= len {
                    Err(Trap::StackUnderflow)
                } else {
                    Ok((Machine { stack: m.stack.push(m.stack[len - 1 - n]), ip: next, ..m }, None))
                },
                None => Err(Trap::IllegalOperand),
            },
            InstructionType::Jump => match ins.operand {
                Some(t) => Ok((Machine { ip: t as usize, ..m }, None)),
                None => Err(Trap::IllegalOperand),
            },
            InstructionType::JumpIf => if len < 1 {
                Err(Trap::StackUnderflow)
            } else {
                match ins.operand {
                    Some(t) => {
                        let c = m.stack.last();
                        let target = if c != 0 {
                            t as usize
                        } else {
                            next
                        };
                        Ok((Machine { stack: m.stack.drop_last(), ip: target, ..m }, None))
                    },
                    None => Err(Trap::IllegalOperand),
                }
            },
            InstructionType::Dump => if len < 1 {
                Err(Trap::StackUnderflow)
            } else {
                Ok((Machine { ip: next, ..m }, Some(m.stack.last())))
            },
            InstructionType::Halt => Ok((Machine { halted: true, ..m }, None)),
            op => if len < 2 {
                Err(Trap::StackUnderflow)
            } else if op == InstructionType::Divide && m.stack.last() == 0 {
                Err(Trap::DivisionByZero)
            } else {
                let v = binary_result(op, m.stack[len - 2], m.stack[len - 1]);
                Ok((Machine { stack: replace_top_two(m.stack, v), ip: next, ..m }, None))
            },
        }
    }
}

/// Up to `fuel` steps from `m`: the final state, what `Dump` wrote, and
/// `Ok(true)` when halted, `Ok(false)` when the steps ran out, or the trap.
pub open spec fn run_steps(m: Machine, fuel: nat) -> (Machine, Seq<Integer>, Result<bool, Trap>)
    decreases fuel,
{
    if m.halted {
        (m, Seq::empty(), Ok(true))
    } else if fuel == 0 {
        (m, Seq::empty(), Ok(false))
    } else {
        match step(m) {
            Err(t) => (m, Seq::empty(), Err(t)),
            Ok((m2, out)) => {
                let r = run_steps(m2, (fuel - 1) as nat);
                let written = match out {
                    Some(v) => seq![v],
                    None => Seq::empty(),
                };
                (r.0, written + r.1, r.2)
            },
        }
    }
}

/// The engine: operand stack, loaded program, instruction pointer and halt flag.
pub struct UVM {
    stack: Vec<Integer>,
    program: Vec<Instruction>,
    instruction_pointer: usize,
    halt: bool,
}

impl View for UVM {
    type V = Machine;

    closed spec fn view(&self) -> Machine {
        Machine {
            stack: self.stack@,
            program: self.program@,
            ip: self.instruction_pointer,
            halted: self.halt,
        }
    }
}

fn truncating_div(a: Integer, b: Integer) -> (r: Integer)
    requires
        b != 0,
    ensures
        r == quotient(a, b),
{
    if a == i64::MIN && b == -1 {
        return i64::MIN;
    }
    let ghost x = a as int;
    let ghost d = b as int;
    proof {
        if x > 0 && d > 0 {
            assert(0 <= x / d <= x) by (nonlinear_arith)
                requires
                    x > 0,
                    d > 0,
            ;
        } else if x < 0 && d < 0 {
            assert(0 <= (-x) / (-d) <= -x) by (nonlinear_arith)
                requires
                    x < 0,
                    d < 0,
            ;
            if d == -1 {
                assert((-x) / (-d) == -x);
            } else {
                assert((-x) / (-d) <= (-x) / 2) by (nonlinear_arith)
                    requires
                        x < 0,
                        d < -1,
                ;
            }
        } else if x < 0 {
            assert(0 <= (-x) / d <= -x) by (nonlinear_arith)
                requires
                    x < 0,
                    d > 0,
            ;
        } else if x > 0 {
            assert(0 <= x / (-d) <= x) by (nonlinear_arith)
                requires
                    x > 0,
                    d < 0,
            ;
        }
    }
    let q = a.checked_div(b);
    assert(q == Some(div_trunc(x, d) as i64));
    match q {
        Some(q) => q,
        None => i64::MIN,
    }
}

impl UVM {
    /// An engine with an empty program and stack, pointer 0, not halted.
    pub fn new() -> (r: Self)
        ensures
            r@ == start(Seq::empty()),
    {
        Self { stack: Vec::new(), program: Vec::new(), instruction_pointer: 0, halt: false }
    }

    /// Loads `source` as this engine's program. On an error nothing changes.
    pub fn load_program(&mut self, source: &str) -> (r: Result<(), UVMError>)
        ensures
            match parse_source(source@) {
                Ok(p) => r is Ok && final(self)@ == Machine { program: p, ..old(self)@ },
                Err(e) => r == Err::<(), UVMError>(e) && final(self)@ == old(self)@,
            },
    {
        match parse_program(source) {
            Ok(p) => {
                self.program = p;
                Ok(())
            },
            Err(e) => Err(e),
        }
    }

    /// Executes one instruction; `Ok(Some(v))` asks for `v` to be written out.
    pub fn execute_instruction(&mut self) -> (r: Result<Option<Integer>, Trap>)
        ensures
            match step(old(self)@) {
                Ok((m, out)) => r == Ok::<Option<Integer>, Trap>(out) && final(self)@ == m,
                Err(t) => r == Err::<Option<Integer>, Trap>(t) && final(self)@ == old(self)@,
            },
    {
        if self.halt {
            return Ok(None);
        }
        if self.instruction_pointer >= self.program.len() {
            return Err(Trap::InvalidInstructionPointer);
        }
        let ins = self.program[self.instruction_pointer];
        let next = self.instruction_pointer + 1;
        let len = self.stack.len();
        match ins.instruction_type {
            InstructionType::Push => match ins.operand {
                Some(v) => {
                    self.stack.push(v);
                    self.instruction_pointer = next;
                },
                None => return Err(Trap::IllegalOperand),
            },
            InstructionType::Pop => {
                if len < 1 {
                    return Err(Trap::StackUnderflow);
                }
                self.stack.pop();
                self.instruction_pointer = next;
            },
            InstructionType::Duplicate => match ins.operand {
                Some(n) => {
                    if n < 0 {
                        return Err(Trap::IllegalOperand);
                    }
                    if n as u64 >= len as u64 {
                        return Err(Trap::StackUnderflow);
                    }
                    let v = self.stack[len - 1 - n as usize];
                    self.stack.push(v);
                    self.instruction_pointer = next;
                },
                None => return Err(Trap::IllegalOperand),
            },
            InstructionType::Jump => match ins.operand {
                Some(t) => {
                    self.instruction_pointer = t as usize;
                },
                None => return Err(Trap::IllegalOperand),
            },
            InstructionType::JumpIf => {
                if len < 1 {
                    return Err(Trap::StackUnderflow);
                }
                match ins.operand {
                    Some(t) => {
                        let c = self.stack[len - 1];
                        self.stack.pop();
                        if c != 0 {
                            self.instruction_pointer = t as usize;
                        } else {
                            self.instruction_pointer = next;
                        }
                    },
                    None => return Err(Trap::IllegalOperand),
                }
            },
            InstructionType::Dump => {
                if len < 1 {
                    return Err(Trap::StackUnderflow);
                }
                self.instruction_pointer = next;
                return Ok(Some(self.stack[len - 1]));
            },
            InstructionType::Halt => {
                self.halt = true;
            },
            op => {
                if len < 2 {
                    return Err(Trap::StackUnderflow);
                }
                let a = self.stack[len - 2];
                let b = self.stack[len - 1];
                let v = match op {
                    InstructionType::Add => a.wrapping_add(b),
                    InstructionType::Subtract => a.wrapping_sub(b),
                    InstructionType::Multiply => a.wrapping_mul(b),
                    InstructionType::Divide => {
                        if b == 0 {
                            return Err(Trap::DivisionByZero);
                        }
                        truncating_div(a, b)
                    },
                    _ => if a == b {
                        1
                    } else {
                        0
                    },
                };
                self.stack.pop();
                self.stack.pop();
                self.stack.push(v);
                self.instruction_pointer = next;
                proof {
                    assert(self.stack@ =~= replace_top_two(old(self)@.stack, v));
                }
            },
        }
        Ok(None)
    }

    /// Runs until `Halt`, a trap, or `max_steps` executed instructions, whichever
    /// comes first, appending each value that `Dump` writes to `output`.
    /// `Ok(true)`: halted; `Ok(false)`: the steps ran out; `Err`: the trap.
    pub fn run(&mut self, max_steps: usize, output: &mut Vec<Integer>) -> (r: Result<bool, Trap>)
        ensures
            ({
                let (m, written, res) = run_steps(old(self)@, max_steps as nat);
                &&& final(self)@ == m
                &&& final(output)@ == old(output)@ + written
                &&& r == res
            }),
    {
        let ghost m0 = self@;
        let ghost out0 = output@;
        let mut left = max_steps;
        proof {
            assert(out0 + run_steps(m0, max_steps as nat).1 =~= output@ + run_steps(
                self@,
                left as nat,
            ).1);
        }
        loop
            invariant
                m0 == old(self)@,
                out0 == old(output)@,
                run_steps(m0, max_steps as nat).0 == run_steps(self@, left as nat).0,
                run_steps(m0, max_steps as nat).2 == run_steps(self@, left as nat).2,
                out0 + run_steps(m0, max_steps as nat).1 == output@ + run_steps(
                    self@,
                    left as nat,
                ).1,
            decreases left,
        {
            if self.halt {
                proof {
                    assert(output@ + Seq::<Integer>::empty() =~= output@);
                }
                return Ok(true);
            }
            if left == 0 {
                proof {
                    assert(output@ + Seq::<Integer>::empty() =~= output@);
                }
                return Ok(false);
            }
            let ghost before = output@;
            match self.execute_instruction() {
                Err(t) => {
                    proof {
                        assert(output@ + Seq::<Integer>::empty() =~= output@);
                    }
                    return Err(t);
                },
                Ok(out) => {
                    match out {
                        Some(v) => {
                            output.push(v);
                        },
                        None => {},
                    }
                    left = left - 1;
                    proof {
                        let rest = run_steps(self@, left as nat).1;
                        match out {
                            Some(v) => {
                                assert(before + (seq![v] + rest) =~= output@ + rest);
                            },
                            None => {
                                assert(before + (Seq::<Integer>::empty() + rest) =~= output@
                                    + rest);
                            },
                        }
                    }
                },
            }
        }
    }

    /// The operand stack, bottom first.
    pub fn stack(&self) -> (r: &Vec<Integer>)
        ensures
            r@ == self@.stack,
    {
        &self.stack
    }

    /// The loaded program.
    pub fn program(&self) -> (r: &Vec<Instruction>)
        ensures
            r@ == self@.program,
    {
        &self.program
    }

    /// The index of the next instruction to fetch.
    pub fn instruction_pointer(&self) -> (r: usize)
        ensures
            r == self@.ip,
    {
        self.instruction_pointer
    }

    /// Whether `Halt` has been executed.
    pub fn is_halted(&self) -> (r: bool)
        ensures
            r == self@.halted,
    {
        self.halt
    }
}

} // verus!
