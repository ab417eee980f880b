//! The stack machine that runs a sequence of resolved instructions.
//!
//! The machine is a state machine over running, halted and faulted. One
//! step fetches the instruction at the program counter, performs it and
//! moves the counter. A machine that is not running never changes again.
//! An instruction that computes or jumps takes its operands off the stack
//! before it does anything else, so when it then fails the stack is left
//! without them. A failing instruction pushes nothing, prints nothing and
//! leaves the counter where it was.

use std::collections::VecDeque;
use vstd::prelude::*;
use crate::instr::Instr;
use crate::number::{decimal, format_integer};
use crate::op::Op;

verus! {

/// A value on the machine's stack.
#[derive(Debug, Clone, Copy, PartialEq, Eq, Structural)]
pub enum Value {
    Integer(i64),
}

/// Why an instruction could not be performed.
#[derive(Debug, Clone, Copy, PartialEq, Eq, Structural)]
pub enum InterpreterError {
    /// The instruction pops a value and the stack holds none, or it pops
    /// two to compute with and the stack holds fewer.
    StackEmpty,
    /// The instruction works on the top two values in place, or compares
    /// them, and the stack holds fewer than two.
    StackUnderflow,
    /// A value that is no integer met an instruction that computes.
    TypeMismatch,
    /// The divisor of `div` or `mod` is zero.
    DivideByZero,
    /// The program counter, or the target of a jump that is taken, lies
    /// neither inside the program nor exactly at its end.
    AddressOutOfRange,
}

/// Where a machine is in its life.
#[derive(Debug, Clone, Copy, PartialEq, Eq, Structural)]
pub enum State {
    /// The next step performs an instruction.
    Running,
    /// The program ended, by `halt` or by running past its last instruction.
    Halted,
    /// An instruction failed. No instruction is performed after it.
    Faulted(InterpreterError),
}

/// The mathematical model of a machine.
pub struct Machine {
    /// The values on the stack, the top one last.
    pub stack: Seq<Value>,
    /// The index of the next instruction.
    pub pc: nat,
    pub state: State,
    /// The integers printed so far, oldest first.
    pub output: Seq<i64>,
}

/// The integer that `v` stands for in 64-bit two's complement.
pub open spec fn wrap(v: int) -> i64 {
    let bits = v % 0x1_0000_0000_0000_0000;
    if bits > i64::MAX {
        (bits - 0x1_0000_0000_0000_0000) as i64
    } else {
        bits as i64
    }
}

/// `a` divided by `b`, rounded toward zero.
pub open spec fn quotient(a: int, b: int) -> int
    recommends
        b != 0,
{
    if a >= 0 && b > 0 {
        a / b
    } else if a >= 0 {
        -(a / (-b))
    } else if b > 0 {
        -((-a) / b)
    } else {
        (-a) / (-b)
    }
}

/// What is left of `a` after division by `b` rounded toward zero. It has
/// the sign of `a`.
pub open spec fn remainder(a: int, b: int) -> int
    recommends
        b != 0,
{
    if a >= 0 && b > 0 {
        a % b
    } else if a >= 0 {
        a % (-b)
    } else if b > 0 {
        -((-a) % b)
    } else {
        -((-a) % (-b))
    }
}

/// Whether the opcode computes one integer from two.
pub open spec fn is_arithmetic(op: Op) -> bool {
    op == Op::Add || op == Op::Sub || op == Op::Mul || op == Op::Div || op == Op::Mod
}

/// The result of an arithmetic opcode on `a`, the second value from the
/// top, and `b`, the top value. Results outside the 64-bit range wrap
/// around.
pub open spec fn arith(op: Op, a: i64, b: i64) -> Result<i64, InterpreterError>
    recommends
        is_arithmetic(op),
{
    match op {
        Op::Add => Ok(wrap(a + b)),
        Op::Sub => Ok(wrap(a - b)),
        Op::Mul => Ok(wrap(a * b)),
        Op::Div => if b == 0 {
            Err(InterpreterError::DivideByZero)
        } else {
            Ok(wrap(quotient(a as int, b as int)))
        },
        _ => if b == 0 {
            Err(InterpreterError::DivideByZero)
        } else {
            Ok(wrap(remainder(a as int, b as int)))
        },
    }
}

/// Whether a comparing jump is taken on `a`, the second value from the top,
/// and `b`, the top value.
pub open spec fn compare_holds(op: Op, a: i64, b: i64) -> bool
    recommends
        op.compares(),
{
    match op {
        Op::Je => a == b,
        Op::Jn => a != b,
        Op::Jg => a > b,
        Op::Jl => a < b,
        Op::Jge => a >= b,
        _ => a <= b,
    }
}

impl Value {
    /// The integer that the value holds.
    pub open spec fn number(self) -> i64 {
        match self {
            Value::Integer(v) => v,
        }
    }
}

impl Machine {
    /// A running machine at instruction 0 with an empty stack and no output.
    pub open spec fn initial() -> Machine {
        Machine { stack: Seq::empty(), pc: 0, state: State::Running, output: Seq::empty() }
    }

    /// The top value.
    pub open spec fn top(self) -> Value
        recommends
            self.stack.len() >= 1,
    {
        self.stack[self.stack.len() - 1]
    }

    /// The value below the top one.
    pub open spec fn second(self) -> Value
        recommends
            self.stack.len() >= 2,
    {
        self.stack[self.stack.len() - 2]
    }

    /// The stack without its top value.
    pub open spec fn below(self) -> Seq<Value> {
        self.stack.drop_last()
    }

    /// The stack without its top two values.
    pub open spec fn below_two(self) -> Seq<Value> {
        self.stack.drop_last().drop_last()
    }

    /// The machine with a new stack, about to perform the next instruction
    /// in sequence.
    pub open spec fn advance(self, stack: Seq<Value>) -> Machine {
        Machine { stack, pc: self.pc + 1, ..self }
    }

    /// The machine with a new stack, faulted with `error` at the instruction
    /// it was about to perform.
    pub open spec fn fail(self, stack: Seq<Value>, error: InterpreterError) -> Machine {
        Machine { stack, state: State::Faulted(error), ..self }
    }

    /// The machine with a new stack after a jump to `addr` in a program of
    /// `len` instructions. The end of the program is a legal target; any
    /// other address outside the program is a fault.
    pub open spec fn jump(self, stack: Seq<Value>, addr: i64, len: nat) -> Machine {
        if 0 <= addr <= len {
            Machine { stack, pc: addr as nat, ..self }
        } else {
            self.fail(stack, InterpreterError::AddressOutOfRange)
        }
    }

    /// The machine after `instr`, in a program of `len` instructions.
    ///
    /// An instruction that computes pops its operands one by one, so it
    /// fails with `StackEmpty` as soon as a pop finds nothing, and what it
    /// had popped stays popped. A division by zero, or a jump to an address
    /// outside the program, is found only after the operands are gone.
    /// `dup`, `dup2`, `swap`, `over` and the comparing jumps look first
    /// whether the stack holds what they need, and leave it alone if not.
    pub open spec fn perform(self, instr: Instr, len: nat) -> Machine {
        let depth = self.stack.len();
        match instr.op {
            Op::Push => self.advance(self.stack.push(Value::Integer(instr.value))),
            Op::Pop => if depth < 1 {
                self.fail(self.stack, InterpreterError::StackEmpty)
            } else {
                self.advance(self.below())
            },
            Op::Print => if depth < 1 {
                self.fail(self.stack, InterpreterError::StackEmpty)
            } else {
                Machine {
                    output: self.output.push(self.top().number()),
                    ..self.advance(self.below())
                }
            },
            Op::Dup => if depth < 1 {
                self.fail(self.stack, InterpreterError::StackEmpty)
            } else {
                self.advance(self.stack.push(self.top()))
            },
            Op::Dup2 => if depth < 2 {
                self.fail(self.stack, InterpreterError::StackUnderflow)
            } else {
                self.advance(self.stack.push(self.second()).push(self.top()))
            },
            Op::Swap => if depth < 2 {
                self.fail(self.stack, InterpreterError::StackUnderflow)
            } else {
                self.advance(self.below_two().push(self.top()).push(self.second()))
            },
            Op::Over => if depth < 2 {
                self.fail(self.stack, InterpreterError::StackUnderflow)
            } else {
                self.advance(self.stack.push(self.second()))
            },
            Op::Clear => self.advance(Seq::empty()),
            Op::Add | Op::Sub | Op::Mul | Op::Div | Op::Mod => if depth < 1 {
                self.fail(self.stack, InterpreterError::StackEmpty)
            } else if depth < 2 {
                self.fail(self.below(), InterpreterError::StackEmpty)
            } else {
                match arith(instr.op, self.second().number(), self.top().number()) {
                    Ok(v) => self.advance(self.below_two().push(Value::Integer(v))),
                    Err(e) => self.fail(self.below_two(), e),
                }
            },
            Op::Inc => if depth < 1 {
                self.fail(self.stack, InterpreterError::StackEmpty)
            } else {
                self.advance(self.below().push(Value::Integer(wrap(self.top().number() + 1))))
            },
            Op::Dec => if depth < 1 {
                self.fail(self.stack, InterpreterError::StackEmpty)
            } else {
                self.advance(self.below().push(Value::Integer(wrap(self.top().number() - 1))))
            },
            Op::Halt => Machine { state: State::Halted, ..self },
            Op::Jmp => self.jump(self.stack, instr.value, len),
            Op::Jz => if depth < 1 {
                self.fail(self.stack, InterpreterError::StackEmpty)
            } else if self.top().number() == 0 {
                self.jump(self.below(), instr.value, len)
            } else {
                self.advance(self.below())
            },
            Op::Jnz => if depth < 1 {
                self.fail(self.stack, InterpreterError::StackEmpty)
            } else if self.top().number() != 0 {
                self.jump(self.below(), instr.value, len)
            } else {
                self.advance(self.below())
            },
            Op::Je | Op::Jn | Op::Jg | Op::Jl | Op::Jge | Op::Jle => if depth < 2 {
                self.fail(self.stack, InterpreterError::StackUnderflow)
            } else if compare_holds(instr.op, self.second().number(), self.top().number()) {
                self.jump(self.below_two(), instr.value, len)
            } else {
                self.advance(self.below_two())
            },
        }
    }

    /// The machine one step later.
    ///
    /// A machine that is not running stays as it is. A running machine
    /// whose counter stands at the end of the program halts; one whose
    /// counter stands beyond the end faults. Otherwise the instruction at
    /// the counter is performed.
    pub open spec fn step(self, program: Seq<Instr>) -> Machine {
        if self.state != State::Running {
            self
        } else if self.pc == program.len() {
            Machine { state: State::Halted, ..self }
        } else if self.pc > program.len() {
            self.fail(self.stack, InterpreterError::AddressOutOfRange)
        } else {
            self.perform(program[self.pc as int], program.len())
        }
    }

    /// The machine `steps` steps later.
    pub open spec fn run(self, program: Seq<Instr>, steps: nat) -> Machine
        decreases steps,
    {
        if steps == 0 {
            self
        } else {
            self.step(program).run(program, (steps - 1) as nat)
        }
    }
}

/// Computes an arithmetic opcode on `a`, the second value from the top, and
/// `b`, the top value.
pub fn compute(op: Op, a: i64, b: i64) -> (r: Result<i64, InterpreterError>)
    requires
        is_arithmetic(op),
    ensures
        r == arith(op, a, b),
{
    match op {
        Op::Add => Ok(a.wrapping_add(b)),
        Op::Sub => Ok(a.wrapping_sub(b)),
        Op::Mul => Ok(a.wrapping_mul(b)),
        Op::Div => {
            if b == 0 {
                Err(InterpreterError::DivideByZero)
            } else {
                match a.checked_div(b) {
                    Some(q) => Ok(q),
                    None => Ok(i64::MIN),
                }
            }
        },
        _ => {
            if b == 0 {
                Err(InterpreterError::DivideByZero)
            } else {
                match a.checked_rem(b) {
                    Some(m) => Ok(m),
                    None => Ok(0),
                }
            }
        },
    }
}

/// Tells whether a comparing jump is taken on `a`, the second value from
/// the top, and `b`, the top value.
pub fn compare(op: Op, a: i64, b: i64) -> (r: bool)
    requires
        op.compares(),
    ensures
        r == compare_holds(op, a, b),
{
    match op {
        Op::Je => a == b,
        Op::Jn => a != b,
        Op::Jg => a > b,
        Op::Jl => a < b,
        Op::Jge => a >= b,
        _ => a <= b,
    }
}

/// A stack machine. It owns its stack, its program counter and the output
/// that `print` has produced.
pub struct VM {
    stack: VecDeque<Value>,
    pc: usize,
    state: State,
    output: Vec<i64>,
}

impl View for VM {
    type V = Machine;

    closed spec fn view(&self) -> Machine {
        Machine {
            stack: self.stack@,
            pc: self.pc as nat,
            state: self.state,
            output: self.output@,
        }
    }
}

impl VM {
    /// Creates a running machine at instruction 0 with an empty stack.
    pub fn new() -> (vm: VM)
        ensures
            vm@ == Machine::initial(),
    {
        VM { stack: VecDeque::new(), pc: 0, state: State::Running, output: Vec::new() }
    }

    /// Returns the state of the machine.
    pub fn state(&self) -> (s: State)
        ensures
            s == self@.state,
    {
        self.state
    }

    /// Tells whether the next step performs an instruction.
    pub fn is_running(&self) -> (r: bool)
        ensures
            r == (self@.state == State::Running),
    {
        match self.state {
            State::Running => true,
            _ => false,
        }
    }

    /// Returns the program counter. After a fault it is the index of the
    /// instruction that failed.
    pub fn pc(&self) -> (pc: usize)
        ensures
            pc == self@.pc,
    {
        self.pc
    }

    /// Returns the values on the stack, the top one last.
    pub fn stack(&self) -> (values: Vec<Value>)
        ensures
            values@ == self@.stack,
    {
        let mut values: Vec<Value> = Vec::new();
        let mut i: usize = 0;
        while i < self.stack.len()
            invariant
                i <= self.stack@.len(),
                values@ == self.stack@.take(i as int),
            decreases self.stack@.len() - i,
        {
            values.push(self.stack[i]);
            assert(self.stack@.take(i as int).push(self.stack@[i as int]) =~= self.stack@.take(
                i + 1,
            ));
            i += 1;
        }
        assert(self.stack@.take(i as int) =~= self.stack@);
        values
    }

    /// Returns the integers printed so far, oldest first.
    pub fn output(&self) -> (printed: &Vec<i64>)
        ensures
            printed@ == self@.output,
    {
        &self.output
    }

    /// Returns the output as text: one line for each integer printed, in
    /// decimal, oldest first.
    pub fn output_lines(&self) -> (lines: Vec<String>)
        ensures
            lines@.len() == self@.output.len(),
            forall|i: int|
                0 <= i < lines@.len() ==> (#[trigger] lines@[i])@ == decimal(
                    self@.output[i] as int,
                ),
    {
        let mut lines: Vec<String> = Vec::new();
        let mut i: usize = 0;
        while i < self.output.len()
            invariant
                i <= self.output@.len(),
                lines@.len() == i,
                forall|j: int|
                    0 <= j < i ==> (#[trigger] lines@[j])@ == decimal(self.output@[j] as int),
            decreases self.output@.len() - i,
        {
            lines.push(format_integer(self.output[i]));
            i += 1;
        }
        lines
    }

    /// Hands out the integers printed so far and forgets them.
    pub fn take_output(&mut self) -> (printed: Vec<i64>)
        ensures
            printed@ == old(self)@.output,
            final(self)@ == (Machine { output: Seq::empty(), ..old(self)@ }),
    {
        let mut printed: Vec<i64> = Vec::new();
        std::mem::swap(&mut self.output, &mut printed);
        printed
    }

    /// Removes the top value and returns it.
    fn pop_stack_top(&mut self) -> (r: Result<Value, InterpreterError>)
        ensures
            old(self)@.stack.len() == 0 ==> r == Err::<Value, InterpreterError>(
                InterpreterError::StackEmpty,
            ) && final(self)@ == old(self)@,
            old(self)@.stack.len() > 0 ==> r == Ok::<Value, InterpreterError>(old(self)@.top())
                && final(self)@ == (Machine { stack: old(self)@.below(), ..old(self)@ }),
    {
        match self.stack.pop_back() {
            Some(v) => Ok(v),
            None => Err(InterpreterError::StackEmpty),
        }
    }

    /// Pops the top two integers and pushes the result of an arithmetic
    /// opcode on them. When a pop finds nothing, or the operation fails,
    /// nothing is pushed and what was popped stays popped.
    fn transform_top_two_integers(&mut self, op: Op) -> (r: Result<(), InterpreterError>)
        requires
            is_arithmetic(op),
        ensures
            old(self)@.stack.len() == 0 ==> r == Err::<(), InterpreterError>(
                InterpreterError::StackEmpty,
            ) && final(self)@ == old(self)@,
            old(self)@.stack.len() == 1 ==> r == Err::<(), InterpreterError>(
                InterpreterError::StackEmpty,
            ) && final(self)@ == (Machine { stack: old(self)@.below(), ..old(self)@ }),
            old(self)@.stack.len() >= 2 ==> match arith(
                op,
                old(self)@.second().number(),
                old(self)@.top().number(),
            ) {
                Ok(v) => r is Ok && final(self)@ == (Machine {
                    stack: old(self)@.below_two().push(Value::Integer(v)),
                    ..old(self)@
                }),
                Err(e) => r == Err::<(), InterpreterError>(e) && final(self)@ == (Machine {
                    stack: old(self)@.below_two(),
                    ..old(self)@
                }),
            },
    {
        let b = match self.pop_stack_top() {
            Ok(Value::Integer(b)) => b,
            Err(e) => {
                return Err(e);
            },
        };
        let a = match self.pop_stack_top() {
            Ok(Value::Integer(a)) => a,
            Err(e) => {
                return Err(e);
            },
        };
        match compute(op, a, b) {
            Ok(v) => {
                self.stack.push_back(Value::Integer(v));
                Ok(())
            },
            Err(e) => Err(e),
        }
    }

    /// Adds `delta`, which is 1 or -1, to the top integer in place.
    fn transform_top_integer(&mut self, delta: i64) -> (r: Result<(), InterpreterError>)
        requires
            delta == 1 || delta == -1,
        ensures
            old(self)@.stack.len() == 0 ==> r == Err::<(), InterpreterError>(
                InterpreterError::StackEmpty,
            ) && final(self)@ == old(self)@,
            old(self)@.stack.len() > 0 ==> r is Ok && final(self)@ == (Machine {
                stack: old(self)@.below().push(
                    Value::Integer(wrap(old(self)@.top().number() + delta)),
                ),
                ..old(self)@
            }),
    {
        match self.stack.pop_back() {
            Some(Value::Integer(top)) => {
                self.stack.push_back(Value::Integer(top.wrapping_add(delta)));
                Ok(())
            },
            None => Err(InterpreterError::StackEmpty),
        }
    }

    /// Moves the program counter to `addr`, or fails when `addr` lies
    /// neither inside the program nor at its end.
    fn jump_to(&mut self, addr: i64, len: usize) -> (r: Result<(), InterpreterError>)
        ensures
            0 <= addr <= len ==> r is Ok && final(self)@ == (Machine {
                pc: addr as nat,
                ..old(self)@
            }),
            !(0 <= addr <= len) ==> r == Err::<(), InterpreterError>(
                InterpreterError::AddressOutOfRange,
            ) && final(self)@ == old(self)@,
    {
        if addr < 0 || addr as u64 > len as u64 {
            Err(InterpreterError::AddressOutOfRange)
        } else {
            self.pc = addr as usize;
            Ok(())
        }
    }

    /// Performs `instr` but for the last move: returns whether the counter
    /// is still to be advanced, or the error that the machine is still to
    /// fault with.
    fn dispatch(&mut self, instr: Instr, len: usize) -> (r: Result<bool, InterpreterError>)
        requires
            old(self)@.state == State::Running,
            old(self)@.pc < len,
        ensures
            match r {
                Ok(sequential) => old(self)@.perform(instr, len as nat) == if sequential {
                    final(self)@.advance(final(self)@.stack)
                } else {
                    final(self)@
                },
                Err(e) => old(self)@.perform(instr, len as nat) == final(self)@.fail(
                    final(self)@.stack,
                    e,
                ),
            },
    {
        let depth = self.stack.len();
        match instr.op {
            Op::Push => {
                self.stack.push_back(Value::Integer(instr.value));
                Ok(true)
            },
            Op::Pop => {
                match self.pop_stack_top() {
                    Ok(_) => Ok(true),
                    Err(e) => Err(e),
                }
            },
            Op::Print => {
                match self.pop_stack_top() {
                    Ok(Value::Integer(v)) => {
                        self.output.push(v);
                        Ok(true)
                    },
                    Err(e) => Err(e),
                }
            },
            Op::Dup => {
                if depth < 1 {
                    Err(InterpreterError::StackEmpty)
                } else {
                    let top = self.stack[depth - 1];
                    self.stack.push_back(top);
                    Ok(true)
                }
            },
            Op::Dup2 => {
                if depth < 2 {
                    Err(InterpreterError::StackUnderflow)
                } else {
                    let top = self.stack[depth - 1];
                    let second = self.stack[depth - 2];
                    self.stack.push_back(second);
                    self.stack.push_back(top);
                    Ok(true)
                }
            },
            Op::Swap => {
                if depth < 2 {
                    Err(InterpreterError::StackUnderflow)
                } else {
                    let top = self.stack[depth - 1];
                    let second = self.stack[depth - 2];
                    self.stack.pop_back();
                    self.stack.pop_back();
                    self.stack.push_back(top);
                    self.stack.push_back(second);
                    Ok(true)
                }
            },
            Op::Over => {
                if depth < 2 {
                    Err(InterpreterError::StackUnderflow)
                } else {
                    let second = self.stack[depth - 2];
                    self.stack.push_back(second);
                    Ok(true)
                }
            },
            Op::Clear => {
                self.stack.clear();
                Ok(true)
            },
            Op::Add | Op::Sub | Op::Mul | Op::Div | Op::Mod => {
                match self.transform_top_two_integers(instr.op) {
                    Ok(()) => Ok(true),
                    Err(e) => Err(e),
                }
            },
            Op::Inc => {
                match self.transform_top_integer(1) {
                    Ok(()) => Ok(true),
                    Err(e) => Err(e),
                }
            },
            Op::Dec => {
                match self.transform_top_integer(-1) {
                    Ok(()) => Ok(true),
                    Err(e) => Err(e),
                }
            },
            Op::Halt => {
                self.state = State::Halted;
                Ok(false)
            },
            Op::Jmp => {
                match self.jump_to(instr.value, len) {
                    Ok(()) => Ok(false),
                    Err(e) => Err(e),
                }
            },
            Op::Jz | Op::Jnz => {
                match self.pop_stack_top() {
                    Ok(Value::Integer(top)) => {
                        let taken = match instr.op {
                            Op::Jz => top == 0,
                            _ => top != 0,
                        };
                        if taken {
                            match self.jump_to(instr.value, len) {
                                Ok(()) => Ok(false),
                                Err(e) => Err(e),
                            }
                        } else {
                            Ok(true)
                        }
                    },
                    Err(e) => Err(e),
                }
            },
            Op::Je | Op::Jn | Op::Jg | Op::Jl | Op::Jge | Op::Jle => {
                if depth < 2 {
                    Err(InterpreterError::StackUnderflow)
                } else {
                    let Value::Integer(b) = self.stack[depth - 1];
                    let Value::Integer(a) = self.stack[depth - 2];
                    self.stack.pop_back();
                    self.stack.pop_back();
                    if compare(instr.op, a, b) {
                        match self.jump_to(instr.value, len) {
                            Ok(()) => Ok(false),
                            Err(e) => Err(e),
                        }
                    } else {
                        Ok(true)
                    }
                }
            },
        }
    }

    /// Takes one step: fetches the instruction at the program counter,
    /// performs it and moves the counter. Does nothing when the machine is
    /// not running.
    pub fn step(&mut self, program: &[Instr])
        ensures
            final(self)@ == old(self)@.step(program@),
    {
        if !self.is_running() {
            return;
        }
        let len = program.len();
        if self.pc == len {
            self.state = State::Halted;
            return;
        }
        if self.pc > len {
            self.state = State::Faulted(InterpreterError::AddressOutOfRange);
            return;
        }
        let instr = program[self.pc];
        match self.dispatch(instr, len) {
            Ok(sequential) => {
                if sequential {
                    self.pc = self.pc + 1;
                }
            },
            Err(e) => {
                self.state = State::Faulted(e);
            },
        }
    }

    /// Runs `program` from the machine's present state for at most
    /// `max_steps` steps, and stops early once the machine is no longer
    /// running.
    ///
    /// Returns the error when the machine has faulted. `Ok` means that the
    /// machine has halted, or that the steps ran out while it was still
    /// running, which `is_running` tells apart. The end of the program
    /// takes a step of its own: a program of `n` instructions without
    /// jumps halts within `n + 1` steps.
    pub fn execute(&mut self, program: &[Instr], max_steps: u64) -> (r: Result<
        (),
        InterpreterError,
    >)
        ensures
            final(self)@ == old(self)@.run(program@, max_steps as nat),
            r == match final(self)@.state {
                State::Faulted(e) => Err::<(), InterpreterError>(e),
                _ => Ok::<(), InterpreterError>(()),
            },
    {
        let mut left: u64 = max_steps;
        while left > 0 && self.is_running()
            invariant
                self@.run(program@, left as nat) == old(self)@.run(program@, max_steps as nat),
            decreases left,
        {
            self.step(program);
            left = left - 1;
        }
        proof {
            if left > 0 {
                lemma_stopped_stays(self@, program@, left as nat);
            }
        }
        match self.state {
            State::Faulted(e) => Err(e),
            _ => Ok(()),
        }
    }
}

/// A machine that is not running never changes again: neither a halted nor
/// a faulted machine performs another instruction.
pub proof fn lemma_stopped_stays(m: Machine, program: Seq<Instr>, steps: nat)
    requires
        m.state != State::Running,
    ensures
        m.step(program) == m,
        m.run(program, steps) == m,
    decreases steps,
{
    if steps > 0 {
        lemma_stopped_stays(m, program, (steps - 1) as nat);
    }
}

/// Running for `a + b` steps is running for `a` steps and then for `b`
/// more, so a run can be cut into pieces at will.
pub proof fn lemma_run_split(m: Machine, program: Seq<Instr>, a: nat, b: nat)
    ensures
        m.run(program, a + b) == m.run(program, a).run(program, b),
    decreases a,
{
    if a > 0 {
        lemma_run_split(m.step(program), program, (a - 1) as nat, b);
        assert(m.run(program, a + b) == m.step(program).run(program, (a + b - 1) as nat));
    }
}

/// A step that faults prints nothing, pushes nothing and leaves the program
/// counter at the failed instruction. It may have popped its operands: the
/// stack after the fault is the lower part of the stack before it, at most
/// two values shorter.
pub proof fn lemma_fault_keeps(m: Machine, program: Seq<Instr>)
    requires
        m.state == State::Running,
        m.step(program).state is Faulted,
    ensures
        m.step(program).output == m.output,
        m.step(program).pc == m.pc,
        m.step(program).stack.is_prefix_of(m.stack),
        m.stack.len() - 2 <= m.step(program).stack.len(),
{
}

/// A program counter that lies inside the program or at its end stays
/// there: every jump that is taken lands inside the program or exactly at
/// its end.
pub proof fn lemma_pc_in_range(m: Machine, program: Seq<Instr>, steps: nat)
    requires
        m.pc <= program.len(),
    ensures
        m.run(program, steps).pc <= program.len(),
    decreases steps,
{
    if steps > 0 {
        lemma_pc_in_range(m.step(program), program, (steps - 1) as nat);
    }
}

/// Output is only ever appended to: what was printed stays printed.
pub proof fn lemma_output_grows(m: Machine, program: Seq<Instr>, steps: nat)
    ensures
        m.output.is_prefix_of(m.run(program, steps).output),
    decreases steps,
{
    if steps > 0 {
        let next = m.step(program);
        lemma_output_grows(next, program, (steps - 1) as nat);
        assert(m.output.is_prefix_of(next.output));
    }
}

/// Every value is an integer, so no instruction ever meets a value of the
/// wrong type: a step never faults with `TypeMismatch`.
pub proof fn lemma_no_type_mismatch(m: Machine, program: Seq<Instr>)
    requires
        m.state != State::Faulted(InterpreterError::TypeMismatch),
    ensures
        m.step(program).state != State::Faulted(InterpreterError::TypeMismatch),
{
}

} // verus!
