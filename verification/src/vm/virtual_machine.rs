//! The execution engine: machine state, what one cycle does to it, and the
//! machine that runs the cycles.

use super::arith::{
    difference, product, quotient, quotient_toward_zero, remainder, remainder_toward_zero, sum,
    wrap,
};
use super::oper::{all_valid, mnemonic, parse, tokens, Oper};
use super::text::{
    decimal_text, line_value, natural_text, parse_line, push_decimal, push_natural,
};
use std::collections::VecDeque;
use vstd::prelude::*;

verus! {

/// Why an instruction failed. Every failure halts the machine.
#[derive(Clone, Copy, Debug, PartialEq, Eq, Structural)]
pub enum ExecError {
    /// The stack held fewer values than the instruction pops, or the count
    /// given to duplicate-with-count was below 1.
    StackPopError,
    /// The divisor of a division or a modulo was 0.
    DivisionByZeroError,
    /// The depth of the stack does not fit in a stack value.
    StackOverflow,
    /// The line of input is no integer in the range of stack values.
    STDInError,
}

/// What one cycle did.
#[derive(Clone, Copy, Debug, PartialEq, Eq, Structural)]
pub enum Outcome {
    /// An instruction ran and emitted nothing.
    Continued,
    /// An instruction ran and emitted this value as output.
    Output(isize),
    /// An instruction failed, and the machine halted.
    Failed(ExecError),
    /// No instruction ran: the machine had halted before, or halted now
    /// because the program counter is outside the program.
    Halted,
}

/// The state of a machine, as mathematics sees it.
pub struct State {
    /// The operand stack, top last.
    pub stack: Seq<isize>,
    /// Address of the next instruction to fetch.
    pub program_counter: isize,
    /// The program.
    pub instructions: Seq<Oper>,
    /// Whether the machine has halted.
    pub endstate: bool,
}

/// `count` copies of `value`.
pub open spec fn copies(value: isize, count: nat) -> Seq<isize> {
    Seq::new(count, |i: int| value)
}

/// Whether `op` is one of the five binary operators.
pub open spec fn is_binary(op: Oper) -> bool {
    op is Add || op is Sub || op is Mul || op is Div || op is Mod
}

/// What a binary operator makes of `a`, the value popped first, and `b`,
/// the value popped second.
pub open spec fn binary(op: Oper, a: isize, b: isize) -> Result<isize, ExecError>
    recommends
        is_binary(op),
{
    match op {
        Oper::Add => Ok(wrap(a + b)),
        Oper::Sub => Ok(wrap(a - b)),
        Oper::Mul => Ok(wrap(a * b)),
        Oper::Div => if b == 0 {
            Err(ExecError::DivisionByZeroError)
        } else {
            Ok(wrap(quotient_toward_zero(a as int, b as int)))
        },
        Oper::Mod => if b == 0 {
            Err(ExecError::DivisionByZeroError)
        } else {
            Ok(wrap(remainder_toward_zero(a as int, b as int)))
        },
        _ => arbitrary(),
    }
}

/// The values in decimal, in order, separated by a comma and a space.
pub open spec fn joined(values: Seq<isize>) -> Seq<char>
    decreases values.len(),
{
    if values.len() == 0 {
        Seq::empty()
    } else if values.len() == 1 {
        decimal_text(values[0] as int)
    } else {
        joined(values.drop_last()) + ", "@ + decimal_text(values.last() as int)
    }
}

/// The program as a listing: one line for each instruction, with its
/// address, a tab and its name.
pub open spec fn listing(instructions: Seq<Oper>) -> Seq<char>
    decreases instructions.len(),
{
    if instructions.len() == 0 {
        Seq::empty()
    } else {
        listing(instructions.drop_last()) + natural_text((instructions.len() - 1) as nat) + "\t"@
            + mnemonic(instructions.last()) + "\n"@
    }
}

impl State {
    /// The state as text for display: the program counter, the stack from
    /// bottom to top, and the listing of the program.
    pub open spec fn rendering(self) -> Seq<char> {
        "===== Virtual Machine State =====\n"@ + "Program counter: "@ + decimal_text(
            self.program_counter as int,
        ) + "\n"@ + "Stack: ["@ + joined(self.stack) + "]\n"@ + "\nInstructions\n"@ + listing(
            self.instructions,
        )
    }

    /// The state in which a machine starts on a program.
    pub open spec fn initial(instructions: Seq<Oper>) -> State {
        State { stack: Seq::empty(), program_counter: 0, instructions, endstate: false }
    }

    /// Whether the program counter addresses an instruction.
    pub open spec fn in_program(self) -> bool {
        0 <= self.program_counter < self.instructions.len()
    }

    /// The instruction that the program counter addresses.
    pub open spec fn current(self) -> Oper
        recommends
            self.in_program(),
    {
        self.instructions[self.program_counter as int]
    }

    /// Whether the next cycle reads a line of input.
    pub open spec fn awaits_input(self) -> bool {
        !self.endstate && self.in_program() && self.current() is StdIn
    }

    /// The state with another stack.
    pub open spec fn with_stack(self, stack: Seq<isize>) -> State {
        State { stack, ..self }
    }

    /// The state after the fetch: the program counter has moved on by one,
    /// unless the instruction is the jump, which sets it itself.
    pub open spec fn fetched(self) -> State
        recommends
            self.in_program(),
    {
        if self.current() is PopProgramCounter {
            self
        } else {
            State { program_counter: wrap(self.program_counter + 1), ..self }
        }
    }

    /// What fetching and running the current instruction gives: the state
    /// after it, and either the value it emitted, if any, or why it failed.
    /// An instruction that fails changes nothing from there on: what it
    /// popped before is gone from the stack, and nothing is pushed.
    /// `line` is the line of input given to this cycle.
    pub open spec fn execute(self, line: Seq<char>) -> (State, Result<Option<isize>, ExecError>)
        recommends
            self.in_program(),
    {
        let s = self.fetched();
        let st = self.stack;
        let n = st.len() as int;
        let underflow = Err::<Option<isize>, ExecError>(ExecError::StackPopError);
        match self.current() {
            Oper::Number(num) => (s.with_stack(st.push(num)), Ok(None)),
            Oper::Pop => if n >= 1 {
                (s.with_stack(st.take(n - 1)), Ok(Some(st[n - 1])))
            } else {
                (s, underflow)
            },
            Oper::Cpy => if n >= 2 && st[n - 1] >= 1 {
                (
                    s.with_stack(st.take(n - 2) + copies(st[n - 2], (st[n - 1] + 1) as nat)),
                    Ok(None),
                )
            } else if n >= 1 && st[n - 1] < 1 {
                (s.with_stack(st.take(n - 1)), underflow)
            } else {
                (s.with_stack(Seq::empty()), underflow)
            },
            Oper::StackCount => if n <= isize::MAX {
                (s.with_stack(st.push(n as isize)), Ok(None))
            } else {
                (s, Err(ExecError::StackOverflow))
            },
            Oper::PushProgramCounter => (s.with_stack(st.push(s.program_counter)), Ok(None)),
            Oper::PopProgramCounter => if n >= 1 {
                (State { stack: st.take(n - 1), program_counter: st[n - 1], ..s }, Ok(None))
            } else {
                (s, underflow)
            },
            Oper::StdIn => match line_value(line) {
                Some(value) => (s.with_stack(st.push(value)), Ok(None)),
                None => (s, Err(ExecError::STDInError)),
            },
            Oper::Add | Oper::Sub | Oper::Mul | Oper::Div | Oper::Mod => if n >= 2 {
                match binary(self.current(), st[n - 1], st[n - 2]) {
                    Ok(value) => (s.with_stack(st.take(n - 2).push(value)), Ok(None)),
                    Err(e) => (s.with_stack(st.take(n - 2)), Err(e)),
                }
            } else {
                (s.with_stack(Seq::empty()), underflow)
            },
        }
    }

    /// The state after one cycle for each of `lines`, in order, each cycle
    /// with its line as input.
    pub open spec fn run(self, lines: Seq<Seq<char>>) -> State
        decreases lines.len(),
    {
        if lines.len() == 0 {
            self
        } else {
            self.run(lines.drop_last()).step(lines.last()).0
        }
    }

    /// What one cycle gives: the state after it and what it did. A halted
    /// machine stays as it is. A machine whose program counter is outside
    /// the program halts and changes nothing else. Otherwise the current
    /// instruction is fetched and run, and the machine halts if it fails.
    pub open spec fn step(self, line: Seq<char>) -> (State, Outcome) {
        if self.endstate {
            (self, Outcome::Halted)
        } else if !self.in_program() {
            (State { endstate: true, ..self }, Outcome::Halted)
        } else {
            let (s, result) = self.execute(line);
            match result {
                Ok(None) => (s, Outcome::Continued),
                Ok(Some(value)) => (s, Outcome::Output(value)),
                Err(e) => (State { endstate: true, ..s }, Outcome::Failed(e)),
            }
        }
    }
}

/// A machine: one stack, one program counter, the program it runs, and
/// whether it has halted.
#[derive(Debug)]
pub struct VirtualMachine {
    stack: VecDeque<isize>,
    program_counter: isize,
    instructions: Vec<Oper>,
    endstate: bool,
}

impl View for VirtualMachine {
    type V = State;

    closed spec fn view(&self) -> State {
        State {
            stack: self.stack@,
            program_counter: self.program_counter,
            instructions: self.instructions@,
            endstate: self.endstate,
        }
    }
}

impl Clone for VirtualMachine {
    /// A second machine in the same state.
    fn clone(&self) -> (r: Self)
        ensures
            r@ == self@,
    {
        let r = VirtualMachine {
            stack: self.stack.clone(),
            program_counter: self.program_counter,
            instructions: self.instructions.clone(),
            endstate: self.endstate,
        };
        assert(r.stack@ =~= self.stack@);
        assert(r.instructions@ =~= self.instructions@);
        r
    }
}

impl VirtualMachine {
    /// Builds a machine from source text: parses it and, if every token is
    /// valid, starts on the program with an empty stack at address 0.
    /// Otherwise no machine is built, and the error names the first invalid
    /// token.
    pub fn try_new(instructions: String) -> (r: Result<Self, String>)
        ensures
            match r {
                Ok(vm) => parse(instructions@) == Ok::<Seq<Oper>, Seq<char>>(vm@.instructions)
                    && vm@ == State::initial(vm@.instructions),
                Err(message) => parse(instructions@) == Err::<Seq<Oper>, Seq<char>>(message@),
            },
            r is Ok <==> all_valid(tokens(instructions@)),
            r matches Ok(vm) ==> vm@.instructions.len() == tokens(instructions@).len(),
    {
        match Oper::try_new(instructions) {
            Ok(program) => Ok(
                VirtualMachine {
                    stack: VecDeque::new(),
                    program_counter: 0,
                    instructions: program,
                    endstate: false,
                },
            ),
            Err(message) => Err(message),
        }
    }

    /// Builds a machine from source text, as [`VirtualMachine::try_new`]
    /// does.
    pub fn new(instructions: String) -> (r: Result<Self, String>)
        ensures
            match r {
                Ok(vm) => parse(instructions@) == Ok::<Seq<Oper>, Seq<char>>(vm@.instructions)
                    && vm@ == State::initial(vm@.instructions),
                Err(message) => parse(instructions@) == Err::<Seq<Oper>, Seq<char>>(message@),
            },
            r is Ok <==> all_valid(tokens(instructions@)),
            r matches Ok(vm) ==> vm@.instructions.len() == tokens(instructions@).len(),
    {
        VirtualMachine::try_new(instructions)
    }

    /// Runs one cycle, with `line` as the line of input that the cycle may
    /// read, and tells what it did. Only read-integer-from-input looks at
    /// `line`.
    pub fn step(&mut self, line: &str) -> (outcome: Outcome)
        ensures
            final(self)@ == old(self)@.step(line@).0,
            outcome == old(self)@.step(line@).1,
            final(self)@.endstate <==> outcome is Halted || outcome is Failed,
    {
        if self.endstate {
            return Outcome::Halted;
        }
        if self.program_counter < 0 || self.program_counter as usize >= self.instructions.len() {
            self.endstate = true;
            return Outcome::Halted;
        }
        match self.exec_instruction(line) {
            Ok(None) => Outcome::Continued,
            Ok(Some(value)) => Outcome::Output(value),
            Err(e) => {
                self.endstate = true;
                Outcome::Failed(e)
            },
        }
    }

    /// Pops the two operands of a binary operator, the first popped first.
    /// If the stack holds fewer than two values it is left empty.
    fn pop_operands(&mut self) -> (r: Option<(isize, isize)>)
        ensures
            final(self)@ == old(self)@.with_stack(final(self)@.stack),
            match r {
                Some((a, b)) => {
                    let n = old(self)@.stack.len() as int;
                    &&& n >= 2
                    &&& a == old(self)@.stack[n - 1]
                    &&& b == old(self)@.stack[n - 2]
                    &&& final(self)@.stack == old(self)@.stack.take(n - 2)
                },
                None => old(self)@.stack.len() < 2 && final(self)@.stack == Seq::<isize>::empty(),
            },
    {
        match self.stack.pop_back() {
            Some(a) => match self.stack.pop_back() {
                Some(b) => Some((a, b)),
                None => None,
            },
            None => None,
        }
    }

    /// Fetches and runs the current instruction. Gives the value that the
    /// instruction emitted, if any, or why it failed.
    fn exec_instruction(&mut self, line: &str) -> (r: Result<Option<isize>, ExecError>)
        requires
            old(self)@.in_program(),
        ensures
            final(self)@ == old(self)@.execute(line@).0,
            r == old(self)@.execute(line@).1,
    {
        let current_instruction = self.instructions[self.program_counter as usize];
        if !matches!(current_instruction, Oper::PopProgramCounter) {
            self.program_counter = sum(self.program_counter, 1);
        }
        let result = match current_instruction {
            Oper::Number(num) => {
                self.stack.push_back(num);
                Ok(None)
            },
            Oper::Pop => match self.stack.pop_back() {
                Some(popped) => Ok(Some(popped)),
                None => Err(ExecError::StackPopError),
            },
            Oper::Cpy => match self.stack.pop_back() {
                Some(popped) => {
                    if popped >= 1 {
                        match self.stack.pop_back() {
                            Some(to_copy) => {
                                let ghost base = self.stack@;
                                self.stack.push_back(to_copy);
                                let mut left: isize = popped;
                                assert(self.stack@ == base + copies(to_copy, 1));
                                while left > 0
                                    invariant
                                        0 <= left <= popped,
                                        self.stack@ == base + copies(
                                            to_copy,
                                            (popped - left + 1) as nat,
                                        ),
                                        old(self)@.in_program(),
                                        self.program_counter == old(self)@.fetched().program_counter,
                                        self.instructions@ == old(self)@.instructions,
                                        self.endstate == old(self)@.endstate,
                                    decreases left,
                                {
                                    self.stack.push_back(to_copy);
                                    left = left - 1;
                                    assert(self.stack@ == base + copies(
                                        to_copy,
                                        (popped - left + 1) as nat,
                                    ));
                                }
                                Ok(None)
                            },
                            None => Err(ExecError::StackPopError),
                        }
                    } else {
                        Err(ExecError::StackPopError)
                    }
                },
                None => Err(ExecError::StackPopError),
            },
            Oper::StackCount => {
                let count = self.stack.len();
                if count <= isize::MAX as usize {
                    self.stack.push_back(count as isize);
                    Ok(None)
                } else {
                    Err(ExecError::StackOverflow)
                }
            },
            Oper::Add => match self.pop_operands() {
                Some((num1, num2)) => {
                    self.stack.push_back(sum(num1, num2));
                    Ok(None)
                },
                None => Err(ExecError::StackPopError),
            },
            Oper::Sub => match self.pop_operands() {
                Some((num1, num2)) => {
                    self.stack.push_back(difference(num1, num2));
                    Ok(None)
                },
                None => Err(ExecError::StackPopError),
            },
            Oper::Mul => match self.pop_operands() {
                Some((num1, num2)) => {
                    self.stack.push_back(product(num1, num2));
                    Ok(None)
                },
                None => Err(ExecError::StackPopError),
            },
            Oper::Div => match self.pop_operands() {
                Some((num1, num2)) => match quotient(num1, num2) {
                    Some(value) => {
                        self.stack.push_back(value);
                        Ok(None)
                    },
                    None => Err(ExecError::DivisionByZeroError),
                },
                None => Err(ExecError::StackPopError),
            },
            Oper::Mod => match self.pop_operands() {
                Some((num1, num2)) => match remainder(num1, num2) {
                    Some(value) => {
                        self.stack.push_back(value);
                        Ok(None)
                    },
                    None => Err(ExecError::DivisionByZeroError),
                },
                None => Err(ExecError::StackPopError),
            },
            Oper::PushProgramCounter => {
                self.stack.push_back(self.program_counter);
                Ok(None)
            },
            Oper::PopProgramCounter => match self.stack.pop_back() {
                Some(popped) => {
                    self.program_counter = popped;
                    Ok(None)
                },
                None => Err(ExecError::StackPopError),
            },
            Oper::StdIn => match parse_line(line) {
                Some(value) => {
                    self.stack.push_back(value);
                    Ok(None)
                },
                None => Err(ExecError::STDInError),
            },
        };
        assert(self.stack@ =~= old(self)@.execute(line@).0.stack);
        result
    }

    /// Whether the machine has halted.
    pub fn endstate(&self) -> (r: &bool)
        ensures
            *r == self@.endstate,
    {
        &self.endstate
    }

    /// Whether the next cycle reads the line of input given to it.
    pub fn awaits_input(&self) -> (r: bool)
        ensures
            r == self@.awaits_input(),
    {
        if self.endstate || self.program_counter < 0 || self.program_counter as usize
            >= self.instructions.len() {
            false
        } else {
            matches!(self.instructions[self.program_counter as usize], Oper::StdIn)
        }
    }

    /// Address of the next instruction to fetch.
    pub fn program_counter(&self) -> (r: isize)
        ensures
            r == self@.program_counter,
    {
        self.program_counter
    }

    /// The operand stack, top last.
    pub fn stack(&self) -> (r: &VecDeque<isize>)
        ensures
            r@ == self@.stack,
    {
        &self.stack
    }

    /// The program.
    pub fn instructions(&self) -> (r: &Vec<Oper>)
        ensures
            r@ == self@.instructions,
    {
        &self.instructions
    }

    /// The machine as text for display. The machine stays as it is.
    pub fn to_string(&self) -> (text: String)
        ensures
            text@ == self@.rendering(),
    {
        let mut text = String::from_str("===== Virtual Machine State =====\n");
        text.append("Program counter: ");
        push_decimal(&mut text, self.program_counter);
        text.append("\n");
        text.append("Stack: [");
        let ghost head = text@;
        let depth = self.stack.len();
        let mut i: usize = 0;
        assert(self.stack@.take(0) == Seq::<isize>::empty());
        while i < depth
            invariant
                i <= depth == self.stack@.len(),
                text@ == head + joined(self.stack@.take(i as int)),
            decreases depth - i,
        {
            if i > 0 {
                text.append(", ");
            }
            push_decimal(&mut text, self.stack[i]);
            assert(self.stack@.take(i + 1).drop_last() == self.stack@.take(i as int));
            assert(text@ == head + joined(self.stack@.take(i + 1)));
            i = i + 1;
        }
        assert(self.stack@.take(depth as int) == self.stack@);
        text.append("]\n");
        text.append("\nInstructions\n");
        let ghost head = text@;
        let count = self.instructions.len();
        let mut i: usize = 0;
        assert(self.instructions@.take(0) == Seq::<Oper>::empty());
        while i < count
            invariant
                i <= count == self.instructions@.len(),
                text@ == head + listing(self.instructions@.take(i as int)),
            decreases count - i,
        {
            push_natural(&mut text, i);
            text.append("\t");
            self.instructions[i].write_to(&mut text);
            text.append("\n");
            assert(self.instructions@.take(i + 1).drop_last() == self.instructions@.take(i as int));
            assert(text@ == head + listing(self.instructions@.take(i + 1)));
            i = i + 1;
        }
        assert(self.instructions@.take(count as int) == self.instructions@);
        assert(text@ == self@.rendering());
        text
    }
}

} // verus!
