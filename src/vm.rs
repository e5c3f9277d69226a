//! The machine: its state, the meaning of each instruction, and the
//! executable engine that follows it.
use vstd::prelude::*;
use vstd::utf8::encode_utf8;
use itertools::Itertools;
use crate::input::{first_line, lemma_line_end_bounds, Input};
use crate::opcode::{decode_spec, lemma_decode_reads_encoding, BinOp, Opcode, ReadOpcodeError};

verus! {

/// Number of memory cells; also the modulus of all arithmetic.
pub const NUM_ADDRESSES: u16 = 32768;

/// Address of the first register in the unified address space.
pub const FIRST_REGISTER: u16 = 32768;

/// Number of registers.
pub const NUM_REGISTERS: u16 = 8;

/// Number of memory cells, as a length.
pub const MEMORY_SIZE: usize = 32768;

/// Largest value `out` accepts.
pub const MAX_OUTPUT: u16 = 255;

/// Why a run of the machine stopped with an error.
#[derive(Debug, Clone, Copy, PartialEq, Eq, Structural)]
pub enum Error {
    /// The program does not fit into memory.
    ProgramTooBig,
    /// The words at the instruction pointer are not an instruction.
    ReadOpcode(ReadOpcodeError),
    /// `out` was given a value that is not a byte.
    InvalidOutput(u16),
    /// An operand used as a value is neither a literal nor a register.
    InvalidValue(u16),
    /// An operand that is written to is not a register.
    InvalidRegister(u16),
    /// `pop` on an empty stack.
    StackUnderflow,
    /// A memory address is outside memory.
    InvalidAddress(u16),
}

/// Why a run of the machine stopped without an error.
#[derive(Debug, Clone, Copy, PartialEq, Eq, Structural)]
pub enum ExitReason {
    /// The program halted, or returned with an empty stack.
    Halted,
    /// The program waits at an `in` instruction for more input.
    NoMoreInput,
}

/// The machine's state as mathematical values.
pub struct VmState {
    /// The memory cells, `NUM_ADDRESSES` of them.
    pub memory: Seq<u16>,
    /// The registers, `NUM_REGISTERS` of them.
    pub registers: Seq<u16>,
    /// The stack, top last.
    pub stack: Seq<u16>,
    /// The instruction pointer.
    pub ip: int,
    /// Input bytes already read but not yet handed to the program, next first.
    pub pending: Seq<u8>,
}

/// What executing one instruction does.
pub struct StepOutcome {
    pub state: VmState,
    /// The input not read yet afterwards.
    pub input: Seq<u8>,
    /// The bytes written.
    pub output: Seq<u8>,
    /// `Ok(None)` to go on with the next instruction, `Ok(Some(_))` when the
    /// run stops there, `Err(_)` on a fault.
    pub result: Result<Option<ExitReason>, Error>,
}

/// Whether operand `v` names a register.
pub open spec fn is_register(v: u16) -> bool {
    FIRST_REGISTER <= v < FIRST_REGISTER + NUM_REGISTERS
}

/// Result of a three-operand arithmetic or comparison instruction on
/// resolved operands, reduced modulo `NUM_ADDRESSES`.
pub open spec fn bin_spec(op: Opcode, l: u16, r: u16) -> u16 {
    match op {
        Opcode::Eq(_) => if l == r { 1 } else { 0 },
        Opcode::Gt(_) => if l > r { 1 } else { 0 },
        Opcode::Add(_) => ((l + r) % (NUM_ADDRESSES as int)) as u16,
        Opcode::Mult(_) => ((l * r) % (NUM_ADDRESSES as int)) as u16,
        Opcode::Mod(_) => ((l % r) % NUM_ADDRESSES) as u16,
        Opcode::And(_) => ((l & r) % NUM_ADDRESSES) as u16,
        Opcode::Or(_) => ((l | r) % NUM_ADDRESSES) as u16,
        _ => 0,
    }
}

/// The operands of a three-operand instruction.
pub open spec fn bin_operands(op: Opcode) -> Option<BinOp> {
    match op {
        Opcode::Eq(b) | Opcode::Gt(b) | Opcode::Add(b) | Opcode::Mult(b) | Opcode::Mod(b)
        | Opcode::And(b) | Opcode::Or(b) => Some(b),
        _ => None,
    }
}

impl VmState {
    /// Operand resolution: a literal stands for itself, a register address
    /// for the register's content.
    pub open spec fn resolve(self, v: u16) -> Result<u16, Error> {
        if v < FIRST_REGISTER {
            Ok(v)
        } else if is_register(v) {
            Ok(self.registers[v - FIRST_REGISTER])
        } else {
            Err(Error::InvalidValue(v))
        }
    }

    /// The words from the instruction pointer to the end of memory.
    pub open spec fn fetch(self) -> Seq<u16> {
        if 0 <= self.ip < NUM_ADDRESSES {
            self.memory.subrange(self.ip, NUM_ADDRESSES as int)
        } else {
            Seq::empty()
        }
    }

    /// The state after loading `program`: memory holds the program from
    /// address 0 on and zero after it; everything else is kept.
    pub open spec fn loaded(self, program: Seq<u16>) -> VmState {
        VmState {
            memory: program + Seq::new((NUM_ADDRESSES - program.len()) as nat, |i: int| 0u16),
            ..self
        }
    }

    pub open spec fn with_ip(self, ip: int) -> VmState {
        VmState { ip, ..self }
    }

    pub open spec fn with_register(self, target: u16, v: u16) -> VmState {
        VmState { registers: self.registers.update(target - FIRST_REGISTER, v), ..self }
    }

    /// Whether the next instruction is `mod` by zero, which has no result.
    pub open spec fn divides_by_zero(self) -> bool {
        match decode_spec(self.fetch()) {
            Ok(Opcode::Mod(b)) => self.resolve(b.lhs) is Ok && self.resolve(b.rhs) == Ok::<
                u16,
                Error,
            >(0),
            _ => false,
        }
    }
}

/// Goes on with the next instruction in state `s`.
pub open spec fn proceed(s: VmState, input: Seq<u8>) -> StepOutcome {
    StepOutcome { state: s, input, output: Seq::empty(), result: Ok(None) }
}

/// Stops in state `s` with `result`.
pub open spec fn stop(s: VmState, input: Seq<u8>, result: Result<Option<ExitReason>, Error>) -> StepOutcome {
    StepOutcome { state: s, input, output: Seq::empty(), result }
}

/// Writes `v` to register `target`, or faults if `target` is no register.
pub open spec fn write_spec(s: VmState, input: Seq<u8>, target: u16, v: u16) -> StepOutcome {
    if is_register(target) {
        proceed(s.with_register(target, v), input)
    } else {
        stop(s, input, Err(Error::InvalidRegister(target)))
    }
}

/// Continues at the resolved `target`.
pub open spec fn jump_spec(s: VmState, input: Seq<u8>, target: u16) -> StepOutcome {
    match s.resolve(target) {
        Err(e) => stop(s, input, Err(e)),
        Ok(t) => proceed(s.with_ip(t as int), input),
    }
}

/// Executes `op` in state `s`, whose instruction pointer has already been
/// moved past `op`, which began at address `at`.
pub open spec fn exec_spec(s: VmState, input: Seq<u8>, op: Opcode, at: int) -> StepOutcome {
    match op {
        Opcode::Halt => stop(s, input, Ok(Some(ExitReason::Halted))),
        Opcode::SetReg { reg, val } => match s.resolve(val) {
            Err(e) => stop(s, input, Err(e)),
            Ok(v) => write_spec(s, input, reg, v),
        },
        Opcode::Push { val } => match s.resolve(val) {
            Err(e) => stop(s, input, Err(e)),
            Ok(v) => proceed(VmState { stack: s.stack.push(v), ..s }, input),
        },
        Opcode::Pop { write_to } => if s.stack.len() == 0 {
            stop(s, input, Err(Error::StackUnderflow))
        } else if !is_register(write_to) {
            stop(s, input, Err(Error::InvalidRegister(write_to)))
        } else {
            proceed(
                VmState { stack: s.stack.drop_last(), ..s.with_register(write_to, s.stack.last()) },
                input,
            )
        },
        Opcode::Jmp { to } => jump_spec(s, input, to),
        Opcode::JmpIfTrue { cond, to } => match s.resolve(cond) {
            Err(e) => stop(s, input, Err(e)),
            Ok(c) => if c != 0 {
                jump_spec(s, input, to)
            } else {
                proceed(s, input)
            },
        },
        Opcode::JmpIfFalse { cond, to } => match s.resolve(cond) {
            Err(e) => stop(s, input, Err(e)),
            Ok(c) => if c == 0 {
                jump_spec(s, input, to)
            } else {
                proceed(s, input)
            },
        },
        Opcode::Eq(b) | Opcode::Gt(b) | Opcode::Add(b) | Opcode::Mult(b) | Opcode::Mod(b)
        | Opcode::And(b) | Opcode::Or(b) => match s.resolve(b.lhs) {
            Err(e) => stop(s, input, Err(e)),
            Ok(l) => match s.resolve(b.rhs) {
                Err(e) => stop(s, input, Err(e)),
                Ok(r) => write_spec(s, input, b.write_to, bin_spec(op, l, r)),
            },
        },
        Opcode::Not { write_to, val } => match s.resolve(val) {
            Err(e) => stop(s, input, Err(e)),
            Ok(v) => write_spec(s, input, write_to, (!v) % NUM_ADDRESSES),
        },
        Opcode::ReadMem { write_to, addr } => match s.resolve(addr) {
            Err(e) => stop(s, input, Err(e)),
            Ok(a) => if a >= NUM_ADDRESSES {
                stop(s, input, Err(Error::InvalidAddress(a)))
            } else {
                write_spec(s, input, write_to, s.memory[a as int])
            },
        },
        Opcode::WriteMem { addr, val } => match s.resolve(addr) {
            Err(e) => stop(s, input, Err(e)),
            Ok(a) => match s.resolve(val) {
                Err(e) => stop(s, input, Err(e)),
                Ok(v) => if a >= NUM_ADDRESSES {
                    stop(s, input, Err(Error::InvalidAddress(a)))
                } else {
                    proceed(VmState { memory: s.memory.update(a as int, v), ..s }, input)
                },
            },
        },
        Opcode::Call { addr } => match s.resolve(addr) {
            Err(e) => stop(s, input, Err(e)),
            Ok(a) => proceed(VmState { stack: s.stack.push(s.ip as u16), ip: a as int, ..s }, input),
        },
        Opcode::Ret => if s.stack.len() == 0 {
            stop(s, input, Ok(Some(ExitReason::Halted)))
        } else {
            proceed(VmState { stack: s.stack.drop_last(), ip: s.stack.last() as int, ..s }, input)
        },
        Opcode::Out { val } => match s.resolve(val) {
            Err(e) => stop(s, input, Err(e)),
            Ok(v) => if v > MAX_OUTPUT {
                stop(s, input, Err(Error::InvalidOutput(v)))
            } else {
                StepOutcome { state: s, input, output: seq![v as u8], result: Ok(None) }
            },
        },
        Opcode::In { write_to } => if s.pending.len() == 0 && input.len() == 0 {
            stop(s.with_ip(at), input, Ok(Some(ExitReason::NoMoreInput)))
        } else if !is_register(write_to) {
            stop(s, input, Err(Error::InvalidRegister(write_to)))
        } else if s.pending.len() == 0 {
            let line = first_line(input);
            proceed(
                VmState { pending: line.drop_first(), ..s.with_register(write_to, line[0] as u16) },
                input.subrange(line.len() as int, input.len() as int),
            )
        } else {
            proceed(
                VmState { pending: s.pending.drop_first(), ..s.with_register(write_to, s.pending[0] as u16) },
                input,
            )
        },
        Opcode::Noop => proceed(s, input),
    }
}

/// Executes the instruction at the instruction pointer of `s`, reading input
/// from `input`.
pub open spec fn step_spec(s: VmState, input: Seq<u8>) -> StepOutcome {
    match decode_spec(s.fetch()) {
        Err(e) => stop(s, input, Err(Error::ReadOpcode(e))),
        Ok(op) => exec_spec(s.with_ip(s.ip + op.encoding().len()), input, op, s.ip),
    }
}

/// Executes at most `fuel` instructions, stopping early when one stops the
/// run, faults, or would be `mod` by zero.
pub open spec fn run_spec(s: VmState, input: Seq<u8>, fuel: nat) -> StepOutcome
    decreases fuel,
{
    if fuel == 0 || s.divides_by_zero() {
        proceed(s, input)
    } else {
        let o = step_spec(s, input);
        match o.result {
            Ok(None) => {
                let rest = run_spec(o.state, o.input, (fuel - 1) as nat);
                StepOutcome { output: o.output + rest.output, ..rest }
            },
            _ => o,
        }
    }
}

/// The text of `commands`, each followed by `sep`.
pub open spec fn command_text(commands: Seq<Seq<char>>, sep: Seq<char>) -> Seq<char>
    decreases commands.len(),
{
    if commands.len() == 0 {
        Seq::empty()
    } else {
        command_text(commands.drop_last(), sep) + commands.last() + sep
    }
}

/// The input bytes that `run_commands` feeds to the program: each command
/// and then a newline.
pub open spec fn command_input(commands: Seq<&str>) -> Seq<u8> {
    encode_utf8(command_text(commands.map_values(|c: &str| c@), seq!['\n']))
}

/// Relies on itertools' `interleave_shortest`: with an endless repetition of
/// `sep` as its second sequence it yields each command and then `sep`, and
/// stops after the separator that follows the last command.
#[verifier::external_body]
fn join_lines(commands: &[&str], sep: &str) -> (r: String)
    ensures
        r@ == command_text(commands@.map_values(|c: &str| c@), sep@),
{
    commands.iter().copied().interleave_shortest(std::iter::repeat(sep)).collect()
}

/// The sixteen-bit virtual machine: memory, registers, stack, instruction
/// pointer and the input already read but not yet consumed.
#[derive(Debug, Clone)]
pub struct Vm {
    memory: Vec<u16>,
    registers: Vec<u16>,
    stack: Vec<u16>,
    ip: usize,
    pending_input: Vec<u8>,
    pending_pos: usize,
}

impl View for Vm {
    type V = VmState;

    closed spec fn view(&self) -> VmState {
        VmState {
            memory: self.memory@,
            registers: self.registers@,
            stack: self.stack@,
            ip: self.ip as int,
            pending: self.pending_input@.subrange(
                self.pending_pos as int,
                self.pending_input@.len() as int,
            ),
        }
    }
}

impl VmState {
    /// Memory and registers have their fixed sizes.
    pub open spec fn well_formed(self) -> bool {
        &&& self.memory.len() == NUM_ADDRESSES
        &&& self.registers.len() == NUM_REGISTERS
        &&& self.ip >= 0
    }
}

impl Vm {
    pub closed spec fn wf(&self) -> bool {
        &&& self@.well_formed()
        &&& self.pending_pos <= self.pending_input@.len()
    }

    /// A machine with zeroed memory and registers, an empty stack, the
    /// instruction pointer at 0 and no pending input.
    pub fn new() -> (r: Vm)
        ensures
            r.wf(),
            r@.well_formed(),
            forall|i: int| 0 <= i < NUM_ADDRESSES ==> r@.memory[i] == 0,
            forall|i: int| 0 <= i < NUM_REGISTERS ==> r@.registers[i] == 0,
            r@.stack.len() == 0,
            r@.ip == 0,
            r@.pending.len() == 0,
    {
        let mut memory: Vec<u16> = Vec::new();
        while memory.len() < MEMORY_SIZE
            invariant
                memory@.len() <= MEMORY_SIZE,
                forall|i: int| 0 <= i < memory@.len() ==> memory@[i] == 0,
            decreases MEMORY_SIZE - memory@.len(),
        {
            memory.push(0);
        }
        let mut registers: Vec<u16> = Vec::new();
        while registers.len() < NUM_REGISTERS as usize
            invariant
                registers@.len() <= NUM_REGISTERS,
                forall|i: int| 0 <= i < registers@.len() ==> registers@[i] == 0,
            decreases NUM_REGISTERS - registers@.len(),
        {
            registers.push(0);
        }
        Vm { memory, registers, stack: Vec::new(), ip: 0, pending_input: Vec::new(), pending_pos: 0 }
    }

    /// The instruction pointer.
    pub fn ip(&self) -> (r: usize)
        ensures
            r == self@.ip,
    {
        self.ip
    }

    /// The content of register `index` (0 to 7).
    pub fn register(&self, index: usize) -> (r: u16)
        requires
            self.wf(),
            index < NUM_REGISTERS,
        ensures
            r == self@.registers[index as int],
    {
        self.registers[index]
    }

    /// Stores `value` in register `index` (0 to 7).
    pub fn set_register(&mut self, index: usize, value: u16)
        requires
            old(self).wf(),
            index < NUM_REGISTERS,
        ensures
            final(self).wf(),
            final(self)@.well_formed(),
            final(self)@ == (VmState {
                registers: old(self)@.registers.update(index as int, value),
                ..old(self)@
            }),
    {
        self.registers.set(index, value);
    }

    /// The content of memory cell `addr`.
    pub fn memory_at(&self, addr: usize) -> (r: u16)
        requires
            self.wf(),
            addr < MEMORY_SIZE,
        ensures
            r == self@.memory[addr as int],
    {
        self.memory[addr]
    }

    /// The stack, bottom first.
    pub fn stack(&self) -> (r: Vec<u16>)
        ensures
            r@ == self@.stack,
    {
        vstd::slice::slice_to_vec(self.stack.as_slice())
    }

    /// The input bytes read but not yet consumed, next first.
    pub fn pending_input(&self) -> (r: Vec<u8>)
        requires
            self.wf(),
        ensures
            r@ == self@.pending,
    {
        let pending = vstd::slice::slice_subrange(
            self.pending_input.as_slice(),
            self.pending_pos,
            self.pending_input.len(),
        );
        vstd::slice::slice_to_vec(pending)
    }

    /// Resolves operand `val`: a literal is itself, a register address gives
    /// the register's content, anything else is `InvalidValue`.
    pub fn resolve_value(&self, val: u16) -> (r: Result<u16, Error>)
        requires
            self.wf(),
        ensures
            r == self@.resolve(val),
    {
        if val < FIRST_REGISTER {
            Ok(val)
        } else if val < FIRST_REGISTER + NUM_REGISTERS {
            Ok(self.registers[(val - FIRST_REGISTER) as usize])
        } else {
            Err(Error::InvalidValue(val))
        }
    }

    /// Writes `v` to the register that operand `target` names.
    fn write_register(&mut self, target: u16, v: u16) -> (r: Result<Option<ExitReason>, Error>)
        requires
            old(self).wf(),
        ensures
            final(self).wf(),
            final(self)@.well_formed(),
            ({
                let o = write_spec(old(self)@, Seq::empty(), target, v);
                final(self)@ == o.state && r == o.result
            }),
    {
        if target < FIRST_REGISTER || target >= FIRST_REGISTER + NUM_REGISTERS {
            return Err(Error::InvalidRegister(target));
        }
        self.registers.set((target - FIRST_REGISTER) as usize, v);
        Ok(None)
    }

    /// Copies `program` to memory from address 0 on and zeroes the rest of
    /// memory; the registers, the stack, the instruction pointer and the
    /// pending input stay as they are.
    pub fn load_program(&mut self, program: &[u16]) -> (r: Result<(), Error>)
        requires
            old(self).wf(),
        ensures
            final(self).wf(),
            final(self)@.well_formed(),
            program@.len() > NUM_ADDRESSES ==> r == Err::<(), Error>(Error::ProgramTooBig)
                && final(self)@ == old(self)@,
            program@.len() <= NUM_ADDRESSES ==> r is Ok && final(self)@ == old(self)@.loaded(
                program@,
            ),
    {
        if program.len() > MEMORY_SIZE {
            return Err(Error::ProgramTooBig);
        }
        let mut i: usize = 0;
        while i < MEMORY_SIZE
            invariant
                self.wf(),
                i <= NUM_ADDRESSES,
                program@.len() <= NUM_ADDRESSES,
                self.registers == old(self).registers,
                self.stack == old(self).stack,
                self.ip == old(self).ip,
                self.pending_input == old(self).pending_input,
                self.pending_pos == old(self).pending_pos,
                forall|k: int| 0 <= k < i ==> self.memory@[k] == (if k < program@.len() { program@[k] } else { 0u16 }),
            decreases NUM_ADDRESSES - i,
        {
            let v: u16 = if i < program.len() { program[i] } else { 0 };
            self.memory.set(i, v);
            i = i + 1;
        }
        assert(self@.memory =~= old(self)@.loaded(program@).memory);
        Ok(())
    }

    /// The result of a three-operand instruction on resolved operands,
    /// reduced below `NUM_ADDRESSES`.
    pub fn bin_op(op: &Opcode, l: u16, r: u16) -> (v: u16)
        requires
            bin_operands(*op) is Some,
            *op is Mod ==> r != 0,
        ensures
            v == bin_spec(*op, l, r),
            v < NUM_ADDRESSES,
    {
        match op {
            Opcode::Eq(_) => if l == r { 1 } else { 0 },
            Opcode::Gt(_) => if l > r { 1 } else { 0 },
            Opcode::Add(_) => ((l as u32 + r as u32) % (NUM_ADDRESSES as u32)) as u16,
            Opcode::Mult(_) => {
                assert((l as int) * (r as int) <= 65535 * 65535) by (nonlinear_arith)
                    requires
                        l <= 65535,
                        r <= 65535,
                ;
                ((l as u32 * r as u32) % (NUM_ADDRESSES as u32)) as u16
            },
            Opcode::Mod(_) => (l % r) % NUM_ADDRESSES,
            Opcode::And(_) => (l & r) % NUM_ADDRESSES,
            Opcode::Or(_) => (l | r) % NUM_ADDRESSES,
            _ => 0,
        }
    }

    /// Whether the next instruction is `mod` by zero; `step` must not be
    /// called then.
    pub fn divides_by_zero(&self) -> (r: bool)
        requires
            self.wf(),
        ensures
            r == self@.divides_by_zero(),
    {
        if self.ip >= MEMORY_SIZE {
            return false;
        }
        let words = vstd::slice::slice_subrange(self.memory.as_slice(), self.ip, MEMORY_SIZE);
        match Opcode::decode(words) {
            Ok(Opcode::Mod(b)) => match self.resolve_value(b.lhs) {
                Ok(_) => match self.resolve_value(b.rhs) {
                    Ok(v) => v == 0,
                    Err(_) => false,
                },
                Err(_) => false,
            },
            _ => false,
        }
    }

    /// Executes the instruction at the instruction pointer: fetches and
    /// decodes it, moves the instruction pointer past it and carries it out.
    /// `out` appends to `output`, and faults with `InvalidOutput` on a value
    /// above 255 rather than dropping its high bits; `in` takes a byte of
    /// pending input, reading the next line from `input` when none is
    /// pending, and suspends on the `in` itself when both are empty. A fault
    /// leaves the state as it was apart from the instruction pointer.
    pub fn step(&mut self, input: &mut Input, output: &mut Vec<u8>) -> (r: Result<
        Option<ExitReason>,
        Error,
    >)
        requires
            old(self).wf(),
            old(input).wf(),
            !old(self)@.divides_by_zero(),
        ensures
            final(self).wf(),
            final(self)@.well_formed(),
            final(input).wf(),
            final(self)@ == step_spec(old(self)@, old(input)@).state,
            final(input)@ == step_spec(old(self)@, old(input)@).input,
            final(output)@ =~= old(output)@ + step_spec(old(self)@, old(input)@).output,
            r == step_spec(old(self)@, old(input)@).result,
    {
        if self.ip >= MEMORY_SIZE {
            return Err(Error::ReadOpcode(ReadOpcodeError::EndOfBuffer));
        }
        let words = vstd::slice::slice_subrange(self.memory.as_slice(), self.ip, MEMORY_SIZE);
        let op = match Opcode::decode(words) {
            Ok(op) => op,
            Err(e) => return Err(Error::ReadOpcode(e)),
        };
        proof {
            lemma_decode_reads_encoding(words@);
        }
        let at = self.ip;
        self.ip = self.ip + op.num_words();
        assert(words@ == old(self)@.fetch());
        assert(self@ == old(self)@.with_ip(old(self)@.ip + op.encoding().len()));
        match op {
            Opcode::Halt => Ok(Some(ExitReason::Halted)),
            Opcode::SetReg { reg, val } => {
                let v = self.resolve_value(val)?;
                self.write_register(reg, v)
            },
            Opcode::Push { val } => {
                let v = self.resolve_value(val)?;
                self.stack.push(v);
                Ok(None)
            },
            Opcode::Pop { write_to } => {
                if self.stack.len() == 0 {
                    return Err(Error::StackUnderflow);
                }
                if write_to < FIRST_REGISTER || write_to >= FIRST_REGISTER + NUM_REGISTERS {
                    return Err(Error::InvalidRegister(write_to));
                }
                let v = self.stack.pop().unwrap();
                self.write_register(write_to, v)
            },
            Opcode::Jmp { to } => {
                let t = self.resolve_value(to)?;
                self.ip = t as usize;
                Ok(None)
            },
            Opcode::JmpIfTrue { cond, to } => {
                let c = self.resolve_value(cond)?;
                if c != 0 {
                    let t = self.resolve_value(to)?;
                    self.ip = t as usize;
                }
                Ok(None)
            },
            Opcode::JmpIfFalse { cond, to } => {
                let c = self.resolve_value(cond)?;
                if c == 0 {
                    let t = self.resolve_value(to)?;
                    self.ip = t as usize;
                }
                Ok(None)
            },
            Opcode::Eq(b) | Opcode::Gt(b) | Opcode::Add(b) | Opcode::Mult(b) | Opcode::Mod(b)
            | Opcode::And(b) | Opcode::Or(b) => {
                let l = self.resolve_value(b.lhs)?;
                let r = self.resolve_value(b.rhs)?;
                let v = Self::bin_op(&op, l, r);
                self.write_register(b.write_to, v)
            },
            Opcode::Not { write_to, val } => {
                let v = self.resolve_value(val)?;
                self.write_register(write_to, (!v) % NUM_ADDRESSES)
            },
            Opcode::ReadMem { write_to, addr } => {
                let a = self.resolve_value(addr)?;
                if a >= NUM_ADDRESSES {
                    return Err(Error::InvalidAddress(a));
                }
                let v = self.memory[a as usize];
                self.write_register(write_to, v)
            },
            Opcode::WriteMem { addr, val } => {
                let a = self.resolve_value(addr)?;
                let v = self.resolve_value(val)?;
                if a >= NUM_ADDRESSES {
                    return Err(Error::InvalidAddress(a));
                }
                self.memory.set(a as usize, v);
                Ok(None)
            },
            Opcode::Call { addr } => {
                let a = self.resolve_value(addr)?;
                self.stack.push(self.ip as u16);
                self.ip = a as usize;
                Ok(None)
            },
            Opcode::Ret => {
                match self.stack.pop() {
                    None => Ok(Some(ExitReason::Halted)),
                    Some(t) => {
                        self.ip = t as usize;
                        Ok(None)
                    },
                }
            },
            Opcode::Out { val } => {
                let v = self.resolve_value(val)?;
                if v > MAX_OUTPUT {
                    return Err(Error::InvalidOutput(v));
                }
                output.push(v as u8);
                Ok(None)
            },
            Opcode::In { write_to } => {
                if self.pending_pos >= self.pending_input.len() && input.is_empty() {
                    self.ip = at;
                    return Ok(Some(ExitReason::NoMoreInput));
                }
                if write_to < FIRST_REGISTER || write_to >= FIRST_REGISTER + NUM_REGISTERS {
                    return Err(Error::InvalidRegister(write_to));
                }
                if self.pending_pos >= self.pending_input.len() {
                    proof {
                        lemma_line_end_bounds(input@, 0);
                    }
                    self.pending_input = input.read_line();
                    self.pending_pos = 0;
                }
                let ghost before = self@;
                let byte = self.pending_input[self.pending_pos];
                self.pending_pos = self.pending_pos + 1;
                assert(self@.pending =~= before.pending.drop_first());
                self.write_register(write_to, byte as u16)
            },
            Opcode::Noop => Ok(None),
        }
    }

    /// Executes instructions until one stops the run or faults, the next
    /// would be `mod` by zero, or `max_steps` have run; `Ok(None)` in the two
    /// last cases.
    pub fn run_for(&mut self, input: &mut Input, output: &mut Vec<u8>, max_steps: u64) -> (r:
        Result<Option<ExitReason>, Error>)
        requires
            old(self).wf(),
            old(input).wf(),
        ensures
            final(self).wf(),
            final(self)@.well_formed(),
            final(input).wf(),
            final(self)@ == run_spec(old(self)@, old(input)@, max_steps as nat).state,
            final(input)@ == run_spec(old(self)@, old(input)@, max_steps as nat).input,
            final(output)@ =~= old(output)@ + run_spec(
                old(self)@,
                old(input)@,
                max_steps as nat,
            ).output,
            r == run_spec(old(self)@, old(input)@, max_steps as nat).result,
    {
        let ghost whole = run_spec(self@, input@, max_steps as nat);
        let ghost out0 = output@;
        let mut n: u64 = max_steps;
        while n > 0 && !self.divides_by_zero()
            invariant
                self.wf(),
                input.wf(),
                whole == run_spec(old(self)@, old(input)@, max_steps as nat),
                whole.state == run_spec(self@, input@, n as nat).state,
                whole.input == run_spec(self@, input@, n as nat).input,
                whole.result == run_spec(self@, input@, n as nat).result,
                out0 == old(output)@,
                out0 + whole.output =~= output@ + run_spec(self@, input@, n as nat).output,
            decreases n,
        {
            let ghost prev = self@;
            let ghost prev_in = input@;
            let ghost prev_out = output@;
            let r = self.step(input, output);
            match r {
                Ok(None) => {},
                _ => {
                    return r;
                },
            }
            n = n - 1;
            proof {
                let o = step_spec(prev, prev_in);
                let rest = run_spec(o.state, o.input, n as nat);
                assert(prev_out + (o.output + rest.output) =~= (prev_out + o.output) + rest.output);
            }
        }
        Ok(None)
    }

    /// Runs the program for at most `max_steps` instructions on the input
    /// made of `commands`, each followed by a newline. Input that the program
    /// leaves unread is dropped; input it has read but not consumed stays
    /// pending in the machine.
    pub fn run_commands(&mut self, commands: &[&str], output: &mut Vec<u8>, max_steps: u64) -> (r:
        Result<Option<ExitReason>, Error>)
        requires
            old(self).wf(),
        ensures
            final(self).wf(),
            final(self)@.well_formed(),
            final(self)@ == run_spec(old(self)@, command_input(commands@), max_steps as nat).state,
            final(output)@ =~= old(output)@ + run_spec(
                old(self)@,
                command_input(commands@),
                max_steps as nat,
            ).output,
            r == run_spec(old(self)@, command_input(commands@), max_steps as nat).result,
    {
        proof {
            reveal_strlit("\n");
            assert("\n"@ =~= seq!['\n']);
        }
        let text = join_lines(commands, "\n");
        let bytes = vstd::slice::slice_to_vec(text.as_str().as_bytes());
        let mut input = Input::new(bytes);
        self.run_for(&mut input, output, max_steps)
    }
}

} // verus!
