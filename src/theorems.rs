//! Facts about the machine that span several instructions or operations,
//! stated over the specifications that the executable functions satisfy.
use vstd::prelude::*;
use crate::input::{first_line, line_end, NEWLINE};
use crate::opcode::{decode_spec, Opcode};
use crate::vm::{
    bin_operands, bin_spec, is_register, step_spec, Error, ExitReason, VmState, FIRST_REGISTER, NUM_ADDRESSES,
    NUM_REGISTERS,
};

verus! {

impl VmState {
    /// Every register and every stack entry is below `NUM_ADDRESSES`.
    pub open spec fn words_in_range(self) -> bool {
        &&& forall|i: int| 0 <= i < NUM_REGISTERS ==> #[trigger] self.registers[i] < NUM_ADDRESSES
        &&& forall|i: int| 0 <= i < self.stack.len() ==> #[trigger] self.stack[i] < NUM_ADDRESSES
    }

    /// The next instruction is `rmem` of a memory word that is not below
    /// `NUM_ADDRESSES` (a program word such as a register reference).
    pub open spec fn loads_wide_word(self) -> bool {
        match decode_spec(self.fetch()) {
            Ok(Opcode::ReadMem { addr, .. }) => match self.resolve(addr) {
                Ok(a) => a < NUM_ADDRESSES && self.memory[a as int] >= NUM_ADDRESSES,
                Err(_) => false,
            },
            _ => false,
        }
    }

    /// The next instruction is a `call` in the last two memory cells, whose
    /// return address is `NUM_ADDRESSES` itself.
    pub open spec fn calls_from_end(self) -> bool {
        decode_spec(self.fetch()) matches Ok(Opcode::Call { .. }) && self.ip + 2 == NUM_ADDRESSES
    }
}

/// Register contents stay below `NUM_ADDRESSES` across an instruction, as do
/// stack entries, when they were so before; the exceptions are copying a
/// wider memory word into a register and a `call` from the last two cells.
pub proof fn lemma_step_keeps_words_in_range(s: VmState, input: Seq<u8>)
    requires
        s.well_formed(),
        s.words_in_range(),
        !s.loads_wide_word(),
        !s.calls_from_end(),
    ensures
        step_spec(s, input).state.words_in_range(),
{
    let o = step_spec(s, input);
    match decode_spec(s.fetch()) {
        Err(_) => {},
        Ok(op) => {
            assert forall|i: int| 0 <= i < NUM_REGISTERS implies #[trigger] o.state.registers[i]
                < NUM_ADDRESSES by {
                match op {
                    Opcode::Not { .. } | Opcode::Eq(_) | Opcode::Gt(_) | Opcode::Add(_)
                    | Opcode::Mult(_) | Opcode::Mod(_) | Opcode::And(_) | Opcode::Or(_) => {
                        assert forall|x: u16| (#[trigger] (x % NUM_ADDRESSES)) < NUM_ADDRESSES by {}
                    },
                    Opcode::Pop { .. } => {
                        if s.stack.len() > 0 {
                            assert(s.stack[s.stack.len() - 1] < NUM_ADDRESSES);
                        }
                    },
                    _ => {},
                }
            }
            assert forall|i: int| 0 <= i < o.state.stack.len() implies #[trigger] o.state.stack[i]
                < NUM_ADDRESSES by {
                match op {
                    Opcode::Pop { .. } | Opcode::Ret => {
                        assert(o.state.stack[i] == s.stack[i]);
                    },
                    Opcode::Push { .. } | Opcode::Call { .. } => {
                        if i < s.stack.len() {
                            assert(o.state.stack[i] == s.stack[i]);
                        }
                    },
                    _ => {},
                }
            }
        },
    }
}

/// The register that an arithmetic, comparison or `not` instruction writes.
pub open spec fn arithmetic_target(op: Opcode) -> Option<u16> {
    match op {
        Opcode::Not { write_to, .. } => Some(write_to),
        _ => match bin_operands(op) {
            Some(b) => Some(b.write_to),
            None => None,
        },
    }
}

/// Every result that an arithmetic, comparison or `not` instruction stores
/// in a register is below `NUM_ADDRESSES`, whatever its operands hold.
pub proof fn lemma_arithmetic_results_in_range(s: VmState, input: Seq<u8>)
    requires
        s.well_formed(),
        decode_spec(s.fetch()) is Ok,
        arithmetic_target(decode_spec(s.fetch())->Ok_0) is Some,
        step_spec(s, input).result is Ok,
    ensures
        step_spec(s, input).state.registers[arithmetic_target(decode_spec(s.fetch())->Ok_0)->Some_0
            - FIRST_REGISTER] < NUM_ADDRESSES,
{
    let op = decode_spec(s.fetch())->Ok_0;
    assert forall|l: u16, r: u16| #[trigger] bin_spec(op, l, r) < NUM_ADDRESSES by {}
    assert forall|x: u16| (#[trigger] (x % NUM_ADDRESSES)) < NUM_ADDRESSES by {}
}

/// After a load, the cells below the program's length hold the program
/// and the cells after it are zero, whatever memory held before.
pub proof fn lemma_load_zeroes_the_rest(s: VmState, program: Seq<u16>)
    requires
        s.well_formed(),
        program.len() <= NUM_ADDRESSES,
    ensures
        s.loaded(program).memory.len() == NUM_ADDRESSES,
        s.loaded(program).memory.subrange(0, program.len() as int) == program,
        forall|i: int|
            program.len() <= i < NUM_ADDRESSES ==> #[trigger] s.loaded(program).memory[i] == 0,
{
    assert(s.loaded(program).memory.subrange(0, program.len() as int) =~= program);
}

/// Operand resolution: a literal below `NUM_ADDRESSES` stands for itself, a
/// register address for that register's content, and anything above the
/// registers is invalid.
pub proof fn lemma_resolve(s: VmState, k: u16)
    requires
        s.well_formed(),
    ensures
        k < NUM_ADDRESSES ==> s.resolve(k) == Ok::<u16, Error>(k),
        is_register(k) ==> s.resolve(k) == Ok::<u16, Error>(s.registers[k - FIRST_REGISTER]),
        k >= FIRST_REGISTER + NUM_REGISTERS ==> s.resolve(k) == Err::<u16, Error>(
            Error::InvalidValue(k),
        ),
{
}

/// A `call` whose target holds `ret` brings execution back to the
/// instruction after the `call`, with the stack as it was.
pub proof fn lemma_call_then_ret(s: VmState, input: Seq<u8>, addr: u16)
    requires
        s.well_formed(),
        decode_spec(s.fetch()) == Ok::<Opcode, crate::opcode::ReadOpcodeError>(Opcode::Call { addr }),
        s.resolve(addr) is Ok,
        s.resolve(addr)->Ok_0 < NUM_ADDRESSES,
        s.memory[s.resolve(addr)->Ok_0 as int] == 18,
    ensures
        ({
            let first = step_spec(s, input);
            let second = step_spec(first.state, first.input);
            &&& first.result == Ok::<Option<ExitReason>, Error>(None)
            &&& second.result == Ok::<Option<ExitReason>, Error>(None)
            &&& second.state.ip == s.ip + 2
            &&& second.state.stack == s.stack
            &&& second.state.registers == s.registers
            &&& second.state.memory == s.memory
            &&& second.output.len() == 0
        }),
{
    let first = step_spec(s, input);
    let t = s.resolve(addr)->Ok_0;
    assert(first.state.fetch()[0] == 18);
    assert(first.state.stack.drop_last() =~= s.stack);
}

/// `push v` followed by `pop r` leaves register `r` holding the value of `v`
/// and the stack as it was.
pub proof fn lemma_push_then_pop(s: VmState, input: Seq<u8>, v: u16, r: u16)
    requires
        s.well_formed(),
        s.ip + 4 <= NUM_ADDRESSES,
        s.memory[s.ip] == 2,
        s.memory[s.ip + 1] == v,
        s.memory[s.ip + 2] == 3,
        s.memory[s.ip + 3] == r,
        s.resolve(v) is Ok,
        is_register(r),
    ensures
        ({
            let first = step_spec(s, input);
            let second = step_spec(first.state, first.input);
            &&& first.result == Ok::<Option<ExitReason>, Error>(None)
            &&& second.result == Ok::<Option<ExitReason>, Error>(None)
            &&& second.state.registers[r - FIRST_REGISTER] == s.resolve(v)->Ok_0
            &&& second.state.stack == s.stack
            &&& second.state.ip == s.ip + 4
        }),
{
    let first = step_spec(s, input);
    assert(s.fetch()[0] == 2 && s.fetch()[1] == v);
    assert(first.state.fetch()[0] == 3 && first.state.fetch()[1] == r);
    assert(first.state.stack.drop_last() =~= s.stack);
}

/// An `in` with nothing pending and no input suspends the machine with the
/// instruction pointer left on the `in`; resumed with a line `c`, newline,
/// it stores `c` in the destination register, moves past the `in` once and
/// keeps the newline pending.
pub proof fn lemma_suspend_then_resume(s: VmState, w: u16, c: u8)
    requires
        s.well_formed(),
        s.pending.len() == 0,
        s.ip + 2 <= NUM_ADDRESSES,
        s.memory[s.ip] == 20,
        s.memory[s.ip + 1] == w,
        is_register(w),
        c != NEWLINE,
    ensures
        ({
            let first = step_spec(s, Seq::empty());
            let second = step_spec(first.state, seq![c, NEWLINE]);
            &&& first.result == Ok::<Option<ExitReason>, Error>(Some(ExitReason::NoMoreInput))
            &&& first.state == s
            &&& second.result == Ok::<Option<ExitReason>, Error>(None)
            &&& second.state.registers[w - FIRST_REGISTER] == c as u16
            &&& second.state.ip == s.ip + 2
            &&& second.state.pending == seq![NEWLINE]
            &&& second.input.len() == 0
        }),
{
    assert(s.fetch()[0] == 20 && s.fetch()[1] == w);
    let line = seq![c, NEWLINE];
    reveal_with_fuel(line_end, 3);
    assert(line_end(line, 0) == 2);
    assert(first_line(line) =~= line);
    assert(line.drop_first() =~= seq![NEWLINE]);
    assert(s.with_ip(s.ip + 2).with_ip(s.ip) =~~= s);
}

} // verus!
