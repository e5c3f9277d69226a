//! Instructions and their decoding from memory words.
use vstd::prelude::*;

verus! {

/// Operands of the three-operand arithmetic and comparison instructions.
#[derive(Debug, Clone, Copy, PartialEq, Eq, Structural)]
pub struct BinOp {
    pub write_to: u16,
    pub lhs: u16,
    pub rhs: u16,
}

/// A decoded instruction with its raw (unresolved) operand words.
#[derive(Debug, Clone, Copy, PartialEq, Eq, Structural)]
pub enum Opcode {
    Halt,
    SetReg { reg: u16, val: u16 },
    Push { val: u16 },
    Pop { write_to: u16 },
    Eq(BinOp),
    Gt(BinOp),
    Jmp { to: u16 },
    JmpIfTrue { cond: u16, to: u16 },
    JmpIfFalse { cond: u16, to: u16 },
    Add(BinOp),
    Mult(BinOp),
    Mod(BinOp),
    And(BinOp),
    Or(BinOp),
    Not { write_to: u16, val: u16 },
    ReadMem { write_to: u16, addr: u16 },
    WriteMem { addr: u16, val: u16 },
    Call { addr: u16 },
    Ret,
    Out { val: u16 },
    In { write_to: u16 },
    Noop,
}

/// Why a word sequence does not start with a well-formed instruction.
#[derive(Debug, Clone, Copy, PartialEq, Eq, Structural)]
pub enum ReadOpcodeError {
    /// The first word is not an opcode number in `0..=21`.
    InvalidOpcode(u16),
    /// The words end before the instruction's last operand.
    EndOfBuffer,
}

/// The highest opcode number of the instruction set.
pub const MAX_OPCODE: u16 = 21;

/// Number of operand words taken by the instruction with opcode number `code`.
pub open spec fn arity(code: u16) -> nat {
    if code == 0 || code == 18 || code == 21 {
        0
    } else if code == 2 || code == 3 || code == 6 || code == 17 || code == 19 || code == 20 {
        1
    } else if code == 1 || code == 7 || code == 8 || code == 14 || code == 15 || code == 16 {
        2
    } else {
        3
    }
}

/// The instruction with opcode number `code` whose operands are `ops`, in order.
pub open spec fn build(code: u16, ops: Seq<u16>) -> Opcode {
    let b = BinOp { write_to: ops[0], lhs: ops[1], rhs: ops[2] };
    if code == 0 {
        Opcode::Halt
    } else if code == 1 {
        Opcode::SetReg { reg: ops[0], val: ops[1] }
    } else if code == 2 {
        Opcode::Push { val: ops[0] }
    } else if code == 3 {
        Opcode::Pop { write_to: ops[0] }
    } else if code == 4 {
        Opcode::Eq(b)
    } else if code == 5 {
        Opcode::Gt(b)
    } else if code == 6 {
        Opcode::Jmp { to: ops[0] }
    } else if code == 7 {
        Opcode::JmpIfTrue { cond: ops[0], to: ops[1] }
    } else if code == 8 {
        Opcode::JmpIfFalse { cond: ops[0], to: ops[1] }
    } else if code == 9 {
        Opcode::Add(b)
    } else if code == 10 {
        Opcode::Mult(b)
    } else if code == 11 {
        Opcode::Mod(b)
    } else if code == 12 {
        Opcode::And(b)
    } else if code == 13 {
        Opcode::Or(b)
    } else if code == 14 {
        Opcode::Not { write_to: ops[0], val: ops[1] }
    } else if code == 15 {
        Opcode::ReadMem { write_to: ops[0], addr: ops[1] }
    } else if code == 16 {
        Opcode::WriteMem { addr: ops[0], val: ops[1] }
    } else if code == 17 {
        Opcode::Call { addr: ops[0] }
    } else if code == 18 {
        Opcode::Ret
    } else if code == 19 {
        Opcode::Out { val: ops[0] }
    } else if code == 20 {
        Opcode::In { write_to: ops[0] }
    } else {
        Opcode::Noop
    }
}

/// What decoding the instruction at the start of `words` gives.
pub open spec fn decode_spec(words: Seq<u16>) -> Result<Opcode, ReadOpcodeError> {
    if words.len() == 0 {
        Err(ReadOpcodeError::EndOfBuffer)
    } else if words[0] > MAX_OPCODE {
        Err(ReadOpcodeError::InvalidOpcode(words[0]))
    } else if words.len() < 1 + arity(words[0]) {
        Err(ReadOpcodeError::EndOfBuffer)
    } else {
        Ok(build(words[0], words.subrange(1, 1 + arity(words[0]) as int)))
    }
}

impl Opcode {
    /// The opcode number of this instruction.
    pub open spec fn code(self) -> u16 {
        match self {
            Opcode::Halt => 0,
            Opcode::SetReg { .. } => 1,
            Opcode::Push { .. } => 2,
            Opcode::Pop { .. } => 3,
            Opcode::Eq(_) => 4,
            Opcode::Gt(_) => 5,
            Opcode::Jmp { .. } => 6,
            Opcode::JmpIfTrue { .. } => 7,
            Opcode::JmpIfFalse { .. } => 8,
            Opcode::Add(_) => 9,
            Opcode::Mult(_) => 10,
            Opcode::Mod(_) => 11,
            Opcode::And(_) => 12,
            Opcode::Or(_) => 13,
            Opcode::Not { .. } => 14,
            Opcode::ReadMem { .. } => 15,
            Opcode::WriteMem { .. } => 16,
            Opcode::Call { .. } => 17,
            Opcode::Ret => 18,
            Opcode::Out { .. } => 19,
            Opcode::In { .. } => 20,
            Opcode::Noop => 21,
        }
    }

    /// The operand words of this instruction, in encoding order.
    pub open spec fn operands(self) -> Seq<u16> {
        match self {
            Opcode::Halt | Opcode::Ret | Opcode::Noop => seq![],
            Opcode::Push { val } | Opcode::Out { val } => seq![val],
            Opcode::Pop { write_to } | Opcode::In { write_to } => seq![write_to],
            Opcode::Jmp { to } => seq![to],
            Opcode::Call { addr } => seq![addr],
            Opcode::SetReg { reg, val } => seq![reg, val],
            Opcode::JmpIfTrue { cond, to } | Opcode::JmpIfFalse { cond, to } => seq![cond, to],
            Opcode::Not { write_to, val } => seq![write_to, val],
            Opcode::ReadMem { write_to, addr } => seq![write_to, addr],
            Opcode::WriteMem { addr, val } => seq![addr, val],
            Opcode::Eq(b) | Opcode::Gt(b) | Opcode::Add(b) | Opcode::Mult(b) | Opcode::Mod(b)
            | Opcode::And(b) | Opcode::Or(b) => seq![b.write_to, b.lhs, b.rhs],
        }
    }

    /// The instruction as it is laid out in memory.
    pub open spec fn encoding(self) -> Seq<u16> {
        seq![self.code()] + self.operands()
    }

    /// Number of words the instruction occupies: the opcode and its operands.
    pub fn num_words(&self) -> (r: usize)
        ensures
            r == 1 + arity(self.code()),
            r == self.encoding().len(),
    {
        match self {
            Opcode::Halt | Opcode::Ret | Opcode::Noop => 1,
            Opcode::Push { .. } | Opcode::Pop { .. } | Opcode::Jmp { .. } | Opcode::Call { .. }
            | Opcode::Out { .. } | Opcode::In { .. } => 2,
            Opcode::SetReg { .. } | Opcode::JmpIfTrue { .. } | Opcode::JmpIfFalse { .. }
            | Opcode::Not { .. } | Opcode::ReadMem { .. } | Opcode::WriteMem { .. } => 3,
            Opcode::Eq(_) | Opcode::Gt(_) | Opcode::Add(_) | Opcode::Mult(_) | Opcode::Mod(_)
            | Opcode::And(_) | Opcode::Or(_) => 4,
        }
    }

    /// Decodes the instruction at the start of `words`; words after it are ignored.
    pub fn decode(words: &[u16]) -> (r: Result<Opcode, ReadOpcodeError>)
        ensures
            r == decode_spec(words@),
    {
        if words.len() == 0 {
            return Err(ReadOpcodeError::EndOfBuffer);
        }
        let code = words[0];
        if code > MAX_OPCODE {
            return Err(ReadOpcodeError::InvalidOpcode(code));
        }
        let n: usize = if code == 0 || code == 18 || code == 21 {
            1
        } else if code == 2 || code == 3 || code == 6 || code == 17 || code == 19 || code == 20 {
            2
        } else if code == 1 || code == 7 || code == 8 || code == 14 || code == 15 || code == 16 {
            3
        } else {
            4
        };
        if words.len() < n {
            return Err(ReadOpcodeError::EndOfBuffer);
        }
        let a: u16 = if n > 1 { words[1] } else { 0 };
        let b: u16 = if n > 2 { words[2] } else { 0 };
        let c: u16 = if n > 3 { words[3] } else { 0 };
        let bin = BinOp { write_to: a, lhs: b, rhs: c };
        let op = match code {
            0 => Opcode::Halt,
            1 => Opcode::SetReg { reg: a, val: b },
            2 => Opcode::Push { val: a },
            3 => Opcode::Pop { write_to: a },
            4 => Opcode::Eq(bin),
            5 => Opcode::Gt(bin),
            6 => Opcode::Jmp { to: a },
            7 => Opcode::JmpIfTrue { cond: a, to: b },
            8 => Opcode::JmpIfFalse { cond: a, to: b },
            9 => Opcode::Add(bin),
            10 => Opcode::Mult(bin),
            11 => Opcode::Mod(bin),
            12 => Opcode::And(bin),
            13 => Opcode::Or(bin),
            14 => Opcode::Not { write_to: a, val: b },
            15 => Opcode::ReadMem { write_to: a, addr: b },
            16 => Opcode::WriteMem { addr: a, val: b },
            17 => Opcode::Call { addr: a },
            18 => Opcode::Ret,
            19 => Opcode::Out { val: a },
            20 => Opcode::In { write_to: a },
            _ => Opcode::Noop,
        };
        Ok(op)
    }
}

/// Every opcode occupies one word more than its operand count.
pub proof fn lemma_num_words_is_one_plus_arity(op: Opcode)
    ensures
        op.encoding().len() == 1 + arity(op.code()),
        op.operands().len() == arity(op.code()),
{
}

/// A successful decode reads exactly the instruction's encoding: the opcode
/// word and then its operands, and decoding that encoding alone gives the
/// same instruction back.
pub proof fn lemma_decode_reads_encoding(words: Seq<u16>)
    requires
        decode_spec(words) is Ok,
    ensures
        ({
            let op = decode_spec(words)->Ok_0;
            &&& op.encoding().len() <= words.len()
            &&& op.encoding() == words.subrange(0, op.encoding().len() as int)
            &&& decode_spec(op.encoding()) == Ok::<Opcode, ReadOpcodeError>(op)
        }),
{
    let op = decode_spec(words)->Ok_0;
    let n = 1 + arity(words[0]);
    assert(op.code() == words[0]);
    assert(op.operands() =~= words.subrange(1, n as int));
    assert(op.encoding() =~= words.subrange(0, n as int));
    assert(op.encoding().subrange(1, n as int) =~= op.operands());
}

} // verus!
