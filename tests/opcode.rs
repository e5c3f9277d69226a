use synacor::opcode::{BinOp, Opcode, ReadOpcodeError};

#[test]
fn decode_halt() {
    assert_eq!(Opcode::decode(&[0]), Ok(Opcode::Halt));
}

#[test]
fn decode_add_with_operands() {
    let op = Opcode::decode(&[9, 32768, 32769, 4, 19]).unwrap();
    assert_eq!(op, Opcode::Add(BinOp { write_to: 32768, lhs: 32769, rhs: 4 }));
    assert_eq!(op.num_words(), 4);
}

#[test]
fn decode_unknown_opcode() {
    assert_eq!(Opcode::decode(&[22, 1, 2]), Err(ReadOpcodeError::InvalidOpcode(22)));
    assert_eq!(Opcode::decode(&[65535]), Err(ReadOpcodeError::InvalidOpcode(65535)));
}

#[test]
fn decode_truncated() {
    assert_eq!(Opcode::decode(&[]), Err(ReadOpcodeError::EndOfBuffer));
    assert_eq!(Opcode::decode(&[9, 32768, 1]), Err(ReadOpcodeError::EndOfBuffer));
    assert_eq!(Opcode::decode(&[17]), Err(ReadOpcodeError::EndOfBuffer));
}

#[test]
fn num_words_is_one_plus_arity() {
    let arity = [0usize, 2, 1, 1, 3, 3, 1, 2, 2, 3, 3, 3, 3, 3, 2, 2, 2, 1, 0, 1, 1, 0];
    for code in 0..22u16 {
        let mut words = vec![code];
        words.extend([32768u16, 32769, 32770]);
        let op = Opcode::decode(&words).unwrap();
        assert_eq!(op.num_words(), 1 + arity[code as usize], "opcode {code}");
        let short = &words[..arity[code as usize]];
        if arity[code as usize] > 0 {
            assert_eq!(Opcode::decode(short), Err(ReadOpcodeError::EndOfBuffer));
        }
    }
}

#[test]
fn decode_fields_in_order() {
    assert_eq!(Opcode::decode(&[1, 32770, 7]), Ok(Opcode::SetReg { reg: 32770, val: 7 }));
    assert_eq!(Opcode::decode(&[16, 100, 5]), Ok(Opcode::WriteMem { addr: 100, val: 5 }));
    assert_eq!(Opcode::decode(&[15, 32768, 100]), Ok(Opcode::ReadMem { write_to: 32768, addr: 100 }));
    assert_eq!(Opcode::decode(&[8, 3, 9]), Ok(Opcode::JmpIfFalse { cond: 3, to: 9 }));
    assert_eq!(Opcode::decode(&[20, 32768]), Ok(Opcode::In { write_to: 32768 }));
    assert_eq!(Opcode::decode(&[21, 5]), Ok(Opcode::Noop));
}
