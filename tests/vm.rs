use synacor::input::Input;
use synacor::opcode::{BinOp, Opcode, ReadOpcodeError};
use synacor::vm::{Error, ExitReason, Vm};

fn machine(program: &[u16]) -> Vm {
    let mut vm = Vm::new();
    vm.load_program(program).unwrap();
    vm
}

fn run(vm: &mut Vm, input: &[u8]) -> (Result<Option<ExitReason>, Error>, Vec<u8>) {
    let mut input = Input::new(input.to_vec());
    let mut output = Vec::new();
    let r = vm.run_for(&mut input, &mut output, 100_000);
    (r, output)
}

#[test]
fn add_then_out_with_preloaded_registers() {
    let mut vm = machine(&[9, 32768, 32769, 4, 19, 32768, 0]);
    vm.set_register(0, 65);
    vm.set_register(1, 0);
    let (r, out) = run(&mut vm, b"");
    assert_eq!(r, Ok(Some(ExitReason::Halted)));
    // r0 <- r1 + 4 = 4
    assert_eq!(out, vec![4]);
    assert_eq!(vm.register(0), 4);
}

#[test]
fn add_then_out_gives_a() {
    let mut vm = machine(&[9, 32768, 32769, 4, 19, 32768, 0]);
    vm.set_register(1, 61);
    let (r, out) = run(&mut vm, b"");
    assert_eq!(r, Ok(Some(ExitReason::Halted)));
    assert_eq!(out, b"A".to_vec());
}

#[test]
fn outputs_ab() {
    let mut vm = machine(&[19, 65, 19, 66, 0]);
    let (r, out) = run(&mut vm, b"");
    assert_eq!(r, Ok(Some(ExitReason::Halted)));
    assert_eq!(out, b"AB".to_vec());
    assert_eq!(vm.ip(), 5);
}

#[test]
fn push_leaves_stack() {
    let mut vm = machine(&[1, 32768, 32, 2, 32768, 21, 21, 21, 21, 0]);
    let (r, out) = run(&mut vm, b"");
    assert_eq!(r, Ok(Some(ExitReason::Halted)));
    assert!(out.is_empty());
    assert_eq!(vm.stack(), vec![32]);
    assert_eq!(vm.register(0), 32);
}

#[test]
fn add_wraps_modulo() {
    let mut vm = machine(&[9, 32768, 32767, 1, 19, 32768, 0]);
    let (r, out) = run(&mut vm, b"");
    assert_eq!(r, Ok(Some(ExitReason::Halted)));
    assert_eq!(out, vec![0]);
}

#[test]
fn rmem_reads_memory() {
    let mut program = vec![15u16, 32768, 100, 0];
    program.resize(101, 0);
    program[100] = 72;
    let mut vm = machine(&program);
    let (r, _) = run(&mut vm, b"");
    assert_eq!(r, Ok(Some(ExitReason::Halted)));
    assert_eq!(vm.register(0), 72);
}

#[test]
fn in_then_out_echoes_and_keeps_newline() {
    let mut vm = machine(&[20, 32768, 19, 32768, 0]);
    let (r, out) = run(&mut vm, b"X\n");
    assert_eq!(r, Ok(Some(ExitReason::Halted)));
    assert_eq!(out, b"X".to_vec());
    assert_eq!(vm.pending_input(), b"\n".to_vec());
}

#[test]
fn in_suspends_and_resumes() {
    let mut vm = machine(&[20, 32768, 0]);
    let (r, out) = run(&mut vm, b"");
    assert_eq!(r, Ok(Some(ExitReason::NoMoreInput)));
    assert!(out.is_empty());
    assert_eq!(vm.ip(), 0);
    let (r, _) = run(&mut vm, b"Q\n");
    assert_eq!(r, Ok(Some(ExitReason::Halted)));
    assert_eq!(vm.register(0), b'Q' as u16);
    assert_eq!(vm.ip(), 3);
}

#[test]
fn suspend_round_trip_advances_once() {
    let mut vm = machine(&[20, 32769, 0]);
    let mut empty = Input::empty();
    let mut out = Vec::new();
    assert_eq!(vm.step(&mut empty, &mut out), Ok(Some(ExitReason::NoMoreInput)));
    assert_eq!(vm.ip(), 0);
    let mut input = Input::new(b"A\n".to_vec());
    assert_eq!(vm.step(&mut input, &mut out), Ok(None));
    assert_eq!(vm.register(1), 65);
    assert_eq!(vm.ip(), 2);
    assert_eq!(vm.pending_input(), b"\n".to_vec());
    assert!(input.is_empty());
}

#[test]
fn in_reads_one_line_at_a_time() {
    // in r0; out r0; jmp 0
    let mut vm = machine(&[20, 32768, 19, 32768, 6, 0]);
    let mut input = Input::new(b"ab\ncd\n".to_vec());
    let mut out = Vec::new();
    vm.step(&mut input, &mut out).unwrap();
    assert_eq!(vm.pending_input(), b"b\n".to_vec());
    assert_eq!(input.read_line(), b"cd\n".to_vec());
    let r = vm.run_for(&mut input, &mut out, 1000);
    assert_eq!(r, Ok(Some(ExitReason::NoMoreInput)));
    assert_eq!(out, b"ab\n".to_vec());
}

#[test]
fn run_commands_feeds_each_command_with_newline() {
    let mut vm = machine(&[20, 32768, 19, 32768, 6, 0]);
    let mut out = Vec::new();
    let r = vm.run_commands(&["go north", "take lamp"], &mut out, 10_000);
    assert_eq!(r, Ok(Some(ExitReason::NoMoreInput)));
    assert_eq!(out, b"go north\ntake lamp\n".to_vec());
}

#[test]
fn run_commands_without_commands_suspends() {
    let mut vm = machine(&[20, 32768, 0]);
    let mut out = Vec::new();
    assert_eq!(vm.run_commands(&[], &mut out, 10), Ok(Some(ExitReason::NoMoreInput)));
}

#[test]
fn new_machine_is_zeroed() {
    let vm = Vm::new();
    assert_eq!(vm.ip(), 0);
    assert!(vm.stack().is_empty());
    assert!(vm.pending_input().is_empty());
    for i in 0..8 {
        assert_eq!(vm.register(i), 0);
    }
    assert_eq!(vm.memory_at(0), 0);
    assert_eq!(vm.memory_at(32767), 0);
}

#[test]
fn load_program_copies_and_keeps_rest_zero() {
    let vm = machine(&[7, 8, 9]);
    assert_eq!(vm.memory_at(0), 7);
    assert_eq!(vm.memory_at(1), 8);
    assert_eq!(vm.memory_at(2), 9);
    assert_eq!(vm.memory_at(3), 0);
}

#[test]
fn load_program_largest_size() {
    let mut vm = Vm::new();
    let program = vec![1u16; 32768];
    assert_eq!(vm.load_program(&program), Ok(()));
    assert_eq!(vm.memory_at(32767), 1);
}

#[test]
fn load_program_too_big() {
    let mut vm = Vm::new();
    let program = vec![1u16; 32769];
    assert_eq!(vm.load_program(&program), Err(Error::ProgramTooBig));
    assert_eq!(vm.memory_at(0), 0);
}

#[test]
fn resolve_literal_register_invalid() {
    let mut vm = Vm::new();
    vm.set_register(3, 1234);
    assert_eq!(vm.resolve_value(0), Ok(0));
    assert_eq!(vm.resolve_value(32767), Ok(32767));
    assert_eq!(vm.resolve_value(32771), Ok(1234));
    assert_eq!(vm.resolve_value(32776), Err(Error::InvalidValue(32776)));
}

#[test]
fn call_then_ret_returns_after_call() {
    // 0: call 5; 2: out 'Z'; 4: halt; 5: ret
    let mut vm = machine(&[17, 5, 19, 90, 0, 18]);
    let mut input = Input::empty();
    let mut out = Vec::new();
    assert_eq!(vm.step(&mut input, &mut out), Ok(None));
    assert_eq!(vm.ip(), 5);
    assert_eq!(vm.stack(), vec![2]);
    assert_eq!(vm.step(&mut input, &mut out), Ok(None));
    assert_eq!(vm.ip(), 2);
    assert!(vm.stack().is_empty());
    let (r, out) = run(&mut vm, b"");
    assert_eq!(r, Ok(Some(ExitReason::Halted)));
    assert_eq!(out, b"Z".to_vec());
}

#[test]
fn push_then_pop_restores_stack() {
    let mut vm = machine(&[2, 32770, 3, 32768, 0]);
    vm.set_register(2, 777);
    let (r, _) = run(&mut vm, b"");
    assert_eq!(r, Ok(Some(ExitReason::Halted)));
    assert_eq!(vm.register(0), 777);
    assert!(vm.stack().is_empty());
}

#[test]
fn ret_on_empty_stack_halts() {
    let mut vm = machine(&[18, 19, 65]);
    let (r, out) = run(&mut vm, b"");
    assert_eq!(r, Ok(Some(ExitReason::Halted)));
    assert!(out.is_empty());
}

#[test]
fn arithmetic_and_bit_operations() {
    // mult r0 200 200; mod r1 17 5; and r2 12 10; or r3 12 10; not r4 0;
    // eq r5 3 3; gt r6 2 3; halt
    let mut vm = machine(&[
        10, 32768, 200, 200, 11, 32769, 17, 5, 12, 32770, 12, 10, 13, 32771, 12, 10, 14, 32772,
        0, 4, 32773, 3, 3, 5, 32774, 2, 3, 0,
    ]);
    let (r, _) = run(&mut vm, b"");
    assert_eq!(r, Ok(Some(ExitReason::Halted)));
    assert_eq!(vm.register(0), 7232);
    assert_eq!(vm.register(1), 2);
    assert_eq!(vm.register(2), 8);
    assert_eq!(vm.register(3), 14);
    assert_eq!(vm.register(4), 32767);
    assert_eq!(vm.register(5), 1);
    assert_eq!(vm.register(6), 0);
}

#[test]
fn conditional_jumps_and_wmem() {
    // jt 0 99; jf 0 8; halt; halt; 8: wmem 50 33; jt 1 15; halt; 15: jmp r7
    let mut vm = machine(&[7, 0, 99, 8, 0, 8, 0, 0, 16, 50, 33, 7, 1, 15, 0, 6, 32775]);
    vm.set_register(7, 4);
    let (r, _) = run(&mut vm, b"");
    assert_eq!(r, Ok(Some(ExitReason::Halted)));
    assert_eq!(vm.memory_at(50), 33);
    assert_eq!(vm.ip(), 5);
}

#[test]
fn error_invalid_opcode() {
    let mut vm = machine(&[21, 30]);
    let (r, _) = run(&mut vm, b"");
    assert_eq!(r, Err(Error::ReadOpcode(ReadOpcodeError::InvalidOpcode(30))));
    assert_eq!(vm.ip(), 1);
}

#[test]
fn error_end_of_buffer_at_memory_end() {
    let mut program = vec![0u16; 32767];
    program[0] = 6;
    program[1] = 32767;
    program.push(9);
    let mut vm = machine(&program);
    let (r, _) = run(&mut vm, b"");
    assert_eq!(r, Err(Error::ReadOpcode(ReadOpcodeError::EndOfBuffer)));
}

#[test]
fn error_invalid_value() {
    let mut vm = machine(&[19, 32776]);
    let (r, _) = run(&mut vm, b"");
    assert_eq!(r, Err(Error::InvalidValue(32776)));
}

#[test]
fn error_invalid_register() {
    let mut vm = machine(&[1, 5, 5]);
    let (r, _) = run(&mut vm, b"");
    assert_eq!(r, Err(Error::InvalidRegister(5)));
}

#[test]
fn error_stack_underflow() {
    let mut vm = machine(&[3, 32768]);
    let (r, _) = run(&mut vm, b"");
    assert_eq!(r, Err(Error::StackUnderflow));
}

#[test]
fn error_invalid_address() {
    let mut vm = machine(&[15, 32768, 32769]);
    vm.set_register(1, 40000);
    let (r, _) = run(&mut vm, b"");
    assert_eq!(r, Err(Error::InvalidAddress(40000)));
}

#[test]
fn error_invalid_output() {
    let mut vm = machine(&[19, 300]);
    let (r, out) = run(&mut vm, b"");
    assert_eq!(r, Err(Error::InvalidOutput(300)));
    assert!(out.is_empty());
}

#[test]
fn stops_before_mod_by_zero() {
    let mut vm = machine(&[11, 32768, 5, 0]);
    assert!(vm.divides_by_zero());
    let (r, _) = run(&mut vm, b"");
    assert_eq!(r, Ok(None));
    assert_eq!(vm.ip(), 0);
}

#[test]
fn run_for_stops_after_max_steps() {
    let mut vm = machine(&[21, 21, 21, 0]);
    let mut input = Input::empty();
    let mut out = Vec::new();
    assert_eq!(vm.run_for(&mut input, &mut out, 2), Ok(None));
    assert_eq!(vm.ip(), 2);
}

#[test]
fn registers_stay_in_range() {
    let mut vm = machine(&[9, 32768, 32767, 32767, 10, 32769, 32767, 32767, 14, 32770, 1, 0]);
    let (r, _) = run(&mut vm, b"");
    assert_eq!(r, Ok(Some(ExitReason::Halted)));
    for i in 0..8 {
        assert!(vm.register(i) < 32768);
    }
}

#[test]
fn input_reads_lines() {
    let mut input = Input::new(b"one\ntwo".to_vec());
    assert_eq!(input.read_line(), b"one\n".to_vec());
    input.extend(b"!\n");
    assert_eq!(input.read_line(), b"two!\n".to_vec());
    assert!(input.is_empty());
    assert!(input.read_line().is_empty());
}

#[test]
fn load_program_zeroes_rest_of_used_machine() {
    let mut vm = machine(&[1, 32768, 5, 16, 200, 77, 0]);
    let (r, _) = run(&mut vm, b"");
    assert_eq!(r, Ok(Some(ExitReason::Halted)));
    assert_eq!(vm.memory_at(200), 77);
    assert_eq!(vm.load_program(&[21, 0]), Ok(()));
    assert_eq!(vm.memory_at(0), 21);
    assert_eq!(vm.memory_at(1), 0);
    assert_eq!(vm.memory_at(2), 0);
    assert_eq!(vm.memory_at(3), 0);
    assert_eq!(vm.memory_at(200), 0);
    assert_eq!(vm.register(0), 5);
    assert_eq!(vm.ip(), 7);
}

#[test]
fn bin_op_results_stay_below_modulus() {
    let b = BinOp { write_to: 32768, lhs: 0, rhs: 0 };
    assert_eq!(Vm::bin_op(&Opcode::Add(b), 32767, 32767), 32766);
    assert_eq!(Vm::bin_op(&Opcode::Mult(b), 65535, 65535), 1);
    assert_eq!(Vm::bin_op(&Opcode::Mod(b), 65535, 65534), 1);
    assert_eq!(Vm::bin_op(&Opcode::Or(b), 65535, 0), 32767);
    assert_eq!(Vm::bin_op(&Opcode::And(b), 40000, 65535), 40000 % 32768);
}
