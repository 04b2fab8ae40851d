//! Tests of the instruction table, the fetch/decode/execute loop and the
//! disassembler, including the pinned end-to-end programs.

use evm::execution::instructions::{instruction_for, ExecutionStatus, OpCode};
use evm::execution::program_context::{Environment, ProgramContext, ProgramError, Rom};
use evm::execution::types::u256;

fn run_rom(hex: &str) -> (ProgramContext, ExecutionStatus) {
    let mut context = ProgramContext::new(Rom::from_string(hex));
    let status = context.run(10_000);
    (context, status)
}

#[test]
fn table_describes_the_instructions() {
    let stop = instruction_for(0x00).unwrap();
    assert_eq!("STOP", stop.mnemonic);
    assert_eq!((0, 0, 0), (stop.stack_items_removed, stop.stack_items_added, stop.rom_items_used));
    let add_row = instruction_for(0x01).unwrap();
    assert_eq!("ADD", add_row.mnemonic);
    assert_eq!((2, 1, 0), (
        add_row.stack_items_removed,
        add_row.stack_items_added,
        add_row.rom_items_used,
    ));
    let push32 = instruction_for(0x7f).unwrap();
    assert_eq!("PUSH32", push32.mnemonic);
    assert_eq!(32, push32.rom_items_used);
    let dup3 = instruction_for(0x82).unwrap();
    assert_eq!("DUP3", dup3.mnemonic);
    assert_eq!((3, 4), (dup3.stack_items_removed, dup3.stack_items_added));
    let swap1 = instruction_for(0x90).unwrap();
    assert_eq!((2, 2), (swap1.stack_items_removed, swap1.stack_items_added));
    assert!(instruction_for(0x0c).is_none());
    assert!(instruction_for(0x21).is_none());
    assert!(instruction_for(0xfb).is_none());
}

#[test]
fn opcode_bytes_round_trip() {
    assert_eq!(Some(OpCode::Add), OpCode::from_byte(0x01));
    assert_eq!(Some(OpCode::JumpDest), OpCode::from_byte(0x5b));
    assert_eq!(None, OpCode::from_byte(0x0c));
    assert_eq!(0x56, OpCode::Jump.as_byte());
    assert_eq!(0xff, OpCode::SelfDestruct.as_byte());
}

#[test]
fn push_add_program_halts_with_42() {
    // PUSH1 10, PUSH1 32, ADD, STOP
    let (context, status) = run_rom("600a60200100");
    assert!(matches!(status, ExecutionStatus::HaltedOk(d) if d.is_empty()));
    assert_eq!(1, context.stack.len());
    assert_eq!(u256::from_u8(42), context.stack.peek(0).unwrap());
}

#[test]
fn sub_wraps_below_zero() {
    // PUSH1 1, PUSH1 0, SUB, STOP: the top is 0, so SUB computes
    // top - second = 0 - 1, which wraps to 2^256 - 1
    let (context, status) = run_rom("600160000300");
    assert!(matches!(status, ExecutionStatus::HaltedOk(_)));
    assert_eq!(1, context.stack.len());
    assert_eq!(u256::max(), context.stack.peek(0).unwrap());
}

#[test]
fn sub_takes_top_minus_second() {
    // PUSH1 1, PUSH1 5, SUB, STOP: top - second = 5 - 1 = 4
    let (context, status) = run_rom("600160050300");
    assert!(matches!(status, ExecutionStatus::HaltedOk(_)));
    assert_eq!(u256::from_u8(4), context.stack.peek(0).unwrap());
}

#[test]
fn div_by_zero_halts_with_zero() {
    // PUSH1 0, PUSH1 5, DIV, STOP: 5 / 0 = 0
    let (context, status) = run_rom("600060050400");
    assert!(matches!(status, ExecutionStatus::HaltedOk(_)));
    assert_eq!(1, context.stack.len());
    assert_eq!(u256::zero(), context.stack.peek(0).unwrap());
}

#[test]
fn jump_to_non_jumpdest_faults() {
    // PUSH1 3, JUMP, STOP: target 3 is the STOP byte, not a JUMPDEST
    let (_, status) = run_rom("60035600");
    assert_eq!(status, ExecutionStatus::Faulted(ProgramError::InvalidJump));
}

#[test]
fn jump_to_jumpdest_continues_there() {
    // PUSH1 4, JUMP, STOP, JUMPDEST, STOP
    let (context, status) = run_rom("600456005b00");
    assert!(matches!(status, ExecutionStatus::HaltedOk(_)));
    assert_eq!(0, context.stack.len());
    assert_eq!(6, context.rom.pc());
}

#[test]
fn add_on_empty_stack_underflows() {
    // ADD with an empty stack
    let (context, status) = run_rom("0100");
    assert_eq!(status, ExecutionStatus::Faulted(ProgramError::StackUnderflow));
    assert_eq!(0, context.stack.len());
    assert_eq!(0, context.memory.msize());
}

#[test]
fn running_off_the_end_is_a_normal_halt() {
    // PUSH1 7 and no STOP: the bare fetch off the end halts normally
    let (context, status) = run_rom("6007");
    assert!(matches!(status, ExecutionStatus::HaltedOk(d) if d.is_empty()));
    assert_eq!(1, context.stack.len());
    let (_, status) = run_rom("");
    assert!(matches!(status, ExecutionStatus::HaltedOk(d) if d.is_empty()));
}

#[test]
fn truncated_push_immediate_faults() {
    // PUSH2 with only one immediate byte
    let (_, status) = run_rom("61aa");
    assert!(matches!(
        status,
        ExecutionStatus::Faulted(ProgramError::ROMOutOfBoundsError(_))
    ));
}

#[test]
fn undefined_byte_faults_as_invalid() {
    let (_, status) = run_rom("0c00");
    assert_eq!(status, ExecutionStatus::Faulted(ProgramError::InvalidOpcode));
    let (_, status) = run_rom("fe");
    assert_eq!(status, ExecutionStatus::Faulted(ProgramError::InvalidOpcode));
}

#[test]
fn opcode_needing_world_state_faults_as_unsupported() {
    // BALANCE needs the world state, which this machine does not model
    let (_, status) = run_rom("60003100");
    assert_eq!(status, ExecutionStatus::Faulted(ProgramError::UnsupportedOpcode));
    // so does KECCAK256
    let (_, status) = run_rom("600060002000");
    assert_eq!(status, ExecutionStatus::Faulted(ProgramError::UnsupportedOpcode));
}

#[test]
fn environment_reads_zero_from_an_empty_host() {
    // ADDRESS, TIMESTAMP, CALLDATASIZE with nothing injected
    let (context, status) = run_rom("3042360000");
    assert!(matches!(status, ExecutionStatus::HaltedOk(_)));
    assert_eq!(u256::zero(), context.stack.peek(1).unwrap());
    assert_eq!(u256::zero(), context.stack.peek(2).unwrap());
    assert_eq!(u256::zero(), context.stack.peek(0).unwrap());
    // CODESIZE sees the program itself
    let (context, _) = run_rom("3800");
    assert_eq!(u256::from_u8(2), context.stack.peek(0).unwrap());
    // CALLDATALOAD of empty call data reads zero
    let (context, _) = run_rom("60003500");
    assert_eq!(u256::zero(), context.stack.peek(0).unwrap());
}

#[test]
fn environment_reads_come_from_the_injected_record() {
    let mut environment = Environment::zeroed();
    environment.timestamp = u256::from_u8(42);
    environment.calldata = vec![1, 2, 3];
    let mut context = ProgramContext::with_environment(
        Rom::from_string("42366001350000"),
        environment,
    );
    let status = context.run(1000);
    assert!(matches!(status, ExecutionStatus::HaltedOk(_)));
    // CALLDATALOAD at offset 1 reads bytes 2 and 3, zero-padded
    let expected = u256::from_u128s(0x02030000_00000000_00000000_00000000, 0);
    assert_eq!(expected, context.stack.peek(0).unwrap());
    // CALLDATASIZE saw three bytes, TIMESTAMP the injected 42
    assert_eq!(u256::from_u8(3), context.stack.peek(1).unwrap());
    assert_eq!(u256::from_u8(42), context.stack.peek(2).unwrap());
}

#[test]
fn comparison_opcodes_push_bits() {
    // PUSH1 2, PUSH1 1, LT, STOP: 1 < 2 is true
    let (context, status) = run_rom("600260011000");
    assert!(matches!(status, ExecutionStatus::HaltedOk(_)));
    assert_eq!(u256::one(), context.stack.peek(0).unwrap());
    // PUSH1 2, PUSH1 1, GT, STOP: 1 > 2 is false
    let (context, _) = run_rom("600260011100");
    assert_eq!(u256::zero(), context.stack.peek(0).unwrap());
    // PUSH1 7, PUSH1 7, EQ, STOP
    let (context, _) = run_rom("600760071400");
    assert_eq!(u256::one(), context.stack.peek(0).unwrap());
    // PUSH1 0, ISZERO, STOP
    let (context, _) = run_rom("60001500");
    assert_eq!(u256::one(), context.stack.peek(0).unwrap());
}

#[test]
fn shift_opcodes_scale_by_powers_of_two() {
    // PUSH1 1, PUSH1 8, SHL, STOP: 1 << 8 = 256
    let (context, _) = run_rom("600160081b00");
    assert_eq!(u256::from_u128(256), context.stack.peek(0).unwrap());
    // PUSH2 0x0100, PUSH1 4, SHR, STOP: 0x100 >> 4 = 0x10
    let (context, _) = run_rom("61010060041c00");
    assert_eq!(u256::from_u8(0x10), context.stack.peek(0).unwrap());
    // a shift of 256 clears everything
    let (context, _) = run_rom("60016101001b00");
    assert_eq!(u256::zero(), context.stack.peek(0).unwrap());
}

#[test]
fn signed_opcodes_follow_two_complement() {
    // build -1, push 1, SGT: 1 > -1
    let (context, _) = run_rom("600160000360011300");
    assert_eq!(u256::one(), context.stack.peek(0).unwrap());
    // build -1, push 1, SLT: 1 < -1 is false
    let (context, _) = run_rom("600160000360011200");
    assert_eq!(u256::zero(), context.stack.peek(0).unwrap());
    // push 2, build -4, SDIV: -4 / 2 = -2
    let (context, _) = run_rom("600260046000030500");
    assert_eq!(u256::max().sub(u256::one()), context.stack.peek(0).unwrap());
    // push 3, build -5, SMOD: -5 % 3 = -2
    let (context, _) = run_rom("600360056000030700");
    assert_eq!(u256::max().sub(u256::one()), context.stack.peek(0).unwrap());
}

#[test]
fn exp_opcode_raises_to_a_power() {
    // PUSH1 10 (exponent), PUSH1 2 (base), EXP, STOP: 2^10 = 1024
    let (context, _) = run_rom("600a60020a00");
    assert_eq!(u256::from_u128(1024), context.stack.peek(0).unwrap());
    // anything to the zeroth power is one
    let (context, _) = run_rom("600060070a00");
    assert_eq!(u256::one(), context.stack.peek(0).unwrap());
    // 2^256 wraps to zero
    let (context, _) = run_rom("61010060020a00");
    assert_eq!(u256::zero(), context.stack.peek(0).unwrap());
}

#[test]
fn modular_opcodes_reduce_the_true_result() {
    // PUSH1 10 (modulus), PUSH1 7, PUSH1 5, ADDMOD, STOP: (5 + 7) % 10
    let (context, _) = run_rom("600a600760050800");
    assert_eq!(u256::from_u8(2), context.stack.peek(0).unwrap());
    // PUSH1 10 (modulus), PUSH1 6, PUSH1 7, MULMOD, STOP: (7 * 6) % 10
    let (context, _) = run_rom("600a600660070900");
    assert_eq!(u256::from_u8(2), context.stack.peek(0).unwrap());
}

#[test]
fn signextend_opcode_widens_a_byte() {
    // PUSH1 0xff, PUSH1 0 (index), SIGNEXTEND, STOP: 0xff widens to -1
    let (context, _) = run_rom("60ff60000b00");
    assert_eq!(u256::max(), context.stack.peek(0).unwrap());
}

#[test]
fn sar_opcode_keeps_the_sign() {
    // build -16, PUSH1 2, SAR, STOP: -16 >> 2 = -4
    let (context, _) = run_rom("601060000360021d00");
    assert_eq!(u256::max().sub(u256::from_u8(3)), context.stack.peek(0).unwrap());
}

#[test]
fn byte_opcode_indexes_big_endian() {
    // PUSH2 0xff00, PUSH1 30, BYTE: byte 30 of 0xff00 is 0xff
    let (context, _) = run_rom("61ff00601e1a00");
    assert_eq!(u256::from_u8(0xff), context.stack.peek(0).unwrap());
    // an index past 31 reads zero
    let (context, _) = run_rom("61ff0060201a00");
    assert_eq!(u256::zero(), context.stack.peek(0).unwrap());
}

#[test]
fn codecopy_copies_the_program_into_memory() {
    // PUSH1 4 (count), PUSH1 0 (source), PUSH1 0 (dest), CODECOPY,
    // PUSH1 0, MLOAD, STOP: the word starts with the code's first bytes
    let (context, status) = run_rom("6004600060003960005100");
    assert!(matches!(status, ExecutionStatus::HaltedOk(_)));
    let expected = u256::from_u128s(0x60046000_00000000_00000000_00000000, 0);
    assert_eq!(expected, context.stack.peek(0).unwrap());
}

#[test]
fn calldatacopy_copies_and_zero_pads() {
    let mut environment = Environment::zeroed();
    environment.calldata = vec![0xaa, 0xbb];
    // PUSH1 3 (count), PUSH1 0 (source), PUSH1 0 (dest), CALLDATACOPY,
    // PUSH1 0, MLOAD, STOP: two data bytes arrive, the third is zero
    let mut context = ProgramContext::with_environment(
        Rom::from_string("6003600060003760005100"),
        environment,
    );
    let status = context.run(1000);
    assert!(matches!(status, ExecutionStatus::HaltedOk(_)));
    let expected = u256::from_u128s(0xaabb0000_00000000_00000000_00000000, 0);
    assert_eq!(expected, context.stack.peek(0).unwrap());
    assert_eq!(32, context.memory.msize());
}

#[test]
fn memory_opcodes_store_and_load() {
    // PUSH1 42, PUSH1 0, MSTORE8, MSIZE, STOP
    let (context, status) = run_rom("602a6000535900");
    assert!(matches!(status, ExecutionStatus::HaltedOk(_)));
    assert_eq!(u256::from_u8(32), context.stack.peek(0).unwrap());
    // PUSH1 42, PUSH1 3, MSTORE, PUSH1 3, MLOAD, STOP
    let (context, _) = run_rom("602a60035260035100");
    assert_eq!(u256::from_u8(42), context.stack.peek(0).unwrap());
    assert_eq!(64, context.memory.msize());
}

#[test]
fn storage_opcodes_store_and_load() {
    // PUSH1 42, PUSH1 0, SSTORE, PUSH1 0, SLOAD, STOP
    let (context, status) = run_rom("602a60005560005400");
    assert!(matches!(status, ExecutionStatus::HaltedOk(_)));
    assert_eq!(1, context.stack.len());
    assert_eq!(u256::from_u8(42), context.stack.peek(0).unwrap());
    assert_eq!(u256::from_u8(42), context.storage.load(u256::zero()));
}

#[test]
fn jumpi_follows_the_condition() {
    // PUSH1 1, PUSH1 6, JUMPI, STOP, JUMPDEST is at 6? bytes:
    // 60 01 60 06 57 00 5b 00 -- taken: lands on JUMPDEST at 6
    let (context, status) = run_rom("6001600657005b00");
    assert!(matches!(status, ExecutionStatus::HaltedOk(_)));
    assert_eq!(8, context.rom.pc());
    // condition zero: falls through to the STOP at 5
    let (context, status) = run_rom("6000600657005b00");
    assert!(matches!(status, ExecutionStatus::HaltedOk(_)));
    assert_eq!(6, context.rom.pc());
}

#[test]
fn dup_and_swap_rearrange_the_stack() {
    // PUSH1 1, PUSH1 2, DUP2, ADD, STOP: duplicates the 1, adds 1 + 2
    let (context, status) = run_rom("60016002810100");
    assert!(matches!(status, ExecutionStatus::HaltedOk(_)));
    assert_eq!(2, context.stack.len());
    assert_eq!(u256::from_u8(3), context.stack.peek(0).unwrap());
    assert_eq!(u256::from_u8(1), context.stack.peek(1).unwrap());
    // PUSH1 5, PUSH1 2, SWAP1, DIV, STOP: swaps to put 5 on top, 5 / 2 = 2
    let (context, _) = run_rom("60056002900400");
    assert_eq!(u256::from_u8(2), context.stack.peek(0).unwrap());
}

#[test]
fn pc_pushes_the_instruction_counter() {
    // PC, PC, STOP
    let (context, status) = run_rom("585800");
    assert!(matches!(status, ExecutionStatus::HaltedOk(_)));
    assert_eq!(u256::from_u8(1), context.stack.peek(0).unwrap());
    assert_eq!(u256::zero(), context.stack.peek(1).unwrap());
}

#[test]
fn return_hands_back_memory_bytes() {
    // PUSH1 42, PUSH1 0, MSTORE8, PUSH1 1, PUSH1 0, RETURN
    let (_, status) = run_rom("602a60005360016000f3");
    match status {
        ExecutionStatus::HaltedOk(data) => assert_eq!(vec![42u8], data),
        other => panic!("expected a normal halt, got {:?}", other),
    }
}

#[test]
fn revert_hands_back_memory_bytes() {
    // PUSH1 42, PUSH1 0, MSTORE8, PUSH1 1, PUSH1 0, REVERT
    let (_, status) = run_rom("602a60005360016000fd");
    match status {
        ExecutionStatus::HaltedRevert(data) => assert_eq!(vec![42u8], data),
        other => panic!("expected a revert, got {:?}", other),
    }
}

#[test]
fn push32_reads_its_whole_immediate() {
    // PUSH32 of a full-width value, then STOP
    let hex = format!("7f{}00", "11".repeat(32));
    let (context, status) = run_rom(hex.as_str());
    assert!(matches!(status, ExecutionStatus::HaltedOk(_)));
    let expected = u256::from_u128s(
        0x11111111_11111111_11111111_11111111,
        0x11111111_11111111_11111111_11111111,
    );
    assert_eq!(expected, context.stack.peek(0).unwrap());
}

#[test]
fn run_with_no_fuel_reports_running() {
    let mut context = ProgramContext::new(Rom::from_string("600a"));
    assert_eq!(ExecutionStatus::Running, context.run(0));
    assert_eq!(0, context.rom.pc());
}

#[test]
fn step_executes_one_instruction() {
    let mut context = ProgramContext::new(Rom::from_string("600a00"));
    assert_eq!(ExecutionStatus::Running, context.step());
    assert_eq!(1, context.stack.len());
    assert_eq!(2, context.rom.pc());
    assert!(matches!(context.step(), ExecutionStatus::HaltedOk(_)));
}

#[test]
fn disassembly_reassembles_to_the_rom() {
    let bytes = decode("600a60200100fe0c61beef5b");
    let mut rom = Rom::new(bytes.clone());
    let items = rom.disassemble();
    let mut reassembled: Vec<u8> = Vec::new();
    for item in &items {
        reassembled.push(item.opcode);
        reassembled.extend_from_slice(item.immediates.as_slice());
    }
    assert_eq!(bytes, reassembled);
}

#[test]
fn disassembly_names_known_opcodes() {
    let mut rom = Rom::new(decode("600a0c00"));
    let items = rom.disassemble();
    assert_eq!(3, items.len());
    assert_eq!(Some("PUSH1"), items[0].mnemonic);
    assert_eq!(vec![0x0a], items[0].immediates);
    assert_eq!(None, items[1].mnemonic);
    assert_eq!(0x0c, items[1].opcode);
    assert_eq!(Some("STOP"), items[2].mnemonic);
}

#[test]
fn disassembly_keeps_a_truncated_immediate() {
    let mut rom = Rom::new(decode("63aabb"));
    let items = rom.disassemble();
    assert_eq!(1, items.len());
    assert_eq!(Some("PUSH4"), items[0].mnemonic);
    assert_eq!(vec![0xaa, 0xbb], items[0].immediates);
}

#[test]
fn disassembly_renders_padded_lines() {
    let mut rom = Rom::new(decode("600a0c00"));
    let items = rom.disassemble();
    assert_eq!("  PUSH1   0x0a", items[0].render());
    assert_eq!("  0x0c", items[1].render());
    assert_eq!("  STOP  ", items[2].render());
}

fn decode(hex: &str) -> Vec<u8> {
    evm::execution::program_context::decode_hex(hex).unwrap()
}
