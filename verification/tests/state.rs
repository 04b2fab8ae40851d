//! Tests of the execution state: the hex codec, the ROM, the bounded
//! stack, the growing memory and the storage map.

use evm::execution::program_context::{
    decode_hex, encode_hex, Memory, ProgramContext, ProgramError, Rom, Stack, Storage,
};
use evm::execution::types::u256;

#[test]
fn decode_hex_accepts_digit_pairs() {
    assert_eq!(vec![0x60, 0x0a], decode_hex("600a").unwrap());
    assert_eq!(vec![0xde, 0xad], decode_hex("DEAD").unwrap());
    assert_eq!(Vec::<u8>::new(), decode_hex("").unwrap());
}

#[test]
fn decode_hex_rejects_odd_length() {
    assert_eq!(Err(ProgramError::HexDecode), decode_hex("abc"));
}

#[test]
fn decode_hex_rejects_other_characters() {
    assert_eq!(Err(ProgramError::HexDecode), decode_hex("60zz"));
    assert_eq!(Err(ProgramError::HexDecode), decode_hex("60 0a"));
}

#[test]
fn encode_hex_is_lowercase_pairs() {
    assert_eq!("dead00", encode_hex(&[0xde, 0xad, 0x00]));
    assert_eq!("", encode_hex(&[]));
    assert_eq!("0f", encode_hex(&[0x0f]));
}

#[test]
fn hex_round_trip() {
    let bytes = vec![0x00, 0x60, 0xff, 0x5b];
    assert_eq!(bytes, decode_hex(&encode_hex(bytes.as_slice())).unwrap());
}

#[test]
fn rom_fetches_in_order_and_stops() {
    let mut rom = Rom::from_string("600a");
    assert_eq!(2, rom.size());
    assert_eq!(0, rom.pc());
    assert_eq!(Ok(0x60), rom.next_byte());
    assert_eq!(Ok(0x0a), rom.next_byte());
    assert!(rom.next_byte().is_err());
    assert_eq!(2, rom.pc());
}

#[test]
fn rom_peek_and_jump() {
    let mut rom = Rom::new(vec![0x00, 0x5b, 0x01]);
    assert_eq!(Some(0x5b), rom.peek(1));
    assert_eq!(None, rom.peek(3));
    rom.jump(2);
    assert_eq!(Ok(0x01), rom.next_byte());
}

#[test]
fn stack_push_pop_peek() {
    let mut stack = Stack::new();
    assert_eq!(0, stack.len());
    stack.push(u256::from_u8(1)).unwrap();
    stack.push(u256::from_u8(2)).unwrap();
    assert_eq!(2, stack.len());
    assert_eq!(u256::from_u8(2), stack.peek(0).unwrap());
    assert_eq!(u256::from_u8(1), stack.peek(1).unwrap());
    assert_eq!(Err(ProgramError::StackUnderflow), stack.peek(2));
    assert_eq!(u256::from_u8(2), stack.pop().unwrap());
    assert_eq!(u256::from_u8(1), stack.pop().unwrap());
    assert_eq!(Err(ProgramError::StackUnderflow), stack.pop());
}

#[test]
fn stack_depth_is_capped_at_1024() {
    let mut stack = Stack::new();
    for i in 0..1024u32 {
        stack.push(u256::from_u128(i as u128)).unwrap();
    }
    assert_eq!(1024, stack.len());
    assert_eq!(Err(ProgramError::StackOverflow), stack.push(u256::zero()));
    assert_eq!(1024, stack.len());
}

#[test]
fn stack_swap_and_dup() {
    let mut stack = Stack::new();
    stack.push(u256::from_u8(1)).unwrap();
    stack.push(u256::from_u8(2)).unwrap();
    stack.push(u256::from_u8(3)).unwrap();
    stack.swap(2).unwrap();
    assert_eq!(u256::from_u8(1), stack.peek(0).unwrap());
    assert_eq!(u256::from_u8(3), stack.peek(2).unwrap());
    assert_eq!(Err(ProgramError::StackUnderflow), stack.swap(3));
    stack.dup(2).unwrap();
    assert_eq!(4, stack.len());
    assert_eq!(u256::from_u8(2), stack.peek(0).unwrap());
    assert_eq!(Err(ProgramError::StackUnderflow), stack.dup(5));
}

#[test]
fn memory_reads_zero_and_grows_by_words() {
    let mut memory = Memory::new();
    assert_eq!(0, memory.msize());
    assert_eq!(0, memory.read8(0));
    assert_eq!(32, memory.msize());
    memory.write8(33, 7);
    assert_eq!(64, memory.msize());
    assert_eq!(7, memory.read8(33));
    assert_eq!(0, memory.read8(32));
}

#[test]
fn memory_word_round_trip() {
    let mut memory = Memory::new();
    let value = u256::from_u128s(0xfeed, 0xface);
    memory.write32(10, value);
    assert_eq!(64, memory.msize());
    assert_eq!(value, memory.read32(10));
    assert_eq!(0, memory.read8(9));
}

#[test]
fn storage_reads_zero_until_stored() {
    let mut storage = Storage::new();
    let key = u256::from_u8(9);
    assert_eq!(u256::zero(), storage.load(key));
    storage.store(key, u256::from_u8(42));
    assert_eq!(u256::from_u8(42), storage.load(key));
    assert_eq!(u256::zero(), storage.load(u256::from_u8(10)));
    storage.store(key, u256::zero());
    assert_eq!(u256::zero(), storage.load(key));
}

#[test]
fn storage_keeps_the_latest_store() {
    let mut storage = Storage::new();
    let key = u256::from_u128s(5, 5);
    storage.store(key, u256::from_u8(1));
    storage.store(key, u256::from_u8(2));
    assert_eq!(u256::from_u8(2), storage.load(key));
}

#[test]
fn fresh_context_is_empty() {
    let mut context = ProgramContext::new(Rom::from_string("00"));
    assert_eq!(0, context.stack.len());
    assert_eq!(0, context.memory.msize());
    assert_eq!(u256::zero(), context.storage.load(u256::zero()));
    assert_eq!(Ok(0x00), context.rom.next_byte());
}
