//! The instruction set: the opcode space, the descriptor table that maps
//! each opcode byte to its mnemonic, declared stack effect and immediate
//! width, and the execution engine that carries the instructions out
//! against a program context.

use super::program_context::{
    calldata_byte, grown_len, hex_chars_of, storage_lookup, Environment, ProgramContext,
    ProgramError, Rom,
};
use super::types::{be_bytes_of, be_val, p256, truncated_div, truncated_rem, u256};
use vstd::arithmetic::power::pow;
use vstd::arithmetic::power2::pow2;
use vstd::prelude::*;

verus! {

/// Every opcode of the instruction set, defined or reserved by the
/// machine.
#[derive(Debug, Clone, Copy, PartialEq, Eq, Structural)]
pub enum OpCode {
    Stop,
    Add,
    Mul,
    Sub,
    Div,
    Sdiv,
    Mod,
    Smod,
    AddMod,
    MulMod,
    Exp,
    SignExtend,
    Lt,
    Gt,
    Slt,
    Sgt,
    Eq,
    IsZero,
    And,
    Or,
    Xor,
    Not,
    Byte,
    Shl,
    Shr,
    Sar,
    Keccak256,
    Address,
    Balance,
    Origin,
    Caller,
    CallValue,
    CallDataLoad,
    CallDataSize,
    CallDataCopy,
    CodeSize,
    CodeCopy,
    GasPrice,
    ExtCodeSize,
    ExtCodeCopy,
    ReturnDataSize,
    ReturnDataCopy,
    ExtCodeHash,
    BlockHash,
    Coinbase,
    Timestamp,
    Number,
    Difficulty,
    GasLimit,
    ChainId,
    SelfBalance,
    Pop,
    MLoad,
    MStore,
    MStore8,
    SLoad,
    SStore,
    Jump,
    JumpI,
    PC,
    MSize,
    Gas,
    JumpDest,
    Push1,
    Push2,
    Push3,
    Push4,
    Push5,
    Push6,
    Push7,
    Push8,
    Push9,
    Push10,
    Push11,
    Push12,
    Push13,
    Push14,
    Push15,
    Push16,
    Push17,
    Push18,
    Push19,
    Push20,
    Push21,
    Push22,
    Push23,
    Push24,
    Push25,
    Push26,
    Push27,
    Push28,
    Push29,
    Push30,
    Push31,
    Push32,
    Dup1,
    Dup2,
    Dup3,
    Dup4,
    Dup5,
    Dup6,
    Dup7,
    Dup8,
    Dup9,
    Dup10,
    Dup11,
    Dup12,
    Dup13,
    Dup14,
    Dup15,
    Dup16,
    Swap1,
    Swap2,
    Swap3,
    Swap4,
    Swap5,
    Swap6,
    Swap7,
    Swap8,
    Swap9,
    Swap10,
    Swap11,
    Swap12,
    Swap13,
    Swap14,
    Swap15,
    Swap16,
    Log0,
    Log1,
    Log2,
    Log3,
    Log4,
    Create,
    Call,
    CallCode,
    Return,
    DelegateCall,
    Create2,
    StaticCall,
    Revert,
    Invalid,
    SelfDestruct,
}

/// The byte that each opcode occupies in a ROM.
pub open spec fn opcode_byte(op: OpCode) -> u8 {
    match op {
        OpCode::Stop => 0x00,
        OpCode::Add => 0x01,
        OpCode::Mul => 0x02,
        OpCode::Sub => 0x03,
        OpCode::Div => 0x04,
        OpCode::Sdiv => 0x05,
        OpCode::Mod => 0x06,
        OpCode::Smod => 0x07,
        OpCode::AddMod => 0x08,
        OpCode::MulMod => 0x09,
        OpCode::Exp => 0x0a,
        OpCode::SignExtend => 0x0b,
        OpCode::Lt => 0x10,
        OpCode::Gt => 0x11,
        OpCode::Slt => 0x12,
        OpCode::Sgt => 0x13,
        OpCode::Eq => 0x14,
        OpCode::IsZero => 0x15,
        OpCode::And => 0x16,
        OpCode::Or => 0x17,
        OpCode::Xor => 0x18,
        OpCode::Not => 0x19,
        OpCode::Byte => 0x1a,
        OpCode::Shl => 0x1b,
        OpCode::Shr => 0x1c,
        OpCode::Sar => 0x1d,
        OpCode::Keccak256 => 0x20,
        OpCode::Address => 0x30,
        OpCode::Balance => 0x31,
        OpCode::Origin => 0x32,
        OpCode::Caller => 0x33,
        OpCode::CallValue => 0x34,
        OpCode::CallDataLoad => 0x35,
        OpCode::CallDataSize => 0x36,
        OpCode::CallDataCopy => 0x37,
        OpCode::CodeSize => 0x38,
        OpCode::CodeCopy => 0x39,
        OpCode::GasPrice => 0x3a,
        OpCode::ExtCodeSize => 0x3b,
        OpCode::ExtCodeCopy => 0x3c,
        OpCode::ReturnDataSize => 0x3d,
        OpCode::ReturnDataCopy => 0x3e,
        OpCode::ExtCodeHash => 0x3f,
        OpCode::BlockHash => 0x40,
        OpCode::Coinbase => 0x41,
        OpCode::Timestamp => 0x42,
        OpCode::Number => 0x43,
        OpCode::Difficulty => 0x44,
        OpCode::GasLimit => 0x45,
        OpCode::ChainId => 0x46,
        OpCode::SelfBalance => 0x47,
        OpCode::Pop => 0x50,
        OpCode::MLoad => 0x51,
        OpCode::MStore => 0x52,
        OpCode::MStore8 => 0x53,
        OpCode::SLoad => 0x54,
        OpCode::SStore => 0x55,
        OpCode::Jump => 0x56,
        OpCode::JumpI => 0x57,
        OpCode::PC => 0x58,
        OpCode::MSize => 0x59,
        OpCode::Gas => 0x5a,
        OpCode::JumpDest => 0x5b,
        OpCode::Push1 => 0x60,
        OpCode::Push2 => 0x61,
        OpCode::Push3 => 0x62,
        OpCode::Push4 => 0x63,
        OpCode::Push5 => 0x64,
        OpCode::Push6 => 0x65,
        OpCode::Push7 => 0x66,
        OpCode::Push8 => 0x67,
        OpCode::Push9 => 0x68,
        OpCode::Push10 => 0x69,
        OpCode::Push11 => 0x6a,
        OpCode::Push12 => 0x6b,
        OpCode::Push13 => 0x6c,
        OpCode::Push14 => 0x6d,
        OpCode::Push15 => 0x6e,
        OpCode::Push16 => 0x6f,
        OpCode::Push17 => 0x70,
        OpCode::Push18 => 0x71,
        OpCode::Push19 => 0x72,
        OpCode::Push20 => 0x73,
        OpCode::Push21 => 0x74,
        OpCode::Push22 => 0x75,
        OpCode::Push23 => 0x76,
        OpCode::Push24 => 0x77,
        OpCode::Push25 => 0x78,
        OpCode::Push26 => 0x79,
        OpCode::Push27 => 0x7a,
        OpCode::Push28 => 0x7b,
        OpCode::Push29 => 0x7c,
        OpCode::Push30 => 0x7d,
        OpCode::Push31 => 0x7e,
        OpCode::Push32 => 0x7f,
        OpCode::Dup1 => 0x80,
        OpCode::Dup2 => 0x81,
        OpCode::Dup3 => 0x82,
        OpCode::Dup4 => 0x83,
        OpCode::Dup5 => 0x84,
        OpCode::Dup6 => 0x85,
        OpCode::Dup7 => 0x86,
        OpCode::Dup8 => 0x87,
        OpCode::Dup9 => 0x88,
        OpCode::Dup10 => 0x89,
        OpCode::Dup11 => 0x8a,
        OpCode::Dup12 => 0x8b,
        OpCode::Dup13 => 0x8c,
        OpCode::Dup14 => 0x8d,
        OpCode::Dup15 => 0x8e,
        OpCode::Dup16 => 0x8f,
        OpCode::Swap1 => 0x90,
        OpCode::Swap2 => 0x91,
        OpCode::Swap3 => 0x92,
        OpCode::Swap4 => 0x93,
        OpCode::Swap5 => 0x94,
        OpCode::Swap6 => 0x95,
        OpCode::Swap7 => 0x96,
        OpCode::Swap8 => 0x97,
        OpCode::Swap9 => 0x98,
        OpCode::Swap10 => 0x99,
        OpCode::Swap11 => 0x9a,
        OpCode::Swap12 => 0x9b,
        OpCode::Swap13 => 0x9c,
        OpCode::Swap14 => 0x9d,
        OpCode::Swap15 => 0x9e,
        OpCode::Swap16 => 0x9f,
        OpCode::Log0 => 0xa0,
        OpCode::Log1 => 0xa1,
        OpCode::Log2 => 0xa2,
        OpCode::Log3 => 0xa3,
        OpCode::Log4 => 0xa4,
        OpCode::Create => 0xf0,
        OpCode::Call => 0xf1,
        OpCode::CallCode => 0xf2,
        OpCode::Return => 0xf3,
        OpCode::DelegateCall => 0xf4,
        OpCode::Create2 => 0xf5,
        OpCode::StaticCall => 0xfa,
        OpCode::Revert => 0xfd,
        OpCode::Invalid => 0xfe,
        OpCode::SelfDestruct => 0xff,
    }
}

impl OpCode {
    /// The opcode's byte.
    pub fn as_byte(self) -> (b: u8)
        ensures
            b == opcode_byte(self),
    {
        match self {
            OpCode::Stop => 0x00,
            OpCode::Add => 0x01,
            OpCode::Mul => 0x02,
            OpCode::Sub => 0x03,
            OpCode::Div => 0x04,
            OpCode::Sdiv => 0x05,
            OpCode::Mod => 0x06,
            OpCode::Smod => 0x07,
            OpCode::AddMod => 0x08,
            OpCode::MulMod => 0x09,
            OpCode::Exp => 0x0a,
            OpCode::SignExtend => 0x0b,
            OpCode::Lt => 0x10,
            OpCode::Gt => 0x11,
            OpCode::Slt => 0x12,
            OpCode::Sgt => 0x13,
            OpCode::Eq => 0x14,
            OpCode::IsZero => 0x15,
            OpCode::And => 0x16,
            OpCode::Or => 0x17,
            OpCode::Xor => 0x18,
            OpCode::Not => 0x19,
            OpCode::Byte => 0x1a,
            OpCode::Shl => 0x1b,
            OpCode::Shr => 0x1c,
            OpCode::Sar => 0x1d,
            OpCode::Keccak256 => 0x20,
            OpCode::Address => 0x30,
            OpCode::Balance => 0x31,
            OpCode::Origin => 0x32,
            OpCode::Caller => 0x33,
            OpCode::CallValue => 0x34,
            OpCode::CallDataLoad => 0x35,
            OpCode::CallDataSize => 0x36,
            OpCode::CallDataCopy => 0x37,
            OpCode::CodeSize => 0x38,
            OpCode::CodeCopy => 0x39,
            OpCode::GasPrice => 0x3a,
            OpCode::ExtCodeSize => 0x3b,
            OpCode::ExtCodeCopy => 0x3c,
            OpCode::ReturnDataSize => 0x3d,
            OpCode::ReturnDataCopy => 0x3e,
            OpCode::ExtCodeHash => 0x3f,
            OpCode::BlockHash => 0x40,
            OpCode::Coinbase => 0x41,
            OpCode::Timestamp => 0x42,
            OpCode::Number => 0x43,
            OpCode::Difficulty => 0x44,
            OpCode::GasLimit => 0x45,
            OpCode::ChainId => 0x46,
            OpCode::SelfBalance => 0x47,
            OpCode::Pop => 0x50,
            OpCode::MLoad => 0x51,
            OpCode::MStore => 0x52,
            OpCode::MStore8 => 0x53,
            OpCode::SLoad => 0x54,
            OpCode::SStore => 0x55,
            OpCode::Jump => 0x56,
            OpCode::JumpI => 0x57,
            OpCode::PC => 0x58,
            OpCode::MSize => 0x59,
            OpCode::Gas => 0x5a,
            OpCode::JumpDest => 0x5b,
            OpCode::Push1 => 0x60,
            OpCode::Push2 => 0x61,
            OpCode::Push3 => 0x62,
            OpCode::Push4 => 0x63,
            OpCode::Push5 => 0x64,
            OpCode::Push6 => 0x65,
            OpCode::Push7 => 0x66,
            OpCode::Push8 => 0x67,
            OpCode::Push9 => 0x68,
            OpCode::Push10 => 0x69,
            OpCode::Push11 => 0x6a,
            OpCode::Push12 => 0x6b,
            OpCode::Push13 => 0x6c,
            OpCode::Push14 => 0x6d,
            OpCode::Push15 => 0x6e,
            OpCode::Push16 => 0x6f,
            OpCode::Push17 => 0x70,
            OpCode::Push18 => 0x71,
            OpCode::Push19 => 0x72,
            OpCode::Push20 => 0x73,
            OpCode::Push21 => 0x74,
            OpCode::Push22 => 0x75,
            OpCode::Push23 => 0x76,
            OpCode::Push24 => 0x77,
            OpCode::Push25 => 0x78,
            OpCode::Push26 => 0x79,
            OpCode::Push27 => 0x7a,
            OpCode::Push28 => 0x7b,
            OpCode::Push29 => 0x7c,
            OpCode::Push30 => 0x7d,
            OpCode::Push31 => 0x7e,
            OpCode::Push32 => 0x7f,
            OpCode::Dup1 => 0x80,
            OpCode::Dup2 => 0x81,
            OpCode::Dup3 => 0x82,
            OpCode::Dup4 => 0x83,
            OpCode::Dup5 => 0x84,
            OpCode::Dup6 => 0x85,
            OpCode::Dup7 => 0x86,
            OpCode::Dup8 => 0x87,
            OpCode::Dup9 => 0x88,
            OpCode::Dup10 => 0x89,
            OpCode::Dup11 => 0x8a,
            OpCode::Dup12 => 0x8b,
            OpCode::Dup13 => 0x8c,
            OpCode::Dup14 => 0x8d,
            OpCode::Dup15 => 0x8e,
            OpCode::Dup16 => 0x8f,
            OpCode::Swap1 => 0x90,
            OpCode::Swap2 => 0x91,
            OpCode::Swap3 => 0x92,
            OpCode::Swap4 => 0x93,
            OpCode::Swap5 => 0x94,
            OpCode::Swap6 => 0x95,
            OpCode::Swap7 => 0x96,
            OpCode::Swap8 => 0x97,
            OpCode::Swap9 => 0x98,
            OpCode::Swap10 => 0x99,
            OpCode::Swap11 => 0x9a,
            OpCode::Swap12 => 0x9b,
            OpCode::Swap13 => 0x9c,
            OpCode::Swap14 => 0x9d,
            OpCode::Swap15 => 0x9e,
            OpCode::Swap16 => 0x9f,
            OpCode::Log0 => 0xa0,
            OpCode::Log1 => 0xa1,
            OpCode::Log2 => 0xa2,
            OpCode::Log3 => 0xa3,
            OpCode::Log4 => 0xa4,
            OpCode::Create => 0xf0,
            OpCode::Call => 0xf1,
            OpCode::CallCode => 0xf2,
            OpCode::Return => 0xf3,
            OpCode::DelegateCall => 0xf4,
            OpCode::Create2 => 0xf5,
            OpCode::StaticCall => 0xfa,
            OpCode::Revert => 0xfd,
            OpCode::Invalid => 0xfe,
            OpCode::SelfDestruct => 0xff,
        }
    }

    /// The opcode a byte stands for, if any.
    pub fn from_byte(b: u8) -> (r: Option<OpCode>)
        ensures
            r is Some <==> is_defined_opcode(b),
            r matches Some(op) ==> opcode_byte(op) == b,
    {
        match b {
            0x00 => Some(OpCode::Stop),
            0x01 => Some(OpCode::Add),
            0x02 => Some(OpCode::Mul),
            0x03 => Some(OpCode::Sub),
            0x04 => Some(OpCode::Div),
            0x05 => Some(OpCode::Sdiv),
            0x06 => Some(OpCode::Mod),
            0x07 => Some(OpCode::Smod),
            0x08 => Some(OpCode::AddMod),
            0x09 => Some(OpCode::MulMod),
            0x0a => Some(OpCode::Exp),
            0x0b => Some(OpCode::SignExtend),
            0x10 => Some(OpCode::Lt),
            0x11 => Some(OpCode::Gt),
            0x12 => Some(OpCode::Slt),
            0x13 => Some(OpCode::Sgt),
            0x14 => Some(OpCode::Eq),
            0x15 => Some(OpCode::IsZero),
            0x16 => Some(OpCode::And),
            0x17 => Some(OpCode::Or),
            0x18 => Some(OpCode::Xor),
            0x19 => Some(OpCode::Not),
            0x1a => Some(OpCode::Byte),
            0x1b => Some(OpCode::Shl),
            0x1c => Some(OpCode::Shr),
            0x1d => Some(OpCode::Sar),
            0x20 => Some(OpCode::Keccak256),
            0x30 => Some(OpCode::Address),
            0x31 => Some(OpCode::Balance),
            0x32 => Some(OpCode::Origin),
            0x33 => Some(OpCode::Caller),
            0x34 => Some(OpCode::CallValue),
            0x35 => Some(OpCode::CallDataLoad),
            0x36 => Some(OpCode::CallDataSize),
            0x37 => Some(OpCode::CallDataCopy),
            0x38 => Some(OpCode::CodeSize),
            0x39 => Some(OpCode::CodeCopy),
            0x3a => Some(OpCode::GasPrice),
            0x3b => Some(OpCode::ExtCodeSize),
            0x3c => Some(OpCode::ExtCodeCopy),
            0x3d => Some(OpCode::ReturnDataSize),
            0x3e => Some(OpCode::ReturnDataCopy),
            0x3f => Some(OpCode::ExtCodeHash),
            0x40 => Some(OpCode::BlockHash),
            0x41 => Some(OpCode::Coinbase),
            0x42 => Some(OpCode::Timestamp),
            0x43 => Some(OpCode::Number),
            0x44 => Some(OpCode::Difficulty),
            0x45 => Some(OpCode::GasLimit),
            0x46 => Some(OpCode::ChainId),
            0x47 => Some(OpCode::SelfBalance),
            0x50 => Some(OpCode::Pop),
            0x51 => Some(OpCode::MLoad),
            0x52 => Some(OpCode::MStore),
            0x53 => Some(OpCode::MStore8),
            0x54 => Some(OpCode::SLoad),
            0x55 => Some(OpCode::SStore),
            0x56 => Some(OpCode::Jump),
            0x57 => Some(OpCode::JumpI),
            0x58 => Some(OpCode::PC),
            0x59 => Some(OpCode::MSize),
            0x5a => Some(OpCode::Gas),
            0x5b => Some(OpCode::JumpDest),
            0x60 => Some(OpCode::Push1),
            0x61 => Some(OpCode::Push2),
            0x62 => Some(OpCode::Push3),
            0x63 => Some(OpCode::Push4),
            0x64 => Some(OpCode::Push5),
            0x65 => Some(OpCode::Push6),
            0x66 => Some(OpCode::Push7),
            0x67 => Some(OpCode::Push8),
            0x68 => Some(OpCode::Push9),
            0x69 => Some(OpCode::Push10),
            0x6a => Some(OpCode::Push11),
            0x6b => Some(OpCode::Push12),
            0x6c => Some(OpCode::Push13),
            0x6d => Some(OpCode::Push14),
            0x6e => Some(OpCode::Push15),
            0x6f => Some(OpCode::Push16),
            0x70 => Some(OpCode::Push17),
            0x71 => Some(OpCode::Push18),
            0x72 => Some(OpCode::Push19),
            0x73 => Some(OpCode::Push20),
            0x74 => Some(OpCode::Push21),
            0x75 => Some(OpCode::Push22),
            0x76 => Some(OpCode::Push23),
            0x77 => Some(OpCode::Push24),
            0x78 => Some(OpCode::Push25),
            0x79 => Some(OpCode::Push26),
            0x7a => Some(OpCode::Push27),
            0x7b => Some(OpCode::Push28),
            0x7c => Some(OpCode::Push29),
            0x7d => Some(OpCode::Push30),
            0x7e => Some(OpCode::Push31),
            0x7f => Some(OpCode::Push32),
            0x80 => Some(OpCode::Dup1),
            0x81 => Some(OpCode::Dup2),
            0x82 => Some(OpCode::Dup3),
            0x83 => Some(OpCode::Dup4),
            0x84 => Some(OpCode::Dup5),
            0x85 => Some(OpCode::Dup6),
            0x86 => Some(OpCode::Dup7),
            0x87 => Some(OpCode::Dup8),
            0x88 => Some(OpCode::Dup9),
            0x89 => Some(OpCode::Dup10),
            0x8a => Some(OpCode::Dup11),
            0x8b => Some(OpCode::Dup12),
            0x8c => Some(OpCode::Dup13),
            0x8d => Some(OpCode::Dup14),
            0x8e => Some(OpCode::Dup15),
            0x8f => Some(OpCode::Dup16),
            0x90 => Some(OpCode::Swap1),
            0x91 => Some(OpCode::Swap2),
            0x92 => Some(OpCode::Swap3),
            0x93 => Some(OpCode::Swap4),
            0x94 => Some(OpCode::Swap5),
            0x95 => Some(OpCode::Swap6),
            0x96 => Some(OpCode::Swap7),
            0x97 => Some(OpCode::Swap8),
            0x98 => Some(OpCode::Swap9),
            0x99 => Some(OpCode::Swap10),
            0x9a => Some(OpCode::Swap11),
            0x9b => Some(OpCode::Swap12),
            0x9c => Some(OpCode::Swap13),
            0x9d => Some(OpCode::Swap14),
            0x9e => Some(OpCode::Swap15),
            0x9f => Some(OpCode::Swap16),
            0xa0 => Some(OpCode::Log0),
            0xa1 => Some(OpCode::Log1),
            0xa2 => Some(OpCode::Log2),
            0xa3 => Some(OpCode::Log3),
            0xa4 => Some(OpCode::Log4),
            0xf0 => Some(OpCode::Create),
            0xf1 => Some(OpCode::Call),
            0xf2 => Some(OpCode::CallCode),
            0xf3 => Some(OpCode::Return),
            0xf4 => Some(OpCode::DelegateCall),
            0xf5 => Some(OpCode::Create2),
            0xfa => Some(OpCode::StaticCall),
            0xfd => Some(OpCode::Revert),
            0xfe => Some(OpCode::Invalid),
            0xff => Some(OpCode::SelfDestruct),
            _ => None,
        }
    }
}

/// Whether a byte names an instruction of the machine at all.
pub open spec fn is_defined_opcode(b: u8) -> bool {
    ||| b <= 0x0b
    ||| 0x10 <= b <= 0x1d
    ||| b == 0x20
    ||| 0x30 <= b <= 0x47
    ||| 0x50 <= b <= 0x5b
    ||| 0x60 <= b <= 0x9f
    ||| 0xa0 <= b <= 0xa4
    ||| 0xf0 <= b <= 0xf5
    ||| b == 0xfa
    ||| b == 0xfd
    ||| b == 0xfe
    ||| b == 0xff
}

/// The number of stack values an instruction asks for, in the validator
/// form: a DUP requires its source, a SWAP both of its places.
pub open spec fn alpha(b: u8) -> nat {
    if b == 0x00 {
        0
    } else if 0x01 <= b <= 0x07 {
        2
    } else if b == 0x08 || b == 0x09 {
        3
    } else if b == 0x0a || b == 0x0b {
        2
    } else if 0x10 <= b <= 0x14 {
        2
    } else if b == 0x15 {
        1
    } else if 0x16 <= b <= 0x18 {
        2
    } else if b == 0x19 {
        1
    } else if 0x1a <= b <= 0x1d {
        2
    } else if b == 0x20 {
        2
    } else if b == 0x31 || b == 0x35 || b == 0x3b || b == 0x3f || b == 0x40 {
        1
    } else if b == 0x37 || b == 0x39 || b == 0x3e {
        3
    } else if b == 0x3c {
        4
    } else if 0x30 <= b <= 0x47 {
        0
    } else if b == 0x50 || b == 0x51 || b == 0x54 || b == 0x56 {
        1
    } else if b == 0x52 || b == 0x53 || b == 0x55 || b == 0x57 {
        2
    } else if 0x58 <= b <= 0x5b {
        0
    } else if 0x60 <= b <= 0x7f {
        0
    } else if 0x80 <= b <= 0x8f {
        (b - 0x7f) as nat
    } else if 0x90 <= b <= 0x9f {
        (b - 0x8f + 1) as nat
    } else if 0xa0 <= b <= 0xa4 {
        (b - 0xa0 + 2) as nat
    } else if b == 0xf0 {
        3
    } else if b == 0xf1 || b == 0xf2 {
        7
    } else if b == 0xf3 || b == 0xfd {
        2
    } else if b == 0xf4 || b == 0xfa {
        6
    } else if b == 0xf5 {
        4
    } else if b == 0xfe {
        0
    } else {
        1
    }
}

/// The number of stack values an instruction leaves, in the validator
/// form matching [`alpha`].
pub open spec fn delta(b: u8) -> nat {
    if b == 0x00 {
        0
    } else if 0x01 <= b <= 0x1d {
        1
    } else if b == 0x20 {
        1
    } else if b == 0x37 || b == 0x39 || b == 0x3c || b == 0x3e {
        0
    } else if 0x30 <= b <= 0x47 {
        1
    } else if b == 0x50 {
        0
    } else if b == 0x51 {
        1
    } else if b == 0x52 || b == 0x53 {
        0
    } else if b == 0x54 {
        1
    } else if b == 0x55 || b == 0x56 || b == 0x57 {
        0
    } else if b == 0x58 || b == 0x59 || b == 0x5a {
        1
    } else if b == 0x5b {
        0
    } else if 0x60 <= b <= 0x7f {
        1
    } else if 0x80 <= b <= 0x8f {
        (b - 0x7f + 1) as nat
    } else if 0x90 <= b <= 0x9f {
        (b - 0x8f + 1) as nat
    } else if 0xa0 <= b <= 0xa4 {
        0
    } else if b == 0xf0 || b == 0xf1 || b == 0xf2 || b == 0xf4 || b == 0xf5 || b == 0xfa {
        1
    } else {
        0
    }
}

/// How many ROM bytes follow the opcode as its immediate: the PUSH
/// width, zero for everything else.
pub open spec fn imm_width(b: u8) -> nat {
    if 0x60 <= b <= 0x7f {
        (b - 0x5f) as nat
    } else {
        0
    }
}

/// One instruction descriptor: the table row for an opcode.
pub struct Instruction {
    pub value: u8,
    pub mnemonic: &'static str,
    pub stack_items_removed: u8,
    pub stack_items_added: u8,
    pub rom_items_used: u8,
}

/// The instruction table: the descriptor for a byte, or nothing for a
/// byte that names no instruction.
pub fn instruction_for(opcode: u8) -> (r: Option<Instruction>)
    ensures
        r is Some <==> is_defined_opcode(opcode),
        r matches Some(ins) ==> ins.value == opcode && ins.stack_items_removed as nat == alpha(
            opcode,
        ) && ins.stack_items_added as nat == delta(opcode) && ins.rom_items_used as nat
            == imm_width(opcode),
{
    match opcode {
        0x00 => Some(Instruction { value: 0x00, mnemonic: "STOP", stack_items_removed: 0, stack_items_added: 0, rom_items_used: 0 }),
        0x01 => Some(Instruction { value: 0x01, mnemonic: "ADD", stack_items_removed: 2, stack_items_added: 1, rom_items_used: 0 }),
        0x02 => Some(Instruction { value: 0x02, mnemonic: "MUL", stack_items_removed: 2, stack_items_added: 1, rom_items_used: 0 }),
        0x03 => Some(Instruction { value: 0x03, mnemonic: "SUB", stack_items_removed: 2, stack_items_added: 1, rom_items_used: 0 }),
        0x04 => Some(Instruction { value: 0x04, mnemonic: "DIV", stack_items_removed: 2, stack_items_added: 1, rom_items_used: 0 }),
        0x05 => Some(Instruction { value: 0x05, mnemonic: "SDIV", stack_items_removed: 2, stack_items_added: 1, rom_items_used: 0 }),
        0x06 => Some(Instruction { value: 0x06, mnemonic: "MOD", stack_items_removed: 2, stack_items_added: 1, rom_items_used: 0 }),
        0x07 => Some(Instruction { value: 0x07, mnemonic: "SMOD", stack_items_removed: 2, stack_items_added: 1, rom_items_used: 0 }),
        0x08 => Some(Instruction { value: 0x08, mnemonic: "ADDMOD", stack_items_removed: 3, stack_items_added: 1, rom_items_used: 0 }),
        0x09 => Some(Instruction { value: 0x09, mnemonic: "MULMOD", stack_items_removed: 3, stack_items_added: 1, rom_items_used: 0 }),
        0x0a => Some(Instruction { value: 0x0a, mnemonic: "EXP", stack_items_removed: 2, stack_items_added: 1, rom_items_used: 0 }),
        0x0b => Some(Instruction { value: 0x0b, mnemonic: "SIGNEXTEND", stack_items_removed: 2, stack_items_added: 1, rom_items_used: 0 }),
        0x10 => Some(Instruction { value: 0x10, mnemonic: "LT", stack_items_removed: 2, stack_items_added: 1, rom_items_used: 0 }),
        0x11 => Some(Instruction { value: 0x11, mnemonic: "GT", stack_items_removed: 2, stack_items_added: 1, rom_items_used: 0 }),
        0x12 => Some(Instruction { value: 0x12, mnemonic: "SLT", stack_items_removed: 2, stack_items_added: 1, rom_items_used: 0 }),
        0x13 => Some(Instruction { value: 0x13, mnemonic: "SGT", stack_items_removed: 2, stack_items_added: 1, rom_items_used: 0 }),
        0x14 => Some(Instruction { value: 0x14, mnemonic: "EQ", stack_items_removed: 2, stack_items_added: 1, rom_items_used: 0 }),
        0x15 => Some(Instruction { value: 0x15, mnemonic: "ISZERO", stack_items_removed: 1, stack_items_added: 1, rom_items_used: 0 }),
        0x16 => Some(Instruction { value: 0x16, mnemonic: "AND", stack_items_removed: 2, stack_items_added: 1, rom_items_used: 0 }),
        0x17 => Some(Instruction { value: 0x17, mnemonic: "OR", stack_items_removed: 2, stack_items_added: 1, rom_items_used: 0 }),
        0x18 => Some(Instruction { value: 0x18, mnemonic: "XOR", stack_items_removed: 2, stack_items_added: 1, rom_items_used: 0 }),
        0x19 => Some(Instruction { value: 0x19, mnemonic: "NOT", stack_items_removed: 1, stack_items_added: 1, rom_items_used: 0 }),
        0x1a => Some(Instruction { value: 0x1a, mnemonic: "BYTE", stack_items_removed: 2, stack_items_added: 1, rom_items_used: 0 }),
        0x1b => Some(Instruction { value: 0x1b, mnemonic: "SHL", stack_items_removed: 2, stack_items_added: 1, rom_items_used: 0 }),
        0x1c => Some(Instruction { value: 0x1c, mnemonic: "SHR", stack_items_removed: 2, stack_items_added: 1, rom_items_used: 0 }),
        0x1d => Some(Instruction { value: 0x1d, mnemonic: "SAR", stack_items_removed: 2, stack_items_added: 1, rom_items_used: 0 }),
        0x20 => Some(Instruction { value: 0x20, mnemonic: "KECCAK256", stack_items_removed: 2, stack_items_added: 1, rom_items_used: 0 }),
        0x30 => Some(Instruction { value: 0x30, mnemonic: "ADDRESS", stack_items_removed: 0, stack_items_added: 1, rom_items_used: 0 }),
        0x31 => Some(Instruction { value: 0x31, mnemonic: "BALANCE", stack_items_removed: 1, stack_items_added: 1, rom_items_used: 0 }),
        0x32 => Some(Instruction { value: 0x32, mnemonic: "ORIGIN", stack_items_removed: 0, stack_items_added: 1, rom_items_used: 0 }),
        0x33 => Some(Instruction { value: 0x33, mnemonic: "CALLER", stack_items_removed: 0, stack_items_added: 1, rom_items_used: 0 }),
        0x34 => Some(Instruction { value: 0x34, mnemonic: "CALLVALUE", stack_items_removed: 0, stack_items_added: 1, rom_items_used: 0 }),
        0x35 => Some(Instruction { value: 0x35, mnemonic: "CALLDATALOAD", stack_items_removed: 1, stack_items_added: 1, rom_items_used: 0 }),
        0x36 => Some(Instruction { value: 0x36, mnemonic: "CALLDATASIZE", stack_items_removed: 0, stack_items_added: 1, rom_items_used: 0 }),
        0x37 => Some(Instruction { value: 0x37, mnemonic: "CALLDATACOPY", stack_items_removed: 3, stack_items_added: 0, rom_items_used: 0 }),
        0x38 => Some(Instruction { value: 0x38, mnemonic: "CODESIZE", stack_items_removed: 0, stack_items_added: 1, rom_items_used: 0 }),
        0x39 => Some(Instruction { value: 0x39, mnemonic: "CODECOPY", stack_items_removed: 3, stack_items_added: 0, rom_items_used: 0 }),
        0x3a => Some(Instruction { value: 0x3a, mnemonic: "GASPRICE", stack_items_removed: 0, stack_items_added: 1, rom_items_used: 0 }),
        0x3b => Some(Instruction { value: 0x3b, mnemonic: "EXTCODESIZE", stack_items_removed: 1, stack_items_added: 1, rom_items_used: 0 }),
        0x3c => Some(Instruction { value: 0x3c, mnemonic: "EXTCODECOPY", stack_items_removed: 4, stack_items_added: 0, rom_items_used: 0 }),
        0x3d => Some(Instruction { value: 0x3d, mnemonic: "RETURNDATASIZE", stack_items_removed: 0, stack_items_added: 1, rom_items_used: 0 }),
        0x3e => Some(Instruction { value: 0x3e, mnemonic: "RETURNDATACOPY", stack_items_removed: 3, stack_items_added: 0, rom_items_used: 0 }),
        0x3f => Some(Instruction { value: 0x3f, mnemonic: "EXTCODEHASH", stack_items_removed: 1, stack_items_added: 1, rom_items_used: 0 }),
        0x40 => Some(Instruction { value: 0x40, mnemonic: "BLOCKHASH", stack_items_removed: 1, stack_items_added: 1, rom_items_used: 0 }),
        0x41 => Some(Instruction { value: 0x41, mnemonic: "COINBASE", stack_items_removed: 0, stack_items_added: 1, rom_items_used: 0 }),
        0x42 => Some(Instruction { value: 0x42, mnemonic: "TIMESTAMP", stack_items_removed: 0, stack_items_added: 1, rom_items_used: 0 }),
        0x43 => Some(Instruction { value: 0x43, mnemonic: "NUMBER", stack_items_removed: 0, stack_items_added: 1, rom_items_used: 0 }),
        0x44 => Some(Instruction { value: 0x44, mnemonic: "DIFFICULTY", stack_items_removed: 0, stack_items_added: 1, rom_items_used: 0 }),
        0x45 => Some(Instruction { value: 0x45, mnemonic: "GASLIMIT", stack_items_removed: 0, stack_items_added: 1, rom_items_used: 0 }),
        0x46 => Some(Instruction { value: 0x46, mnemonic: "CHAINID", stack_items_removed: 0, stack_items_added: 1, rom_items_used: 0 }),
        0x47 => Some(Instruction { value: 0x47, mnemonic: "SELFBALANCE", stack_items_removed: 0, stack_items_added: 1, rom_items_used: 0 }),
        0x50 => Some(Instruction { value: 0x50, mnemonic: "POP", stack_items_removed: 1, stack_items_added: 0, rom_items_used: 0 }),
        0x51 => Some(Instruction { value: 0x51, mnemonic: "MLOAD", stack_items_removed: 1, stack_items_added: 1, rom_items_used: 0 }),
        0x52 => Some(Instruction { value: 0x52, mnemonic: "MSTORE", stack_items_removed: 2, stack_items_added: 0, rom_items_used: 0 }),
        0x53 => Some(Instruction { value: 0x53, mnemonic: "MSTORE8", stack_items_removed: 2, stack_items_added: 0, rom_items_used: 0 }),
        0x54 => Some(Instruction { value: 0x54, mnemonic: "SLOAD", stack_items_removed: 1, stack_items_added: 1, rom_items_used: 0 }),
        0x55 => Some(Instruction { value: 0x55, mnemonic: "SSTORE", stack_items_removed: 2, stack_items_added: 0, rom_items_used: 0 }),
        0x56 => Some(Instruction { value: 0x56, mnemonic: "JUMP", stack_items_removed: 1, stack_items_added: 0, rom_items_used: 0 }),
        0x57 => Some(Instruction { value: 0x57, mnemonic: "JUMPI", stack_items_removed: 2, stack_items_added: 0, rom_items_used: 0 }),
        0x58 => Some(Instruction { value: 0x58, mnemonic: "PC", stack_items_removed: 0, stack_items_added: 1, rom_items_used: 0 }),
        0x59 => Some(Instruction { value: 0x59, mnemonic: "MSIZE", stack_items_removed: 0, stack_items_added: 1, rom_items_used: 0 }),
        0x5a => Some(Instruction { value: 0x5a, mnemonic: "GAS", stack_items_removed: 0, stack_items_added: 1, rom_items_used: 0 }),
        0x5b => Some(Instruction { value: 0x5b, mnemonic: "JUMPDEST", stack_items_removed: 0, stack_items_added: 0, rom_items_used: 0 }),
        0x60 => Some(Instruction { value: 0x60, mnemonic: "PUSH1", stack_items_removed: 0, stack_items_added: 1, rom_items_used: 1 }),
        0x61 => Some(Instruction { value: 0x61, mnemonic: "PUSH2", stack_items_removed: 0, stack_items_added: 1, rom_items_used: 2 }),
        0x62 => Some(Instruction { value: 0x62, mnemonic: "PUSH3", stack_items_removed: 0, stack_items_added: 1, rom_items_used: 3 }),
        0x63 => Some(Instruction { value: 0x63, mnemonic: "PUSH4", stack_items_removed: 0, stack_items_added: 1, rom_items_used: 4 }),
        0x64 => Some(Instruction { value: 0x64, mnemonic: "PUSH5", stack_items_removed: 0, stack_items_added: 1, rom_items_used: 5 }),
        0x65 => Some(Instruction { value: 0x65, mnemonic: "PUSH6", stack_items_removed: 0, stack_items_added: 1, rom_items_used: 6 }),
        0x66 => Some(Instruction { value: 0x66, mnemonic: "PUSH7", stack_items_removed: 0, stack_items_added: 1, rom_items_used: 7 }),
        0x67 => Some(Instruction { value: 0x67, mnemonic: "PUSH8", stack_items_removed: 0, stack_items_added: 1, rom_items_used: 8 }),
        0x68 => Some(Instruction { value: 0x68, mnemonic: "PUSH9", stack_items_removed: 0, stack_items_added: 1, rom_items_used: 9 }),
        0x69 => Some(Instruction { value: 0x69, mnemonic: "PUSH10", stack_items_removed: 0, stack_items_added: 1, rom_items_used: 10 }),
        0x6a => Some(Instruction { value: 0x6a, mnemonic: "PUSH11", stack_items_removed: 0, stack_items_added: 1, rom_items_used: 11 }),
        0x6b => Some(Instruction { value: 0x6b, mnemonic: "PUSH12", stack_items_removed: 0, stack_items_added: 1, rom_items_used: 12 }),
        0x6c => Some(Instruction { value: 0x6c, mnemonic: "PUSH13", stack_items_removed: 0, stack_items_added: 1, rom_items_used: 13 }),
        0x6d => Some(Instruction { value: 0x6d, mnemonic: "PUSH14", stack_items_removed: 0, stack_items_added: 1, rom_items_used: 14 }),
        0x6e => Some(Instruction { value: 0x6e, mnemonic: "PUSH15", stack_items_removed: 0, stack_items_added: 1, rom_items_used: 15 }),
        0x6f => Some(Instruction { value: 0x6f, mnemonic: "PUSH16", stack_items_removed: 0, stack_items_added: 1, rom_items_used: 16 }),
        0x70 => Some(Instruction { value: 0x70, mnemonic: "PUSH17", stack_items_removed: 0, stack_items_added: 1, rom_items_used: 17 }),
        0x71 => Some(Instruction { value: 0x71, mnemonic: "PUSH18", stack_items_removed: 0, stack_items_added: 1, rom_items_used: 18 }),
        0x72 => Some(Instruction { value: 0x72, mnemonic: "PUSH19", stack_items_removed: 0, stack_items_added: 1, rom_items_used: 19 }),
        0x73 => Some(Instruction { value: 0x73, mnemonic: "PUSH20", stack_items_removed: 0, stack_items_added: 1, rom_items_used: 20 }),
        0x74 => Some(Instruction { value: 0x74, mnemonic: "PUSH21", stack_items_removed: 0, stack_items_added: 1, rom_items_used: 21 }),
        0x75 => Some(Instruction { value: 0x75, mnemonic: "PUSH22", stack_items_removed: 0, stack_items_added: 1, rom_items_used: 22 }),
        0x76 => Some(Instruction { value: 0x76, mnemonic: "PUSH23", stack_items_removed: 0, stack_items_added: 1, rom_items_used: 23 }),
        0x77 => Some(Instruction { value: 0x77, mnemonic: "PUSH24", stack_items_removed: 0, stack_items_added: 1, rom_items_used: 24 }),
        0x78 => Some(Instruction { value: 0x78, mnemonic: "PUSH25", stack_items_removed: 0, stack_items_added: 1, rom_items_used: 25 }),
        0x79 => Some(Instruction { value: 0x79, mnemonic: "PUSH26", stack_items_removed: 0, stack_items_added: 1, rom_items_used: 26 }),
        0x7a => Some(Instruction { value: 0x7a, mnemonic: "PUSH27", stack_items_removed: 0, stack_items_added: 1, rom_items_used: 27 }),
        0x7b => Some(Instruction { value: 0x7b, mnemonic: "PUSH28", stack_items_removed: 0, stack_items_added: 1, rom_items_used: 28 }),
        0x7c => Some(Instruction { value: 0x7c, mnemonic: "PUSH29", stack_items_removed: 0, stack_items_added: 1, rom_items_used: 29 }),
        0x7d => Some(Instruction { value: 0x7d, mnemonic: "PUSH30", stack_items_removed: 0, stack_items_added: 1, rom_items_used: 30 }),
        0x7e => Some(Instruction { value: 0x7e, mnemonic: "PUSH31", stack_items_removed: 0, stack_items_added: 1, rom_items_used: 31 }),
        0x7f => Some(Instruction { value: 0x7f, mnemonic: "PUSH32", stack_items_removed: 0, stack_items_added: 1, rom_items_used: 32 }),
        0x80 => Some(Instruction { value: 0x80, mnemonic: "DUP1", stack_items_removed: 1, stack_items_added: 2, rom_items_used: 0 }),
        0x81 => Some(Instruction { value: 0x81, mnemonic: "DUP2", stack_items_removed: 2, stack_items_added: 3, rom_items_used: 0 }),
        0x82 => Some(Instruction { value: 0x82, mnemonic: "DUP3", stack_items_removed: 3, stack_items_added: 4, rom_items_used: 0 }),
        0x83 => Some(Instruction { value: 0x83, mnemonic: "DUP4", stack_items_removed: 4, stack_items_added: 5, rom_items_used: 0 }),
        0x84 => Some(Instruction { value: 0x84, mnemonic: "DUP5", stack_items_removed: 5, stack_items_added: 6, rom_items_used: 0 }),
        0x85 => Some(Instruction { value: 0x85, mnemonic: "DUP6", stack_items_removed: 6, stack_items_added: 7, rom_items_used: 0 }),
        0x86 => Some(Instruction { value: 0x86, mnemonic: "DUP7", stack_items_removed: 7, stack_items_added: 8, rom_items_used: 0 }),
        0x87 => Some(Instruction { value: 0x87, mnemonic: "DUP8", stack_items_removed: 8, stack_items_added: 9, rom_items_used: 0 }),
        0x88 => Some(Instruction { value: 0x88, mnemonic: "DUP9", stack_items_removed: 9, stack_items_added: 10, rom_items_used: 0 }),
        0x89 => Some(Instruction { value: 0x89, mnemonic: "DUP10", stack_items_removed: 10, stack_items_added: 11, rom_items_used: 0 }),
        0x8a => Some(Instruction { value: 0x8a, mnemonic: "DUP11", stack_items_removed: 11, stack_items_added: 12, rom_items_used: 0 }),
        0x8b => Some(Instruction { value: 0x8b, mnemonic: "DUP12", stack_items_removed: 12, stack_items_added: 13, rom_items_used: 0 }),
        0x8c => Some(Instruction { value: 0x8c, mnemonic: "DUP13", stack_items_removed: 13, stack_items_added: 14, rom_items_used: 0 }),
        0x8d => Some(Instruction { value: 0x8d, mnemonic: "DUP14", stack_items_removed: 14, stack_items_added: 15, rom_items_used: 0 }),
        0x8e => Some(Instruction { value: 0x8e, mnemonic: "DUP15", stack_items_removed: 15, stack_items_added: 16, rom_items_used: 0 }),
        0x8f => Some(Instruction { value: 0x8f, mnemonic: "DUP16", stack_items_removed: 16, stack_items_added: 17, rom_items_used: 0 }),
        0x90 => Some(Instruction { value: 0x90, mnemonic: "SWAP1", stack_items_removed: 2, stack_items_added: 2, rom_items_used: 0 }),
        0x91 => Some(Instruction { value: 0x91, mnemonic: "SWAP2", stack_items_removed: 3, stack_items_added: 3, rom_items_used: 0 }),
        0x92 => Some(Instruction { value: 0x92, mnemonic: "SWAP3", stack_items_removed: 4, stack_items_added: 4, rom_items_used: 0 }),
        0x93 => Some(Instruction { value: 0x93, mnemonic: "SWAP4", stack_items_removed: 5, stack_items_added: 5, rom_items_used: 0 }),
        0x94 => Some(Instruction { value: 0x94, mnemonic: "SWAP5", stack_items_removed: 6, stack_items_added: 6, rom_items_used: 0 }),
        0x95 => Some(Instruction { value: 0x95, mnemonic: "SWAP6", stack_items_removed: 7, stack_items_added: 7, rom_items_used: 0 }),
        0x96 => Some(Instruction { value: 0x96, mnemonic: "SWAP7", stack_items_removed: 8, stack_items_added: 8, rom_items_used: 0 }),
        0x97 => Some(Instruction { value: 0x97, mnemonic: "SWAP8", stack_items_removed: 9, stack_items_added: 9, rom_items_used: 0 }),
        0x98 => Some(Instruction { value: 0x98, mnemonic: "SWAP9", stack_items_removed: 10, stack_items_added: 10, rom_items_used: 0 }),
        0x99 => Some(Instruction { value: 0x99, mnemonic: "SWAP10", stack_items_removed: 11, stack_items_added: 11, rom_items_used: 0 }),
        0x9a => Some(Instruction { value: 0x9a, mnemonic: "SWAP11", stack_items_removed: 12, stack_items_added: 12, rom_items_used: 0 }),
        0x9b => Some(Instruction { value: 0x9b, mnemonic: "SWAP12", stack_items_removed: 13, stack_items_added: 13, rom_items_used: 0 }),
        0x9c => Some(Instruction { value: 0x9c, mnemonic: "SWAP13", stack_items_removed: 14, stack_items_added: 14, rom_items_used: 0 }),
        0x9d => Some(Instruction { value: 0x9d, mnemonic: "SWAP14", stack_items_removed: 15, stack_items_added: 15, rom_items_used: 0 }),
        0x9e => Some(Instruction { value: 0x9e, mnemonic: "SWAP15", stack_items_removed: 16, stack_items_added: 16, rom_items_used: 0 }),
        0x9f => Some(Instruction { value: 0x9f, mnemonic: "SWAP16", stack_items_removed: 17, stack_items_added: 17, rom_items_used: 0 }),
        0xa0 => Some(Instruction { value: 0xa0, mnemonic: "LOG0", stack_items_removed: 2, stack_items_added: 0, rom_items_used: 0 }),
        0xa1 => Some(Instruction { value: 0xa1, mnemonic: "LOG1", stack_items_removed: 3, stack_items_added: 0, rom_items_used: 0 }),
        0xa2 => Some(Instruction { value: 0xa2, mnemonic: "LOG2", stack_items_removed: 4, stack_items_added: 0, rom_items_used: 0 }),
        0xa3 => Some(Instruction { value: 0xa3, mnemonic: "LOG3", stack_items_removed: 5, stack_items_added: 0, rom_items_used: 0 }),
        0xa4 => Some(Instruction { value: 0xa4, mnemonic: "LOG4", stack_items_removed: 6, stack_items_added: 0, rom_items_used: 0 }),
        0xf0 => Some(Instruction { value: 0xf0, mnemonic: "CREATE", stack_items_removed: 3, stack_items_added: 1, rom_items_used: 0 }),
        0xf1 => Some(Instruction { value: 0xf1, mnemonic: "CALL", stack_items_removed: 7, stack_items_added: 1, rom_items_used: 0 }),
        0xf2 => Some(Instruction { value: 0xf2, mnemonic: "CALLCODE", stack_items_removed: 7, stack_items_added: 1, rom_items_used: 0 }),
        0xf3 => Some(Instruction { value: 0xf3, mnemonic: "RETURN", stack_items_removed: 2, stack_items_added: 0, rom_items_used: 0 }),
        0xf4 => Some(Instruction { value: 0xf4, mnemonic: "DELEGATECALL", stack_items_removed: 6, stack_items_added: 1, rom_items_used: 0 }),
        0xf5 => Some(Instruction { value: 0xf5, mnemonic: "CREATE2", stack_items_removed: 4, stack_items_added: 1, rom_items_used: 0 }),
        0xfa => Some(Instruction { value: 0xfa, mnemonic: "STATICCALL", stack_items_removed: 6, stack_items_added: 1, rom_items_used: 0 }),
        0xfd => Some(Instruction { value: 0xfd, mnemonic: "REVERT", stack_items_removed: 2, stack_items_added: 0, rom_items_used: 0 }),
        0xfe => Some(Instruction { value: 0xfe, mnemonic: "INVALID", stack_items_removed: 0, stack_items_added: 0, rom_items_used: 0 }),
        0xff => Some(Instruction { value: 0xff, mnemonic: "SELFDESTRUCT", stack_items_removed: 1, stack_items_added: 0, rom_items_used: 0 }),
        _ => None,
    }
}

/// What one step of execution reports: continue, halt normally or by
/// revert (each with return data), or a fatal fault.
#[derive(Debug, PartialEq, Eq)]
pub enum ExecutionStatus {
    Running,
    HaltedOk(Vec<u8>),
    HaltedRevert(Vec<u8>),
    Faulted(ProgramError),
}

/// The opcodes this engine carries out; the remaining defined opcodes
/// fault as unsupported, because their semantics needs context the
/// machine does not model.
pub open spec fn is_supported_opcode(b: u8) -> bool {
    ||| b == 0x00
    ||| b == 0x08
    ||| b == 0x09
    ||| is_binop(b)
    ||| b == 0x15
    ||| b == 0x19
    ||| is_env_scalar(b)
    ||| b == 0x35
    ||| b == 0x36
    ||| b == 0x37
    ||| b == 0x38
    ||| b == 0x39
    ||| b == 0x50
    ||| 0x51 <= b <= 0x59
    ||| b == 0x5b
    ||| 0x60 <= b <= 0x9f
    ||| b == 0xf3
    ||| b == 0xfd
    ||| b == 0xfe
}

/// The environment instructions that push one field of the injected
/// environment as it stands.
pub open spec fn is_env_scalar(b: u8) -> bool {
    ||| b == 0x30
    ||| b == 0x32
    ||| b == 0x33
    ||| b == 0x34
    ||| b == 0x3a
    ||| b == 0x41
    ||| b == 0x42
    ||| b == 0x43
    ||| b == 0x44
    ||| b == 0x45
    ||| b == 0x46
    ||| b == 0x47
}

/// The environment field an environment instruction pushes.
pub open spec fn env_value(b: u8, environment: Environment) -> u256 {
    if b == 0x30 {
        environment.address
    } else if b == 0x32 {
        environment.origin
    } else if b == 0x33 {
        environment.caller
    } else if b == 0x34 {
        environment.call_value
    } else if b == 0x3a {
        environment.gas_price
    } else if b == 0x41 {
        environment.coinbase
    } else if b == 0x42 {
        environment.timestamp
    } else if b == 0x43 {
        environment.number
    } else if b == 0x44 {
        environment.difficulty
    } else if b == 0x45 {
        environment.gas_limit
    } else if b == 0x46 {
        environment.chain_id
    } else {
        environment.balance
    }
}

/// A byte of the program: what the ROM holds there, or zero past its
/// end.
pub open spec fn code_byte(code: Seq<u8>, i: int) -> u8 {
    if 0 <= i < code.len() {
        code[i]
    } else {
        0
    }
}

/// The two-operand instructions whose result is a single value of the
/// operands.
pub open spec fn is_binop(b: u8) -> bool {
    ||| b == 0x01
    ||| b == 0x02
    ||| b == 0x03
    ||| b == 0x04
    ||| b == 0x05
    ||| b == 0x06
    ||| b == 0x07
    ||| b == 0x0a
    ||| b == 0x0b
    ||| b == 0x10
    ||| b == 0x11
    ||| b == 0x12
    ||| b == 0x13
    ||| b == 0x14
    ||| b == 0x16
    ||| b == 0x17
    ||| b == 0x18
    ||| b == 0x1a
    ||| b == 0x1b
    ||| b == 0x1c
    ||| b == 0x1d
}

/// The value a two-operand instruction pushes: `a1` is the operand that
/// was on top, `a2` the one below it.
pub open spec fn binop_result(b: u8, a1: u256, a2: u256, out: u256) -> bool {
    if b == 0x01 {
        out.as_nat() == (a1.as_nat() + a2.as_nat()) % p256()
    } else if b == 0x02 {
        out.as_nat() == (a1.as_nat() * a2.as_nat()) % p256()
    } else if b == 0x03 {
        out.as_nat() == (a1.as_nat() - a2.as_nat()) % (p256() as int)
    } else if b == 0x04 {
        out.as_nat() == if a2.as_nat() == 0 {
            0nat
        } else {
            a1.as_nat() / a2.as_nat()
        }
    } else if b == 0x05 {
        // SDIV, under the two's-complement reading
        if a2.as_nat() == 0 {
            out.as_nat() == 0
        } else {
            out.as_nat() as int == truncated_div(a1.as_int(), a2.as_int()) % (p256() as int)
        }
    } else if b == 0x06 {
        out.as_nat() == if a2.as_nat() == 0 {
            0nat
        } else {
            a1.as_nat() % a2.as_nat()
        }
    } else if b == 0x07 {
        // SMOD, under the two's-complement reading
        if a2.as_nat() == 0 {
            out.as_nat() == 0
        } else {
            out.as_nat() as int == truncated_rem(a1.as_int(), a2.as_int()) % (p256() as int)
        }
    } else if b == 0x0a {
        // EXP: a1 the base, a2 the exponent
        out.as_nat() as int == pow(a1.as_nat() as int, a2.as_nat()) % (p256() as int)
    } else if b == 0x0b {
        // SIGNEXTEND: a1 the byte index, a2 the value to widen
        if a1.as_nat() >= 31 {
            out == a2
        } else {
            out.as_nat() as int == ({
                let m = (8 * (a1.as_nat() + 1)) as nat;
                if super::types::nth_bit(a2.as_nat(), (m - 1) as nat) {
                    a2.as_nat() % pow2(m) + p256() - pow2(m)
                } else {
                    (a2.as_nat() % pow2(m)) as int
                }
            })
        }
    } else if b == 0x10 {
        out.as_nat() == if a1.as_nat() < a2.as_nat() {
            1nat
        } else {
            0nat
        }
    } else if b == 0x11 {
        out.as_nat() == if a1.as_nat() > a2.as_nat() {
            1nat
        } else {
            0nat
        }
    } else if b == 0x12 {
        // SLT, under the two's-complement reading
        out.as_nat() == if a1.as_int() < a2.as_int() {
            1nat
        } else {
            0nat
        }
    } else if b == 0x13 {
        // SGT, under the two's-complement reading
        out.as_nat() == if a1.as_int() > a2.as_int() {
            1nat
        } else {
            0nat
        }
    } else if b == 0x14 {
        out.as_nat() == if a1 == a2 {
            1nat
        } else {
            0nat
        }
    } else if b == 0x16 {
        out == a1.spec_and(a2)
    } else if b == 0x17 {
        out == a1.spec_or(a2)
    } else if b == 0x18 {
        out == a1.spec_xor(a2)
    } else if b == 0x1a {
        // BYTE: a1 the index of a big-endian byte of a2, 0 the most
        // significant
        out.as_nat() == if a1.as_nat() >= 32 {
            0nat
        } else {
            (a2.as_nat() / pow2((8 * (31 - a1.as_nat())) as nat)) % 256
        }
    } else if b == 0x1b {
        // SHL: a1 the shift, a2 the value
        out.as_nat() == if a1.as_nat() >= 256 {
            0nat
        } else {
            (a2.as_nat() * pow2(a1.as_nat())) % p256()
        }
    } else if b == 0x1c {
        // SHR: a1 the shift, a2 the value
        out.as_nat() == if a1.as_nat() >= 256 {
            0nat
        } else {
            a2.as_nat() / pow2(a1.as_nat())
        }
    } else {
        // SAR: a1 the shift, a2 the value, read as two's complement
        if a1.as_nat() >= 256 {
            out.as_nat() == (if a2.as_int() < 0 {
                (p256() - 1) as nat
            } else {
                0nat
            })
        } else {
            out.as_nat() as int == (a2.as_int() / (pow2(a1.as_nat()) as int)) % (p256() as int)
        }
    }
}

/// The value a one-operand instruction pushes.
pub open spec fn unop_result(b: u8, a1: u256, out: u256) -> bool {
    if b == 0x15 {
        out.as_nat() == if a1.as_nat() == 0 {
            1nat
        } else {
            0nat
        }
    } else {
        out == a1.spec_not()
    }
}

/// Memory and storage untouched.
pub open spec fn heap_unchanged(pre: ProgramContext, post: ProgramContext) -> bool {
    post.memory@ == pre.memory@ && post.storage@ == pre.storage@
}

/// Stack, memory, storage and environment untouched.
pub open spec fn data_unchanged(pre: ProgramContext, post: ProgramContext) -> bool {
    post.stack@ == pre.stack@ && post.environment == pre.environment && heap_unchanged(pre, post)
}

/// A fault that leaves everything as it was, the program counter
/// standing at `pc_after`.
pub open spec fn faulted_in_place(
    pre: ProgramContext,
    pc_after: nat,
    post: ProgramContext,
    r: ExecutionStatus,
    e: ProgramError,
) -> bool {
    &&& r == ExecutionStatus::Faulted(e)
    &&& post.rom.spec_pc() == pc_after
    &&& data_unchanged(pre, post)
}

/// The stack after popping `popped` values and pushing one: the rest
/// kept, the pushed value on top.
pub open spec fn stack_popped_pushed(pre_s: Seq<u256>, post_s: Seq<u256>, popped: nat) -> bool {
    &&& pre_s.len() >= popped
    &&& post_s.len() == pre_s.len() - popped + 1
    &&& post_s.subrange(0, pre_s.len() - popped) == pre_s.subrange(0, pre_s.len() - popped)
}

/// Memory after an access that touches bytes up to `end`: every byte
/// reads as before, the logical size grown to cover the access.
pub open spec fn mem_grown_same(pre: ProgramContext, post: ProgramContext, end: nat) -> bool {
    &&& post.memory@.len() == grown_len(pre.memory@.len(), end)
    &&& forall|j: int| post.memory.read_byte(j) == pre.memory.read_byte(j)
    &&& post.storage@ == pre.storage@
}

/// The whole behaviour of one instruction, as a relation between the
/// state in which its opcode sits at `pc0` in the ROM and the state and
/// report it leaves behind. The values the stack held before the step
/// are `s`, with `s.last()` the first operand popped.
pub open spec fn instruction_transition(
    b: u8,
    pre: ProgramContext,
    pc0: nat,
    post: ProgramContext,
    r: ExecutionStatus,
) -> bool {
    let code = pre.rom.code();
    let s = pre.stack@;
    let pc1 = pc0 + 1;
    &&& post.rom.code() == code
    &&& post.environment == pre.environment
    &&& if b == 0x00 {
        // STOP: a normal halt with no data
        &&& r matches ExecutionStatus::HaltedOk(d) && d@ =~= Seq::<u8>::empty()
        &&& post.rom.spec_pc() == pc1
        &&& data_unchanged(pre, post)
    } else if is_binop(b) {
        if s.len() < 2 {
            faulted_in_place(pre, pc1, post, r, ProgramError::StackUnderflow)
        } else {
            &&& r == ExecutionStatus::Running
            &&& post.rom.spec_pc() == pc1
            &&& stack_popped_pushed(s, post.stack@, 2)
            &&& binop_result(b, s.last(), s[s.len() - 2], post.stack@.last())
            &&& heap_unchanged(pre, post)
        }
    } else if b == 0x08 || b == 0x09 {
        // ADDMOD and MULMOD: a1 and a2 the operands, a3 the modulus;
        // the sum or product is taken before any wrapping
        if s.len() < 3 {
            faulted_in_place(pre, pc1, post, r, ProgramError::StackUnderflow)
        } else {
            let a1 = s.last();
            let a2 = s[s.len() - 2];
            let a3 = s[s.len() - 3];
            &&& r == ExecutionStatus::Running
            &&& post.rom.spec_pc() == pc1
            &&& stack_popped_pushed(s, post.stack@, 3)
            &&& post.stack@.last().as_nat() == (if a3.as_nat() == 0 {
                0nat
            } else if b == 0x08 {
                (a1.as_nat() + a2.as_nat()) % a3.as_nat()
            } else {
                (a1.as_nat() * a2.as_nat()) % a3.as_nat()
            })
            &&& heap_unchanged(pre, post)
        }
    } else if b == 0x15 || b == 0x19 {
        if s.len() < 1 {
            faulted_in_place(pre, pc1, post, r, ProgramError::StackUnderflow)
        } else {
            &&& r == ExecutionStatus::Running
            &&& post.rom.spec_pc() == pc1
            &&& stack_popped_pushed(s, post.stack@, 1)
            &&& unop_result(b, s.last(), post.stack@.last())
            &&& heap_unchanged(pre, post)
        }
    } else if is_env_scalar(b) || b == 0x36 || b == 0x38 {
        // the environment reads: one field, the call data size, or the
        // code size, pushed as a value
        if s.len() >= 1024 {
            faulted_in_place(pre, pc1, post, r, ProgramError::StackOverflow)
        } else {
            &&& r == ExecutionStatus::Running
            &&& post.rom.spec_pc() == pc1
            &&& stack_popped_pushed(s, post.stack@, 0)
            &&& (if is_env_scalar(b) {
                post.stack@.last() == env_value(b, pre.environment)
            } else if b == 0x36 {
                post.stack@.last().as_nat() == pre.environment.calldata@.len()
            } else {
                post.stack@.last().as_nat() == code.len()
            })
            &&& heap_unchanged(pre, post)
        }
    } else if b == 0x35 {
        // CALLDATALOAD: a1 the offset; pushes 32 bytes of call data,
        // zero past its end
        if s.len() < 1 {
            faulted_in_place(pre, pc1, post, r, ProgramError::StackUnderflow)
        } else {
            let off = s.last().as_nat();
            &&& r == ExecutionStatus::Running
            &&& post.rom.spec_pc() == pc1
            &&& stack_popped_pushed(s, post.stack@, 1)
            &&& post.stack@.last().as_nat() == be_val(
                Seq::new(32, |k: int| calldata_byte(pre.environment, off + k)),
            )
            &&& heap_unchanged(pre, post)
        }
    } else if b == 0x37 || b == 0x39 {
        // CALLDATACOPY and CODECOPY: a1 the memory offset, a2 the
        // source offset, a3 the count; the source reads zero past its
        // end
        if s.len() < 3 {
            faulted_in_place(pre, pc1, post, r, ProgramError::StackUnderflow)
        } else {
            let dst = s.last().as_nat();
            let src = s[s.len() - 2].as_nat();
            let cnt = s[s.len() - 3].as_nat();
            &&& post.rom.spec_pc() == pc1
            &&& post.stack@ == s.subrange(0, s.len() - 3)
            &&& if dst > usize::MAX - 64 || cnt > usize::MAX - 64 - dst {
                r == ExecutionStatus::Faulted(ProgramError::MemoryOutOfRange) && heap_unchanged(
                    pre,
                    post,
                )
            } else {
                &&& r == ExecutionStatus::Running
                &&& post.memory@.len() == grown_len(pre.memory@.len(), dst + cnt)
                &&& forall|k: int|
                    0 <= k < cnt ==> #[trigger] post.memory.read_byte(dst + k) == (if b == 0x37 {
                        calldata_byte(pre.environment, src + k)
                    } else {
                        code_byte(code, src + k)
                    })
                &&& forall|j: int|
                    j < dst || j >= dst + cnt ==> post.memory.read_byte(j)
                        == pre.memory.read_byte(j)
                &&& post.storage@ == pre.storage@
            }
        }
    } else if b == 0x50 {
        // POP: discard the top
        if s.len() < 1 {
            faulted_in_place(pre, pc1, post, r, ProgramError::StackUnderflow)
        } else {
            &&& r == ExecutionStatus::Running
            &&& post.rom.spec_pc() == pc1
            &&& post.stack@ == s.drop_last()
            &&& heap_unchanged(pre, post)
        }
    } else if b == 0x51 {
        // MLOAD: a1 the offset; pushes the 32-byte big-endian word there
        if s.len() < 1 {
            faulted_in_place(pre, pc1, post, r, ProgramError::StackUnderflow)
        } else {
            let off = s.last().as_nat();
            if off > usize::MAX - 64 {
                &&& r == ExecutionStatus::Faulted(ProgramError::MemoryOutOfRange)
                &&& post.rom.spec_pc() == pc1
                &&& post.stack@ == s.drop_last()
                &&& heap_unchanged(pre, post)
            } else {
                &&& r == ExecutionStatus::Running
                &&& post.rom.spec_pc() == pc1
                &&& stack_popped_pushed(s, post.stack@, 1)
                &&& post.stack@.last().as_nat() == be_val(
                    Seq::new(32, |k: int| pre.memory.read_byte(off + k)),
                )
                &&& mem_grown_same(pre, post, off + 32)
            }
        }
    } else if b == 0x52 || b == 0x53 {
        // MSTORE and MSTORE8: a1 the offset, a2 the value
        if s.len() < 2 {
            faulted_in_place(pre, pc1, post, r, ProgramError::StackUnderflow)
        } else {
            let off = s.last().as_nat();
            let v = s[s.len() - 2];
            let width: nat = if b == 0x52 {
                32
            } else {
                1
            };
            if off > usize::MAX - 64 {
                &&& r == ExecutionStatus::Faulted(ProgramError::MemoryOutOfRange)
                &&& post.rom.spec_pc() == pc1
                &&& post.stack@ == s.subrange(0, s.len() - 2)
                &&& heap_unchanged(pre, post)
            } else {
                &&& r == ExecutionStatus::Running
                &&& post.rom.spec_pc() == pc1
                &&& post.stack@ == s.subrange(0, s.len() - 2)
                &&& post.memory@.len() == grown_len(pre.memory@.len(), off + width)
                &&& (if b == 0x52 {
                    forall|k: int|
                        0 <= k < 32 ==> post.memory.read_byte(off + k) == be_bytes_of(
                            v.as_nat(),
                            32,
                        )[k]
                } else {
                    post.memory.read_byte(off as int) == (v.as_nat() % 256) as u8
                })
                &&& forall|j: int|
                    j < off || j >= off + width ==> post.memory.read_byte(j)
                        == pre.memory.read_byte(j)
                &&& post.storage@ == pre.storage@
            }
        }
    } else if b == 0x54 {
        // SLOAD: a1 the key; pushes what storage holds there
        if s.len() < 1 {
            faulted_in_place(pre, pc1, post, r, ProgramError::StackUnderflow)
        } else {
            &&& r == ExecutionStatus::Running
            &&& post.rom.spec_pc() == pc1
            &&& post.stack@ == s.drop_last().push(storage_lookup(pre.storage@, s.last()))
            &&& heap_unchanged(pre, post)
        }
    } else if b == 0x55 {
        // SSTORE: a1 the key, a2 the value
        if s.len() < 2 {
            faulted_in_place(pre, pc1, post, r, ProgramError::StackUnderflow)
        } else {
            &&& r == ExecutionStatus::Running
            &&& post.rom.spec_pc() == pc1
            &&& post.stack@ == s.subrange(0, s.len() - 2)
            &&& post.storage@ == pre.storage@.push((s.last(), s[s.len() - 2]))
            &&& post.memory@ == pre.memory@
        }
    } else if b == 0x56 {
        // JUMP: a1 the target, which must hold JUMPDEST
        if s.len() < 1 {
            faulted_in_place(pre, pc1, post, r, ProgramError::StackUnderflow)
        } else {
            let t = s.last().as_nat();
            &&& post.stack@ == s.drop_last()
            &&& heap_unchanged(pre, post)
            &&& if t < code.len() && code[t as int] == 0x5b {
                r == ExecutionStatus::Running && post.rom.spec_pc() == t
            } else {
                r == ExecutionStatus::Faulted(ProgramError::InvalidJump) && post.rom.spec_pc()
                    == pc1
            }
        }
    } else if b == 0x57 {
        // JUMPI: a1 the target, a2 the condition; jumps iff a2 is not zero
        if s.len() < 2 {
            faulted_in_place(pre, pc1, post, r, ProgramError::StackUnderflow)
        } else {
            let t = s.last().as_nat();
            let c = s[s.len() - 2];
            &&& post.stack@ == s.subrange(0, s.len() - 2)
            &&& heap_unchanged(pre, post)
            &&& if c.as_nat() == 0 {
                r == ExecutionStatus::Running && post.rom.spec_pc() == pc1
            } else if t < code.len() && code[t as int] == 0x5b {
                r == ExecutionStatus::Running && post.rom.spec_pc() == t
            } else {
                r == ExecutionStatus::Faulted(ProgramError::InvalidJump) && post.rom.spec_pc()
                    == pc1
            }
        }
    } else if b == 0x58 || b == 0x59 {
        // PC pushes the pre-fetch counter; MSIZE the memory size
        let value: nat = if b == 0x58 {
            pc0
        } else {
            pre.memory@.len()
        };
        if s.len() >= 1024 {
            faulted_in_place(pre, pc1, post, r, ProgramError::StackOverflow)
        } else {
            &&& r == ExecutionStatus::Running
            &&& post.rom.spec_pc() == pc1
            &&& stack_popped_pushed(s, post.stack@, 0)
            &&& post.stack@.last().as_nat() == value
            &&& heap_unchanged(pre, post)
        }
    } else if b == 0x5b {
        // JUMPDEST: a marker, no effect
        &&& r == ExecutionStatus::Running
        &&& post.rom.spec_pc() == pc1
        &&& data_unchanged(pre, post)
    } else if 0x60 <= b <= 0x7f {
        // PUSH1..PUSH32: reads the immediate big-endian and pushes it
        let w = imm_width(b);
        if pc1 + w <= code.len() {
            if s.len() < 1024 {
                &&& r == ExecutionStatus::Running
                &&& post.rom.spec_pc() == pc1 + w
                &&& stack_popped_pushed(s, post.stack@, 0)
                &&& post.stack@.last().as_nat() == be_val(
                    code.subrange(pc1 as int, (pc1 + w) as int),
                )
                &&& heap_unchanged(pre, post)
            } else {
                faulted_in_place(pre, pc1 + w, post, r, ProgramError::StackOverflow)
            }
        } else {
            // a truncated immediate: fatal, the counter at the end
            &&& r matches ExecutionStatus::Faulted(ProgramError::ROMOutOfBoundsError(_))
            &&& post.rom.spec_pc() == code.len()
            &&& data_unchanged(pre, post)
        }
    } else if 0x80 <= b <= 0x8f {
        // DUP1..DUP16: copies the n-th value from the top onto the top
        let n = (b - 0x7f) as nat;
        if n > s.len() {
            faulted_in_place(pre, pc1, post, r, ProgramError::StackUnderflow)
        } else if s.len() >= 1024 {
            faulted_in_place(pre, pc1, post, r, ProgramError::StackOverflow)
        } else {
            &&& r == ExecutionStatus::Running
            &&& post.rom.spec_pc() == pc1
            &&& post.stack@ == s.push(s[s.len() - n])
            &&& heap_unchanged(pre, post)
        }
    } else if 0x90 <= b <= 0x9f {
        // SWAP1..SWAP16: exchanges the top with the value n below it
        let n = (b - 0x8f) as nat;
        if n >= s.len() {
            faulted_in_place(pre, pc1, post, r, ProgramError::StackUnderflow)
        } else {
            &&& r == ExecutionStatus::Running
            &&& post.rom.spec_pc() == pc1
            &&& post.stack@ == s.update(s.len() - 1, s[s.len() - 1 - n]).update(
                s.len() - 1 - n,
                s.last(),
            )
            &&& heap_unchanged(pre, post)
        }
    } else if b == 0xf3 || b == 0xfd {
        // RETURN and REVERT: a1 the offset, a2 the size; halt with the
        // memory bytes there as data
        if s.len() < 2 {
            faulted_in_place(pre, pc1, post, r, ProgramError::StackUnderflow)
        } else {
            let off = s.last().as_nat();
            let sz = s[s.len() - 2].as_nat();
            &&& post.rom.spec_pc() == pc1
            &&& post.stack@ == s.subrange(0, s.len() - 2)
            &&& if off > usize::MAX - 64 || sz > usize::MAX - 64 - off {
                r == ExecutionStatus::Faulted(ProgramError::MemoryOutOfRange) && heap_unchanged(
                    pre,
                    post,
                )
            } else {
                &&& (if b == 0xf3 {
                    r matches ExecutionStatus::HaltedOk(d) && d@ == Seq::new(
                        sz,
                        |k: int| pre.memory.read_byte(off + k),
                    )
                } else {
                    r matches ExecutionStatus::HaltedRevert(d) && d@ == Seq::new(
                        sz,
                        |k: int| pre.memory.read_byte(off + k),
                    )
                })
                &&& mem_grown_same(pre, post, off + sz)
            }
        }
    } else if b == 0xfe {
        // INVALID: the explicit invalid instruction
        faulted_in_place(pre, pc1, post, r, ProgramError::InvalidOpcode)
    } else {
        // defined, but outside what this machine carries out
        faulted_in_place(pre, pc1, post, r, ProgramError::UnsupportedOpcode)
    }
}

/// Pops a value from a stack known not to be empty.
fn pop_known(stack: &mut super::program_context::Stack) -> (r: u256)
    requires
        old(stack).well_formed(),
        old(stack)@.len() >= 1,
    ensures
        final(stack).well_formed(),
        r == old(stack)@.last(),
        final(stack)@ == old(stack)@.drop_last(),
{
    match stack.pop() {
        Ok(v) => v,
        Err(_) => {
            proof {
                assert(false);
            }
            u256::zero()
        },
    }
}

/// Pushes onto a stack known to have room.
fn push_known(stack: &mut super::program_context::Stack, value: u256)
    requires
        old(stack).well_formed(),
        old(stack)@.len() < 1024,
    ensures
        final(stack).well_formed(),
        final(stack)@ == old(stack)@.push(value),
{
    match stack.push(value) {
        Ok(_) => {
        },
        Err(_) => {
            proof {
                assert(false);
            }
        },
    }
}

/// Popping two values and pushing one keeps everything below.
proof fn lemma_pop2_push(s: Seq<u256>, out: u256)
    requires
        s.len() >= 2,
    ensures
        s.drop_last().drop_last().push(out).len() == s.len() - 1,
        s.drop_last().drop_last().push(out).subrange(0, s.len() - 2) == s.subrange(
            0,
            s.len() - 2,
        ),
        s.drop_last().drop_last().push(out).last() == out,
        s.drop_last().last() == s[s.len() - 2],
{
    assert(s.drop_last().drop_last() =~= s.subrange(0, s.len() - 2));
    assert(s.drop_last().drop_last().push(out).subrange(0, s.len() - 2) =~= s.subrange(
        0,
        s.len() - 2,
    ));
}

/// Popping three values and pushing one keeps everything below.
proof fn lemma_pop3_push(s: Seq<u256>, out: u256)
    requires
        s.len() >= 3,
    ensures
        s.drop_last().drop_last().drop_last().push(out).len() == s.len() - 2,
        s.drop_last().drop_last().drop_last().push(out).subrange(0, s.len() - 3) == s.subrange(
            0,
            s.len() - 3,
        ),
        s.drop_last().drop_last().drop_last().push(out).last() == out,
        s.drop_last().last() == s[s.len() - 2],
        s.drop_last().drop_last().last() == s[s.len() - 3],
{
    assert(s.drop_last().drop_last().drop_last() =~= s.subrange(0, s.len() - 3));
    assert(s.drop_last().drop_last().drop_last().push(out).subrange(0, s.len() - 3) =~= s.subrange(
        0,
        s.len() - 3,
    ));
}

/// Popping one value and pushing one keeps everything below.
proof fn lemma_pop1_push(s: Seq<u256>, out: u256)
    requires
        s.len() >= 1,
    ensures
        s.drop_last().push(out).len() == s.len(),
        s.drop_last().push(out).subrange(0, s.len() - 1) == s.subrange(0, s.len() - 1),
        s.drop_last().push(out).last() == out,
{
    assert(s.drop_last().push(out).subrange(0, s.len() - 1) =~= s.subrange(0, s.len() - 1));
}

/// Pushing one value keeps everything below.
proof fn lemma_push(s: Seq<u256>, out: u256)
    ensures
        s.push(out).len() == s.len() + 1,
        s.push(out).subrange(0, s.len() as int) == s.subrange(0, s.len() as int),
        s.push(out).last() == out,
{
    assert(s.push(out).subrange(0, s.len() as int) =~= s.subrange(0, s.len() as int));
    assert(s.subrange(0, s.len() as int) =~= s);
}

/// STOP: halts normally with no return data.
fn stop(opcode: u8, program_context: &mut ProgramContext) -> (r: ExecutionStatus)
    requires
        old(program_context).well_formed(),
        old(program_context).rom.spec_pc() >= 1,
        opcode == 0x00,
    ensures
        final(program_context).well_formed(),
        instruction_transition(
            opcode,
            *old(program_context),
            (old(program_context).rom.spec_pc() - 1) as nat,
            *final(program_context),
            r,
        ),
{
    ExecutionStatus::HaltedOk(Vec::new())
}

/// ADD: pops two values and pushes their wrapping sum.
fn add(opcode: u8, program_context: &mut ProgramContext) -> (r: ExecutionStatus)
    requires
        old(program_context).well_formed(),
        old(program_context).rom.spec_pc() >= 1,
        opcode == 0x01,
    ensures
        final(program_context).well_formed(),
        instruction_transition(
            opcode,
            *old(program_context),
            (old(program_context).rom.spec_pc() - 1) as nat,
            *final(program_context),
            r,
        ),
{
    if program_context.stack.len() < 2 {
        return ExecutionStatus::Faulted(ProgramError::StackUnderflow);
    }
    let a1 = pop_known(&mut program_context.stack);
    let a2 = pop_known(&mut program_context.stack);
    let out = a1.add(a2);
    push_known(&mut program_context.stack, out);
    proof {
        lemma_pop2_push(old(program_context).stack@, out);
    }
    ExecutionStatus::Running
}

/// MUL: pops two values and pushes their wrapping product.
fn mul(opcode: u8, program_context: &mut ProgramContext) -> (r: ExecutionStatus)
    requires
        old(program_context).well_formed(),
        old(program_context).rom.spec_pc() >= 1,
        opcode == 0x02,
    ensures
        final(program_context).well_formed(),
        instruction_transition(
            opcode,
            *old(program_context),
            (old(program_context).rom.spec_pc() - 1) as nat,
            *final(program_context),
            r,
        ),
{
    if program_context.stack.len() < 2 {
        return ExecutionStatus::Faulted(ProgramError::StackUnderflow);
    }
    let a1 = pop_known(&mut program_context.stack);
    let a2 = pop_known(&mut program_context.stack);
    let out = a1.mul(a2);
    push_known(&mut program_context.stack, out);
    proof {
        lemma_pop2_push(old(program_context).stack@, out);
    }
    ExecutionStatus::Running
}

/// SUB: pops two values and pushes top minus second, wrapping.
fn sub(opcode: u8, program_context: &mut ProgramContext) -> (r: ExecutionStatus)
    requires
        old(program_context).well_formed(),
        old(program_context).rom.spec_pc() >= 1,
        opcode == 0x03,
    ensures
        final(program_context).well_formed(),
        instruction_transition(
            opcode,
            *old(program_context),
            (old(program_context).rom.spec_pc() - 1) as nat,
            *final(program_context),
            r,
        ),
{
    if program_context.stack.len() < 2 {
        return ExecutionStatus::Faulted(ProgramError::StackUnderflow);
    }
    let a1 = pop_known(&mut program_context.stack);
    let a2 = pop_known(&mut program_context.stack);
    let out = a1.sub(a2);
    push_known(&mut program_context.stack, out);
    proof {
        lemma_pop2_push(old(program_context).stack@, out);
    }
    ExecutionStatus::Running
}

/// DIV: pops two values and pushes top divided by second, zero when the
/// divisor is zero.
fn div(opcode: u8, program_context: &mut ProgramContext) -> (r: ExecutionStatus)
    requires
        old(program_context).well_formed(),
        old(program_context).rom.spec_pc() >= 1,
        opcode == 0x04,
    ensures
        final(program_context).well_formed(),
        instruction_transition(
            opcode,
            *old(program_context),
            (old(program_context).rom.spec_pc() - 1) as nat,
            *final(program_context),
            r,
        ),
{
    if program_context.stack.len() < 2 {
        return ExecutionStatus::Faulted(ProgramError::StackUnderflow);
    }
    let a1 = pop_known(&mut program_context.stack);
    let a2 = pop_known(&mut program_context.stack);
    let out = a1.div(a2);
    push_known(&mut program_context.stack, out);
    proof {
        lemma_pop2_push(old(program_context).stack@, out);
    }
    ExecutionStatus::Running
}

/// MOD: pops two values and pushes top modulo second, zero when the
/// divisor is zero.
fn f_mod(opcode: u8, program_context: &mut ProgramContext) -> (r: ExecutionStatus)
    requires
        old(program_context).well_formed(),
        old(program_context).rom.spec_pc() >= 1,
        opcode == 0x06,
    ensures
        final(program_context).well_formed(),
        instruction_transition(
            opcode,
            *old(program_context),
            (old(program_context).rom.spec_pc() - 1) as nat,
            *final(program_context),
            r,
        ),
{
    if program_context.stack.len() < 2 {
        return ExecutionStatus::Faulted(ProgramError::StackUnderflow);
    }
    let a1 = pop_known(&mut program_context.stack);
    let a2 = pop_known(&mut program_context.stack);
    let out = a1.rem(a2);
    push_known(&mut program_context.stack, out);
    proof {
        lemma_pop2_push(old(program_context).stack@, out);
    }
    ExecutionStatus::Running
}

/// LT: pops two values and pushes one if top < second, else zero.
fn lt(opcode: u8, program_context: &mut ProgramContext) -> (r: ExecutionStatus)
    requires
        old(program_context).well_formed(),
        old(program_context).rom.spec_pc() >= 1,
        opcode == 0x10,
    ensures
        final(program_context).well_formed(),
        instruction_transition(
            opcode,
            *old(program_context),
            (old(program_context).rom.spec_pc() - 1) as nat,
            *final(program_context),
            r,
        ),
{
    if program_context.stack.len() < 2 {
        return ExecutionStatus::Faulted(ProgramError::StackUnderflow);
    }
    let a1 = pop_known(&mut program_context.stack);
    let a2 = pop_known(&mut program_context.stack);
    let out = if a1.less_than(&a2, false) {
        u256::one()
    } else {
        u256::zero()
    };
    push_known(&mut program_context.stack, out);
    proof {
        lemma_pop2_push(old(program_context).stack@, out);
    }
    ExecutionStatus::Running
}

/// GT: pops two values and pushes one if top > second, else zero.
fn gt(opcode: u8, program_context: &mut ProgramContext) -> (r: ExecutionStatus)
    requires
        old(program_context).well_formed(),
        old(program_context).rom.spec_pc() >= 1,
        opcode == 0x11,
    ensures
        final(program_context).well_formed(),
        instruction_transition(
            opcode,
            *old(program_context),
            (old(program_context).rom.spec_pc() - 1) as nat,
            *final(program_context),
            r,
        ),
{
    if program_context.stack.len() < 2 {
        return ExecutionStatus::Faulted(ProgramError::StackUnderflow);
    }
    let a1 = pop_known(&mut program_context.stack);
    let a2 = pop_known(&mut program_context.stack);
    let out = if a2.less_than(&a1, false) {
        u256::one()
    } else {
        u256::zero()
    };
    push_known(&mut program_context.stack, out);
    proof {
        lemma_pop2_push(old(program_context).stack@, out);
    }
    ExecutionStatus::Running
}

/// EQ: pops two values and pushes one if they are equal, else zero.
fn eq(opcode: u8, program_context: &mut ProgramContext) -> (r: ExecutionStatus)
    requires
        old(program_context).well_formed(),
        old(program_context).rom.spec_pc() >= 1,
        opcode == 0x14,
    ensures
        final(program_context).well_formed(),
        instruction_transition(
            opcode,
            *old(program_context),
            (old(program_context).rom.spec_pc() - 1) as nat,
            *final(program_context),
            r,
        ),
{
    if program_context.stack.len() < 2 {
        return ExecutionStatus::Faulted(ProgramError::StackUnderflow);
    }
    let a1 = pop_known(&mut program_context.stack);
    let a2 = pop_known(&mut program_context.stack);
    let out = if a1 == a2 {
        u256::one()
    } else {
        u256::zero()
    };
    push_known(&mut program_context.stack, out);
    proof {
        lemma_pop2_push(old(program_context).stack@, out);
    }
    ExecutionStatus::Running
}

/// AND, OR, XOR: pops two values and pushes the bitwise combination.
fn bitwise(opcode: u8, program_context: &mut ProgramContext) -> (r: ExecutionStatus)
    requires
        old(program_context).well_formed(),
        old(program_context).rom.spec_pc() >= 1,
        opcode == 0x16 || opcode == 0x17 || opcode == 0x18,
    ensures
        final(program_context).well_formed(),
        instruction_transition(
            opcode,
            *old(program_context),
            (old(program_context).rom.spec_pc() - 1) as nat,
            *final(program_context),
            r,
        ),
{
    if program_context.stack.len() < 2 {
        return ExecutionStatus::Faulted(ProgramError::StackUnderflow);
    }
    let a1 = pop_known(&mut program_context.stack);
    let a2 = pop_known(&mut program_context.stack);
    let out = if opcode == 0x16 {
        a1.and(a2)
    } else if opcode == 0x17 {
        a1.or(a2)
    } else {
        a1.xor(a2)
    };
    push_known(&mut program_context.stack, out);
    proof {
        lemma_pop2_push(old(program_context).stack@, out);
    }
    ExecutionStatus::Running
}

/// ADDMOD and MULMOD: pops two operands and a modulus and pushes the
/// true sum or product modulo the modulus; a zero modulus gives zero.
fn modular_arith(opcode: u8, program_context: &mut ProgramContext) -> (r: ExecutionStatus)
    requires
        old(program_context).well_formed(),
        old(program_context).rom.spec_pc() >= 1,
        opcode == 0x08 || opcode == 0x09,
    ensures
        final(program_context).well_formed(),
        instruction_transition(
            opcode,
            *old(program_context),
            (old(program_context).rom.spec_pc() - 1) as nat,
            *final(program_context),
            r,
        ),
{
    if program_context.stack.len() < 3 {
        return ExecutionStatus::Faulted(ProgramError::StackUnderflow);
    }
    let a1 = pop_known(&mut program_context.stack);
    let a2 = pop_known(&mut program_context.stack);
    let a3 = pop_known(&mut program_context.stack);
    let out = if opcode == 0x08 {
        a1.add_mod(a2, a3)
    } else {
        a1.mul_mod(a2, a3)
    };
    push_known(&mut program_context.stack, out);
    proof {
        lemma_pop3_push(old(program_context).stack@, out);
    }
    ExecutionStatus::Running
}

/// SIGNEXTEND: pops a byte index and a value and pushes the value with
/// the indexed byte's sign carried through the higher bytes.
fn signextend(opcode: u8, program_context: &mut ProgramContext) -> (r: ExecutionStatus)
    requires
        old(program_context).well_formed(),
        old(program_context).rom.spec_pc() >= 1,
        opcode == 0x0b,
    ensures
        final(program_context).well_formed(),
        instruction_transition(
            opcode,
            *old(program_context),
            (old(program_context).rom.spec_pc() - 1) as nat,
            *final(program_context),
            r,
        ),
{
    if program_context.stack.len() < 2 {
        return ExecutionStatus::Faulted(ProgramError::StackUnderflow);
    }
    let a1 = pop_known(&mut program_context.stack);
    let a2 = pop_known(&mut program_context.stack);
    let out = a2.sign_extend(a1);
    push_known(&mut program_context.stack, out);
    proof {
        lemma_pop2_push(old(program_context).stack@, out);
    }
    ExecutionStatus::Running
}

/// EXP: pops a base and an exponent and pushes the power, modulo 2^256.
fn exp(opcode: u8, program_context: &mut ProgramContext) -> (r: ExecutionStatus)
    requires
        old(program_context).well_formed(),
        old(program_context).rom.spec_pc() >= 1,
        opcode == 0x0a,
    ensures
        final(program_context).well_formed(),
        instruction_transition(
            opcode,
            *old(program_context),
            (old(program_context).rom.spec_pc() - 1) as nat,
            *final(program_context),
            r,
        ),
{
    if program_context.stack.len() < 2 {
        return ExecutionStatus::Faulted(ProgramError::StackUnderflow);
    }
    let a1 = pop_known(&mut program_context.stack);
    let a2 = pop_known(&mut program_context.stack);
    let out = a1.exp(a2);
    push_known(&mut program_context.stack, out);
    proof {
        lemma_pop2_push(old(program_context).stack@, out);
    }
    ExecutionStatus::Running
}

/// SDIV and SMOD: pops two values and pushes the signed quotient or
/// remainder, truncating toward zero; a zero divisor gives zero.
fn signed_div(opcode: u8, program_context: &mut ProgramContext) -> (r: ExecutionStatus)
    requires
        old(program_context).well_formed(),
        old(program_context).rom.spec_pc() >= 1,
        opcode == 0x05 || opcode == 0x07,
    ensures
        final(program_context).well_formed(),
        instruction_transition(
            opcode,
            *old(program_context),
            (old(program_context).rom.spec_pc() - 1) as nat,
            *final(program_context),
            r,
        ),
{
    if program_context.stack.len() < 2 {
        return ExecutionStatus::Faulted(ProgramError::StackUnderflow);
    }
    let a1 = pop_known(&mut program_context.stack);
    let a2 = pop_known(&mut program_context.stack);
    let out = if opcode == 0x05 {
        a1.sdiv(a2)
    } else {
        a1.smod(a2)
    };
    push_known(&mut program_context.stack, out);
    proof {
        lemma_pop2_push(old(program_context).stack@, out);
    }
    ExecutionStatus::Running
}

/// SLT and SGT: pops two values and compares them under the
/// two's-complement reading, pushing one for true and zero for false.
fn signed_cmp(opcode: u8, program_context: &mut ProgramContext) -> (r: ExecutionStatus)
    requires
        old(program_context).well_formed(),
        old(program_context).rom.spec_pc() >= 1,
        opcode == 0x12 || opcode == 0x13,
    ensures
        final(program_context).well_formed(),
        instruction_transition(
            opcode,
            *old(program_context),
            (old(program_context).rom.spec_pc() - 1) as nat,
            *final(program_context),
            r,
        ),
{
    if program_context.stack.len() < 2 {
        return ExecutionStatus::Faulted(ProgramError::StackUnderflow);
    }
    let a1 = pop_known(&mut program_context.stack);
    let a2 = pop_known(&mut program_context.stack);
    let below = if opcode == 0x12 {
        a1.signed_less_than(&a2)
    } else {
        a2.signed_less_than(&a1)
    };
    let out = if below {
        u256::one()
    } else {
        u256::zero()
    };
    push_known(&mut program_context.stack, out);
    proof {
        lemma_pop2_push(old(program_context).stack@, out);
    }
    ExecutionStatus::Running
}

/// BYTE: pops an index and a value and pushes the indexed big-endian
/// byte of the value, the most significant being byte zero.
fn byte(opcode: u8, program_context: &mut ProgramContext) -> (r: ExecutionStatus)
    requires
        old(program_context).well_formed(),
        old(program_context).rom.spec_pc() >= 1,
        opcode == 0x1a,
    ensures
        final(program_context).well_formed(),
        instruction_transition(
            opcode,
            *old(program_context),
            (old(program_context).rom.spec_pc() - 1) as nat,
            *final(program_context),
            r,
        ),
{
    if program_context.stack.len() < 2 {
        return ExecutionStatus::Faulted(ProgramError::StackUnderflow);
    }
    let a1 = pop_known(&mut program_context.stack);
    let a2 = pop_known(&mut program_context.stack);
    let index = match a1.try_to_usize() {
        Some(i) => {
            if i < 32 {
                Some(i)
            } else {
                None
            }
        },
        None => None,
    };
    let out = match index {
        None => u256::zero(),
        Some(i) => {
            let power = u256::power_of_two(8 * (31 - i));
            proof {
                vstd::arithmetic::power2::lemma_pow2_pos((8 * (31 - i)) as nat);
            }
            a2.div(power).rem(u256::from_u128(256))
        },
    };
    push_known(&mut program_context.stack, out);
    proof {
        lemma_pop2_push(old(program_context).stack@, out);
    }
    ExecutionStatus::Running
}

/// SHL and SHR: pops a shift and a value and pushes the value shifted;
/// a shift of 256 or more clears every bit.
fn shift(opcode: u8, program_context: &mut ProgramContext) -> (r: ExecutionStatus)
    requires
        old(program_context).well_formed(),
        old(program_context).rom.spec_pc() >= 1,
        opcode == 0x1b || opcode == 0x1c || opcode == 0x1d,
    ensures
        final(program_context).well_formed(),
        instruction_transition(
            opcode,
            *old(program_context),
            (old(program_context).rom.spec_pc() - 1) as nat,
            *final(program_context),
            r,
        ),
{
    if program_context.stack.len() < 2 {
        return ExecutionStatus::Faulted(ProgramError::StackUnderflow);
    }
    let a1 = pop_known(&mut program_context.stack);
    let a2 = pop_known(&mut program_context.stack);
    let out = if opcode == 0x1d {
        a2.sar(a1)
    } else {
        let small = match a1.try_to_usize() {
            Some(k) => {
                if k < 256 {
                    Some(k)
                } else {
                    None
                }
            },
            None => None,
        };
        match small {
            None => u256::zero(),
            Some(k) => {
                let power = u256::power_of_two(k);
                proof {
                    vstd::arithmetic::power2::lemma_pow2_pos(k as nat);
                }
                if opcode == 0x1b {
                    a2.mul(power)
                } else {
                    a2.div(power)
                }
            },
        }
    };
    push_known(&mut program_context.stack, out);
    proof {
        lemma_pop2_push(old(program_context).stack@, out);
    }
    ExecutionStatus::Running
}

/// ISZERO and NOT: pops one value and pushes its test or complement.
fn unop(opcode: u8, program_context: &mut ProgramContext) -> (r: ExecutionStatus)
    requires
        old(program_context).well_formed(),
        old(program_context).rom.spec_pc() >= 1,
        opcode == 0x15 || opcode == 0x19,
    ensures
        final(program_context).well_formed(),
        instruction_transition(
            opcode,
            *old(program_context),
            (old(program_context).rom.spec_pc() - 1) as nat,
            *final(program_context),
            r,
        ),
{
    if program_context.stack.len() < 1 {
        return ExecutionStatus::Faulted(ProgramError::StackUnderflow);
    }
    let a1 = pop_known(&mut program_context.stack);
    let out = if opcode == 0x15 {
        if a1.is_zero() {
            u256::one()
        } else {
            u256::zero()
        }
    } else {
        a1.not()
    };
    push_known(&mut program_context.stack, out);
    proof {
        lemma_pop1_push(old(program_context).stack@, out);
    }
    ExecutionStatus::Running
}

/// The scalar environment reads, ADDRESS through SELFBALANCE: pushes
/// one field of the injected environment.
fn env_push(opcode: u8, program_context: &mut ProgramContext) -> (r: ExecutionStatus)
    requires
        old(program_context).well_formed(),
        old(program_context).rom.spec_pc() >= 1,
        is_env_scalar(opcode),
    ensures
        final(program_context).well_formed(),
        instruction_transition(
            opcode,
            *old(program_context),
            (old(program_context).rom.spec_pc() - 1) as nat,
            *final(program_context),
            r,
        ),
{
    if program_context.stack.len() >= 1024 {
        return ExecutionStatus::Faulted(ProgramError::StackOverflow);
    }
    let out = if opcode == 0x30 {
        program_context.environment.address
    } else if opcode == 0x32 {
        program_context.environment.origin
    } else if opcode == 0x33 {
        program_context.environment.caller
    } else if opcode == 0x34 {
        program_context.environment.call_value
    } else if opcode == 0x3a {
        program_context.environment.gas_price
    } else if opcode == 0x41 {
        program_context.environment.coinbase
    } else if opcode == 0x42 {
        program_context.environment.timestamp
    } else if opcode == 0x43 {
        program_context.environment.number
    } else if opcode == 0x44 {
        program_context.environment.difficulty
    } else if opcode == 0x45 {
        program_context.environment.gas_limit
    } else if opcode == 0x46 {
        program_context.environment.chain_id
    } else {
        program_context.environment.balance
    };
    push_known(&mut program_context.stack, out);
    proof {
        lemma_push(old(program_context).stack@, out);
    }
    ExecutionStatus::Running
}

/// CALLDATASIZE and CODESIZE: pushes the length of the call data or of
/// the program.
fn size_push(opcode: u8, program_context: &mut ProgramContext) -> (r: ExecutionStatus)
    requires
        old(program_context).well_formed(),
        old(program_context).rom.spec_pc() >= 1,
        opcode == 0x36 || opcode == 0x38,
    ensures
        final(program_context).well_formed(),
        instruction_transition(
            opcode,
            *old(program_context),
            (old(program_context).rom.spec_pc() - 1) as nat,
            *final(program_context),
            r,
        ),
{
    if program_context.stack.len() >= 1024 {
        return ExecutionStatus::Faulted(ProgramError::StackOverflow);
    }
    let size = if opcode == 0x36 {
        program_context.environment.calldata.len()
    } else {
        program_context.rom.size()
    };
    let out = u256::from_u128(size as u128);
    push_known(&mut program_context.stack, out);
    proof {
        lemma_push(old(program_context).stack@, out);
    }
    ExecutionStatus::Running
}

/// CALLDATALOAD: pops an offset and pushes the 32 bytes of call data
/// there, read big-endian and zero past the data's end.
fn calldataload(opcode: u8, program_context: &mut ProgramContext) -> (r: ExecutionStatus)
    requires
        old(program_context).well_formed(),
        old(program_context).rom.spec_pc() >= 1,
        opcode == 0x35,
    ensures
        final(program_context).well_formed(),
        instruction_transition(
            opcode,
            *old(program_context),
            (old(program_context).rom.spec_pc() - 1) as nat,
            *final(program_context),
            r,
        ),
{
    if program_context.stack.len() < 1 {
        return ExecutionStatus::Faulted(ProgramError::StackUnderflow);
    }
    let a1 = pop_known(&mut program_context.stack);
    let off_opt = a1.try_to_usize();
    let data_len = program_context.environment.calldata.len();
    let mut buf: Vec<u8> = Vec::new();
    let mut k: usize = 0;
    while k < 32
        invariant
            k <= 32,
            program_context.rom == old(program_context).rom,
            program_context.memory == old(program_context).memory,
            program_context.storage == old(program_context).storage,
            program_context.environment == old(program_context).environment,
            program_context.stack@ == old(program_context).stack@.drop_last(),
            program_context.stack.well_formed(),
            old(program_context).stack@.len() >= 1,
            a1 == old(program_context).stack@.last(),
            data_len == program_context.environment.calldata@.len(),
            match off_opt {
                Some(o) => o as nat == a1.as_nat(),
                None => a1.as_nat() > usize::MAX,
            },
            buf@ =~= Seq::new(
                k as nat,
                |k2: int| calldata_byte(program_context.environment, a1.as_nat() + k2),
            ),
        decreases 32 - k,
    {
        let byte: u8 = match off_opt {
            Some(off) => {
                match off.checked_add(k) {
                    Some(position) => {
                        if position < data_len {
                            program_context.environment.calldata[position]
                        } else {
                            0
                        }
                    },
                    None => 0,
                }
            },
            None => 0,
        };
        buf.push(byte);
        proof {
            assert(buf@ =~= Seq::new(
                (k + 1) as nat,
                |k2: int| calldata_byte(program_context.environment, a1.as_nat() + k2),
            ));
        }
        k = k + 1;
    }
    let out = u256::from_be_bytes(buf.as_slice());
    push_known(&mut program_context.stack, out);
    proof {
        lemma_pop1_push(old(program_context).stack@, out);
    }
    ExecutionStatus::Running
}

/// CALLDATACOPY and CODECOPY: pops a memory offset, a source offset and
/// a count, and copies that many source bytes into memory, the source
/// reading zero past its end.
fn datacopy(opcode: u8, program_context: &mut ProgramContext) -> (r: ExecutionStatus)
    requires
        old(program_context).well_formed(),
        old(program_context).rom.spec_pc() >= 1,
        opcode == 0x37 || opcode == 0x39,
    ensures
        final(program_context).well_formed(),
        instruction_transition(
            opcode,
            *old(program_context),
            (old(program_context).rom.spec_pc() - 1) as nat,
            *final(program_context),
            r,
        ),
{
    if program_context.stack.len() < 3 {
        return ExecutionStatus::Faulted(ProgramError::StackUnderflow);
    }
    let ghost s = old(program_context).stack@;
    let a1 = pop_known(&mut program_context.stack);
    let a2 = pop_known(&mut program_context.stack);
    let a3 = pop_known(&mut program_context.stack);
    proof {
        assert(s.drop_last().drop_last().drop_last() =~= s.subrange(0, s.len() - 3));
    }
    let dst = match a1.try_to_usize() {
        Some(d) => d,
        None => {
            return ExecutionStatus::Faulted(ProgramError::MemoryOutOfRange);
        },
    };
    let cnt = match a3.try_to_usize() {
        Some(c) => c,
        None => {
            return ExecutionStatus::Faulted(ProgramError::MemoryOutOfRange);
        },
    };
    if dst > usize::MAX - 64 || cnt > usize::MAX - 64 - dst {
        return ExecutionStatus::Faulted(ProgramError::MemoryOutOfRange);
    }
    let src_opt = a2.try_to_usize();
    let src_len = if opcode == 0x37 {
        program_context.environment.calldata.len()
    } else {
        program_context.rom.size()
    };
    let mut buf: Vec<u8> = Vec::new();
    let mut k: usize = 0;
    while k < cnt
        invariant
            k <= cnt,
            opcode == 0x37 || opcode == 0x39,
            program_context.rom == old(program_context).rom,
            program_context.memory == old(program_context).memory,
            program_context.storage == old(program_context).storage,
            program_context.environment == old(program_context).environment,
            src_len == (if opcode == 0x37 {
                program_context.environment.calldata@.len()
            } else {
                program_context.rom.code().len()
            }),
            match src_opt {
                Some(o) => o as nat == a2.as_nat(),
                None => a2.as_nat() > usize::MAX,
            },
            buf@ =~= Seq::new(
                k as nat,
                |k2: int|
                    if opcode == 0x37 {
                        calldata_byte(program_context.environment, a2.as_nat() + k2)
                    } else {
                        code_byte(program_context.rom.code(), a2.as_nat() + k2)
                    },
            ),
        decreases cnt - k,
    {
        let byte: u8 = match src_opt {
            Some(src) => {
                match src.checked_add(k) {
                    Some(position) => {
                        if position < src_len {
                            if opcode == 0x37 {
                                program_context.environment.calldata[position]
                            } else {
                                match program_context.rom.peek(position) {
                                    Some(code_value) => code_value,
                                    None => 0,
                                }
                            }
                        } else {
                            0
                        }
                    },
                    None => 0,
                }
            },
            None => 0,
        };
        buf.push(byte);
        proof {
            assert(buf@ =~= Seq::new(
                (k + 1) as nat,
                |k2: int|
                    if opcode == 0x37 {
                        calldata_byte(program_context.environment, a2.as_nat() + k2)
                    } else {
                        code_byte(program_context.rom.code(), a2.as_nat() + k2)
                    },
            ));
        }
        k = k + 1;
    }
    program_context.memory.write_bytes(dst, buf.as_slice());
    proof {
        let pre = *old(program_context);
        assert forall|i: int| 0 <= i < a3.as_nat() implies #[trigger] program_context.memory.read_byte(
            a1.as_nat() + i,
        ) == (if opcode == 0x37 {
            calldata_byte(pre.environment, a2.as_nat() + i)
        } else {
            code_byte(pre.rom.code(), a2.as_nat() + i)
        }) by {
            assert(program_context.memory.read_byte(dst + i) == buf@[i]);
        }
        assert forall|j: int|
            j < a1.as_nat() || j >= a1.as_nat() + a3.as_nat() implies program_context.memory.read_byte(
            j,
        ) == pre.memory.read_byte(j) by {
            assert(j < dst || j >= dst + buf@.len());
        }
    }
    ExecutionStatus::Running
}

/// POP: discards the top of the stack.
fn pop(opcode: u8, program_context: &mut ProgramContext) -> (r: ExecutionStatus)
    requires
        old(program_context).well_formed(),
        old(program_context).rom.spec_pc() >= 1,
        opcode == 0x50,
    ensures
        final(program_context).well_formed(),
        instruction_transition(
            opcode,
            *old(program_context),
            (old(program_context).rom.spec_pc() - 1) as nat,
            *final(program_context),
            r,
        ),
{
    if program_context.stack.len() < 1 {
        return ExecutionStatus::Faulted(ProgramError::StackUnderflow);
    }
    let _ = pop_known(&mut program_context.stack);
    ExecutionStatus::Running
}

/// MLOAD: pops an offset and pushes the 32-byte word there.
fn mload(opcode: u8, program_context: &mut ProgramContext) -> (r: ExecutionStatus)
    requires
        old(program_context).well_formed(),
        old(program_context).rom.spec_pc() >= 1,
        opcode == 0x51,
    ensures
        final(program_context).well_formed(),
        instruction_transition(
            opcode,
            *old(program_context),
            (old(program_context).rom.spec_pc() - 1) as nat,
            *final(program_context),
            r,
        ),
{
    if program_context.stack.len() < 1 {
        return ExecutionStatus::Faulted(ProgramError::StackUnderflow);
    }
    let a1 = pop_known(&mut program_context.stack);
    let off = match a1.try_to_usize() {
        Some(o) => o,
        None => {
            return ExecutionStatus::Faulted(ProgramError::MemoryOutOfRange);
        },
    };
    if off > usize::MAX - 64 {
        return ExecutionStatus::Faulted(ProgramError::MemoryOutOfRange);
    }
    let out = program_context.memory.read32(off);
    push_known(&mut program_context.stack, out);
    proof {
        lemma_pop1_push(old(program_context).stack@, out);
        assert(Seq::new(32, |k: int| old(program_context).memory.read_byte(off + k)) =~= Seq::new(
            32,
            |k: int| old(program_context).memory.read_byte(a1.as_nat() + k),
        ));
    }
    ExecutionStatus::Running
}

/// MSTORE and MSTORE8: pops an offset and a value and writes the value
/// there, as a 32-byte word or as its lowest byte.
fn mstore(opcode: u8, program_context: &mut ProgramContext) -> (r: ExecutionStatus)
    requires
        old(program_context).well_formed(),
        old(program_context).rom.spec_pc() >= 1,
        opcode == 0x52 || opcode == 0x53,
    ensures
        final(program_context).well_formed(),
        instruction_transition(
            opcode,
            *old(program_context),
            (old(program_context).rom.spec_pc() - 1) as nat,
            *final(program_context),
            r,
        ),
{
    if program_context.stack.len() < 2 {
        return ExecutionStatus::Faulted(ProgramError::StackUnderflow);
    }
    let ghost s = old(program_context).stack@;
    let a1 = pop_known(&mut program_context.stack);
    let a2 = pop_known(&mut program_context.stack);
    proof {
        assert(s.drop_last().drop_last() =~= s.subrange(0, s.len() - 2));
    }
    let off = match a1.try_to_usize() {
        Some(o) => o,
        None => {
            return ExecutionStatus::Faulted(ProgramError::MemoryOutOfRange);
        },
    };
    if off > usize::MAX - 64 {
        return ExecutionStatus::Faulted(ProgramError::MemoryOutOfRange);
    }
    if opcode == 0x52 {
        program_context.memory.write32(off, a2);
    } else {
        program_context.memory.write8(off, a2.low_byte());
    }
    ExecutionStatus::Running
}

/// SLOAD: pops a key and pushes what storage holds under it.
fn sload(opcode: u8, program_context: &mut ProgramContext) -> (r: ExecutionStatus)
    requires
        old(program_context).well_formed(),
        old(program_context).rom.spec_pc() >= 1,
        opcode == 0x54,
    ensures
        final(program_context).well_formed(),
        instruction_transition(
            opcode,
            *old(program_context),
            (old(program_context).rom.spec_pc() - 1) as nat,
            *final(program_context),
            r,
        ),
{
    if program_context.stack.len() < 1 {
        return ExecutionStatus::Faulted(ProgramError::StackUnderflow);
    }
    let a1 = pop_known(&mut program_context.stack);
    let out = program_context.storage.load(a1);
    push_known(&mut program_context.stack, out);
    ExecutionStatus::Running
}

/// SSTORE: pops a key and a value and stores the value under the key.
fn sstore(opcode: u8, program_context: &mut ProgramContext) -> (r: ExecutionStatus)
    requires
        old(program_context).well_formed(),
        old(program_context).rom.spec_pc() >= 1,
        opcode == 0x55,
    ensures
        final(program_context).well_formed(),
        instruction_transition(
            opcode,
            *old(program_context),
            (old(program_context).rom.spec_pc() - 1) as nat,
            *final(program_context),
            r,
        ),
{
    if program_context.stack.len() < 2 {
        return ExecutionStatus::Faulted(ProgramError::StackUnderflow);
    }
    let ghost s = old(program_context).stack@;
    let a1 = pop_known(&mut program_context.stack);
    let a2 = pop_known(&mut program_context.stack);
    proof {
        assert(s.drop_last().drop_last() =~= s.subrange(0, s.len() - 2));
    }
    program_context.storage.store(a1, a2);
    ExecutionStatus::Running
}

/// JUMP: pops a target, which must be a JUMPDEST, and moves the counter
/// there.
fn jump(opcode: u8, program_context: &mut ProgramContext) -> (r: ExecutionStatus)
    requires
        old(program_context).well_formed(),
        old(program_context).rom.spec_pc() >= 1,
        opcode == 0x56,
    ensures
        final(program_context).well_formed(),
        instruction_transition(
            opcode,
            *old(program_context),
            (old(program_context).rom.spec_pc() - 1) as nat,
            *final(program_context),
            r,
        ),
{
    if program_context.stack.len() < 1 {
        return ExecutionStatus::Faulted(ProgramError::StackUnderflow);
    }
    let a1 = pop_known(&mut program_context.stack);
    jump_to(a1, program_context)
}

/// The shared target check of JUMP and JUMPI: the target must lie in
/// the ROM and hold the JUMPDEST byte.
fn jump_to(target: u256, program_context: &mut ProgramContext) -> (r: ExecutionStatus)
    requires
        old(program_context).well_formed(),
    ensures
        final(program_context).well_formed(),
        final(program_context).rom.code() == old(program_context).rom.code(),
        data_unchanged(*old(program_context), *final(program_context)),
        ({
            let t = target.as_nat();
            let code = old(program_context).rom.code();
            if t < code.len() && code[t as int] == 0x5b {
                r == ExecutionStatus::Running && final(program_context).rom.spec_pc() == t
            } else {
                r == ExecutionStatus::Faulted(ProgramError::InvalidJump)
                    && final(program_context).rom.spec_pc() == old(program_context).rom.spec_pc()
            }
        }),
{
    let size = program_context.rom.size();
    let t = match target.try_to_usize() {
        Some(t) => t,
        None => {
            return ExecutionStatus::Faulted(ProgramError::InvalidJump);
        },
    };
    if t >= size {
        return ExecutionStatus::Faulted(ProgramError::InvalidJump);
    }
    match program_context.rom.peek(t) {
        Some(byte) => {
            if byte == 0x5b {
                program_context.rom.jump(t);
                ExecutionStatus::Running
            } else {
                ExecutionStatus::Faulted(ProgramError::InvalidJump)
            }
        },
        None => ExecutionStatus::Faulted(ProgramError::InvalidJump),
    }
}

/// JUMPI: pops a target and a condition and jumps if the condition is
/// not zero.
fn jumpi(opcode: u8, program_context: &mut ProgramContext) -> (r: ExecutionStatus)
    requires
        old(program_context).well_formed(),
        old(program_context).rom.spec_pc() >= 1,
        opcode == 0x57,
    ensures
        final(program_context).well_formed(),
        instruction_transition(
            opcode,
            *old(program_context),
            (old(program_context).rom.spec_pc() - 1) as nat,
            *final(program_context),
            r,
        ),
{
    if program_context.stack.len() < 2 {
        return ExecutionStatus::Faulted(ProgramError::StackUnderflow);
    }
    let ghost s = old(program_context).stack@;
    let a1 = pop_known(&mut program_context.stack);
    let a2 = pop_known(&mut program_context.stack);
    proof {
        assert(s.drop_last().drop_last() =~= s.subrange(0, s.len() - 2));
    }
    if a2.is_zero() {
        ExecutionStatus::Running
    } else {
        jump_to(a1, program_context)
    }
}

/// PC: pushes the counter of the instruction itself.
fn pc(opcode: u8, program_context: &mut ProgramContext) -> (r: ExecutionStatus)
    requires
        old(program_context).well_formed(),
        old(program_context).rom.spec_pc() >= 1,
        opcode == 0x58,
    ensures
        final(program_context).well_formed(),
        instruction_transition(
            opcode,
            *old(program_context),
            (old(program_context).rom.spec_pc() - 1) as nat,
            *final(program_context),
            r,
        ),
{
    if program_context.stack.len() >= 1024 {
        return ExecutionStatus::Faulted(ProgramError::StackOverflow);
    }
    let position = program_context.rom.pc();
    let out = u256::from_u128((position - 1) as u128);
    push_known(&mut program_context.stack, out);
    proof {
        lemma_push(old(program_context).stack@, out);
    }
    ExecutionStatus::Running
}

/// MSIZE: pushes the logical memory size.
fn msize(opcode: u8, program_context: &mut ProgramContext) -> (r: ExecutionStatus)
    requires
        old(program_context).well_formed(),
        old(program_context).rom.spec_pc() >= 1,
        opcode == 0x59,
    ensures
        final(program_context).well_formed(),
        instruction_transition(
            opcode,
            *old(program_context),
            (old(program_context).rom.spec_pc() - 1) as nat,
            *final(program_context),
            r,
        ),
{
    if program_context.stack.len() >= 1024 {
        return ExecutionStatus::Faulted(ProgramError::StackOverflow);
    }
    let size = program_context.memory.msize();
    let out = u256::from_u128(size as u128);
    push_known(&mut program_context.stack, out);
    proof {
        lemma_push(old(program_context).stack@, out);
    }
    ExecutionStatus::Running
}

/// JUMPDEST: the legal jump target marker; does nothing.
fn jumpdest(opcode: u8, program_context: &mut ProgramContext) -> (r: ExecutionStatus)
    requires
        old(program_context).well_formed(),
        old(program_context).rom.spec_pc() >= 1,
        opcode == 0x5b,
    ensures
        final(program_context).well_formed(),
        instruction_transition(
            opcode,
            *old(program_context),
            (old(program_context).rom.spec_pc() - 1) as nat,
            *final(program_context),
            r,
        ),
{
    ExecutionStatus::Running
}

/// PUSH1..PUSH32: reads the immediate bytes big-endian and pushes the
/// value; a ROM too short for the immediate is a fatal fault.
fn push(opcode: u8, program_context: &mut ProgramContext) -> (r: ExecutionStatus)
    requires
        old(program_context).well_formed(),
        old(program_context).rom.spec_pc() >= 1,
        0x60 <= opcode <= 0x7f,
    ensures
        final(program_context).well_formed(),
        instruction_transition(
            opcode,
            *old(program_context),
            (old(program_context).rom.spec_pc() - 1) as nat,
            *final(program_context),
            r,
        ),
{
    let width: usize = (opcode - 0x5f) as usize;
    let ghost pc1 = old(program_context).rom.spec_pc();
    let ghost code = old(program_context).rom.code();
    let mut data: Vec<u8> = Vec::new();
    let mut k: usize = 0;
    while k < width
        invariant
            program_context.well_formed(),
            k <= width,
            0x60 <= opcode <= 0x7f,
            width == imm_width(opcode),
            width <= 32,
            pc1 == old(program_context).rom.spec_pc(),
            code == old(program_context).rom.code(),
            program_context.rom.code() == code,
            program_context.rom.spec_pc() == pc1 + k,
            pc1 + k <= code.len(),
            data@ =~= code.subrange(pc1 as int, (pc1 + k) as int),
            program_context.stack == old(program_context).stack,
            program_context.memory == old(program_context).memory,
            program_context.storage == old(program_context).storage,
            program_context.environment == old(program_context).environment,
        decreases width - k,
    {
        match program_context.rom.next_byte() {
            Ok(b) => {
                data.push(b);
                proof {
                    assert(data@ =~= code.subrange(pc1 as int, (pc1 + k + 1) as int));
                }
                k = k + 1;
            },
            Err(e) => {
                return ExecutionStatus::Faulted(e);
            },
        }
    }
    let out = u256::from_be_bytes(data.as_slice());
    match program_context.stack.push(out) {
        Ok(_) => {
            proof {
                lemma_push(old(program_context).stack@, out);
            }
            ExecutionStatus::Running
        },
        Err(_) => ExecutionStatus::Faulted(ProgramError::StackOverflow),
    }
}

/// DUP1..DUP16: copies the n-th value from the top onto the top.
fn dup(opcode: u8, program_context: &mut ProgramContext) -> (r: ExecutionStatus)
    requires
        old(program_context).well_formed(),
        old(program_context).rom.spec_pc() >= 1,
        0x80 <= opcode <= 0x8f,
    ensures
        final(program_context).well_formed(),
        instruction_transition(
            opcode,
            *old(program_context),
            (old(program_context).rom.spec_pc() - 1) as nat,
            *final(program_context),
            r,
        ),
{
    let n: usize = (opcode - 0x7f) as usize;
    match program_context.stack.dup(n) {
        Ok(_) => ExecutionStatus::Running,
        Err(e) => ExecutionStatus::Faulted(e),
    }
}

/// SWAP1..SWAP16: exchanges the top with the value n below it.
fn swap(opcode: u8, program_context: &mut ProgramContext) -> (r: ExecutionStatus)
    requires
        old(program_context).well_formed(),
        old(program_context).rom.spec_pc() >= 1,
        0x90 <= opcode <= 0x9f,
    ensures
        final(program_context).well_formed(),
        instruction_transition(
            opcode,
            *old(program_context),
            (old(program_context).rom.spec_pc() - 1) as nat,
            *final(program_context),
            r,
        ),
{
    let n: usize = (opcode - 0x8f) as usize;
    match program_context.stack.swap(n) {
        Ok(_) => ExecutionStatus::Running,
        Err(e) => ExecutionStatus::Faulted(e),
    }
}

/// RETURN and REVERT: pops an offset and a size and halts, normally or
/// as a revert, with the memory bytes there as return data.
fn ret(opcode: u8, program_context: &mut ProgramContext) -> (r: ExecutionStatus)
    requires
        old(program_context).well_formed(),
        old(program_context).rom.spec_pc() >= 1,
        opcode == 0xf3 || opcode == 0xfd,
    ensures
        final(program_context).well_formed(),
        instruction_transition(
            opcode,
            *old(program_context),
            (old(program_context).rom.spec_pc() - 1) as nat,
            *final(program_context),
            r,
        ),
{
    if program_context.stack.len() < 2 {
        return ExecutionStatus::Faulted(ProgramError::StackUnderflow);
    }
    let ghost s = old(program_context).stack@;
    let a1 = pop_known(&mut program_context.stack);
    let a2 = pop_known(&mut program_context.stack);
    proof {
        assert(s.drop_last().drop_last() =~= s.subrange(0, s.len() - 2));
    }
    let off = match a1.try_to_usize() {
        Some(o) => o,
        None => {
            return ExecutionStatus::Faulted(ProgramError::MemoryOutOfRange);
        },
    };
    let sz = match a2.try_to_usize() {
        Some(z) => z,
        None => {
            return ExecutionStatus::Faulted(ProgramError::MemoryOutOfRange);
        },
    };
    if off > usize::MAX - 64 || sz > usize::MAX - 64 - off {
        return ExecutionStatus::Faulted(ProgramError::MemoryOutOfRange);
    }
    let data = program_context.memory.read_range(off, sz);
    proof {
        assert(data@ =~= Seq::new(
            a2.as_nat(),
            |k: int| old(program_context).memory.read_byte(a1.as_nat() + k),
        ));
    }
    if opcode == 0xf3 {
        ExecutionStatus::HaltedOk(data)
    } else {
        ExecutionStatus::HaltedRevert(data)
    }
}

/// INVALID: the explicit invalid instruction; a fatal fault.
fn invalid(opcode: u8, program_context: &mut ProgramContext) -> (r: ExecutionStatus)
    requires
        old(program_context).well_formed(),
        old(program_context).rom.spec_pc() >= 1,
        opcode == 0xfe,
    ensures
        final(program_context).well_formed(),
        instruction_transition(
            opcode,
            *old(program_context),
            (old(program_context).rom.spec_pc() - 1) as nat,
            *final(program_context),
            r,
        ),
{
    ExecutionStatus::Faulted(ProgramError::InvalidOpcode)
}

/// Any defined instruction this machine does not carry out.
fn unsupported(opcode: u8, program_context: &mut ProgramContext) -> (r: ExecutionStatus)
    requires
        old(program_context).well_formed(),
        old(program_context).rom.spec_pc() >= 1,
        is_defined_opcode(opcode),
        !is_supported_opcode(opcode),
    ensures
        final(program_context).well_formed(),
        instruction_transition(
            opcode,
            *old(program_context),
            (old(program_context).rom.spec_pc() - 1) as nat,
            *final(program_context),
            r,
        ),
{
    ExecutionStatus::Faulted(ProgramError::UnsupportedOpcode)
}

impl Instruction {
    /// Carries the instruction out against the context, which must just
    /// have fetched its opcode byte.
    pub fn execute(&self, program_context: &mut ProgramContext) -> (r: ExecutionStatus)
        requires
            old(program_context).well_formed(),
            old(program_context).rom.spec_pc() >= 1,
            is_defined_opcode(self.value),
        ensures
            final(program_context).well_formed(),
            instruction_transition(
                self.value,
                *old(program_context),
                (old(program_context).rom.spec_pc() - 1) as nat,
                *final(program_context),
                r,
            ),
    {
        let v = self.value;
        if v == 0x00 {
            crate::execution::instructions::stop(v, program_context)
        } else if v == 0x01 {
            crate::execution::instructions::add(v, program_context)
        } else if v == 0x02 {
            crate::execution::instructions::mul(v, program_context)
        } else if v == 0x03 {
            crate::execution::instructions::sub(v, program_context)
        } else if v == 0x04 {
            crate::execution::instructions::div(v, program_context)
        } else if v == 0x05 || v == 0x07 {
            crate::execution::instructions::signed_div(v, program_context)
        } else if v == 0x06 {
            crate::execution::instructions::f_mod(v, program_context)
        } else if v == 0x08 || v == 0x09 {
            crate::execution::instructions::modular_arith(v, program_context)
        } else if v == 0x0a {
            crate::execution::instructions::exp(v, program_context)
        } else if v == 0x0b {
            crate::execution::instructions::signextend(v, program_context)
        } else if v == 0x10 {
            crate::execution::instructions::lt(v, program_context)
        } else if v == 0x11 {
            crate::execution::instructions::gt(v, program_context)
        } else if v == 0x12 || v == 0x13 {
            crate::execution::instructions::signed_cmp(v, program_context)
        } else if v == 0x14 {
            crate::execution::instructions::eq(v, program_context)
        } else if v == 0x30 || v == 0x32 || v == 0x33 || v == 0x34 || v == 0x3a || (0x41 <= v && v
            <= 0x47) {
            crate::execution::instructions::env_push(v, program_context)
        } else if v == 0x35 {
            crate::execution::instructions::calldataload(v, program_context)
        } else if v == 0x36 || v == 0x38 {
            crate::execution::instructions::size_push(v, program_context)
        } else if v == 0x37 || v == 0x39 {
            crate::execution::instructions::datacopy(v, program_context)
        } else if v == 0x15 || v == 0x19 {
            crate::execution::instructions::unop(v, program_context)
        } else if v == 0x16 || v == 0x17 || v == 0x18 {
            crate::execution::instructions::bitwise(v, program_context)
        } else if v == 0x1a {
            crate::execution::instructions::byte(v, program_context)
        } else if v == 0x1b || v == 0x1c || v == 0x1d {
            crate::execution::instructions::shift(v, program_context)
        } else if v == 0x50 {
            crate::execution::instructions::pop(v, program_context)
        } else if v == 0x51 {
            crate::execution::instructions::mload(v, program_context)
        } else if v == 0x52 || v == 0x53 {
            crate::execution::instructions::mstore(v, program_context)
        } else if v == 0x54 {
            crate::execution::instructions::sload(v, program_context)
        } else if v == 0x55 {
            crate::execution::instructions::sstore(v, program_context)
        } else if v == 0x56 {
            crate::execution::instructions::jump(v, program_context)
        } else if v == 0x57 {
            crate::execution::instructions::jumpi(v, program_context)
        } else if v == 0x58 {
            crate::execution::instructions::pc(v, program_context)
        } else if v == 0x59 {
            crate::execution::instructions::msize(v, program_context)
        } else if v == 0x5b {
            crate::execution::instructions::jumpdest(v, program_context)
        } else if 0x60 <= v && v <= 0x7f {
            crate::execution::instructions::push(v, program_context)
        } else if 0x80 <= v && v <= 0x8f {
            crate::execution::instructions::dup(v, program_context)
        } else if 0x90 <= v && v <= 0x9f {
            crate::execution::instructions::swap(v, program_context)
        } else if v == 0xf3 || v == 0xfd {
            crate::execution::instructions::ret(v, program_context)
        } else if v == 0xfe {
            crate::execution::instructions::invalid(v, program_context)
        } else {
            crate::execution::instructions::unsupported(v, program_context)
        }
    }
}

/// Two contexts that cannot be told apart: same program, same counter,
/// same stack, memory and storage.
pub open spec fn same_state(a: ProgramContext, b: ProgramContext) -> bool {
    &&& b.rom.code() == a.rom.code()
    &&& b.rom.spec_pc() == a.rom.spec_pc()
    &&& b.stack@ == a.stack@
    &&& b.memory@ == a.memory@
    &&& b.storage@ == a.storage@
    &&& b.environment == a.environment
}

/// The whole behaviour of one fetch/decode/execute step, from the state
/// before the fetch: running off the end of the ROM is a normal halt,
/// an unknown byte is a fault, and a known byte behaves as
/// [`instruction_transition`] says.
pub open spec fn step_transition(
    pre: ProgramContext,
    post: ProgramContext,
    r: ExecutionStatus,
) -> bool {
    let code = pre.rom.code();
    let pc = pre.rom.spec_pc();
    if pc >= code.len() {
        &&& r matches ExecutionStatus::HaltedOk(d) && d@ =~= Seq::<u8>::empty()
        &&& same_state(pre, post)
    } else if !is_defined_opcode(code[pc as int]) {
        &&& r == ExecutionStatus::Faulted(ProgramError::InvalidOpcode)
        &&& post.rom.code() == code
        &&& post.rom.spec_pc() == pc + 1
        &&& post.environment == pre.environment
        &&& data_unchanged(pre, post)
    } else {
        instruction_transition(code[pc as int], pre, pc, post, r)
    }
}

/// What at most `n` steps can make of a state: either every step
/// reported Running and the budget ran out, or some step ended the run
/// and its report is the result.
pub open spec fn runs_to(
    pre: ProgramContext,
    post: ProgramContext,
    r: ExecutionStatus,
    n: nat,
) -> bool
    decreases n,
{
    if n == 0 {
        same_state(pre, post) && r matches ExecutionStatus::Running
    } else {
        exists|mid: ProgramContext, r1: ExecutionStatus|
            {
                &&& #[trigger] step_transition(pre, mid, r1)
                &&& ((r1 matches ExecutionStatus::Running) ==> runs_to(mid, post, r, (n - 1) as nat))
                &&& (!(r1 matches ExecutionStatus::Running) ==> same_state(mid, post) && r == r1)
            }
    }
}

impl ProgramContext {
    /// One step: fetches the byte under the counter, looks it up and
    /// carries it out. Running off the end of the ROM is a normal halt.
    pub fn step(&mut self) -> (r: ExecutionStatus)
        requires
            old(self).well_formed(),
        ensures
            final(self).well_formed(),
            step_transition(*old(self), *final(self), r),
    {
        let opcode = match self.rom.next_byte() {
            Ok(b) => b,
            Err(_) => {
                return ExecutionStatus::HaltedOk(Vec::new());
            },
        };
        match instruction_for(opcode) {
            Some(ins) => ins.execute(self),
            None => ExecutionStatus::Faulted(ProgramError::InvalidOpcode),
        }
    }

    /// Steps until the program halts or faults, or until `max_steps`
    /// steps have reported Running; the machine itself has no step
    /// bound, so the caller chooses how long to drive it.
    pub fn run(&mut self, max_steps: usize) -> (r: ExecutionStatus)
        requires
            old(self).well_formed(),
        ensures
            final(self).well_formed(),
            runs_to(*old(self), *final(self), r, max_steps as nat),
        decreases max_steps,
    {
        if max_steps == 0 {
            return ExecutionStatus::Running;
        }
        let s = self.step();
        let ghost mid = *self;
        match s {
            ExecutionStatus::Running => {
                let r2 = self.run(max_steps - 1);
                proof {
                    assert(step_transition(*old(self), mid, ExecutionStatus::Running));
                }
                r2
            },
            other => {
                proof {
                    assert(step_transition(*old(self), mid, other));
                }
                other
            },
        }
    }
}

/// After a step that reported Running on a defined opcode, the stack
/// depth has moved by exactly the declared effect of the instruction:
/// the new depth is the old depth minus alpha plus delta.
pub proof fn lemma_step_stack_effect(pre: ProgramContext, post: ProgramContext, r: ExecutionStatus)
    requires
        step_transition(pre, post, r),
        r matches ExecutionStatus::Running,
        pre.rom.spec_pc() < pre.rom.code().len(),
    ensures
        ({
            let b = pre.rom.code()[pre.rom.spec_pc() as int];
            &&& is_defined_opcode(b)
            &&& post.stack@.len() + alpha(b) == pre.stack@.len() + delta(b)
        }),
{
}

/// One line of a disassembly: the opcode byte, the table's mnemonic if
/// the byte names an instruction, and the immediate bytes that followed
/// it. The raw bytes are kept, so a disassembly can be reassembled into
/// the ROM it came from.
pub struct DisasmItem {
    pub opcode: u8,
    pub mnemonic: Option<&'static str>,
    pub immediates: Vec<u8>,
}

/// Reassembling a disassembly: each line contributes its opcode byte
/// followed by its immediate bytes.
pub open spec fn items_bytes(items: Seq<DisasmItem>) -> Seq<u8>
    decreases items.len(),
{
    if items.len() == 0 {
        Seq::empty()
    } else {
        items_bytes(items.drop_last()) + seq![items.last().opcode] + items.last().immediates@
    }
}

/// A run of spaces.
pub open spec fn spaces(n: nat) -> Seq<char> {
    Seq::new(n, |i: int| ' ')
}

/// A mnemonic padded with spaces to the six-character column.
pub open spec fn padded_mnemonic(m: Seq<char>) -> Seq<char> {
    if m.len() >= 6 {
        m
    } else {
        m + spaces((6 - m.len()) as nat)
    }
}

/// The text of a line's immediate bytes: each as `  0x` and two
/// hexadecimal digits.
pub open spec fn immediates_text(imms: Seq<u8>) -> Seq<char>
    decreases imms.len(),
{
    if imms.len() == 0 {
        Seq::empty()
    } else {
        immediates_text(imms.drop_last()) + "  0x"@ + hex_chars_of(seq![imms.last()])
    }
}

/// The text of one disassembly line: the padded mnemonic, or the raw
/// opcode byte as hex for a byte that names no instruction, followed by
/// the immediate bytes.
pub open spec fn line_text(item: DisasmItem) -> Seq<char> {
    (match item.mnemonic {
        Some(m) => "  "@ + padded_mnemonic(m@),
        None => "  0x"@ + hex_chars_of(seq![item.opcode]),
    }) + immediates_text(item.immediates@)
}

impl DisasmItem {
    /// The printable line for this item.
    pub fn render(&self) -> (line: String)
        ensures
            line@ == line_text(*self),
    {
        let mut line = String::new();
        match self.mnemonic {
            Some(m) => {
                line.append("  ");
                line.append(m);
                let width = m.unicode_len();
                let mut n = width;
                proof {
                    reveal_strlit(" ");
                    assert(" "@ =~= spaces(1));
                    assert(line@ =~= "  "@ + m@ + spaces((n - width) as nat));
                }
                while n < 6
                    invariant
                        width <= n,
                        width >= 6 ==> n == width,
                        width < 6 ==> n <= 6,
                        width == m@.len(),
                        line@ =~= "  "@ + m@ + spaces((n - width) as nat),
                        " "@ =~= spaces(1),
                    decreases 6 - n,
                {
                    line.append(" ");
                    proof {
                        assert(spaces((n - width) as nat) + spaces(1) =~= spaces(
                            (n + 1 - width) as nat,
                        ));
                    }
                    n = n + 1;
                }
                proof {
                    if width >= 6 {
                        assert(m@ + spaces(0) =~= m@);
                        assert(line@ =~= "  "@ + padded_mnemonic(m@));
                    } else {
                        assert(line@ =~= "  "@ + padded_mnemonic(m@));
                    }
                }
            },
            None => {
                line.append("  0x");
                let mut one: Vec<u8> = Vec::new();
                one.push(self.opcode);
                let hex = super::program_context::encode_hex(one.as_slice());
                line.append(hex.as_str());
                proof {
                    assert(one@ =~= seq![self.opcode]);
                }
            },
        }
        let ghost head = line@;
        let count = self.immediates.len();
        let mut i: usize = 0;
        while i < count
            invariant
                i <= count,
                count == self.immediates@.len(),
                line@ =~= head + immediates_text(self.immediates@.subrange(0, i as int)),
            decreases count - i,
        {
            line.append("  0x");
            let mut one: Vec<u8> = Vec::new();
            one.push(self.immediates[i]);
            let hex = super::program_context::encode_hex(one.as_slice());
            line.append(hex.as_str());
            proof {
                let prefix = self.immediates@.subrange(0, i + 1);
                assert(prefix.drop_last() =~= self.immediates@.subrange(0, i as int));
                assert(one@ =~= seq![prefix.last()]);
                assert(line@ =~= head + immediates_text(prefix));
            }
            i = i + 1;
        }
        proof {
            assert(self.immediates@.subrange(0, count as int) =~= self.immediates@);
        }
        line
    }
}

impl Rom {
    /// Walks the ROM from the counter to the end, one instruction per
    /// line, taking each opcode's immediate bytes with it; an opcode cut
    /// short by the end of the ROM keeps its partial immediate.
    /// Reassembling the lines gives back exactly the bytes walked, so a
    /// disassembly from the start reproduces the whole ROM.
    pub fn disassemble(&mut self) -> (items: Vec<DisasmItem>)
        requires
            old(self).well_formed(),
        ensures
            final(self).well_formed(),
            final(self).code() == old(self).code(),
            final(self).spec_pc() == old(self).code().len(),
            items_bytes(items@) == old(self).code().subrange(
                old(self).spec_pc() as int,
                old(self).code().len() as int,
            ),
            forall|i: int|
                0 <= i < items@.len() ==> ((#[trigger] items@[i].mnemonic) is Some
                    <==> is_defined_opcode(items@[i].opcode)),
    {
        let mut items: Vec<DisasmItem> = Vec::new();
        loop
            invariant
                self.well_formed(),
                self.code() == old(self).code(),
                old(self).spec_pc() <= self.spec_pc(),
                items_bytes(items@) =~= old(self).code().subrange(
                    old(self).spec_pc() as int,
                    self.spec_pc() as int,
                ),
                forall|i: int|
                    0 <= i < items@.len() ==> ((#[trigger] items@[i].mnemonic) is Some
                        <==> is_defined_opcode(items@[i].opcode)),
            ensures
                self.well_formed(),
                self.code() == old(self).code(),
                self.spec_pc() == self.code().len(),
                items_bytes(items@) =~= old(self).code().subrange(
                    old(self).spec_pc() as int,
                    self.spec_pc() as int,
                ),
                forall|i: int|
                    0 <= i < items@.len() ==> ((#[trigger] items@[i].mnemonic) is Some
                        <==> is_defined_opcode(items@[i].opcode)),
            decreases self.code().len() - self.spec_pc(),
        {
            let ghost items_before = items@;
            let ghost pc_op = self.spec_pc();
            let op = match self.next_byte() {
                Ok(b) => b,
                Err(_) => {
                    break ;
                },
            };
            let mut width: usize = 0;
            let mut mnemonic: Option<&'static str> = None;
            match instruction_for(op) {
                Some(ins) => {
                    width = ins.rom_items_used as usize;
                    mnemonic = Some(ins.mnemonic);
                },
                None => {
                },
            }
            let mut imms: Vec<u8> = Vec::new();
            let mut k: usize = 0;
            let ghost pc_imm = self.spec_pc();
            while k < width
                invariant
                    self.well_formed(),
                    self.code() == old(self).code(),
                    k <= width,
                    width <= 32,
                    pc_imm == pc_op + 1,
                    pc_op < self.code().len(),
                    self.spec_pc() == pc_imm + k,
                    self.spec_pc() <= self.code().len(),
                    imms@ =~= self.code().subrange(pc_imm as int, self.spec_pc() as int),
                decreases width - k,
            {
                match self.next_byte() {
                    Ok(b) => {
                        imms.push(b);
                        proof {
                            assert(imms@ =~= self.code().subrange(
                                pc_imm as int,
                                self.spec_pc() as int,
                            ));
                        }
                        k = k + 1;
                    },
                    Err(_) => {
                        break ;
                    },
                }
            }
            items.push(DisasmItem { opcode: op, mnemonic, immediates: imms });
            proof {
                assert(items@.drop_last() =~= items_before);
                assert(items_bytes(items@) == items_bytes(items_before) + seq![op]
                    + items@.last().immediates@);
                assert(seq![op] + items@.last().immediates@ =~= self.code().subrange(
                    pc_op as int,
                    self.spec_pc() as int,
                ));
                assert(items_bytes(items@) =~= old(self).code().subrange(
                    old(self).spec_pc() as int,
                    self.spec_pc() as int,
                ));
            }
        }
        proof {
            assert(items_bytes(items@) == old(self).code().subrange(
                old(self).spec_pc() as int,
                old(self).code().len() as int,
            ));
        }
        items
    }
}

} // verus!
