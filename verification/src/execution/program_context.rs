//! The execution state of one program: the ROM with its program counter,
//! the bounded operand stack, the byte-addressable memory, the persistent
//! storage map, and the fault taxonomy, together with the hex codec that
//! turns program text into ROM bytes.

use super::types::{be_bytes_of, be_val, u256};
use vstd::arithmetic::div_mod::{
    lemma_fundamental_div_mod, lemma_mod_division_less_than_divisor, lemma_mod_multiples_basic,
};
use vstd::prelude::*;
use vstd::string::StringSliceAdditionalSpecFns;

verus! {

/// Whether a byte of program text is a hexadecimal digit, in either
/// case.
pub open spec fn is_hex_digit_byte(b: u8) -> bool {
    (0x30 <= b <= 0x39) || (0x61 <= b <= 0x66) || (0x41 <= b <= 0x46)
}

/// The value of a hexadecimal digit byte.
pub open spec fn hex_digit_val(b: u8) -> nat {
    if 0x30 <= b <= 0x39 {
        (b - 0x30) as nat
    } else if 0x61 <= b <= 0x66 {
        (b - 0x61 + 10) as nat
    } else if 0x41 <= b <= 0x46 {
        (b - 0x41 + 10) as nat
    } else {
        0
    }
}

/// The bytes that well-formed program text stands for: one byte per
/// digit pair.
pub open spec fn hex_decoded(s: Seq<u8>) -> Seq<u8> {
    Seq::new(
        s.len() / 2,
        |k: int| (hex_digit_val(s[2 * k]) * 16 + hex_digit_val(s[2 * k + 1])) as u8,
    )
}

/// The lowercase hexadecimal digit for a value below sixteen.
pub open spec fn hex_char_of(n: int) -> char {
    "0123456789abcdef"@[n]
}

/// The text encoding of bytes: two lowercase hexadecimal digits per
/// byte, in order.
pub open spec fn hex_chars_of(bs: Seq<u8>) -> Seq<char> {
    Seq::new(
        bs.len() * 2,
        |i: int|
            if i % 2 == 0 {
                hex_char_of(bs[i / 2] as int / 16)
            } else {
                hex_char_of(bs[i / 2] as int % 16)
            },
    )
}

/// The ways a step or the surrounding tooling can fail. Normal halts
/// (STOP, RETURN, REVERT) are not errors and are not represented here.
#[derive(Debug, Clone, Copy, PartialEq, Eq, Structural)]
pub enum ProgramError {
    /// A push would bring the stack past its limit of 1024 values.
    StackOverflow,
    /// A pop, peek, swap or duplicate reached below the stack bottom.
    StackUnderflow,
    /// The fetched byte names no instruction, or is the explicit
    /// INVALID opcode.
    InvalidOpcode,
    /// A jump target that is not a JUMPDEST.
    InvalidJump,
    /// A memory offset beyond what the machine can address.
    MemoryOutOfRange,
    /// A defined instruction whose semantics needs context this machine
    /// does not model: world state, call data, hashing, gas, or a
    /// cross-contract call.
    UnsupportedOpcode,
    /// Program text that is not a sequence of hexadecimal digit pairs.
    HexDecode,
    /// A read past the end of the ROM in the middle of an instruction.
    ROMOutOfBoundsError(ROMOutOfBoundsError),
}

/// Where a ROM read went out of bounds: the index asked for, against a
/// ROM whose valid indices end below `size`.
#[derive(Debug, Clone, Copy, PartialEq, Eq, Structural)]
pub struct ROMOutOfBoundsError {
    pub index: usize,
    pub size: usize,
}

// ---------------------------------------------------------------------
// Hex codec
// ---------------------------------------------------------------------

/// Whether a byte sequence is well-formed program text: an even number
/// of hexadecimal digits.
pub open spec fn valid_hex(s: Seq<u8>) -> bool {
    s.len() % 2 == 0 && forall|j: int| 0 <= j < s.len() ==> is_hex_digit_byte(#[trigger] s[j])
}

/// The value of one hexadecimal digit, if the byte is one.
fn hex_val(b: u8) -> (r: Option<u8>)
    ensures
        r is Some <==> is_hex_digit_byte(b),
        r matches Some(v) ==> v as nat == hex_digit_val(b),
{
    if 0x30 <= b && b <= 0x39 {
        Some(b - 0x30)
    } else if 0x61 <= b && b <= 0x66 {
        Some(b - 0x61 + 10)
    } else if 0x41 <= b && b <= 0x46 {
        Some(b - 0x41 + 10)
    } else {
        None
    }
}

/// Decodes program text: each pair of hexadecimal digits becomes one ROM
/// byte, in order. Rejects text of odd length or with any other
/// character.
pub fn decode_hex(s: &str) -> (r: Result<Vec<u8>, ProgramError>)
    ensures
        r is Ok <==> valid_hex(s.spec_bytes()),
        r matches Ok(v) ==> v@ == hex_decoded(s.spec_bytes()),
        r matches Err(e) ==> e == ProgramError::HexDecode,
{
    let bytes: &[u8] = s.as_bytes();
    let n: usize = bytes.len();
    if n % 2 != 0 {
        return Err(ProgramError::HexDecode);
    }
    let mut out: Vec<u8> = Vec::new();
    let mut i: usize = 0;
    while i < n
        invariant
            bytes@ == s.spec_bytes(),
            n == bytes@.len(),
            n % 2 == 0,
            i % 2 == 0,
            i <= n,
            forall|j: int| 0 <= j < i ==> is_hex_digit_byte(#[trigger] bytes@[j]),
            out@.len() == i / 2,
            forall|k: int|
                0 <= k < i / 2 ==> out@[k] as nat == hex_digit_val(#[trigger] bytes@[2 * k]) * 16
                    + hex_digit_val(bytes@[2 * k + 1]),
        decreases n - i,
    {
        let hi = hex_val(bytes[i]);
        let lo = hex_val(bytes[i + 1]);
        match (hi, lo) {
            (Some(h), Some(l)) => {
                out.push(h * 16 + l);
            },
            _ => {
                return Err(ProgramError::HexDecode);
            },
        }
        i = i + 2;
    }
    proof {
        assert(out@ =~= hex_decoded(s.spec_bytes()));
    }
    Ok(out)
}

/// Encodes bytes as program text: two lowercase hexadecimal digits per
/// byte, in order.
pub fn encode_hex(bytes: &[u8]) -> (r: String)
    ensures
        r@ == hex_chars_of(bytes@),
{
    let digits: &str = "0123456789abcdef";
    proof {
        reveal_strlit("0123456789abcdef");
        assert(digits@.len() == 16);
        assert(digits.is_ascii());
    }
    let mut s = String::new();
    let n: usize = bytes.len();
    let mut i: usize = 0;
    while i < n
        invariant
            digits@ =~= "0123456789abcdef"@,
            digits.is_ascii(),
            digits@.len() == 16,
            n == bytes@.len(),
            i <= n,
            s@ =~= hex_chars_of(bytes@.subrange(0, i as int)),
        decreases n - i,
    {
        let b = bytes[i];
        let hi: usize = (b / 16) as usize;
        let lo: usize = (b % 16) as usize;
        s.append(digits.substring_ascii(hi, hi + 1));
        s.append(digits.substring_ascii(lo, lo + 1));
        proof {
            assert(s@ =~= hex_chars_of(bytes@.subrange(0, i + 1)));
        }
        i = i + 1;
    }
    proof {
        assert(bytes@.subrange(0, n as int) =~= bytes@);
    }
    s
}

// ---------------------------------------------------------------------
// ROM
// ---------------------------------------------------------------------

/// An immutable byte sequence of opcodes and immediates, with the
/// program counter as its only mutable part.
pub struct Rom {
    rom: Vec<u8>,
    pc: usize,
}

impl Rom {
    /// The bytes of the program.
    pub closed spec fn code(&self) -> Seq<u8> {
        self.rom@
    }

    /// The program counter: the offset of the next byte to fetch.
    pub closed spec fn spec_pc(&self) -> nat {
        self.pc as nat
    }

    /// The program counter never leaves `[0, N]` for a ROM of `N`
    /// bytes.
    pub open spec fn well_formed(&self) -> bool {
        self.spec_pc() <= self.code().len()
    }

    pub fn new(rom: Vec<u8>) -> (r: Rom)
        ensures
            r.code() == rom@,
            r.spec_pc() == 0,
            r.well_formed(),
    {
        Rom { rom, pc: 0 }
    }

    /// Builds a ROM from program text already known to be well-formed
    /// hex; [`decode_hex`] is the way to find out.
    pub fn from_string(s: &str) -> (r: Rom)
        requires
            valid_hex(s.spec_bytes()),
        ensures
            r.code() == hex_decoded(s.spec_bytes()),
            r.spec_pc() == 0,
            r.well_formed(),
    {
        match decode_hex(s) {
            Ok(rom) => Rom::new(rom),
            Err(_) => {
                proof {
                    assert(false);
                }
                Rom::new(Vec::new())
            },
        }
    }

    /// The number of bytes in the program.
    pub fn size(&self) -> (n: usize)
        ensures
            n == self.code().len(),
    {
        self.rom.len()
    }

    /// The current program counter.
    pub fn pc(&self) -> (r: usize)
        ensures
            r == self.spec_pc(),
    {
        self.pc
    }

    /// The byte at `index`, without moving the program counter.
    pub fn peek(&self, index: usize) -> (r: Option<u8>)
        ensures
            (index as nat) < self.code().len() ==> r == Some(self.code()[index as int]),
            (index as nat) >= self.code().len() ==> r is None,
    {
        if index < self.rom.len() {
            Some(self.rom[index])
        } else {
            None
        }
    }

    /// Fetches the byte under the program counter and advances it; at
    /// the end of the ROM nothing is fetched and the counter stays.
    pub fn next_byte(&mut self) -> (r: Result<u8, ProgramError>)
        requires
            old(self).well_formed(),
        ensures
            final(self).well_formed(),
            final(self).code() == old(self).code(),
            old(self).spec_pc() < old(self).code().len() ==> r == Ok::<u8, ProgramError>(
                old(self).code()[old(self).spec_pc() as int],
            ) && final(self).spec_pc() == old(self).spec_pc() + 1,
            old(self).spec_pc() == old(self).code().len() ==> r == Err::<u8, ProgramError>(
                ProgramError::ROMOutOfBoundsError(
                    ROMOutOfBoundsError {
                        index: old(self).spec_pc() as usize,
                        size: old(self).code().len() as usize,
                    },
                ),
            ) && final(self).spec_pc() == old(self).spec_pc(),
    {
        let pc = self.pc;
        if pc < self.rom.len() {
            self.pc = pc + 1;
            Ok(self.rom[pc])
        } else {
            Err(
                ProgramError::ROMOutOfBoundsError(
                    ROMOutOfBoundsError { index: pc, size: self.rom.len() },
                ),
            )
        }
    }

    /// Moves the program counter, unconditionally; validating the
    /// target is the jumping instruction's duty.
    pub fn jump(&mut self, target: usize) -> (r: ())
        requires
            old(self).well_formed(),
            target as nat <= old(self).code().len(),
        ensures
            final(self).well_formed(),
            final(self).code() == old(self).code(),
            final(self).spec_pc() == target as nat,
    {
        self.pc = target;
    }
}

// ---------------------------------------------------------------------
// Stack
// ---------------------------------------------------------------------

/// The operand stack: a sequence of 256-bit values, at most 1024 deep,
/// with the top at the end of the view.
pub struct Stack {
    stack: Vec<u256>,
}

impl View for Stack {
    type V = Seq<u256>;

    closed spec fn view(&self) -> Seq<u256> {
        self.stack@
    }
}

impl Stack {
    /// The depth never exceeds 1024.
    pub open spec fn well_formed(&self) -> bool {
        self@.len() <= 1024
    }

    pub fn new() -> (s: Stack)
        ensures
            s@ =~= Seq::<u256>::empty(),
            s.well_formed(),
    {
        Stack { stack: Vec::new() }
    }

    /// The current depth.
    pub fn len(&self) -> (n: usize)
        ensures
            n == self@.len(),
    {
        self.stack.len()
    }

    /// Pushes a value; a stack already at 1024 values overflows
    /// instead.
    pub fn push(&mut self, value: u256) -> (r: Result<(), ProgramError>)
        requires
            old(self).well_formed(),
        ensures
            final(self).well_formed(),
            old(self)@.len() < 1024 ==> r is Ok && final(self)@ == old(self)@.push(value),
            old(self)@.len() >= 1024 ==> r == Err::<(), ProgramError>(ProgramError::StackOverflow)
                && final(self)@ == old(self)@,
    {
        if self.stack.len() >= 1024 {
            Err(ProgramError::StackOverflow)
        } else {
            self.stack.push(value);
            Ok(())
        }
    }

    /// Pops the top value; an empty stack underflows instead.
    pub fn pop(&mut self) -> (r: Result<u256, ProgramError>)
        requires
            old(self).well_formed(),
        ensures
            final(self).well_formed(),
            old(self)@.len() > 0 ==> r == Ok::<u256, ProgramError>(old(self)@.last())
                && final(self)@ == old(self)@.drop_last(),
            old(self)@.len() == 0 ==> r == Err::<u256, ProgramError>(ProgramError::StackUnderflow)
                && final(self)@ == old(self)@,
    {
        match self.stack.pop() {
            Some(v) => Ok(v),
            None => Err(ProgramError::StackUnderflow),
        }
    }

    /// The value `i` positions below the top, the top being `i = 0`;
    /// reading below the bottom underflows.
    pub fn peek(&self, i: usize) -> (r: Result<u256, ProgramError>)
        ensures
            (i as nat) < self@.len() ==> r == Ok::<u256, ProgramError>(
                self@[self@.len() - 1 - i as nat],
            ),
            (i as nat) >= self@.len() ==> r == Err::<u256, ProgramError>(
                ProgramError::StackUnderflow,
            ),
    {
        let len = self.stack.len();
        if i < len {
            Ok(self.stack[len - 1 - i])
        } else {
            Err(ProgramError::StackUnderflow)
        }
    }

    /// Exchanges the top with the value `n` below it; asks for depth at
    /// least `n + 1`.
    pub fn swap(&mut self, n: usize) -> (r: Result<(), ProgramError>)
        requires
            old(self).well_formed(),
        ensures
            final(self).well_formed(),
            (n as nat) < old(self)@.len() ==> r is Ok && final(self)@ == old(self)@.update(
                old(self)@.len() - 1,
                old(self)@[old(self)@.len() - 1 - n as nat],
            ).update(old(self)@.len() - 1 - n as nat, old(self)@.last()),
            (n as nat) >= old(self)@.len() ==> r == Err::<(), ProgramError>(
                ProgramError::StackUnderflow,
            ) && final(self)@ == old(self)@,
    {
        let len = self.stack.len();
        if n >= len {
            return Err(ProgramError::StackUnderflow);
        }
        let top = self.stack[len - 1];
        let below = self.stack[len - 1 - n];
        self.stack[len - 1] = below;
        self.stack[len - 1 - n] = top;
        Ok(())
    }

    /// Pushes a copy of the value `n` from the top, the top being
    /// `n = 1`; asks for depth at least `n` and room for one more.
    pub fn dup(&mut self, n: usize) -> (r: Result<(), ProgramError>)
        requires
            old(self).well_formed(),
            n >= 1,
        ensures
            final(self).well_formed(),
            (n as nat) > old(self)@.len() ==> r == Err::<(), ProgramError>(
                ProgramError::StackUnderflow,
            ) && final(self)@ == old(self)@,
            (n as nat) <= old(self)@.len() && old(self)@.len() >= 1024 ==> r == Err::<
                (),
                ProgramError,
            >(ProgramError::StackOverflow) && final(self)@ == old(self)@,
            (n as nat) <= old(self)@.len() && old(self)@.len() < 1024 ==> r is Ok && final(self)@
                == old(self)@.push(old(self)@[old(self)@.len() - n as nat]),
    {
        let len = self.stack.len();
        if n > len {
            return Err(ProgramError::StackUnderflow);
        }
        if len >= 1024 {
            return Err(ProgramError::StackOverflow);
        }
        let v = self.stack[len - n];
        self.stack.push(v);
        Ok(())
    }
}

// ---------------------------------------------------------------------
// Memory
// ---------------------------------------------------------------------

/// Rounding a size up to the next multiple of 32 bytes.
pub open spec fn round_up32(n: nat) -> nat {
    ((n + 31) / 32) * 32
}

/// The logical size after an access that needs `end` bytes: memory
/// grows in 32-byte words and never shrinks.
pub open spec fn grown_len(len: nat, end: nat) -> nat {
    if len >= round_up32(end) {
        len
    } else {
        round_up32(end)
    }
}

proof fn lemma_round_up32(n: nat)
    ensures
        round_up32(n) % 32 == 0,
        n <= round_up32(n),
        round_up32(n) <= n + 31,
{
    lemma_fundamental_div_mod((n + 31) as int, 32);
    lemma_mod_division_less_than_divisor((n + 31) as int, 32);
    lemma_mod_multiples_basic(((n + 31) as int) / 32, 32);
}

/// Byte-addressable memory: conceptually all of it exists and reads as
/// zero; a buffer holds the touched prefix, whose length grows in
/// 32-byte words.
pub struct Memory {
    memory: Vec<u8>,
}

impl View for Memory {
    type V = Seq<u8>;

    closed spec fn view(&self) -> Seq<u8> {
        self.memory@
    }
}

impl Memory {
    /// The logical size is a multiple of 32.
    pub open spec fn well_formed(&self) -> bool {
        self@.len() % 32 == 0
    }

    /// The byte at any address: what was written there, or zero where
    /// nothing ever was.
    pub open spec fn read_byte(&self, addr: int) -> u8 {
        if 0 <= addr < self@.len() {
            self@[addr]
        } else {
            0
        }
    }

    pub fn new() -> (m: Memory)
        ensures
            m@ =~= Seq::<u8>::empty(),
            m.well_formed(),
    {
        Memory { memory: Vec::new() }
    }

    /// The logical size in bytes.
    pub fn msize(&self) -> (n: usize)
        ensures
            n == self@.len(),
    {
        self.memory.len()
    }

    /// Extends the buffer with zeroes so that `end` bytes exist,
    /// keeping every byte's value.
    fn grow(&mut self, end: usize)
        requires
            old(self).well_formed(),
            end <= usize::MAX - 31,
        ensures
            final(self).well_formed(),
            final(self)@.len() == grown_len(old(self)@.len(), end as nat),
            forall|j: int| final(self).read_byte(j) == old(self).read_byte(j),
            end as nat <= final(self)@.len(),
    {
        proof {
            lemma_round_up32(end as nat);
        }
        let target: usize = ((end + 31) / 32) * 32;
        let ghost pre = self@;
        while self.memory.len() < target
            invariant
                pre.len() <= self@.len(),
                self@.len() <= grown_len(pre.len(), end as nat),
                target as nat == round_up32(end as nat),
                self@.subrange(0, pre.len() as int) =~= pre,
                forall|j: int| pre.len() <= j < self@.len() ==> self@[j] == 0,
            decreases target - self.memory.len(),
        {
            self.memory.push(0);
        }
        proof {
            assert(self@.len() == grown_len(pre.len(), end as nat));
            assert forall|j: int| self.read_byte(j) == old(self).read_byte(j) by {
                if 0 <= j < pre.len() {
                    assert(self@[j] == pre[j]);
                }
            }
        }
    }

    /// Reads one byte, growing the touched region to cover it.
    pub fn read8(&mut self, offset: usize) -> (r: u8)
        requires
            old(self).well_formed(),
            offset <= usize::MAX - 32,
        ensures
            final(self).well_formed(),
            r == old(self).read_byte(offset as int),
            final(self)@.len() == grown_len(old(self)@.len(), offset as nat + 1),
            forall|j: int| final(self).read_byte(j) == old(self).read_byte(j),
    {
        self.grow(offset + 1);
        self.memory[offset]
    }

    /// Writes one byte, growing the touched region to cover it.
    pub fn write8(&mut self, offset: usize, value: u8)
        requires
            old(self).well_formed(),
            offset <= usize::MAX - 32,
        ensures
            final(self).well_formed(),
            final(self)@.len() == grown_len(old(self)@.len(), offset as nat + 1),
            final(self).read_byte(offset as int) == value,
            forall|j: int| j != offset ==> final(self).read_byte(j) == old(self).read_byte(j),
    {
        self.grow(offset + 1);
        self.memory[offset] = value;
    }

    /// Reads a 32-byte big-endian word, growing the touched region to
    /// cover it.
    pub fn read32(&mut self, offset: usize) -> (r: u256)
        requires
            old(self).well_formed(),
            offset <= usize::MAX - 64,
        ensures
            final(self).well_formed(),
            final(self)@.len() == grown_len(old(self)@.len(), offset as nat + 32),
            forall|j: int| final(self).read_byte(j) == old(self).read_byte(j),
            r.as_nat() == be_val(Seq::new(32, |k: int| old(self).read_byte(offset + k))),
    {
        self.grow(offset + 32);
        let mut buf: Vec<u8> = Vec::new();
        let mut k: usize = 0;
        while k < 32
            invariant
                k <= 32,
                offset <= usize::MAX - 64,
                offset as nat + 32 <= self@.len(),
                buf@ =~= Seq::new(k as nat, |k2: int| self.read_byte(offset + k2)),
            decreases 32 - k,
        {
            let b = self.memory[offset + k];
            buf.push(b);
            proof {
                assert(buf@ =~= Seq::new((k + 1) as nat, |k2: int| self.read_byte(offset + k2)));
            }
            k = k + 1;
        }
        let r = u256::from_be_bytes(buf.as_slice());
        proof {
            assert(Seq::new(32, |k2: int| self.read_byte(offset + k2)) =~= Seq::new(
                32,
                |k2: int| old(self).read_byte(offset + k2),
            ));
        }
        r
    }

    /// Reads a range of bytes, growing the touched region to cover it.
    pub fn read_range(&mut self, offset: usize, len: usize) -> (r: Vec<u8>)
        requires
            old(self).well_formed(),
            offset + len <= usize::MAX - 32,
        ensures
            final(self).well_formed(),
            final(self)@.len() == grown_len(old(self)@.len(), offset as nat + len as nat),
            forall|j: int| final(self).read_byte(j) == old(self).read_byte(j),
            r@ == Seq::new(len as nat, |k: int| old(self).read_byte(offset + k)),
    {
        self.grow(offset + len);
        let mut buf: Vec<u8> = Vec::new();
        let mut k: usize = 0;
        while k < len
            invariant
                k <= len,
                offset + len <= usize::MAX - 32,
                offset as nat + len as nat <= self@.len(),
                buf@ =~= Seq::new(k as nat, |k2: int| self.read_byte(offset + k2)),
            decreases len - k,
        {
            let b = self.memory[offset + k];
            buf.push(b);
            proof {
                assert(buf@ =~= Seq::new((k + 1) as nat, |k2: int| self.read_byte(offset + k2)));
            }
            k = k + 1;
        }
        proof {
            assert(Seq::new(len as nat, |k2: int| self.read_byte(offset + k2)) =~= Seq::new(
                len as nat,
                |k2: int| old(self).read_byte(offset + k2),
            ));
        }
        buf
    }

    /// Writes a run of bytes, growing the touched region to cover it.
    pub fn write_bytes(&mut self, offset: usize, bytes: &[u8])
        requires
            old(self).well_formed(),
            offset + bytes@.len() <= usize::MAX - 32,
        ensures
            final(self).well_formed(),
            final(self)@.len() == grown_len(old(self)@.len(), offset as nat + bytes@.len()),
            forall|k: int|
                0 <= k < bytes@.len() ==> final(self).read_byte(offset + k) == bytes@[k],
            forall|j: int|
                j < offset || j >= offset + bytes@.len() ==> final(self).read_byte(j)
                    == old(self).read_byte(j),
    {
        let count = bytes.len();
        self.grow(offset + count);
        let ghost grown = self@;
        let mut k: usize = 0;
        while k < count
            invariant
                k <= count,
                count == bytes@.len(),
                offset + count <= usize::MAX - 32,
                offset as nat + count as nat <= self@.len(),
                self@.len() == grown.len(),
                forall|i: int| 0 <= i < k ==> self@[offset + i] == bytes@[i],
                forall|j: int|
                    0 <= j < self@.len() && (j < offset || j >= offset + k) ==> self@[j]
                        == grown[j],
            decreases count - k,
        {
            self.memory[offset + k] = bytes[k];
            k = k + 1;
        }
    }

    /// Writes a 32-byte big-endian word, growing the touched region to
    /// cover it.
    pub fn write32(&mut self, offset: usize, value: u256)
        requires
            old(self).well_formed(),
            offset <= usize::MAX - 64,
        ensures
            final(self).well_formed(),
            final(self)@.len() == grown_len(old(self)@.len(), offset as nat + 32),
            forall|k: int|
                0 <= k < 32 ==> final(self).read_byte(offset + k) == super::types::be_bytes_of(
                    value.as_nat(),
                    32,
                )[k],
            forall|j: int|
                j < offset || j >= offset + 32 ==> final(self).read_byte(j)
                    == old(self).read_byte(j),
    {
        let bytes = value.to_be_bytes();
        self.grow(offset + 32);
        let ghost grown = self@;
        let mut k: usize = 0;
        while k < 32
            invariant
                k <= 32,
                offset <= usize::MAX - 64,
                bytes@.len() == 32,
                bytes@ == super::types::be_bytes_of(value.as_nat(), 32),
                offset as nat + 32 <= self@.len(),
                self@.len() == grown.len(),
                forall|i: int| 0 <= i < k ==> self@[offset + i] == bytes@[i],
                forall|j: int|
                    0 <= j < self@.len() && (j < offset || j >= offset + k) ==> self@[j]
                        == grown[j],
            decreases 32 - k,
        {
            self.memory[offset + k] = bytes[k];
            k = k + 1;
        }
    }
}

// ---------------------------------------------------------------------
// Storage
// ---------------------------------------------------------------------

/// What a journal of stores says a key holds: the value of the latest
/// store to that key, or zero if it was never stored to.
pub open spec fn storage_lookup(s: Seq<(u256, u256)>, key: u256) -> u256
    decreases s.len(),
{
    if s.len() == 0 {
        u256::spec_zero()
    } else if s.last().0 == key {
        s.last().1
    } else {
        storage_lookup(s.drop_last(), key)
    }
}

/// Persistent storage: a mapping from 256-bit keys to 256-bit values,
/// absent keys reading as zero, held as a journal of stores.
pub struct Storage {
    storage: Vec<(u256, u256)>,
}

impl View for Storage {
    type V = Seq<(u256, u256)>;

    closed spec fn view(&self) -> Seq<(u256, u256)> {
        self.storage@
    }
}

impl Storage {
    pub fn new() -> (s: Storage)
        ensures
            s@ =~= Seq::<(u256, u256)>::empty(),
            forall|k: u256| storage_lookup(s@, k) == u256::spec_zero(),
    {
        let s = Storage { storage: Vec::new() };
        proof {
            assert(forall|k: u256| storage_lookup(s@, k) == u256::spec_zero());
        }
        s
    }

    /// The value under a key; a key never stored to reads as zero.
    pub fn load(&self, key: u256) -> (r: u256)
        ensures
            r == storage_lookup(self@, key),
    {
        let mut i: usize = self.storage.len();
        proof {
            assert(self@.subrange(0, i as int) =~= self@);
        }
        while i > 0
            invariant
                i <= self@.len(),
                storage_lookup(self@, key) == storage_lookup(self@.subrange(0, i as int), key),
            decreases i,
        {
            i = i - 1;
            let entry = self.storage[i];
            proof {
                assert(self@.subrange(0, i + 1).drop_last() =~= self@.subrange(0, i as int));
                assert(self@.subrange(0, i + 1).last() == self@[i as int]);
            }
            if entry.0 == key {
                return entry.1;
            }
        }
        proof {
            assert(self@.subrange(0, 0) =~= Seq::<(u256, u256)>::empty());
        }
        u256::zero()
    }

    /// Stores a value under a key; storing zero is a legal mutation and
    /// makes the key read as zero again.
    pub fn store(&mut self, key: u256, value: u256)
        ensures
            final(self)@ == old(self)@.push((key, value)),
            storage_lookup(final(self)@, key) == value,
            forall|k: u256|
                k != key ==> storage_lookup(final(self)@, k) == storage_lookup(old(self)@, k),
    {
        self.storage.push((key, value));
        proof {
            assert(self@.drop_last() =~= old(self)@);
        }
    }
}

// ---------------------------------------------------------------------
// Environment
// ---------------------------------------------------------------------

/// The read-only context a program runs in: the block and transaction
/// fields that the environment instructions push. It is injected at the
/// start of execution and never changes; a host with no chain behind it
/// supplies zeros.
pub struct Environment {
    pub address: u256,
    pub balance: u256,
    pub origin: u256,
    pub caller: u256,
    pub call_value: u256,
    pub calldata: Vec<u8>,
    pub gas_price: u256,
    pub coinbase: u256,
    pub timestamp: u256,
    pub number: u256,
    pub difficulty: u256,
    pub gas_limit: u256,
    pub chain_id: u256,
}

/// A byte of the call data: what was supplied there, or zero past its
/// end.
pub open spec fn calldata_byte(environment: Environment, i: int) -> u8 {
    if 0 <= i < environment.calldata@.len() {
        environment.calldata@[i]
    } else {
        0
    }
}

impl Environment {
    /// Whether every field is zero and the call data empty.
    pub open spec fn is_zeroed(&self) -> bool {
        &&& self.address == u256::spec_zero()
        &&& self.balance == u256::spec_zero()
        &&& self.origin == u256::spec_zero()
        &&& self.caller == u256::spec_zero()
        &&& self.call_value == u256::spec_zero()
        &&& self.calldata@ =~= Seq::<u8>::empty()
        &&& self.gas_price == u256::spec_zero()
        &&& self.coinbase == u256::spec_zero()
        &&& self.timestamp == u256::spec_zero()
        &&& self.number == u256::spec_zero()
        &&& self.difficulty == u256::spec_zero()
        &&& self.gas_limit == u256::spec_zero()
        &&& self.chain_id == u256::spec_zero()
    }

    /// The environment of a host with no chain behind it: every field
    /// zero, the call data empty.
    pub fn zeroed() -> (r: Environment)
        ensures
            r.is_zeroed(),
    {
        Environment {
            address: u256::zero(),
            balance: u256::zero(),
            origin: u256::zero(),
            caller: u256::zero(),
            call_value: u256::zero(),
            calldata: Vec::new(),
            gas_price: u256::zero(),
            coinbase: u256::zero(),
            timestamp: u256::zero(),
            number: u256::zero(),
            difficulty: u256::zero(),
            gas_limit: u256::zero(),
            chain_id: u256::zero(),
        }
    }
}

// ---------------------------------------------------------------------
// Program context
// ---------------------------------------------------------------------

/// Everything one execution owns: the ROM being run and the stack,
/// memory and storage it works on.
pub struct ProgramContext {
    pub rom: Rom,
    pub stack: Stack,
    pub memory: Memory,
    pub storage: Storage,
    pub environment: Environment,
}

impl ProgramContext {
    /// All component invariants at once; they hold after every step.
    pub open spec fn well_formed(&self) -> bool {
        self.rom.well_formed() && self.stack.well_formed() && self.memory.well_formed()
    }

    /// A fresh context over a ROM: the counter at zero, everything else
    /// empty, the environment all zeros.
    pub fn new(rom: Rom) -> (r: ProgramContext)
        requires
            rom.well_formed(),
        ensures
            r.well_formed(),
            r.rom == rom,
            r.stack@ =~= Seq::<u256>::empty(),
            r.memory@ =~= Seq::<u8>::empty(),
            forall|k: u256| storage_lookup(r.storage@, k) == u256::spec_zero(),
            r.environment.is_zeroed(),
    {
        ProgramContext {
            rom,
            stack: Stack::new(),
            memory: Memory::new(),
            storage: Storage::new(),
            environment: Environment::zeroed(),
        }
    }

    /// A fresh context over a ROM, with the environment the host
    /// injects.
    pub fn with_environment(rom: Rom, environment: Environment) -> (r: ProgramContext)
        requires
            rom.well_formed(),
        ensures
            r.well_formed(),
            r.rom == rom,
            r.stack@ =~= Seq::<u256>::empty(),
            r.memory@ =~= Seq::<u8>::empty(),
            forall|k: u256| storage_lookup(r.storage@, k) == u256::spec_zero(),
            r.environment == environment,
    {
        ProgramContext {
            rom,
            stack: Stack::new(),
            memory: Memory::new(),
            storage: Storage::new(),
            environment,
        }
    }
}

} // verus!
