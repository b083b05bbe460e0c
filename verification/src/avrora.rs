//! The host platform's debug channel.
//!
//! The target exposes a five-byte memory-mapped monitor window. A command
//! is issued by writing its payload bytes (little-endian, at indices one
//! and up) first and the opcode byte (index zero) last, so an external
//! observer detects a completed command by the opcode write. This module
//! computes the exact sequence of `(index, byte)` writes each command
//! issues; performing them as volatile stores into the real window is the
//! platform shell's job.

use vstd::prelude::*;

verus! {

pub const AVRORA_PRINT_2BYTE_HEXADECIMALS: u8 = 0x01;
pub const AVRORA_PRINT_2BYTE_UNSIGNED_INTEGERS: u8 = 0x03;
pub const AVRORA_PRINT_4BYTE_HEXADECIMALS: u8 = 0x04;
pub const AVRORA_PRINT_4BYTE_UNSIGNED_INTEGERS: u8 = 0x05;
pub const AVRORA_PRINT_STRING_POINTERS: u8 = 0x06;
pub const AVRORA_PRINT_2BYTE_SIGNED_INTEGERS: u8 = 0x08;
pub const AVRORA_PRINT_4BYTE_SIGNED_INTEGERS: u8 = 0x09;
pub const AVRORA_PRINT_R1: u8 = 0x0C;
pub const AVRORA_PRINT_SP: u8 = 0x0D;
pub const AVRORA_PRINT_REGS: u8 = 0x0E;
pub const AVRORA_PRINT_FLASH_STRING_POINTER: u8 = 0x0F;
pub const AVRORA_PRINT_PC: u8 = 0x12;

/// The two bytes of a 16-bit value, least significant first.
pub open spec fn le_16(v: u16) -> Seq<u8> {
    seq![(v % 0x100) as u8, ((v / 0x100) % 0x100) as u8]
}

/// The four bytes of a 32-bit value, least significant first.
pub open spec fn le_32(v: u32) -> Seq<u8> {
    seq![
        (v % 0x100) as u8,
        ((v / 0x100) % 0x100) as u8,
        ((v / 0x10000) % 0x100) as u8,
        ((v / 0x1000000) % 0x100) as u8,
    ]
}

/// The writes of a command without payload: the opcode byte alone.
pub open spec fn command_plain(opcode: u8) -> Seq<(u8, u8)> {
    seq![(0u8, opcode)]
}

/// The writes of a command with a 16-bit payload: the payload bytes in
/// little-endian order first, the opcode byte last.
pub open spec fn command_16(opcode: u8, payload: u16) -> Seq<(u8, u8)> {
    seq![(1u8, le_16(payload)[0]), (2u8, le_16(payload)[1]), (0u8, opcode)]
}

/// The writes of a command with a 32-bit payload: the payload bytes in
/// little-endian order first, the opcode byte last.
pub open spec fn command_32(opcode: u8, payload: u32) -> Seq<(u8, u8)> {
    seq![
        (1u8, le_32(payload)[0]),
        (2u8, le_32(payload)[1]),
        (3u8, le_32(payload)[2]),
        (4u8, le_32(payload)[3]),
        (0u8, opcode),
    ]
}

/// The debug channel: the ordered log of `(window index, byte)` writes the
/// issued commands make. The platform shell replays the log with volatile
/// stores into the real five-byte window.
pub struct DebugChannel {
    pub writes: Vec<(u8, u8)>,
}

impl DebugChannel {
    pub fn new() -> (c: DebugChannel)
        ensures
            c.writes@ == Seq::<(u8, u8)>::empty(),
    {
        DebugChannel { writes: Vec::new() }
    }

    fn signal_avrora_c_print(&mut self, instruction: u8)
        ensures
            final(self).writes@ == old(self).writes@ + command_plain(instruction),
    {
        self.writes.push((0, instruction));
        proof {
            assert(self.writes@ =~= old(self).writes@ + command_plain(instruction));
        }
    }

    fn signal_avrora_c_print_16(&mut self, instruction: u8, payload: u16)
        ensures
            final(self).writes@ == old(self).writes@ + command_16(instruction, payload),
    {
        self.writes.push((1, (payload % 0x100) as u8));
        self.writes.push((2, ((payload / 0x100) % 0x100) as u8));
        self.writes.push((0, instruction));
        proof {
            assert(self.writes@ =~= old(self).writes@ + command_16(instruction, payload));
        }
    }

    fn signal_avrora_c_print_32(&mut self, instruction: u8, payload: u32)
        ensures
            final(self).writes@ == old(self).writes@ + command_32(instruction, payload),
    {
        self.writes.push((1, (payload % 0x100) as u8));
        self.writes.push((2, ((payload / 0x100) % 0x100) as u8));
        self.writes.push((3, ((payload / 0x10000) % 0x100) as u8));
        self.writes.push((4, ((payload / 0x1000000) % 0x100) as u8));
        self.writes.push((0, instruction));
        proof {
            assert(self.writes@ =~= old(self).writes@ + command_32(instruction, payload));
        }
    }

    /// Print a 16-bit unsigned int as hex.
    pub fn print_u16_hex(&mut self, val: u16)
        ensures
            final(self).writes@ == old(self).writes@ + command_16(
                AVRORA_PRINT_2BYTE_HEXADECIMALS,
                val,
            ),
    {
        self.signal_avrora_c_print_16(AVRORA_PRINT_2BYTE_HEXADECIMALS, val);
    }

    /// Print a 16-bit unsigned int.
    pub fn print_u16(&mut self, val: u16)
        ensures
            final(self).writes@ == old(self).writes@ + command_16(
                AVRORA_PRINT_2BYTE_UNSIGNED_INTEGERS,
                val,
            ),
    {
        self.signal_avrora_c_print_16(AVRORA_PRINT_2BYTE_UNSIGNED_INTEGERS, val);
    }

    /// Print a 16-bit signed int (payload in two's complement).
    pub fn print_i16(&mut self, val: i16)
        ensures
            final(self).writes@ == old(self).writes@ + command_16(
                AVRORA_PRINT_2BYTE_SIGNED_INTEGERS,
                val as u16,
            ),
    {
        self.signal_avrora_c_print_16(AVRORA_PRINT_2BYTE_SIGNED_INTEGERS, val as u16);
    }

    /// Print a 32-bit unsigned int as hex.
    pub fn print_u32_hex(&mut self, val: u32)
        ensures
            final(self).writes@ == old(self).writes@ + command_32(
                AVRORA_PRINT_4BYTE_HEXADECIMALS,
                val,
            ),
    {
        self.signal_avrora_c_print_32(AVRORA_PRINT_4BYTE_HEXADECIMALS, val);
    }

    /// Print a 32-bit unsigned int.
    pub fn print_u32(&mut self, val: u32)
        ensures
            final(self).writes@ == old(self).writes@ + command_32(
                AVRORA_PRINT_4BYTE_UNSIGNED_INTEGERS,
                val,
            ),
    {
        self.signal_avrora_c_print_32(AVRORA_PRINT_4BYTE_UNSIGNED_INTEGERS, val);
    }

    /// Print a 32-bit signed int (payload in two's complement).
    pub fn print_i32(&mut self, val: i32)
        ensures
            final(self).writes@ == old(self).writes@ + command_32(
                AVRORA_PRINT_4BYTE_SIGNED_INTEGERS,
                val as u32,
            ),
    {
        self.signal_avrora_c_print_32(AVRORA_PRINT_4BYTE_SIGNED_INTEGERS, val as u32);
    }

    /// Print the contents of the R1 register.
    pub fn print_r1(&mut self)
        ensures
            final(self).writes@ == old(self).writes@ + command_plain(AVRORA_PRINT_R1),
    {
        self.signal_avrora_c_print(AVRORA_PRINT_R1);
    }

    /// Print the contents of the SP register.
    pub fn print_sp(&mut self)
        ensures
            final(self).writes@ == old(self).writes@ + command_plain(AVRORA_PRINT_SP),
    {
        self.signal_avrora_c_print(AVRORA_PRINT_SP);
    }

    /// Print the contents of the PC register.
    pub fn print_pc(&mut self)
        ensures
            final(self).writes@ == old(self).writes@ + command_plain(AVRORA_PRINT_PC),
    {
        self.signal_avrora_c_print(AVRORA_PRINT_PC);
    }

    /// Print the contents of the registers R0 to R31.
    pub fn print_all_regs(&mut self)
        ensures
            final(self).writes@ == old(self).writes@ + command_plain(AVRORA_PRINT_REGS),
    {
        self.signal_avrora_c_print(AVRORA_PRINT_REGS);
    }

    /// Print a NUL-terminated string from RAM; the payload is the string's
    /// address, which the platform shell computes.
    pub fn print_ram_string(&mut self, addr: u16)
        ensures
            final(self).writes@ == old(self).writes@ + command_16(
                AVRORA_PRINT_STRING_POINTERS,
                addr,
            ),
    {
        self.signal_avrora_c_print_16(AVRORA_PRINT_STRING_POINTERS, addr);
    }

    /// Print a NUL-terminated string from read-only (flash) memory; the
    /// payload is the string's flash address, which the platform shell
    /// computes.
    pub fn print_flash_string_fn(&mut self, addr: u32)
        ensures
            final(self).writes@ == old(self).writes@ + command_32(
                AVRORA_PRINT_FLASH_STRING_POINTER,
                addr,
            ),
    {
        self.signal_avrora_c_print_32(AVRORA_PRINT_FLASH_STRING_POINTER, addr);
    }
}

impl crate::heap::HeapRef {
    /// Print the referent's heap offset as hex on the debug channel.
    pub fn avrora_print_address(&self, channel: &mut DebugChannel)
        requires
            self.off < 0x10000,
        ensures
            final(channel).writes@ == old(channel).writes@ + command_16(
                AVRORA_PRINT_2BYTE_HEXADECIMALS,
                self.off as u16,
            ),
    {
        channel.print_u16_hex(self.off as u16);
    }
}

} // verus!
