//! Byte values of the script opcodes that this library reads and writes.
use vstd::prelude::*;

verus! {

pub const OP_0: u8 = 0x00;

pub const OP_PUSHBYTES_1: u8 = 0x01;

pub const OP_PUSHBYTES_20: u8 = 0x14;

pub const OP_PUSHBYTES_32: u8 = 0x20;

/// The largest opcode that pushes the number of bytes it names.
pub const OP_PUSHBYTES_75: u8 = 0x4b;

pub const OP_PUSHDATA1: u8 = 0x4c;

pub const OP_PUSHDATA2: u8 = 0x4d;

pub const OP_PUSHDATA4: u8 = 0x4e;

pub const OP_PUSHNUM_NEG1: u8 = 0x4f;

pub const OP_PUSHNUM_1: u8 = 0x51;

pub const OP_PUSHNUM_2: u8 = 0x52;

pub const OP_PUSHNUM_16: u8 = 0x60;

pub const OP_RETURN: u8 = 0x6a;

pub const OP_DUP: u8 = 0x76;

pub const OP_EQUAL: u8 = 0x87;

pub const OP_EQUALVERIFY: u8 = 0x88;

pub const OP_HASH160: u8 = 0xa9;

pub const OP_CHECKSIG: u8 = 0xac;

} // verus!
