use vstd::prelude::*;

pub mod bytes;
pub mod compound;
pub mod container;
pub mod decode;
pub mod decode_laws;
pub mod format;
pub mod laws;
pub mod packed;
pub mod primitives;
pub mod render;
pub mod schema;
pub mod schema_laws;
pub mod shape;
pub mod shape_laws;
pub mod strtab;
pub mod traits;

pub use decode::{decode_args, format_body};
pub use format::format_payload;
pub use primitives::{Float32Bits, Float64Bits};
pub use schema::measure_schema;
pub use traits::{schema_len, schema_of, string_table_of, Encode, HasStringTable, SchemaOf, UserFormatter};

verus! {

// Schema bytecode: one opcode byte, the upper 4 bits give the category and the
// lower 4 bits a variant or size parameter.
pub const OP_UNIT: u8 = 0x00;
pub const OP_SIGNED_INT: u8 = 0x10;
pub const OP_UNSIGNED_INT: u8 = 0x20;
pub const OP_FLOAT: u8 = 0x30;
pub const OP_STR: u8 = 0x40;
pub const OP_CHAR: u8 = 0x50;
pub const OP_BOOL: u8 = 0x60;
pub const OP_SEQ: u8 = 0x80;
pub const OP_TUPLE: u8 = 0x90;
pub const OP_STRUCT: u8 = 0xA0;
pub const OP_ENUM: u8 = 0xB0;
pub const OP_USER_DEFINED: u8 = 0xF0;
pub const CAT_MASK: u8 = 0xF0;
pub const SIZE_MASK: u8 = 0x0F;

/// The opcode byte of a category with parameter `k`, keeping only the low 4 bits of `k`.
pub open spec fn opcode(category: u8, k: u8) -> u8 {
    category | (k & SIZE_MASK)
}

/// The one-byte schema of the unit type.
pub fn op_unit() -> (r: &'static [u8])
    ensures
        r@ == seq![OP_UNIT],
{
    &[OP_UNIT]
}

pub fn op_signed_int(k: u8) -> (r: u8)
    ensures
        r == opcode(OP_SIGNED_INT, k),
{
    OP_SIGNED_INT | (k & SIZE_MASK)
}

pub fn op_unsigned_int(k: u8) -> (r: u8)
    ensures
        r == opcode(OP_UNSIGNED_INT, k),
{
    OP_UNSIGNED_INT | (k & SIZE_MASK)
}

pub fn op_float(k: u8) -> (r: u8)
    ensures
        r == opcode(OP_FLOAT, k),
{
    OP_FLOAT | (k & SIZE_MASK)
}

pub fn op_str(k: u8) -> (r: u8)
    ensures
        r == opcode(OP_STR, k),
{
    OP_STR | (k & SIZE_MASK)
}

pub fn op_bool() -> (r: u8)
    ensures
        r == OP_BOOL,
{
    OP_BOOL
}

pub fn op_char() -> (r: u8)
    ensures
        r == OP_CHAR,
{
    OP_CHAR
}

/// Byte width selected by a size parameter: 1, 2, 4, 8 or 16 bytes for `k` = 1..=5, else 0.
pub open spec fn spec_size_for_k(k: u8) -> nat {
    if k == 1 {
        1
    } else if k == 2 {
        2
    } else if k == 3 {
        4
    } else if k == 4 {
        8
    } else if k == 5 {
        16
    } else {
        0
    }
}

pub fn size_for_k(k: u8) -> (r: usize)
    ensures
        r == spec_size_for_k(k),
{
    match k {
        1 => 1,
        2 => 2,
        3 => 4,
        4 => 8,
        5 => 16,
        _ => 0,
    }
}

} // verus!
