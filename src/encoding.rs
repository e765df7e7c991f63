use vstd::prelude::*;

verus! {

/// The register-form word: `opcode(6) | rs(5) | rt(5) | rd(5) | shamt(5) | function(6)`,
/// from the most significant bit down.
pub open spec fn r_word(op: u8, rs: u8, rt: u8, rd: u8, shamt: u8, function: u8) -> u32 {
    (op * 0x400_0000 + rs * 0x20_0000 + rt * 0x1_0000 + rd * 0x800 + shamt * 0x40
        + function) as u32
}

/// The 16-bit two's-complement pattern of `v`.
pub open spec fn imm_field(v: i16) -> int {
    if v < 0 {
        v + 0x1_0000
    } else {
        v as int
    }
}

/// The value that a 16-bit field holds, read as two's complement.
pub open spec fn sign_extend16(f: int) -> int {
    if f >= 0x8000 {
        f - 0x1_0000
    } else {
        f
    }
}

/// The immediate-form word: `opcode(6) | rs(5) | rt(5) | immediate(16)`.
pub open spec fn i_word(op: u8, rs: u8, rt: u8, imm: i16) -> u32 {
    (op * 0x400_0000 + rs * 0x20_0000 + rt * 0x1_0000 + imm_field(imm)) as u32
}

/// The jump-form word: `opcode(6) | address(26)`.
pub open spec fn j_word(op: u8, address: u32) -> u32 {
    (op * 0x400_0000 + address) as u32
}

/// The low 26 bits of the 32-bit two's-complement pattern of `v`.
pub open spec fn jump_field(v: int) -> int {
    if v < 0 {
        (v + 0x1_0000_0000) % 0x400_0000
    } else {
        v % 0x400_0000
    }
}

pub fn encode_r(op: u8, rs: u8, rt: u8, rd: u8, shamt: u8, function: u8) -> (w: u32)
    requires
        op < 64,
        rs < 32,
        rt < 32,
        rd < 32,
        shamt < 32,
        function < 64,
    ensures
        w == r_word(op, rs, rt, rd, shamt, function),
{
    (op as u32) * 0x400_0000 + (rs as u32) * 0x20_0000 + (rt as u32) * 0x1_0000 + (rd as u32)
        * 0x800 + (shamt as u32) * 0x40 + (function as u32)
}

pub fn encode_i(op: u8, rs: u8, rt: u8, imm: i16) -> (w: u32)
    requires
        op < 64,
        rs < 32,
        rt < 32,
    ensures
        w == i_word(op, rs, rt, imm),
        w % 0x1_0000 == imm_field(imm),
{
    let field: u32 = if imm < 0 {
        (imm as i32 + 0x1_0000) as u32
    } else {
        imm as u32
    };
    (op as u32) * 0x400_0000 + (rs as u32) * 0x20_0000 + (rt as u32) * 0x1_0000 + field
}

pub fn encode_j(op: u8, address: u32) -> (w: u32)
    requires
        op < 64,
        address < 0x400_0000,
    ensures
        w == j_word(op, address),
{
    (op as u32) * 0x400_0000 + address
}

/// Masks a 32-bit literal to the 26 bits of a jump address.
pub fn mask_jump_literal(v: i32) -> (r: u32)
    ensures
        r as int == jump_field(v as int),
        r < 0x400_0000,
{
    let u: u32 = if v < 0 {
        (v as i64 + 0x1_0000_0000) as u32
    } else {
        v as u32
    };
    let r = u & 0x3FF_FFFF;
    assert(u & 0x3FF_FFFF == u % 0x400_0000) by (bit_vector);
    r
}

/// A 16-bit immediate survives the round trip through its field.
pub proof fn lemma_imm_round_trip(v: i16)
    ensures
        0 <= imm_field(v) < 0x1_0000,
        sign_extend16(imm_field(v)) == v,
{
}

/// A value below 2^26 has no bit above the 26 of a jump address.
pub proof fn lemma_jump_bits(t: u32)
    requires
        t < 0x400_0000,
    ensures
        t & !0x3FF_FFFFu32 == 0,
{
    assert(t < 0x400_0000 ==> t & !0x3FF_FFFFu32 == 0) by (bit_vector);
}

} // verus!
