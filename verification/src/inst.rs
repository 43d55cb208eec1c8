use vstd::prelude::*;

verus! {

// A CHIP-8 instruction word is 16 bits wide and decomposes into four 4-bit
// nibbles (most- to least-significant), a 12-bit address operand and an
// 8-bit immediate operand.

/// Most-significant nibble of an instruction word.
pub open spec fn nib_a(w: u16) -> u8 {
    ((w >> 12) & 0xF) as u8
}

/// Second nibble of an instruction word (register index `x`).
pub open spec fn nib_b(w: u16) -> u8 {
    ((w >> 8) & 0xF) as u8
}

/// Third nibble of an instruction word (register index `y`).
pub open spec fn nib_c(w: u16) -> u8 {
    ((w >> 4) & 0xF) as u8
}

/// Least-significant nibble of an instruction word.
pub open spec fn nib_d(w: u16) -> u8 {
    (w & 0xF) as u8
}

/// The 12-bit address operand: the lowest 12 bits of the word.
pub open spec fn addr_of(w: u16) -> u16 {
    w & 0x0FFF
}

/// The 8-bit immediate operand: the lowest 8 bits of the word.
pub open spec fn imm_of(w: u16) -> u8 {
    (w & 0x00FF) as u8
}

/// Builds an instruction word from its four nibbles.
pub open spec fn encode_nibbles(a: u8, b: u8, c: u8, d: u8) -> u16 {
    (((a as u16) << 12) | ((b as u16) << 8) | ((c as u16) << 4) | (d as u16)) as u16
}

/// Every nibble is below 16 and the address operand is below 0x1000.
pub proof fn lemma_field_bounds(w: u16)
    by (bit_vector)
    ensures
        nib_a(w) < 16,
        nib_b(w) < 16,
        nib_c(w) < 16,
        nib_d(w) < 16,
        addr_of(w) <= 0xFFF,
{
}

/// Decoding an instruction word is a pure function of the word, and encoding
/// four nibbles and decoding the result gives the nibbles back, together with
/// the derived address and immediate fields.
pub proof fn lemma_decode_encode(a: u8, b: u8, c: u8, d: u8)
    by (bit_vector)
    requires
        a < 16,
        b < 16,
        c < 16,
        d < 16,
    ensures
        nib_a(encode_nibbles(a, b, c, d)) == a,
        nib_b(encode_nibbles(a, b, c, d)) == b,
        nib_c(encode_nibbles(a, b, c, d)) == c,
        nib_d(encode_nibbles(a, b, c, d)) == d,
        addr_of(encode_nibbles(a, b, c, d)) == (((b as u16) << 8) | ((c as u16) << 4) | (
        d as u16)),
        imm_of(encode_nibbles(a, b, c, d)) == (((c as u8) << 4) | (d as u8)),
{
}

/// One 16-bit instruction word, as fetched from memory.
#[derive(Clone, Copy, PartialEq, Eq, Structural, Debug)]
pub struct Instruction(pub u16);

impl Instruction {
    /// Splits the word into its four nibbles, most-significant first.
    pub fn decode(&self) -> (r: (u8, u8, u8, u8))
        ensures
            r == (nib_a(self.0), nib_b(self.0), nib_c(self.0), nib_d(self.0)),
            r.0 < 16 && r.1 < 16 && r.2 < 16 && r.3 < 16,
    {
        let w = self.0;
        let a = ((w & 0xF000) >> 12) as u8;
        let b = ((w & 0x0F00) >> 8) as u8;
        let c = ((w & 0x00F0) >> 4) as u8;
        let d = (w & 0x000F) as u8;
        proof {
            lemma_field_bounds(w);
            assert(((w & 0xF000) >> 12) as u8 == nib_a(w)) by (bit_vector);
            assert(((w & 0x0F00) >> 8) as u8 == nib_b(w)) by (bit_vector);
            assert(((w & 0x00F0) >> 4) as u8 == nib_c(w)) by (bit_vector);
            assert((w & 0x000F) as u8 == nib_d(w)) by (bit_vector);
        }
        (a, b, c, d)
    }

    /// The 12-bit address operand.
    pub fn nnn(&self) -> (r: u16)
        ensures
            r == addr_of(self.0),
            r <= 0xFFF,
    {
        proof {
            lemma_field_bounds(self.0);
        }
        self.0 & 0x0FFF
    }

    /// The 8-bit immediate operand.
    pub fn kk(&self) -> (r: u8)
        ensures
            r == imm_of(self.0),
    {
        (self.0 & 0x00FF) as u8
    }
}

} // verus!
