//! Resolved instructions and their 64-bit binary word.
//!
//! A word holds the opcode byte in its top 8 bits and the operand, in two's
//! complement, in its low 56 bits.

use vstd::prelude::*;
use crate::op::Op;

verus! {

/// The smallest operand that fits in the 56 operand bits of a word.
pub const MIN_OPERAND: i64 = -0x80_0000_0000_0000;

/// The largest operand that fits in the 56 operand bits of a word.
pub const MAX_OPERAND: i64 = 0x7F_FFFF_FFFF_FFFF;

/// Two to the power 56: the weight of the opcode byte in a word.
pub open spec fn operand_span() -> int {
    0x100_0000_0000_0000
}

/// Whether `v` can be represented in 56 signed bits.
pub open spec fn operand_fits(v: int) -> bool {
    MIN_OPERAND <= v <= MAX_OPERAND
}

/// The low 56 bits of the two's complement representation of `v`.
pub open spec fn operand_bits(v: int) -> int {
    v % operand_span()
}

/// The signed value of 56 operand bits.
pub open spec fn sign_extend(bits: int) -> int {
    if bits <= MAX_OPERAND {
        bits
    } else {
        bits - operand_span()
    }
}

/// An instruction whose operand is a plain integer. An address operand is
/// the index of the instruction to jump to; an instruction without an
/// operand carries 0.
#[derive(Debug, Clone, Copy, PartialEq, Eq, Structural)]
pub struct Instr {
    pub op: Op,
    pub value: i64,
}

impl Instr {
    /// Whether the operand fits in a word.
    pub open spec fn fits(self) -> bool {
        operand_fits(self.value as int)
    }

    /// The word of an instruction whose operand fits.
    pub open spec fn word(self) -> int {
        self.op.byte() * operand_span() + operand_bits(self.value as int)
    }

    /// The instruction that a word stands for, if its top byte is an opcode.
    pub open spec fn of_word(raw: u64) -> Option<Instr> {
        match Op::of_byte((raw / 0x100_0000_0000_0000) as u8) {
            Some(op) => Some(
                Instr { op, value: sign_extend(raw as int % operand_span()) as i64 },
            ),
            None => None,
        }
    }

    /// Tells whether the operand fits in the 56 operand bits of a word.
    pub fn operand_in_range(&self) -> (r: bool)
        ensures
            r == self.fits(),
    {
        MIN_OPERAND <= self.value && self.value <= MAX_OPERAND
    }

    /// Packs the instruction into a word, or returns `None` when the operand
    /// does not fit in 56 signed bits.
    pub fn to_u64(&self) -> (r: Option<u64>)
        ensures
            self.fits() ==> r == Some(self.word() as u64) && 0 <= self.word() <= u64::MAX,
            !self.fits() ==> r is None,
    {
        if !self.operand_in_range() {
            return None;
        }
        let code: u64 = self.op.code() as u64;
        let low: u64 = if self.value >= 0 {
            self.value as u64
        } else {
            (self.value + 0x100_0000_0000_0000) as u64
        };
        assert((code << 56) | low == code * 0x100_0000_0000_0000 + low) by (bit_vector)
            requires
                code < 256,
                low < 0x100_0000_0000_0000,
        ;
        Some((code << 56) | low)
    }

    /// Unpacks a word, or returns `None` when its top byte is no opcode. The
    /// operand is the low 56 bits, sign-extended.
    pub fn from_u64(raw: u64) -> (r: Option<Instr>)
        ensures
            r == Instr::of_word(raw),
    {
        let top: u64 = raw >> 56;
        let low: u64 = raw & 0x00FF_FFFF_FFFF_FFFF;
        assert(top == raw / 0x100_0000_0000_0000 && top < 256) by (bit_vector)
            requires
                top == raw >> 56,
        ;
        assert(low == raw % 0x100_0000_0000_0000) by (bit_vector)
            requires
                low == raw & 0x00FF_FFFF_FFFF_FFFF,
        ;
        match Op::from_repr(top as u8) {
            Some(op) => {
                let value: i64 = if low <= 0x7F_FFFF_FFFF_FFFF {
                    low as i64
                } else {
                    (low as i64) - 0x100_0000_0000_0000
                };
                Some(Instr { op, value })
            },
            None => None,
        }
    }
}

/// Unpacking the word of an instruction whose operand fits gives the
/// instruction back.
pub proof fn lemma_word_round_trip(instr: Instr)
    requires
        instr.fits(),
    ensures
        0 <= instr.word() <= u64::MAX,
        Instr::of_word(instr.word() as u64) == Some(instr),
{
    let span = operand_span();
    let bits = operand_bits(instr.value as int);
    let w = instr.word();
    crate::op::lemma_byte_round_trip(instr.op);
    assert(0 <= bits < span);
    assert(w / span == instr.op.byte() && w % span == bits) by {
        vstd::arithmetic::div_mod::lemma_fundamental_div_mod_converse(
            w,
            span,
            instr.op.byte() as int,
            bits,
        );
    }
    if instr.value >= 0 {
        assert(bits == instr.value) by {
            vstd::arithmetic::div_mod::lemma_small_mod(instr.value as nat, span as nat);
        }
    } else {
        assert(bits == instr.value + span) by {
            vstd::arithmetic::div_mod::lemma_fundamental_div_mod_converse(
                instr.value as int,
                span,
                -1,
                instr.value + span,
            );
        }
    }
}

/// A word whose top byte is an opcode unpacks to an instruction whose
/// operand fits and whose word is the same 64 bits: opcode byte and operand
/// bits both survive.
pub proof fn lemma_instr_round_trip(raw: u64)
    requires
        Instr::of_word(raw) is Some,
    ensures
        Instr::of_word(raw)->0.fits(),
        Instr::of_word(raw)->0.word() == raw,
        Instr::of_word(raw)->0.op.byte() == raw / 0x100_0000_0000_0000,
        operand_bits(Instr::of_word(raw)->0.value as int) == raw % 0x100_0000_0000_0000,
{
    let span = operand_span();
    let instr = Instr::of_word(raw)->0;
    let top = (raw / 0x100_0000_0000_0000) as u8;
    let low = raw as int % span;
    assert(raw / 0x100_0000_0000_0000 < 256);
    crate::op::lemma_of_byte(top);
    assert(instr.op.byte() == top);
    assert(instr.value == sign_extend(low));
    if low <= MAX_OPERAND {
        assert(operand_bits(instr.value as int) == low) by {
            vstd::arithmetic::div_mod::lemma_small_mod(low as nat, span as nat);
        }
    } else {
        assert(operand_bits(instr.value as int) == low) by {
            vstd::arithmetic::div_mod::lemma_fundamental_div_mod_converse(
                low - span,
                span,
                -1,
                low,
            );
        }
    }
}

} // verus!
