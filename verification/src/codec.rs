//! The bytecode format: a flat run of 8-byte big-endian words, one per
//! instruction, with no header.

use vstd::prelude::*;
use crate::instr::Instr;

verus! {

/// The number of bytes that one instruction takes.
pub const INSTR_SIZE: usize = 8;

/// Why a byte buffer could not be read as instructions, or a sequence of
/// instructions not be written as bytes.
#[derive(Debug, Clone, Copy, PartialEq, Eq, Structural)]
pub enum DecodeError {
    /// The number of bytes, which is carried along, is no multiple of 8.
    InvalidLength(usize),
    /// The top byte of the word at `index` is no opcode.
    InvalidOpcode { byte: u8, index: usize },
    /// The operand of the instruction at `index` does not fit in 56 signed
    /// bits.
    OperandOverflow { index: usize, value: i64 },
}

/// The eight bytes of a word, most significant first.
pub open spec fn word_bytes(w: u64) -> Seq<u8> {
    seq![
        (w / 0x100_0000_0000_0000) as u8,
        (w / 0x1_0000_0000_0000 % 0x100) as u8,
        (w / 0x100_0000_0000 % 0x100) as u8,
        (w / 0x1_0000_0000 % 0x100) as u8,
        (w / 0x100_0000 % 0x100) as u8,
        (w / 0x1_0000 % 0x100) as u8,
        (w / 0x100 % 0x100) as u8,
        (w % 0x100) as u8,
    ]
}

/// The word that eight bytes spell, most significant first.
pub open spec fn bytes_word(b: Seq<u8>) -> u64
    recommends
        b.len() == 8,
{
    (b[0] * 0x100_0000_0000_0000 + b[1] * 0x1_0000_0000_0000 + b[2] * 0x100_0000_0000 + b[3]
        * 0x1_0000_0000 + b[4] * 0x100_0000 + b[5] * 0x1_0000 + b[6] * 0x100 + b[7]) as u64
}

/// The word at position `index` of a byte buffer.
pub open spec fn word_at(bytes: Seq<u8>, index: int) -> u64 {
    bytes_word(bytes.subrange(8 * index, 8 * index + 8))
}

/// Whether every operand of `code` fits in a word.
pub open spec fn encodable(code: Seq<Instr>) -> bool {
    forall|i: int| 0 <= i < code.len() ==> (#[trigger] code[i]).fits()
}

/// The bytes of a sequence of instructions whose operands fit: the words of
/// the instructions, in order.
pub open spec fn encoding(code: Seq<Instr>) -> Seq<u8> {
    Seq::new(8 * code.len(), |k: int| word_bytes(code[k / 8].word() as u64)[k % 8])
}

/// Whether `bytes` is a whole number of words, each with an opcode in its
/// top byte.
pub open spec fn decodable(bytes: Seq<u8>) -> bool {
    &&& bytes.len() % 8 == 0
    &&& forall|i: int|
        0 <= i < bytes.len() / 8 ==> Instr::of_word(#[trigger] word_at(bytes, i)) is Some
}

/// The instructions that a decodable byte buffer holds.
pub open spec fn decoding(bytes: Seq<u8>) -> Seq<Instr> {
    Seq::new(bytes.len() / 8, |i: int| Instr::of_word(word_at(bytes, i))->0)
}

/// Splits a word into its eight bytes, most significant first.
pub fn to_be_bytes(w: u64) -> (b: [u8; 8])
    ensures
        b@ == word_bytes(w),
{
    let b0: u8 = (w >> 56) as u8;
    let b1: u8 = ((w >> 48) & 0xff) as u8;
    let b2: u8 = ((w >> 40) & 0xff) as u8;
    let b3: u8 = ((w >> 32) & 0xff) as u8;
    let b4: u8 = ((w >> 24) & 0xff) as u8;
    let b5: u8 = ((w >> 16) & 0xff) as u8;
    let b6: u8 = ((w >> 8) & 0xff) as u8;
    let b7: u8 = (w & 0xff) as u8;
    assert(w >> 56 == w / 0x100_0000_0000_0000 && (w >> 56) < 0x100) by (bit_vector);
    assert((w >> 48) & 0xff == w / 0x1_0000_0000_0000 % 0x100) by (bit_vector);
    assert((w >> 40) & 0xff == w / 0x100_0000_0000 % 0x100) by (bit_vector);
    assert((w >> 32) & 0xff == w / 0x1_0000_0000 % 0x100) by (bit_vector);
    assert((w >> 24) & 0xff == w / 0x100_0000 % 0x100) by (bit_vector);
    assert((w >> 16) & 0xff == w / 0x1_0000 % 0x100) by (bit_vector);
    assert((w >> 8) & 0xff == w / 0x100 % 0x100) by (bit_vector);
    assert(w & 0xff == w % 0x100) by (bit_vector);
    let b = [b0, b1, b2, b3, b4, b5, b6, b7];
    assert(b@ =~= word_bytes(w));
    b
}

/// Joins the eight bytes that start at `8 * index` into a word, most
/// significant first.
pub fn word_from_be_bytes(bytes: &[u8], index: usize) -> (w: u64)
    requires
        8 * index + 8 <= bytes@.len(),
    ensures
        w == word_at(bytes@, index as int),
{
    let len: usize = bytes.len();
    assert(8 * index + 8 <= len);
    let at: usize = index * 8;
    let b0: u64 = bytes[at] as u64;
    let b1: u64 = bytes[at + 1] as u64;
    let b2: u64 = bytes[at + 2] as u64;
    let b3: u64 = bytes[at + 3] as u64;
    let b4: u64 = bytes[at + 4] as u64;
    let b5: u64 = bytes[at + 5] as u64;
    let b6: u64 = bytes[at + 6] as u64;
    let b7: u64 = bytes[at + 7] as u64;
    let w: u64 = (b0 << 56) | (b1 << 48) | (b2 << 40) | (b3 << 32) | (b4 << 24) | (b5 << 16) | (b6
        << 8) | b7;
    assert(w == b0 * 0x100_0000_0000_0000 + b1 * 0x1_0000_0000_0000 + b2 * 0x100_0000_0000 + b3
        * 0x1_0000_0000 + b4 * 0x100_0000 + b5 * 0x1_0000 + b6 * 0x100 + b7) by (bit_vector)
        requires
            w == (b0 << 56) | (b1 << 48) | (b2 << 40) | (b3 << 32) | (b4 << 24) | (b5 << 16) | (b6
                << 8) | b7,
            b0 < 0x100,
            b1 < 0x100,
            b2 < 0x100,
            b3 < 0x100,
            b4 < 0x100,
            b5 < 0x100,
            b6 < 0x100,
            b7 < 0x100,
    ;
    proof {
        let part = bytes@.subrange(8 * index, 8 * index + 8);
        assert(part[0] == bytes@[at as int]);
        assert(part[1] == bytes@[at + 1]);
        assert(part[2] == bytes@[at + 2]);
        assert(part[3] == bytes@[at + 3]);
        assert(part[4] == bytes@[at + 4]);
        assert(part[5] == bytes@[at + 5]);
        assert(part[6] == bytes@[at + 6]);
        assert(part[7] == bytes@[at + 7]);
    }
    w
}

/// Reads a byte buffer as a sequence of instructions.
///
/// Fails with `InvalidLength` when the number of bytes is no multiple of 8,
/// and otherwise with `InvalidOpcode` for the first word whose top byte is no
/// opcode.
pub fn decode_instructions(bytes: Vec<u8>) -> (r: Result<Vec<Instr>, DecodeError>)
    ensures
        r is Ok <==> decodable(bytes@),
        r matches Ok(code) ==> code@ == decoding(bytes@),
        bytes@.len() % 8 != 0 ==> r == Err::<Vec<Instr>, DecodeError>(
            DecodeError::InvalidLength(bytes.len()),
        ),
        bytes@.len() % 8 == 0 && r is Err ==> {
            &&& r matches Err(DecodeError::InvalidOpcode { byte, index })
            &&& index < bytes@.len() / 8
            &&& byte == word_at(bytes@, index as int) / 0x100_0000_0000_0000
            &&& Instr::of_word(word_at(bytes@, index as int)) is None
            &&& forall|j: int|
                0 <= j < index ==> Instr::of_word(#[trigger] word_at(bytes@, j)) is Some
        },
{
    if bytes.len() % INSTR_SIZE != 0 {
        return Err(DecodeError::InvalidLength(bytes.len()));
    }
    let count: usize = bytes.len() / INSTR_SIZE;
    let mut result: Vec<Instr> = Vec::new();
    let mut n: usize = 0;
    while n < count
        invariant
            n <= count,
            count == bytes@.len() / 8,
            bytes@.len() % 8 == 0,
            result@.len() == n,
            forall|j: int|
                0 <= j < n ==> Instr::of_word(#[trigger] word_at(bytes@, j)) == Some(result@[j]),
        decreases count - n,
    {
        let raw = word_from_be_bytes(bytes.as_slice(), n);
        match Instr::from_u64(raw) {
            Some(instr) => {
                result.push(instr);
            },
            None => {
                let top: u64 = raw >> 56;
                assert(top == raw / 0x100_0000_0000_0000 && top < 256) by (bit_vector)
                    requires
                        top == raw >> 56,
                ;
                return Err(DecodeError::InvalidOpcode { byte: top as u8, index: n });
            },
        }
        n += 1;
    }
    assert(result@ =~= decoding(bytes@));
    Ok(result)
}

/// Writes a sequence of instructions as bytes, one big-endian word each.
///
/// Fails with `OperandOverflow` for the first instruction whose operand does
/// not fit in 56 signed bits.
pub fn encode_instructions(bytecode: &[Instr]) -> (r: Result<Vec<u8>, DecodeError>)
    ensures
        r is Ok <==> encodable(bytecode@),
        r matches Ok(bytes) ==> bytes@ == encoding(bytecode@),
        r is Err ==> {
            &&& r matches Err(DecodeError::OperandOverflow { index, value })
            &&& index < bytecode@.len()
            &&& value == bytecode@[index as int].value
            &&& !bytecode@[index as int].fits()
            &&& forall|j: int| 0 <= j < index ==> (#[trigger] bytecode@[j]).fits()
        },
{
    let mut result: Vec<u8> = Vec::new();
    let mut n: usize = 0;
    while n < bytecode.len()
        invariant
            n <= bytecode@.len(),
            forall|j: int| 0 <= j < n ==> (#[trigger] bytecode@[j]).fits(),
            result@ == encoding(bytecode@.take(n as int)),
        decreases bytecode@.len() - n,
    {
        let instr = &bytecode[n];
        match instr.to_u64() {
            Some(word) => {
                let bytes = to_be_bytes(word);
                let ghost before = result@;
                let mut k: usize = 0;
                while k < INSTR_SIZE
                    invariant
                        k <= 8,
                        bytes@ == word_bytes(word),
                        result@ == before + bytes@.take(k as int),
                    decreases 8 - k,
                {
                    result.push(bytes[k]);
                    k += 1;
                }
                proof {
                    lemma_encoding_push(bytecode@.take(n as int), *instr);
                    assert(bytecode@.take(n as int).push(*instr) =~= bytecode@.take(n + 1));
                    assert(bytes@.take(8) =~= bytes@);
                }
            },
            None => {
                return Err(DecodeError::OperandOverflow { index: n, value: instr.value });
            },
        }
        n += 1;
    }
    assert(bytecode@.take(n as int) =~= bytecode@);
    Ok(result)
}

/// The bytes of a sequence grow by the eight bytes of the new instruction's
/// word when an instruction is appended.
pub proof fn lemma_encoding_push(code: Seq<Instr>, instr: Instr)
    ensures
        encoding(code.push(instr)) == encoding(code) + word_bytes(instr.word() as u64),
{
    let longer = code.push(instr);
    let joined = encoding(code) + word_bytes(instr.word() as u64);
    assert(encoding(longer).len() == joined.len());
    assert forall|k: int| 0 <= k < joined.len() implies encoding(longer)[k] == joined[k] by {
        if k < 8 * code.len() {
            assert(longer[k / 8] == code[k / 8]);
        } else {
            assert(k / 8 == code.len());
            assert(k % 8 == k - 8 * code.len());
        }
    }
    assert(encoding(longer) =~= joined);
}

/// Joining the bytes of a word gives the word back.
pub proof fn lemma_bytes_of_word(w: u64)
    ensures
        word_bytes(w).len() == 8,
        bytes_word(word_bytes(w)) == w,
{
    assert(w / 0x100_0000_0000_0000 < 0x100 && (w / 0x100_0000_0000_0000) * 0x100_0000_0000_0000 + (
    w / 0x1_0000_0000_0000 % 0x100) * 0x1_0000_0000_0000 + (w / 0x100_0000_0000 % 0x100)
        * 0x100_0000_0000 + (w / 0x1_0000_0000 % 0x100) * 0x1_0000_0000 + (w / 0x100_0000 % 0x100)
        * 0x100_0000 + (w / 0x1_0000 % 0x100) * 0x1_0000 + (w / 0x100 % 0x100) * 0x100 + w % 0x100
        == w) by (bit_vector);
}

/// Splitting the word that eight bytes spell gives the bytes back.
pub proof fn lemma_word_of_bytes(b: Seq<u8>)
    requires
        b.len() == 8,
    ensures
        word_bytes(bytes_word(b)) == b,
{
    let b0 = b[0];
    let b1 = b[1];
    let b2 = b[2];
    let b3 = b[3];
    let b4 = b[4];
    let b5 = b[5];
    let b6 = b[6];
    let b7 = b[7];
    let w = bytes_word(b);
    assert(w / 0x100_0000_0000_0000 == b0 && w / 0x1_0000_0000_0000 % 0x100 == b1 && w
        / 0x100_0000_0000 % 0x100 == b2 && w / 0x1_0000_0000 % 0x100 == b3 && w / 0x100_0000
        % 0x100 == b4 && w / 0x1_0000 % 0x100 == b5 && w / 0x100 % 0x100 == b6 && w % 0x100 == b7)
        by (bit_vector)
        requires
            w == b0 * 0x100_0000_0000_0000 + b1 * 0x1_0000_0000_0000 + b2 * 0x100_0000_0000 + b3
                * 0x1_0000_0000 + b4 * 0x100_0000 + b5 * 0x1_0000 + b6 * 0x100 + b7,
    ;
    assert(word_bytes(w) =~= b);
}

/// Round trip, bytes after instructions: a sequence whose operands all fit
/// is read back unchanged from its bytes.
pub proof fn lemma_decode_encode(code: Seq<Instr>)
    requires
        encodable(code),
    ensures
        decodable(encoding(code)),
        decoding(encoding(code)) == code,
{
    let bytes = encoding(code);
    assert forall|i: int| 0 <= i < bytes.len() / 8 implies Instr::of_word(
        #[trigger] word_at(bytes, i),
    ) == Some(code[i]) by {
        let w = code[i].word() as u64;
        let part = bytes.subrange(8 * i, 8 * i + 8);
        assert(part =~= word_bytes(w)) by {
            assert forall|k: int| 0 <= k < 8 implies part[k] == word_bytes(w)[k] by {
                assert((8 * i + k) / 8 == i);
                assert((8 * i + k) % 8 == k);
            }
        }
        lemma_bytes_of_word(w);
        assert(code[i].fits());
        crate::instr::lemma_word_round_trip(code[i]);
    }
    assert(decoding(bytes) =~= code);
}

/// Round trip, instructions after bytes: a decodable buffer holds
/// instructions whose operands all fit, and writing them gives the same
/// bytes, opcode bytes and operand bits alike.
pub proof fn lemma_encode_decode(bytes: Seq<u8>)
    requires
        decodable(bytes),
    ensures
        encodable(decoding(bytes)),
        encoding(decoding(bytes)) == bytes,
{
    let code = decoding(bytes);
    assert forall|i: int| 0 <= i < code.len() implies (#[trigger] code[i]).fits() && code[i].word()
        == word_at(bytes, i) by {
        assert(Instr::of_word(word_at(bytes, i)) is Some);
        crate::instr::lemma_instr_round_trip(word_at(bytes, i));
    }
    assert forall|k: int| 0 <= k < bytes.len() implies encoding(code)[k] == bytes[k] by {
        let i = k / 8;
        assert(code[i].fits() && code[i].word() == word_at(bytes, i));
        let part = bytes.subrange(8 * i, 8 * i + 8);
        lemma_word_of_bytes(part);
        assert(part[k % 8] == bytes[8 * i + k % 8]);
    }
    assert(encoding(code) =~= bytes);
}

} // verus!
