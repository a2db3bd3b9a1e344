use vstd::prelude::*;

use crate::error::Error;
use crate::spirv::{HEADER_WORDS, MAGIC_NUMBER};

verus! {

// The binary stream reader: turns a byte buffer into little-endian 32-bit
// words and validates the module header. Instruction stepping itself is
// driven by the module builder, which walks the word buffer by the word
// counts the instructions declare.

/// The word formed by four consecutive bytes, least significant first.
pub open spec fn word_of_bytes(b0: u8, b1: u8, b2: u8, b3: u8) -> u32 {
    (b0 as u32) | ((b1 as u32) << 8) | ((b2 as u32) << 16) | ((b3 as u32) << 24)
}

/// The word sequence a byte buffer denotes; bytes past the last whole word
/// are ignored (a buffer accepted by `build` has none).
pub open spec fn spec_words(bytes: Seq<u8>) -> Seq<u32> {
    Seq::new(
        (bytes.len() / 4) as nat,
        |i: int| word_of_bytes(bytes[4 * i], bytes[4 * i + 1], bytes[4 * i + 2], bytes[4 * i + 3]),
    )
}

/// Whether a word buffer starts with a structurally valid header: a full
/// five header words, the magic number, a version word of the supported
/// major revision, and a nonzero ID bound.
pub open spec fn header_ok(w: Seq<u32>) -> bool {
    &&& w.len() >= HEADER_WORDS
    &&& w[0] == MAGIC_NUMBER
    &&& w[1] >> 24 == 0u32
    &&& (w[1] >> 16) & 0xFF == 1u32
    &&& w[3] >= 1u32
}

/// Decodes the byte buffer into words, or reports the misalignment that
/// makes decoding impossible. No instruction is examined here.
pub fn decode_words(bytes: &[u8]) -> (r: Result<Vec<u32>, Error>)
    ensures
        match r {
            Ok(w) => bytes@.len() % 4 == 0 && w@ == spec_words(bytes@),
            Err(e) => e == Error::UnalignedBuffer && bytes@.len() % 4 != 0,
        },
{
    if bytes.len() % 4 != 0 {
        return Err(Error::UnalignedBuffer);
    }
    let n = bytes.len() / 4;
    proof {
        assert(4 * (bytes@.len() / 4) == bytes@.len()) by {
            vstd::arithmetic::div_mod::lemma_fundamental_div_mod(bytes@.len() as int, 4);
        }
    }
    let mut words: Vec<u32> = Vec::new();
    let mut i: usize = 0;
    let mut j: usize = 0;
    while i < n
        invariant
            i <= n,
            n == bytes@.len() / 4,
            4 * n == bytes@.len(),
            j == 4 * i,
            words@.len() == i,
            forall|k: int| 0 <= k < i ==> words@[k] == spec_words(bytes@)[k],
        decreases n - i,
    {
        let b0 = bytes[j];
        let b1 = bytes[j + 1];
        let b2 = bytes[j + 2];
        let b3 = bytes[j + 3];
        let w = (b0 as u32) | ((b1 as u32) << 8) | ((b2 as u32) << 16) | ((b3 as u32) << 24);
        words.push(w);
        i = i + 1;
        j = j + 4;
    }
    proof {
        assert(words@ =~= spec_words(bytes@));
    }
    Ok(words)
}

/// Checks the header of a decoded word buffer.
pub fn check_header(words: &Vec<u32>) -> (r: bool)
    ensures
        r == header_ok(words@),
{
    if words.len() < HEADER_WORDS {
        return false;
    }
    words[0] == MAGIC_NUMBER && words[1] >> 24 == 0 && (words[1] >> 16) & 0xFF == 1 && words[3] >= 1
}

} // verus!
