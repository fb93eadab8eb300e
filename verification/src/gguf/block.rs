//! The Q4_0 block format.
//!
//! A block holds 32 weights: one half-precision scale and 32 four-bit levels.
//! A file stores a block in 18 bytes: the scale, low byte first, then 16 bytes
//! of levels. A device buffer stores it in 20 bytes, that is five 32-bit words:
//! the scale in the low half of the first word, zeros in its high half, and the
//! same 16 bytes of levels in the other four.
//!
//! Byte `i` of the levels holds weight `i` in its low four bits and weight
//! `i + 16` in its high four bits. A level is stored with 8 added to it.
use vstd::prelude::*;

verus! {

/// Weights in one block.
pub const BLOCK_WEIGHTS: usize = 32;

/// Bytes of one block in a file.
pub const PACKED_BLOCK_BYTES: usize = 18;

/// Bytes of one block in a device buffer.
pub const ALIGNED_BLOCK_BYTES: usize = 20;

/// 32-bit words of one block in a device buffer.
pub const ALIGNED_BLOCK_WORDS: usize = 5;

// ---------------------------------------------------------------------------
// Blocks as bytes
// ---------------------------------------------------------------------------

/// The device buffer that holds the first `blocks` blocks of the file bytes `packed`.
pub open spec fn aligned_bytes(packed: Seq<u8>, blocks: nat) -> Seq<u8> {
    Seq::new(
        20 * blocks,
        |p: int|
            {
                let block = p / 20;
                let offset = p % 20;
                if offset < 2 {
                    packed[18 * block + offset]
                } else if offset < 4 {
                    0u8
                } else {
                    packed[18 * block + offset - 2]
                }
            },
    )
}

/// The file bytes of the first `blocks` blocks of the device buffer `aligned`.
pub open spec fn packed_bytes(aligned: Seq<u8>, blocks: nat) -> Seq<u8> {
    Seq::new(
        18 * blocks,
        |p: int|
            {
                let block = p / 18;
                let offset = p % 18;
                if offset < 2 {
                    aligned[20 * block + offset]
                } else {
                    aligned[20 * block + offset + 2]
                }
            },
    )
}

/// Four bits of the byte that holds weight `weight` of a block: the low ones for
/// the first 16 weights, the high ones for the others.
pub open spec fn nibble(byte: int, weight: int) -> int {
    if weight < 16 {
        byte % 16
    } else {
        byte / 16
    }
}

/// The scale of a block in a device buffer, as a half-precision bit pattern.
pub open spec fn scale_pattern(aligned: Seq<u8>, block: int) -> int {
    aligned[20 * block] + 256 * aligned[20 * block + 1]
}

/// The level, from -8 to 7, of a weight of a block in a device buffer.
pub open spec fn level(aligned: Seq<u8>, block: int, weight: int) -> int {
    nibble(aligned[20 * block + 4 + weight % 16] as int, weight) - 8
}

// ---------------------------------------------------------------------------
// Blocks as words
// ---------------------------------------------------------------------------

/// The little-endian 32-bit word at index `index` of `bytes`.
pub open spec fn word_at(bytes: Seq<u8>, index: int) -> u32 {
    (bytes[4 * index] + 0x100 * bytes[4 * index + 1] + 0x1_0000 * bytes[4 * index + 2] + 0x100_0000
        * bytes[4 * index + 3]) as u32
}

/// The words that a device reads from a buffer of bytes.
pub open spec fn words_of(bytes: Seq<u8>) -> Seq<u32> {
    Seq::new(bytes.len() / 4, |index: int| word_at(bytes, index))
}

/// Byte `index` of a word, the lowest byte first.
pub open spec fn byte_of(word: u32, index: int) -> int {
    if index == 0 {
        word as int % 256
    } else if index == 1 {
        word as int / 0x100 % 256
    } else if index == 2 {
        word as int / 0x1_0000 % 256
    } else {
        word as int / 0x100_0000
    }
}

/// The scale of a block, as a half-precision bit pattern.
pub open spec fn word_scale_pattern(words: Seq<u32>, block: int) -> int {
    words[5 * block] as int % 0x1_0000
}

/// The level, from -8 to 7, of a weight of a block.
pub open spec fn word_level(words: Seq<u32>, block: int, weight: int) -> int {
    let byte = weight % 16;
    nibble(byte_of(words[5 * block + 1 + byte / 4], byte % 4), weight) - 8
}

} // verus!
