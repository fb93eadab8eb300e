//! Q4_0 weight tensors.
//!
//! The weights themselves lie in a device buffer. A [`Q4Tensor`] knows their shape
//! and turns file bytes into the buffer to upload, and a buffer that was read back
//! into file bytes or into weights.
use vstd::prelude::*;
use vstd::string::StringExecFns;

use crate::gguf::block::{
    aligned_bytes, level, packed_bytes, scale_pattern, ALIGNED_BLOCK_BYTES, BLOCK_WEIGHTS,
    PACKED_BLOCK_BYTES,
};
use crate::text::{decimal, push_decimal};

verus! {

/// Why file bytes are not a Q4_0 tensor of some shape.
#[derive(Clone, Copy, Debug, PartialEq, Eq, Structural)]
pub enum Q4Error {
    /// The number of weights is not a multiple of 32.
    ElementCount { num_elements: usize },
    /// The number of bytes is not that of the blocks.
    ByteCount { expected_bytes: usize, num_blocks: usize, got: usize },
}

impl Q4Error {
    /// The error in words.
    pub fn message(&self) -> (text: String)
        ensures
            text@ == (match *self {
                Q4Error::ElementCount { num_elements } => {
                    "Q4_0 requires element count divisible by 32, got "@ + decimal(
                        num_elements as nat,
                    )
                },
                Q4Error::ByteCount { expected_bytes, num_blocks, got } => {
                    "Q4_0 byte count mismatch: expected "@ + decimal(expected_bytes as nat)
                        + " for "@ + decimal(num_blocks as nat) + " blocks, got "@ + decimal(
                        got as nat,
                    )
                },
            }),
    {
        match *self {
            Q4Error::ElementCount { num_elements } => {
                let mut text: String = String::from_str(
                    "Q4_0 requires element count divisible by 32, got ",
                );
                push_decimal(&mut text, num_elements);
                text
            },
            Q4Error::ByteCount { expected_bytes, num_blocks, got } => {
                let mut text: String = String::from_str("Q4_0 byte count mismatch: expected ");
                push_decimal(&mut text, expected_bytes);
                text.append(" for ");
                push_decimal(&mut text, num_blocks);
                text.append(" blocks, got ");
                push_decimal(&mut text, got);
                text
            },
        }
    }
}

/// A dequantized weight: `level × scale`, where `scale` is the half-precision value
/// with the bit pattern `scale_bits`.
#[derive(Clone, Copy, Debug, PartialEq, Eq, Structural)]
pub struct Weight {
    pub level: i8,
    pub scale_bits: u16,
}

/// The weights of the first `blocks` blocks of a device buffer, in order.
pub open spec fn weights_of(aligned: Seq<u8>, blocks: nat) -> Seq<Weight> {
    Seq::new(
        32 * blocks,
        |i: int|
            Weight {
                level: level(aligned, i / 32, i % 32) as i8,
                scale_bits: scale_pattern(aligned, i / 32) as u16,
            },
    )
}

/// A Q4_0 weight tensor of shape `[N, K]`, that is `[out_features, in_features]`.
///
/// Its device buffer holds `N * K / 32` blocks of 20 bytes.
#[derive(Clone, Copy, Debug)]
pub struct Q4Tensor {
    shape: [usize; 2],
    num_blocks: usize,
}

impl Q4Tensor {
    /// The number of weight rows, `N`.
    pub closed spec fn out_features(self) -> usize {
        self.shape@[0]
    }

    /// The number of weights in a row, `K`.
    pub closed spec fn in_features(self) -> usize {
        self.shape@[1]
    }

    /// The number of blocks.
    pub open spec fn blocks(self) -> nat {
        (self.out_features() * self.in_features() / 32) as nat
    }

    #[verifier::type_invariant]
    spec fn wf(self) -> bool {
        &&& self.out_features() * self.in_features() == 32 * self.num_blocks
        &&& 32 * self.num_blocks <= usize::MAX
    }

    /// Checks raw Q4_0 bytes against the shape `[N, K]`, and gives the tensor and the
    /// device buffer to upload for it.
    ///
    /// `raw_bytes` must have exactly `(N * K / 32) * 18` bytes. The buffer has the
    /// same blocks, each padded from 18 to 20 bytes.
    pub fn from_q4_bytes(raw_bytes: &[u8], shape: [usize; 2]) -> (result: Result<
        (Q4Tensor, Vec<u8>),
        Q4Error,
    >)
        requires
            shape@[0] * shape@[1] <= usize::MAX,
        ensures
            match result {
                Ok((tensor, buffer)) => {
                    &&& shape@[0] * shape@[1] % 32 == 0
                    &&& raw_bytes@.len() == shape@[0] * shape@[1] / 32 * 18
                    &&& tensor.out_features() == shape@[0]
                    &&& tensor.in_features() == shape@[1]
                    &&& buffer@ == aligned_bytes(raw_bytes@, tensor.blocks())
                    &&& buffer@.len() == shape@[0] * shape@[1] / 32 * 20
                    &&& forall|p: int|
                        0 <= p < buffer@.len() ==> #[trigger] buffer@[p] == (if p % 20 < 2 {
                            raw_bytes@[18 * (p / 20) + p % 20]
                        } else if p % 20 < 4 {
                            0
                        } else {
                            raw_bytes@[18 * (p / 20) + p % 20 - 2]
                        })
                },
                Err(Q4Error::ElementCount { num_elements }) => {
                    &&& num_elements == shape@[0] * shape@[1]
                    &&& num_elements % 32 != 0
                },
                Err(Q4Error::ByteCount { expected_bytes, num_blocks, got }) => {
                    &&& shape@[0] * shape@[1] % 32 == 0
                    &&& num_blocks == shape@[0] * shape@[1] / 32
                    &&& expected_bytes == num_blocks * 18
                    &&& got == raw_bytes@.len()
                    &&& got != expected_bytes
                },
            },
    {
        let n: usize = shape[0];
        let k: usize = shape[1];
        assert(k * n == n * k) by (nonlinear_arith);
        let num_elements: usize = k * n;
        if num_elements % BLOCK_WEIGHTS != 0 {
            return Err(Q4Error::ElementCount { num_elements });
        }
        let num_blocks: usize = num_elements / BLOCK_WEIGHTS;
        let expected_bytes: usize = num_blocks * PACKED_BLOCK_BYTES;
        if raw_bytes.len() != expected_bytes {
            return Err(Q4Error::ByteCount { expected_bytes, num_blocks, got: raw_bytes.len() });
        }
        let buffer: Vec<u8> = repack(raw_bytes, num_blocks);
        Ok((Q4Tensor { shape, num_blocks }, buffer))
    }

    /// The shape `[N, K]`.
    pub fn shape(&self) -> (shape: [usize; 2])
        ensures
            shape@[0] == self.out_features(),
            shape@[1] == self.in_features(),
    {
        self.shape
    }

    /// The number of Q4_0 blocks.
    pub fn num_blocks(&self) -> (num_blocks: usize)
        ensures
            num_blocks == self.blocks(),
            32 * num_blocks == self.out_features() * self.in_features(),
            32 * num_blocks <= usize::MAX,
    {
        proof {
            use_type_invariant(self);
        }
        self.num_blocks
    }

    /// The Q4_0 file bytes of the tensor, from the bytes `raw` that were read back
    /// from its device buffer. A buffer may be longer than the tensor.
    pub fn read_bytes(&self, raw: &[u8]) -> (bytes: Vec<u8>)
        requires
            20 * self.blocks() <= raw@.len(),
        ensures
            bytes@ == packed_bytes(raw@, self.blocks()),
            bytes@.len() == 18 * self.blocks(),
            forall|p: int|
                0 <= p < bytes@.len() ==> #[trigger] bytes@[p] == (if p % 18 < 2 {
                    raw@[20 * (p / 18) + p % 18]
                } else {
                    raw@[20 * (p / 18) + p % 18 + 2]
                }),
    {
        let num_blocks: usize = self.num_blocks();
        let mut out: Vec<u8> = Vec::with_capacity(num_blocks * PACKED_BLOCK_BYTES);
        let ghost all = packed_bytes(raw@, num_blocks as nat);
        let mut i: usize = 0;
        while i < num_blocks
            invariant
                i <= num_blocks,
                20 * num_blocks <= raw.len(),
                all == packed_bytes(raw@, num_blocks as nat),
                out@ == all.take(18 * i),
            decreases num_blocks - i,
        {
            let base: usize = i * ALIGNED_BLOCK_BYTES;
            push_range(&mut out, raw, base, base + 2);
            push_range(&mut out, raw, base + 4, base + 20);
            proof {
                let block = raw@.subrange(base as int, base + 2) + raw@.subrange(
                    base + 4,
                    base + 20,
                );
                assert forall|j: int| 0 <= j < 18 implies all[18 * i + j] == block[j] by {
                    assert((18 * i + j) / 18 == i);
                    assert((18 * i + j) % 18 == j);
                }
                assert(all.take(18 * i + 18) =~= all.take(18 * i) + block);
            }
            i = i + 1;
        }
        assert(all.take(18 * num_blocks) == all);
        out
    }

    /// The weights of the tensor, row by row, from the bytes `raw` that were read back
    /// from its device buffer.
    pub fn dequantize(&self, raw: &[u8]) -> (weights: Vec<Weight>)
        requires
            20 * self.blocks() <= raw@.len(),
        ensures
            weights@.len() == self.out_features() * self.in_features(),
            weights@ == weights_of(raw@, self.blocks()),
            forall|i: int|
                0 <= i < weights@.len() ==> (#[trigger] weights@[i]).scale_bits == raw@[20 * (i
                    / 32)] + 256 * raw@[20 * (i / 32) + 1],
            forall|i: int|
                0 <= i < weights@.len() ==> (#[trigger] weights@[i]).level == (if i % 32 < 16 {
                    raw@[20 * (i / 32) + 4 + i % 16] % 16 - 8
                } else {
                    raw@[20 * (i / 32) + 4 + i % 16] / 16 - 8
                }),
    {
        let num_blocks: usize = self.num_blocks();
        let num_elements: usize = num_blocks * BLOCK_WEIGHTS;
        let mut output: Vec<Weight> = Vec::with_capacity(num_elements);
        while output.len() < num_elements
            invariant
                output.len() <= num_elements,
            decreases num_elements - output.len(),
        {
            output.push(Weight { level: 0, scale_bits: 0 });
        }
        let ghost all = weights_of(raw@, num_blocks as nat);
        let mut block_idx: usize = 0;
        while block_idx < num_blocks
            invariant
                block_idx <= num_blocks,
                20 * num_blocks <= raw.len(),
                32 * num_blocks <= usize::MAX,
                all == weights_of(raw@, num_blocks as nat),
                output@.len() == 32 * num_blocks,
                forall|i: int| 0 <= i < 32 * block_idx ==> output@[i] == all[i],
            decreases num_blocks - block_idx,
        {
            let offset: usize = block_idx * ALIGNED_BLOCK_BYTES;
            let scale_bits: u16 = raw[offset] as u16 + 256 * raw[offset + 1] as u16;
            let base: usize = block_idx * BLOCK_WEIGHTS;
            let mut i: usize = 0;
            while i < 16
                invariant
                    i <= 16,
                    block_idx < num_blocks,
                    20 * num_blocks <= raw.len(),
                    32 * num_blocks <= usize::MAX,
                    offset == 20 * block_idx,
                    base == 32 * block_idx,
                    scale_bits == scale_pattern(raw@, block_idx as int),
                    all == weights_of(raw@, num_blocks as nat),
                    output@.len() == 32 * num_blocks,
                    forall|j: int| 0 <= j < base + i ==> output@[j] == all[j],
                    forall|j: int| base + 16 <= j < base + 16 + i ==> output@[j] == all[j],
                decreases 16 - i,
            {
                let byte: u8 = raw[offset + 4 + i];
                assert((byte & 0x0F) == byte % 16) by (bit_vector);
                assert(((byte >> 4) & 0x0F) == byte / 16) by (bit_vector);
                let lo: i8 = (byte & 0x0F) as i8 - 8;
                let hi: i8 = ((byte >> 4) & 0x0F) as i8 - 8;
                output.set(base + i, Weight { level: lo, scale_bits });
                output.set(base + i + 16, Weight { level: hi, scale_bits });
                proof {
                    assert((base + i) / 32 == block_idx && (base + i) % 32 == i);
                    assert((base + i + 16) / 32 == block_idx && (base + i + 16) % 32 == i + 16);
                    assert((i + 16) % 16 == i);
                }
                i = i + 1;
            }
            block_idx = block_idx + 1;
        }
        assert(output@ =~= all);
        output
    }
}

/// Appends `bytes[from..to]`.
fn push_range(out: &mut Vec<u8>, bytes: &[u8], from: usize, to: usize)
    requires
        from <= to <= bytes@.len(),
    ensures
        final(out)@ == old(out)@ + bytes@.subrange(from as int, to as int),
{
    let mut i: usize = from;
    while i < to
        invariant
            from <= i <= to <= bytes@.len(),
            out@ == old(out)@ + bytes@.subrange(from as int, i as int),
        decreases to - i,
    {
        out.push(bytes[i]);
        assert(bytes@.subrange(from as int, i + 1) == bytes@.subrange(from as int, i as int).push(
            bytes@[i as int],
        ));
        i = i + 1;
    }
}

/// Pads every 18-byte block of `raw_bytes` to 20 bytes.
fn repack(raw_bytes: &[u8], num_blocks: usize) -> (repacked: Vec<u8>)
    requires
        raw_bytes@.len() == 18 * num_blocks,
        20 * num_blocks <= usize::MAX,
    ensures
        repacked@ == aligned_bytes(raw_bytes@, num_blocks as nat),
{
    let mut repacked: Vec<u8> = Vec::with_capacity(num_blocks * ALIGNED_BLOCK_BYTES);
    let ghost all = aligned_bytes(raw_bytes@, num_blocks as nat);
    let mut i: usize = 0;
    while i < num_blocks
        invariant
            i <= num_blocks,
            raw_bytes.len() == 18 * num_blocks,
            all == aligned_bytes(raw_bytes@, num_blocks as nat),
            repacked@ == all.take(20 * i),
        decreases num_blocks - i,
    {
        let src: usize = i * PACKED_BLOCK_BYTES;
        repacked.push(raw_bytes[src]);
        repacked.push(raw_bytes[src + 1]);
        repacked.push(0u8);
        repacked.push(0u8);
        push_range(&mut repacked, raw_bytes, src + 2, src + 18);
        proof {
            let block = seq![raw_bytes@[src as int], raw_bytes@[src + 1], 0u8, 0u8]
                + raw_bytes@.subrange(src + 2, src + 18);
            assert forall|j: int| 0 <= j < 20 implies all[20 * i + j] == block[j] by {
                assert((20 * i + j) / 20 == i);
                assert((20 * i + j) % 20 == j);
            }
            assert(repacked@ =~= all.take(20 * i) + block);
            assert(all.take(20 * i + 20) =~= all.take(20 * i) + block);
        }
        i = i + 1;
    }
    assert(all.take(20 * num_blocks) == all);
    repacked
}

} // verus!
