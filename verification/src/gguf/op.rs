//! The fused dequantize-and-multiply kernels and their launches.
use vstd::prelude::*;

use crate::gguf::block::{
    byte_of, word_at, word_level, word_scale_pattern, words_of, ALIGNED_BLOCK_WORDS, BLOCK_WEIGHTS,
};
use crate::gguf::tensor::Q4Tensor;

verus! {

/// The tiled kernel runs where `M` is at most this, the naive kernel elsewhere.
pub const TILED_M_THRESHOLD: usize = 4;

/// Threads in a cube of the tiled kernel.
pub const TILED_WG_X: usize = 32;

/// Elements of the input row in a tile of the tiled kernel, a multiple of 32.
pub const TILE_K: usize = 256;

/// Width of a cube of the naive kernel.
pub const NAIVE_WG_X: usize = 16;

/// Height of a cube of the naive kernel.
pub const NAIVE_WG_Y: usize = 16;

/// The single-precision bit pattern that a kernel makes of a half-precision one:
/// the same sign and fraction, and the exponent moved from bias 15 to bias 127.
pub open spec fn widened_pattern(pattern: int) -> int {
    pattern / 0x8000 % 2 * 0x8000_0000 + (pattern / 0x400 % 32 + 112) * 0x80_0000 + pattern % 0x400
        * 0x2000
}

/// Converts the half-precision bit pattern in the low 16 bits of `bits` to a
/// single-precision bit pattern.
pub fn f16_bits_to_f32(bits: u32) -> (pattern: u32)
    ensures
        pattern == widened_pattern(bits as int),
{
    let sign: u32 = (bits >> 15u32) & 1u32;
    let exp: u32 = (bits >> 10u32) & 0x1Fu32;
    let frac: u32 = bits & 0x3FFu32;
    proof {
        assert(((bits >> 15u32) & 1u32) == bits / 0x8000 % 2) by (bit_vector);
        assert(((bits >> 10u32) & 0x1Fu32) == bits / 0x400 % 32) by (bit_vector);
        assert((bits & 0x3FFu32) == bits % 0x400) by (bit_vector);
        let e: u32 = (exp + 112) as u32;
        assert(((sign << 31u32) | (e << 23u32) | (frac << 13u32)) == sign * 0x8000_0000 + e
            * 0x80_0000 + frac * 0x2000) by (bit_vector)
            requires
                sign < 2,
                e < 256,
                frac < 0x400,
        ;
    }
    (sign << 31u32) | ((exp + 112u32) << 23u32) | (frac << 13u32)
}

/// One step of a dot product: `level × scale × input[input]`, where `scale` is
/// the single-precision value with the bit pattern `scale_bits`.
#[derive(Clone, Copy, Debug, PartialEq, Eq, Structural)]
pub struct Term {
    pub level: i32,
    pub scale_bits: u32,
    pub input: usize,
}

/// The place in a block of the weight that a kernel reads in step `step`. Each
/// word of levels gives four weights of the first half of the block, then four
/// of the second half.
pub open spec fn step_weight(step: int) -> int {
    step / 4 % 2 * 16 + step / 8 * 4 + step % 4
}

/// The element that step `step` of a row of `k` elements handles. Rows of whole blocks
/// go block by block, in the order of `step_weight`. Other rows share blocks with their
/// neighbours and go element by element.
pub open spec fn step_element(k: int, step: int) -> int {
    if k % 32 == 0 {
        step / 32 * 32 + step_weight(step % 32)
    } else {
        step
    }
}

/// The product of weight `index` of a tensor, counted through all its rows, and the
/// input element at `input`.
pub open spec fn weight_term(words: Seq<u32>, index: int, input: int) -> Term {
    Term {
        level: word_level(words, index / 32, index % 32) as i32,
        scale_bits: widened_pattern(word_scale_pattern(words, index / 32)) as u32,
        input: input as usize,
    }
}

/// Step `step` of the dot product of weight row `row`, which has `k` elements, with the
/// input row that starts at `base`.
pub open spec fn row_term(words: Seq<u32>, k: int, row: int, base: int, step: int) -> Term {
    let element = step_element(k, step);
    weight_term(words, row * k + element, base + element)
}

/// The steps, in order, of the dot product of weight row `row`, which has `k` elements,
/// with the input row that starts at `base`.
pub open spec fn row_terms(words: Seq<u32>, k: int, row: int, base: int) -> Seq<Term> {
    Seq::new(k as nat, |step: int| row_term(words, k, row, base, step))
}

// ---------------------------------------------------------------------------
// One block
// ---------------------------------------------------------------------------

/// Byte `index` of a word, the lowest byte first.
fn word_byte(word: u32, index: u32) -> (byte: u32)
    requires
        index < 4,
    ensures
        byte == byte_of(word, index as int),
        byte < 256,
{
    let byte: u32 = (word >> (8u32 * index)) & 0xFFu32;
    proof {
        let shift: u32 = (8 * index) as u32;
        assert(((word >> shift) & 0xFFu32) < 256) by (bit_vector);
        assert((word >> 0u32) & 0xFFu32 == word % 256) by (bit_vector);
        assert((word >> 8u32) & 0xFFu32 == word / 0x100 % 256) by (bit_vector);
        assert((word >> 16u32) & 0xFFu32 == word / 0x1_0000 % 256) by (bit_vector);
        assert((word >> 24u32) & 0xFFu32 == word / 0x100_0000) by (bit_vector);
        assert(shift == 0 || shift == 8 || shift == 16 || shift == 24);
    }
    byte
}

/// The level in the low half of a byte.
fn low_level(byte: u32) -> (level: i32)
    ensures
        level == byte % 16 - 8,
{
    assert((byte & 0xFu32) == byte % 16) by (bit_vector);
    (byte & 0xFu32) as i32 - 8
}

/// The level in the high half of a byte.
fn high_level(byte: u32) -> (level: i32)
    requires
        byte < 256,
    ensures
        level == byte / 16 - 8,
{
    assert(((byte >> 4u32) & 0xFu32) == byte / 16) by (bit_vector)
        requires
            byte < 256,
    ;
    ((byte >> 4u32) & 0xFu32) as i32 - 8
}

/// The steps that one word of levels adds, in order.
pub open spec fn packed_terms(packed: u32, scale_bits: u32, low: Seq<usize>, high: Seq<usize>) -> Seq<Term> {
    Seq::new(
        8,
        |step: int|
            if step < 4 {
                Term {
                    level: (byte_of(packed, step) % 16 - 8) as i32,
                    scale_bits,
                    input: low[step],
                }
            } else {
                Term {
                    level: (byte_of(packed, step - 4) / 16 - 8) as i32,
                    scale_bits,
                    input: high[step - 4],
                }
            },
    )
}

/// Appends the eight steps of one word of levels. The low halves of its bytes
/// meet the inputs `low`, the high halves the inputs `high`.
fn push_packed(terms: &mut Vec<Term>, packed: u32, scale_bits: u32, low: [usize; 4], high: [usize; 4])
    ensures
        final(terms)@ == old(terms)@ + packed_terms(packed, scale_bits, low@, high@),
{
    let b0: u32 = word_byte(packed, 0);
    let b1: u32 = word_byte(packed, 1);
    let b2: u32 = word_byte(packed, 2);
    let b3: u32 = word_byte(packed, 3);
    terms.push(Term { level: low_level(b0), scale_bits, input: low[0] });
    terms.push(Term { level: low_level(b1), scale_bits, input: low[1] });
    terms.push(Term { level: low_level(b2), scale_bits, input: low[2] });
    terms.push(Term { level: low_level(b3), scale_bits, input: low[3] });
    terms.push(Term { level: high_level(b0), scale_bits, input: high[0] });
    terms.push(Term { level: high_level(b1), scale_bits, input: high[1] });
    terms.push(Term { level: high_level(b2), scale_bits, input: high[2] });
    terms.push(Term { level: high_level(b3), scale_bits, input: high[3] });
    assert(terms@ =~= old(terms)@ + packed_terms(packed, scale_bits, low@, high@));
}

/// The steps of one block against the 32 inputs `inputs`, in order.
pub open spec fn block_terms(words: Seq<u32>, block: int, inputs: Seq<usize>) -> Seq<Term> {
    Seq::new(
        32,
        |step: int|
            Term {
                level: word_level(words, block, step_weight(step)) as i32,
                scale_bits: widened_pattern(word_scale_pattern(words, block)) as u32,
                input: inputs[step_weight(step)],
            },
    )
}

/// Word `word` of a block's levels adds steps `8 * word` to `8 * word + 7` of the block.
proof fn lemma_packed_in_block(words: Seq<u32>, block: int, inputs: Seq<usize>, word: int)
    requires
        0 <= word < 4,
        inputs.len() == 32,
    ensures
        block_terms(words, block, inputs).take(8 * word + 8) == block_terms(words, block, inputs).take(
            8 * word,
        ) + packed_terms(
            words[5 * block + 1 + word],
            widened_pattern(word_scale_pattern(words, block)) as u32,
            inputs.subrange(4 * word, 4 * word + 4),
            inputs.subrange(16 + 4 * word, 20 + 4 * word),
        ),
{
    let all = block_terms(words, block, inputs);
    let part = packed_terms(
        words[5 * block + 1 + word],
        widened_pattern(word_scale_pattern(words, block)) as u32,
        inputs.subrange(4 * word, 4 * word + 4),
        inputs.subrange(16 + 4 * word, 20 + 4 * word),
    );
    assert forall|j: int| 0 <= j < 8 implies all[8 * word + j] == part[j] by {
        let step = 8 * word + j;
        assert(step / 8 == word);
        assert(step / 4 % 2 == j / 4);
        assert(step % 4 == j % 4);
        let weight = step_weight(step);
        assert(weight % 16 == 4 * word + j % 4);
    }
    assert(all.take(8 * word + 8) =~= all.take(8 * word) + part);
}

/// The single-precision bit pattern of the scale of block `block`.
fn block_scale(weights: &[u32], block: usize) -> (scale_bits: u32)
    requires
        5 * block + 5 <= weights.len(),
    ensures
        scale_bits == widened_pattern(word_scale_pattern(weights@, block as int)),
{
    let head: u32 = weights[block * ALIGNED_BLOCK_WORDS];
    assert((head & 0xFFFFu32) == head % 0x1_0000) by (bit_vector);
    f16_bits_to_f32(head & 0xFFFFu32)
}

/// Appends the steps of block `block` against the 32 inputs from `inputs[from]` on.
fn push_block(terms: &mut Vec<Term>, weights: &[u32], block: usize, inputs: &Vec<usize>, from: usize)
    requires
        5 * block + 5 <= weights.len(),
        from + 32 <= inputs.len(),
    ensures
        final(terms)@ == old(terms)@ + block_terms(
            weights@,
            block as int,
            inputs@.subrange(from as int, from + 32),
        ),
{
    let block_u32: usize = block * ALIGNED_BLOCK_WORDS;
    let scale_bits: u32 = block_scale(weights, block);
    let ghost own = inputs@.subrange(from as int, from + 32);
    let mut word: usize = 0;
    while word < 4
        invariant
            word <= 4,
            block_u32 == 5 * block,
            5 * block + 5 <= weights.len(),
            from + 32 <= inputs.len(),
            own == inputs@.subrange(from as int, from + 32),
            scale_bits == widened_pattern(word_scale_pattern(weights@, block as int)),
            terms@ == old(terms)@ + block_terms(weights@, block as int, own).take(8 * word),
        decreases 4 - word,
    {
        let packed: u32 = weights[block_u32 + 1 + word];
        let lo: usize = from + word * 4;
        let hi: usize = lo + 16;
        let low: [usize; 4] = [inputs[lo], inputs[lo + 1], inputs[lo + 2], inputs[lo + 3]];
        let high: [usize; 4] = [inputs[hi], inputs[hi + 1], inputs[hi + 2], inputs[hi + 3]];
        proof {
            lemma_packed_in_block(weights@, block as int, own, word as int);
            assert(low@ == own.subrange(4 * word, 4 * word + 4));
            assert(high@ == own.subrange(16 + 4 * word, 20 + 4 * word));
        }
        push_packed(terms, packed, scale_bits, low, high);
        word = word + 1;
    }
    proof {
        let all = block_terms(weights@, block as int, own);
        assert(all.take(32) == all);
    }
}

// ---------------------------------------------------------------------------
// One weight
// ---------------------------------------------------------------------------

/// The block and the place in it of element `element` of weight row `row`, where rows
/// have `k` elements. Halves are multiplied apart, so that no product is larger than
/// the number of blocks.
fn element_place(row: u32, k: u32, element: u32) -> (place: (u32, u32))
    requires
        (row * k + element) / 32 <= u32::MAX,
    ensures
        place.0 == (row * k + element) / 32,
        place.1 == (row * k + element) % 32,
{
    let row_hi: u32 = row / 32u32;
    let row_lo: u32 = row % 32u32;
    let k_hi: u32 = k / 32u32;
    let k_lo: u32 = k % 32u32;
    proof {
        assert(row * k + element == 32 * (row_hi * k + row_lo * k_hi + element / 32) + (row_lo
            * k_lo + element % 32)) by (nonlinear_arith)
            requires
                row == 32 * row_hi + row_lo,
                k == 32 * k_hi + k_lo,
                element == 32 * (element / 32) + element % 32,
        ;
        assert(0 <= row_hi * k && 0 <= row_lo * k_hi && 0 <= row_lo * k_lo <= 31 * 31)
            by (nonlinear_arith)
            requires
                row_lo <= 31,
                k_lo <= 31,
        ;
    }
    let rest: u32 = row_lo * k_lo + element % 32u32;
    (row_hi * k + row_lo * k_hi + element / 32u32 + rest / 32u32, rest % 32u32)
}

/// Appends the step that multiplies the weight at place `weight` of block `block` with
/// the input element at `input`.
fn push_weight(terms: &mut Vec<Term>, weights: &[u32], block: usize, weight: u32, input: usize)
    requires
        5 * block + 5 <= weights.len(),
        weight < 32,
    ensures
        final(terms)@ == old(terms)@.push(weight_term(weights@, 32 * block + weight, input as int)),
{
    let scale_bits: u32 = block_scale(weights, block);
    let at: u32 = weight % 16u32;
    let packed: u32 = weights[block * ALIGNED_BLOCK_WORDS + 1 + (at / 4u32) as usize];
    let byte: u32 = word_byte(packed, at % 4u32);
    let level: i32 = if weight < 16 {
        low_level(byte)
    } else {
        high_level(byte)
    };
    terms.push(Term { level, scale_bits, input });
}

// ---------------------------------------------------------------------------
// What one thread computes
// ---------------------------------------------------------------------------

/// What a thread writes: the sum of `terms`, at `index` of the output.
pub struct ThreadOutput {
    pub terms: Vec<Term>,
    pub index: usize,
}

/// The view of a `ThreadOutput`.
pub struct ThreadResult {
    pub terms: Seq<Term>,
    pub index: int,
}

impl View for ThreadOutput {
    type V = ThreadResult;

    open spec fn view(&self) -> ThreadResult {
        ThreadResult { terms: self.terms@, index: self.index as int }
    }
}

/// The view of what a thread may write.
pub open spec fn output_view(output: Option<ThreadOutput>) -> Option<ThreadResult> {
    match output {
        Some(written) => Some(written@),
        None => None,
    }
}

/// The launch numbers `[B, M, K, N, K / 32]` describe buffers that 32-bit indices
/// can address, and weights that fill whole blocks, all of which are there.
pub open spec fn launch_fits(info: Seq<u32>, weights_len: int) -> bool {
    &&& info.len() == 5
    &&& 0 < info[1]
    &&& info[4] == info[2] / 32
    &&& info[0] * info[1] * info[2] <= u32::MAX + 1
    &&& info[0] * info[1] * info[3] <= u32::MAX + 1
    &&& info[3] * info[2] % 32 == 0
    &&& 5 * (info[3] * info[2] / 32) <= u32::MAX
    &&& 5 * (info[3] * info[2] / 32) <= weights_len
}

/// What the thread at column `x` and row `y` of the grid writes: column `x` of row
/// `y` of the output, taken as a matrix of `B * M` rows and `N` columns, or
/// nothing where the output has no such place.
pub open spec fn thread_result(words: Seq<u32>, info: Seq<u32>, x: int, y: int) -> Option<ThreadResult> {
    if x < info[3] && y < info[0] * info[1] {
        Some(
            ThreadResult {
                terms: row_terms(words, info[2] as int, x, y * info[2]),
                index: y * info[3] + x,
            },
        )
    } else {
        None
    }
}

/// Row `y` of all batches is row `y % big_m` of batch `y / big_m`.
proof fn lemma_row(big_b: int, big_m: int, y: int)
    requires
        0 < big_m,
        0 <= y,
        0 <= big_b,
    ensures
        y == y / big_m * big_m + y % big_m,
        0 <= y / big_m,
        0 <= y % big_m < big_m,
        y / big_m < big_b <==> y < big_b * big_m,
{
    let b = y / big_m;
    vstd::arithmetic::div_mod::lemma_fundamental_div_mod(y, big_m);
    vstd::arithmetic::div_mod::lemma_mod_bound(y, big_m);
    vstd::arithmetic::div_mod::lemma_div_pos_is_pos(y, big_m);
    vstd::arithmetic::mul::lemma_mul_is_commutative(big_m, b);
    if b < big_b {
        assert(b * big_m + big_m <= big_b * big_m) by (nonlinear_arith)
            requires
                b + 1 <= big_b,
                0 < big_m,
        ;
    } else {
        assert(big_b * big_m <= b * big_m) by (nonlinear_arith)
            requires
                big_b <= b,
                0 < big_m,
        ;
    }
}

/// Row `row` of batch `b` starts where row `y` of all batches does.
proof fn lemma_row_offset(big_m: int, y: int, b: int, row: int, width: int)
    requires
        y == b * big_m + row,
        0 <= b,
        0 <= big_m,
        0 <= row,
        0 <= width,
    ensures
        b * big_m * width + row * width == y * width,
        0 <= b * big_m <= y,
        0 <= b * big_m * width,
        0 <= row * width,
{
    vstd::arithmetic::mul::lemma_mul_is_distributive_add_other_way(width, b * big_m, row);
    vstd::arithmetic::mul::lemma_mul_nonnegative(b, big_m);
    vstd::arithmetic::mul::lemma_mul_nonnegative(b * big_m, width);
    vstd::arithmetic::mul::lemma_mul_nonnegative(row, width);
}

/// Row `y` of a matrix lies within the matrix.
pub(crate) proof fn lemma_row_inside(rows: int, width: int, y: int)
    requires
        0 <= y < rows,
        0 <= width,
    ensures
        0 <= y * width,
        y * width + width <= rows * width,
        width == 0 ==> y * width == 0,
{
    assert(0 <= y * width && y * width + width <= rows * width) by (nonlinear_arith)
        requires
            0 <= y,
            y + 1 <= rows,
            0 <= width,
    ;
}

/// Where rows are made of whole blocks, a row starts at the start of a block.
proof fn lemma_whole_rows(row: int, k: int)
    requires
        k % 32 == 0,
    ensures
        row * k == 32 * (row * (k / 32)),
{
    let per_row = k / 32;
    assert(row * k == 32 * (row * per_row)) by (nonlinear_arith)
        requires
            k == 32 * per_row,
    ;
}

/// The 32 input indices from `k_base` on.
pub open spec fn input_run(k_base: int) -> Seq<usize> {
    Seq::new(32, |weight: int| (k_base + weight) as usize)
}

/// Appending the steps of one block extends a row's steps by that block.
proof fn lemma_row_grows(words: Seq<u32>, k: int, row: int, base: int, block: int)
    requires
        k % 32 == 0,
        0 <= block < k / 32,
    ensures
        row_terms(words, k, row, base).take(32 * block + 32) == row_terms(words, k, row, base).take(
            32 * block,
        ) + block_terms(words, row * (k / 32) + block, input_run(base + 32 * block)),
{
    let all = row_terms(words, k, row, base);
    let place = row * (k / 32) + block;
    let part = block_terms(words, place, input_run(base + 32 * block));
    lemma_whole_rows(row, k);
    assert forall|j: int| 0 <= j < 32 implies all[32 * block + j] == part[j] by {
        let step = 32 * block + j;
        assert(step / 32 == block);
        assert(step % 32 == j);
        let weight = step_weight(j);
        assert(0 <= weight < 32);
        let index = row * k + step_element(k, step);
        assert(index == 32 * place + weight);
        assert(index / 32 == place && index % 32 == weight);
    }
    assert(all.take(32 * block + 32) =~= all.take(32 * block) + part);
}

/// Where rows share blocks, appending one weight extends a row's steps by one.
proof fn lemma_row_grows_by_one(words: Seq<u32>, k: int, row: int, base: int, element: int)
    requires
        k % 32 != 0,
        0 <= element < k,
    ensures
        row_terms(words, k, row, base).take(element + 1) == row_terms(words, k, row, base).take(
            element,
        ).push(weight_term(words, row * k + element, base + element)),
{
    let all = row_terms(words, k, row, base);
    assert(all.take(element + 1) =~= all.take(element).push(all[element]));
}

/// The block of an element of a weight row is there.
proof fn lemma_element_inside(rows: int, k: int, row: int, element: int)
    requires
        0 <= row < rows,
        0 <= element < k,
        rows * k % 32 == 0,
    ensures
        0 <= (row * k + element) / 32 < rows * k / 32,
{
    lemma_row_inside(rows, k, row);
}

// ---------------------------------------------------------------------------
// Naive kernel: one thread per output element
// ---------------------------------------------------------------------------

/// The 32 input indices from `k_base` on.
fn index_run(k_base: usize) -> (inputs: Vec<usize>)
    requires
        k_base + 32 <= usize::MAX + 1,
    ensures
        inputs@ == input_run(k_base as int),
{
    let mut inputs: Vec<usize> = Vec::new();
    while inputs.len() < BLOCK_WEIGHTS
        invariant
            inputs.len() <= 32,
            k_base + 32 <= usize::MAX + 1,
            inputs@ == input_run(k_base as int).take(inputs.len() as int),
        decreases 32 - inputs.len(),
    {
        let index: usize = k_base + inputs.len();
        let ghost all = input_run(k_base as int);
        assert(all.take(inputs.len() + 1) =~= all.take(inputs.len() as int).push(index));
        inputs.push(index);
    }
    assert(input_run(k_base as int).take(32) =~= input_run(k_base as int));
    inputs
}

/// The naive kernel's thread at column `x` and row `y` of the grid.
///
/// `info` holds `[B, M, K, N, K / 32]`. Where rows are made of whole blocks, the thread
/// walks weight row `x` block by block, and input row `y` along with it. Elsewhere it
/// looks up every weight by itself.
pub fn q4_matmul_naive(weights: &[u32], info: &[u32; 5], x: u32, y: u32) -> (output: Option<ThreadOutput>)
    requires
        launch_fits(info@, weights@.len() as int),
    ensures
        output_view(output) == thread_result(weights@, info@, x as int, y as int),
{
    let big_b: u32 = info[0];
    let big_m: u32 = info[1];
    let big_k: u32 = info[2];
    let big_n: u32 = info[3];
    let blocks_per_row: u32 = info[4];

    let row_m: u32 = y % big_m;
    let b: u32 = y / big_m;
    proof {
        lemma_row(big_b as int, big_m as int, y as int);
    }

    if x >= big_n || b >= big_b {
        return None;
    }
    let ghost rows = big_b * big_m;
    proof {
        lemma_row_inside(rows, big_k as int, y as int);
        lemma_row_inside(rows, big_n as int, y as int);
        lemma_row_offset(big_m as int, y as int, b as int, row_m as int, big_k as int);
        lemma_row_offset(big_m as int, y as int, b as int, row_m as int, big_n as int);
    }

    let input_base: u32 = b * big_m * big_k + row_m * big_k;
    let mut terms: Vec<Term> = Vec::new();
    let ghost all = row_terms(weights@, big_k as int, x as int, y * big_k);
    assert(terms@ =~= all.take(0));
    if big_k % 32u32 == 0 {
        proof {
            lemma_row_inside(big_n as int, blocks_per_row as int, x as int);
            lemma_whole_rows(big_n as int, big_k as int);
        }
        let mut blk: u32 = 0;
        while blk < blocks_per_row
            invariant
                blk <= blocks_per_row,
                big_k % 32 == 0,
                blocks_per_row == big_k / 32,
                input_base == y * big_k,
                input_base + big_k <= u32::MAX + 1,
                0 <= x * blocks_per_row,
                5 * (x * blocks_per_row + blocks_per_row) <= u32::MAX,
                5 * (x * blocks_per_row + blocks_per_row) <= weights.len(),
                all == row_terms(weights@, big_k as int, x as int, y * big_k),
                terms@ == all.take(32 * blk),
            decreases blocks_per_row - blk,
        {
            let block: u32 = x * blocks_per_row + blk;
            let k_base: u32 = blk * 32u32;
            let inputs: Vec<usize> = index_run((input_base + k_base) as usize);
            proof {
                lemma_row_grows(weights@, big_k as int, x as int, y * big_k, blk as int);
                assert(inputs@.subrange(0, 32) =~= input_run(y * big_k + 32 * blk));
            }
            push_block(&mut terms, weights, block as usize, &inputs, 0);
            blk = blk + 1;
        }
    } else {
        let mut element: u32 = 0;
        while element < big_k
            invariant
                element <= big_k,
                big_k % 32 != 0,
                x < big_n,
                big_n * big_k % 32 == 0,
                5 * (big_n * big_k / 32) <= u32::MAX,
                5 * (big_n * big_k / 32) <= weights.len(),
                input_base == y * big_k,
                input_base + big_k <= u32::MAX + 1,
                all == row_terms(weights@, big_k as int, x as int, y * big_k),
                terms@ == all.take(element as int),
            decreases big_k - element,
        {
            proof {
                lemma_element_inside(big_n as int, big_k as int, x as int, element as int);
                lemma_row_grows_by_one(
                    weights@,
                    big_k as int,
                    x as int,
                    y * big_k,
                    element as int,
                );
            }
            let place: (u32, u32) = element_place(x, big_k, element);
            push_weight(
                &mut terms,
                weights,
                place.0 as usize,
                place.1,
                (input_base + element) as usize,
            );
            element = element + 1;
        }
    }
    assert(all.take(big_k as int) =~= all);
    Some(ThreadOutput { terms, index: (b * big_m * big_n + row_m * big_n + x) as usize })
}

// ---------------------------------------------------------------------------
// Tiled kernel: the threads of a cube share a slice of the input row
// ---------------------------------------------------------------------------

/// A step of `size` from a slot leads to the next slot with the same remainder.
proof fn lemma_stride(slot: int, size: int)
    requires
        0 < size,
        0 <= slot,
    ensures
        (slot + size) % size == slot % size,
        forall|other: int|
            slot < other < slot + size ==> #[trigger] (other % size) != slot % size,
{
    vstd::arithmetic::div_mod::lemma_mod_add_multiples_vanish(slot, size);
    assert forall|other: int| slot < other < slot + size implies #[trigger] (other % size) != slot
        % size by {
        if other % size == slot % size {
            vstd::arithmetic::div_mod::lemma_fundamental_div_mod(other, size);
            vstd::arithmetic::div_mod::lemma_fundamental_div_mod(slot, size);
            let d = other / size - slot / size;
            assert(other - slot == size * d) by {
                vstd::arithmetic::mul::lemma_mul_is_distributive_sub(
                    size,
                    other / size,
                    slot / size,
                );
            }
            assert(d <= 0 || size * d >= size) by (nonlinear_arith)
                requires
                    0 < size,
            ;
            assert(d > 0 || size * d <= 0) by (nonlinear_arith)
                requires
                    0 < size,
            ;
        }
    }
}

/// The part that thread `unit` has in loading a tile: every `wg_size`-th slot from
/// `unit` on gets its element of the input row, where the row still has one.
fn load_slots(
    shared_input: &mut Vec<usize>,
    unit: usize,
    wg_size: usize,
    tile_start: usize,
    big_k: usize,
    input_base: usize,
)
    requires
        unit < wg_size,
        old(shared_input)@.len() + wg_size <= usize::MAX + 1,
        tile_start + old(shared_input)@.len() <= usize::MAX,
        input_base + big_k <= usize::MAX + 1,
    ensures
        final(shared_input)@.len() == old(shared_input)@.len(),
        forall|slot: int|
            0 <= slot < old(shared_input)@.len() ==> #[trigger] final(shared_input)@[slot] == (if slot
                % (wg_size as int) == unit && tile_start + slot < big_k {
                (input_base + tile_start + slot) as usize
            } else {
                old(shared_input)@[slot]
            }),
{
    let tile_k: usize = shared_input.len();
    let mut k_local: usize = unit;
    proof {
        vstd::arithmetic::div_mod::lemma_small_mod(unit as nat, wg_size as nat);
        assert forall|slot: int| 0 <= slot < unit implies #[trigger] (slot % (wg_size as int))
            != unit by {
            vstd::arithmetic::div_mod::lemma_small_mod(slot as nat, wg_size as nat);
        }
    }
    while k_local < tile_k
        invariant
            unit < wg_size,
            unit <= k_local,
            k_local % wg_size == unit,
            tile_k == old(shared_input)@.len(),
            shared_input@.len() == tile_k,
            tile_k + wg_size <= usize::MAX + 1,
            tile_start + tile_k <= usize::MAX,
            input_base + big_k <= usize::MAX + 1,
            forall|slot: int|
                0 <= slot < tile_k ==> #[trigger] shared_input@[slot] == (if slot < k_local && slot
                    % (wg_size as int) == unit && tile_start + slot < big_k {
                    (input_base + tile_start + slot) as usize
                } else {
                    old(shared_input)@[slot]
                }),
            forall|slot: int|
                0 <= slot < unit ==> #[trigger] (slot % (wg_size as int)) != unit,
        decreases tile_k + wg_size - k_local,
    {
        let k_global: usize = tile_start + k_local;
        if k_global < big_k {
            shared_input.set(k_local, input_base + k_global);
        }
        proof {
            lemma_stride(k_local as int, wg_size as int);
        }
        k_local = k_local + wg_size;
    }
}

/// Appends the steps of the `tile_len` elements of weight row `row` that meet a tile.
/// The tile starts at element `tile_start`, and `shared_input` holds it.
fn push_tile(
    terms: &mut Vec<Term>,
    weights: &[u32],
    row: u32,
    big_k: u32,
    tile_start: u32,
    tile_len: u32,
    shared_input: &Vec<usize>,
    Ghost(rows): Ghost<int>,
    Ghost(base): Ghost<int>,
)
    requires
        row < rows,
        rows * big_k % 32 == 0,
        5 * (rows * big_k / 32) <= u32::MAX,
        5 * (rows * big_k / 32) <= weights.len(),
        tile_start + tile_len <= big_k,
        tile_start % 32 == 0,
        tile_len <= shared_input.len(),
        0 <= base,
        base + big_k <= u32::MAX + 1,
        forall|slot: int|
            0 <= slot < tile_len ==> #[trigger] shared_input@[slot] == base + tile_start + slot,
        big_k % 32 == 0 ==> tile_len % 32 == 0,
        old(terms)@ == row_terms(weights@, big_k as int, row as int, base).take(tile_start as int),
    ensures
        final(terms)@ == row_terms(weights@, big_k as int, row as int, base).take(
            tile_start + tile_len,
        ),
{
    let ghost all = row_terms(weights@, big_k as int, row as int, base);
    if big_k % 32u32 == 0 {
        let blocks_per_row: u32 = big_k / 32u32;
        let blocks_in_tile: u32 = tile_len / 32u32;
        let block_base: u32 = tile_start / 32u32;
        proof {
            lemma_row_inside(rows, blocks_per_row as int, row as int);
            lemma_whole_rows(rows, big_k as int);
        }
        let mut blk: u32 = 0;
        while blk < blocks_in_tile
            invariant
                blk <= blocks_in_tile,
                big_k % 32 == 0,
                blocks_per_row == big_k / 32,
                tile_len == 32 * blocks_in_tile,
                tile_start == 32 * block_base,
                tile_start + tile_len <= big_k,
                tile_len <= shared_input.len(),
                0 <= row * blocks_per_row,
                5 * (row * blocks_per_row + blocks_per_row) <= u32::MAX,
                5 * (row * blocks_per_row + blocks_per_row) <= weights.len(),
                0 <= base,
                base + big_k <= u32::MAX + 1,
                forall|slot: int|
                    0 <= slot < tile_len ==> #[trigger] shared_input@[slot] == base + tile_start
                        + slot,
                all == row_terms(weights@, big_k as int, row as int, base),
                terms@ == all.take(tile_start + 32 * blk),
            decreases blocks_in_tile - blk,
        {
            let global_block: u32 = row * blocks_per_row + block_base + blk;
            let k_base: usize = (blk * 32u32) as usize;
            proof {
                let block = block_base + blk;
                lemma_row_grows(weights@, big_k as int, row as int, base, block);
                assert(shared_input@.subrange(k_base as int, k_base + 32) =~= input_run(
                    base + 32 * block,
                ));
            }
            push_block(terms, weights, global_block as usize, shared_input, k_base);
            blk = blk + 1;
        }
    } else {
        let mut k_local: u32 = 0;
        while k_local < tile_len
            invariant
                k_local <= tile_len,
                big_k % 32 != 0,
                row < rows,
                rows * big_k % 32 == 0,
                5 * (rows * big_k / 32) <= u32::MAX,
                5 * (rows * big_k / 32) <= weights.len(),
                tile_start + tile_len <= big_k,
                tile_len <= shared_input.len(),
                forall|slot: int|
                    0 <= slot < tile_len ==> #[trigger] shared_input@[slot] == base + tile_start
                        + slot,
                all == row_terms(weights@, big_k as int, row as int, base),
                terms@ == all.take(tile_start + k_local),
            decreases tile_len - k_local,
        {
            let element: u32 = tile_start + k_local;
            proof {
                lemma_element_inside(rows, big_k as int, row as int, element as int);
                lemma_row_grows_by_one(weights@, big_k as int, row as int, base, element as int);
            }
            let place: (u32, u32) = element_place(row, big_k, element);
            let input: usize = shared_input[k_local as usize];
            push_weight(terms, weights, place.0 as usize, place.1, input);
            k_local = k_local + 1;
        }
    }
}

/// The first phase of a tile: all threads of the cube load their slots.
fn load_tile(
    shared_input: &mut Vec<usize>,
    wg_size: usize,
    tile_start: usize,
    big_k: usize,
    input_base: usize,
)
    requires
        0 < wg_size,
        old(shared_input)@.len() + wg_size <= usize::MAX + 1,
        tile_start + old(shared_input)@.len() <= usize::MAX,
        input_base + big_k <= usize::MAX + 1,
    ensures
        final(shared_input)@.len() == old(shared_input)@.len(),
        forall|slot: int|
            0 <= slot < old(shared_input)@.len() && tile_start + slot < big_k
                ==> #[trigger] final(shared_input)@[slot] == input_base + tile_start + slot,
{
    let mut unit: usize = 0;
    while unit < wg_size
        invariant
            unit <= wg_size,
            shared_input@.len() == old(shared_input)@.len(),
            old(shared_input)@.len() + wg_size <= usize::MAX + 1,
            tile_start + old(shared_input)@.len() <= usize::MAX,
            input_base + big_k <= usize::MAX + 1,
            forall|slot: int|
                0 <= slot < old(shared_input)@.len() && tile_start + slot < big_k && slot % (
                wg_size as int) < unit ==> #[trigger] shared_input@[slot] == input_base + tile_start
                    + slot,
        decreases wg_size - unit,
    {
        load_slots(shared_input, unit, wg_size, tile_start, big_k, input_base);
        unit = unit + 1;
    }
    assert forall|slot: int| 0 <= slot implies #[trigger] (slot % (wg_size as int)) < wg_size by {
        vstd::arithmetic::div_mod::lemma_mod_bound(slot, wg_size as int);
    }
}

/// Every thread of a cube that has a weight row holds the first `done` steps of its dot
/// product.
spec fn sums_so_far(
    accs: Seq<Vec<Term>>,
    words: Seq<u32>,
    info: Seq<u32>,
    first_n: int,
    base: int,
    done: int,
) -> bool {
    forall|unit: int|
        0 <= unit < accs.len() && first_n + unit < info[3] ==> (#[trigger] accs[unit])@
            == row_terms(words, info[2] as int, first_n + unit, base).take(done)
}

/// The second phase of a tile: every thread with a weight row adds the elements that
/// meet the tile.
fn add_tile(
    accs: &mut Vec<Vec<Term>>,
    weights: &[u32],
    info: &[u32; 5],
    first_n: u32,
    tile_start: u32,
    tile_len: u32,
    shared_input: &Vec<usize>,
    Ghost(base): Ghost<int>,
)
    requires
        launch_fits(info@, weights@.len() as int),
        first_n + old(accs)@.len() <= u32::MAX + 1,
        tile_start % 32 == 0,
        tile_start + tile_len <= info@[2],
        tile_len <= shared_input.len(),
        info@[2] % 32 == 0 ==> tile_len % 32 == 0,
        0 <= base,
        base + info@[2] <= u32::MAX + 1,
        forall|slot: int|
            0 <= slot < tile_len ==> #[trigger] shared_input@[slot] == base + tile_start + slot,
        sums_so_far(old(accs)@, weights@, info@, first_n as int, base, tile_start as int),
    ensures
        final(accs)@.len() == old(accs)@.len(),
        sums_so_far(final(accs)@, weights@, info@, first_n as int, base, tile_start + tile_len),
{
    let big_k: u32 = info[2];
    let big_n: u32 = info[3];
    let wg_size: usize = accs.len();
    let mut unit: usize = 0;
    while unit < wg_size
        invariant
            unit <= wg_size,
            accs@.len() == wg_size,
            launch_fits(info@, weights@.len() as int),
            big_k == info@[2],
            big_n == info@[3],
            first_n + wg_size <= u32::MAX + 1,
            tile_start % 32 == 0,
            tile_start + tile_len <= big_k,
            tile_len <= shared_input.len(),
            big_k % 32 == 0 ==> tile_len % 32 == 0,
            0 <= base,
            base + big_k <= u32::MAX + 1,
            forall|slot: int|
                0 <= slot < tile_len ==> #[trigger] shared_input@[slot] == base + tile_start + slot,
            forall|other: int|
                0 <= other < wg_size && first_n + other < big_n ==> (#[trigger] accs@[other])@
                    == row_terms(weights@, big_k as int, first_n + other, base).take(
                    if other < unit {
                        tile_start + tile_len
                    } else {
                        tile_start as int
                    },
                ),
        decreases wg_size - unit,
    {
        let n: u32 = first_n + unit as u32;
        if n < big_n {
            push_tile(
                &mut accs[unit],
                weights,
                n,
                big_k,
                tile_start,
                tile_len,
                shared_input,
                Ghost(big_n as int),
                Ghost(base),
            );
        }
        unit = unit + 1;
    }
}

/// Every tile starts inside the row, and the tiles together cover the row.
proof fn lemma_tiles(big_k: int, tile_k: int, num_tiles: int)
    requires
        0 <= big_k,
        0 < tile_k,
        num_tiles == (big_k + tile_k - 1) / tile_k,
    ensures
        0 <= num_tiles,
        big_k <= num_tiles * tile_k,
        forall|tile: int|
            0 <= tile < num_tiles ==> 0 <= #[trigger] (tile * tile_k) < big_k,
{
    let total = big_k + tile_k - 1;
    vstd::arithmetic::div_mod::lemma_fundamental_div_mod(total, tile_k);
    vstd::arithmetic::div_mod::lemma_mod_bound(total, tile_k);
    vstd::arithmetic::div_mod::lemma_div_pos_is_pos(total, tile_k);
    vstd::arithmetic::mul::lemma_mul_is_commutative(tile_k, num_tiles);
    assert forall|tile: int| 0 <= tile < num_tiles implies 0 <= #[trigger] (tile * tile_k)
        < big_k by {
        assert(0 <= tile * tile_k && tile * tile_k + tile_k <= num_tiles * tile_k)
            by (nonlinear_arith)
            requires
                0 <= tile,
                tile + 1 <= num_tiles,
                0 < tile_k,
        ;
    }
}

/// What the threads of a cube write, in order, where cubes have `wg_size` threads and
/// `cube_x` and `cube_y` are the cube's place in the grid of cubes.
pub open spec fn cube_results(
    words: Seq<u32>,
    info: Seq<u32>,
    wg_size: int,
    cube_x: int,
    cube_y: int,
) -> Seq<Option<ThreadResult>> {
    Seq::new(
        wg_size as nat,
        |unit: int| thread_result(words, info, cube_x * wg_size + unit, cube_y),
    )
}

/// The tiled kernel's cube at column `cube_x` and row `cube_y` of the grid of cubes.
///
/// A cube has `wg_size` threads. For one tile of `tile_k` elements after another,
/// they first load the tile of the input row into shared memory, each its own
/// slots, and after a barrier each adds the elements of its own weight row that meet
/// the tile. The result has what each thread writes, in order.
pub fn q4_matmul_tiled(
    weights: &[u32],
    info: &[u32; 5],
    cube_x: u32,
    cube_y: u32,
    tile_k: usize,
    wg_size: usize,
) -> (outputs: Vec<Option<ThreadOutput>>)
    requires
        launch_fits(info@, weights@.len() as int),
        0 < tile_k,
        tile_k % 32 == 0,
        tile_k <= u32::MAX,
        info@[2] + tile_k <= u32::MAX + 1,
        0 < wg_size <= u32::MAX,
        cube_x * wg_size + wg_size <= u32::MAX + 1,
        tile_k + wg_size <= usize::MAX + 1,
    ensures
        outputs@.len() == wg_size,
        forall|unit: int|
            0 <= unit < wg_size ==> output_view(#[trigger] outputs@[unit]) == cube_results(
                weights@,
                info@,
                wg_size as int,
                cube_x as int,
                cube_y as int,
            )[unit],
{
    let big_b: u32 = info[0];
    let big_m: u32 = info[1];
    let big_k: u32 = info[2];
    let big_n: u32 = info[3];

    let row_m: u32 = cube_y % big_m;
    let b: u32 = cube_y / big_m;
    let valid: bool = b < big_b;
    let ghost rows = big_b * big_m;
    let ghost base = cube_y * big_k;
    proof {
        lemma_row(big_b as int, big_m as int, cube_y as int);
        if valid {
            lemma_row_inside(rows, big_k as int, cube_y as int);
            lemma_row_inside(rows, big_n as int, cube_y as int);
        }
        lemma_row_offset(big_m as int, cube_y as int, b as int, row_m as int, big_k as int);
        lemma_row_offset(big_m as int, cube_y as int, b as int, row_m as int, big_n as int);
    }
    let first_n: u32 = cube_x * (wg_size as u32);
    let input_base: u32 = if valid {
        b * big_m * big_k + row_m * big_k
    } else {
        0
    };

    let mut shared_input: Vec<usize> = Vec::new();
    while shared_input.len() < tile_k
        invariant
            shared_input.len() <= tile_k,
        decreases tile_k - shared_input.len(),
    {
        shared_input.push(0);
    }
    let mut accs: Vec<Vec<Term>> = Vec::new();
    while accs.len() < wg_size
        invariant
            accs.len() <= wg_size,
            forall|unit: int| 0 <= unit < accs.len() ==> (#[trigger] accs@[unit])@.len() == 0,
        decreases wg_size - accs.len(),
    {
        accs.push(Vec::new());
    }

    let num_tiles: u32 = (big_k + (tile_k as u32 - 1u32)) / tile_k as u32;
    proof {
        lemma_tiles(big_k as int, tile_k as int, num_tiles as int);
        assert forall|unit: int| 0 <= unit < accs@.len() implies (#[trigger] accs@[unit])@
            == row_terms(weights@, big_k as int, first_n + unit, base).take(0) by {
            assert(accs@[unit]@ =~= row_terms(
                weights@,
                big_k as int,
                first_n + unit,
                base,
            ).take(0));
        }
    }
    let mut tile: u32 = 0;
    while tile < num_tiles
        invariant
            launch_fits(info@, weights@.len() as int),
            big_k == info@[2],
            0 < tile_k,
            tile_k % 32 == 0,
            tile_k <= u32::MAX,
            big_k + tile_k <= u32::MAX + 1,
            0 < wg_size,
            tile_k + wg_size <= usize::MAX + 1,
            first_n + wg_size <= u32::MAX + 1,
            shared_input@.len() == tile_k,
            accs@.len() == wg_size,
            valid ==> input_base == base && base + big_k <= u32::MAX + 1,
            tile <= num_tiles,
            forall|t: int| 0 <= t < num_tiles ==> 0 <= #[trigger] (t * tile_k) < big_k,
            0 <= tile * tile_k,
            valid ==> sums_so_far(
                accs@,
                weights@,
                info@,
                first_n as int,
                base,
                if tile * tile_k < big_k {
                    tile * tile_k
                } else {
                    big_k as int
                },
            ),
        decreases num_tiles - tile,
    {
        assert(0 <= tile * tile_k < big_k);
        let tile_start: u32 = tile * tile_k as u32;
        if valid {
            load_tile(
                &mut shared_input,
                wg_size,
                tile_start as usize,
                big_k as usize,
                input_base as usize,
            );
            let tile_end: u32 = if tile_start + (tile_k as u32) < big_k {
                tile_start + (tile_k as u32)
            } else {
                big_k
            };
            let tile_len: u32 = tile_end - tile_start;
            proof {
                vstd::arithmetic::div_mod::lemma_mul_mod_noop(tile as int, tile_k as int, 32);
            }
            add_tile(
                &mut accs,
                weights,
                info,
                first_n,
                tile_start,
                tile_len,
                &shared_input,
                Ghost(base),
            );
        }
        assert((tile + 1) * tile_k == tile * tile_k + tile_k) by (nonlinear_arith);
        tile = tile + 1;
    }

    assert(valid ==> sums_so_far(accs@, weights@, info@, first_n as int, base, big_k as int));
    let mut outputs: Vec<Option<ThreadOutput>> = Vec::new();
    let mut unit: usize = 0;
    while unit < wg_size
        invariant
            unit <= wg_size,
            outputs@.len() == unit,
            accs@.len() == wg_size,
            launch_fits(info@, weights@.len() as int),
            big_n == info@[3],
            big_k == info@[2],
            first_n == cube_x * wg_size,
            first_n + wg_size <= u32::MAX + 1,
            valid <==> cube_y < info@[0] * info@[1],
            base == cube_y * info@[2],
            valid ==> b * big_m * big_n + row_m * big_n == cube_y * big_n,
            valid ==> cube_y * big_n + big_n <= u32::MAX + 1,
            0 <= b * big_m <= cube_y,
            0 <= b * big_m * big_n,
            0 <= row_m * big_n,
            valid ==> forall|other: int|
                unit <= other < wg_size && first_n + other < big_n ==> (#[trigger] accs@[other])@
                    == row_terms(weights@, big_k as int, first_n + other, base).take(big_k as int),
            forall|other: int|
                0 <= other < unit ==> output_view(#[trigger] outputs@[other]) == thread_result(
                    weights@,
                    info@,
                    first_n + other,
                    cube_y as int,
                ),
        decreases wg_size - unit,
    {
        let n: u32 = first_n + unit as u32;
        if n < big_n && valid {
            let mut terms: Vec<Term> = Vec::new();
            std::mem::swap(&mut terms, &mut accs[unit]);
            let index: u32 = b * big_m * big_n + row_m * big_n + n;
            proof {
                let all = row_terms(weights@, big_k as int, n as int, base);
                assert(all.take(big_k as int) =~= all);
            }
            outputs.push(Some(ThreadOutput { terms, index: index as usize }));
        } else {
            outputs.push(None);
        }
        unit = unit + 1;
    }
    outputs
}

// ---------------------------------------------------------------------------
// Launches
// ---------------------------------------------------------------------------

/// The platform that a program runs on.
#[derive(Clone, Copy, Debug, PartialEq, Eq, Structural)]
pub enum Platform {
    Native,
    Wasm,
}

/// A kernel and its compile-time parameters.
#[derive(Clone, Copy, Debug, PartialEq, Eq, Structural)]
pub enum Kernel {
    /// Tiled, with shared memory for `tile_k` elements and `wg_size` threads in a cube.
    Tiled { tile_k: usize, wg_size: usize },
    Naive,
}

/// How many things stand in a row and in a column.
#[derive(Clone, Copy, Debug, PartialEq, Eq, Structural)]
pub struct Extent {
    pub x: u32,
    pub y: u32,
}

/// A kernel and the grid that it is launched on.
#[derive(Clone, Copy, Debug, PartialEq, Eq, Structural)]
pub struct Dispatch {
    pub kernel: Kernel,
    /// The cubes of the grid.
    pub cube_count: Extent,
    /// The threads of a cube.
    pub cube_dim: Extent,
}

/// How many groups of `size` it takes to hold `count`.
pub open spec fn groups(count: int, size: int) -> int {
    (count + size - 1) / size
}

/// The kernel for an input of `b` times `m` rows and an output of `n` columns:
/// the tiled kernel for few rows, one cube for each row and each 32 columns, and
/// the naive kernel otherwise, and on the web always.
pub open spec fn dispatched(platform: Platform, b: int, m: int, n: int) -> Dispatch {
    if platform == Platform::Native && m <= 4 {
        Dispatch {
            kernel: Kernel::Tiled { tile_k: 256, wg_size: 32 },
            cube_count: Extent { x: groups(n, 32) as u32, y: (b * m) as u32 },
            cube_dim: Extent { x: 32, y: 1 },
        }
    } else {
        naive_dispatched(b, m, n)
    }
}

/// The naive kernel's grid: one thread for each place of the output, in cubes of
/// 16 by 16.
pub open spec fn naive_dispatched(b: int, m: int, n: int) -> Dispatch {
    Dispatch {
        kernel: Kernel::Naive,
        cube_count: Extent { x: groups(n, 16) as u32, y: groups(b * m, 16) as u32 },
        cube_dim: Extent { x: 16, y: 16 },
    }
}

/// How many groups of `size` it takes to hold `count`.
fn div_ceil(count: usize, size: usize) -> (number: usize)
    requires
        0 < size,
    ensures
        number == groups(count as int, size as int),
{
    let whole: usize = count / size;
    let rest: usize = count % size;
    proof {
        vstd::arithmetic::div_mod::lemma_fundamental_div_mod(count as int, size as int);
        vstd::arithmetic::div_mod::lemma_mod_bound(count as int, size as int);
        vstd::arithmetic::mul::lemma_mul_is_commutative(size as int, whole as int);
        if rest == 0 {
            vstd::arithmetic::div_mod::lemma_fundamental_div_mod_converse(
                count + size - 1,
                size as int,
                whole as int,
                size - 1,
            );
        } else {
            vstd::arithmetic::mul::lemma_mul_is_distributive_add_other_way(
                size as int,
                whole as int,
                1,
            );
            vstd::arithmetic::div_mod::lemma_fundamental_div_mod_converse(
                count + size - 1,
                size as int,
                whole + 1,
                rest - 1,
            );
            assert(whole < count) by (nonlinear_arith)
                requires
                    count == whole * size + rest,
                    0 < rest,
                    0 < size,
                    0 <= whole,
            ;
        }
    }
    if rest == 0 {
        whole
    } else {
        whole + 1
    }
}

/// Picks the kernel variant and its grid.
///
/// On native platforms the tiled kernel serves `m` up to `TILED_M_THRESHOLD`, the
/// naive kernel the rest. On the web it is always the naive kernel.
pub fn dispatch(platform: Platform, b: usize, m: usize, n: usize) -> (launch: Dispatch)
    requires
        b * m <= usize::MAX,
    ensures
        launch == dispatched(platform, b as int, m as int, n as int),
{
    if platform == Platform::Native && m <= TILED_M_THRESHOLD {
        let wg_x: u32 = #[verifier::truncate]
        (div_ceil(n, TILED_WG_X) as u32);
        let wg_y: u32 = #[verifier::truncate]
        ((b * m) as u32);
        Dispatch {
            kernel: Kernel::Tiled { tile_k: TILE_K, wg_size: TILED_WG_X },
            cube_count: Extent { x: wg_x, y: wg_y },
            cube_dim: Extent { x: TILED_WG_X as u32, y: 1 },
        }
    } else {
        dispatch_naive(b, m, n)
    }
}

/// The naive kernel's grid.
pub fn dispatch_naive(b: usize, m: usize, n: usize) -> (launch: Dispatch)
    requires
        b * m <= usize::MAX,
    ensures
        launch == naive_dispatched(b as int, m as int, n as int),
{
    let wg_x: u32 = #[verifier::truncate]
    (div_ceil(n, NAIVE_WG_X) as u32);
    let wg_y: u32 = #[verifier::truncate]
    (div_ceil(b * m, NAIVE_WG_Y) as u32);
    Dispatch {
        kernel: Kernel::Naive,
        cube_count: Extent { x: wg_x, y: wg_y },
        cube_dim: Extent { x: NAIVE_WG_X as u32, y: NAIVE_WG_Y as u32 },
    }
}

/// Everything that a device needs to run one fused dequantize-and-multiply.
#[derive(Debug)]
pub struct MatmulLaunch {
    /// `[B, M, K, N, K / 32]`, as the kernels read them.
    pub info: [u32; 5],
    /// `info` as bytes, little-endian, for upload.
    pub info_bytes: Vec<u8>,
    /// Words in the weights buffer.
    pub weights_u32_len: usize,
    /// Elements of the input.
    pub input_len: usize,
    /// Elements of the output.
    pub output_len: usize,
    /// Bytes of the output buffer.
    pub output_bytes: usize,
    /// `[B, M, N]`.
    pub output_shape: [usize; 3],
    pub dispatch: Dispatch,
}

/// The numbers `[B, M, K, N, K / 32]` that the kernels read.
pub open spec fn launch_info(b: int, m: int, k: int, n: int) -> Seq<u32> {
    seq![b as u32, m as u32, k as u32, n as u32, (k / 32) as u32]
}

impl MatmulLaunch {
    /// This is the launch for an input of shape `[b, m, k]` and weights of shape `[n, k]`.
    pub open spec fn multiplies(self, platform: Platform, b: int, m: int, k: int, n: int) -> bool {
        &&& self.info@ == launch_info(b, m, k, n)
        &&& self.info_bytes@.len() == 20
        &&& words_of(self.info_bytes@) == self.info@
        &&& self.weights_u32_len == 5 * (n * k / 32)
        &&& self.input_len == b * m * k
        &&& self.output_len == b * m * n
        &&& self.output_bytes == 4 * (b * m * n)
        &&& self.output_shape@ == seq![b as usize, m as usize, n as usize]
        &&& self.dispatch == dispatched(platform, b, m, n)
    }
}

/// The little-endian bytes of `words`.
fn le_bytes(words: &[u32; 5]) -> (bytes: Vec<u8>)
    ensures
        bytes@.len() == 20,
        words_of(bytes@) == words@,
{
    let mut bytes: Vec<u8> = Vec::new();
    let mut index: usize = 0;
    while index < 5
        invariant
            index <= 5,
            bytes@.len() == 4 * index,
            forall|i: int| 0 <= i < index ==> word_at(bytes@, i) == words@[i],
        decreases 5 - index,
    {
        let word: u32 = words[index];
        let ghost before = bytes@;
        proof {
            assert((word & 0xFFu32) == word % 256) by (bit_vector);
            assert(((word >> 8u32) & 0xFFu32) == word / 0x100 % 256) by (bit_vector);
            assert(((word >> 16u32) & 0xFFu32) == word / 0x1_0000 % 256) by (bit_vector);
            assert(((word >> 24u32) & 0xFFu32) == word / 0x100_0000) by (bit_vector);
        }
        bytes.push((word & 0xFFu32) as u8);
        bytes.push(((word >> 8u32) & 0xFFu32) as u8);
        bytes.push(((word >> 16u32) & 0xFFu32) as u8);
        bytes.push(((word >> 24u32) & 0xFFu32) as u8);
        proof {
            assert forall|i: int| 0 <= i < index + 1 implies word_at(bytes@, i) == words@[i] by {
                if i < index {
                    assert(word_at(bytes@, i) == word_at(before, i));
                }
            }
        }
        index = index + 1;
    }
    assert(words_of(bytes@) =~= words@);
    bytes
}

/// The launch that computes `output[B, M, N] = input[B, M, K] × weights[N, K]^T`, for
/// every shape that a tensor can have.
///
/// The weights stay in Q4_0 blocks: the kernel dequantizes them as it goes.
pub fn q4_matmul(platform: Platform, input_shape: [usize; 3], weights: &Q4Tensor) -> (launch:
    MatmulLaunch)
    requires
        input_shape@[2] == weights.in_features(),
        input_shape@[0] * input_shape@[1] <= usize::MAX,
        input_shape@[0] * input_shape@[1] * input_shape@[2] <= usize::MAX,
        input_shape@[0] * input_shape@[1] * weights.out_features() * 4 <= usize::MAX,
    ensures
        launch.multiplies(
            platform,
            input_shape@[0] as int,
            input_shape@[1] as int,
            input_shape@[2] as int,
            weights.out_features() as int,
        ),
        launch.weights_u32_len == 5 * weights.blocks(),
        platform == Platform::Wasm ==> launch.dispatch.kernel == Kernel::Naive,
{
    let b: usize = input_shape[0];
    let m: usize = input_shape[1];
    let k: usize = input_shape[2];
    let n: usize = weights.shape()[0];
    let blocks_per_row: usize = k / BLOCK_WEIGHTS;
    let info: [u32; 5] = [
        #[verifier::truncate]
        (b as u32),
        #[verifier::truncate]
        (m as u32),
        #[verifier::truncate]
        (k as u32),
        #[verifier::truncate]
        (n as u32),
        #[verifier::truncate]
        (blocks_per_row as u32),
    ];
    let info_bytes: Vec<u8> = le_bytes(&info);
    let weights_u32_len: usize = weights.num_blocks() * ALIGNED_BLOCK_WORDS;
    let output_shape: [usize; 3] = [b, m, n];
    assert(info@ =~= launch_info(b as int, m as int, k as int, n as int));
    assert(output_shape@ =~= seq![b, m, n]);
    MatmulLaunch {
        info,
        info_bytes,
        weights_u32_len,
        input_len: b * m * k,
        output_len: b * m * n,
        output_bytes: b * m * n * 4,
        output_shape,
        dispatch: dispatch(platform, b, m, n),
    }
}

} // verus!
