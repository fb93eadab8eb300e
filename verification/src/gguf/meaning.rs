//! What results are in terms of bytes and numbers alone.
//!
//! The laws of this module speak of file bytes, of sizes and of places in tensors. They
//! fix, without the vocabulary of the other modules, what that vocabulary stands for.
use vstd::prelude::*;

use crate::gguf::block::{aligned_bytes, packed_bytes, words_of};
use crate::gguf::laws::{
    element_step, law_steps_match_elements, law_words_hold_blocks, lemma_weight,
};
use crate::gguf::linear::{bias_fits, bias_row, columns, input_fits, multiplies, output_width};
use crate::gguf::op::{
    cube_results, dispatched, launch_fits, launch_info, lemma_row_inside, naive_dispatched,
    output_view, row_terms, step_element, thread_result, weight_term, widened_pattern,
    Kernel, MatmulLaunch, Platform, ThreadOutput,
};
use crate::gguf::tensor::{weights_of, Q4Tensor};

verus! {

// ---------------------------------------------------------------------------
// Blocks
// ---------------------------------------------------------------------------

/// A device buffer has, for every block of the file, its two scale bytes, two zero bytes
/// and its 16 level bytes in the order of the file.
pub proof fn law_device_block(raw_bytes: Seq<u8>, blocks: nat, block: int, i: int)
    requires
        raw_bytes.len() == 18 * blocks,
        0 <= block < blocks,
        0 <= i < 16,
    ensures
        aligned_bytes(raw_bytes, blocks).len() == 20 * blocks,
        aligned_bytes(raw_bytes, blocks)[20 * block] == raw_bytes[18 * block],
        aligned_bytes(raw_bytes, blocks)[20 * block + 1] == raw_bytes[18 * block + 1],
        aligned_bytes(raw_bytes, blocks)[20 * block + 2] == 0,
        aligned_bytes(raw_bytes, blocks)[20 * block + 3] == 0,
        aligned_bytes(raw_bytes, blocks)[20 * block + 4 + i] == raw_bytes[18 * block + 2 + i],
{
    assert((20 * block) / 20 == block && (20 * block) % 20 == 0);
    assert((20 * block + 1) / 20 == block && (20 * block + 1) % 20 == 1);
    assert((20 * block + 2) / 20 == block && (20 * block + 2) % 20 == 2);
    assert((20 * block + 3) / 20 == block && (20 * block + 3) % 20 == 3);
    assert((20 * block + 4 + i) / 20 == block && (20 * block + 4 + i) % 20 == 4 + i);
}

/// File bytes that are read back have, for every block of the device buffer, its first
/// two bytes and its last 16 bytes, in order.
pub proof fn law_file_block(buffer: Seq<u8>, blocks: nat, block: int, i: int)
    requires
        20 * blocks <= buffer.len(),
        0 <= block < blocks,
        0 <= i < 16,
    ensures
        packed_bytes(buffer, blocks).len() == 18 * blocks,
        packed_bytes(buffer, blocks)[18 * block] == buffer[20 * block],
        packed_bytes(buffer, blocks)[18 * block + 1] == buffer[20 * block + 1],
        packed_bytes(buffer, blocks)[18 * block + 2 + i] == buffer[20 * block + 4 + i],
{
    assert((18 * block) / 18 == block && (18 * block) % 18 == 0);
    assert((18 * block + 1) / 18 == block && (18 * block + 1) % 18 == 1);
    assert((18 * block + 2 + i) / 18 == block && (18 * block + 2 + i) % 18 == 2 + i);
}

/// A device reads the bytes of a buffer four at a time, the lowest byte of a word first.
pub proof fn law_device_word(bytes: Seq<u8>, word: int)
    requires
        0 <= word,
        4 * word + 4 <= bytes.len(),
    ensures
        words_of(bytes).len() == bytes.len() / 4,
        words_of(bytes)[word] == bytes[4 * word] + 0x100 * bytes[4 * word + 1] + 0x1_0000
            * bytes[4 * word + 2] + 0x100_0000 * bytes[4 * word + 3],
{
}

/// Weight `i` that dequantizing finds in a device buffer: the scale bits are the 16-bit
/// number in the first two bytes of its block, low byte first, sign and all. The level
/// is a half of one of the last 16 bytes, less 8: the low half for the first 16 weights
/// of the block, the high half for the others.
#[verifier::spinoff_prover]
#[verifier::rlimit(60)]
pub proof fn law_weight_in_buffer(buffer: Seq<u8>, blocks: nat, i: int)
    requires
        20 * blocks <= buffer.len(),
        0 <= i < 32 * blocks,
    ensures
        weights_of(buffer, blocks).len() == 32 * blocks,
        weights_of(buffer, blocks)[i].scale_bits == buffer[20 * (i / 32)] + 256 * buffer[20 * (i
            / 32) + 1],
        i % 32 < 16 ==> weights_of(buffer, blocks)[i].level == buffer[20 * (i / 32) + 4 + i % 32]
            % 16 - 8,
        i % 32 >= 16 ==> weights_of(buffer, blocks)[i].level == buffer[20 * (i / 32) + i % 32 - 12]
            / 16 - 8,
{
    law_words_hold_blocks(buffer, i / 32, i % 32);
    assert(i % 32 >= 16 ==> i % 32 % 16 == i % 32 - 16);
}

/// Weight `i` of a tensor that was made of file bytes, whatever follows its blocks in the
/// device buffer: the scale bits are the 16-bit number in the first two bytes of its
/// block in the file, low byte first, sign and all, and the level is a half of one of
/// the 16 bytes that follow, less 8.
#[verifier::spinoff_prover]
#[verifier::rlimit(60)]
pub proof fn law_weight_in_file(raw_bytes: Seq<u8>, blocks: nat, rest: Seq<u8>, i: int)
    requires
        raw_bytes.len() == 18 * blocks,
        0 <= i < 32 * blocks,
    ensures
        weights_of(aligned_bytes(raw_bytes, blocks) + rest, blocks).len() == 32 * blocks,
        weights_of(aligned_bytes(raw_bytes, blocks) + rest, blocks)[i].scale_bits == raw_bytes[18 * (
        i / 32)] + 256 * raw_bytes[18 * (i / 32) + 1],
        i % 32 < 16 ==> weights_of(aligned_bytes(raw_bytes, blocks) + rest, blocks)[i].level
            == raw_bytes[18 * (i / 32) + 2 + i % 32] % 16 - 8,
        i % 32 >= 16 ==> weights_of(aligned_bytes(raw_bytes, blocks) + rest, blocks)[i].level
            == raw_bytes[18 * (i / 32) + i % 32 - 14] / 16 - 8,
{
    let block = i / 32;
    let within = i % 32;
    let at = if within < 16 {
        within
    } else {
        within - 16
    };
    let device = aligned_bytes(raw_bytes, blocks);
    let buffer = device + rest;
    law_device_block(raw_bytes, blocks, block, at);
    assert(buffer[20 * block] == device[20 * block]);
    assert(buffer[20 * block + 1] == device[20 * block + 1]);
    assert(buffer[20 * block + 4 + at] == device[20 * block + 4 + at]);
    law_weight_in_buffer(buffer, blocks, i);
}

/// A tensor whose blocks differ in the sign of a scale has other weights.
pub proof fn law_sign_of_scale_matters(
    raw_bytes: Seq<u8>,
    other_bytes: Seq<u8>,
    blocks: nat,
    block: int,
    i: int,
)
    requires
        raw_bytes.len() == 18 * blocks,
        other_bytes.len() == 18 * blocks,
        0 <= block < blocks,
        raw_bytes[18 * block + 1] >= 128,
        other_bytes[18 * block + 1] < 128,
        32 * block <= i < 32 * block + 32,
    ensures
        weights_of(aligned_bytes(raw_bytes, blocks), blocks)[i].scale_bits >= 0x8000,
        weights_of(aligned_bytes(other_bytes, blocks), blocks)[i].scale_bits < 0x8000,
{
    let none = Seq::<u8>::empty();
    assert(i / 32 == block);
    assert(aligned_bytes(raw_bytes, blocks) + none =~= aligned_bytes(raw_bytes, blocks));
    assert(aligned_bytes(other_bytes, blocks) + none =~= aligned_bytes(other_bytes, blocks));
    law_weight_in_file(raw_bytes, blocks, none, i);
    law_weight_in_file(other_bytes, blocks, none, i);
}

// ---------------------------------------------------------------------------
// Scales
// ---------------------------------------------------------------------------

/// The conversion of scales keeps the sign, adds 112 to the exponent field and moves the
/// fraction field to the top of the longer one. Bits above the low 16 do not matter.
#[verifier::spinoff_prover]
#[verifier::rlimit(60)]
pub proof fn law_converted_fields(bits: u32)
    ensures
        0 <= widened_pattern(bits as int) <= u32::MAX,
        widened_pattern(bits as int) / 0x8000_0000 == bits / 0x8000 % 2,
        widened_pattern(bits as int) / 0x80_0000 % 256 == bits / 0x400 % 32 + 112,
        widened_pattern(bits as int) % 0x80_0000 == bits % 0x400 * 0x2000,
        widened_pattern(bits as int) == widened_pattern(bits as int % 0x1_0000),
{
    lemma_fields(bits as int / 0x8000 % 2, bits as int / 0x400 % 32, bits as int % 0x400);
    assert(bits % 0x1_0000 / 0x8000 % 2 == bits / 0x8000 % 2) by (bit_vector);
    assert(bits % 0x1_0000 / 0x400 % 32 == bits / 0x400 % 32) by (bit_vector);
    assert(bits % 0x1_0000 % 0x400 == bits % 0x400) by (bit_vector);
}

/// A number that is put together of three fields has these fields.
proof fn lemma_fields(sign: int, exp: int, frac: int)
    requires
        0 <= sign < 2,
        0 <= exp < 32,
        0 <= frac < 0x400,
    ensures
        ({
            let wide = sign * 0x8000_0000 + (exp + 112) * 0x80_0000 + frac * 0x2000;
            &&& 0 <= wide <= u32::MAX
            &&& wide / 0x8000_0000 == sign
            &&& wide / 0x80_0000 % 256 == exp + 112
            &&& wide % 0x80_0000 == frac * 0x2000
        }),
{
    let wide = sign * 0x8000_0000 + (exp + 112) * 0x80_0000 + frac * 0x2000;
    assert(wide / 0x80_0000 == sign * 256 + exp + 112);
}

// ---------------------------------------------------------------------------
// Steps of a dot product
// ---------------------------------------------------------------------------

/// The inputs that the steps of a dot product read. A row whose length is a multiple of
/// 32 is read in runs of four: in each stretch of 32, four elements of its first half
/// and then the four of its second half that stand 16 further on. Any other row is read
/// in order.
#[verifier::spinoff_prover]
#[verifier::rlimit(60)]
pub proof fn law_order_of_inputs(words: Seq<u32>, k: int, row: int, base: int, step: int)
    requires
        0 <= step < k,
        0 <= base,
        base + k <= usize::MAX + 1,
    ensures
        row_terms(words, k, row, base).len() == k,
        k % 32 != 0 ==> row_terms(words, k, row, base)[step].input == base + step,
        k % 32 == 0 && step % 8 < 4 ==> row_terms(words, k, row, base)[step].input == base + (step
            - step % 32) + 4 * (step % 32 / 8) + step % 8,
        k % 32 == 0 && step % 8 >= 4 ==> row_terms(words, k, row, base)[step].input == base + (step
            - step % 32) + 4 * (step % 32 / 8) + step % 8 + 12,
{
    let rest = step % 32;
    assert(k % 32 == 0 ==> step - rest + 32 <= k);
    assert(rest % 8 == step % 8 && rest % 4 == step % 4);
    assert(rest % 8 < 4 ==> rest / 4 % 2 == 0 && rest % 4 == rest % 8);
    assert(rest % 8 >= 4 ==> rest / 4 % 2 == 1 && rest % 4 == rest % 8 - 4);
}

/// A dot product reads every element of its input row, and none twice.
#[verifier::spinoff_prover]
#[verifier::rlimit(60)]
pub proof fn law_inputs_once_each(
    words: Seq<u32>,
    k: int,
    row: int,
    base: int,
    first: int,
    second: int,
    element: int,
)
    requires
        0 <= first < k,
        0 <= second < k,
        0 <= element < k,
        0 <= base,
        base + k <= usize::MAX + 1,
    ensures
        row_terms(words, k, row, base)[first].input == row_terms(words, k, row, base)[second].input
            ==> first == second,
        exists|step: int|
            0 <= step < k && (#[trigger] row_terms(words, k, row, base)[step]).input == base
                + element,
{
    lemma_distinct_elements(k, first, second);
    lemma_input(words, k, row, base, first);
    lemma_input(words, k, row, base, second);
    let step = lemma_step_of_element(k, element);
    lemma_input(words, k, row, base, step);
    assert(row_terms(words, k, row, base)[step].input == base + element);
}

/// Steps handle distinct elements.
#[verifier::spinoff_prover]
#[verifier::rlimit(60)]
proof fn lemma_distinct_elements(k: int, first: int, second: int)
    requires
        0 <= first < k,
        0 <= second < k,
    ensures
        step_element(k, first) == step_element(k, second) ==> first == second,
{
    law_steps_match_elements(k, first);
    law_steps_match_elements(k, second);
    let back = element_step(k, step_element(k, first));
    assert(back == first);
}

/// Some step handles an element.
#[verifier::spinoff_prover]
#[verifier::rlimit(60)]
proof fn lemma_step_of_element(k: int, element: int) -> (step: int)
    requires
        0 <= element < k,
    ensures
        0 <= step < k,
        step_element(k, step) == element,
{
    law_steps_match_elements(k, element);
    element_step(k, element)
}

/// The input of a step.
#[verifier::spinoff_prover]
#[verifier::rlimit(60)]
proof fn lemma_input(words: Seq<u32>, k: int, row: int, base: int, step: int)
    requires
        0 <= step < k,
        0 <= base,
        base + k <= usize::MAX + 1,
    ensures
        row_terms(words, k, row, base)[step].input == base + step_element(k, step),
        0 <= step_element(k, step) < k,
{
    law_steps_match_elements(k, step);
}

/// What a kernel multiplies an input element with, in terms of the bytes of the device
/// buffer. Each step of the dot product of weight row `row` reads one element of its
/// input row. Its level and its scale are those of the weight at the same place of the
/// weight row: the scale is the full 16-bit number at the start of the block, of which
/// the step has the sign, the exponent field plus 112, and the fraction field.
#[verifier::spinoff_prover]
#[verifier::rlimit(60)]
pub proof fn law_term_in_buffer(buffer: Seq<u8>, n: int, k: int, row: int, base: int, step: int)
    requires
        n * k % 32 == 0,
        20 * (n * k / 32) <= buffer.len(),
        0 <= row < n,
        0 <= step < k,
        0 <= base,
        base + k <= usize::MAX + 1,
    ensures
        ({
            let term = row_terms(words_of(buffer), k, row, base)[step];
            let i = row * k + (term.input - base);
            let scale = buffer[20 * (i / 32)] + 256 * buffer[20 * (i / 32) + 1];
            &&& 0 <= term.input - base < k
            &&& term.scale_bits as int / 0x8000_0000 == scale / 0x8000
            &&& term.scale_bits as int / 0x80_0000 % 256 == scale / 0x400 % 32 + 112
            &&& term.scale_bits as int % 0x80_0000 == scale % 0x400 * 0x2000
            &&& i % 32 < 16 ==> term.level == buffer[20 * (i / 32) + 4 + i % 32] % 16 - 8
            &&& i % 32 >= 16 ==> term.level == buffer[20 * (i / 32) + i % 32 - 12] / 16 - 8
        }),
{
    let blocks = (n * k / 32) as nat;
    let element = step_element(k, step);
    law_steps_match_elements(k, step);
    lemma_row_inside(n, k, row);
    let i = row * k + element;
    assert(0 <= i < 32 * blocks);
    lemma_indexed_weight(buffer, blocks, i, base + element);
}

/// The step that multiplies weight `i` of a tensor, in terms of the device buffer.
#[verifier::spinoff_prover]
#[verifier::rlimit(60)]
proof fn lemma_indexed_weight(buffer: Seq<u8>, blocks: nat, i: int, input: int)
    requires
        20 * blocks <= buffer.len(),
        0 <= i < 32 * blocks,
    ensures
        ({
            let term = weight_term(words_of(buffer), i, input);
            let scale = buffer[20 * (i / 32)] + 256 * buffer[20 * (i / 32) + 1];
            &&& term.input == input as usize
            &&& term.scale_bits as int / 0x8000_0000 == scale / 0x8000
            &&& term.scale_bits as int / 0x80_0000 % 256 == scale / 0x400 % 32 + 112
            &&& term.scale_bits as int % 0x80_0000 == scale % 0x400 * 0x2000
            &&& i % 32 < 16 ==> term.level == buffer[20 * (i / 32) + 4 + i % 32] % 16 - 8
            &&& i % 32 >= 16 ==> term.level == buffer[20 * (i / 32) + i % 32 - 12] / 16 - 8
        }),
{
    let weight = weights_of(buffer, blocks)[i];
    lemma_weight(buffer, blocks, i, input);
    law_weight_in_buffer(buffer, blocks, i);
    law_converted_fields(weight.scale_bits as u32);
}

/// What a kernel multiplies an input element with, in terms of the file bytes that the
/// weights were made of: the full 16-bit scale, sign and all, and the level of the
/// weight at the same place of the weight row.
#[verifier::spinoff_prover]
#[verifier::rlimit(60)]
pub proof fn law_term_in_file(
    raw_bytes: Seq<u8>,
    rest: Seq<u8>,
    n: int,
    k: int,
    row: int,
    base: int,
    step: int,
)
    requires
        n * k % 32 == 0,
        raw_bytes.len() == 18 * (n * k / 32),
        0 <= row < n,
        0 <= step < k,
        0 <= base,
        base + k <= usize::MAX + 1,
    ensures
        ({
            let words = words_of(aligned_bytes(raw_bytes, (n * k / 32) as nat) + rest);
            let term = row_terms(words, k, row, base)[step];
            let i = row * k + (term.input - base);
            let scale = raw_bytes[18 * (i / 32)] + 256 * raw_bytes[18 * (i / 32) + 1];
            &&& 0 <= term.input - base < k
            &&& term.scale_bits as int / 0x8000_0000 == scale / 0x8000
            &&& term.scale_bits as int / 0x80_0000 % 256 == scale / 0x400 % 32 + 112
            &&& term.scale_bits as int % 0x80_0000 == scale % 0x400 * 0x2000
            &&& i % 32 < 16 ==> term.level == raw_bytes[18 * (i / 32) + 2 + i % 32] % 16 - 8
            &&& i % 32 >= 16 ==> term.level == raw_bytes[18 * (i / 32) + i % 32 - 14] / 16 - 8
        }),
{
    let blocks = (n * k / 32) as nat;
    let device = aligned_bytes(raw_bytes, blocks);
    let buffer = device + rest;
    let term = row_terms(words_of(buffer), k, row, base)[step];
    assert(device.len() == 20 * blocks);
    law_term_in_buffer(buffer, n, k, row, base, step);
    lemma_row_inside(n, k, row);
    let i = row * k + (term.input - base);
    assert(0 <= i < 32 * blocks);
    let block = i / 32;
    let at = if i % 32 < 16 {
        i % 32
    } else {
        i % 32 - 16
    };
    law_device_block(raw_bytes, blocks, block, at);
    assert(buffer[20 * block] == device[20 * block]);
    assert(buffer[20 * block + 1] == device[20 * block + 1]);
    assert(buffer[20 * block + 4 + at] == device[20 * block + 4 + at]);
}

// ---------------------------------------------------------------------------
// Threads
// ---------------------------------------------------------------------------

/// The thread at column `x` and row `y` of the grid writes exactly where the output, with
/// `B * M` rows and `N` columns, has that place. It sums the dot product of weight row
/// `x` and input row `y`.
pub proof fn law_thread(words: Seq<u32>, info: Seq<u32>, x: int, y: int)
    requires
        0 <= x,
        0 <= y,
    ensures
        thread_result(words, info, x, y) is Some <==> x < info[3] && y < info[0] * info[1],
        thread_result(words, info, x, y) matches Some(written) ==> {
            &&& written.index == y * info[3] + x
            &&& written.terms == row_terms(words, info[2] as int, x, y * info[2])
        },
{
}

/// What a thread hands out is what it writes.
pub proof fn law_thread_output(output: Option<ThreadOutput>)
    ensures
        output_view(output) is Some <==> output is Some,
        output matches Some(written) ==> output_view(output) matches Some(result)
            && result.terms == written.terms@ && result.index == written.index,
{
}

/// The threads of a cube take `wg_size` columns in a row, the first cube of a row of cubes
/// from column 0 on.
pub proof fn law_cube(
    words: Seq<u32>,
    info: Seq<u32>,
    wg_size: int,
    cube_x: int,
    cube_y: int,
    unit: int,
)
    requires
        0 <= unit < wg_size,
        0 <= cube_x,
        0 <= cube_y,
    ensures
        cube_results(words, info, wg_size, cube_x, cube_y).len() == wg_size,
        ({
            let x = cube_x * wg_size + unit;
            let result = cube_results(words, info, wg_size, cube_x, cube_y)[unit];
            &&& result is Some <==> x < info[3] && cube_y < info[0] * info[1]
            &&& result matches Some(written) ==> {
                &&& written.index == cube_y * info[3] + x
                &&& written.terms == row_terms(words, info[2] as int, x, cube_y * info[2])
            }
        }),
{
}

/// The kernels take every launch whose buffers 32-bit indices can address and whose
/// weights fill whole blocks that are all there.
pub proof fn law_kernels_take(info: Seq<u32>, weights_len: int)
    requires
        info.len() == 5,
        0 < info[1],
        info[4] == info[2] / 32,
        info[0] * info[1] * info[2] <= 0x1_0000_0000,
        info[0] * info[1] * info[3] <= 0x1_0000_0000,
        info[3] * info[2] % 32 == 0,
        5 * (info[3] * info[2] / 32) <= 0x1_0000_0000,
        5 * (info[3] * info[2] / 32) <= weights_len,
    ensures
        launch_fits(info, weights_len),
{
}

// ---------------------------------------------------------------------------
// Launches
// ---------------------------------------------------------------------------

/// The kernel and the grid of a launch. On native platforms up to four rows in a batch
/// go to the tiled kernel, with cubes of 32 threads in a row and one row of cubes for
/// each input row. All else, and everything on the web, goes to the naive kernel, with
/// cubes of 16 by 16 threads. In each direction the grid has as many cubes as it takes.
pub proof fn law_grid(platform: Platform, b: int, m: int, n: int, across: int, down: int)
    requires
        0 <= b,
        0 <= m,
        0 <= n,
    ensures
        platform == Platform::Native && m <= 4 ==> {
            let launch = dispatched(platform, b, m, n);
            &&& launch.kernel == (Kernel::Tiled { tile_k: 256, wg_size: 32 })
            &&& launch.cube_dim.x == 32
            &&& launch.cube_dim.y == 1
            &&& 32 * (across - 1) < n <= 32 * across ==> launch.cube_count.x == across as u32
            &&& launch.cube_count.y == (b * m) as u32
        },
        platform == Platform::Wasm || m > 4 ==> dispatched(platform, b, m, n) == naive_dispatched(
            b,
            m,
            n,
        ),
        ({
            let launch = naive_dispatched(b, m, n);
            &&& launch.kernel == Kernel::Naive
            &&& launch.cube_dim.x == 16
            &&& launch.cube_dim.y == 16
            &&& 16 * (across - 1) < n <= 16 * across ==> launch.cube_count.x == across as u32
            &&& 16 * (down - 1) < b * m <= 16 * down ==> launch.cube_count.y == down as u32
        }),
{
}

/// What a launch for an input of shape `[b, m, k]` and weights of shape `[n, k]` hands to
/// the device: five numbers and their 20 bytes, lengths and shape. The weights have five
/// words for every 32 of their `n * k` elements, whatever `b` and `m` are, and the
/// kernels can run on these numbers and these words where 32-bit indices address all
/// buffers. On the web the kernel is the naive one.
pub proof fn law_launch_numbers(
    launch: MatmulLaunch,
    platform: Platform,
    b: int,
    m: int,
    k: int,
    n: int,
    word: int,
)
    requires
        launch.multiplies(platform, b, m, k, n),
        0 <= b,
        0 <= m,
        0 <= k,
        0 <= n,
        n * k % 32 == 0,
        0 <= word < 5,
    ensures
        launch.info@ == seq![b as u32, m as u32, k as u32, n as u32, (k / 32) as u32],
        launch.info_bytes@.len() == 20,
        launch.info@[word] == launch.info_bytes@[4 * word] + 0x100 * launch.info_bytes@[4 * word
            + 1] + 0x1_0000 * launch.info_bytes@[4 * word + 2] + 0x100_0000
            * launch.info_bytes@[4 * word + 3],
        32 * launch.weights_u32_len == 5 * (n * k),
        launch.input_len == b * m * k,
        launch.output_len == b * m * n,
        launch.output_bytes == 4 * (b * m * n),
        launch.output_shape@ == seq![b as usize, m as usize, n as usize],
        launch.dispatch == dispatched(platform, b, m, n),
        platform == Platform::Wasm ==> launch.dispatch.kernel == Kernel::Naive,
        b <= u32::MAX && 0 < m <= u32::MAX && k <= u32::MAX && n <= u32::MAX && b * m * k
            <= 0x1_0000_0000 && b * m * n <= 0x1_0000_0000 && launch.weights_u32_len <= u32::MAX
            ==> launch_fits(launch.info@, launch.weights_u32_len as int),
{
    let bytes = launch.info_bytes@;
    assert(words_of(bytes)[word] == launch.info@[word]);
    assert(5 * (n * k / 32) * 32 == 5 * (n * k));
    let info = launch.info@;
    assert(info =~= seq![b as u32, m as u32, k as u32, n as u32, (k / 32) as u32]);
    if b <= u32::MAX && 0 < m <= u32::MAX && k <= u32::MAX && n <= u32::MAX {
        assert(info[0] == b && info[1] == m && info[2] == k && info[3] == n && info[4] == k / 32);
    }
}

/// The weights length of a launch is that of the whole device buffer of the tensor: four
/// bytes for each word.
pub proof fn law_weights_length(
    launch: MatmulLaunch,
    platform: Platform,
    raw_bytes: Seq<u8>,
    b: int,
    m: int,
    k: int,
    n: int,
)
    requires
        launch.multiplies(platform, b, m, k, n),
        0 <= b,
        0 <= m,
        0 <= k,
        0 <= n,
        n * k % 32 == 0,
        raw_bytes.len() == 18 * (n * k / 32),
    ensures
        4 * launch.weights_u32_len == aligned_bytes(raw_bytes, (n * k / 32) as nat).len(),
        launch.weights_u32_len == words_of(aligned_bytes(raw_bytes, (n * k / 32) as nat)).len(),
{
    assert(0 <= n * k) by (nonlinear_arith)
        requires
            0 <= n,
            0 <= k,
    ;
    law_launch_numbers(launch, platform, b, m, k, n, 0);
}

/// The weights length of a launch depends on the weights only: launches of any two inputs
/// on any two platforms have the same.
pub proof fn law_weights_length_is_the_tensors(
    first: MatmulLaunch,
    second: MatmulLaunch,
    platform: Platform,
    other_platform: Platform,
    weights: Q4Tensor,
    x_shape: Seq<usize>,
    other_x_shape: Seq<usize>,
)
    requires
        multiplies(first, platform, weights, x_shape),
        multiplies(second, other_platform, weights, other_x_shape),
        x_shape[2] == weights.in_features(),
        other_x_shape[2] == weights.in_features(),
    ensures
        first.weights_u32_len == second.weights_u32_len,
        first.weights_u32_len == 5 * weights.blocks(),
{
}

/// The launch numbers are those of the sizes.
pub proof fn law_launch_info(b: int, m: int, k: int, n: int)
    ensures
        launch_info(b, m, k, n) == seq![b as u32, m as u32, k as u32, n as u32, (k / 32) as u32],
{
}

// ---------------------------------------------------------------------------
// Layers
// ---------------------------------------------------------------------------

/// The launch of a layer is the launch of its weights for the platform that it was asked
/// for: on the web it runs the naive kernel, and on native platforms the tiled kernel
/// up to four rows in a batch.
pub proof fn law_layer_launch(
    launch: MatmulLaunch,
    platform: Platform,
    weights: Q4Tensor,
    x_shape: Seq<usize>,
)
    requires
        multiplies(launch, platform, weights, x_shape),
    ensures
        platform == Platform::Wasm ==> launch.dispatch.kernel == Kernel::Naive,
        platform == Platform::Native && x_shape[1] <= 4 ==> launch.dispatch.kernel == (
        Kernel::Tiled { tile_k: 256, wg_size: 32 }),
        platform == Platform::Native && x_shape[1] > 4 ==> launch.dispatch.kernel == Kernel::Naive,
        launch.dispatch == dispatched(
            platform,
            x_shape[0] as int,
            x_shape[1] as int,
            weights.out_features() as int,
        ),
        launch.info@ == seq![
            x_shape[0] as u32,
            x_shape[1] as u32,
            x_shape[2] as u32,
            weights.out_features() as u32,
            (x_shape[2] as int / 32) as u32,
        ],
        launch.output_shape@ == seq![x_shape[0], x_shape[1], weights.out_features()],
        launch.multiplies(
            platform,
            x_shape[0] as int,
            x_shape[1] as int,
            x_shape[2] as int,
            weights.out_features() as int,
        ),
{
    assert(launch.output_shape@ =~= seq![x_shape[0], x_shape[1], weights.out_features()]);
    assert(launch.info@ =~= seq![
        x_shape[0] as u32,
        x_shape[1] as u32,
        x_shape[2] as u32,
        weights.out_features() as u32,
        (x_shape[2] as int / 32) as u32,
    ]);
}

/// Layers take every input whose rows are as long as the weight rows and whose sizes fit
/// in memory.
pub proof fn law_layers_take(weights: Q4Tensor, x_shape: Seq<usize>)
    requires
        x_shape[2] == weights.in_features(),
        x_shape[0] * x_shape[1] <= usize::MAX,
        x_shape[0] * x_shape[1] * x_shape[2] <= usize::MAX,
        x_shape[0] * x_shape[1] * weights.out_features() * 4 <= usize::MAX,
    ensures
        input_fits(weights, x_shape),
{
}

/// A layer takes a bias that has as many elements as a row of the product, or one element
/// for all of them, or more where rows have one. Dimension by dimension the bias meets
/// the product: they are equal, or one of them is 1 and the sum has the other.
pub proof fn law_bias_meets_product(len: usize, b: usize, m: usize, n: usize, dim: int)
    requires
        0 < b,
        0 < m,
        len == n || (len == 1 && 0 < n) || (n == 1 && 0 < len),
        0 <= dim < 3,
    ensures
        bias_fits(Some(len), b as int, m as int, n as int),
        bias_row(len).len() == 3,
        ({
            let bias = bias_row(len)[dim];
            let product = seq![b, m, n][dim];
            let sum = seq![b, m, output_width(Some(len), n)][dim];
            ||| bias == product && sum == product
            ||| bias == 1 && sum == product
            ||| product == 1 && sum == bias
        }),
        bias_row(len)[0] * bias_row(len)[1] * bias_row(len)[2] == len,
{
    let row = bias_row(len);
    assert(row[0] == 1 && row[1] == 1 && row[2] == len);
    assert(dim == 0 || dim == 1 || dim == 2);
    assert(row[0] * row[1] * row[2] == len) by (nonlinear_arith)
        requires
            row[0] == 1,
            row[1] == 1,
            row[2] == len,
    ;
}

/// The element of the bias that is added at column `c` of row `j` of batch `i`: element
/// `c`, or the only one, in every row of every batch alike. A dimension of size 1 serves
/// for all places of that dimension.
pub proof fn law_bias_element(len: usize, n: usize, i: int, j: int, c: int)
    requires
        0 <= i,
        0 <= j,
        0 <= c < output_width(Some(len), n),
        len == n || len == 1 || n == 1,
    ensures
        ({
            let shape = bias_row(len);
            let batch = if shape[0] == 1 { 0 } else { i };
            let row = if shape[1] == 1 { 0 } else { j };
            let column = if shape[2] == 1 { 0 } else { c };
            let element = (batch * shape[1] + row) * shape[2] + column;
            element == if len == 1 {
                0
            } else {
                c
            }
        }),
        output_width(Some(len), n) == len || output_width(Some(len), n) == n,
        output_width(Some(len), n) >= len && output_width(Some(len), n) >= n,
{
    let shape = bias_row(len);
    assert(shape[0] == 1 && shape[1] == 1 && shape[2] == len);
    assert((0 * shape[1] + 0) * shape[2] == 0) by (nonlinear_arith);
}

/// A range of columns is a range of the last of three dimensions.
pub proof fn law_columns(start: usize, length: usize)
    ensures
        columns(start as int, length as int).dim == 2,
        columns(start as int, length as int).start == start,
        columns(start as int, length as int).length == length,
{
}

} // verus!
