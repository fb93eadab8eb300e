//! What holds of the Q4_0 format, the kernels and the layers as a whole.
use vstd::arithmetic::div_mod::{
    lemma_fundamental_div_mod, lemma_fundamental_div_mod_converse, lemma_mod_bound,
};
use vstd::arithmetic::mul::lemma_mul_is_commutative;
use vstd::arithmetic::power2::{lemma2_to64, lemma_pow2_adds, lemma_pow2_pos, pow2};
use vstd::prelude::*;

use crate::gguf::block::{
    aligned_bytes, byte_of, level, packed_bytes, scale_pattern, word_at, word_level, word_scale_pattern,
    words_of,
};
use crate::gguf::linear::{columns, output_width, Narrow};
use crate::gguf::op::{
    cube_results, dispatched, groups, launch_fits, launch_info, lemma_row_inside,
    naive_dispatched, row_terms, step_element, step_weight, thread_result, weight_term,
    widened_pattern, Dispatch, Kernel, MatmulLaunch, Platform, Term,
};
use crate::gguf::tensor::{weights_of, Weight};

verus! {

// ---------------------------------------------------------------------------
// The two block layouts
// ---------------------------------------------------------------------------

/// Reading a tensor back gives the bytes that it was made of, whatever follows its
/// blocks in the device buffer.
pub proof fn law_read_back(raw_bytes: Seq<u8>, blocks: nat, rest: Seq<u8>)
    requires
        raw_bytes.len() == 18 * blocks,
    ensures
        packed_bytes(aligned_bytes(raw_bytes, blocks) + rest, blocks) == raw_bytes,
{
    let buffer = aligned_bytes(raw_bytes, blocks) + rest;
    assert forall|p: int| 0 <= p < 18 * blocks implies packed_bytes(buffer, blocks)[p]
        == raw_bytes[p] by {
        let block = p / 18;
        let offset = p % 18;
        let q = if offset < 2 {
            20 * block + offset
        } else {
            20 * block + offset + 2
        };
        assert(q / 20 == block);
        assert(0 <= q < 20 * blocks);
    }
    assert(packed_bytes(buffer, blocks) =~= raw_bytes);
}

/// Making a tensor of the bytes that were read back gives the device buffer again,
/// where the padding of its blocks is zero.
pub proof fn law_upload_again(buffer: Seq<u8>, blocks: nat)
    requires
        buffer.len() == 20 * blocks,
        forall|p: int| 0 <= p < 20 * blocks && 2 <= p % 20 < 4 ==> #[trigger] buffer[p] == 0,
    ensures
        aligned_bytes(packed_bytes(buffer, blocks), blocks) == buffer,
{
    let packed = packed_bytes(buffer, blocks);
    assert forall|p: int| 0 <= p < 20 * blocks implies aligned_bytes(packed, blocks)[p]
        == buffer[p] by {
        let block = p / 20;
        let offset = p % 20;
        assert(0 <= block < blocks);
        assert(p == 20 * block + offset);
        if offset < 2 {
            let q = 18 * block + offset;
            assert(q / 18 == block && q % 18 == offset);
        } else if offset < 4 {
            assert(buffer[p] == 0);
        } else {
            let q = 18 * block + offset - 2;
            assert(q / 18 == block && q % 18 == offset - 2);
        }
    }
    assert(aligned_bytes(packed, blocks) =~= buffer);
}

/// The bytes of a little-endian word.
proof fn lemma_bytes_of_word(b0: u8, b1: u8, b2: u8, b3: u8, word: u32)
    requires
        word == b0 + 0x100 * b1 + 0x1_0000 * b2 + 0x100_0000 * b3,
    ensures
        byte_of(word, 0) == b0,
        byte_of(word, 1) == b1,
        byte_of(word, 2) == b2,
        byte_of(word, 3) == b3,
        word as int % 0x1_0000 == b0 + 0x100 * b1,
{
    let high2 = b2 + 0x100 * b3;
    let high3 = b1 + 0x100 * high2;
    assert(word as int / 0x100 == high3);
    assert(word as int / 0x1_0000 == high2);
}

/// The kernels, which read words, find the same scales and levels in a device buffer
/// as a reader of bytes.
pub proof fn law_words_hold_blocks(buffer: Seq<u8>, block: int, weight: int)
    requires
        0 <= block,
        20 * block + 20 <= buffer.len(),
        0 <= weight < 32,
    ensures
        word_scale_pattern(words_of(buffer), block) == scale_pattern(buffer, block),
        word_level(words_of(buffer), block, weight) == level(buffer, block, weight),
        -8 <= level(buffer, block, weight) <= 7,
{
    let words = words_of(buffer);
    let head = 5 * block;
    assert(words[head] == word_at(buffer, head));
    lemma_bytes_of_word(
        buffer[4 * head],
        buffer[4 * head + 1],
        buffer[4 * head + 2],
        buffer[4 * head + 3],
        words[head],
    );
    let byte = weight % 16;
    let index = 5 * block + 1 + byte / 4;
    assert(words[index] == word_at(buffer, index));
    lemma_bytes_of_word(
        buffer[4 * index],
        buffer[4 * index + 1],
        buffer[4 * index + 2],
        buffer[4 * index + 3],
        words[index],
    );
    assert(4 * index + byte % 4 == 20 * block + 4 + byte);
}

/// The high half of the scale word of a block that was made of file bytes is zero.
pub proof fn law_scale_word_is_padded(raw_bytes: Seq<u8>, blocks: nat, block: int)
    requires
        raw_bytes.len() == 18 * blocks,
        0 <= block < blocks,
    ensures
        words_of(aligned_bytes(raw_bytes, blocks))[5 * block] == raw_bytes[18 * block] + 256
            * raw_bytes[18 * block + 1],
{
    let buffer = aligned_bytes(raw_bytes, blocks);
    assert(words_of(buffer)[5 * block] == word_at(buffer, 5 * block));
    assert((20 * block) / 20 == block && (20 * block) % 20 == 0);
    assert((20 * block + 1) / 20 == block && (20 * block + 1) % 20 == 1);
    assert((20 * block + 2) / 20 == block && (20 * block + 2) % 20 == 2);
    assert((20 * block + 3) / 20 == block && (20 * block + 3) % 20 == 3);
}

// ---------------------------------------------------------------------------
// Scales
// ---------------------------------------------------------------------------

/// The magnitude of a binary floating-point number with the exponent field `exp` and
/// the fraction field `frac` of `bits` bits, in units of the least number of its
/// format.
pub open spec fn magnitude(exp: int, frac: int, bits: nat) -> int {
    if exp == 0 {
        frac
    } else {
        (pow2(bits) + frac) * pow2((exp - 1) as nat)
    }
}

/// The value of a half-precision bit pattern, in units of the least single-precision
/// number, which are `2^-149`; nothing for infinities and for what is not a number.
pub open spec fn half_value(pattern: int) -> Option<int> {
    let exp = pattern / 0x400 % 32;
    let size = magnitude(exp, pattern % 0x400, 10) * pow2(125);
    if exp == 31 {
        None
    } else if pattern / 0x8000 % 2 == 0 {
        Some(size)
    } else {
        Some(-size)
    }
}

/// The value of a single-precision bit pattern, in the same units.
pub open spec fn single_value(pattern: int) -> Option<int> {
    let exp = pattern / 0x80_0000 % 256;
    let size = magnitude(exp, pattern % 0x80_0000, 23);
    if exp == 255 {
        None
    } else if pattern / 0x8000_0000 % 2 == 0 {
        Some(size)
    } else {
        Some(-size)
    }
}

/// A half-precision bit pattern stands for a normal number.
pub open spec fn is_normal_half(pattern: int) -> bool {
    1 <= pattern / 0x400 % 32 <= 30
}

/// The kernels' conversion of scales keeps the value of every normal number, and of
/// nothing else.
pub proof fn law_scale_conversion(pattern: int)
    requires
        0 <= pattern < 0x1_0000,
    ensures
        single_value(widened_pattern(pattern)) == half_value(pattern) <==> is_normal_half(pattern),
{
    let sign = pattern / 0x8000;
    let exp = pattern / 0x400 % 32;
    let frac = pattern % 0x400;
    let wide = widened_pattern(pattern);
    let wide_exp = exp + 112;
    let wide_frac = frac * 0x2000;
    assert(sign == 0 || sign == 1);
    assert(wide == sign * 0x8000_0000 + wide_exp * 0x80_0000 + wide_frac);
    assert(wide / 0x80_0000 == sign * 256 + wide_exp);
    assert(wide % 0x80_0000 == wide_frac);
    assert(wide / 0x8000_0000 == sign);
    lemma2_to64();
    let size = magnitude(wide_exp, wide_frac, 23);
    // size == (2^10 + frac) * 2^13 * 2^(exp + 111)
    let unit = pow2((exp + 124) as nat) as int;
    lemma_pow2_pos((exp + 124) as nat);
    lemma_pow2_adds(13, (exp + 111) as nat);
    assert(size == (1024 + frac) * unit) by {
        assert((8388608 + frac * 0x2000) * pow2((exp + 111) as nat) == (1024 + frac) * (0x2000
            * pow2((exp + 111) as nat))) by (nonlinear_arith);
    }
    if exp == 0 {
        lemma_pow2_adds(1, 124);
        assert(frac * pow2(125) == frac * 2 * unit) by (nonlinear_arith)
            requires
                pow2(125) == 2 * unit,
        ;
        assert((1024 + frac) * unit > frac * 2 * unit) by (nonlinear_arith)
            requires
                0 <= frac < 1024,
                0 < unit,
        ;
        assert(frac * 2 * unit >= 0) by (nonlinear_arith)
            requires
                0 <= frac,
                0 < unit,
        ;
    } else {
        lemma_pow2_adds((exp - 1) as nat, 125);
        assert((1024 + frac) * pow2((exp - 1) as nat) * pow2(125) == (1024 + frac) * (pow2(
            (exp - 1) as nat,
        ) * pow2(125))) by (nonlinear_arith);
    }
}

// ---------------------------------------------------------------------------
// What a launch computes
// ---------------------------------------------------------------------------

/// The step of a dot product that handles element `element` of a row of `k` elements.
pub open spec fn element_step(k: int, element: int) -> int {
    if k % 32 == 0 {
        let weight = element % 32;
        element / 32 * 32 + weight % 16 / 4 * 8 + weight / 16 * 4 + weight % 4
    } else {
        element
    }
}

/// Every element of a row is handled in exactly one step.
pub proof fn law_steps_match_elements(k: int, at: int)
    requires
        0 <= at < k,
    ensures
        0 <= element_step(k, at) < k,
        step_element(k, element_step(k, at)) == at,
        0 <= step_element(k, at) < k,
        element_step(k, step_element(k, at)) == at,
{
    if k % 32 == 0 {
        lemma_steps_of_blocks(k, at);
    }
}

/// Every element of a row of whole blocks is handled in exactly one step.
#[verifier::spinoff_prover]
#[verifier::rlimit(60)]
proof fn lemma_steps_of_blocks(k: int, at: int)
    requires
        k % 32 == 0,
        0 <= at < k,
    ensures
        0 <= element_step(k, at) < k,
        step_element(k, element_step(k, at)) == at,
        0 <= step_element(k, at) < k,
        element_step(k, step_element(k, at)) == at,
{
    let block = at / 32;
    let rest = at % 32;
    let step = element_step(k, at);
    let inner = rest % 16 / 4 * 8 + rest / 16 * 4 + rest % 4;
    assert(step == 32 * block + inner);
    assert(0 <= inner < 32);
    assert(step / 32 == block && step % 32 == inner);
    assert(inner / 8 == rest % 16 / 4);
    assert(inner / 4 % 2 == rest / 16);
    assert(inner % 4 == rest % 4);
    let element = step_element(k, at);
    let weight = step_weight(rest);
    assert(0 <= weight < 32);
    assert(element / 32 == block && element % 32 == weight);
    assert(weight % 16 / 4 == rest / 8);
    assert(weight / 16 == rest / 4 % 2);
    assert(weight % 4 == rest % 4);
}

/// The steps of a dot product multiply every weight of the row, as dequantizing gives
/// it, with the input element at the same place of the input row.
pub proof fn law_dot_product(buffer: Seq<u8>, n: int, k: int, row: int, base: int)
    requires
        0 <= row < n,
        0 <= k,
        n * k % 32 == 0,
        20 * (n * k / 32) <= buffer.len(),
    ensures
        row_terms(words_of(buffer), k, row, base).len() == k,
        forall|element: int|
            0 <= element < k ==> row_terms(words_of(buffer), k, row, base)[
                #[trigger] element_step(k, element)] == product_term(
                weights_of(buffer, (n * k / 32) as nat)[row * k + element],
                base + element,
            ),
{
    let terms = row_terms(words_of(buffer), k, row, base);
    let weights = weights_of(buffer, (n * k / 32) as nat);
    assert forall|element: int| 0 <= element < k implies terms[#[trigger] element_step(k, element)]
        == product_term(weights[row * k + element], base + element) by {
        lemma_product(buffer, n, k, row, base, element);
    }
}

/// One step of a dot product.
#[verifier::spinoff_prover]
#[verifier::rlimit(60)]
proof fn lemma_product(buffer: Seq<u8>, n: int, k: int, row: int, base: int, element: int)
    requires
        0 <= row < n,
        0 <= element < k,
        n * k % 32 == 0,
        20 * (n * k / 32) <= buffer.len(),
    ensures
        row_terms(words_of(buffer), k, row, base)[element_step(k, element)] == product_term(
            weights_of(buffer, (n * k / 32) as nat)[row * k + element],
            base + element,
        ),
{
    lemma_row_inside(n, k, row);
    law_steps_match_elements(k, element);
    lemma_weight(buffer, (n * k / 32) as nat, row * k + element, base + element);
}

/// A kernel finds the weights that dequantizing gives.
#[verifier::spinoff_prover]
#[verifier::rlimit(60)]
pub(crate) proof fn lemma_weight(buffer: Seq<u8>, blocks: nat, index: int, input: int)
    requires
        0 <= index < 32 * blocks,
        20 * blocks <= buffer.len(),
    ensures
        weight_term(words_of(buffer), index, input) == product_term(
            weights_of(buffer, blocks)[index],
            input,
        ),
{
    let block = index / 32;
    let weight = index % 32;
    law_words_hold_blocks(buffer, block, weight);
    let found = weights_of(buffer, blocks)[index];
    assert(found.level == level(buffer, block, weight) as i8);
    assert(found.scale_bits == scale_pattern(buffer, block) as u16);
}

/// The step that multiplies a dequantized weight with the input element at `input`.
pub open spec fn product_term(weight: Weight, input: int) -> Term {
    Term {
        level: weight.level as i32,
        scale_bits: widened_pattern(weight.scale_bits as int) as u32,
        input: input as usize,
    }
}

/// The sizes of a product of an input `[b, m, k]` and weights `[n, k]` can be handed
/// to a kernel: 32-bit indices address all its buffers, and the weights fill whole
/// blocks, as those of every tensor do.
pub open spec fn sizes_fit(b: int, m: int, k: int, n: int) -> bool {
    &&& 0 <= b <= u32::MAX
    &&& 0 < m <= u32::MAX
    &&& 0 <= k <= u32::MAX
    &&& 0 <= n <= u32::MAX
    &&& b * m <= u32::MAX
    &&& b * m * k <= u32::MAX + 1
    &&& b * m * n <= u32::MAX + 1
    &&& n * k % 32 == 0
    &&& 5 * (n * k / 32) <= u32::MAX
}

/// The numbers and the weights buffer of a launch meet what the kernels ask of them.
pub proof fn law_launch_fits(b: int, m: int, k: int, n: int)
    requires
        sizes_fit(b, m, k, n),
    ensures
        launch_fits(launch_info(b, m, k, n), 5 * (n * k / 32)),
{
    let info = launch_info(b, m, k, n);
    assert(info[0] == b && info[1] == m && info[2] == k && info[3] == n && info[4] == k / 32);
}

/// Every cube of a launch of the tiled kernel meets what the kernel asks of it, where
/// 32-bit indices also reach the end of the last tile.
pub proof fn law_cubes_fit(b: int, m: int, k: int, n: int, cube_x: int)
    requires
        sizes_fit(b, m, k, n),
        m <= 4,
        k + 256 <= u32::MAX + 1,
        0 <= cube_x < dispatched(Platform::Native, b, m, n).cube_count.x,
    ensures
        dispatched(Platform::Native, b, m, n).kernel matches Kernel::Tiled { tile_k, wg_size } && {
            &&& 0 < tile_k
            &&& tile_k % 32 == 0
            &&& tile_k <= u32::MAX
            &&& launch_info(b, m, k, n)[2] + tile_k <= u32::MAX + 1
            &&& 0 < wg_size <= u32::MAX
            &&& cube_x * wg_size + wg_size <= u32::MAX + 1
            &&& tile_k + wg_size <= usize::MAX + 1
        },
{
    lemma_groups(n, 32);
    assert(32 * groups(n, 32) <= n + 31);
}

/// The grid of a launch has a thread at column `x` and row `y`.
pub open spec fn in_grid(launch: Dispatch, x: int, y: int) -> bool {
    &&& 0 <= x < launch.cube_count.x * launch.cube_dim.x
    &&& 0 <= y < launch.cube_count.y * launch.cube_dim.y
}

/// Groups hold what they are made for.
proof fn lemma_groups(count: int, size: int)
    requires
        0 <= count,
        0 < size,
    ensures
        count <= groups(count, size) * size,
        0 <= groups(count, size) <= count,
{
    let total = count + size - 1;
    let number = groups(count, size);
    lemma_fundamental_div_mod(total, size);
    lemma_mod_bound(total, size);
    lemma_mul_is_commutative(size, number);
    assert(0 <= number <= count) by (nonlinear_arith)
        requires
            number * size + total % size == total,
            total == count + size - 1,
            0 <= total % size < size,
            0 <= count,
            0 < size,
    ;
}

/// A launch computes the whole output, and every element of it once: exactly one
/// thread of the grid writes the element `[i, j, c]` of the output, and it writes
/// the dot product of input row `[i, j]` and weight row `c`.
#[verifier::spinoff_prover]
#[verifier::rlimit(60)]
pub proof fn law_output_written_once(
    words: Seq<u32>,
    platform: Platform,
    b: int,
    m: int,
    k: int,
    n: int,
    i: int,
    j: int,
    c: int,
)
    requires
        sizes_fit(b, m, k, n),
        0 <= i < b,
        0 <= j < m,
        0 <= c < n,
    ensures
        in_grid(dispatched(platform, b, m, n), c, i * m + j),
        thread_result(words, launch_info(b, m, k, n), c, i * m + j) matches Some(written) && {
            &&& written.index == (i * m + j) * n + c
            &&& written.terms == row_terms(words, k, c, (i * m + j) * k)
        },
        forall|x: int, y: int|
            0 <= x && 0 <= y ==> (#[trigger] thread_result(words, launch_info(b, m, k, n), x, y)
                matches Some(written) && written.index == (i * m + j) * n + c ==> x == c && y == i
                * m + j),
{
    let row = i * m + j;
    let info = launch_info(b, m, k, n);
    lemma_row_inside(b, m, i);
    lemma_groups(n, 32);
    lemma_groups(n, 16);
    lemma_groups(b * m, 16);
    assert(info[0] == b && info[1] == m && info[2] == k && info[3] == n && info[4] == k / 32);
    assert(row < b * m);
    let launch = dispatched(platform, b, m, n);
    if platform == Platform::Native && m <= 4 {
        assert(launch.cube_count.x == groups(n, 32) && launch.cube_dim.x == 32);
        assert(launch.cube_count.y == b * m && launch.cube_dim.y == 1);
    } else {
        assert(launch.cube_count.x == groups(n, 16) && launch.cube_dim.x == 16);
        assert(launch.cube_count.y == groups(b * m, 16) && launch.cube_dim.y == 16);
    }
    assert forall|x: int, y: int|
        0 <= x && 0 <= y && #[trigger] thread_result(words, info, x, y) is Some && thread_result(
            words,
            info,
            x,
            y,
        ).unwrap().index == row * n + c implies x == c && y == row by {
        lemma_fundamental_div_mod_converse(row * n + c, n, row, c);
        lemma_fundamental_div_mod_converse(row * n + c, n, y, x);
    }
}

/// Threads write inside the output only.
pub proof fn law_writes_stay_inside(words: Seq<u32>, b: int, m: int, k: int, n: int, x: int, y: int)
    requires
        sizes_fit(b, m, k, n),
        0 <= x,
        0 <= y,
    ensures
        thread_result(words, launch_info(b, m, k, n), x, y) matches Some(written) ==> 0
            <= written.index < b * m * n,
{
    let info = launch_info(b, m, k, n);
    assert(info[0] == b && info[1] == m && info[3] == n);
    if x < n && y < b * m {
        lemma_row_inside(b * m, n, y);
    }
}

/// The kernels agree: where a thread of a native launch and a thread of a web launch
/// write the same element of the output, they sum the same products in the same
/// order.
pub proof fn law_kernels_agree(
    words: Seq<u32>,
    b: int,
    m: int,
    k: int,
    n: int,
    native: (int, int),
    web: (int, int),
)
    requires
        sizes_fit(b, m, k, n),
        in_grid(dispatched(Platform::Native, b, m, n), native.0, native.1),
        in_grid(dispatched(Platform::Wasm, b, m, n), web.0, web.1),
        thread_result(words, launch_info(b, m, k, n), native.0, native.1) is Some,
        thread_result(words, launch_info(b, m, k, n), web.0, web.1) is Some,
        thread_result(words, launch_info(b, m, k, n), native.0, native.1).unwrap().index
            == thread_result(words, launch_info(b, m, k, n), web.0, web.1).unwrap().index,
    ensures
        thread_result(words, launch_info(b, m, k, n), native.0, native.1).unwrap().terms
            == thread_result(words, launch_info(b, m, k, n), web.0, web.1).unwrap().terms,
{
    let info = launch_info(b, m, k, n);
    assert(info[0] == b && info[1] == m && info[2] == k && info[3] == n && info[4] == k / 32);
    lemma_fundamental_div_mod_converse(native.1 * n + native.0, n, native.1, native.0);
    lemma_fundamental_div_mod_converse(web.1 * n + web.0, n, web.1, web.0);
}

/// Neither the size of the cubes nor that of the tiles changes what is computed: the
/// thread of a cube that has column `c` writes what it writes in cubes of any other
/// size, which is what the naive kernel's thread for that column writes. Tiles do not
/// occur in what a cube writes.
pub proof fn law_cube_size(
    words: Seq<u32>,
    info: Seq<u32>,
    c: int,
    y: int,
    wg_size: int,
    other_wg_size: int,
)
    requires
        0 <= c,
        0 < wg_size,
        0 < other_wg_size,
    ensures
        0 <= c % wg_size < wg_size,
        0 <= c % other_wg_size < other_wg_size,
        cube_results(words, info, wg_size, c / wg_size, y)[c % wg_size] == thread_result(
            words,
            info,
            c,
            y,
        ),
        cube_results(words, info, wg_size, c / wg_size, y)[c % wg_size] == cube_results(
            words,
            info,
            other_wg_size,
            c / other_wg_size,
            y,
        )[c % other_wg_size],
{
    lemma_fundamental_div_mod(c, wg_size);
    lemma_fundamental_div_mod(c, other_wg_size);
    lemma_mod_bound(c, wg_size);
    lemma_mod_bound(c, other_wg_size);
    lemma_mul_is_commutative(wg_size, c / wg_size);
    lemma_mul_is_commutative(other_wg_size, c / other_wg_size);
}

/// A launch of the tiled kernel computes what a launch of the naive kernel computes: for
/// every place of the output each grid has a thread, in the tiled kernel's grid that of
/// some cube, and both write the same.
pub proof fn law_tiled_is_naive(words: Seq<u32>, b: int, m: int, k: int, n: int, c: int, y: int)
    requires
        sizes_fit(b, m, k, n),
        m <= 4,
        0 <= c < n,
        0 <= y < b * m,
    ensures
        dispatched(Platform::Native, b, m, n).kernel matches Kernel::Tiled { tile_k, wg_size } && {
            &&& 0 <= c / (wg_size as int) < dispatched(Platform::Native, b, m, n).cube_count.x
            &&& 0 <= y < dispatched(Platform::Native, b, m, n).cube_count.y
            &&& cube_results(
                words,
                launch_info(b, m, k, n),
                wg_size as int,
                c / (wg_size as int),
                y,
            )[c % (wg_size as int)] == thread_result(words, launch_info(b, m, k, n), c, y)
        },
        in_grid(naive_dispatched(b, m, n), c, y),
{
    lemma_groups(n, 32);
    lemma_groups(n, 16);
    lemma_groups(b * m, 16);
    law_cube_size(words, launch_info(b, m, k, n), c, y, 32, 32);
    let tiled = dispatched(Platform::Native, b, m, n);
    assert(tiled.cube_count.x == groups(n, 32) && tiled.cube_count.y == b * m);
    let naive = naive_dispatched(b, m, n);
    assert(naive.cube_count.x == groups(n, 16) && naive.cube_count.y == groups(b * m, 16));
}

/// A launch multiplies the input with the transposed weights: the one thread of the
/// grid that writes the element `[i, j, c]` of the output sums, over all `k` elements of
/// a row, the product of element `[i, j, element]` of the input and the dequantized
/// weight `[c, element]`.
pub proof fn law_matmul(
    buffer: Seq<u8>,
    platform: Platform,
    b: int,
    m: int,
    k: int,
    n: int,
    i: int,
    j: int,
    c: int,
)
    requires
        sizes_fit(b, m, k, n),
        20 * (n * k / 32) <= buffer.len(),
        0 <= i < b,
        0 <= j < m,
        0 <= c < n,
    ensures
        in_grid(dispatched(platform, b, m, n), c, i * m + j),
        thread_result(words_of(buffer), launch_info(b, m, k, n), c, i * m + j) matches Some(written)
            && {
            &&& written.index == (i * m + j) * n + c
            &&& written.terms.len() == k
            &&& forall|element: int|
                0 <= element < k ==> 0 <= element_step(k, element) < k && written.terms[
                    #[trigger] element_step(k, element)] == product_term(
                    weights_of(buffer, (n * k / 32) as nat)[c * k + element],
                    (i * m + j) * k + element,
                )
        },
{
    law_output_written_once(words_of(buffer), platform, b, m, k, n, i, j, c);
    law_dot_product(buffer, n, k, c, (i * m + j) * k);
    assert forall|element: int| 0 <= element < k implies 0 <= #[trigger] element_step(k, element)
        < k by {
        law_steps_match_elements(k, element);
    }
}

/// The step `term` with its input `offset` elements further on.
pub open spec fn shifted(term: Term, offset: int) -> Term {
    Term { level: term.level, scale_bits: term.scale_bits, input: (term.input + offset) as usize }
}

/// An output row is what its input row alone gives, whichever kernels the two launches
/// use: the thread for row `y` sums the products that the thread for the only row of a
/// launch of shape `[1, 1, k]` sums, each with the input element at the same place of
/// row `y`.
pub proof fn law_rows_are_independent(words: Seq<u32>, b: int, m: int, k: int, n: int, c: int, y: int)
    requires
        sizes_fit(b, m, k, n),
        0 <= c < n,
        0 <= y < b * m,
    ensures
        thread_result(words, launch_info(b, m, k, n), c, y) matches Some(written) && thread_result(
            words,
            launch_info(1, 1, k, n),
            c,
            0,
        ) matches Some(alone) && {
            &&& alone.index == c
            &&& written.index == y * n + c
            &&& written.terms.len() == alone.terms.len()
            &&& forall|step: int|
                0 <= step < k ==> #[trigger] written.terms[step] == shifted(
                    alone.terms[step],
                    y * k,
                )
        },
{
    let info = launch_info(b, m, k, n);
    let single = launch_info(1, 1, k, n);
    assert(info[0] == b && info[1] == m && info[2] == k && info[3] == n);
    assert(single[0] == 1 && single[1] == 1 && single[2] == k && single[3] == n);
    lemma_row_inside(b * m, k, y);
    let written = row_terms(words, k, c, y * k);
    let alone = row_terms(words, k, c, 0);
    assert forall|step: int| 0 <= step < k implies #[trigger] written[step] == shifted(
        alone[step],
        y * k,
    ) by {
        law_steps_match_elements(k, step);
    }
}

// ---------------------------------------------------------------------------
// What the sums are worth
// ---------------------------------------------------------------------------

/// The sum of `f(0)` to `f(count - 1)`.
pub open spec fn sum_of(f: spec_fn(int) -> int, count: int) -> int
    decreases count,
{
    if count <= 0 {
        0
    } else {
        sum_of(f, count - 1) + f(count - 1)
    }
}

/// The value of a product without rounding, in units of the least single-precision
/// number times the unit of the input. `input` has the values of the input elements.
pub open spec fn term_value(term: Term, input: Seq<int>) -> int {
    term.level * single_value(term.scale_bits as int).unwrap() * input[term.input as int]
}

/// The value of a dequantized weight, in units of the least single-precision number.
pub open spec fn weight_value(weight: Weight) -> int {
    weight.level * half_value(weight.scale_bits as int).unwrap()
}

/// Sums of equal values are equal.
proof fn lemma_sum_same(f: spec_fn(int) -> int, g: spec_fn(int) -> int, count: int)
    requires
        forall|i: int| 0 <= i < count ==> #[trigger] f(i) == g(i),
    ensures
        sum_of(f, count) == sum_of(g, count),
    decreases count,
{
    if count > 0 {
        lemma_sum_same(f, g, count - 1);
        assert(f(count - 1) == g(count - 1));
    }
}

/// The sum of four values in a row.
spec fn four(f: spec_fn(int) -> int, at: int) -> int {
    f(at) + f(at + 1) + f(at + 2) + f(at + 3)
}

/// A sum with 32 values more.
proof fn lemma_sum_block(f: spec_fn(int) -> int, at: int)
    requires
        0 <= at,
    ensures
        sum_of(f, at + 32) == sum_of(f, at) + four(f, at) + four(f, at + 4) + four(f, at + 8)
            + four(f, at + 12) + four(f, at + 16) + four(f, at + 20) + four(f, at + 24) + four(
            f,
            at + 28,
        ),
{
    lemma_sum_four(f, at);
    lemma_sum_four(f, at + 4);
    lemma_sum_four(f, at + 8);
    lemma_sum_four(f, at + 12);
    lemma_sum_four(f, at + 16);
    lemma_sum_four(f, at + 20);
    lemma_sum_four(f, at + 24);
    lemma_sum_four(f, at + 28);
}

/// A sum with four values more.
proof fn lemma_sum_four(f: spec_fn(int) -> int, at: int)
    requires
        0 <= at,
    ensures
        sum_of(f, at + 4) == sum_of(f, at) + four(f, at),
{
    reveal_with_fuel(sum_of, 5);
}

/// Four elements in a row of a block are handled in four steps in a row.
proof fn lemma_four_steps(f: spec_fn(int) -> int, k: int, start: int, quad: int)
    requires
        k % 32 == 0,
        start % 32 == 0,
        0 <= quad < 8,
    ensures
        four(|element: int| f(element_step(k, element)), start + 4 * quad) == four(
            f,
            start + quad % 4 * 8 + quad / 4 * 4,
        ),
{
    let at = start + 4 * quad;
    let to = start + quad % 4 * 8 + quad / 4 * 4;
    assert(at / 32 * 32 == start && at % 32 == 4 * quad);
    assert(element_step(k, at) == to);
    assert(element_step(k, at + 1) == to + 1);
    assert(element_step(k, at + 2) == to + 2);
    assert(element_step(k, at + 3) == to + 3);
}

/// The order of the steps does not matter to a sum without rounding.
proof fn lemma_sum_of_steps(f: spec_fn(int) -> int, k: int, done: int)
    requires
        0 <= done,
        k % 32 == 0,
        done % 32 == 0,
    ensures
        sum_of(|element: int| f(element_step(k, element)), done) == sum_of(f, done),
    decreases done,
{
    if done > 0 {
        let start = done - 32;
        lemma_sum_of_steps(f, k, start);
        lemma_sum_block(f, start);
        lemma_sum_block(|element: int| f(element_step(k, element)), start);
        lemma_four_steps(f, k, start, 0);
        lemma_four_steps(f, k, start, 1);
        lemma_four_steps(f, k, start, 2);
        lemma_four_steps(f, k, start, 3);
        lemma_four_steps(f, k, start, 4);
        lemma_four_steps(f, k, start, 5);
        lemma_four_steps(f, k, start, 6);
        lemma_four_steps(f, k, start, 7);
    }
}

/// Without rounding, a launch computes `input × weights^T`: the products that the thread
/// for the element `[i, j, c]` of the output sums add up to the sum, over all `k`
/// elements of a row, of element `[i, j, element]` of the input times the dequantized
/// weight `[c, element]`, where the scales of weight row `c` are normal numbers.
#[verifier::spinoff_prover]
#[verifier::rlimit(60)]
pub proof fn law_exact_product(
    buffer: Seq<u8>,
    input: Seq<int>,
    b: int,
    m: int,
    k: int,
    n: int,
    i: int,
    j: int,
    c: int,
)
    requires
        sizes_fit(b, m, k, n),
        20 * (n * k / 32) <= buffer.len(),
        input.len() == b * m * k,
        0 <= i < b,
        0 <= j < m,
        0 <= c < n,
        forall|element: int|
            0 <= element < k ==> is_normal_half(
                (#[trigger] weights_of(buffer, (n * k / 32) as nat)[c * k + element]).scale_bits as int,
            ),
    ensures
        thread_result(words_of(buffer), launch_info(b, m, k, n), c, i * m + j) matches Some(written)
            && sum_of(|step: int| term_value(written.terms[step], input), written.terms.len() as int)
            == sum_of(
            |element: int|
                weight_value(weights_of(buffer, (n * k / 32) as nat)[c * k + element]) * input[(i * m
                    + j) * k + element],
            k,
        ),
{
    let weights = weights_of(buffer, (n * k / 32) as nat);
    let row = i * m + j;
    law_matmul(buffer, Platform::Wasm, b, m, k, n, i, j, c);
    lemma_row_inside(b, m, i);
    lemma_row_inside(b * m, k, row);
    let written = thread_result(words_of(buffer), launch_info(b, m, k, n), c, row).unwrap();
    let by_step = |step: int| term_value(written.terms[step], input);
    let by_element = |element: int| weight_value(weights[c * k + element]) * input[row * k + element];
    let reordered = |element: int| by_step(element_step(k, element));
    assert forall|element: int| 0 <= element < k implies #[trigger] reordered(element)
        == by_element(element) by {
        let weight = weights[c * k + element];
        let pattern = weight.scale_bits as int;
        law_scale_conversion(pattern);
        assert(is_normal_half(pattern));
        assert(written.terms[element_step(k, element)] == product_term(weight, row * k + element));
        assert(0 <= widened_pattern(pattern) <= u32::MAX);
    }
    lemma_sum_same(reordered, by_element, k);
    if k % 32 == 0 {
        lemma_sum_of_steps(by_step, k, k);
    } else {
        lemma_sum_same(reordered, by_step, k);
    }
}

// ---------------------------------------------------------------------------
// Layers
// ---------------------------------------------------------------------------

/// Without a bias, and with one of as many elements as the weights have rows, a linear
/// layer keeps the width of the product.
pub proof fn law_bias_keeps_width(n: usize)
    ensures
        output_width(None, n) == n,
        output_width(Some(n), n) == n,
{
}

/// Launches for the same shapes on the same platform are the same, so a layer that is
/// run twice on the same input computes the same.
pub proof fn law_same_launch(
    first: MatmulLaunch,
    second: MatmulLaunch,
    platform: Platform,
    b: int,
    m: int,
    k: int,
    n: int,
)
    requires
        first.multiplies(platform, b, m, k, n),
        second.multiplies(platform, b, m, k, n),
    ensures
        first.info@ == second.info@,
        first.info_bytes@ == second.info_bytes@,
        first.weights_u32_len == second.weights_u32_len,
        first.input_len == second.input_len,
        first.output_len == second.output_len,
        first.output_bytes == second.output_bytes,
        first.output_shape@ == second.output_shape@,
        first.dispatch == second.dispatch,
{
    let one = first.info_bytes@;
    let other = second.info_bytes@;
    assert forall|p: int| 0 <= p < 20 implies one[p] == other[p] by {
        let at = p / 4;
        assert(words_of(one)[at] == words_of(other)[at]);
        assert(words_of(one)[at] == word_at(one, at) && words_of(other)[at] == word_at(other, at));
        lemma_bytes_of_word(
            one[4 * at],
            one[4 * at + 1],
            one[4 * at + 2],
            one[4 * at + 3],
            word_at(one, at),
        );
        lemma_bytes_of_word(
            other[4 * at],
            other[4 * at + 1],
            other[4 * at + 2],
            other[4 * at + 3],
            word_at(other, at),
        );
        assert(p == 4 * at || p == 4 * at + 1 || p == 4 * at + 2 || p == 4 * at + 3);
    }
    assert(one =~= other);
}

// ---------------------------------------------------------------------------
// Fused projections
// ---------------------------------------------------------------------------

/// The blocks of joined file bytes are the blocks of the one, then those of the other.
pub proof fn law_joined_blocks(first: Seq<u8>, first_blocks: nat, second: Seq<u8>, second_blocks: nat)
    requires
        first.len() == 18 * first_blocks,
        second.len() == 18 * second_blocks,
    ensures
        aligned_bytes(first + second, first_blocks + second_blocks) == aligned_bytes(
            first,
            first_blocks,
        ) + aligned_bytes(second, second_blocks),
{
    let joined = aligned_bytes(first + second, first_blocks + second_blocks);
    let parts = aligned_bytes(first, first_blocks) + aligned_bytes(second, second_blocks);
    assert forall|p: int| 0 <= p < joined.len() implies joined[p] == parts[p] by {
        let block = p / 20;
        let offset = p % 20;
        if p < 20 * first_blocks {
            assert(block < first_blocks);
        } else {
            let q = p - 20 * first_blocks;
            assert(q / 20 == block - first_blocks && q % 20 == offset);
        }
    }
    assert(joined =~= parts);
}

/// A row of a fused weight matrix has the dot product of the same row of the matrix
/// that it was joined from.
#[verifier::spinoff_prover]
#[verifier::rlimit(60)]
proof fn lemma_fused_row(
    before: Seq<u8>,
    part: Seq<u8>,
    after: Seq<u8>,
    k: int,
    before_rows: nat,
    part_rows: nat,
    after_rows: nat,
    row: int,
    base: int,
)
    requires
        0 <= k,
        before_rows * k % 32 == 0,
        part_rows * k % 32 == 0,
        after_rows * k % 32 == 0,
        before.len() == 18 * (before_rows * k / 32),
        part.len() == 18 * (part_rows * k / 32),
        after.len() == 18 * (after_rows * k / 32),
        0 <= row < part_rows,
    ensures
        row_terms(
            words_of(
                aligned_bytes(
                    before + part + after,
                    ((before_rows + part_rows + after_rows) * k / 32) as nat,
                ),
            ),
            k,
            before_rows + row,
            base,
        ) == row_terms(words_of(aligned_bytes(part, (part_rows * k / 32) as nat)), k, row, base),
{
    assert(0 <= before_rows * k && 0 <= part_rows * k && 0 <= after_rows * k) by (nonlinear_arith)
        requires
            0 <= k,
    ;
    let above = (before_rows * k / 32) as nat;
    let inside = (part_rows * k / 32) as nat;
    let below = (after_rows * k / 32) as nat;
    assert((before_rows + part_rows + after_rows) * k == before_rows * k + part_rows * k
        + after_rows * k) by (nonlinear_arith);
    law_joined_blocks(before, above, part, inside);
    law_joined_blocks(before + part, above + inside, after, below);
    let fused = aligned_bytes(before + part + after, above + inside + below);
    let alone = aligned_bytes(part, inside);
    let start = 20 * above as int;
    assert(fused.subrange(start, start + alone.len()) =~= alone);
    lemma_moved_row(fused, alone, k, before_rows as int, part_rows as int, row, base);
}

/// The same row in a buffer that holds another one further down.
#[verifier::spinoff_prover]
#[verifier::rlimit(60)]
proof fn lemma_moved_row(
    fused: Seq<u8>,
    alone: Seq<u8>,
    k: int,
    before_rows: int,
    part_rows: int,
    row: int,
    base: int,
)
    requires
        0 <= k,
        0 <= before_rows * k,
        before_rows * k % 32 == 0,
        part_rows * k % 32 == 0,
        0 <= row < part_rows,
        alone.len() == 20 * (part_rows * k / 32),
        20 * (before_rows * k / 32) + alone.len() <= fused.len(),
        fused.subrange(20 * (before_rows * k / 32), 20 * (before_rows * k / 32) + alone.len())
            == alone,
    ensures
        row_terms(words_of(fused), k, before_rows + row, base) == row_terms(
            words_of(alone),
            k,
            row,
            base,
        ),
{
    let above = before_rows * k / 32;
    let size = part_rows * k;
    lemma_row_inside(part_rows, k, row);
    assert((before_rows + row) * k == before_rows * k + row * k) by (nonlinear_arith);
    let fused_terms = row_terms(words_of(fused), k, before_rows + row, base);
    let alone_terms = row_terms(words_of(alone), k, row, base);
    assert forall|step: int| 0 <= step < k implies fused_terms[step] == alone_terms[step] by {
        law_steps_match_elements(k, step);
        let element = step_element(k, step);
        lemma_block_inside(size, row * k + element);
        lemma_whole_blocks(before_rows * k);
        assert((before_rows + row) * k + element == 32 * above + (row * k + element));
        lemma_moved_weight(fused, alone, above, row * k + element, base + element);
        assert(fused_terms[step] == weight_term(
            words_of(fused),
            32 * above + (row * k + element),
            base + element,
        ));
    }
    assert(fused_terms =~= alone_terms);
}

/// The block of a weight lies among the blocks of all weights.
proof fn lemma_block_inside(size: int, index: int)
    requires
        0 <= index < size,
        size % 32 == 0,
    ensures
        20 * (index / 32) + 20 <= 20 * (size / 32),
{
}

/// Weights that fill whole blocks.
proof fn lemma_whole_blocks(size: int)
    requires
        size % 32 == 0,
    ensures
        size == 32 * (size / 32),
{
}

/// The same weight in a buffer that holds another one further down.
#[verifier::spinoff_prover]
#[verifier::rlimit(60)]
proof fn lemma_moved_weight(fused: Seq<u8>, alone: Seq<u8>, above: int, index: int, input: int)
    requires
        0 <= above,
        0 <= index,
        20 * (index / 32) + 20 <= alone.len(),
        20 * above + alone.len() <= fused.len(),
        fused.subrange(20 * above, 20 * above + alone.len()) == alone,
    ensures
        weight_term(words_of(fused), 32 * above + index, input) == weight_term(
            words_of(alone),
            index,
            input,
        ),
{
    let moved = 32 * above + index;
    assert(moved / 32 == above + index / 32 && moved % 32 == index % 32);
    lemma_same_block(fused, alone, above, index / 32, index % 32);
}

/// A block that stands `above` blocks further down in another buffer.
#[verifier::spinoff_prover]
#[verifier::rlimit(60)]
proof fn lemma_same_block(fused: Seq<u8>, alone: Seq<u8>, above: int, block: int, weight: int)
    requires
        0 <= above,
        0 <= block,
        20 * block + 20 <= alone.len(),
        20 * above + alone.len() <= fused.len(),
        fused.subrange(20 * above, 20 * above + alone.len()) == alone,
        0 <= weight < 32,
    ensures
        word_scale_pattern(words_of(fused), above + block) == word_scale_pattern(
            words_of(alone),
            block,
        ),
        word_level(words_of(fused), above + block, weight) == word_level(
            words_of(alone),
            block,
            weight,
        ),
{
    law_words_hold_blocks(fused, above + block, weight);
    law_words_hold_blocks(alone, block, weight);
    let middle = fused.subrange(20 * above, 20 * above + alone.len());
    let at = 20 * block + 4 + weight % 16;
    assert(middle[20 * block] == fused[20 * above + 20 * block]);
    assert(middle[20 * block + 1] == fused[20 * above + (20 * block + 1)]);
    assert(middle[at] == fused[20 * above + at]);
}

/// A fused projection gives what separate projections give. The weights of `part` are
/// joined with those of other projections, whose file bytes `before` and `after` stand
/// above and below. Then column `before_rows + c` of a row of the fused output is the
/// same sum as column `c` of that row of the output of `part` alone. Each of the joined
/// matrices is a tensor of its own, which fills whole blocks.
pub proof fn law_fused_projection(
    before: Seq<u8>,
    part: Seq<u8>,
    after: Seq<u8>,
    before_rows: nat,
    part_rows: nat,
    after_rows: nat,
    b: int,
    m: int,
    k: int,
    c: int,
    y: int,
)
    requires
        before_rows * k % 32 == 0,
        after_rows * k % 32 == 0,
        before.len() == 18 * (before_rows * k / 32),
        part.len() == 18 * (part_rows * k / 32),
        after.len() == 18 * (after_rows * k / 32),
        sizes_fit(b, m, k, part_rows as int),
        sizes_fit(b, m, k, (before_rows + part_rows + after_rows) as int),
        0 <= c < part_rows,
        0 <= y < b * m,
    ensures
        thread_result(
            words_of(aligned_bytes(part, (part_rows * k / 32) as nat)),
            launch_info(b, m, k, part_rows as int),
            c,
            y,
        ) matches Some(alone) && thread_result(
            words_of(
                aligned_bytes(
                    before + part + after,
                    ((before_rows + part_rows + after_rows) * k / 32) as nat,
                ),
            ),
            launch_info(b, m, k, (before_rows + part_rows + after_rows) as int),
            before_rows + c,
            y,
        ) matches Some(fused) && fused.terms == alone.terms,
{
    lemma_fused_row(before, part, after, k, before_rows, part_rows, after_rows, c, y * k);
}

/// A fused gate and up projection gives what the two projections give: column `c` of a
/// row of gate, or of up, is the same sum as column `c` of that row of the output of
/// that projection alone.
pub proof fn law_gate_up_fused(
    gate: Seq<u8>,
    up: Seq<u8>,
    gate_out: nat,
    up_out: nat,
    b: int,
    m: int,
    k: int,
    y: int,
)
    requires
        gate.len() == 18 * (gate_out * k / 32),
        up.len() == 18 * (up_out * k / 32),
        sizes_fit(b, m, k, gate_out as int),
        sizes_fit(b, m, k, up_out as int),
        sizes_fit(b, m, k, (gate_out + up_out) as int),
        0 <= y < b * m,
    ensures
        part_of_fused(gate, gate_out, gate + up, gate_out + up_out, 0, b, m, k, y),
        part_of_fused(up, up_out, gate + up, gate_out + up_out, gate_out as int, b, m, k, y),
{
    let none = Seq::<u8>::empty();
    let fused = gate + up;
    assert(none + gate + up =~= fused);
    assert(gate + up + none =~= fused);
    assert(0 * k == 0) by (nonlinear_arith);
    assert forall|c: int| 0 <= c < gate_out implies #[trigger] same_sum(
        gate,
        gate_out,
        fused,
        gate_out + up_out,
        c,
        c,
        b,
        m,
        k,
        y,
    ) by {
        law_fused_projection(none, gate, up, 0, gate_out, up_out, b, m, k, c, y);
    }
    assert forall|c: int| 0 <= c < up_out implies #[trigger] same_sum(
        up,
        up_out,
        fused,
        gate_out + up_out,
        gate_out + c,
        c,
        b,
        m,
        k,
        y,
    ) by {
        law_fused_projection(gate, up, none, gate_out, up_out, 0, b, m, k, c, y);
    }
}

/// A fused query, key and value projection gives what the three projections give: column
/// `c` of a row of each range is the same sum as column `c` of that row of the output of
/// that projection alone.
pub proof fn law_qkv_fused(
    q: Seq<u8>,
    key: Seq<u8>,
    v: Seq<u8>,
    q_out: nat,
    k_out: nat,
    v_out: nat,
    b: int,
    m: int,
    k: int,
    y: int,
)
    requires
        q.len() == 18 * (q_out * k / 32),
        key.len() == 18 * (k_out * k / 32),
        v.len() == 18 * (v_out * k / 32),
        sizes_fit(b, m, k, q_out as int),
        sizes_fit(b, m, k, k_out as int),
        sizes_fit(b, m, k, v_out as int),
        sizes_fit(b, m, k, (q_out + k_out + v_out) as int),
        0 <= y < b * m,
    ensures
        part_of_fused(q, q_out, q + key + v, q_out + k_out + v_out, 0, b, m, k, y),
        part_of_fused(key, k_out, q + key + v, q_out + k_out + v_out, q_out as int, b, m, k, y),
        part_of_fused(
            v,
            v_out,
            q + key + v,
            q_out + k_out + v_out,
            (q_out + k_out) as int,
            b,
            m,
            k,
            y,
        ),
{
    let none = Seq::<u8>::empty();
    let fused = q + key + v;
    let rows = q_out + k_out + v_out;
    assert(none + q + (key + v) =~= fused);
    assert((q + key) + v + none =~= fused);
    assert(0 * k == 0) by (nonlinear_arith);
    assert((q_out + k_out) * k == q_out * k + k_out * k) by (nonlinear_arith);
    assert((k_out + v_out) * k == k_out * k + v_out * k) by (nonlinear_arith);
    assert forall|c: int| 0 <= c < q_out implies #[trigger] same_sum(
        q,
        q_out,
        fused,
        rows,
        c,
        c,
        b,
        m,
        k,
        y,
    ) by {
        law_fused_projection(none, q, key + v, 0, q_out, k_out + v_out, b, m, k, c, y);
    }
    assert forall|c: int| 0 <= c < k_out implies #[trigger] same_sum(
        key,
        k_out,
        fused,
        rows,
        q_out + c,
        c,
        b,
        m,
        k,
        y,
    ) by {
        law_fused_projection(q, key, v, q_out, k_out, v_out, b, m, k, c, y);
    }
    assert forall|c: int| 0 <= c < v_out implies #[trigger] same_sum(
        v,
        v_out,
        fused,
        rows,
        q_out + k_out + c,
        c,
        b,
        m,
        k,
        y,
    ) by {
        law_fused_projection(q + key, v, none, q_out + k_out, v_out, 0, b, m, k, c, y);
    }
}

/// In row `y` of the outputs, column `column` of a projection with weights made of the
/// file bytes `fused` is the same sum as column `c` of a projection with weights made of
/// the file bytes `part`.
pub open spec fn same_sum(
    part: Seq<u8>,
    part_rows: nat,
    fused: Seq<u8>,
    fused_rows: nat,
    column: int,
    c: int,
    b: int,
    m: int,
    k: int,
    y: int,
) -> bool {
    thread_result(
        words_of(aligned_bytes(part, (part_rows * k / 32) as nat)),
        launch_info(b, m, k, part_rows as int),
        c,
        y,
    ) matches Some(alone) && thread_result(
        words_of(aligned_bytes(fused, (fused_rows * k / 32) as nat)),
        launch_info(b, m, k, fused_rows as int),
        column,
        y,
    ) matches Some(together) && together.terms == alone.terms
}

/// The columns from `start` on of a fused projection are those of the projection `part`.
pub open spec fn part_of_fused(
    part: Seq<u8>,
    part_rows: nat,
    fused: Seq<u8>,
    fused_rows: nat,
    start: int,
    b: int,
    m: int,
    k: int,
    y: int,
) -> bool {
    forall|c: int|
        0 <= c < columns(start, part_rows as int).length ==> #[trigger] same_sum(
            part,
            part_rows,
            fused,
            fused_rows,
            columns(start, part_rows as int).start + c,
            c,
            b,
            m,
            k,
            y,
        )
}

/// A column of a tensor lies in a range of the last of its three dimensions.
pub open spec fn in_columns(range: Narrow, column: int) -> bool {
    &&& range.dim == 2
    &&& range.start <= column < range.start + range.length
}

/// The query, key and value ranges of a fused projection cut every row of the output in
/// three: each column lies in exactly one of them.
pub proof fn law_qkv_split(q_out: usize, k_out: usize, v_out: usize, column: int)
    requires
        q_out + k_out + v_out <= usize::MAX,
        0 <= column < q_out + k_out + v_out,
    ensures
        ({
            let q = in_columns(columns(0, q_out as int), column);
            let k = in_columns(columns(q_out as int, k_out as int), column);
            let v = in_columns(columns(q_out + k_out, v_out as int), column);
            q != k && !v || !q && !k && v
        }),
{
}

/// Gate and up ranges of a fused projection cut every row of the output in two.
pub proof fn law_gate_up_split(gate_out: usize, up_out: usize, column: int)
    requires
        gate_out + up_out <= usize::MAX,
        0 <= column < gate_out + up_out,
    ensures
        in_columns(columns(0, gate_out as int), column) != in_columns(
            columns(gate_out as int, up_out as int),
            column,
        ),
{
}

} // verus!
