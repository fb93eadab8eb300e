use voxtral_mini_realtime::gguf::op::{
    dispatch, dispatch_naive, f16_bits_to_f32, q4_matmul, q4_matmul_naive, q4_matmul_tiled,
    Dispatch, Extent, Kernel, MatmulLaunch, Platform, Term, ThreadOutput, TILED_WG_X, TILE_K,
};
use voxtral_mini_realtime::gguf::tensor::Q4Tensor;

/// File bytes of `blocks` blocks whose scales are normal numbers.
fn file_bytes(blocks: usize) -> Vec<u8> {
    let mut bytes = Vec::new();
    for block in 0..blocks {
        bytes.push((block * 29 + 5) as u8);
        bytes.push(0x30 + (block % 3) as u8);
        for i in 0..16 {
            bytes.push((block * 7 + i * 53 + 1) as u8);
        }
    }
    bytes
}

fn words(bytes: &[u8]) -> Vec<u32> {
    bytes
        .chunks(4)
        .map(|chunk| u32::from_le_bytes([chunk[0], chunk[1], chunk[2], chunk[3]]))
        .collect()
}

/// The value of a normal half-precision bit pattern.
fn normal_half(bits: u16) -> f32 {
    let exp = (bits >> 10 & 31) as i32;
    let frac = (bits & 0x3FF) as f32;
    let size = (1.0 + frac / 1024.0) * 2f32.powi(exp - 15);
    if bits >> 15 == 0 {
        size
    } else {
        -size
    }
}

fn sum(terms: &[Term], input: &[f32]) -> f32 {
    let mut acc = 0.0f32;
    for term in terms {
        acc += term.level as f32 * f32::from_bits(term.scale_bits) * input[term.input];
    }
    acc
}

/// Runs every thread of a launch, and checks that each element of the output is
/// written once.
fn run(launch: &MatmulLaunch, weights: &[u32]) -> Vec<Vec<Term>> {
    let mut output: Vec<Option<Vec<Term>>> = vec![None; launch.output_len];
    let mut write = |written: Option<ThreadOutput>| {
        if let Some(written) = written {
            assert!(output[written.index].is_none());
            output[written.index] = Some(written.terms);
        }
    };
    let grid = launch.dispatch;
    match grid.kernel {
        Kernel::Naive => {
            for y in 0..grid.cube_count.y * grid.cube_dim.y {
                for x in 0..grid.cube_count.x * grid.cube_dim.x {
                    write(q4_matmul_naive(weights, &launch.info, x, y));
                }
            }
        }
        Kernel::Tiled { tile_k, wg_size } => {
            for y in 0..grid.cube_count.y {
                for x in 0..grid.cube_count.x {
                    for written in q4_matmul_tiled(weights, &launch.info, x, y, tile_k, wg_size) {
                        write(written);
                    }
                }
            }
        }
    }
    output.into_iter().map(|terms| terms.unwrap()).collect()
}

#[test]
fn scale_conversion_exact_values() {
    assert_eq!(f16_bits_to_f32(0x3C00), 1.0f32.to_bits());
    assert_eq!(f16_bits_to_f32(0xC000), (-2.0f32).to_bits());
    assert_eq!(f16_bits_to_f32(0x3555), 0.33325195f32.to_bits());
    // A zero pattern is no normal number.
    assert_eq!(f16_bits_to_f32(0x0000), 0x3800_0000);
    assert_eq!(f16_bits_to_f32(0x7C00), 65536.0f32.to_bits());
}

#[test]
fn scale_conversion_keeps_normal_numbers() {
    for bits in 0..=u16::MAX {
        let exp = bits >> 10 & 31;
        if 1 <= exp && exp <= 30 {
            assert_eq!(f16_bits_to_f32(bits as u32), normal_half(bits).to_bits());
        }
    }
}

#[test]
fn one_block_in_kernel_order() {
    let mut raw = vec![0x00u8, 0x3C];
    raw.extend((0..16u8).map(|i| i | (15 - i) << 4));
    let (tensor, buffer) = Q4Tensor::from_q4_bytes(&raw, [1, 32]).unwrap();
    let launch = q4_matmul(Platform::Wasm, [1, 1, 32], &tensor);
    let written = q4_matmul_naive(&words(&buffer), &launch.info, 0, 0).unwrap();
    assert_eq!(written.index, 0);
    let inputs: Vec<usize> = written.terms.iter().map(|term| term.input).collect();
    let expected: Vec<usize> = vec![
        0, 1, 2, 3, 16, 17, 18, 19, 4, 5, 6, 7, 20, 21, 22, 23, 8, 9, 10, 11, 24, 25, 26, 27, 12, 13,
        14, 15, 28, 29, 30, 31,
    ];
    assert_eq!(inputs, expected);
    for term in &written.terms {
        let level = if term.input < 16 { term.input as i32 - 8 } else { 23 - term.input as i32 };
        assert_eq!(term.level, level);
        assert_eq!(term.scale_bits, 1.0f32.to_bits());
    }
}

#[test]
fn threads_outside_the_output_write_nothing() {
    let (tensor, buffer) = Q4Tensor::from_q4_bytes(&file_bytes(3), [3, 32]).unwrap();
    let launch = q4_matmul(Platform::Wasm, [2, 2, 32], &tensor);
    let weights = words(&buffer);
    assert!(q4_matmul_naive(&weights, &launch.info, 3, 0).is_none());
    assert!(q4_matmul_naive(&weights, &launch.info, 0, 4).is_none());
    assert_eq!(q4_matmul_naive(&weights, &launch.info, 2, 3).unwrap().index, 11);
    let cube = q4_matmul_tiled(&weights, &launch.info, 0, 4, TILE_K, TILED_WG_X);
    assert_eq!(cube.len(), 32);
    assert!(cube.iter().all(|written| written.is_none()));
}

#[test]
fn kernels_agree() {
    for shape in [
        [5, 32], [40, 96], [3, 288], [33, 544], [2, 48], [2, 16], [64, 33], [32, 7], [36, 600], [4, 0],
    ] {
        let [n, k] = shape;
        let (tensor, buffer) = Q4Tensor::from_q4_bytes(&file_bytes(n * k / 32), shape).unwrap();
        let weights = words(&buffer);
        let native = q4_matmul(Platform::Native, [2, 2, k], &tensor);
        let web = q4_matmul(Platform::Wasm, [2, 2, k], &tensor);
        assert_eq!(native.dispatch.kernel, Kernel::Tiled { tile_k: 256, wg_size: 32 });
        assert_eq!(web.dispatch.kernel, Kernel::Naive);
        assert_eq!(run(&native, &weights), run(&web, &weights));
    }
}

#[test]
fn tiled_kernel_takes_other_tile_sizes() {
    take_other_tile_sizes([7, 160]);
    take_other_tile_sizes([8, 140]);
}

fn take_other_tile_sizes(shape: [usize; 2]) {
    let [n, k] = shape;
    let (tensor, buffer) = Q4Tensor::from_q4_bytes(&file_bytes(n * k / 32), shape).unwrap();
    let weights = words(&buffer);
    let launch = q4_matmul(Platform::Wasm, [1, 1, k], &tensor);
    for (tile_k, wg_size) in [(32, 7), (64, 3), (96, 100), (160, 1), (512, 8)] {
        for x in 0..3u32 {
            let cube = q4_matmul_tiled(&weights, &launch.info, x, 0, tile_k, wg_size);
            for (unit, written) in cube.into_iter().enumerate() {
                let alone =
                    q4_matmul_naive(&weights, &launch.info, x * wg_size as u32 + unit as u32, 0);
                assert_eq!(written.map(|w| (w.index, w.terms)), alone.map(|w| (w.index, w.terms)));
            }
        }
    }
}

#[test]
fn launch_multiplies_with_dequantized_weights() {
    for [n, k] in [[37, 64], [6, 48], [2, 16], [32, 5], [36, 296], [64, 257]] {
        multiply(2, 3, k, n);
    }
}

/// Runs launches on both platforms, and holds the sums against a plain product.
fn multiply(b: usize, m: usize, k: usize, n: usize) {
    let (tensor, buffer) = Q4Tensor::from_q4_bytes(&file_bytes(n * k / 32), [n, k]).unwrap();
    let input: Vec<f32> = (0..b * m * k).map(|i| ((i * 31) % 17) as f32 - 8.0).collect();
    let dequantized: Vec<f32> = tensor
        .dequantize(&buffer)
        .iter()
        .map(|weight| weight.level as f32 * normal_half(weight.scale_bits))
        .collect();
    for platform in [Platform::Native, Platform::Wasm] {
        let launch = q4_matmul(platform, [b, m, k], &tensor);
        let output = run(&launch, &words(&buffer));
        for row in 0..b * m {
            for c in 0..n {
                let expected: f64 = (0..k)
                    .map(|e| input[row * k + e] as f64 * dequantized[c * k + e] as f64)
                    .sum();
                let got = sum(&output[row * n + c], &input) as f64;
                assert!((got - expected).abs() <= 1e-3 * (1.0 + expected.abs()));
            }
        }
    }
}

#[test]
fn rows_that_share_a_block() {
    let mut raw = vec![0x00u8, 0x3C];
    raw.extend([0x99u8; 16]);
    let (tensor, buffer) = Q4Tensor::from_q4_bytes(&raw, [2, 16]).unwrap();
    for platform in [Platform::Native, Platform::Wasm] {
        let output = run(&q4_matmul(platform, [1, 1, 16], &tensor), &words(&buffer));
        let sums: Vec<f32> = output.iter().map(|terms| sum(terms, &[1.0; 16])).collect();
        assert_eq!(sums, vec![16.0, 16.0]);
    }
}

#[test]
fn elements_of_shared_blocks_come_in_order() {
    let mut raw = vec![0x00u8, 0x3C];
    raw.extend((0..16u8).map(|i| i | (15 - i) << 4));
    let (tensor, buffer) = Q4Tensor::from_q4_bytes(&raw, [4, 8]).unwrap();
    let launch = q4_matmul(Platform::Wasm, [1, 2, 8], &tensor);
    let written = q4_matmul_naive(&words(&buffer), &launch.info, 2, 1).unwrap();
    assert_eq!(written.index, 6);
    for (e, term) in written.terms.iter().enumerate() {
        // Row 2 has weights 16 to 23 of the block.
        assert_eq!(term.level, 7 - e as i32);
        assert_eq!(term.input, 8 + e);
    }
    assert_eq!(written.terms.len(), 8);
}

#[test]
fn exact_sums_of_whole_numbers() {
    // Scales of one half and whole inputs: the sums have no rounding.
    for [n, k] in [[3usize, 64usize], [8, 20]] {
        let mut raw = file_bytes(n * k / 32);
        for block in raw.chunks_mut(18) {
            block[0] = 0x00;
            block[1] = 0x38;
        }
        let (tensor, buffer) = Q4Tensor::from_q4_bytes(&raw, [n, k]).unwrap();
        let input: Vec<f32> = (0..2 * k).map(|i| (i % 11) as f32 - 5.0).collect();
        let weights = tensor.dequantize(&buffer);
        let output = run(&q4_matmul(Platform::Native, [1, 2, k], &tensor), &words(&buffer));
        for y in 0..2 {
            for c in 0..n {
                let expected: f32 = (0..k)
                    .map(|e| weights[c * k + e].level as f32 * 0.5 * input[y * k + e])
                    .sum();
                assert_eq!(sum(&output[y * n + c], &input), expected);
            }
        }
    }
}

#[test]
fn rows_are_independent() {
    for shape in [[5, 96], [4, 24]] {
        let [n, k] = shape;
        let (tensor, buffer) = Q4Tensor::from_q4_bytes(&file_bytes(n * k / 32), shape).unwrap();
        let weights = words(&buffer);
        let alone = run(&q4_matmul(Platform::Native, [1, 1, k], &tensor), &weights);
        // Seven rows in a batch pass the threshold of the tiled kernel.
        let launch = q4_matmul(Platform::Native, [2, 7, k], &tensor);
        assert_eq!(launch.dispatch.kernel, Kernel::Naive);
        let output = run(&launch, &weights);
        for y in 0..14 {
            for c in 0..n {
                let moved: Vec<Term> = alone[c]
                    .iter()
                    .map(|term| Term { input: term.input + y * k, ..*term })
                    .collect();
                assert_eq!(output[y * n + c], moved);
            }
        }
    }
}

#[test]
fn launches_for_the_same_shapes_are_the_same() {
    let (tensor, _) = Q4Tensor::from_q4_bytes(&file_bytes(20), [10, 64]).unwrap();
    let first = q4_matmul(Platform::Native, [2, 5, 64], &tensor);
    let second = q4_matmul(Platform::Native, [2, 5, 64], &tensor);
    assert_eq!(first.info_bytes, second.info_bytes);
    assert_eq!(first.dispatch, second.dispatch);
}

#[test]
fn launch_exact_values() {
    let (tensor, _) = Q4Tensor::from_q4_bytes(&file_bytes(20), [10, 64]).unwrap();
    let launch = q4_matmul(Platform::Native, [2, 5, 64], &tensor);
    assert_eq!(launch.info, [2, 5, 64, 10, 2]);
    let expected: Vec<u8> = vec![2, 0, 0, 0, 5, 0, 0, 0, 64, 0, 0, 0, 10, 0, 0, 0, 2, 0, 0, 0];
    assert_eq!(launch.info_bytes, expected);
    assert_eq!(launch.weights_u32_len, 100);
    assert_eq!(launch.input_len, 640);
    assert_eq!(launch.output_len, 100);
    assert_eq!(launch.output_bytes, 400);
    assert_eq!(launch.output_shape, [2, 5, 10]);
    assert_eq!(launch.dispatch, dispatch_naive(2, 5, 10));
}

#[test]
fn info_bytes_are_little_endian() {
    let (tensor, _) = Q4Tensor::from_q4_bytes(&file_bytes(24), [2, 384]).unwrap();
    let launch = q4_matmul(Platform::Wasm, [0x0102_0304, 1, 384], &tensor);
    assert_eq!(launch.info_bytes[..4], [4, 3, 2, 1]);
    assert_eq!(launch.info_bytes[8..12], [0x80, 1, 0, 0]);
}

#[test]
fn few_rows_use_the_tiled_kernel() {
    let tiled = Kernel::Tiled { tile_k: 256, wg_size: 32 };
    for (n, cubes) in [(3072, 96), (4096, 128), (9216, 288), (1, 1), (33, 2), (0, 0)] {
        let expected = Dispatch {
            kernel: tiled,
            cube_count: Extent { x: cubes, y: 1 },
            cube_dim: Extent { x: 32, y: 1 },
        };
        assert_eq!(dispatch(Platform::Native, 1, 1, n), expected);
    }
    assert_eq!(dispatch(Platform::Native, 3, 4, 64).kernel, tiled);
    assert_eq!(dispatch(Platform::Native, 3, 4, 64).cube_count, Extent { x: 2, y: 12 });
    assert_eq!(dispatch(Platform::Native, 3, 5, 64).kernel, Kernel::Naive);
}

#[test]
fn the_web_always_uses_the_naive_kernel() {
    let expected = Dispatch {
        kernel: Kernel::Naive,
        cube_count: Extent { x: 7, y: 2 },
        cube_dim: Extent { x: 16, y: 16 },
    };
    assert_eq!(dispatch(Platform::Wasm, 1, 17, 100), expected);
    assert_eq!(dispatch(Platform::Wasm, 1, 1, 100).kernel, Kernel::Naive);
    assert_eq!(dispatch_naive(1, 17, 100), expected);
    assert_eq!(dispatch_naive(2, 16, 32).cube_count, Extent { x: 2, y: 2 });
}

#[test]
fn the_last_cube_ends_where_indices_end() {
    let info = [1, 1, 0, 5, 0];
    let cube = q4_matmul_tiled(&[], &info, u32::MAX / 32, 0, TILE_K, TILED_WG_X);
    assert!(cube.iter().all(|written| written.is_none()));
    let cube = q4_matmul_tiled(&[], &info, 0, 0, TILE_K, TILED_WG_X);
    assert_eq!(cube.iter().filter(|written| written.is_some()).count(), 5);
}
