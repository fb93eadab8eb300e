use voxtral_mini_realtime::gguf::linear::{Narrow, Q4FusedGateUp, Q4FusedQKV, Q4Linear};
use voxtral_mini_realtime::gguf::op::{q4_matmul_naive, Platform};
use voxtral_mini_realtime::gguf::tensor::Q4Tensor;

fn file_bytes(blocks: usize, seed: usize) -> Vec<u8> {
    (0..18 * blocks).map(|i| (i * 41 + seed * 97 + 3) as u8).collect()
}

fn words(bytes: &[u8]) -> Vec<u32> {
    bytes
        .chunks(4)
        .map(|chunk| u32::from_le_bytes([chunk[0], chunk[1], chunk[2], chunk[3]]))
        .collect()
}

fn tensor(n: usize, k: usize, seed: usize) -> Q4Tensor {
    Q4Tensor::from_q4_bytes(&file_bytes(n * k / 32, seed), [n, k]).unwrap().0
}

#[test]
fn linear_without_bias() {
    let layer = Q4Linear::new(tensor(6, 32, 0), None);
    assert_eq!(layer.weights().shape(), [6, 32]);
    let pass = layer.forward(Platform::Native, [1, 2, 32]);
    assert_eq!(pass.matmul.info, [1, 2, 32, 6, 1]);
    assert_eq!(pass.bias_shape, None);
    assert_eq!(pass.output_shape, [1, 2, 6]);
}

#[test]
fn linear_with_bias() {
    let layer = Q4Linear::new(tensor(6, 32, 0), Some(6));
    let pass = layer.forward(Platform::Wasm, [3, 2, 32]);
    assert_eq!(pass.matmul.output_shape, [3, 2, 6]);
    assert_eq!(pass.bias_shape, Some([1, 1, 6]));
    assert_eq!(pass.output_shape, [3, 2, 6]);
}

#[test]
fn one_element_serves_for_all() {
    let pass = Q4Linear::new(tensor(6, 32, 0), Some(1)).forward(Platform::Native, [1, 1, 32]);
    assert_eq!(pass.bias_shape, Some([1, 1, 1]));
    assert_eq!(pass.output_shape, [1, 1, 6]);
    let pass = Q4Linear::new(tensor(1, 32, 0), Some(4)).forward(Platform::Native, [1, 1, 32]);
    assert_eq!(pass.matmul.output_shape, [1, 1, 1]);
    assert_eq!(pass.output_shape, [1, 1, 4]);
}

#[test]
fn empty_bias_for_no_columns() {
    let layer = Q4Linear::new(tensor(0, 32, 0), Some(0));
    let pass = layer.forward(Platform::Native, [1, 2, 32]);
    assert_eq!(pass.bias_shape, Some([1, 1, 0]));
    assert_eq!(pass.output_shape, [1, 2, 0]);
}

#[test]
fn qkv_ranges() {
    let layer = Q4FusedQKV::new(tensor(12, 32, 1), 6, 4, 2);
    let pass = layer.forward(Platform::Native, [1, 7, 32]);
    assert_eq!(pass.matmul.output_shape, [1, 7, 12]);
    assert_eq!(pass.q, Narrow { dim: 2, start: 0, length: 6 });
    assert_eq!(pass.k, Narrow { dim: 2, start: 6, length: 4 });
    assert_eq!(pass.v, Narrow { dim: 2, start: 10, length: 2 });
}

#[test]
fn gate_up_ranges() {
    let layer = Q4FusedGateUp::new(tensor(10, 64, 1), 7, 3);
    let pass = layer.forward(Platform::Native, [2, 1, 64]);
    assert_eq!(pass.matmul.info, [2, 1, 64, 10, 2]);
    assert_eq!(pass.gate, Narrow { dim: 2, start: 0, length: 7 });
    assert_eq!(pass.up, Narrow { dim: 2, start: 7, length: 3 });
}

#[test]
fn fused_projection_gives_what_separate_projections_give() {
    separate_projections(96, [5, 3, 4]);
    separate_projections(40, [4, 12, 8]);
}

fn separate_projections(k: usize, rows: [usize; 3]) {
    let total: usize = rows.iter().sum();
    let parts: Vec<Vec<u8>> =
        rows.iter().enumerate().map(|(seed, n)| file_bytes(n * k / 32, seed)).collect();
    let joined: Vec<u8> = parts.concat();
    let (fused, fused_buffer) = Q4Tensor::from_q4_bytes(&joined, [total, k]).unwrap();
    let pass = Q4FusedQKV::new(fused, rows[0], rows[1], rows[2]).forward(Platform::Wasm, [2, 3, k]);
    let fused_words = words(&fused_buffer);
    for (part, range) in [pass.q, pass.k, pass.v].iter().enumerate() {
        let (alone, buffer) = Q4Tensor::from_q4_bytes(&parts[part], [rows[part], k]).unwrap();
        let launch = Q4Linear::new(alone, None).forward(Platform::Wasm, [2, 3, k]).matmul;
        let alone_words = words(&buffer);
        assert_eq!(range.length, rows[part]);
        for y in 0..6u32 {
            for c in 0..range.length {
                let separate =
                    q4_matmul_naive(&alone_words, &launch.info, c as u32, y).unwrap();
                let column = (range.start + c) as u32;
                let together =
                    q4_matmul_naive(&fused_words, &pass.matmul.info, column, y).unwrap();
                assert_eq!(separate.terms, together.terms);
                assert_eq!(together.index, y as usize * total + range.start + c);
            }
        }
    }
}

#[test]
fn fused_gate_and_up_give_what_separate_projections_give() {
    let k = 48;
    let (gate, up) = (file_bytes(6, 1), file_bytes(3, 2));
    let joined: Vec<u8> = [gate.clone(), up.clone()].concat();
    let (fused, fused_buffer) = Q4Tensor::from_q4_bytes(&joined, [6, k]).unwrap();
    let pass = Q4FusedGateUp::new(fused, 4, 2).forward(Platform::Wasm, [1, 3, k]);
    for (bytes, range) in [(&gate, pass.gate), (&up, pass.up)] {
        let (alone, buffer) = Q4Tensor::from_q4_bytes(bytes, [range.length, k]).unwrap();
        let launch = Q4Linear::new(alone, None).forward(Platform::Wasm, [1, 3, k]).matmul;
        for y in 0..3u32 {
            for c in 0..range.length {
                let separate =
                    q4_matmul_naive(&words(&buffer), &launch.info, c as u32, y).unwrap();
                let column = (range.start + c) as u32;
                let together =
                    q4_matmul_naive(&words(&fused_buffer), &pass.matmul.info, column, y).unwrap();
                assert_eq!(separate.terms, together.terms);
            }
        }
    }
}
