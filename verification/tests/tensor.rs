use voxtral_mini_realtime::gguf::tensor::{Q4Error, Q4Tensor, Weight};

fn ramp(len: usize) -> Vec<u8> {
    (0..len).map(|i| (i * 37 + 11) as u8).collect()
}

#[test]
fn upload_pads_each_block() {
    let raw: Vec<u8> = (1..=36).collect();
    let (tensor, buffer) = Q4Tensor::from_q4_bytes(&raw, [2, 32]).unwrap();
    assert_eq!(tensor.shape(), [2, 32]);
    assert_eq!(tensor.num_blocks(), 2);
    let expected: Vec<u8> = vec![
        1, 2, 0, 0, 3, 4, 5, 6, 7, 8, 9, 10, 11, 12, 13, 14, 15, 16, 17, 18, 19, 20, 0, 0, 21, 22,
        23, 24, 25, 26, 27, 28, 29, 30, 31, 32, 33, 34, 35, 36,
    ];
    assert_eq!(buffer, expected);
}

#[test]
fn read_back_gives_the_file_bytes() {
    let raw = ramp(18 * 12);
    let (tensor, buffer) = Q4Tensor::from_q4_bytes(&raw, [4, 96]).unwrap();
    assert_eq!(buffer.len(), 240);
    assert_eq!(tensor.read_bytes(&buffer), raw);
}

#[test]
fn read_back_ignores_what_follows_the_blocks() {
    let raw = ramp(18 * 3);
    let (tensor, mut buffer) = Q4Tensor::from_q4_bytes(&raw, [3, 32]).unwrap();
    buffer.extend_from_slice(&[255; 7]);
    assert_eq!(tensor.read_bytes(&buffer), raw);
    assert_eq!(tensor.dequantize(&buffer).len(), 96);
}

#[test]
fn upload_of_what_was_read_back_is_the_same() {
    let raw = ramp(18 * 5);
    let (tensor, buffer) = Q4Tensor::from_q4_bytes(&raw, [5, 32]).unwrap();
    let (_, again) = Q4Tensor::from_q4_bytes(&tensor.read_bytes(&buffer), [5, 32]).unwrap();
    assert_eq!(again, buffer);
}

#[test]
fn element_count_must_fill_blocks() {
    let error = Q4Tensor::from_q4_bytes(&[0; 18], [1, 31]).unwrap_err();
    assert_eq!(error, Q4Error::ElementCount { num_elements: 31 });
    let error = Q4Tensor::from_q4_bytes(&[], [3, 11]).unwrap_err();
    assert_eq!(error, Q4Error::ElementCount { num_elements: 33 });
}

#[test]
fn byte_count_must_match_the_blocks() {
    let error = Q4Tensor::from_q4_bytes(&[0; 17], [1, 32]).unwrap_err();
    assert_eq!(error, Q4Error::ByteCount { expected_bytes: 18, num_blocks: 1, got: 17 });
    let error = Q4Tensor::from_q4_bytes(&[0; 40], [2, 32]).unwrap_err();
    assert_eq!(error, Q4Error::ByteCount { expected_bytes: 36, num_blocks: 2, got: 40 });
}

#[test]
fn rows_may_share_a_block() {
    let (tensor, buffer) = Q4Tensor::from_q4_bytes(&ramp(18), [2, 16]).unwrap();
    assert_eq!(tensor.num_blocks(), 1);
    assert_eq!(tensor.dequantize(&buffer).len(), 32);
}

#[test]
fn empty_tensor() {
    let (tensor, buffer) = Q4Tensor::from_q4_bytes(&[], [0, 5]).unwrap();
    assert_eq!(tensor.num_blocks(), 0);
    assert!(buffer.is_empty());
    assert!(tensor.read_bytes(&[1, 2]).is_empty());
    assert!(tensor.dequantize(&[]).is_empty());
}

#[test]
fn dequantize_splits_bytes_into_levels() {
    let mut raw = vec![0x34u8, 0x12];
    raw.extend((0..16u8).map(|i| i | (15 - i) << 4));
    let (tensor, buffer) = Q4Tensor::from_q4_bytes(&raw, [1, 32]).unwrap();
    let weights = tensor.dequantize(&buffer);
    for i in 0..16usize {
        assert_eq!(weights[i], Weight { level: i as i8 - 8, scale_bits: 0x1234 });
        assert_eq!(weights[i + 16], Weight { level: 7 - i as i8, scale_bits: 0x1234 });
    }
}

#[test]
fn errors_in_words() {
    let error = Q4Tensor::from_q4_bytes(&[], [1, 33]).unwrap_err();
    assert_eq!(error.message(), "Q4_0 requires element count divisible by 32, got 33");
    let error = Q4Tensor::from_q4_bytes(&[0u8; 40], [2, 32]).unwrap_err();
    assert_eq!(
        error.message(),
        "Q4_0 byte count mismatch: expected 36 for 2 blocks, got 40"
    );
}
