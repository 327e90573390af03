use exarp::entropy::{entropy, sample_entropy};

#[test]
fn empty_input_scores_zero() {
    let data: Vec<u8> = Vec::new();
    assert_eq!(entropy(&data), 0);
}

#[test]
fn constant_sample_scores_exactly_zero() {
    let data = vec![0x41u8; 1000];
    assert_eq!(entropy(&data), 0);
}

#[test]
fn single_byte_scores_zero() {
    let data = vec![0xFFu8];
    assert_eq!(entropy(&data), 0);
}

#[test]
fn uniform_bytes_score_exactly_eight_bits() {
    // Every byte value once.
    let data: Vec<u8> = (0u16..256).map(|v| v as u8).collect();
    assert_eq!(entropy(&data), 8000);
}

#[test]
fn uniform_bytes_repeated_score_exactly_eight_bits() {
    // Every byte value exactly three times; the count is not a power of two.
    let mut data: Vec<u8> = Vec::new();
    for _ in 0..3 {
        for v in 0u16..256 {
            data.push(v as u8);
        }
    }
    assert_eq!(entropy(&data), 8000);
}

#[test]
fn two_even_values_score_one_bit() {
    let mut data = Vec::new();
    for _ in 0..64 {
        data.push(0u8);
        data.push(1u8);
    }
    assert_eq!(entropy(&data), 1000);
}

#[test]
fn entropy_is_permutation_invariant() {
    let data: Vec<u8> = (0..1024u32).map(|i| (i * i % 251) as u8).collect();
    let mut reversed = data.clone();
    reversed.reverse();
    let mut rotated = data.clone();
    rotated.rotate_left(317);
    assert_eq!(entropy(&data), entropy(&reversed));
    assert_eq!(entropy(&data), entropy(&rotated));
}

#[test]
fn entropy_stays_within_scale() {
    let data: Vec<u8> = (0..4096u32).map(|i| (i.wrapping_mul(2654435761) >> 13) as u8).collect();
    let h = entropy(&data);
    assert!(h <= 8000);
}

#[test]
fn text_like_data_scores_between_extremes() {
    let data: Vec<u8> = b"the quick brown fox jumps over the lazy dog "
        .iter()
        .cycle()
        .take(2048)
        .copied()
        .collect();
    let h = entropy(&data);
    assert!(h > 1000);
    assert!(h < 7000);
}

#[test]
fn small_samples_are_reported_as_zero() {
    let data = vec![7u8; 63];
    assert_eq!(sample_entropy(&data), 0);
    let data = (0u16..64).map(|v| v as u8).collect::<Vec<u8>>();
    assert_eq!(sample_entropy(&data), 6000);
}
