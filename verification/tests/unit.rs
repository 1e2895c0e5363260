use bbse::{decode, decode_from, encode, encode_from, BBSEStack};

#[test]
fn test_basic_encode_decode() {
    for value in 0..8usize {
        let path = encode(0, 8, value).unwrap();
        let decoded = decode(0, 8, &path).unwrap();
        assert_eq!(decoded, value);
    }
}

#[test]
fn test_stack_encoding_and_decoding() {
    let mut stack = BBSEStack::new();

    for value in 0..8usize {
        stack.push(encode(0, 8, value).unwrap());
    }

    let decoded = stack.decode_all(0, 8);
    assert_eq!(decoded, vec![0, 1, 2, 3, 4, 5, 6, 7]);
}

#[test]
fn test_single_element_range() {
    let path = encode(42, 43, 42).unwrap();
    assert!(path.is_empty());
    let decoded = decode(42, 43, &path).unwrap();
    assert_eq!(decoded, 42);
}

#[test]
fn test_custom_midpoint_wrapper() {
    let path = encode_from(0, 8, 4, 4).unwrap();
    let decoded = decode(0, 8, &path).unwrap();
    assert_eq!(decoded, 4);
}

#[test]
fn test_custom_midpoint_encode_decode() {
    for target in 0..256usize {
        let path = encode_from(0, 256, target, 64).unwrap();
        let decoded = decode_from(0, 256, &path, 64).unwrap();
        assert_eq!(decoded, target, "Custom midpoint failed on target={}", target);
    }
}

#[test]
fn test_custom_midpoint_small_range() {
    for target in 0..8usize {
        let path = encode_from(0, 8, target, 3).unwrap();
        let decoded = decode_from(0, 8, &path, 3).unwrap();
        assert_eq!(decoded, target, "Failed on value {}", target);
    }
}

#[test]
fn test_custom_midpoint_unbalanced_left() {
    for target in 0..32usize {
        let path = encode_from(0, 256, target, 8).unwrap();
        let decoded = decode_from(0, 256, &path, 8).unwrap();
        assert_eq!(decoded, target, "Left-side failure on {}", target);
    }
}

#[test]
fn test_custom_midpoint_unbalanced_right() {
    for target in 224..256usize {
        let path = encode_from(0, 256, target, 240).unwrap();
        let decoded = decode_from(0, 256, &path, 240).unwrap();
        assert_eq!(decoded, target, "Right-side failure on {}", target);
    }
}

#[test]
fn test_custom_midpoint_center_precision() {
    let midpoints = [32usize, 64, 128, 192];

    for mid in midpoints {
        let path = encode_from(0, 256, mid, mid).unwrap();
        let decoded = decode_from(0, 256, &path, mid).unwrap();
        assert_eq!(decoded, mid, "Failed midpoint identity at {}", mid);
        assert!(
            path.is_empty(),
            "Expected empty path for direct midpoint match"
        );
    }
}
