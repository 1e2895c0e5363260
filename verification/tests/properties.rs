use bbse::{decode, decode_from, encode, encode_from, BBSEStack, BbseError, Path};

#[test]
fn test_rejects_target_above_range() {
    assert!(matches!(encode(0, 5, 5), Err(BbseError::TargetOutOfBounds)));
}

#[test]
fn test_rejects_target_below_range() {
    assert!(matches!(encode(1, 5, 0), Err(BbseError::TargetOutOfBounds)));
}

#[test]
fn test_rejects_empty_range() {
    assert!(matches!(encode(10, 10, 10), Err(BbseError::InvalidRange)));
}

#[test]
fn test_rejects_outside_midpoint() {
    assert!(matches!(
        encode_from(0, 10, 5, 0),
        Err(BbseError::MidpointOutOfBounds)
    ));
    assert!(matches!(
        encode_from(0, 10, 5, 10),
        Err(BbseError::MidpointOutOfBounds)
    ));
}

#[test]
fn test_rejects_overlong_path() {
    // Three bits narrow [0, 8) down to the single value 7; a fourth decision
    // has no half left to pick.
    let mut path = Path::new();
    for _ in 0..4 {
        path.push(true);
    }
    assert!(matches!(decode(0, 8, &path), Err(BbseError::IncompletePath)));
}

#[test]
fn test_midpoint_hit_gives_empty_path() {
    let path = encode(0, 256, 128).unwrap();
    assert!(path.is_empty());
    assert_eq!(decode(0, 256, &path).unwrap(), 128);
}

#[test]
fn test_empty_path_decodes_to_supplied_midpoint() {
    let empty = Path::new();
    assert_eq!(decode_from(10, 20, &empty, 15).unwrap(), 15);
}

#[test]
fn test_power_of_two_path_lengths() {
    // Over [0, 16) every path fits in 4 bits, and the lowest value needs
    // all 4 of them.
    for target in 0..16usize {
        let path = encode(0, 16, target).unwrap();
        assert!(path.len() <= 4, "Path too long for {}", target);
    }
    assert_eq!(encode(0, 16, 0).unwrap().len(), 4);
    assert_eq!(encode(100, 164, 100).unwrap().len(), 6);
}

#[test]
fn test_large_range_round_trip() {
    let size = 1_000_001usize;
    for target in [0usize, 1_000_000] {
        let path = encode(0, size, target).unwrap();
        assert!(path.len() <= 20, "Path longer than ceil(log2(size))");
        assert_eq!(decode(0, size, &path).unwrap(), target);
    }
}

#[test]
fn test_biased_path_needs_matching_decoder() {
    // With the default midpoint as the first split, the plain decoder reads
    // the biased path too; with any other first split it does not.
    let centered = encode_from(0, 256, 77, 128).unwrap();
    assert_eq!(decode(0, 256, &centered).unwrap(), 77);

    let biased = encode_from(0, 256, 77, 64).unwrap();
    assert_eq!(decode_from(0, 256, &biased, 64).unwrap(), 77);
    assert_ne!(decode(0, 256, &biased).unwrap(), 77);
}

#[test]
fn test_stack_pop_order() {
    let mut stack = BBSEStack::new();
    for value in 0..3usize {
        stack.push(encode(0, 8, value).unwrap());
    }
    assert_eq!(decode(0, 8, &stack.pop().unwrap()).unwrap(), 2);
    assert_eq!(decode(0, 8, &stack.pop().unwrap()).unwrap(), 1);
    assert_eq!(decode(0, 8, &stack.pop().unwrap()).unwrap(), 0);
    assert!(stack.pop().is_none());
}

#[test]
fn test_round_trip_sweep() {
    for start in 0..6usize {
        for end in (start + 1)..12usize {
            for target in start..end {
                let path = encode(start, end, target).unwrap();
                assert_eq!(
                    decode(start, end, &path).unwrap(),
                    target,
                    "Round trip failed on [{}, {}) target {}",
                    start,
                    end,
                    target
                );
            }
        }
    }
}

#[test]
fn test_biased_round_trip_sweep() {
    for start in 0..4usize {
        for end in (start + 2)..10usize {
            for midpoint in (start + 1)..end {
                for target in start..end {
                    let path = encode_from(start, end, target, midpoint).unwrap();
                    assert_eq!(
                        decode_from(start, end, &path, midpoint).unwrap(),
                        target,
                        "Biased round trip failed on [{}, {}) target {} midpoint {}",
                        start,
                        end,
                        target,
                        midpoint
                    );
                }
            }
        }
    }
}
