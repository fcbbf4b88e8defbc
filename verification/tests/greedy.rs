use heightmap::opt::{greedy_mesh_binary_plane, BitMask, GreedyQuad};

#[test]
fn test_bitmask_basic() {
    let mask = BitMask::from_u128(0b1111);
    assert_eq!(mask.trailing_zeros_from(0), 0);
    assert_eq!(mask.trailing_ones_from(0), 4);
}

#[test]
fn test_bitmask_shift_left() {
    let mask = BitMask::from_u128(0b1111);
    let shifted = mask.shl(2);
    // After shifting left by 2: 0b1111 -> 0b111100
    // This has 2 trailing zeros, then 4 ones starting at bit 2
    assert_eq!(shifted.trailing_zeros_from(0), 2);
    assert_eq!(shifted.trailing_ones_from(2), 4);
}

#[test]
fn test_bitmask_shift_right() {
    let mask = BitMask::from_u128(0b111100);
    let shifted = mask.shr(2);
    assert_eq!(shifted.trailing_zeros_from(0), 0);
    assert_eq!(shifted.trailing_ones_from(0), 4);
}

#[test]
fn test_bitmask_ones() {
    let mask = BitMask::ones(5);
    assert_eq!(mask.trailing_zeros_from(0), 0);
    assert_eq!(mask.trailing_ones_from(0), 5);
}

#[test]
fn test_bitmask_and() {
    let a = BitMask::from_u128(0b1111);
    let b = BitMask::from_u128(0b1100);
    let result = a.and(&b);
    assert_eq!(result, BitMask::from_u128(0b1100));
}

#[test]
fn test_bitmask_xor_assign() {
    let mut a = BitMask::from_u128(0b1111);
    a.xor_assign(&BitMask::from_u128(0b1100));
    assert_eq!(a, BitMask::from_u128(0b0011));
}

#[test]
fn test_greedy_mesh_simple() {
    // Create a simple 2x2 solid block
    // Row 0: 0b11 (bits 0-1 set)
    // Row 1: 0b11 (bits 0-1 set)
    let data = vec![BitMask::from_u128(0b11), BitMask::from_u128(0b11)];

    let quads = greedy_mesh_binary_plane(data, 2, 2, 1000);

    // Should produce a single 2x2 quad
    assert_eq!(quads.len(), 1);
    assert_eq!(
        quads[0],
        GreedyQuad {
            x: 0,
            y: 0,
            w: 2,
            h: 2
        }
    );
}

#[test]
fn test_greedy_mesh_separate_quads() {
    // Create two separate quads
    // Row 0: 0b1100 (bits 2-3 set)
    // Row 1: 0b0011 (bits 0-1 set)
    let data = vec![BitMask::from_u128(0b1100), BitMask::from_u128(0b0011)];

    let quads = greedy_mesh_binary_plane(data, 2, 4, 1000);

    // Should produce two separate quads
    assert_eq!(quads.len(), 2);
}

/// Count how many quads cover each cell of a w x h grid.
fn coverage_counts(quads: &[GreedyQuad], w: u32, h: u32) -> Vec<u32> {
    let mut counts = vec![0u32; (w * h) as usize];
    for q in quads {
        for x in q.x..q.x + q.w {
            for y in q.y..q.y + q.h {
                counts[(x * h + y) as usize] += 1;
            }
        }
    }
    counts
}

#[test]
fn greedy_mesh_tiles_l_shape_exactly_once() {
    // 8x8 plane with an L-shape: rows 0-2 fully set (y 0..8), plus
    // rows 3-7 set only at y 0..2. Quads must cover every set cell
    // exactly once and never touch an unset cell.
    const W: u32 = 8;
    const H: u32 = 8;
    let set = |x: u32, y: u32| -> bool { x < 3 || y < 2 };

    let mut data = vec![BitMask::new(); W as usize];
    for (x, row) in data.iter_mut().enumerate() {
        for y in 0..H {
            if set(x as u32, y) {
                row.set_bit(y);
            }
        }
    }

    let quads = greedy_mesh_binary_plane(data, W, H, 1000);
    let counts = coverage_counts(&quads, W, H);

    for x in 0..W {
        for y in 0..H {
            let expected = u32::from(set(x, y));
            assert_eq!(
                counts[(x * H + y) as usize],
                expected,
                "cell ({x},{y}) covered {} times, expected {expected}",
                counts[(x * H + y) as usize]
            );
        }
    }
}

#[test]
fn greedy_mesh_clamps_quads_to_max_size() {
    // A fully solid 16x16 plane with max_size 4 must still tile every
    // cell exactly once, but no quad may exceed 4 in either dimension.
    // Removing the max_size clamp would emit a single 16x16 quad.
    const W: u32 = 16;
    const H: u32 = 16;
    const MAX: u32 = 4;

    let mut data = vec![BitMask::new(); W as usize];
    for row in data.iter_mut() {
        for y in 0..H {
            row.set_bit(y);
        }
    }

    let quads = greedy_mesh_binary_plane(data, W, H, MAX);

    assert!(!quads.is_empty());
    for q in &quads {
        assert!(
            q.w <= MAX && q.h <= MAX,
            "quad {q:?} exceeds max_size {MAX}"
        );
    }

    let counts = coverage_counts(&quads, W, H);
    assert!(
        counts.iter().all(|&c| c == 1),
        "clamped quads must still tile the plane exactly once"
    );
}
