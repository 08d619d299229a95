use affine::mask::causal_mask;

#[test]
fn causal_mask_three_positions_exact() {
    let m = causal_mask(3, 1u8, 0u8);
    assert_eq!(m, vec![1, 0, 0, 1, 1, 0, 1, 1, 1]);
}

#[test]
fn causal_mask_float_values_match_attention_mask() {
    let m = causal_mask(2, 0.0f32, f32::NEG_INFINITY);
    assert_eq!(m.len(), 4);
    assert_eq!(m[0], 0.0);
    assert_eq!(m[1], f32::NEG_INFINITY);
    assert_eq!(m[2], 0.0);
    assert_eq!(m[3], 0.0);
}

#[test]
fn causal_mask_empty_sequence() {
    let m = causal_mask(0, 1u8, 0u8);
    assert!(m.is_empty());
}

#[test]
fn causal_mask_single_position_sees_itself() {
    assert_eq!(causal_mask(1, 'v', 'h'), vec!['v']);
}

#[test]
fn causal_mask_rows_are_prefixes_of_visible_entries() {
    let n = 7;
    let m = causal_mask(n, true, false);
    for i in 0..n {
        let row = &m[i * n..i * n + n];
        let visible = row.iter().filter(|v| **v).count();
        assert_eq!(visible, i + 1);
        for j in 0..n {
            assert_eq!(row[j], j <= i);
        }
    }
}

#[test]
fn causal_mask_diagonal_visible_future_hidden() {
    let n = 5;
    let m = causal_mask(n, 1i32, -1i32);
    for i in 0..n {
        assert_eq!(m[i * n + i], 1);
        for j in i + 1..n {
            assert_eq!(m[i * n + j], -1);
        }
    }
}
