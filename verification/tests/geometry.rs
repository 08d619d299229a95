use affine::geometry::{AttentionPlan, ShapeError};

fn gpt2_plan(batch: usize, seq_len: usize) -> AttentionPlan {
    AttentionPlan::new(&[batch, seq_len, 768], 768, 12).unwrap()
}

#[test]
fn plan_reads_batch_and_seq_len() {
    let p = gpt2_plan(2, 10);
    assert_eq!(p, AttentionPlan { batch: 2, seq_len: 10, d_model: 768, n_head: 12 });
}

#[test]
fn plan_ignores_dimensions_beyond_the_second() {
    let p = AttentionPlan::new(&[4, 5, 6, 7], 8, 2).unwrap();
    assert_eq!((p.batch, p.seq_len, p.d_model, p.n_head), (4, 5, 8, 2));
}

#[test]
fn plan_rank_zero_fails_on_dim_zero() {
    assert_eq!(
        AttentionPlan::new(&[], 768, 12),
        Err(ShapeError::DimOutOfRange { dim: 0, rank: 0 })
    );
}

#[test]
fn plan_rank_one_fails_on_dim_one() {
    assert_eq!(
        AttentionPlan::new(&[3], 768, 12),
        Err(ShapeError::DimOutOfRange { dim: 1, rank: 1 })
    );
}

#[test]
fn gpt2_small_head_dim_is_64() {
    assert_eq!(gpt2_plan(1, 4).head_dim(), 64);
}

#[test]
fn head_dim_rounds_down() {
    let p = AttentionPlan::new(&[1, 1, 10], 10, 3).unwrap();
    assert_eq!(p.head_dim(), 3);
}

#[test]
fn qkv_ranges_tile_the_fused_projection() {
    let p = gpt2_plan(1, 4);
    assert_eq!(p.q_range(), (0, 768));
    assert_eq!(p.k_range(), (768, 768));
    assert_eq!(p.v_range(), (1536, 768));
    let (qs, ql) = p.q_range();
    let (ks, kl) = p.k_range();
    let (vs, vl) = p.v_range();
    assert_eq!(qs + ql, ks);
    assert_eq!(ks + kl, vs);
    assert_eq!(vs + vl, 3 * 768);
}

#[test]
fn head_shapes_for_gpt2_small() {
    let p = gpt2_plan(2, 10);
    assert_eq!(p.split_dims(), [2, 10, 12, 64]);
    assert_eq!(p.head_major_dims(), [2, 12, 10, 64]);
    assert_eq!(p.scores_dims(), [2, 12, 10, 10]);
    assert_eq!(p.mask_dims(), [1, 1, 10, 10]);
    assert_eq!(p.merged_dims(), [2, 10, 768]);
}

#[test]
fn split_keeps_count_only_when_heads_divide_model() {
    let even = gpt2_plan(2, 10);
    let count = |d: &[usize]| d.iter().product::<usize>();
    assert_eq!(count(&even.split_dims()), count(&even.merged_dims()));
    assert_eq!(count(&even.head_major_dims()), count(&even.split_dims()));
    let odd = AttentionPlan::new(&[2, 3, 10], 10, 3).unwrap();
    assert_ne!(count(&odd.split_dims()), count(&odd.merged_dims()));
}

#[test]
fn mask_broadcasts_against_scores() {
    let p = gpt2_plan(3, 5);
    let m = p.mask_dims();
    let s = p.scores_dims();
    for a in 0..4 {
        assert!(m[a] == s[a] || m[a] == 1);
    }
}

#[test]
fn plan_mask_matches_causal_pattern() {
    let p = gpt2_plan(1, 3);
    assert_eq!(p.mask(1u8, 0u8), vec![1, 0, 0, 1, 1, 0, 1, 1, 1]);
}

#[test]
fn head_split_roundtrip_on_features() {
    let p = gpt2_plan(1, 1);
    let dh = p.head_dim();
    for f in 0..p.d_model {
        let (h, e) = (f / dh, f % dh);
        assert!(h < p.n_head && e < dh);
        assert_eq!(h * dh + e, f);
    }
}

#[test]
fn merged_shape_is_the_input_shape() {
    let x = [3usize, 7, 768];
    let p = AttentionPlan::new(&x, 768, 12).unwrap();
    assert_eq!(p.merged_dims(), x);
}
