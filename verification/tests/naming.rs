use affine::naming::block_prefix;

#[test]
fn first_block_prefix() {
    assert_eq!(block_prefix(0), "h.0");
}

#[test]
fn last_gpt2_small_block_prefix() {
    assert_eq!(block_prefix(11), "h.11");
}

#[test]
fn block_prefix_matches_format_for_many_indices() {
    for i in (0..2000).chain([99_999, 1_000_000, usize::MAX]) {
        assert_eq!(block_prefix(i), format!("h.{}", i));
    }
}

#[test]
fn block_prefixes_are_distinct() {
    let names: Vec<String> = (0..12).map(block_prefix).collect();
    for a in 0..12 {
        for b in 0..12 {
            if a != b {
                assert_ne!(names[a], names[b]);
            }
        }
    }
}
