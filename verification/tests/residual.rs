use affine::residual::residual_streams;

#[test]
fn twelve_blocks_give_thirteen_snapshots() {
    let streams: Result<Vec<i64>, String> = residual_streams(5i64, 12, |k: usize, x: &i64| Ok(x + k as i64));
    let streams = streams.unwrap();
    assert_eq!(streams.len(), 13);
    assert_eq!(streams[0], 5);
    for k in 0..12 {
        assert_eq!(streams[k + 1], streams[k] + k as i64);
    }
}

#[test]
fn no_blocks_keeps_only_the_embedding() {
    let streams: Result<Vec<u8>, ()> = residual_streams(7u8, 0, |_k: usize, _x: &u8| Err(()));
    assert_eq!(streams, Ok(vec![7]));
}

#[test]
fn blocks_apply_in_order() {
    let streams: Result<Vec<String>, ()> =
        residual_streams(String::from("e"), 3, |k: usize, x: &String| Ok(format!("{}{}", x, k)));
    assert_eq!(
        streams.unwrap(),
        vec!["e".to_string(), "e0".to_string(), "e01".to_string(), "e012".to_string()]
    );
}

#[test]
fn first_failing_block_stops_the_pass() {
    let mut calls = std::cell::Cell::new(0usize);
    let res: Result<Vec<u32>, usize> = residual_streams(1u32, 5, |k: usize, x: &u32| {
        calls.set(calls.get() + 1);
        if k == 2 { Err(k) } else { Ok(x * 2) }
    });
    assert_eq!(res, Err(2));
    assert_eq!(*calls.get_mut(), 3);
}
