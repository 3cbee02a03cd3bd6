use triangle_matrix::tri_num;

#[test]
fn test_tri_num() {
    // Sum all numbers from `0` to `n`
    let acc_num = |n: usize| (0..=n).reduce(|a, b| a + b).unwrap();

    assert_eq!(tri_num(1), acc_num(1));
    assert_eq!(tri_num(2), acc_num(2));
    assert_eq!(tri_num(3), acc_num(3));
    assert_eq!(tri_num(4), acc_num(4));
    assert_eq!(tri_num(5), acc_num(5));
}

#[test]
fn tri_num_small_values() {
    assert_eq!(tri_num(0), 0);
    assert_eq!(tri_num(1), 1);
    assert_eq!(tri_num(10), 55);
    assert_eq!(tri_num(100), 5050);
}

#[test]
fn tri_num_large_values() {
    assert_eq!(tri_num(4_294_967_295), 9_223_372_034_707_292_160);
    assert_eq!(tri_num(4_294_967_296), 9_223_372_039_002_259_456);
}
