use rts_engine::procedural_texels::checker;

#[test]
fn checker_two_by_two() {
    assert_eq!(
        checker(2),
        vec![0, 0, 0, 255, 255, 255, 255, 255, 255, 255, 255, 255, 0, 0, 0, 255]
    );
}

#[test]
fn checker_empty() {
    assert!(checker(0).is_empty());
}

#[test]
fn checker_neighbours_differ() {
    let size = 5;
    let v = checker(size);
    assert_eq!(v.len(), 4 * size * size);
    for i in 0..size {
        for j in 0..size - 1 {
            assert_ne!(v[4 * (i * size + j)], v[4 * (i * size + j + 1)]);
            assert_eq!(v[4 * (i * size + j) + 3], 255);
        }
    }
}
