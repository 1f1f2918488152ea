#[test]
fn simple_test() {
    assert_eq!(1 + 1, 2);
}

#[test]
fn alloc_test() {
    let mut array = vec![0usize; 0];
    for v in 1..=100 {
        array.push(v);
    }
    let sum: usize = array.iter().sum();
    assert_eq!(sum, (1 + 100) * 100 / 2);
}
