use lattice_psbt::bytes::{bytes_compare, bytes_copy, bytes_equal, Order};

#[test]
fn lexicographic_order() {
    assert_eq!(bytes_compare(&[1, 2], &[1, 3]), Order::Less);
    assert_eq!(bytes_compare(&[2], &[1, 9]), Order::Greater);
    assert_eq!(bytes_compare(&[1], &[1, 0]), Order::Less);
    assert_eq!(bytes_compare(&[], &[]), Order::Equal);
    assert_eq!(bytes_compare(&[4, 4], &[4, 4]), Order::Equal);
}

#[test]
fn equality_and_copy() {
    assert!(bytes_equal(&[1, 2], &[1, 2]));
    assert!(!bytes_equal(&[1, 2], &[1]));
    assert!(!bytes_equal(&[1, 2], &[1, 3]));
    let v = vec![9u8, 8, 7];
    assert_eq!(bytes_copy(&v), v);
}
