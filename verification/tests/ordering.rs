use lattice_psbt::ordering::{reorder, shuffle_with_salt};

#[test]
fn reorder_takes_items_at_positions() {
    let items = vec![vec![10u8], vec![20u8], vec![30u8]];
    assert_eq!(reorder(&items, &vec![2, 0, 1]), vec![vec![30u8], vec![10u8], vec![20u8]]);
    assert_eq!(reorder(&items, &vec![1, 1]), vec![vec![20u8], vec![20u8]]);
    assert_eq!(reorder(&items, &Vec::new()), Vec::<Vec<u8>>::new());
}

#[test]
fn salted_shuffle_permutes_and_depends_on_salt_only() {
    let items: Vec<u32> = (0..10).collect();
    let a = shuffle_with_salt(items.clone(), &[1u8; 32]);
    let b = shuffle_with_salt(items.clone(), &[1u8; 32]);
    assert_eq!(a, b);
    assert_ne!(a, items);
    let mut sorted = a.clone();
    sorted.sort();
    assert_eq!(sorted, items);
    let c = shuffle_with_salt(items.clone(), &[2u8; 32]);
    assert_ne!(a, c);
}
