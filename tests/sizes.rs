use disk_analyzer::tree::{calculate_dir_size, SizeTree};

#[test]
fn file_size_is_its_length() {
    assert_eq!(calculate_dir_size(&SizeTree::File(1234)), 1234);
}

#[test]
fn dir_size_sums_children_recursively() {
    let t = SizeTree::Dir(vec![
        SizeTree::File(100),
        SizeTree::Dir(vec![SizeTree::File(20), SizeTree::File(3)]),
        SizeTree::Unreadable,
        SizeTree::Dir(vec![]),
    ]);
    assert_eq!(calculate_dir_size(&t), 123);
}

#[test]
fn dir_size_equals_sum_of_child_sizes() {
    let children = vec![
        SizeTree::File(7),
        SizeTree::Dir(vec![SizeTree::File(5), SizeTree::Dir(vec![SizeTree::File(1)])]),
    ];
    let each: u64 = children.iter().map(calculate_dir_size).sum();
    assert_eq!(calculate_dir_size(&SizeTree::Dir(children)), each);
    assert_eq!(each, 13);
}

#[test]
fn unreadable_counts_zero() {
    assert_eq!(calculate_dir_size(&SizeTree::Unreadable), 0);
}

#[test]
fn size_saturates_at_u64_max() {
    let t = SizeTree::Dir(vec![SizeTree::File(u64::MAX), SizeTree::File(1)]);
    assert_eq!(calculate_dir_size(&t), u64::MAX);
}
