//! Tests for the shared sublist helper.

use expression::misc::is_sublist;

#[test]
fn sublist_finds_contiguous_runs() {
    let list = vec![1u8, 2, 3, 4, 5];
    assert!(is_sublist(&list, &vec![]));
    assert!(is_sublist(&list, &vec![1, 2]));
    assert!(is_sublist(&list, &vec![3, 4, 5]));
    assert!(is_sublist(&list, &vec![1, 2, 3, 4, 5]));
    assert!(!is_sublist(&list, &vec![2, 4]));
    assert!(!is_sublist(&list, &vec![5, 4]));
    assert!(!is_sublist(&list, &vec![1, 2, 3, 4, 5, 6]));
    assert!(!is_sublist(&vec![], &vec![1]));
    assert!(is_sublist(&vec![], &vec![]));
}
