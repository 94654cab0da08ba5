use grakawa::index::IndexData;

#[test]
fn empty_index_knows_nothing() {
    let idx = IndexData::empty();
    assert!(idx.product_ids().is_empty());
    assert!(!idx.contains(1));
}

#[test]
fn adding_one_id_twice_is_a_no_op() {
    let mut idx = IndexData::empty();
    assert!(idx.add_product_id(5));
    assert!(!idx.add_product_id(5));
    assert_eq!(idx.product_ids(), &[5]);
    assert!(idx.contains(5));
}

#[test]
fn batches_are_kept_sorted_and_counted() {
    let mut idx = IndexData::empty();
    assert_eq!(idx.add_product_ids(&[3, 1, 2]), 3);
    assert_eq!(idx.product_ids(), &[1, 2, 3]);
    assert_eq!(idx.add_product_ids(&[2, 4, 4, 0]), 2);
    assert_eq!(idx.product_ids(), &[0, 1, 2, 3, 4]);
}

#[test]
fn disjoint_batches_give_sorted_union() {
    let mut idx = IndexData::empty();
    assert_eq!(idx.add_product_ids(&[30, 10, 50]), 3);
    assert_eq!(idx.add_product_ids(&[40, 20]), 2);
    assert_eq!(idx.product_ids(), &[10, 20, 30, 40, 50]);
}

#[test]
fn empty_batch_changes_nothing() {
    let mut idx = IndexData::empty();
    idx.add_product_id(7);
    assert_eq!(idx.add_product_ids(&[]), 0);
    assert_eq!(idx.product_ids(), &[7]);
}

#[test]
fn extreme_ids() {
    let mut idx = IndexData::empty();
    assert_eq!(idx.add_product_ids(&[u32::MAX, 0]), 2);
    assert_eq!(idx.product_ids(), &[0, u32::MAX]);
}

#[test]
fn loaded_ids_must_be_a_sorted_set() {
    assert_eq!(IndexData::from_sorted(vec![1, 2, 9]).unwrap().product_ids(), &[1, 2, 9]);
    assert!(IndexData::from_sorted(vec![]).is_some());
    assert!(IndexData::from_sorted(vec![2, 1]).is_none());
    assert!(IndexData::from_sorted(vec![1, 1]).is_none());
}
