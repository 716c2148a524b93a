use zed_core::rope::position::Bias;
use zed_core::sum_tree::dimension::{Count, Summary, Unit};
use zed_core::sum_tree::keyed::Edit;
use zed_core::sum_tree::tree::{SumTree, MAX_CHILDREN, TREE_BASE};

fn tree_of(items: Vec<u64>) -> SumTree<u64> {
    SumTree::from_iter(items, &())
}

#[test]
fn tree_holds_items_in_order() {
    assert_eq!(MAX_CHILDREN, 2 * TREE_BASE);
    for n in [0u64, 1, 5, 12, 13, 144, 145, 1000] {
        let items: Vec<u64> = (0..n).map(|k| k * 3).collect();
        let tree = tree_of(items.clone());
        assert_eq!(tree.items(&()), items);
        assert_eq!(tree.summary(), &Count(n));
        assert_eq!(tree.extent::<Count>(&()), Count(n));
        assert_eq!(tree.is_empty(), n == 0);
        assert_eq!(tree.first(), items.first());
        assert_eq!(tree.last(), items.last());
    }
}

#[test]
fn pushed_and_extended_trees() {
    let mut tree: SumTree<u64> = SumTree::new(&());
    for k in 0..300 {
        tree.push(k, &());
    }
    assert_eq!(tree.items(&()), (0..300).collect::<Vec<u64>>());
    tree.extend((300..500).collect(), &());
    assert_eq!(tree.items(&()), (0..500).collect::<Vec<u64>>());
    assert_eq!(tree.summary(), &Count(500));
}

#[test]
fn appended_trees_sum_up() {
    for (a, b) in [(0u64, 5u64), (5, 0), (3, 400), (400, 3), (100, 100), (1, 1)] {
        let left: Vec<u64> = (0..a).collect();
        let right: Vec<u64> = (1000..1000 + b).collect();
        let mut tree = tree_of(left.clone());
        tree.append(tree_of(right.clone()), &());
        let mut all = left;
        all.extend(right);
        assert_eq!(tree.items(&()), all);
        let mut sum = Count(a);
        sum.add_summary(&Count(b), &());
        assert_eq!(tree.summary(), &sum);
    }
}

#[test]
fn last_item_is_updated() {
    let mut tree = tree_of((0..200).collect());
    let shared = tree.clone();
    tree.update_last(|last: &u64| *last + 1000, &());
    assert_eq!(tree.last(), Some(&1199));
    assert_eq!(shared.last(), Some(&199));
    assert!(!tree.ptr_eq(&shared));
    assert!(shared.ptr_eq(&shared.clone()));
}

#[test]
fn inserted_item_is_found_and_removed() {
    let mut tree = tree_of((0..100).map(|k| k * 2).collect());
    assert_eq!(tree.insert_or_replace(33, &()), None);
    assert!(tree.contains(&33, &()));
    assert_eq!(tree.get(&33, &()), Some(&33));
    assert_eq!(tree.get(&35, &()), None);
    assert_eq!(tree.insert_or_replace(34, &()), Some(34));
    assert_eq!(tree.remove(&33, &()), Some(33));
    assert_eq!(tree.remove(&33, &()), None);
    assert_eq!(tree.items(&()), (0..100).map(|k| k * 2).collect::<Vec<u64>>());
}

#[test]
fn edits_are_made_together() {
    let mut tree = tree_of(vec![1, 3, 5, 7]);
    let removed = tree.edit(
        vec![
            Edit::Remove(3),
            Edit::Insert(4),
            Edit::Insert(5),
            Edit::Remove(100),
            Edit::Insert(0),
        ],
        &(),
    );
    assert_eq!(tree.items(&()), vec![0, 1, 4, 5, 7]);
    assert_eq!(removed, vec![3, 5]);
}

#[test]
fn retained_and_updated_items() {
    let mut tree = tree_of((0..50).collect());
    tree.retain(&(), |k: &u64| *k % 5 == 0);
    assert_eq!(tree.items(&()), vec![0, 5, 10, 15, 20, 25, 30, 35, 40, 45]);
    assert_eq!(tree.update(&10, &(), |k: &u64| (*k, *k + 1)), Some(11));
    assert_eq!(tree.update(&11, &(), |k: &u64| (*k, *k + 1)), None);
}

#[test]
fn parents_sum_up_their_children() {
    let leaf_a: SumTree<u64> = SumTree::leaf((0..6).collect(), &());
    let leaf_b: SumTree<u64> = SumTree::leaf((6..12).collect(), &());
    let parent = SumTree::parent(vec![leaf_a, leaf_b], 1, &());
    assert_eq!(parent.summary(), &Count(12));
    assert_eq!(parent.items(&()), (0..12).collect::<Vec<u64>>());
    assert_eq!(SumTree::from_item(7u64, &()).items(&()), vec![7]);
    let lone: SumTree<u64> = SumTree::from_summary(Count(3));
    assert_eq!(lone.summary(), &Count(3));
    assert!(lone.items(&()).is_empty());
    let empty: SumTree<u64> = SumTree::default();
    assert!(empty.is_empty());
    assert_eq!(Unit::zero(&()), Unit);
    assert_eq!(Bias::default(), Bias::Left);
}
