use iboardbot::qtree::{splice, QuadLeaf, QuadTree};

fn names(n: usize) -> Vec<String> {
    (0..n).map(|i| format!("s{}", i)).collect()
}

#[test]
fn splice_deals_in_turn() {
    let data: Vec<u32> = (0..10).collect();
    let parts = splice(4, &data);
    assert_eq!(parts, vec![vec![0, 4, 8], vec![1, 5, 9], vec![2, 6], vec![3, 7]]);
}

#[test]
fn splice_with_more_channels_than_items() {
    let parts = splice(3, &[7u8]);
    assert_eq!(parts, vec![vec![7], vec![], vec![]]);
    let empty: Vec<u8> = vec![];
    assert_eq!(splice(2, &empty), vec![Vec::<u8>::new(), vec![]]);
}

#[test]
fn new_tree_is_empty() {
    let t: QuadTree<String> = QuadTree::new(4);
    assert!(t.iter().is_empty());
    assert!(t.can_collapse());
    assert_eq!(t.depth, 0);
    assert_eq!(t.max_depth, 4);
}

#[test]
fn single_item_takes_the_whole_region() {
    let mut t = QuadTree::new(4);
    t.feed(names(1));
    assert_eq!(t.iter(), vec![(vec![], "s0".to_string())]);
}

#[test]
fn items_are_dealt_over_quarters() {
    let mut t = QuadTree::new(4);
    t.feed(names(4));
    assert_eq!(t.iter(), vec![
        (vec![0], "s0".to_string()),
        (vec![1], "s1".to_string()),
        (vec![2], "s2".to_string()),
        (vec![3], "s3".to_string()),
    ]);
}

#[test]
fn five_items_split_the_first_quarter() {
    let mut t = QuadTree::new(4);
    t.feed(names(5));
    assert_eq!(t.iter(), vec![
        (vec![0, 0], "s0".to_string()),
        (vec![0, 1], "s4".to_string()),
        (vec![1], "s1".to_string()),
        (vec![2], "s2".to_string()),
        (vec![3], "s3".to_string()),
    ]);
}

#[test]
fn items_beyond_capacity_are_dropped() {
    let mut t = QuadTree::new(1);
    t.feed(names(4));
    assert_eq!(t.iter().len(), 4);
    let mut t = QuadTree::new(1);
    t.feed(names(5));
    // The first quarter receives two items at the deepest level: both are dropped.
    assert_eq!(t.iter().len(), 3);
    let mut t = QuadTree::new(0);
    t.feed(names(2));
    assert!(t.iter().is_empty());
}

#[test]
fn capacity_is_four_to_the_depth() {
    let mut t = QuadTree::new(2);
    t.feed(names(16));
    let items = t.iter();
    assert_eq!(items.len(), 16);
    let mut paths: Vec<Vec<u8>> = items.iter().map(|p| p.0.clone()).collect();
    paths.sort();
    paths.dedup();
    assert_eq!(paths.len(), 16);
    let mut t = QuadTree::new(2);
    t.feed(names(17));
    assert!(t.iter().len() < 17);
}

#[test]
fn collapse_only_once_and_above_the_limit() {
    let mut t: QuadTree<u8> = QuadTree::new(1);
    assert!(t.collapse());
    assert!(matches!(t.leaf, QuadLeaf::Collapsed(_)));
    assert!(!t.can_collapse());
    assert!(!t.collapse());
    let mut t: QuadTree<u8> = QuadTree::new(0);
    assert!(!t.collapse());
}

#[test]
fn feeding_a_split_node_many_items_changes_nothing() {
    let mut t = QuadTree::new(3);
    t.feed(names(2));
    let before = t.iter();
    t.feed(names(3));
    assert_eq!(t.iter(), before);
    t.feed(vec!["solo".to_string()]);
    assert_eq!(t.iter(), vec![(vec![], "solo".to_string())]);
}

#[test]
fn quarters_fed_nothing_stay_empty() {
    let mut t = QuadTree::<&str>::new(4);
    t.feed(vec!["a", "b"]);
    match &t.leaf {
        QuadLeaf::Collapsed(cs) => {
            assert_eq!(cs.len(), 4);
            assert!(matches!(cs[0].leaf, QuadLeaf::Leaf("a")));
            assert!(matches!(cs[1].leaf, QuadLeaf::Leaf("b")));
            assert!(matches!(cs[2].leaf, QuadLeaf::Empty));
            assert!(matches!(cs[3].leaf, QuadLeaf::Empty));
            for (i, c) in cs.iter().enumerate() {
                assert_eq!(c.depth, 1);
                assert_eq!(c.quadrant, vec![i as u8]);
            }
        }
        _ => panic!("expected a split root"),
    }
}

#[test]
fn fitting_items_are_all_placed_once() {
    let mut t = QuadTree::<String>::new(2);
    let given = names(16);
    t.feed(given.clone());
    let mut placed: Vec<String> = t.iter().into_iter().map(|(_, s)| s).collect();
    placed.sort();
    let mut expected = given;
    expected.sort();
    assert_eq!(placed, expected);
}
