use std::cmp::Ordering;

use robot_painter::lumberjack::Node;
use robot_painter::node_order::node_cmp;

#[test]
fn frontier_entries_are_ordered_cheapest_first() {
    let cheap = Node::new((0, 0), 1, 0);
    let dear = Node::new((5, 5), 9, 0);
    assert_eq!(cheap.partial_cmp(&dear), Some(Ordering::Greater));
    assert_eq!(dear.partial_cmp(&cheap), Some(Ordering::Less));
    let right = Node::new((2, 3), 4, 0);
    let left = Node::new((2, 1), 4, 0);
    assert_eq!(right.partial_cmp(&left), Some(Ordering::Greater));
    assert!(Node::new((2, 3), 4, 0) == Node::new((2, 3), 8, 1));
    assert!(cheap != dear);
}

#[test]
fn node_cmp_breaks_ties_by_row_then_column() {
    let a = Node::new((1, 9), 3, 0);
    let b = Node::new((2, 0), 3, 0);
    assert_eq!(node_cmp(&a, &b), Ordering::Less);
    assert_eq!(node_cmp(&b, &a), Ordering::Greater);
    assert_eq!(node_cmp(&a, &Node::new((1, 9), 3, 7)), Ordering::Equal);
}
