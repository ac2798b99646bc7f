use compiler::binary_tree::Node;

fn leaf(value: i32) -> Option<Box<Node>> {
    Some(Box::new(Node::new(value)))
}

fn tree(values: &[i32]) -> Node {
    let mut node = Node::new(values[0]);
    for v in &values[1..] {
        node.insert(*v);
    }
    node
}

fn in_order(node: &Node, out: &mut Vec<i32>) {
    if let Some(l) = &node.left {
        in_order(l, out);
    }
    out.push(node.value);
    if let Some(r) = &node.right {
        in_order(r, out);
    }
}

#[test]
fn new_node_is_a_leaf() {
    assert_eq!(Node::new(40), Node { value: 40, left: None, right: None });
}

#[test]
fn smaller_goes_left_and_greater_right() {
    let mut n = Node::new(40);
    n.insert(4);
    assert_eq!(n, Node { value: 40, left: leaf(4), right: None });
    n.insert(42);
    assert_eq!(n, Node { value: 40, left: leaf(4), right: leaf(42) });
    n.insert(5);
    assert_eq!(
        n,
        Node {
            value: 40,
            left: Some(Box::new(Node { value: 4, left: None, right: leaf(5) })),
            right: leaf(42)
        }
    );
    n.insert(41);
    assert_eq!(
        n.right,
        Some(Box::new(Node { value: 42, left: leaf(41), right: None }))
    );
}

#[test]
fn a_value_is_held_once() {
    let mut n = tree(&[40, 4, 42]);
    let before = tree(&[40, 4, 42]);
    n.insert(40);
    n.insert(4);
    n.insert(42);
    assert_eq!(n, before);
}

#[test]
fn values_come_out_in_order() {
    let n = tree(&[50, 30, 70, 20, 40, 60, 80, 30, 65, -5, i32::MAX, i32::MIN]);
    let mut values = Vec::new();
    in_order(&n, &mut values);
    assert_eq!(values, vec![i32::MIN, -5, 20, 30, 40, 50, 60, 65, 70, 80, i32::MAX]);
}

#[test]
fn sum_adds_all_values() {
    let mut n = tree(&[40, 4, 42]);
    assert_eq!(n.sum(), 86);
    assert_eq!(n, tree(&[40, 4, 42]));
    assert_eq!(Node::new(-7).sum(), -7);
    assert_eq!(tree(&[5, -5, 10, -10]).sum(), 0);
    assert_eq!(tree(&[1, 2, 3, 4, 5, 6, 7, 8, 9, 10]).sum(), 55);
}

#[test]
fn sum_reaches_the_ends_of_the_range() {
    assert_eq!(tree(&[i32::MAX - 3, 1, 2]).sum(), i32::MAX);
    assert_eq!(tree(&[i32::MIN + 3, -1, -2]).sum(), i32::MIN);
    assert_eq!(tree(&[0, i32::MAX, i32::MIN]).sum(), -1);
}

#[test]
fn zero_keeps_the_shape() {
    let mut n = tree(&[40, 4, 42, 5]);
    n.zero();
    assert_eq!(
        n,
        Node {
            value: 0,
            left: Some(Box::new(Node { value: 0, left: None, right: leaf(0) })),
            right: leaf(0)
        }
    );
    assert_eq!(n.sum(), 0);
    n.zero();
    assert_eq!(n.sum(), 0);
}
