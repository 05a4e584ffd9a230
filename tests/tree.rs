use glb_scene::tree::NodeTree;

#[test]
pub fn test() {
    let mut t = NodeTree::new();
    let a = t.new_node("A");
    let b = t.new_node("B");
    let c = t.new_node("C");
    t.prepend_child(a, b);
    t.prepend_child(a, c);
    t.orphan(b);
    t.orphan(c);
    for n in t.children(a) {
        println!("{}", t.content(n));
    }
    assert!(t.children(a).is_empty());
}

#[test]
fn prepend_puts_the_newest_child_first() {
    let mut t = NodeTree::new();
    let a = t.new_node(1);
    let b = t.new_node(2);
    let c = t.new_node(3);
    t.prepend_child(a, b);
    t.prepend_child(a, c);
    assert_eq!(t.children(a), vec![c, b]);
    assert_eq!(t.parent(b), Some(a));
    assert_eq!(t.parent(c), Some(a));
    assert_eq!(t.parent(a), None);
}

#[test]
fn orphan_keeps_the_order_of_the_others() {
    let mut t = NodeTree::new();
    let p = t.new_node(0);
    let kids: Vec<usize> = (1..5).map(|i| t.new_node(i)).collect();
    for &k in &kids {
        t.append_child(p, k);
    }
    t.orphan(kids[1]);
    assert_eq!(t.children(p), vec![kids[0], kids[2], kids[3]]);
    assert_eq!(t.parent(kids[1]), None);
    t.orphan(kids[1]);
    assert_eq!(t.children(p), vec![kids[0], kids[2], kids[3]]);
}

#[test]
fn append_then_remove_restores_both_nodes() {
    let mut t = NodeTree::new();
    let p = t.new_node("p");
    let c = t.new_node("c");
    t.append_child(p, c);
    assert_eq!(t.children(p), vec![c]);
    assert_eq!(t.parent(c), Some(p));
    t.remove_child(p, c);
    assert_eq!(t.parent(c), None);
    assert_eq!(t.parent(p), None);
    assert!(!t.children(p).contains(&c));
}

#[test]
fn remove_child_of_another_parent_does_nothing() {
    let mut t = NodeTree::new();
    let p = t.new_node(0);
    let q = t.new_node(1);
    let c = t.new_node(2);
    t.append_child(p, c);
    t.remove_child(q, c);
    assert_eq!(t.parent(c), Some(p));
    assert_eq!(t.children(p), vec![c]);
}

#[test]
fn ancestors_start_with_the_node() {
    let mut t = NodeTree::new();
    let a = t.new_node('a');
    let b = t.new_node('b');
    let c = t.new_node('c');
    t.append_child(a, b);
    t.append_child(b, c);
    assert_eq!(t.ancestors(c), vec![c, b, a]);
    assert_eq!(t.ancestors(a), vec![a]);
    assert_eq!(t.len(), 3);
}

#[test]
fn ancestors_of_a_cycle_stop_after_the_node_count() {
    let mut t = NodeTree::new();
    let a = t.new_node(0);
    let b = t.new_node(1);
    t.append_child(a, b);
    t.append_child(b, a);
    assert_eq!(t.ancestors(a), vec![a, b]);
}

#[test]
fn content_mut_changes_one_node() {
    let mut t = NodeTree::new();
    let a = t.new_node(10);
    let b = t.new_node(20);
    *t.content_mut(a) += 5;
    assert_eq!(*t.content(a), 15);
    assert_eq!(*t.content(b), 20);
}
