use vec_list::node::Node;
use vec_list::VecList;

#[test]
fn node_new_is_unlinked() {
    let n = Node::new(7u8);
    assert_eq!(n.value, Some(7));
    assert_eq!(n.prev, None);
    assert_eq!(n.next, None);
}

#[test]
fn node_links_and_stack_ops() {
    let mut n = Node::new(1u8);
    n.stack_push(5);
    assert_eq!(n.next, Some(5));
    assert_eq!(n.next(), 5);
    assert_eq!(n.stack_pop(), Some(5));
    assert_eq!(n.next, None);
    assert_eq!(n.stack_pop(), None);

    n.prev = Some(2);
    n.next = Some(3);
    assert_eq!(n.prev(), 2);
    assert_eq!(n.pop_prev(), Some(2));
    assert_eq!(n.pop_next(), Some(3));
    assert_eq!(n.prev, None);
    assert_eq!(n.next, None);
}

#[test]
fn eq_list_compares_element_wise() {
    let a = VecList::<u8>::from_vec(vec![1, 2, 3]);
    let mut b = VecList::<u8>::with_capacity(8);
    b.push_back(2);
    b.push_front(1);
    b.push_back(3);
    assert!(a.eq_list(&b));
    assert!(b.eq_list(&a));
    let c = VecList::<u8>::from_vec(vec![1, 2]);
    assert!(!a.eq_list(&c));
    let d = VecList::<u8>::from_vec(vec![1, 2, 4]);
    assert!(!a.eq_list(&d));
    let e1 = VecList::<u8>::new();
    let e2 = VecList::<u8>::new();
    assert!(e1.eq_list(&e2));
}
