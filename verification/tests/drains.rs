use testdrop::TestDrop;
use vec_list::drain::drain;
use vec_list::drain::Edge;
use vec_list::drain_filter::new_drain_filter;
use vec_list::VecList;

#[test]
fn test_drain() {
    let test_drop = TestDrop::new();
    let mut list = VecList::with_capacity(3);
    let mut ids = Vec::with_capacity(3);

    for _ in 0..5 {
        let (id, item) = test_drop.new_item();

        list.push_back(item);
        ids.push(id);
    }

    let d = list.drain(Edge::Included(1), Edge::Excluded(4));
    let _ = d.finish(&mut list);

    test_drop.assert_no_drop(ids[0]);
    test_drop.assert_drop(ids[1]);
    test_drop.assert_drop(ids[2]);
    test_drop.assert_drop(ids[3]);
    test_drop.assert_no_drop(ids[4]);
}

#[test]
fn test_vec_list_drain() {
    let mut list = VecList::<u8>::from_vec(vec![0, 1, 2, 3]);

    let mut l2 = list.clone();
    let mut d = l2.drain(Edge::Included(1), Edge::Included(2));
    let mut rev: Vec<u8> = Vec::new();
    while let Some(v) = d.next_back(&mut l2) {
        rev.push(v);
    }
    assert_eq!(rev, vec![2, 1], "`VecList::drain` did not iterate backwards correctly.",);

    let mut d = list.drain(Edge::Included(1), Edge::Included(2));
    let mut fwd: Vec<u8> = Vec::new();
    while let Some(v) = d.next(&mut list) {
        fwd.push(v);
    }
    assert_eq!(fwd, vec![1, 2], "`VecList::drain` did not iterate correctly.",);

    let mut seen: Vec<&u8> = Vec::new();
    let mut it = list.iter();
    while let Some(x) = it.next() {
        seen.push(x);
    }
    assert_eq!(seen, vec![&0, &3], "`VecList::drain` did not retain the correct value.",);
}

#[test]
fn test_vec_list_drain_filter() {
    let mut list = VecList::<u8>::from_vec(vec![0, 1, 2, 3]);
    let filter = |i: u8| (i + 1, (i + 1) % 2 == 0);

    let mut l2 = list.clone();
    let mut df = new_drain_filter(&l2, filter);
    let mut rev: Vec<u8> = Vec::new();
    while let Some(v) = df.next_back(&mut l2) {
        rev.push(v);
    }
    assert_eq!(
        rev,
        vec![4, 2],
        "`VecList::drain_filter` did not iterate backward correctly.",
    );

    let mut df = new_drain_filter(&list, filter);
    let mut fwd: Vec<u8> = Vec::new();
    while let Some(v) = df.next(&mut list) {
        fwd.push(v);
    }
    assert_eq!(fwd, vec![2, 4], "`VecList::drain_filter` did not iterate correctly.",);

    let mut seen: Vec<&u8> = Vec::new();
    let mut it = list.iter();
    while let Some(x) = it.next() {
        seen.push(x);
    }
    assert_eq!(
        seen,
        vec![&1, &3],
        "`VecList::drain_filter` did not retain the correct values.",
    );

    let mut df = new_drain_filter(&list, filter);
    let mut again: Vec<u8> = Vec::new();
    while let Some(v) = df.next(&mut list) {
        again.push(v);
    }
    assert_eq!(
        again,
        vec![2, 4],
        "`VecList::drain_filter` did not iterate correctly the second time.",
    );
}

#[test]
fn drain_consumed_forward_removes_exactly_the_range() {
    let mut list = VecList::<u8>::from_vec(vec![1, 2, 3, 4, 5]);
    let mut d = list.drain(Edge::Included(1), Edge::Included(3));
    let mut got: Vec<u8> = Vec::new();
    while let Some(v) = d.next(&mut list) {
        got.push(v);
    }
    assert_eq!(got, vec![2, 3, 4]);
    assert_eq!(list.to_vec(), vec![1, 5]);
}

#[test]
fn drain_discarded_unconsumed_still_removes_the_range() {
    let mut list = VecList::<u8>::from_vec(vec![1, 2, 3, 4, 5]);
    let d = list.drain(Edge::Included(1), Edge::Included(3));
    let removed = d.finish(&mut list);
    assert_eq!(removed, vec![2, 3, 4]);
    assert_eq!(list.to_vec(), vec![1, 5]);
}

#[test]
fn drain_partially_consumed_then_finished_removes_the_range() {
    let mut list = VecList::<u8>::from_vec(vec![1, 2, 3, 4, 5]);
    let mut d = list.drain(Edge::Included(1), Edge::Included(3));
    assert_eq!(d.next(&mut list), Some(2));
    assert_eq!(d.next_back(&mut list), Some(4));
    let rest = d.finish(&mut list);
    assert_eq!(rest, vec![3]);
    assert_eq!(list.to_vec(), vec![1, 5]);
}

#[test]
fn drain_bounds_resolve_like_ranges() {
    let mut list = VecList::<u8>::from_vec(vec![0, 1, 2, 3, 4]);
    let d = drain(&list, Edge::Excluded(0), Edge::Excluded(3));
    let got = d.finish(&mut list);
    assert_eq!(got, vec![1, 2]);
    assert_eq!(list.to_vec(), vec![0, 3, 4]);

    let mut list = VecList::<u8>::from_vec(vec![0, 1, 2]);
    let d = drain(&list, Edge::Unbounded, Edge::Unbounded);
    let got = d.finish(&mut list);
    assert_eq!(got, vec![0, 1, 2]);
    assert_eq!(list.len(), 0);

    let mut list = VecList::<u8>::from_vec(vec![0, 1, 2]);
    let d = drain(&list, Edge::Included(1), Edge::Excluded(1));
    let got = d.finish(&mut list);
    assert_eq!(got, Vec::<u8>::new());
    assert_eq!(list.to_vec(), vec![0, 1, 2]);
}

#[test]
fn drain_filter_increment_then_test_even() {
    let mut list = VecList::<u8>::from_vec(vec![0, 1, 2, 3]);
    let mut df = list.drain_filter(|i: u8| (i + 1, (i + 1) % 2 == 0));
    let mut got: Vec<u8> = Vec::new();
    while let Some(v) = df.next(&mut list) {
        got.push(v);
    }
    assert_eq!(got, vec![2, 4]);
    assert_eq!(list.to_vec(), vec![1, 3]);
}

#[test]
fn drain_filter_discarded_unconsumed_still_filters_everything() {
    let mut list = VecList::<u8>::from_vec(vec![0, 1, 2, 3]);
    let df = list.drain_filter(|i: u8| (i + 1, (i + 1) % 2 == 0));
    let yielded = df.finish(&mut list);
    assert_eq!(yielded, vec![2, 4]);
    assert_eq!(list.to_vec(), vec![1, 3]);
}

#[test]
fn drain_filter_partially_consumed_then_finished() {
    let mut list = VecList::<u8>::from_vec(vec![0, 1, 2, 3, 4, 5]);
    let mut df = list.drain_filter(|i: u8| (i, i % 2 == 0));
    assert_eq!(df.next(&mut list), Some(0));
    let rest = df.finish(&mut list);
    assert_eq!(rest, vec![2, 4]);
    assert_eq!(list.to_vec(), vec![1, 3, 5]);
}

#[test]
fn retain_keeps_only_matching_in_order() {
    let mut list = VecList::<i32>::from_vec(vec![6, 1, 8, 3, 10]);
    list.retain(|i: i32| (i, i % 2 == 0));
    assert_eq!(list.to_vec(), vec![6, 8, 10]);

    let mut none = VecList::<i32>::from_vec(vec![1, 3]);
    none.retain(|i: i32| (i, i % 2 == 0));
    assert_eq!(none.len(), 0);

    let mut rewrite = VecList::<i32>::from_vec(vec![1, 2, 3]);
    rewrite.retain(|i: i32| (i * 10, i != 2));
    assert_eq!(rewrite.to_vec(), vec![10, 30]);
}

#[test]
fn drain_on_empty_list_is_empty() {
    let mut list = VecList::<u8>::new();
    let d = list.drain(Edge::Unbounded, Edge::Unbounded);
    let got = d.finish(&mut list);
    assert_eq!(got, Vec::<u8>::new());
    assert_eq!(list.len(), 0);
}

#[test]
fn drain_filter_on_empty_list_is_empty() {
    let mut list = VecList::<u8>::new();
    let mut df = list.drain_filter(|i: u8| (i, true));
    assert_eq!(df.next(&mut list), None);
    let got = df.finish(&mut list);
    assert_eq!(got, Vec::<u8>::new());
}

#[test]
fn drain_filter_remaining_counts_undecided_elements() {
    let mut list = VecList::<u8>::from_vec(vec![0, 1, 2, 3]);
    let mut df = list.drain_filter(|i: u8| (i, i % 2 == 0));
    assert_eq!(df.remaining(&list), 4);
    assert_eq!(df.next(&mut list), Some(0));
    assert_eq!(df.remaining(&list), 3);
    let _ = df.finish(&mut list);
    assert_eq!(list.to_vec(), vec![1, 3]);
}
