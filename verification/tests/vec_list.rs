use vec_list::raw_vec::RawVec;
use vec_list::VecList;

fn collect_fwd<T: Copy>(list: &VecList<T>) -> Vec<T> {
    let mut it = list.iter();
    let mut out = Vec::new();
    while let Some(x) = it.next() {
        out.push(*x);
    }
    out
}

#[test]
fn test_raw_vec() {
    let vec = RawVec::<i32>::with_capacity(0);

    assert_eq!(
        vec.cap(),
        0,
        "`RawVev::with_capaicty` cap was not `0` when created with capacity of 0",
    );

    let mut vec = RawVec::<i32>::with_capacity(10);

    assert_eq!(
        vec.cap(),
        10,
        "`RawVev::with_capacity` cap was not `10` when created with capacity of 10",
    );

    vec.reserve_exact(10, 10);
    assert_eq!(
        vec.cap(),
        20,
        "`RawVev::reserve_exact` cap was not `20` when 10 was added exactly",
    );

    vec.reserve(10, 1);
    assert_eq!(
        vec.cap(),
        20,
        "`RawVev::reserve` cap was not `20` when 1 was added with space left",
    );
    vec.reserve(20, 1);
    assert_eq!(
        vec.cap(),
        40,
        "`RawVev::reserve` cap was not `40` when 1 was added with no space left",
    );
}

#[test]
fn lib_test_vec_list() {
    let list = VecList::<i32>::new();

    assert_eq!(list.capacity(), 0, "`VecList::new()` incorrect capacity",);
    assert_eq!(list.len(), 0, "`VecList::new()` created with incorrect length",);

    let mut list = VecList::<i32>::with_capacity(2);

    assert_eq!(
        list.capacity(),
        2,
        "`VecList::with_capacity(2,)` created with incorrect capacity",
    );
    assert_eq!(
        list.len(),
        0,
        "`VecList::with_capacity(2,)` created with incorrect length",
    );

    list.reserve(1);
    assert_eq!(list.capacity(), 2, "`VecList::reserve(1,)` incorrect capacity",);
    list.reserve(2);
    assert_eq!(list.capacity(), 2, "`VecList::reserve(2,)` incorrect capacity",);

    list.reserve(3);
    assert_eq!(list.capacity(), 4, "`VecList::reserve(3,)` incorrect capacity",);

    list.reserve_exact(6);
    assert_eq!(list.capacity(), 10, "`VecList::reserve_exact(6,)` incorrect capacity",);

    for i in 1..3 {
        list.push_back(i);
    }
    list.push_front(0);
    assert_eq!(list.len(), 3, "`VecList::push_(front/back)` did not increment the length",);

    assert_eq!(list.pop_back(), Some(2), "`VecList::pop_back` returned incorrect result",);
    assert_eq!(list.len(), 2, "`VecList::pop_front` did not decrement the length.",);

    assert_eq!(list.pop_front(), Some(0), "`VecList::pop_front` returned incorrect result",);
    assert_eq!(list.len(), 1, "`VecList::pop_back` did not decrement the length.",);

    list.clear();
    assert_eq!(list.capacity(), 10, "`VecList::clear` changed the capacity",);
    assert_eq!(list.len(), 0, "`VecList::clear` did not empty the list",);
}

#[test]
fn tests_test_vec_list() {
    let list = VecList::<u8>::new();
    assert_eq!(list.len(), 0, "`VecList::new` initialised non empty",);
    let capacity = 10;
    let mut list = VecList::<u8>::with_capacity(capacity);

    assert_eq!(
        list.capacity(),
        capacity,
        "`VecList::with_capacity` initialised with wrong capacity",
    );
    assert_eq!(list.front(), None, "`VecList::front` initialised with front value",);
    assert_eq!(list.back(), None, "`VecList::back` initialised with front value",);

    list.push_front(1);
    assert_eq!(list.front(), Some(&1), "`VecList::push_front` did not push value",);

    list.push_back(2);
    assert_eq!(list.back(), Some(&2), "`VecList::push_back` did not push value",);

    list.push_front(0);
    assert_eq!(
        list.front(),
        Some(&0),
        "`VecList::push_front` did not push value to correct end",
    );
    assert_eq!(
        collect_fwd(&list),
        vec![0, 1, 2],
        "`VecList::iter` did not iterate correctly.",
    );
    let mut rev = Vec::new();
    let mut it = list.iter();
    while let Some(x) = it.next_back() {
        rev.push(*x);
    }
    assert_eq!(rev, vec![2, 1, 0], "`VecList::iter` did not iterate correctly.",);

    assert_eq!(list.len(), 3, "`VecList::len` length was not tracked across pushes properly",);

    assert_eq!(list.pop_front(), Some(0), "`VecList::pop_front` did not pop the correct value",);
    assert_eq!(list.pop_back(), Some(2), "`VecList::pop_back` did not pop the correct value",);
    assert_eq!(list.len(), 1, "`VecList::len` length was not tracked across pops properly",);

    list.shrink_to_fit();
    assert_eq!(list.len(), 1, "`VecList::shink_to_fit` altered length",);
    assert_eq!(
        list.len(),
        list.capacity(),
        "`VecList::shink_to_fit` did not shink to minimum size",
    );

    let mut list2 = VecList::<i32>::from_vec(vec![0, 1, 2, 3]);

    list2.retain(|i: i32| (i, i % 2 == 0));
    assert_eq!(
        collect_fwd(&list2),
        vec![0, 2],
        "`VecList::retain` did not retain proper values"
    );

    list2.clear();
    assert!(list2.is_empty(), "`VecList::clear` did not clear all values");
}

#[test]
fn push_pop_interleaving_tracks_length_and_ends() {
    let mut list = VecList::<u32>::new();
    assert_eq!(list.len(), 0);
    list.push_back(1);
    list.push_front(2);
    list.push_back(3);
    assert_eq!(list.len(), 3);
    assert_eq!(list.front(), Some(&2));
    assert_eq!(list.back(), Some(&3));
    assert_eq!(list.pop_front(), Some(2));
    assert_eq!(list.len(), 2);
    list.push_front(4);
    assert_eq!(list.len(), 3);
    assert_eq!(list.front(), Some(&4));
    assert_eq!(list.pop_back(), Some(3));
    assert_eq!(list.pop_back(), Some(1));
    assert_eq!(list.pop_back(), Some(4));
    assert_eq!(list.len(), 0);
    assert_eq!(list.front(), None);
    assert_eq!(list.back(), None);
}

#[test]
fn pop_front_on_empty_list_returns_none_and_keeps_state() {
    let mut list = VecList::<u8>::new();
    assert_eq!(list.pop_front(), None);
    assert_eq!(list.len(), 0);
    assert_eq!(list.pop_front(), None);
    assert_eq!(list.len(), 0);
}

#[test]
fn rebuilding_from_collected_elements_gives_equal_list() {
    let list = VecList::<u16>::from_vec(vec![5, 9, 1, 7]);
    let collected = list.to_vec();
    assert_eq!(collected, vec![5, 9, 1, 7]);
    let rebuilt = VecList::from_vec(collected);
    assert_eq!(rebuilt.to_vec(), list.to_vec());
    assert_eq!(rebuilt.len(), list.len());
}

#[test]
fn shrink_to_fit_twice_equals_once() {
    let mut list = VecList::<u8>::with_capacity(32);
    for i in 0..6 {
        list.push_back(i);
    }
    for _ in 0..3 {
        list.pop_front();
    }
    list.push_back(100);
    list.shrink_to_fit();
    let cap_once = list.capacity();
    let contents_once = list.to_vec();
    list.shrink_to_fit();
    assert_eq!(list.capacity(), cap_once);
    assert_eq!(list.to_vec(), contents_once);
    assert_eq!(cap_once, 4);
    assert_eq!(contents_once, vec![3, 4, 5, 100]);
}

#[test]
fn shrink_to_fit_compacts_after_front_pops() {
    let mut list = VecList::<u8>::from_vec(vec![0, 1, 2, 3, 4, 5]);
    list.pop_front();
    list.pop_front();
    list.push_back(6);
    list.shrink_to_fit();
    assert_eq!(list.capacity(), 5);
    assert_eq!(list.len(), 5);
    assert_eq!(list.to_vec(), vec![2, 3, 4, 5, 6]);
    assert_eq!(list.pop_front(), Some(2));
    assert_eq!(list.pop_back(), Some(6));
}

#[test]
fn insert_remove_get_positional() {
    let mut list = VecList::<u8>::from_vec(vec![10, 30]);
    list.insert(1, 20);
    assert_eq!(list.to_vec(), vec![10, 20, 30]);
    list.insert(0, 5);
    list.insert(4, 40);
    assert_eq!(list.to_vec(), vec![5, 10, 20, 30, 40]);
    assert_eq!(list.get(2), Some(&20));
    assert_eq!(list.get(5), None);
    assert_eq!(list.remove(2), 20);
    assert_eq!(list.to_vec(), vec![5, 10, 30, 40]);
    *list.get_mut(1) = 11;
    assert_eq!(list.to_vec(), vec![5, 11, 30, 40]);
    *list.front_mut() = 6;
    *list.back_mut() = 41;
    assert_eq!(list.to_vec(), vec![6, 11, 30, 41]);
}

#[test]
fn split_at_moves_tail_into_new_list() {
    let mut list = VecList::<u8>::from_vec(vec![1, 2, 3, 4, 5]);
    let tail = list.split_at(2);
    assert_eq!(list.to_vec(), vec![1, 2]);
    assert_eq!(tail.to_vec(), vec![3, 4, 5]);
    let mut list2 = VecList::<u8>::from_vec(vec![7]);
    let all = list2.split_at(0);
    assert_eq!(list2.len(), 0);
    assert_eq!(all.to_vec(), vec![7]);
}

#[test]
fn contains_finds_values() {
    let list = VecList::<u8>::from_vec(vec![3, 1, 4]);
    assert!(list.contains(&4));
    assert!(list.contains(&3));
    assert!(!list.contains(&2));
    let empty = VecList::<u8>::new();
    assert!(!empty.contains(&0));
}

#[test]
fn extend_appends_in_order() {
    let mut list = VecList::<u8>::from_vec(vec![1, 2]);
    list.extend_from_vec(vec![3, 4, 5]);
    assert_eq!(list.to_vec(), vec![1, 2, 3, 4, 5]);
    list.extend_from_vec(vec![]);
    assert_eq!(list.to_vec(), vec![1, 2, 3, 4, 5]);
}

#[test]
fn default_is_empty() {
    let list: VecList<u8> = Default::default();
    assert_eq!(list.len(), 0);
    assert_eq!(list.capacity(), 0);
}

#[test]
fn reserve_credits_free_slots() {
    let mut list = VecList::<u8>::with_capacity(2);
    list.push_back(1);
    list.push_back(2);
    list.pop_front();
    list.reserve(1);
    assert_eq!(list.capacity(), 2, "a free slot should satisfy the reservation");
    list.reserve(2);
    assert_eq!(list.capacity(), 4, "one more slot than fits must double the capacity");
    list.reserve_exact(5);
    assert_eq!(list.capacity(), 8, "exact reservation should add only the shortfall");
}

#[test]
fn shrink_to_fit_on_empty_list() {
    let mut list = VecList::<u8>::with_capacity(16);
    list.push_back(1);
    list.pop_back();
    list.shrink_to_fit();
    assert_eq!(list.capacity(), 0);
    assert_eq!(list.len(), 0);
    list.push_back(9);
    assert_eq!(list.to_vec(), vec![9]);
}

#[test]
fn split_at_boundaries() {
    let mut list = VecList::<u8>::from_vec(vec![1, 2, 3]);
    let tail = list.split_at(3);
    assert_eq!(list.to_vec(), vec![1, 2, 3]);
    assert_eq!(tail.len(), 0);
}

#[test]
fn slots_are_recycled_before_the_arena_grows() {
    let mut list = VecList::<u8>::with_capacity(3);
    list.push_back(1);
    list.push_back(2);
    list.push_back(3);
    list.pop_front();
    list.pop_back();
    list.push_back(4);
    list.push_front(5);
    assert_eq!(list.capacity(), 3, "recycled slots should satisfy new insertions");
    assert_eq!(list.to_vec(), vec![5, 2, 4]);
}
