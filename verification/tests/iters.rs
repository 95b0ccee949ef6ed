use vec_list::iter::new_iter;
use vec_list::iter::new_iter_mut;
use vec_list::VecList;

#[test]
fn test_vec_list_iter() {
    let list = VecList::<u8>::from_vec(vec![0, 1, 2, 3]);

    let mut fwd: Vec<&u8> = Vec::new();
    let mut it = new_iter(&list);
    while let Some(x) = it.next() {
        fwd.push(x);
    }
    assert_eq!(fwd, vec![&0, &1, &2, &3], "`VecList::iter` did not iterate correctly.",);

    let mut rev: Vec<&u8> = Vec::new();
    let mut it = new_iter(&list);
    while let Some(x) = it.next_back() {
        rev.push(x);
    }
    assert_eq!(rev, vec![&3, &2, &1, &0], "`VecList::iter` did not iterate correctly.",);
}

#[test]
fn test_vec_list_iter_mut() {
    let mut list = VecList::<u8>::from_vec(vec![0, 1, 2, 3]);

    let mut im = new_iter_mut(&list);
    while let Some(i) = im.next(&mut list) {
        *i += 1;
    }
    let mut seen: Vec<&u8> = Vec::new();
    let mut it = list.iter();
    while let Some(x) = it.next() {
        seen.push(x);
    }
    assert_eq!(seen, vec![&1, &2, &3, &4], "`VecList::iter_mut` did not iterate correctly.",);
}

#[test]
fn iter_mut_back_to_front() {
    let mut list = VecList::<u8>::from_vec(vec![1, 2, 3]);
    let mut im = list.iter_mut();
    let mut doubled: Vec<u8> = Vec::new();
    while let Some(m) = im.next_back(&mut list) {
        *m *= 2;
        doubled.push(*m);
    }
    assert_eq!(doubled, vec![6, 4, 2]);
    assert_eq!(list.to_vec(), vec![2, 4, 6]);
}

#[test]
fn iter_can_be_advanced_from_both_ends() {
    let list = VecList::<u8>::from_vec(vec![0, 1, 2, 3, 4]);
    let mut it = list.iter();
    assert_eq!(it.remaining(), 5);
    assert_eq!(it.next(), Some(&0));
    assert_eq!(it.next_back(), Some(&4));
    assert_eq!(it.remaining(), 3);
    assert_eq!(it.next(), Some(&1));
    assert_eq!(it.next(), Some(&2));
    assert_eq!(it.next(), Some(&3));
    assert_eq!(it.remaining(), 0);
    assert_eq!(it.next(), None);
    assert_eq!(it.next_back(), None);
}

#[test]
fn iter_mut_remaining_counts_the_range() {
    let mut list = VecList::<u8>::from_vec(vec![9, 8, 7]);
    let mut im = list.iter_mut();
    assert_eq!(im.remaining(&list), 3);
    let _ = im.next(&mut list);
    assert_eq!(im.remaining(&list), 2);
    let _ = im.next_back(&mut list);
    let _ = im.next(&mut list);
    assert_eq!(im.remaining(&list), 0);
}
