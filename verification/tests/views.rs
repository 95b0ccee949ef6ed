use vec_list::view::new_view;
use vec_list::view_mut::new_view_mut;
use vec_list::VecList;

#[test]
fn test_view() {
    let list = {
        let mut list = VecList::<u8>::new();

        list.extend_from_vec((0..=10).collect());
        list
    };

    assert_eq!(*list.view_at(10).as_ref(), 10, "`VecList::view` got wrong value 1",);
    assert_eq!(*list.view_at(0).as_ref(), 0, "`VecList::view` got wrong value 2",);

    let view = list.view_at(3);
    assert_eq!(*view.value(), 3, "`VecList::view` got wrong value 3",);
    assert_eq!(
        *view.next().expect("Failed to get next value").value(),
        4,
        "`View::next` got wrong value",
    );
    assert_eq!(
        *view.prev().expect("Failed to get prev value").value(),
        2,
        "`View::prev` got wrong value",
    );
}

#[test]
fn test_view_mut() {
    let mut list = VecList::<u8>::new();

    list.extend_from_vec((0..=10).collect());

    assert_eq!(*list.view_mut(10).value(&list), 10, "`VecList::view` got wrong value 1",);
    assert_eq!(*list.view_mut(0).value(&list), 0, "`VecList::view` got wrong value 2",);

    let mut view = list.view_mut(3);
    assert_eq!(*view.value(&list), 3, "`VecList::view` got wrong value 3",);
    assert!(view.next(&list), "Failed to get next value");
    assert_eq!(*view.value(&list), 4, "`View::next` got wrong value",);
    assert!(view.prev(&list), "Failed to get prev value");
    assert_eq!(*view.value(&list), 3, "`View::prev` got wrong value",);

    let value = view.pop_before(&mut list).expect("`VecList::pop_before` did not return a value");
    assert_eq!(value, 2, "`VecList::pop_before` did not return the expected value",);
    view.insert_before(&mut list, value);
    assert!(view.prev(&list), "Failed to get prev value");
    assert_eq!(*view.value(&list), 2, "`View::insert_before` inserted value wrong",);

    let value = view.pop_after(&mut list).expect("`VecList::pop_after` did not return a value");
    assert_eq!(value, 3, "`VecList::pop_after` did not return the expected value",);
    view.insert_after(&mut list, value);
    assert!(view.next(&list), "Failed to get ext value");
    assert_eq!(*view.value(&list), 3, "`View::insert_after` inserted value wrong",);
}

#[test]
fn view_walks_from_a_middle_position() {
    let list = VecList::<u8>::from_vec(vec![0, 1, 2, 3, 4]);
    let view = new_view(&list, 2);
    assert_eq!(*view.value(), 2);
    assert_eq!(*view.next().expect("next failed").value(), 3);
    assert_eq!(*view.prev().expect("prev failed").value(), 1);
    let front = new_view(&list, 0);
    assert!(front.prev().is_none());
    assert_eq!(*front.value(), 0);
    let back = new_view(&list, 4);
    assert!(back.next().is_none());
}

#[test]
fn view_mut_edits_both_sides_and_deletes() {
    let mut list = VecList::<u8>::from_vec(vec![1, 2, 3]);
    let mut vm = new_view_mut(&list, 1);
    vm.insert_before(&mut list, 10);
    assert_eq!(list.to_vec(), vec![1, 10, 2, 3]);
    vm.insert_after(&mut list, 20);
    assert_eq!(list.to_vec(), vec![1, 10, 2, 20, 3]);
    assert_eq!(vm.pop_before(&mut list), Some(10));
    assert_eq!(vm.pop_after(&mut list), Some(20));
    assert_eq!(list.to_vec(), vec![1, 2, 3]);
    assert_eq!(vm.delete(&mut list), 2);
    assert_eq!(list.to_vec(), vec![1, 3]);
}

#[test]
fn view_mut_boundary_edits_update_ends() {
    let mut list = VecList::<u8>::from_vec(vec![5]);
    let mut vm = list.view_mut(0);
    vm.insert_before(&mut list, 4);
    vm.insert_after(&mut list, 6);
    assert_eq!(list.front(), Some(&4));
    assert_eq!(list.back(), Some(&6));
    assert_eq!(vm.pop_before(&mut list), Some(4));
    assert_eq!(list.front(), Some(&5));
    let vm2 = list.view_mut(0);
    *vm2.as_mut(&mut list) = 50;
    assert_eq!(list.to_vec(), vec![50, 6]);
    let boundary = list.view_mut(0);
    let mut probe = boundary;
    assert!(!probe.prev(&list));
    assert_eq!(*probe.value(&list), 50);
}
