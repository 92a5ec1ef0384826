use spinlocks::list::LinkedList;

#[test]
fn test_new_list_is_empty() {
    let list: LinkedList<i32> = LinkedList::new();
    assert!(list.is_empty());
}

#[test]
fn test_push_front() {
    let mut list = LinkedList::new();
    list.push_front(1);
    assert!(!list.is_empty());
}

#[test]
fn test_pop_front() {
    let mut list = LinkedList::new();
    list.push_front(1);
    list.push_front(2);
    assert_eq!(list.pop_front(), Some(2));
    assert_eq!(list.pop_front(), Some(1));
    assert_eq!(list.pop_front(), None);
}

#[test]
fn test_multiple_operations() {
    let mut list = LinkedList::new();
    assert!(list.is_empty());

    list.push_front(1);
    list.push_front(2);
    list.push_front(3);
    assert!(!list.is_empty());

    assert_eq!(list.pop_front(), Some(3));
    assert_eq!(list.pop_front(), Some(2));
    assert!(!list.is_empty());

    list.push_front(4);
    assert_eq!(list.pop_front(), Some(4));
    assert_eq!(list.pop_front(), Some(1));
    assert!(list.is_empty());
}
