use bootcore::intrusive_linked_list::IntrusiveLinkedList;

#[test]
fn test_push_and_pop() {
    let mut list = IntrusiveLinkedList::new();
    assert!(list.is_none());
    assert_eq!(list.pop(), None);

    let ptr1: usize = 0x1000;
    let ptr2: usize = 0x2000;

    list.push(ptr1);
    list.push(ptr2);

    assert!(!list.is_none());
    assert_eq!(list.size(), 2);

    assert_eq!(list.pop(), Some(ptr2));
    assert_eq!(list.pop(), Some(ptr1));
    assert_eq!(list.pop(), None);
    assert!(list.is_none());
}

#[test]
fn test_push_back() {
    let mut list = IntrusiveLinkedList::new();

    let ptr1: usize = 0x1000;
    let ptr2: usize = 0x2000;
    let ptr3: usize = 0x3000;

    // Push back to empty list
    list.push_back(ptr1);
    assert_eq!(list.size(), 1);
    assert_eq!(list.pop(), Some(ptr1));
    assert!(list.is_none());

    // Push back to non-empty list
    list.push_back(ptr1);
    list.push_back(ptr2);
    list.push_back(ptr3);

    assert_eq!(list.size(), 3);
    // The list should be ptr1 -> ptr2 -> ptr3
    assert_eq!(list.pop(), Some(ptr1));
    assert_eq!(list.pop(), Some(ptr2));
    assert_eq!(list.pop(), Some(ptr3));
    assert!(list.is_none());
}

#[test]
fn test_remove_if() {
    let mut list = IntrusiveLinkedList::new();

    let ptr1: usize = 0x1000;
    let ptr2: usize = 0x2000;
    let ptr3: usize = 0x3000;

    list.push(ptr3);
    list.push(ptr2);
    list.push(ptr1);

    // Remove next
    assert!(list.remove_if(ptr1));

    assert_eq!(list.size(), 2);
    assert_eq!(list.pop(), Some(ptr2));
    assert_eq!(list.pop(), Some(ptr3));

    // Reset list
    list.push(ptr3);
    list.push(ptr2);
    list.push(ptr1);

    // Remove middle
    assert!(list.remove_if(ptr2));

    assert_eq!(list.size(), 2);
    assert_eq!(list.pop(), Some(ptr1));
    assert_eq!(list.pop(), Some(ptr3));

    // Reset list
    list.push(ptr3);
    list.push(ptr2);
    list.push(ptr1);

    // Remove tail
    assert!(list.remove_if(ptr3));

    assert_eq!(list.size(), 2);
    assert_eq!(list.pop(), Some(ptr1));
    assert_eq!(list.pop(), Some(ptr2));

    // Remove non-existent
    assert!(!list.remove_if(0xdeadbeef));
}

#[test]
fn test_add_with_sort() {
    let mut list = IntrusiveLinkedList::new();

    // ptrs are sorted by address
    let ptr1: usize = 0x1000;
    let ptr2: usize = 0x1008;
    let ptr3: usize = 0x1010;
    let ptr4: usize = 0x1018;

    // Add to empty list
    list.add_with_sort(ptr2);
    assert_eq!(list.size(), 1);
    assert_eq!(list.get_next().unwrap(), ptr2);

    // Add smaller to next
    list.add_with_sort(ptr1);
    assert_eq!(list.size(), 2);
    assert_eq!(list.get_next().unwrap(), ptr1);

    // Add to end
    list.add_with_sort(ptr4);
    assert_eq!(list.size(), 3);

    // Add to middle
    list.add_with_sort(ptr3);
    assert_eq!(list.size(), 4);

    // Check final order
    assert_eq!(list.pop(), Some(ptr1));
    assert_eq!(list.pop(), Some(ptr2));
    assert_eq!(list.pop(), Some(ptr3));
    assert_eq!(list.pop(), Some(ptr4));
    assert!(list.is_none());
}

#[test]
fn remove_if_takes_first_of_equal_blocks() {
    let mut list = IntrusiveLinkedList::new();
    list.push_back(0x10);
    list.push_back(0x20);
    list.push_back(0x10);
    assert!(list.remove_if(0x10));
    assert_eq!(list.size(), 2);
    assert_eq!(list.get(0), 0x20);
    assert_eq!(list.get(1), 0x10);
    assert_eq!(list.get_next(), Some(0x20));
}

#[test]
fn add_with_sort_goes_behind_equal_blocks() {
    let mut list = IntrusiveLinkedList::new();
    list.add_with_sort(0x30);
    list.add_with_sort(0x10);
    list.add_with_sort(0x30);
    list.add_with_sort(0x20);
    assert_eq!(list.size(), 4);
    assert_eq!(
        (list.get(0), list.get(1), list.get(2), list.get(3)),
        (0x10, 0x20, 0x30, 0x30)
    );
    assert_eq!(IntrusiveLinkedList::new().get_next(), None);
}
