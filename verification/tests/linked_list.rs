use substrate_lessons::linked_list::{LinkedItem, LinkedList};

#[test]
fn append_and_remove_keep_the_ring() {
    let mut l = LinkedList::new();
    assert_eq!(l.get(1, None), None);
    l.append(1, 10);
    assert_eq!(l.get(1, None), Some(LinkedItem { prev: Some(10), next: Some(10) }));
    assert_eq!(l.get(1, Some(10)), Some(LinkedItem { prev: None, next: None }));
    l.append(1, 20);
    l.append(1, 30);
    l.append(2, 10);
    assert!(l.contains(1, 20));
    assert!(l.contains(2, 10));
    assert!(!l.contains(2, 20));
    assert_eq!(l.get(1, None), Some(LinkedItem { prev: Some(30), next: Some(10) }));
    assert_eq!(l.get(1, Some(20)), Some(LinkedItem { prev: Some(10), next: Some(30) }));

    l.remove(1, 10);
    assert_eq!(l.get(1, Some(10)), None);
    assert_eq!(l.get(1, None), Some(LinkedItem { prev: Some(30), next: Some(20) }));
    assert_eq!(l.get(1, Some(20)), Some(LinkedItem { prev: None, next: Some(30) }));
    l.remove(1, 30);
    assert_eq!(l.get(1, None), Some(LinkedItem { prev: Some(20), next: Some(20) }));
    assert_eq!(l.get(1, Some(20)), Some(LinkedItem { prev: None, next: None }));
    // Removing what is not there changes nothing.
    l.remove(1, 99);
    assert_eq!(l.get(1, None), Some(LinkedItem { prev: Some(20), next: Some(20) }));
    l.remove(1, 20);
    // The emptied head stays stored, with no neighbours.
    assert_eq!(l.get(1, None), Some(LinkedItem { prev: None, next: None }));
    assert!(!l.contains(1, 20));
    // The other account's list is untouched.
    assert_eq!(l.get(2, None), Some(LinkedItem { prev: Some(10), next: Some(10) }));
}
