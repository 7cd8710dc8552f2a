use std::cell::Cell;
use std::rc::Rc;

use functional_rust::persistent_stack::PersistentStack;

struct Payload(Rc<Cell<usize>>);

impl Drop for Payload {
    fn drop(&mut self) {
        self.0.set(self.0.get() + 1);
    }
}

#[test]
fn cloned_versions_share_non_clone_payloads_until_the_last_owner_drops() {
    let dropped = Rc::new(Cell::new(0));
    let stack = PersistentStack::new().prepend(Payload(Rc::clone(&dropped)));
    let snapshot = stack.clone();
    assert!(std::ptr::eq(
        stack.first().unwrap(),
        snapshot.first().unwrap()
    ));
    drop(stack);
    assert_eq!(dropped.get(), 0);
    drop(snapshot);
    assert_eq!(dropped.get(), 1);
}

#[test]
fn a_long_unique_chain_is_reclaimed_without_recursive_node_destruction() {
    let dropped = Rc::new(Cell::new(0));
    let mut stack = PersistentStack::new();
    for _ in 0..100_000 {
        stack = stack.prepend(Payload(Rc::clone(&dropped)));
    }
    assert_eq!(stack.iter().count(), 100_000);
    drop(stack);
    assert_eq!(dropped.get(), 100_000);
}

#[test]
fn versions_keep_their_contents_after_prepending() {
    let base = PersistentStack::new().prepend(10).prepend(20);
    let snapshot = base.clone();
    let extended = base.prepend(30);

    assert_eq!(base.iter().copied().collect::<Vec<_>>(), vec![20, 10]);
    assert_eq!(snapshot.iter().copied().collect::<Vec<_>>(), vec![20, 10]);
    assert_eq!(
        extended.iter().copied().collect::<Vec<_>>(),
        vec![30, 20, 10]
    );
    assert_eq!(extended.tail().first(), Some(&20));
    assert_eq!(PersistentStack::<u8>::new().first(), None);
}

#[test]
fn tail_of_empty_is_empty_and_first_of_prepend_is_the_new_element() {
    let empty = PersistentStack::<u8>::new();
    assert_eq!(empty.tail().iter().count(), 0);
    let one = empty.prepend(7);
    assert_eq!(one.first(), Some(&7));
    assert_eq!(one.tail().iter().count(), 0);
}
