use vstd::prelude::*;
use std::rc::Rc;

verus! {

/// A cell of the shared chain: one element and the link to the rest.
pub struct Node<T> {
    value: T,
    next: Option<Rc<Node<T>>>,
}

/// A persistent stack: every version keeps its contents, and versions share
/// their common suffix through reference-counted links.
pub struct PersistentStack<T> {
    head: Option<Rc<Node<T>>>,
}

/// The elements reachable from a link, first element first.
pub closed spec fn chain_view<T>(link: Option<Rc<Node<T>>>) -> Seq<T>
    decreases link,
{
    match link {
        None => Seq::empty(),
        Some(node) => seq![node.value].add(chain_view(node.next)),
    }
}

impl<T> View for PersistentStack<T> {
    type V = Seq<T>;

    closed spec fn view(&self) -> Seq<T> {
        chain_view(self.head)
    }
}

/// The stack that results from putting `value` in front of `items`.
pub open spec fn spec_prepend<T>(items: Seq<T>, value: T) -> Seq<T> {
    seq![value].add(items)
}

/// The first element, if any.
pub open spec fn spec_first<T>(items: Seq<T>) -> Option<T> {
    if items.len() == 0 {
        None
    } else {
        Some(items[0])
    }
}

/// Everything after the first element; the empty stack is its own tail.
pub open spec fn spec_tail<T>(items: Seq<T>) -> Seq<T> {
    if items.len() == 0 {
        items
    } else {
        items.drop_first()
    }
}

/// Calls `Rc::clone`, which makes another handle to the same allocation, so
/// the handle it returns denotes the same value.
#[verifier::external_body]
fn share<T>(link: &Rc<T>) -> (copy: Rc<T>)
    ensures
        copy == *link,
{
    Rc::clone(link)
}

/// Calls `Rc::try_unwrap`, which hands the node out when this handle is its
/// only strong owner and otherwise returns the handle unchanged; it never
/// panics.
#[verifier::external_body]
fn unwrap_unique<T>(link: Rc<Node<T>>) -> (result: Result<Node<T>, Rc<Node<T>>>)
    ensures
        match result {
            Ok(node) => node == *link,
            Err(shared) => shared == link,
        },
    opens_invariants none
    no_unwind
{
    Rc::try_unwrap(link)
}

fn clone_link<T>(link: &Option<Rc<Node<T>>>) -> (copy: Option<Rc<Node<T>>>)
    ensures
        copy == *link,
{
    match link {
        None => None,
        Some(node) => Some(share(node)),
    }
}

impl<T> Clone for PersistentStack<T> {
    /// Clones the root handle only; the elements are shared, not copied.
    fn clone(&self) -> (copy: Self)
        ensures
            copy@ == self@,
    {
        PersistentStack { head: clone_link(&self.head) }
    }
}

impl<T> PersistentStack<T> {
    /// The empty stack.
    pub fn new() -> (stack: Self)
        ensures
            stack@ == Seq::<T>::empty(),
    {
        PersistentStack { head: None }
    }

    /// A new version with `value` in front; `self` keeps its contents and the
    /// new version shares them as its tail.
    pub fn prepend(&self, value: T) -> (stack: Self)
        ensures
            stack@ == spec_prepend(self@, value),
    {
        let next = clone_link(&self.head);
        PersistentStack { head: Some(Rc::new(Node { value, next })) }
    }

    /// A borrow of the first element, or `None` for the empty stack.
    pub fn first(&self) -> (first: Option<&T>)
        ensures
            match spec_first(self@) {
                None => first is None,
                Some(x) => first is Some && *first->0 == x,
            },
    {
        match &self.head {
            None => None,
            Some(node) => Some(&node.value),
        }
    }

    /// The version without the first element; the tail of the empty stack
    /// is empty.
    pub fn tail(&self) -> (stack: Self)
        ensures
            stack@ == spec_tail(self@),
    {
        match &self.head {
            None => PersistentStack { head: None },
            Some(node) => PersistentStack { head: clone_link(&node.next) },
        }
    }

    /// Borrows every element, first element first.
    pub fn iter(&self) -> (items: std::vec::IntoIter<&T>)
        ensures
            vstd::std_specs::vec::into_iter_elts(items) == self@.as_ref(),
    {
        let mut collected: Vec<&T> = Vec::new();
        let mut cursor: &Option<Rc<Node<T>>> = &self.head;
        loop
            invariant
                collected@.unref() + chain_view(*cursor) == self@,
            ensures
                collected@.unref() == self@,
            decreases *cursor,
        {
            match cursor {
                None => {
                    assert(collected@.unref() + Seq::<T>::empty() == collected@.unref());
                    break;
                },
                Some(node) => {
                    collected.push(&node.value);
                    cursor = &node.next;
                },
            }
        }
        assert(collected@ == self@.as_ref());
        collected.into_iter()
    }
}

/// The empty stack has no first element.
pub proof fn law_first_of_empty<T>()
    ensures
        spec_first(Seq::<T>::empty()) == None::<T>,
{
}

/// The tail of the empty stack is the empty stack.
pub proof fn law_tail_of_empty<T>()
    ensures
        spec_tail(Seq::<T>::empty()) == Seq::<T>::empty(),
{
}

/// After prepending `x`, the first element is `x`.
pub proof fn law_first_of_prepend<T>(items: Seq<T>, x: T)
    ensures
        spec_first(spec_prepend(items, x)) == Some(x),
{
}

/// After prepending `x`, the tail is the original stack.
pub proof fn law_tail_of_prepend<T>(items: Seq<T>, x: T)
    ensures
        spec_tail(spec_prepend(items, x)) == items,
{
    assert(spec_prepend(items, x).drop_first() =~= items);
}

/// Releases the uniquely owned prefix of the chain one node at a time and
/// stops at the first node that another version still shares. The stack
/// is left empty.
fn release<T>(stack: &mut PersistentStack<T>)
    ensures
        final(stack)@ == Seq::<T>::empty(),
    opens_invariants none
    no_unwind
{
    let mut current: Option<Rc<Node<T>>> = None;
    std::mem::swap(&mut current, &mut stack.head);
    loop
        decreases current,
    {
        match current {
            None => break,
            Some(link) => match unwrap_unique(link) {
                Ok(mut owned) => {
                    let mut rest: Option<Rc<Node<T>>> = None;
                    std::mem::swap(&mut rest, &mut owned.next);
                    current = rest;
                },
                Err(_) => break,
            },
        }
    }
}

impl<T> Drop for PersistentStack<T> {
    fn drop(&mut self)
        opens_invariants none
        no_unwind
    {
        release(self);
    }
}

} // verus!
