//! A singly linked list with a front end for pushing and popping.
use vstd::prelude::*;

verus! {

struct Node<T> {
    data: T,
    next: Option<Box<Node<T>>>,
}

/// Elements of the chain that starts at `link`, front first.
closed spec fn chain_view<T>(link: Option<Box<Node<T>>>) -> Seq<T>
    decreases link,
{
    match link {
        None => Seq::empty(),
        Some(node) => seq![node.data].add(chain_view(node.next)),
    }
}

/// A singly linked list; its view is the sequence of its elements, front first.
pub struct LinkedList<T> {
    head: Option<Box<Node<T>>>,
}

impl<T> LinkedList<T> {
    pub closed spec fn view(&self) -> Seq<T> {
        chain_view(self.head)
    }

    /// An empty list.
    pub fn new() -> (r: LinkedList<T>)
        ensures
            r@ == Seq::<T>::empty(),
    {
        LinkedList { head: None }
    }

    /// Puts `data` at the front.
    pub fn push_front(&mut self, data: T)
        ensures
            final(self)@ == seq![data].add(old(self)@),
    {
        let next = self.head.take();
        self.head = Some(Box::new(Node { data, next }));
    }

    /// Removes and returns the front element, or `None` on an empty list.
    pub fn pop_front(&mut self) -> (r: Option<T>)
        ensures
            old(self)@.len() == 0 ==> r is None && final(self)@ == old(self)@,
            old(self)@.len() > 0 ==> r == Some(old(self)@[0]) && final(self)@ == old(self)@.drop_first(),
    {
        match self.head.take() {
            None => None,
            Some(node) => {
                let node = *node;
                self.head = node.next;
                assert(old(self)@ == seq![node.data].add(chain_view(self.head)));
                assert(old(self)@.drop_first() =~= chain_view(self.head));
                Some(node.data)
            },
        }
    }

    /// Whether the list holds no element.
    pub fn is_empty(&self) -> (r: bool)
        ensures
            r == (self@.len() == 0),
    {
        self.head.is_none()
    }
}

} // verus!
