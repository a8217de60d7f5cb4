//! A singly linked list that owns its items.

use vstd::prelude::*;
use vstd::std_specs::cmp::PartialEqSpec;
use vstd::string::to_string_from_display_ensures;

verus! {

/// One item of a list and the link to those behind it.
pub struct Node<T> {
    value: T,
    next: Option<Box<Node<T>>>,
}

/// A list of items; the front is where items enter and leave.
pub struct LinkedList<T> {
    head: Option<Box<Node<T>>>,
    size: usize,
}

/// Hands out the items of a list, front first, by value.
pub struct IntoIter<T> {
    cur: Option<Box<Node<T>>>,
}

/// Hands out the items of a list, front first, by reference.
pub struct Iter<'a, T> {
    cur: &'a Option<Box<Node<T>>>,
}

/// The items reachable from `link`, nearest first.
spec fn chain<T>(link: Option<Box<Node<T>>>) -> Seq<T>
    decreases link,
{
    match link {
        None => Seq::empty(),
        Some(node) => seq![node.value] + chain(node.next),
    }
}

impl<T> Node<T> {
    /// The item that the node holds.
    pub closed spec fn item(self) -> T {
        self.value
    }

    /// The link to the nodes behind this one.
    pub closed spec fn rest(self) -> Option<Box<Node<T>>> {
        self.next
    }

    /// A node that holds `value` in front of `next`.
    pub fn new(value: T, next: Option<Box<Node<T>>>) -> (node: Node<T>)
        ensures
            node.item() == value,
            node.rest() == next,
    {
        Node { value, next }
    }
}

impl<T> View for LinkedList<T> {
    type V = Seq<T>;

    closed spec fn view(&self) -> Seq<T> {
        chain(self.head)
    }
}

impl<T> View for IntoIter<T> {
    type V = Seq<T>;

    /// What is still to come.
    closed spec fn view(&self) -> Seq<T> {
        chain(self.cur)
    }
}

impl<'a, T> View for Iter<'a, T> {
    type V = Seq<T>;

    /// What is still to come.
    closed spec fn view(&self) -> Seq<T> {
        chain(*self.cur)
    }
}

impl<T> LinkedList<T> {
    #[verifier::type_invariant]
    spec fn counted(self) -> bool {
        self.size == chain(self.head).len()
    }

    /// A list without items.
    pub fn new() -> (list: LinkedList<T>)
        ensures
            list@ == Seq::<T>::empty(),
    {
        LinkedList { head: None, size: 0 }
    }

    /// How many items the list holds.
    pub fn get_size(&self) -> (n: usize)
        ensures
            n == self@.len(),
    {
        proof {
            use_type_invariant(self);
        }
        self.size
    }

    /// Whether the list holds no item.
    pub fn is_empty(&self) -> (b: bool)
        ensures
            b == (self@.len() == 0),
    {
        self.get_size() == 0
    }

    /// Puts `value` in front of the others.
    pub fn push_front(&mut self, value: T)
        requires
            old(self)@.len() < usize::MAX,
        ensures
            final(self)@ == seq![value] + old(self)@,
    {
        proof {
            use_type_invariant(&*self);
        }
        let mut taken = LinkedList { head: None, size: 0 };
        std::mem::swap(self, &mut taken);
        let LinkedList { head, size } = taken;
        *self = LinkedList { head: Some(Box::new(Node::new(value, head))), size: size + 1 };
    }

    /// Takes the front item out, if there is one.
    pub fn pop_front(&mut self) -> (front: Option<T>)
        ensures
            old(self)@.len() == 0 ==> front is None && final(self)@ == old(self)@,
            old(self)@.len() > 0 ==> front == Some(old(self)@[0]) && final(self)@ == old(
                self,
            )@.drop_first(),
    {
        proof {
            use_type_invariant(&*self);
        }
        let mut taken = LinkedList { head: None, size: 0 };
        std::mem::swap(self, &mut taken);
        let LinkedList { head, size } = taken;
        match head {
            None => None,
            Some(node) => {
                let Node { value, next } = *node;
                assert(chain(next) =~= (seq![value] + chain(next)).drop_first());
                *self = LinkedList { head: next, size: size - 1 };
                Some(value)
            },
        }
    }

    /// Turns the list into a stream of its items, front first.
    pub fn into_iter(self) -> (items: IntoIter<T>)
        ensures
            items@ == self@,
    {
        let LinkedList { head, size: _ } = self;
        IntoIter { cur: head }
    }

    /// A stream of references to the items, front first.
    pub fn iter(&self) -> (items: Iter<'_, T>)
        ensures
            items@ == self@,
    {
        Iter { cur: &self.head }
    }
}

impl<T: Clone> Clone for LinkedList<T> {
    /// A list of clones of the items, in the same order.
    fn clone(&self) -> (copy: Self)
        ensures
            copy@.len() == self@.len(),
            forall|i: int| 0 <= i < self@.len() ==> cloned::<T>(self@[i], #[trigger] copy@[i]),
    {
        proof {
            use_type_invariant(self);
        }
        let mut clones: Vec<T> = Vec::new();
        let mut cur = &self.head;
        loop
            invariant
                clones@.len() <= self@.len(),
                chain(*cur) == self@.skip(clones@.len() as int),
                forall|i: int|
                    0 <= i < clones@.len() ==> cloned::<T>(self@[i], #[trigger] clones@[i]),
            ensures
                clones@.len() == self@.len(),
                forall|i: int|
                    0 <= i < clones@.len() ==> cloned::<T>(self@[i], #[trigger] clones@[i]),
            decreases self@.len() - clones@.len(),
        {
            match cur {
                None => {
                    break ;
                },
                Some(node) => {
                    let ghost k = clones@.len() as int;
                    assert(self@.skip(k)[0] == node.value);
                    assert(chain(node.next) =~= self@.skip(k).drop_first());
                    assert(self@.skip(k).drop_first() =~= self@.skip(k + 1));
                    clones.push(node.value.clone());
                    cur = &node.next;
                },
            }
        }
        let mut copy: LinkedList<T> = LinkedList::new();
        let ghost all = clones@;
        while clones.len() > 0
            invariant
                clones@.len() + copy@.len() == all.len(),
                all.len() == self@.len(),
                self@.len() <= usize::MAX,
                clones@ == all.take(clones@.len() as int),
                copy@ == all.skip(clones@.len() as int),
            decreases clones.len(),
        {
            let item = clones.pop().unwrap();
            copy.push_front(item);
            assert(copy@ =~= all.skip(clones@.len() as int));
            assert(clones@ =~= all.take(clones@.len() as int));
        }
        assert(copy@ =~= all);
        copy
    }
}

impl<T: PartialEq> PartialEq for LinkedList<T> {
    fn eq(&self, other: &Self) -> (same: bool) {
        proof {
            use_type_invariant(self);
            use_type_invariant(other);
        }
        if self.size != other.size {
            return false;
        }
        let mut left = &self.head;
        let mut right = &other.head;
        let ghost mut k: int = 0;
        let mut same = true;
        loop
            invariant_except_break
                same,
            invariant
                0 <= k <= self@.len(),
                self@.len() == other@.len(),
                chain(*left) == self@.skip(k),
                chain(*right) == other@.skip(k),
                T::obeys_eq_spec() ==> forall|j: int|
                    0 <= j < k ==> (#[trigger] self@[j]).eq_spec(&other@[j]),
            ensures
                T::obeys_eq_spec() ==> same == (self@.len() == other@.len() && forall|i: int|
                    0 <= i < self@.len() ==> (#[trigger] self@[i]).eq_spec(&other@[i])),
            decreases self@.len() - k,
        {
            match (left, right) {
                (Some(x), Some(y)) => {
                    assert(self@.skip(k)[0] == x.value);
                    assert(other@.skip(k)[0] == y.value);
                    assert(chain(x.next) =~= self@.skip(k).drop_first());
                    assert(chain(y.next) =~= other@.skip(k).drop_first());
                    assert(self@.skip(k).drop_first() =~= self@.skip(k + 1));
                    assert(other@.skip(k).drop_first() =~= other@.skip(k + 1));
                    if x.value != y.value {
                        same = false;
                        break ;
                    }
                    left = &x.next;
                    right = &y.next;
                    proof {
                        k = k + 1;
                    }
                },
                _ => {
                    assert(self@.skip(k).len() == 0 || other@.skip(k).len() == 0);
                    break ;
                },
            }
        }
        same
    }
}

impl<T: PartialEq> vstd::std_specs::cmp::PartialEqSpecImpl for LinkedList<T> {
    open spec fn obeys_eq_spec() -> bool {
        T::obeys_eq_spec()
    }

    /// Two lists are equal if they are of one length and their items are
    /// equal place by place.
    open spec fn eq_spec(&self, other: &Self) -> bool {
        &&& self@.len() == other@.len()
        &&& forall|i: int| 0 <= i < self@.len() ==> (#[trigger] self@[i]).eq_spec(&other@[i])
    }
}

/// The texts `texts` one after the other, each with a blank before it.
pub open spec fn spaced(texts: Seq<String>) -> Seq<char>
    decreases texts.len(),
{
    if texts.len() == 0 {
        Seq::empty()
    } else {
        spaced(texts.drop_last()) + seq![' '] + texts.last()@
    }
}

impl<T: core::fmt::Display> LinkedList<T> {
    /// The items as text, front first, each as it displays itself and with a
    /// blank before it.
    pub fn to_string(&self) -> (text: String)
        ensures
            exists|texts: Seq<String>|
                {
                    &&& texts.len() == self@.len()
                    &&& forall|i: int|
                        0 <= i < texts.len() ==> to_string_from_display_ensures::<T>(
                            &self@[i],
                            #[trigger] texts[i],
                        )
                    &&& text@ == spaced(texts)
                },
    {
        let mut text = String::new();
        let ghost mut texts: Seq<String> = Seq::empty();
        let mut cur = &self.head;
        loop
            invariant
                texts.len() <= self@.len(),
                chain(*cur) == self@.skip(texts.len() as int),
                forall|i: int|
                    0 <= i < texts.len() ==> to_string_from_display_ensures::<T>(
                        &self@[i],
                        #[trigger] texts[i],
                    ),
                text@ == spaced(texts),
            ensures
                texts.len() == self@.len(),
                forall|i: int|
                    0 <= i < texts.len() ==> to_string_from_display_ensures::<T>(
                        &self@[i],
                        #[trigger] texts[i],
                    ),
                text@ == spaced(texts),
            decreases self@.len() - texts.len(),
        {
            match cur {
                None => {
                    break ;
                },
                Some(node) => {
                    let ghost k = texts.len() as int;
                    assert(self@.skip(k)[0] == node.value);
                    assert(chain(node.next) =~= self@.skip(k).drop_first());
                    assert(self@.skip(k).drop_first() =~= self@.skip(k + 1));
                    let item = node.value.to_string();
                    proof {
                        reveal_strlit(" ");
                    }
                    text.append(" ");
                    text.append(item.as_str());
                    proof {
                        let more = texts.push(item);
                        assert(more.drop_last() =~= texts);
                        assert(text@ =~= spaced(texts) + seq![' '] + item@);
                        texts = more;
                    }
                    cur = &node.next;
                },
            }
        }
        text
    }
}

impl<T> IntoIter<T> {
    /// The next item, or `None` when all have been handed out.
    pub fn next(&mut self) -> (item: Option<T>)
        ensures
            old(self)@.len() == 0 ==> item is None && final(self)@ == old(self)@,
            old(self)@.len() > 0 ==> item == Some(old(self)@[0]) && final(self)@ == old(
                self,
            )@.drop_first(),
    {
        let mut cur = None;
        std::mem::swap(&mut self.cur, &mut cur);
        match cur {
            None => None,
            Some(node) => {
                let Node { value, next } = *node;
                assert(chain(next) =~= (seq![value] + chain(next)).drop_first());
                self.cur = next;
                Some(value)
            },
        }
    }
}

impl<'a, T> Iter<'a, T> {
    /// The next item, or `None` when all have been handed out.
    pub fn next(&mut self) -> (item: Option<&'a T>)
        ensures
            old(self)@.len() == 0 ==> item is None && final(self)@ == old(self)@,
            old(self)@.len() > 0 ==> item == Some(&old(self)@[0]) && final(self)@ == old(
                self,
            )@.drop_first(),
    {
        match self.cur {
            None => None,
            Some(node) => {
                assert(chain(node.next) =~= (seq![node.value] + chain(node.next)).drop_first());
                self.cur = &node.next;
                Some(&node.value)
            },
        }
    }
}

} // verus!
