//! A binary tree that owns its children, and a walk over its values.
use vstd::prelude::*;

verus! {

/// A node of a binary tree: a value and up to two children.
pub struct Node<T> {
    inner: T,
    left: Option<Box<Node<T>>>,
    right: Option<Box<Node<T>>>,
}

impl<T> Node<T> {
    /// The value of the node.
    pub closed spec fn value(&self) -> T {
        self.inner
    }

    /// The left child.
    pub closed spec fn left_child(&self) -> Option<Node<T>> {
        match self.left {
            Some(child) => Some(*child),
            None => None,
        }
    }

    /// The right child.
    pub closed spec fn right_child(&self) -> Option<Node<T>> {
        match self.right {
            Some(child) => Some(*child),
            None => None,
        }
    }

    /// The values in the order in which a walk meets them: the node, then
    /// its right subtree, then its left subtree.
    pub closed spec fn walk(&self) -> Seq<T>
        decreases self,
    {
        seq![self.inner] + (match self.right {
            Some(child) => child.walk(),
            None => Seq::empty(),
        }) + (match self.left {
            Some(child) => child.walk(),
            None => Seq::empty(),
        })
    }

    /// A walk meets the node first, then the right subtree, then the left.
    pub proof fn lemma_walk(&self)
        ensures
            self.walk() == seq![self.value()] + (match self.right_child() {
                Some(child) => child.walk(),
                None => Seq::empty(),
            }) + (match self.left_child() {
                Some(child) => child.walk(),
                None => Seq::empty(),
            }),
    {
    }

    /// A node without children.
    pub fn new(inner: T) -> (n: Self)
        ensures
            n.value() == inner,
            n.left_child() is None,
            n.right_child() is None,
    {
        Node { inner, left: None, right: None }
    }

    /// A walk over the values of the tree.
    pub fn iter(&self) -> (it: NodeIter<'_, T>)
        ensures
            it.remaining() == self.walk(),
    {
        NodeIter::new(self)
    }

    /// The value of the node.
    pub fn as_ref(&self) -> (v: &T)
        ensures
            *v == self.value(),
    {
        &self.inner
    }

    /// The value of the node, to change it. The children stay.
    pub fn as_mut(&mut self) -> (v: &mut T)
        ensures
            *v == old(self).value(),
            final(self).value() == *final(v),
            final(self).left_child() == old(self).left_child(),
            final(self).right_child() == old(self).right_child(),
    {
        &mut self.inner
    }

    /// Put a node without children, holding `val`, in place of the left
    /// child.
    pub fn insert_left(&mut self, val: T)
        ensures
            final(self).value() == old(self).value(),
            final(self).right_child() == old(self).right_child(),
            final(self).left_child() is Some,
            final(self).left_child()->Some_0.value() == val,
            final(self).left_child()->Some_0.left_child() is None,
            final(self).left_child()->Some_0.right_child() is None,
    {
        self.left = Some(Box::new(Node::new(val)));
    }

    /// Put a node without children, holding `val`, in place of the right
    /// child.
    pub fn insert_right(&mut self, val: T)
        ensures
            final(self).value() == old(self).value(),
            final(self).left_child() == old(self).left_child(),
            final(self).right_child() is Some,
            final(self).right_child()->Some_0.value() == val,
            final(self).right_child()->Some_0.left_child() is None,
            final(self).right_child()->Some_0.right_child() is None,
    {
        self.right = Some(Box::new(Node::new(val)));
    }

    /// The left child.
    pub fn left(&self) -> (child: Option<&Node<T>>)
        ensures
            match child {
                Some(c) => self.left_child() == Some(*c),
                None => self.left_child() is None,
            },
    {
        match &self.left {
            None => None,
            Some(left) => Some(&**left),
        }
    }

    /// The right child.
    pub fn right(&self) -> (child: Option<&Node<T>>)
        ensures
            match child {
                Some(c) => self.right_child() == Some(*c),
                None => self.right_child() is None,
            },
    {
        match &self.right {
            None => None,
            Some(right) => Some(&**right),
        }
    }
}

/// The values that a walk still has to meet, given the nodes it has yet to
/// open; the last of them is opened next.
pub open spec fn pending<T>(stack: Seq<&Node<T>>) -> Seq<T>
    decreases stack.len(),
{
    if stack.len() == 0 {
        Seq::empty()
    } else {
        stack.last().walk() + pending(stack.drop_last())
    }
}

/// A walk over the values of a tree.
pub struct NodeIter<'a, T> {
    inner: Vec<&'a Node<T>>,
}

impl<'a, T> NodeIter<'a, T> {
    /// The values that the walk has yet to give, in order.
    pub closed spec fn remaining(&self) -> Seq<T> {
        pending(self.inner@)
    }

    /// A walk over the tree below `root`.
    pub fn new(root: &'a Node<T>) -> (it: Self)
        ensures
            it.remaining() == root.walk(),
    {
        let mut inner: Vec<&'a Node<T>> = Vec::new();
        inner.push(root);
        proof {
            assert(inner@.drop_last() =~= Seq::<&Node<T>>::empty());
            assert(pending(inner@.drop_last()) =~= Seq::<T>::empty());
            assert(pending(inner@) =~= root.walk());
        }
        NodeIter { inner }
    }

    /// The next value of the walk, or `None` when it is over.
    pub fn next(&mut self) -> (r: Option<&'a T>)
        ensures
            match r {
                Some(v) => old(self).remaining().len() > 0 && *v == old(self).remaining()[0]
                    && final(self).remaining() == old(self).remaining().drop_first(),
                None => old(self).remaining().len() == 0 && final(self).remaining().len() == 0,
            },
    {
        let ghost before = self.inner@;
        let el = match self.inner.pop() {
            Some(el) => el,
            None => {
                return None;
            },
        };
        let ghost rest = self.inner@;
        proof {
            assert(rest =~= before.drop_last());
            el.lemma_walk();
        }
        if let Some(left) = el.left() {
            self.inner.push(left);
            proof {
                assert(self.inner@.drop_last() =~= rest);
            }
        }
        let ghost mid = self.inner@;
        if let Some(right) = el.right() {
            self.inner.push(right);
            proof {
                assert(self.inner@.drop_last() =~= mid);
            }
        }
        proof {
            let tail = (match el.right_child() {
                Some(child) => child.walk(),
                None => Seq::empty(),
            }) + (match el.left_child() {
                Some(child) => child.walk(),
                None => Seq::empty(),
            }) + pending(rest);
            assert(pending(self.inner@) =~= tail);
            assert(pending(before) =~= seq![el.value()] + tail);
            assert(pending(before).drop_first() =~= tail);
        }
        Some(&el.inner)
    }
}

} // verus!
