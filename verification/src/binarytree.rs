//! A binary tree of numbered leaves, grown by splitting a leaf in two.
use vstd::prelude::*;

verus! {

/// A tree whose leaves carry ids.
#[derive(Debug)]
pub enum Node {
    /// A leaf with its id
    Leaf(usize),
    /// Two subtrees
    Branch {
        /// The left subtree
        left: Box<Node>,
        /// The right subtree
        right: Box<Node>,
    },
}

impl Node {
    /// Some leaf of the tree has the id `id`.
    pub open spec fn has_leaf(self, id: usize) -> bool
        decreases self,
    {
        match self {
            Node::Leaf(node_id) => node_id == id,
            Node::Branch { left, right } => left.has_leaf(id) || right.has_leaf(id),
        }
    }

    /// The tree with its first leaf of id `id`, from the left, split in two:
    /// in its place stands a branch of that leaf and a new leaf `right`. A
    /// tree without such a leaf stays as it is.
    pub open spec fn with_split(self, id: usize, right: usize) -> Node
        decreases self,
    {
        match self {
            Node::Leaf(node_id) => if node_id == id {
                Node::Branch {
                    left: Box::new(Node::Leaf(node_id)),
                    right: Box::new(Node::Leaf(right)),
                }
            } else {
                self
            },
            Node::Branch { left, right: other } => if left.has_leaf(id) {
                Node::Branch { left: Box::new(left.with_split(id, right)), right: other }
            } else {
                Node::Branch { left, right: Box::new(other.with_split(id, right)) }
            },
        }
    }

    /// The ids of the leaves, from left to right.
    pub open spec fn leaves(self) -> Seq<usize>
        decreases self,
    {
        match self {
            Node::Leaf(node_id) => seq![node_id],
            Node::Branch { left, right } => left.leaves() + right.leaves(),
        }
    }

    /// A leaf is found exactly where its id is among the leaves.
    pub proof fn lemma_has_leaf(self, id: usize)
        ensures
            self.has_leaf(id) == self.leaves().contains(id),
        decreases self,
    {
        match self {
            Node::Leaf(node_id) => {
                if node_id == id {
                    assert(self.leaves()[0] == id);
                }
            },
            Node::Branch { left, right } => {
                left.lemma_has_leaf(id);
                right.lemma_has_leaf(id);
                let l = left.leaves();
                let r = right.leaves();
                if l.contains(id) {
                    let i = choose|i: int| 0 <= i < l.len() && l[i] == id;
                    assert((l + r)[i] == id);
                }
                if r.contains(id) {
                    let i = choose|i: int| 0 <= i < r.len() && r[i] == id;
                    assert((l + r)[l.len() + i] == id);
                }
                if (l + r).contains(id) {
                    let i = choose|i: int| 0 <= i < (l + r).len() && (l + r)[i] == id;
                    if i < l.len() {
                        assert(l[i] == id);
                    } else {
                        assert(r[i - l.len()] == id);
                    }
                }
            },
        }
    }

    /// A tree without a leaf of id `id` is not changed by a split at `id`.
    pub proof fn lemma_split_without_leaf(self, id: usize, right: usize)
        requires
            !self.has_leaf(id),
        ensures
            self.with_split(id, right) == self,
        decreases self,
    {
        match self {
            Node::Leaf(_) => {},
            Node::Branch { left, right: other } => {
                left.lemma_split_without_leaf(id, right);
                other.lemma_split_without_leaf(id, right);
            },
        }
    }

    fn split_first(&mut self, id: usize, right: usize) -> (found: bool)
        ensures
            found == old(self).has_leaf(id),
            *final(self) == old(self).with_split(id, right),
        decreases *old(self),
    {
        match self {
            Node::Leaf(node_id) => {
                if *node_id == id {
                    let left = *node_id;
                    *self = Node::Branch {
                        left: Box::new(Node::Leaf(left)),
                        right: Box::new(Node::Leaf(right)),
                    };
                    true
                } else {
                    false
                }
            },
            Node::Branch { left, right: other } => {
                proof {
                    if !left.has_leaf(id) {
                        left.lemma_split_without_leaf(id, right);
                    }
                }
                if left.split_first(id, right) {
                    true
                } else {
                    other.split_first(id, right)
                }
            },
        }
    }

    /// Split the first leaf of id `id` in two: in its place stands a branch
    /// of that leaf and a new leaf `right`. A tree without such a leaf stays
    /// as it is.
    pub fn split(&mut self, id: usize, right: usize)
        ensures
            *final(self) == old(self).with_split(id, right),
    {
        self.split_first(id, right);
    }

    /// Removing a leaf is not supported: the tree stays as it is.
    pub fn remove(&mut self, node_id: usize)
        ensures
            *final(self) == *old(self),
    {
    }
}

} // verus!
