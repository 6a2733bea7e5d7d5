//! A plain binary tree with owned children: every node holds a value and two
//! subtrees, and a tree is either empty or a node.

use vstd::prelude::*;

verus! {

/// A binary tree: empty, or a node owning a value and two subtrees.
#[derive(Debug, PartialEq, Eq)]
pub enum BinaryTree<T> {
    Empty,
    Node { value: T, left: Box<BinaryTree<T>>, right: Box<BinaryTree<T>> },
}

impl<T> BinaryTree<T> {
    /// Creates an empty tree.
    pub fn new() -> (t: BinaryTree<T>)
        ensures
            t == BinaryTree::<T>::Empty,
    {
        BinaryTree::Empty
    }

    /// Creates a node containing `value`, with two empty children.
    pub fn new_node(value: T) -> (t: BinaryTree<T>)
        ensures
            t == (BinaryTree::Node {
                value: value,
                left: Box::new(BinaryTree::Empty),
                right: Box::new(BinaryTree::Empty),
            }),
    {
        BinaryTree::Node {
            value,
            left: Box::new(BinaryTree::Empty),
            right: Box::new(BinaryTree::Empty),
        }
    }

    /// Creates a node with `value` and the given `left` and `right` children.
    pub fn new_node_with_children(
        value: T,
        left: Box<BinaryTree<T>>,
        right: Box<BinaryTree<T>>,
    ) -> (t: BinaryTree<T>)
        ensures
            t == (BinaryTree::Node { value: value, left: left, right: right }),
    {
        BinaryTree::Node { value, left, right }
    }

    /// Returns true exactly when this tree is empty.
    pub fn is_empty(&self) -> (r: bool)
        ensures
            r == (*self matches BinaryTree::Empty),
    {
        match *self {
            BinaryTree::Empty => true,
            _ => false,
        }
    }

    /// Replaces the left child of this node; the value and the right child
    /// stay as they were.
    pub fn set_left(&mut self, node: Box<BinaryTree<T>>)
        requires
            old(self) matches BinaryTree::Node { .. },
        ensures
            match (*old(self), *final(self)) {
                (
                    BinaryTree::Node { value: v0, left: _, right: r0 },
                    BinaryTree::Node { value: v1, left: l1, right: r1 },
                ) => v1 == v0 && l1 == node && r1 == r0,
                _ => false,
            },
    {
        let mut tmp = BinaryTree::Empty;
        core::mem::swap(self, &mut tmp);
        match tmp {
            BinaryTree::Node { value, left: _, right } => {
                *self = BinaryTree::Node { value, left: node, right };
            },
            BinaryTree::Empty => {
                proof {
                    assert(false);
                }
            },
        }
    }

    /// Replaces the right child of this node; the value and the left child
    /// stay as they were.
    pub fn set_right(&mut self, node: Box<BinaryTree<T>>)
        requires
            old(self) matches BinaryTree::Node { .. },
        ensures
            match (*old(self), *final(self)) {
                (
                    BinaryTree::Node { value: v0, left: l0, right: _ },
                    BinaryTree::Node { value: v1, left: l1, right: r1 },
                ) => v1 == v0 && l1 == l0 && r1 == node,
                _ => false,
            },
    {
        let mut tmp = BinaryTree::Empty;
        core::mem::swap(self, &mut tmp);
        match tmp {
            BinaryTree::Node { value, left, right: _ } => {
                *self = BinaryTree::Node { value, left, right: node };
            },
            BinaryTree::Empty => {
                proof {
                    assert(false);
                }
            },
        }
    }
}

} // verus!
