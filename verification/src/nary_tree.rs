//! A plain tree of values with any number of children at each node.

use vstd::prelude::*;

verus! {

/// A value and the subtrees below it.
pub struct Node<T> {
    pub val: T,
    pub children: Vec<Node<T>>,
}

impl<T> Node<T> {
    /// The values of the tree, each with its depth below `depth`, in the
    /// order in which the tree is displayed: a node, then its subtrees.
    pub open spec fn rows(&self, depth: nat) -> Seq<(nat, T)>
        decreases self, 1nat, 0nat,
    {
        seq![(depth, self.val)] + self.rows_below(depth, self.children@.len())
    }

    /// The rows of the first `n` subtrees.
    pub open spec fn rows_below(&self, depth: nat, n: nat) -> Seq<(nat, T)>
        decreases self, 0nat, n,
    {
        if n == 0 || n > self.children@.len() {
            Seq::empty()
        } else {
            self.rows_below(depth, (n - 1) as nat) + self.children@[n - 1].rows(depth + 1)
        }
    }

    /// A tree of one node.
    pub fn new(val: T) -> (node: Node<T>)
        ensures
            node.val == val,
            node.children@.len() == 0,
    {
        Node { val, children: Vec::new() }
    }

    /// Adds a subtree after the others.
    pub fn insert(&mut self, val: Node<T>)
        ensures
            final(self).children@ == old(self).children@.push(val),
            final(self).val == old(self).val,
    {
        self.children.push(val);
    }

    /// The values of the tree as they are displayed, one to a line: each with
    /// its depth, a node before its subtrees.
    pub fn display(&self) -> (rows: Vec<(usize, &T)>)
        requires
            self.rows(0).len() <= usize::MAX,
        ensures
            rows.len() == self.rows(0).len(),
            forall|i: int|
                0 <= i < rows.len() ==> rows@[i].0 == self.rows(0)[i].0 && *rows@[i].1 == self.rows(
                    0,
                )[i].1,
    {
        let mut rows: Vec<(usize, &T)> = Vec::new();
        self.print_tree(0, &mut rows);
        rows
    }

    /// Adds the rows of this tree, `depth` levels deep, to `rows`.
    fn print_tree<'a>(&'a self, depth: usize, rows: &mut Vec<(usize, &'a T)>)
        requires
            depth + self.rows(depth as nat).len() <= usize::MAX,
        ensures
            final(rows).len() == old(rows).len() + self.rows(depth as nat).len(),
            forall|i: int| 0 <= i < old(rows).len() ==> final(rows)@[i] == old(rows)@[i],
            forall|i: int|
                0 <= i < self.rows(depth as nat).len() ==> final(rows)@[old(rows).len() + i].0
                    == self.rows(depth as nat)[i].0 && *final(rows)@[old(rows).len() + i].1
                    == self.rows(depth as nat)[i].1,
        decreases self,
    {
        rows.push((depth, &self.val));
        let ghost start = rows.len();
        let mut k: usize = 0;
        while k < self.children.len()
            invariant
                k <= self.children.len(),
                depth + self.rows(depth as nat).len() <= usize::MAX,
                start == old(rows).len() + 1,
                rows.len() == start + self.rows_below(depth as nat, k as nat).len(),
                forall|i: int| 0 <= i < old(rows).len() ==> rows@[i] == old(rows)@[i],
                rows@[old(rows).len() as int].0 == depth,
                *rows@[old(rows).len() as int].1 == self.val,
                forall|i: int|
                    0 <= i < self.rows_below(depth as nat, k as nat).len() ==> rows@[start + i].0
                        == self.rows_below(depth as nat, k as nat)[i].0 && *rows@[start + i].1
                        == self.rows_below(depth as nat, k as nat)[i].1,
            decreases self.children.len() - k,
        {
            proof {
                self.lemma_rows_below_grow(depth as nat, k as nat + 1);
            }
            self.children[k].print_tree(depth + 1, rows);
            k += 1;
        }
    }

    /// The rows of the first subtrees are among the rows of all of them.
    proof fn lemma_rows_below_grow(&self, depth: nat, n: nat)
        requires
            n <= self.children@.len(),
        ensures
            self.rows_below(depth, n).len() <= self.rows_below(depth, self.children@.len()).len(),
            self.rows(depth).len() == 1 + self.rows_below(depth, self.children@.len()).len(),
            self.rows(depth).len() >= 1,
        decreases self.children@.len() - n,
    {
        if n < self.children@.len() {
            self.lemma_rows_below_grow(depth, n + 1);
        }
    }
}

} // verus!
