use vstd::pervasive::VecAdditionalExecFns;
use vstd::prelude::*;

verus! {

/// The sentinel index marking the end of a chain.
pub const EMPTY_REF: u32 = u32::MAX;

/// One node of the arena: the payload plus the indices of its neighbours.
#[derive(Debug, Clone, Copy)]
pub struct ListNode<T> {
    pub prev: u32,
    pub next: u32,
    pub item: T,
}

/// A doubly linked chain held in a growable arena; nodes are never removed
/// within a pass, the chain only refines by `split_at`.
#[derive(Debug, Clone)]
pub struct LinkList<T> {
    pub nodes: Vec<ListNode<T>>,
}

impl<T: Copy> LinkList<T> {
    pub fn len(&self) -> (r: usize)
        ensures
            r == self.nodes@.len(),
    {
        self.nodes.len()
    }

    /// Chains the items in order: node `k` holds item `k` and links to its
    /// neighbours.
    pub fn new(items: Vec<T>) -> (r: Self)
        requires
            items@.len() < 0x8000_0000,
        ensures
            r.nodes@.len() == items@.len(),
            forall|k: int|
                0 <= k < items@.len() ==> (#[trigger] r.nodes@[k]).item == items@[k]
                    && r.nodes@[k].prev == (if k == 0 {
                    EMPTY_REF as int
                } else {
                    k - 1
                }) && r.nodes@[k].next == (if k == items@.len() - 1 {
                    EMPTY_REF as int
                } else {
                    k + 1
                }),
    {
        let n = items.len();
        let mut nodes: Vec<ListNode<T>> = Vec::new();
        let mut k: usize = 0;
        while k < n
            invariant
                k <= n,
                n == items@.len() < 0x8000_0000,
                nodes@.len() == k,
                forall|t: int|
                    0 <= t < k ==> (#[trigger] nodes@[t]).item == items@[t] && nodes@[t].prev == (
                    if t == 0 {
                        EMPTY_REF as int
                    } else {
                        t - 1
                    }) && nodes@[t].next == (if t == n - 1 {
                        EMPTY_REF as int
                    } else {
                        t + 1
                    }),
            decreases n - k,
        {
            let prev = if k == 0 {
                EMPTY_REF
            } else {
                (k - 1) as u32
            };
            let next = if k == n - 1 {
                EMPTY_REF
            } else {
                (k + 1) as u32
            };
            nodes.push(ListNode { prev, next, item: items[k] });
            k = k + 1;
        }
        Self { nodes }
    }

    pub fn get(&self, index: u32) -> (r: &ListNode<T>)
        requires
            index < self.nodes@.len(),
        ensures
            *r == self.nodes@[index as int],
    {
        &self.nodes[index as usize]
    }

    /// Overwrites node `index` with `a` and appends a new node with `b`
    /// linked right after it; the old successor's back link is redirected.
    /// Returns the indices of the two halves.
    pub fn split_at(&mut self, index: u32, a: T, b: T) -> (r: (u32, u32))
        requires
            index < old(self).nodes@.len(),
            old(self).nodes@.len() < 0x8000_0000,
        ensures
            r.0 == index,
            r.1 == old(self).nodes@.len(),
            final(self).nodes@.len() == old(self).nodes@.len() + 1,
            final(self).nodes@[index as int].item == a,
            final(self).nodes@[index as int].next == r.1,
            final(self).nodes@[index as int].prev == old(self).nodes@[index as int].prev,
            final(self).nodes@[r.1 as int].item == b,
            final(self).nodes@[r.1 as int].prev == index,
            final(self).nodes@[r.1 as int].next == old(self).nodes@[index as int].next,
            forall|t: int|
                0 <= t < old(self).nodes@.len() && t != index && t != old(self).nodes@[index as int].next
                    ==> final(self).nodes@[t] == old(self).nodes@[t],
            ({
                let pre = old(self).nodes@;
                let post = final(self).nodes@;
                let succ = pre[index as int].next;
                (0 <= succ < pre.len() && succ != index) ==> (post[succ as int].prev == r.1
                    && post[succ as int].next == pre[succ as int].next && post[succ as int].item
                    == pre[succ as int].item)
            }),
    {
        let new_index = self.nodes.len() as u32;

        let old_node = self.nodes[index as usize];
        let next = old_node.next;
        self.nodes.set(index as usize, ListNode { prev: old_node.prev, next: new_index, item: a });

        self.nodes.push(ListNode { prev: index, next, item: b });

        let index_next = next as usize;
        if index_next < self.nodes.len() - 1 && next != index {
            let succ = self.nodes[index_next];
            self.nodes.set(index_next, ListNode { prev: new_index, next: succ.next, item: succ.item });
        }

        (index, new_index)
    }
}

} // verus!
