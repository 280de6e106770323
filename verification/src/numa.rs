//! One datum per NUMA node, found by the node's number.
use crate::mut_refs::refs_of;
use vstd::prelude::*;

verus! {

/// The greatest number of NUMA nodes that a manager has room for.
pub const MAX_NUMA_NODES_SUPPORTED: usize = 64;

/// Holds one datum for each NUMA node that the machine may have.
pub struct DataPerNUMANodeManager<T> {
    inner: [T; MAX_NUMA_NODES_SUPPORTED],
}

impl<T> DataPerNUMANodeManager<T> {
    /// The data, node by node.
    pub closed spec fn view(&self) -> Seq<T> {
        self.inner@
    }

    /// Every manager has a datum for each of the supported nodes.
    pub proof fn lemma_len(&self)
        ensures
            self@.len() == MAX_NUMA_NODES_SUPPORTED,
    {
    }

    /// Makes a manager that holds `inner[i]` for node `i`.
    pub fn from_arr(inner: [T; MAX_NUMA_NODES_SUPPORTED]) -> (m: Self)
        ensures
            m@ == inner@,
    {
        Self { inner }
    }

    /// The datum of node `numa_node`.
    pub fn get_ref_by_node(&self, numa_node: usize) -> (r: &T)
        requires
            numa_node < MAX_NUMA_NODES_SUPPORTED,
        ensures
            *r == self@[numa_node as int],
    {
        &self.inner[numa_node]
    }

    /// The datum of node `numa_node`, handed out for change.
    pub fn get_mut_by_node(&mut self, numa_node: usize) -> (r: &mut T)
        requires
            numa_node < MAX_NUMA_NODES_SUPPORTED,
        ensures
            *r == old(self)@[numa_node as int],
            final(self)@ == old(self)@.update(numa_node as int, *final(r)),
    {
        &mut self.inner[numa_node]
    }

    /// The data of all nodes, by node number.
    pub fn iter(&self) -> (r: Vec<&T>)
        ensures
            r@.len() == MAX_NUMA_NODES_SUPPORTED,
            forall|i: int| 0 <= i < r@.len() ==> *(#[trigger] r@[i]) == self@[i],
    {
        let mut out: Vec<&T> = Vec::new();
        let mut i: usize = 0;
        while i < MAX_NUMA_NODES_SUPPORTED
            invariant
                i <= MAX_NUMA_NODES_SUPPORTED,
                out@.len() == i,
                forall|j: int| 0 <= j < i ==> *(#[trigger] out@[j]) == self@[j],
            decreases MAX_NUMA_NODES_SUPPORTED - i,
        {
            out.push(&self.inner[i]);
            i += 1;
        }
        out
    }

    /// The data of all nodes, by node number, handed out for change.
    pub fn iter_mut(&mut self) -> (r: Vec<&mut T>)
        ensures
            r@.len() == MAX_NUMA_NODES_SUPPORTED,
            forall|i: int| 0 <= i < r@.len() ==> *(#[trigger] r@[i]) == old(self)@[i],
            forall|i: int| 0 <= i < r@.len() ==> #[trigger] final(self)@[i] == *final(r@[i]),
    {
        refs_of(self.inner.as_mut_slice())
    }
}

} // verus!
