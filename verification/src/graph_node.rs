//! The common header shared by every node of the graph: a display name, a
//! stable index, and the reference count the compiler derives during culling.

use vstd::prelude::*;

verus! {

/// Header data common to pass and resource nodes.
///
/// `ref_count` is written by the compiler: it counts how many referenced
/// consumers the node's outputs have, so a node with `ref_count == 0` and no
/// side-effect flag is culled.
pub struct GraphNode {
    name: String,
    id: u32,
    ref_count: i32,
}

impl GraphNode {
    pub closed spec fn spec_name(&self) -> Seq<char> {
        self.name@
    }

    pub closed spec fn spec_id(&self) -> u32 {
        self.id
    }

    pub closed spec fn spec_ref_count(&self) -> i32 {
        self.ref_count
    }

    pub fn new(name: String, id: u32) -> (node: GraphNode)
        ensures
            node.spec_name() == name@,
            node.spec_id() == id,
            node.spec_ref_count() == 0,
    {
        GraphNode { name, id, ref_count: 0 }
    }

    #[allow(non_snake_case)]
    pub fn getId(&self) -> (id: u32)
        ensures
            id == self.spec_id(),
    {
        self.id
    }

    #[allow(non_snake_case)]
    pub fn getName(&self) -> (name: &String)
        ensures
            name@ == self.spec_name(),
    {
        &self.name
    }

    #[allow(non_snake_case)]
    pub fn getRefCount(&self) -> (count: i32)
        ensures
            count == self.spec_ref_count(),
    {
        self.ref_count
    }

    /// Install the reference count the compiler derived for this node.
    pub(crate) fn set_ref_count(&mut self, count: i32)
        requires
            count >= 0,
        ensures
            final(self).spec_ref_count() == count,
            final(self).spec_name() == old(self).spec_name(),
            final(self).spec_id() == old(self).spec_id(),
    {
        self.ref_count = count;
    }

}

} // verus!
