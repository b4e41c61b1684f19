//! One version of one logical resource, in renamed-after-write form: every
//! write yields a new node with the version advanced by one, so a node names
//! an immutable value and remembers which pass produced it.

use vstd::prelude::*;

use crate::resource_entry::Type;

verus! {

/// A (resource, version) pair together with its producing pass.
#[derive(Clone, Copy, PartialEq, Eq, Structural, Debug)]
pub struct ResourceNode {
    kind: Type,
    id: u32,
    version: u32,
    producer: u32,
}

impl ResourceNode {
    pub closed spec fn spec_kind(&self) -> Type {
        self.kind
    }

    pub closed spec fn spec_id(&self) -> u32 {
        self.id
    }

    pub closed spec fn spec_version(&self) -> u32 {
        self.version
    }

    pub closed spec fn spec_producer(&self) -> u32 {
        self.producer
    }

    pub(crate) fn new(kind: Type, id: u32, version: u32, producer: u32) -> (node: ResourceNode)
        ensures
            node.spec_kind() == kind,
            node.spec_id() == id,
            node.spec_version() == version,
            node.spec_producer() == producer,
    {
        ResourceNode { kind, id, version, producer }
    }

    #[allow(non_snake_case)]
    pub fn getResourceId(&self) -> (id: u32)
        ensures
            id == self.spec_id(),
    {
        self.id
    }

    #[allow(non_snake_case)]
    pub fn getVersion(&self) -> (v: u32)
        ensures
            v == self.spec_version(),
    {
        self.version
    }

    /// The pass that produced this version of the resource.
    pub fn producer(&self) -> (p: u32)
        ensures
            p == self.spec_producer(),
    {
        self.producer
    }
}

} // verus!
