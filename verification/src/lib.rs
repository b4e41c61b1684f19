//! A frame/render graph core: a per-frame dependency graph that records which
//! GPU resources each rendering pass creates, reads, or writes, derives an
//! execution order and resource lifetimes from those declarations, and drives
//! a multi-frame present loop through a synchronization state machine.

use vstd::prelude::*;

pub mod blackboard;
pub mod decimal;
pub mod frame_graph;
pub mod graph_node;
pub mod resource_entry;
pub mod resource_node;
pub mod script;
pub mod support;
pub mod sync;

verus! {

/// How a pass touches a resource; used to describe barriers between stages.
#[derive(Debug, Clone, Copy, PartialEq, Eq, Structural)]
pub enum ResourceAccess {
    Read,
    Write,
    ColorAttachment,
    DepthStencilAttachment,
    ShaderResource,
}

/// A synchronization edge: before `resource_name` is used as `to`, the effects
/// of its previous use as `from` must be made visible.
#[derive(Debug)]
pub struct ResourceBarrier {
    pub resource_name: String,
    pub from: ResourceAccess,
    pub to: ResourceAccess,
}

} // verus!
