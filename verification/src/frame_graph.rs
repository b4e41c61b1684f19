//! The frame graph itself: declaration of passes and their resource accesses,
//! compilation (culling, ordering, lifetime placement), and execution.
//!
//! Declaration follows renamed-after-write form: a write to a resource yields
//! a new handle whose version is one higher, and the old handle becomes
//! stale.  Declaration mistakes — an unknown resource, a stale handle, a
//! write to a handle the pass never created nor read — are latched while
//! recording and surfaced as a structured failure by [`FrameGraph::compile`];
//! a graph that failed to compile is never executed.

use vstd::prelude::*;

use crate::graph_node::GraphNode;
use crate::resource_entry::{
    spec_has_pre_read, spec_has_pre_write, FrameGraphBuffer, FrameGraphTexture, Resource,
    ResourceData, ResourceDesc, ResourceEntry, Type, INITIAL_VERSION,
};
use crate::resource_node::ResourceNode;
use crate::ResourceBarrier;

verus! {

/// Opaque name for one version of one resource.  A handle is immutable once
/// issued; writes hand back a fresh handle with the next version.
#[derive(Clone, Copy, PartialEq, Eq, Structural, Debug)]
pub struct FrameGraphResource {
    id: u32,
    version: u32,
}

impl FrameGraphResource {
    pub closed spec fn spec_id(&self) -> u32 {
        self.id
    }

    pub closed spec fn spec_version(&self) -> u32 {
        self.version
    }

    pub fn id(&self) -> (id: u32)
        ensures
            id == self.spec_id(),
    {
        self.id
    }

    pub fn version(&self) -> (v: u32)
        ensures
            v == self.spec_version(),
    {
        self.version
    }
}

/// One recorded access: which resource version, and the caller's access
/// flags (passed through to the barrier hooks).
#[derive(Clone, Copy, PartialEq, Eq, Structural, Debug)]
pub struct AccessDeclaration {
    pub resource: FrameGraphResource,
    pub flags: u32,
}

/// One rendering pass: a named node plus the three edge lists recorded while
/// the pass declared itself.
pub struct PassNode {
    node: GraphNode,
    creates: Vec<FrameGraphResource>,
    reads: Vec<AccessDeclaration>,
    writes: Vec<AccessDeclaration>,
    side_effect: bool,
}

/// The declaration-relevant content of a pass; the reference count is left
/// out, so the view is stable while the compiler annotates nodes.
pub struct PassView {
    pub name: Seq<char>,
    pub id: u32,
    pub creates: Seq<FrameGraphResource>,
    pub reads: Seq<AccessDeclaration>,
    pub writes: Seq<AccessDeclaration>,
    pub side_effect: bool,
}

impl PassNode {
    pub closed spec fn view(&self) -> PassView {
        PassView {
            name: self.node.spec_name(),
            id: self.node.spec_id(),
            creates: self.creates@,
            reads: self.reads@,
            writes: self.writes@,
            side_effect: self.side_effect,
        }
    }

    pub closed spec fn spec_ref_count(&self) -> i32 {
        self.node.spec_ref_count()
    }

    /// The shared node header (name, id, reference count).
    pub fn node(&self) -> (node: &GraphNode)
        ensures
            node.spec_name() == self.view().name,
            node.spec_id() == self.view().id,
            node.spec_ref_count() == self.spec_ref_count(),
    {
        &self.node
    }

    pub fn creates(&self) -> (creates: &Vec<FrameGraphResource>)
        ensures
            creates@ == self.view().creates,
    {
        &self.creates
    }

    pub fn reads(&self) -> (reads: &Vec<AccessDeclaration>)
        ensures
            reads@ == self.view().reads,
    {
        &self.reads
    }

    pub fn writes(&self) -> (writes: &Vec<AccessDeclaration>)
        ensures
            writes@ == self.view().writes,
    {
        &self.writes
    }

    pub fn has_side_effect(&self) -> (b: bool)
        ensures
            b == self.view().side_effect,
    {
        self.side_effect
    }
}

/// A declaration error: detected while recording, fatal at compile time.
#[derive(Clone, Copy, PartialEq, Eq, Structural, Debug)]
pub enum CompileError {
    /// A handle whose resource id names no registered resource.
    UnknownResource { pass: u32, id: u32 },
    /// A handle whose version is no longer the resource's current one.
    StaleHandle { pass: u32, id: u32, version: u32 },
    /// A write through a handle the pass neither created nor read.
    WriteWithoutAccess { pass: u32, id: u32 },
    /// A counter reached the machine limit.
    CapacityExceeded,
}

/// Does the access declaration name exactly this resource version?
pub open spec fn decl_matches_node(d: AccessDeclaration, n: ResourceNode) -> bool {
    d.resource.spec_id() == n.spec_id() && d.resource.spec_version() == n.spec_version()
}

/// Does the pass touch resource `r` at all (create, read, or write)?
pub open spec fn pass_uses(p: PassView, r: int) -> bool {
    ||| exists|k: int| 0 <= k < p.creates.len() && (#[trigger] p.creates[k]).spec_id() == r
    ||| exists|k: int| 0 <= k < p.reads.len() && (#[trigger] p.reads[k]).resource.spec_id() == r
    ||| exists|k: int| 0 <= k < p.writes.len() && (#[trigger] p.writes[k]).resource.spec_id() == r
}

/// Does pass `q` read a resource version that pass `p` produced?
pub open spec fn spec_consumes(
    passes: Seq<PassView>,
    nodes: Seq<ResourceNode>,
    q: int,
    p: int,
) -> bool {
    exists|k: int, m: int|
        0 <= k < passes[q].reads.len() && 0 <= m < nodes.len() && decl_matches_node(
            #[trigger] passes[q].reads[k],
            #[trigger] nodes[m],
        ) && nodes[m].spec_producer() == p
}

/// Is pass `p` referenced: side-effecting itself, or produces a version read
/// by some later referenced pass?  Declaration order puts producers before
/// consumers, so the recursion over later passes is well founded.
pub open spec fn spec_referenced(passes: Seq<PassView>, nodes: Seq<ResourceNode>, p: int) -> bool
    decreases passes.len() - p,
{
    if 0 <= p < passes.len() {
        passes[p].side_effect || exists|q: int|
            p < q < passes.len() && #[trigger] spec_consumes(passes, nodes, q, p)
                && spec_referenced(passes, nodes, q)
    } else {
        false
    }
}

/// Is position `i` of schedule `sched` a pass that uses resource `r`?
pub open spec fn scheduled_use_at(views: Seq<PassView>, sched: Seq<u32>, r: int, i: int) -> bool {
    0 <= i < sched.len() && pass_uses(views[sched[i] as int], r)
}

/// Lifetime placement for one resource: `fu`/`lu` are the schedule positions
/// of its first and last use, present exactly for transient resources with a
/// scheduled use.
pub open spec fn lifetime_placed(
    views: Seq<PassView>,
    sched: Seq<u32>,
    kind: Type,
    r: int,
    fu: Option<u32>,
    lu: Option<u32>,
) -> bool {
    &&& (fu is Some <==> lu is Some)
    &&& (fu is Some <==> (kind == Type::Transient && exists|i: int|
        #[trigger] scheduled_use_at(views, sched, r, i)))
    &&& (fu matches Some(f) ==> lu matches Some(l) && f <= l < sched.len() && scheduled_use_at(
        views,
        sched,
        r,
        f as int,
    ) && scheduled_use_at(views, sched, r, l as int) && forall|i: int|
        #[trigger] scheduled_use_at(views, sched, r, i) ==> f <= i <= l)
}

/// The registry entry fields the structural invariant reads.
pub open spec fn entry_inv_eq(a: ResourceEntry, b: ResourceEntry) -> bool {
    a.spec_id() == b.spec_id() && a.spec_version() == b.spec_version() && a.spec_kind()
        == b.spec_kind()
}

/// Equality of registry entries on everything but the compiler-written
/// last-consumer field.
pub open spec fn entry_core_eq(a: ResourceEntry, b: ResourceEntry) -> bool {
    &&& a.spec_kind() == b.spec_kind()
    &&& a.spec_id() == b.spec_id()
    &&& a.spec_version() == b.spec_version()
    &&& a.spec_name() == b.spec_name()
    &&& a.spec_descriptor() == b.spec_descriptor()
    &&& a.spec_data() == b.spec_data()
    &&& a.spec_producer() == b.spec_producer()
    &&& a.spec_alive() == b.spec_alive()
}

/// The per-frame dependency graph: built by declaration, compiled once,
/// executed, then discarded or rebuilt.
pub struct FrameGraph {
    passes: Vec<PassNode>,
    nodes: Vec<ResourceNode>,
    registry: Vec<ResourceEntry>,
    decl_error: Option<CompileError>,
    schedule: Vec<u32>,
    first_use: Vec<Option<u32>>,
    last_use: Vec<Option<u32>>,
    compiled: bool,
}

/// The declaration-time API a pass uses while it registers its accesses.
/// The builder owns the graph for the duration of one pass's declaration.
pub struct FrameGraphBuilder {
    fg: FrameGraph,
    pass: u32,
}

impl FrameGraph {
    pub closed spec fn spec_passes(&self) -> Seq<PassNode> {
        self.passes@
    }

    pub closed spec fn spec_nodes(&self) -> Seq<ResourceNode> {
        self.nodes@
    }

    pub closed spec fn spec_registry(&self) -> Seq<ResourceEntry> {
        self.registry@
    }

    pub closed spec fn spec_decl_error(&self) -> Option<CompileError> {
        self.decl_error
    }

    pub closed spec fn spec_schedule(&self) -> Seq<u32> {
        self.schedule@
    }

    pub closed spec fn spec_first_use(&self) -> Seq<Option<u32>> {
        self.first_use@
    }

    pub closed spec fn spec_last_use(&self) -> Seq<Option<u32>> {
        self.last_use@
    }

    pub closed spec fn spec_compiled(&self) -> bool {
        self.compiled
    }

    pub open spec fn pass_views(&self) -> Seq<PassView> {
        self.spec_passes().map_values(|p: PassNode| p.view())
    }

    pub open spec fn n_passes(&self) -> int {
        self.spec_passes().len() as int
    }

    pub open spec fn n_resources(&self) -> int {
        self.spec_registry().len() as int
    }

    /// A node exists for the current version of resource `r`, produced by an
    /// already declared pass.
    pub open spec fn has_current_node(&self, r: int) -> bool {
        exists|m: int|
            0 <= m < self.spec_nodes().len() && (#[trigger] self.spec_nodes()[m]).spec_id() == r
                && self.spec_nodes()[m].spec_version() == self.spec_registry()[r].spec_version()
    }

    /// Every recorded read is backed by a node whose producer was declared no
    /// later than the reader.
    pub open spec fn read_has_node(&self, q: int, k: int) -> bool {
        exists|m: int|
            0 <= m < self.spec_nodes().len() && decl_matches_node(
                self.pass_views()[q].reads[k],
                #[trigger] self.spec_nodes()[m],
            ) && self.spec_nodes()[m].spec_producer() <= q
    }

    pub open spec fn decls_in_range(p: PassView, n_resources: int) -> bool {
        &&& forall|k: int|
            0 <= k < p.creates.len() ==> (#[trigger] p.creates[k]).spec_id() < n_resources
        &&& forall|k: int|
            0 <= k < p.reads.len() ==> (#[trigger] p.reads[k]).resource.spec_id() < n_resources
        &&& forall|k: int|
            0 <= k < p.writes.len() ==> (#[trigger] p.writes[k]).resource.spec_id() < n_resources
    }

    /// Structural well-formedness: established by `new`, preserved by every
    /// operation.
    pub open spec fn inv(&self) -> bool {
        &&& self.base_inv()
        &&& self.all_dead()
        &&& self.spec_compiled() ==> self.compiled_inv()
    }

    /// Between executions no transient device object exists.
    pub open spec fn all_dead(&self) -> bool {
        forall|r: int|
            0 <= r < self.n_resources() ==> !(#[trigger] self.spec_registry()[r]).spec_alive()
    }

    /// The declaration-time part of the invariant.
    pub open spec fn base_inv(&self) -> bool {
        &&& self.spec_registry().len() <= u32::MAX
        &&& self.spec_passes().len() <= u32::MAX
        &&& forall|r: int|
            0 <= r < self.n_resources() ==> (#[trigger] self.spec_registry()[r]).spec_id() == r
        &&& forall|r: int|
            0 <= r < self.n_resources() ==> (#[trigger] self.spec_registry()[r]).spec_version()
                >= INITIAL_VERSION
        &&& forall|p: int|
            0 <= p < self.n_passes() ==> (#[trigger] self.pass_views()[p]).id == p
        &&& forall|p: int|
            0 <= p < self.n_passes() ==> Self::decls_in_range(
                #[trigger] self.pass_views()[p],
                self.n_resources(),
            )
        &&& forall|p: int|
            0 <= p < self.n_passes() ==> (#[trigger] self.spec_passes()[p]).spec_ref_count() >= 0
        &&& forall|m: int|
            0 <= m < self.spec_nodes().len() ==> {
                let n = #[trigger] self.spec_nodes()[m];
                &&& n.spec_id() < self.n_resources()
                &&& n.spec_producer() < self.n_passes()
                &&& INITIAL_VERSION <= n.spec_version()
                &&& n.spec_version() <= self.spec_registry()[n.spec_id() as int].spec_version()
                &&& n.spec_kind() == self.spec_registry()[n.spec_id() as int].spec_kind()
            }
        &&& forall|r: int| 0 <= r < self.n_resources() ==> #[trigger] self.has_current_node(r)
        &&& forall|q: int, k: int|
            0 <= q < self.n_passes() && 0 <= k < self.pass_views()[q].reads.len()
                ==> #[trigger] self.read_has_node(q, k)
    }

    /// Is position `i` of the schedule a pass that uses resource `r`?
    pub open spec fn scheduled_use(&self, r: int, i: int) -> bool {
        scheduled_use_at(self.pass_views(), self.spec_schedule(), r, i)
    }

    /// The compiler's lifetime placement for resource `r`: the creation point
    /// is its first scheduled use and the destruction point its last, and
    /// only transient resources with a scheduled use are placed at all.
    pub open spec fn lifetime_wf(&self, r: int) -> bool {
        lifetime_placed(
            self.pass_views(),
            self.spec_schedule(),
            self.spec_registry()[r].spec_kind(),
            r,
            self.spec_first_use()[r],
            self.spec_last_use()[r],
        )
    }

    /// What compilation guarantees: the schedule lists exactly the referenced
    /// passes, in declaration order, and lifetimes bracket the uses.
    pub open spec fn compiled_inv(&self) -> bool {
        let sched = self.spec_schedule();
        &&& self.spec_decl_error() is None
        &&& self.spec_first_use().len() == self.n_resources()
        &&& self.spec_last_use().len() == self.n_resources()
        &&& forall|i: int| 0 <= i < sched.len() ==> (#[trigger] sched[i]) < self.n_passes()
        &&& forall|i: int, j: int| 0 <= i < j < sched.len() ==> sched[i] < sched[j]
        &&& forall|i: int|
            0 <= i < sched.len() ==> spec_referenced(
                self.pass_views(),
                self.spec_nodes(),
                (#[trigger] sched[i]) as int,
            )
        &&& forall|p: int|
            0 <= p < self.n_passes() && #[trigger] spec_referenced(
                self.pass_views(),
                self.spec_nodes(),
                p,
            ) ==> exists|i: int| 0 <= i < sched.len() && (#[trigger] sched[i]) == p
        &&& forall|r: int| 0 <= r < self.n_resources() ==> #[trigger] self.lifetime_wf(r)
    }

    pub fn new() -> (fg: FrameGraph)
        ensures
            fg.inv(),
            !fg.spec_compiled(),
            fg.spec_decl_error() is None,
            fg.n_passes() == 0,
            fg.n_resources() == 0,
            fg.spec_nodes().len() == 0,
            fg.spec_schedule().len() == 0,
    {
        let fg = FrameGraph {
            passes: Vec::new(),
            nodes: Vec::new(),
            registry: Vec::new(),
            decl_error: None,
            schedule: Vec::new(),
            first_use: Vec::new(),
            last_use: Vec::new(),
            compiled: false,
        };
        proof {
            assert(fg.pass_views() =~= Seq::<PassView>::empty());
        }
        fg
    }

    pub fn pass_count(&self) -> (n: usize)
        ensures
            n == self.n_passes(),
    {
        self.passes.len()
    }

    pub fn resource_count(&self) -> (n: usize)
        ensures
            n == self.n_resources(),
    {
        self.registry.len()
    }

    pub fn is_compiled(&self) -> (b: bool)
        ensures
            b == self.spec_compiled(),
    {
        self.compiled
    }

    /// The latched declaration error, if any.
    pub fn declaration_error(&self) -> (e: &Option<CompileError>)
        ensures
            *e == self.spec_decl_error(),
    {
        &self.decl_error
    }

    /// The compiled execution order (indices of the surviving passes, in
    /// declaration order).
    pub fn schedule(&self) -> (s: &Vec<u32>)
        ensures
            s@ == self.spec_schedule(),
    {
        &self.schedule
    }

    /// The registry record of one resource.
    pub fn resource_entry(&self, id: usize) -> (e: &ResourceEntry)
        requires
            id < self.n_resources(),
        ensures
            *e == self.spec_registry()[id as int],
    {
        &self.registry[id]
    }

    /// The declaration record of one pass.
    pub fn pass_node(&self, p: usize) -> (node: &PassNode)
        requires
            p < self.n_passes(),
        ensures
            node.view() == self.pass_views()[p as int],
            *node == self.spec_passes()[p as int],
    {
        &self.passes[p]
    }

    /// Pre-size the pass and resource tables.  Capacity is not observable in
    /// the model; the contract records that nothing else changes.
    pub fn reserve(&mut self, num_passes: u32, num_resources: u32)
        ensures
            final(self).spec_passes() == old(self).spec_passes(),
            final(self).spec_nodes() == old(self).spec_nodes(),
            final(self).spec_registry() == old(self).spec_registry(),
            final(self).spec_decl_error() == old(self).spec_decl_error(),
            final(self).spec_schedule() == old(self).spec_schedule(),
            final(self).spec_first_use() == old(self).spec_first_use(),
            final(self).spec_last_use() == old(self).spec_last_use(),
            final(self).spec_compiled() == old(self).spec_compiled(),
    {
        self.passes.reserve(num_passes as usize);
        self.registry.reserve(num_resources as usize);
        self.nodes.reserve(num_resources as usize);
    }
}

/// What a builder freshly opened on graph `g` for a pass named `name` looks
/// like: the graph gained one empty pass declaration and nothing else.
pub open spec fn begins_pass(b: FrameGraphBuilder, g: FrameGraph, name: String) -> bool {
    &&& b.inv()
    &&& b.spec_pass() == g.n_passes()
    &&& b.spec_graph().pass_views() == g.pass_views().push(
        (PassView {
            name: name@,
            id: g.n_passes() as u32,
            creates: Seq::empty(),
            reads: Seq::empty(),
            writes: Seq::empty(),
            side_effect: false,
        }),
    )
    &&& b.spec_graph().spec_registry() == g.spec_registry()
    &&& b.spec_graph().spec_nodes() == g.spec_nodes()
    &&& b.spec_graph().spec_decl_error() == g.spec_decl_error()
    &&& b.spec_graph().spec_schedule() == g.spec_schedule()
    &&& b.spec_graph().spec_first_use() == g.spec_first_use()
    &&& b.spec_graph().spec_last_use() == g.spec_last_use()
}

impl FrameGraph {
    /// Declare one pass: a fresh builder scoped to the new pass is handed to
    /// `setup`, which records the pass's creates, reads and writes and hands
    /// the builder back; the graph then absorbs the declaration.
    #[allow(non_snake_case)]
    pub fn addCallbackPass<F: FnOnce(FrameGraphBuilder) -> FrameGraphBuilder>(
        &mut self,
        name: String,
        setup: F,
    )
        requires
            old(self).inv(),
            !old(self).spec_compiled(),
            old(self).n_passes() < u32::MAX,
            forall|b: FrameGraphBuilder|
                begins_pass(b, *old(self), name) ==> #[trigger] call_requires(setup, (b,)),
        ensures
            exists|b0: FrameGraphBuilder, b1: FrameGraphBuilder|
                begins_pass(b0, *old(self), name) && #[trigger] call_ensures(setup, (b0,), b1)
                    && *final(self) == b1.spec_graph(),
    {
        let ghost g0 = *self;
        let pass_id = self.passes.len() as u32;
        let mut tmp = FrameGraph::new();
        core::mem::swap(self, &mut tmp);
        let mut fg = tmp;
        fg.passes.push(
            PassNode {
                node: GraphNode::new(name, pass_id),
                creates: Vec::new(),
                reads: Vec::new(),
                writes: Vec::new(),
                side_effect: false,
            },
        );
        let b0 = FrameGraphBuilder { fg, pass: pass_id };
        proof {
            let g1 = b0.fg;
            assert(g1.pass_views() =~= g0.pass_views().push(
                (PassView {
                    name: name@,
                    id: pass_id,
                    creates: Seq::empty(),
                    reads: Seq::empty(),
                    writes: Seq::empty(),
                    side_effect: false,
                }),
            ));
            assert forall|r: int| 0 <= r < g1.n_resources() implies #[trigger] g1.has_current_node(
                r,
            ) by {
                assert(g0.has_current_node(r));
                let m = choose|m: int|
                    0 <= m < g0.spec_nodes().len() && (#[trigger] g0.spec_nodes()[m]).spec_id() == r
                        && g0.spec_nodes()[m].spec_version() == g0.spec_registry()[
                        r].spec_version();
                assert(g1.spec_nodes()[m] == g0.spec_nodes()[m]);
            }
            assert forall|q: int, k: int|
                0 <= q < g1.n_passes() && 0 <= k < g1.pass_views()[q].reads.len()
                    implies #[trigger] g1.read_has_node(q, k) by {
                assert(q < g0.n_passes());
                assert(g1.pass_views()[q].reads == g0.pass_views()[q].reads);
                assert(g0.read_has_node(q, k));
                let m = choose|m: int|
                    0 <= m < g0.spec_nodes().len() && decl_matches_node(
                        g0.pass_views()[q].reads[k],
                        #[trigger] g0.spec_nodes()[m],
                    ) && g0.spec_nodes()[m].spec_producer() <= q;
                assert(decl_matches_node(g1.pass_views()[q].reads[k], g1.spec_nodes()[m]));
            }
            assert forall|p: int| 0 <= p < g1.n_passes() implies FrameGraph::decls_in_range(
                #[trigger] g1.pass_views()[p],
                g1.n_resources(),
            ) by {
                if p < g0.n_passes() {
                    assert(FrameGraph::decls_in_range(g0.pass_views()[p], g0.n_resources()));
                }
            }
            assert(b0.inv());
            assert(begins_pass(b0, g0, name));
        }
        let b1 = setup(b0);
        let fg1 = b1.finish();
        *self = fg1;
    }
}

/// A freshly registered transient entry, as `create` leaves it.
pub open spec fn fresh_entry<T: Resource>(
    e: ResourceEntry,
    id: u32,
    name: Seq<char>,
    desc: T::Desc,
    producer: u32,
) -> bool {
    &&& e.spec_kind() == Type::Transient
    &&& e.spec_id() == id
    &&& e.spec_version() == INITIAL_VERSION
    &&& e.spec_name() == name
    &&& e.spec_descriptor() == T::spec_wrap_desc(desc)
    &&& e.spec_data() == T::spec_wrap(T::spec_initial())
    &&& e.spec_producer() == Some(producer)
    &&& e.spec_last() is None
    &&& !e.spec_alive()
}

/// Field description of a resource node.
pub open spec fn node_is(n: ResourceNode, kind: Type, id: u32, version: u32, producer: u32) -> bool {
    n.spec_kind() == kind && n.spec_id() == id && n.spec_version() == version && n.spec_producer()
        == producer
}

/// The compiler-facing state (outputs of `compile`), for unchanged clauses.
pub open spec fn same_compile_state(a: FrameGraph, b: FrameGraph) -> bool {
    &&& a.spec_schedule() == b.spec_schedule()
    &&& a.spec_first_use() == b.spec_first_use()
    &&& a.spec_last_use() == b.spec_last_use()
    &&& a.spec_compiled() == b.spec_compiled()
}

/// Is the handle's version still the resource's current version?
pub open spec fn read_ok(g: FrameGraph, h: FrameGraphResource) -> bool {
    h.spec_id() < g.n_resources() && g.spec_registry()[h.spec_id() as int].spec_version()
        == h.spec_version()
}

/// Did the pass earlier create or read this resource (the precondition the
/// declaration rules place on a write)?
pub open spec fn pass_declares_input(p: PassView, r: int) -> bool {
    ||| exists|k: int| 0 <= k < p.creates.len() && (#[trigger] p.creates[k]).spec_id() == r
    ||| exists|k: int| 0 <= k < p.reads.len() && (#[trigger] p.reads[k]).resource.spec_id() == r
}

/// An error latch: the first declaration error is kept.
pub open spec fn latched(e0: Option<CompileError>, e: CompileError) -> Option<CompileError> {
    if e0 is Some {
        e0
    } else {
        Some(e)
    }
}


/// The parts of a pass view that the graph invariant reads.
pub open spec fn same_decl_core(a: PassView, b: PassView) -> bool {
    a.id == b.id && a.creates == b.creates && a.reads == b.reads && a.writes == b.writes
}

impl FrameGraph {
    /// The invariant only reads the declaration core of the pass views, so
    /// it carries over to a graph that differs in flags or error state only.
    proof fn lemma_inv_from_core(g0: FrameGraph, g1: FrameGraph)
        requires
            g0.base_inv(),
            g1.pass_views().len() == g0.pass_views().len(),
            forall|p: int|
                0 <= p < g0.pass_views().len() ==> same_decl_core(
                    #[trigger] g1.pass_views()[p],
                    g0.pass_views()[p],
                ),
            forall|p: int|
                0 <= p < g0.spec_passes().len() ==> (#[trigger] g1.spec_passes()[p]).spec_ref_count()
                    >= 0,
            g1.spec_registry().len() == g0.spec_registry().len(),
            forall|r: int|
                0 <= r < g0.spec_registry().len() ==> entry_inv_eq(
                    #[trigger] g1.spec_registry()[r],
                    g0.spec_registry()[r],
                ),
            g1.spec_nodes() == g0.spec_nodes(),
        ensures
            g1.base_inv(),
    {
        assert forall|r: int| 0 <= r < g1.n_resources() implies #[trigger] g1.has_current_node(
            r,
        ) by {
            assert(g0.has_current_node(r));
            let m = choose|m: int|
                0 <= m < g0.spec_nodes().len() && (#[trigger] g0.spec_nodes()[m]).spec_id() == r
                    && g0.spec_nodes()[m].spec_version() == g0.spec_registry()[r].spec_version();
            assert(g1.spec_nodes()[m] == g0.spec_nodes()[m]);
        }
        assert forall|q: int, k: int|
            0 <= q < g1.n_passes() && 0 <= k < g1.pass_views()[q].reads.len()
                implies #[trigger] g1.read_has_node(q, k) by {
            assert(same_decl_core(g1.pass_views()[q], g0.pass_views()[q]));
            assert(g0.read_has_node(q, k));
            let m = choose|m: int|
                0 <= m < g0.spec_nodes().len() && decl_matches_node(
                    g0.pass_views()[q].reads[k],
                    #[trigger] g0.spec_nodes()[m],
                ) && g0.spec_nodes()[m].spec_producer() <= q;
            assert(g1.spec_nodes()[m] == g0.spec_nodes()[m]);
            assert(decl_matches_node(g1.pass_views()[q].reads[k], g1.spec_nodes()[m]));
        }
        assert forall|p: int| 0 <= p < g1.n_passes() implies FrameGraph::decls_in_range(
            #[trigger] g1.pass_views()[p],
            g1.n_resources(),
        ) by {
            assert(same_decl_core(g1.pass_views()[p], g0.pass_views()[p]));
            assert(FrameGraph::decls_in_range(g0.pass_views()[p], g0.n_resources()));
        }
    }
}

impl FrameGraphBuilder {
    pub closed spec fn spec_graph(&self) -> FrameGraph {
        self.fg
    }

    pub closed spec fn spec_pass(&self) -> u32 {
        self.pass
    }

    /// The builder is scoped to the most recently declared pass.
    pub open spec fn inv(&self) -> bool {
        &&& self.spec_graph().inv()
        &&& !self.spec_graph().spec_compiled()
        &&& self.spec_graph().n_passes() >= 1
        &&& self.spec_pass() == self.spec_graph().n_passes() - 1
    }

    /// The view of the pass being declared.
    pub open spec fn pass_view(&self) -> PassView {
        self.spec_graph().pass_views()[self.spec_pass() as int]
    }

    /// Seal the pass declaration and hand the graph back.
    pub fn finish(self) -> (fg: FrameGraph)
        ensures
            fg == self.spec_graph(),
    {
        self.fg
    }

    /// Register a new transient resource; the current pass becomes its
    /// producer and the returned handle names version 1.
    pub fn create<T: Resource>(&mut self, name: &str, desc: T::Desc) -> (h: FrameGraphResource)
        requires
            old(self).inv(),
            old(self).spec_graph().n_resources() < u32::MAX,
        ensures
            final(self).inv(),
            final(self).spec_pass() == old(self).spec_pass(),
            h.spec_id() == old(self).spec_graph().n_resources(),
            h.spec_version() == INITIAL_VERSION,
            final(self).spec_graph().n_resources() == old(self).spec_graph().n_resources() + 1,
            forall|r: int|
                0 <= r < old(self).spec_graph().n_resources() ==> final(self).spec_graph().spec_registry()[r] == old(self).spec_graph().spec_registry()[r],
            fresh_entry::<T>(
                final(self).spec_graph().spec_registry().last(),
                h.spec_id(),
                name@,
                desc,
                old(self).spec_pass(),
            ),
            final(self).spec_graph().spec_nodes() == old(self).spec_graph().spec_nodes().push(
                final(self).spec_graph().spec_nodes().last(),
            ),
            node_is(
                final(self).spec_graph().spec_nodes().last(),
                Type::Transient,
                h.spec_id(),
                INITIAL_VERSION,
                old(self).spec_pass(),
            ),
            final(self).spec_graph().pass_views() == old(self).spec_graph().pass_views().update(
                old(self).spec_pass() as int,
                (PassView {
                    creates: old(self).pass_view().creates.push(h),
                    ..old(self).pass_view()
                }),
            ),
            final(self).spec_graph().spec_decl_error() == old(self).spec_graph().spec_decl_error(),
            same_compile_state(final(self).spec_graph(), old(self).spec_graph()),
    {
        let ghost g0 = self.fg;
        let id = self.fg.registry.len() as u32;
        let mut entry = ResourceEntry::new_with_type::<T>(
            Type::Transient,
            id,
            name.to_owned(),
            desc,
            T::initial(),
        );
        entry.set_producer(self.pass);
        self.fg.registry.push(entry);
        self.fg.nodes.push(ResourceNode::new(Type::Transient, id, INITIAL_VERSION, self.pass));
        let h = FrameGraphResource { id, version: INITIAL_VERSION };
        let p = self.pass as usize;
        let pass_node = &mut self.fg.passes[p];
        pass_node.creates.push(h);
        proof {
            let g1 = self.fg;
            let gp = self.pass as int;
            let n0 = g0.n_resources();
            let v0 = g0.pass_views();
            let v1 = g1.pass_views();
            assert(v1 =~= v0.update(gp, (PassView { creates: v0[gp].creates.push(h), ..v0[gp] })));
            assert(g1.spec_nodes() =~= g0.spec_nodes().push(g1.spec_nodes().last()));
            assert forall|r: int| 0 <= r < g1.n_resources() implies #[trigger] g1.has_current_node(
                r,
            ) by {
                if r < n0 {
                    assert(g0.has_current_node(r));
                    let m = choose|m: int|
                        0 <= m < g0.spec_nodes().len() && (#[trigger] g0.spec_nodes()[m]).spec_id()
                            == r && g0.spec_nodes()[m].spec_version() == g0.spec_registry()[
                            r].spec_version();
                    assert(g1.spec_nodes()[m] == g0.spec_nodes()[m]);
                    assert(g1.spec_registry()[r] == g0.spec_registry()[r]);
                } else {
                    let m = g1.spec_nodes().len() - 1;
                    assert(g1.spec_nodes()[m].spec_id() == r);
                    assert(g1.spec_nodes()[m].spec_version() == g1.spec_registry()[
                        r].spec_version());
                }
            }
            assert forall|q: int, k: int|
                0 <= q < g1.n_passes() && 0 <= k < g1.pass_views()[q].reads.len()
                    implies #[trigger] g1.read_has_node(q, k) by {
                assert(v1[q].reads == v0[q].reads);
                assert(g0.read_has_node(q, k));
                let m = choose|m: int|
                    0 <= m < g0.spec_nodes().len() && decl_matches_node(
                        v0[q].reads[k],
                        #[trigger] g0.spec_nodes()[m],
                    ) && g0.spec_nodes()[m].spec_producer() <= q;
                assert(g1.spec_nodes()[m] == g0.spec_nodes()[m]);
                assert(decl_matches_node(g1.pass_views()[q].reads[k], g1.spec_nodes()[m]));
            }
            assert forall|p: int| 0 <= p < g1.n_passes() implies FrameGraph::decls_in_range(
                #[trigger] g1.pass_views()[p],
                g1.n_resources(),
            ) by {
                assert(FrameGraph::decls_in_range(v0[p], n0));
                if p == gp {
                    assert(forall|k: int|
                        0 <= k < v1[p].creates.len() - 1 ==> v1[p].creates[k] == v0[p].creates[k]);
                }
            }
            assert(g1.inv());
        }
        h
    }

    /// Record that the current pass reads the resource this handle names.
    /// The handle is returned unchanged: reads never advance the version.
    /// An unknown resource or a stale handle latches a declaration error that
    /// `compile` will surface; nothing is recorded for it.
    pub fn read(&mut self, h: FrameGraphResource, flags: u32) -> (r: FrameGraphResource)
        requires
            old(self).inv(),
        ensures
            final(self).inv(),
            final(self).spec_pass() == old(self).spec_pass(),
            r == h,
            read_ok(old(self).spec_graph(), h) ==> {
                &&& final(self).spec_graph().pass_views() == old(self).spec_graph().pass_views().update(
                    old(self).spec_pass() as int,
                    (PassView {
                        reads: old(self).pass_view().reads.push(
                            AccessDeclaration { resource: h, flags },
                        ),
                        ..old(self).pass_view()
                    }),
                )
                &&& final(self).spec_graph().spec_decl_error() == old(self).spec_graph().spec_decl_error()
            },
            !read_ok(old(self).spec_graph(), h) ==> {
                &&& final(self).spec_graph().pass_views() == old(self).spec_graph().pass_views()
                &&& final(self).spec_graph().spec_decl_error() == latched(
                    old(self).spec_graph().spec_decl_error(),
                    if h.spec_id() >= old(self).spec_graph().n_resources() {
                        (CompileError::UnknownResource { pass: old(self).spec_pass(), id: h.spec_id() })
                    } else {
                        (CompileError::StaleHandle {
                            pass: old(self).spec_pass(),
                            id: h.spec_id(),
                            version: h.spec_version(),
                        })
                    },
                )
            },
            final(self).spec_graph().spec_registry() == old(self).spec_graph().spec_registry(),
            final(self).spec_graph().spec_nodes() == old(self).spec_graph().spec_nodes(),
            same_compile_state(final(self).spec_graph(), old(self).spec_graph()),
    {
        let ghost g0 = self.fg;
        let rid = h.id;
        if (rid as usize) >= self.fg.registry.len() {
            self.latch(CompileError::UnknownResource { pass: self.pass, id: rid });
            return h;
        }
        if self.fg.registry[rid as usize].version() != h.version {
            self.latch(
                CompileError::StaleHandle { pass: self.pass, id: rid, version: h.version },
            );
            return h;
        }
        let p = self.pass as usize;
        let pass_node = &mut self.fg.passes[p];
        pass_node.reads.push(AccessDeclaration { resource: h, flags });
        proof {
            let g1 = self.fg;
            let gp = self.pass as int;
            let v0 = g0.pass_views();
            let v1 = g1.pass_views();
            assert(v1 =~= v0.update(
                gp,
                (PassView {
                    reads: v0[gp].reads.push(AccessDeclaration { resource: h, flags }),
                    ..v0[gp]
                }),
            ));
            assert forall|r: int| 0 <= r < g1.n_resources() implies #[trigger] g1.has_current_node(
                r,
            ) by {
                assert(g0.has_current_node(r));
                let m = choose|m: int|
                    0 <= m < g0.spec_nodes().len() && (#[trigger] g0.spec_nodes()[m]).spec_id() == r
                        && g0.spec_nodes()[m].spec_version() == g0.spec_registry()[
                        r].spec_version();
                assert(g1.spec_nodes()[m] == g0.spec_nodes()[m]);
            }
            assert forall|q: int, k: int|
                0 <= q < g1.n_passes() && 0 <= k < g1.pass_views()[q].reads.len()
                    implies #[trigger] g1.read_has_node(q, k) by {
                if q != gp || k < v0[gp].reads.len() {
                    assert(g1.pass_views()[q].reads[k] == g0.pass_views()[q].reads[k]);
                    assert(g0.read_has_node(q, k));
                    let m = choose|m: int|
                        0 <= m < g0.spec_nodes().len() && decl_matches_node(
                            v0[q].reads[k],
                            #[trigger] g0.spec_nodes()[m],
                        ) && g0.spec_nodes()[m].spec_producer() <= q;
                    assert(decl_matches_node(g1.pass_views()[q].reads[k], g1.spec_nodes()[m]));
                } else {
                    assert(g0.has_current_node(h.spec_id() as int));
                    let m = choose|m: int|
                        0 <= m < g0.spec_nodes().len() && (#[trigger] g0.spec_nodes()[m]).spec_id()
                            == h.spec_id() as int && g0.spec_nodes()[m].spec_version()
                            == g0.spec_registry()[h.spec_id() as int].spec_version();
                    assert(g1.pass_views()[q].reads[k] == AccessDeclaration {
                        resource: h,
                        flags,
                    });
                    assert(g0.spec_nodes()[m].spec_producer() < g0.n_passes());
                    assert(decl_matches_node(g1.pass_views()[q].reads[k], g1.spec_nodes()[m]));
                }
            }
            assert forall|p: int| 0 <= p < g1.n_passes() implies FrameGraph::decls_in_range(
                #[trigger] g1.pass_views()[p],
                g1.n_resources(),
            ) by {
                assert(FrameGraph::decls_in_range(v0[p], g0.n_resources()));
                if p == gp {
                    assert(forall|k: int|
                        0 <= k < v1[p].reads.len() - 1 ==> v1[p].reads[k] == v0[p].reads[k]);
                }
            }
            assert(g1.inv());
        }
        h
    }

    /// Record that the current pass writes the resource this handle names.
    /// The write renames the resource: the version advances by one and the
    /// returned handle names the new version, while `h` becomes stale.  The
    /// pass must have created or read the resource before; a violation, an
    /// unknown resource or a stale handle latches a declaration error and
    /// leaves the graph as it was.
    pub fn write(&mut self, h: FrameGraphResource) -> (r: FrameGraphResource)
        requires
            old(self).inv(),
        ensures
            final(self).inv(),
            final(self).spec_pass() == old(self).spec_pass(),
            write_allowed(*old(self), h) ==> {
                &&& r.spec_id() == h.spec_id()
                &&& r.spec_version() == h.spec_version() + 1
                &&& final(self).spec_graph().n_resources() == old(self).spec_graph().n_resources()
                &&& forall|q: int|
                    0 <= q < old(self).spec_graph().n_resources() && q != h.spec_id() ==> final(self).spec_graph().spec_registry()[q] == old(self).spec_graph().spec_registry()[q]
                &&& entry_after_write(
                    final(self).spec_graph().spec_registry()[h.spec_id() as int],
                    old(self).spec_graph().spec_registry()[h.spec_id() as int],
                    old(self).spec_pass(),
                )
                &&& final(self).spec_graph().spec_nodes() == old(self).spec_graph().spec_nodes().push(final(self).spec_graph().spec_nodes().last())
                &&& node_is(
                    final(self).spec_graph().spec_nodes().last(),
                    old(self).spec_graph().spec_registry()[h.spec_id() as int].spec_kind(),
                    h.spec_id(),
                    (h.spec_version() + 1) as u32,
                    old(self).spec_pass(),
                )
                &&& final(self).spec_graph().pass_views() == old(self).spec_graph().pass_views().update(
                    old(self).spec_pass() as int,
                    (PassView {
                        writes: old(self).pass_view().writes.push(
                            AccessDeclaration { resource: h, flags: 0 },
                        ),
                        ..old(self).pass_view()
                    }),
                )
                &&& final(self).spec_graph().spec_decl_error() == old(self).spec_graph().spec_decl_error()
            },
            !write_allowed(*old(self), h) ==> {
                &&& r == h
                &&& final(self).spec_graph().pass_views() == old(self).spec_graph().pass_views()
                &&& final(self).spec_graph().spec_registry() == old(self).spec_graph().spec_registry()
                &&& final(self).spec_graph().spec_nodes() == old(self).spec_graph().spec_nodes()
                &&& final(self).spec_graph().spec_decl_error() == latched(
                    old(self).spec_graph().spec_decl_error(),
                    write_error(*old(self), h),
                )
            },
            same_compile_state(final(self).spec_graph(), old(self).spec_graph()),
    {
        let ghost g0 = self.fg;
        let rid = h.id;
        if (rid as usize) >= self.fg.registry.len() {
            self.latch(CompileError::UnknownResource { pass: self.pass, id: rid });
            return h;
        }
        if self.fg.registry[rid as usize].version() != h.version {
            self.latch(
                CompileError::StaleHandle { pass: self.pass, id: rid, version: h.version },
            );
            return h;
        }
        if !self.declares_input(rid) {
            self.latch(CompileError::WriteWithoutAccess { pass: self.pass, id: rid });
            return h;
        }
        if h.version == u32::MAX {
            self.latch(CompileError::CapacityExceeded);
            return h;
        }
        let kind_imported = self.fg.registry[rid as usize].is_imported();
        let kind = if kind_imported {
            Type::Imported
        } else {
            Type::Transient
        };
        let entry = &mut self.fg.registry[rid as usize];
        entry.bump_version();
        entry.set_producer(self.pass);
        self.fg.nodes.push(ResourceNode::new(kind, rid, h.version + 1, self.pass));
        let p = self.pass as usize;
        let pass_node = &mut self.fg.passes[p];
        pass_node.writes.push(AccessDeclaration { resource: h, flags: 0 });
        let r = FrameGraphResource { id: rid, version: h.version + 1 };
        proof {
            let g1 = self.fg;
            let gp = self.pass as int;
            let ri = rid as int;
            let v0 = g0.pass_views();
            let v1 = g1.pass_views();
            assert(v1 =~= v0.update(
                gp,
                (PassView {
                    writes: v0[gp].writes.push(AccessDeclaration { resource: h, flags: 0 }),
                    ..v0[gp]
                }),
            ));
            assert(g1.spec_nodes() =~= g0.spec_nodes().push(g1.spec_nodes().last()));
            assert(g1.spec_registry()[ri].spec_kind() == g0.spec_registry()[ri].spec_kind());
            assert forall|r2: int| 0 <= r2 < g1.n_resources() implies #[trigger] g1.has_current_node(
                r2,
            ) by {
                if r2 == ri {
                    let m = g1.spec_nodes().len() - 1;
                    assert(g1.spec_nodes()[m].spec_id() == r2);
                    assert(g1.spec_nodes()[m].spec_version() == g1.spec_registry()[
                        r2].spec_version());
                } else {
                    assert(g0.has_current_node(r2));
                    let m = choose|m: int|
                        0 <= m < g0.spec_nodes().len() && (#[trigger] g0.spec_nodes()[m]).spec_id()
                            == r2 && g0.spec_nodes()[m].spec_version() == g0.spec_registry()[
                            r2].spec_version();
                    assert(g1.spec_nodes()[m] == g0.spec_nodes()[m]);
                    assert(g1.spec_registry()[r2] == g0.spec_registry()[r2]);
                }
            }
            assert forall|q: int, k: int|
                0 <= q < g1.n_passes() && 0 <= k < g1.pass_views()[q].reads.len()
                    implies #[trigger] g1.read_has_node(q, k) by {
                assert(v1[q].reads == v0[q].reads);
                assert(g0.read_has_node(q, k));
                let m = choose|m: int|
                    0 <= m < g0.spec_nodes().len() && decl_matches_node(
                        v0[q].reads[k],
                        #[trigger] g0.spec_nodes()[m],
                    ) && g0.spec_nodes()[m].spec_producer() <= q;
                assert(g1.spec_nodes()[m] == g0.spec_nodes()[m]);
                assert(decl_matches_node(g1.pass_views()[q].reads[k], g1.spec_nodes()[m]));
            }
            assert forall|m: int| 0 <= m < g1.spec_nodes().len() implies {
                let n = #[trigger] g1.spec_nodes()[m];
                &&& n.spec_id() < g1.n_resources()
                &&& n.spec_producer() < g1.n_passes()
                &&& INITIAL_VERSION <= n.spec_version()
                &&& n.spec_version() <= g1.spec_registry()[n.spec_id() as int].spec_version()
                &&& n.spec_kind() == g1.spec_registry()[n.spec_id() as int].spec_kind()
            } by {
                if m < g0.spec_nodes().len() {
                    assert(g1.spec_nodes()[m] == g0.spec_nodes()[m]);
                    if g0.spec_nodes()[m].spec_id() == ri {
                        assert(g1.spec_registry()[ri].spec_version() == g0.spec_registry()[
                            ri].spec_version() + 1);
                    } else {
                        assert(g1.spec_registry()[g0.spec_nodes()[m].spec_id() as int]
                            == g0.spec_registry()[g0.spec_nodes()[m].spec_id() as int]);
                    }
                }
            }
            assert forall|p: int| 0 <= p < g1.n_passes() implies FrameGraph::decls_in_range(
                #[trigger] g1.pass_views()[p],
                g1.n_resources(),
            ) by {
                assert(FrameGraph::decls_in_range(v0[p], g0.n_resources()));
                if p == gp {
                    assert(forall|k: int|
                        0 <= k < v1[p].writes.len() - 1 ==> v1[p].writes[k] == v0[p].writes[k]);
                }
            }
            assert(g1.inv());
        }
        r
    }

    /// Mark the current pass as side-effecting: it survives culling even with
    /// no referenced consumers (a declared root output).
    pub fn set_side_effect(&mut self)
        requires
            old(self).inv(),
        ensures
            final(self).inv(),
            final(self).spec_pass() == old(self).spec_pass(),
            final(self).spec_graph().pass_views() == old(self).spec_graph().pass_views().update(
                old(self).spec_pass() as int,
                (PassView { side_effect: true, ..old(self).pass_view() }),
            ),
            final(self).spec_graph().spec_registry() == old(self).spec_graph().spec_registry(),
            final(self).spec_graph().spec_nodes() == old(self).spec_graph().spec_nodes(),
            final(self).spec_graph().spec_decl_error() == old(self).spec_graph().spec_decl_error(),
            same_compile_state(final(self).spec_graph(), old(self).spec_graph()),
    {
        let ghost g0 = self.fg;
        let p = self.pass as usize;
        let pass_node = &mut self.fg.passes[p];
        pass_node.side_effect = true;
        proof {
            let g1 = self.fg;
            let gp = self.pass as int;
            assert(g1.pass_views() =~= g0.pass_views().update(
                gp,
                (PassView { side_effect: true, ..g0.pass_views()[gp] }),
            ));
            assert forall|p: int|
                0 <= p < g0.pass_views().len() implies same_decl_core(
                    #[trigger] g1.pass_views()[p],
                    g0.pass_views()[p],
                ) by {}
            FrameGraph::lemma_inv_from_core(g0, g1);
            assert(g1.inv());
        }
    }

    /// Record a declaration error, keeping the first.
    fn latch(&mut self, e: CompileError)
        requires
            old(self).inv(),
        ensures
            final(self).inv(),
            final(self).spec_pass() == old(self).spec_pass(),
            final(self).spec_graph().spec_decl_error() == latched(
                old(self).spec_graph().spec_decl_error(),
                e,
            ),
            final(self).spec_graph().pass_views() == old(self).spec_graph().pass_views(),
            final(self).spec_graph().spec_registry() == old(self).spec_graph().spec_registry(),
            final(self).spec_graph().spec_nodes() == old(self).spec_graph().spec_nodes(),
            same_compile_state(final(self).spec_graph(), old(self).spec_graph()),
    {
        let ghost g0 = self.fg;
        if self.fg.decl_error.is_none() {
            self.fg.decl_error = Some(e);
        }
        proof {
            FrameGraph::lemma_inv_from_core(g0, self.fg);
            assert(self.fg.inv());
        }
    }

    /// Has the current pass created or read resource `rid` so far?
    fn declares_input(&self, rid: u32) -> (b: bool)
        requires
            self.inv(),
        ensures
            b == pass_declares_input(self.pass_view(), rid as int),
    {
        let p = self.pass as usize;
        let pass_node = &self.fg.passes[p];
        let mut k: usize = 0;
        while k < pass_node.creates.len()
            invariant
                k <= pass_node.creates@.len(),
                pass_node.view() == self.pass_view(),
                forall|j: int|
                    0 <= j < k ==> (#[trigger] pass_node.creates@[j]).spec_id() != rid,
            decreases pass_node.creates@.len() - k,
        {
            if pass_node.creates[k].id() == rid {
                proof {
                    assert(self.pass_view().creates[k as int].spec_id() == rid);
                }
                return true;
            }
            k = k + 1;
        }
        let mut k: usize = 0;
        while k < pass_node.reads.len()
            invariant
                k <= pass_node.reads@.len(),
                pass_node.view() == self.pass_view(),
                forall|j: int|
                    0 <= j < pass_node.creates@.len() ==> (#[trigger] pass_node.creates@[j]).spec_id()
                        != rid,
                forall|j: int|
                    0 <= j < k ==> (#[trigger] pass_node.reads@[j]).resource.spec_id() != rid,
            decreases pass_node.reads@.len() - k,
        {
            if pass_node.reads[k].resource.id() == rid {
                proof {
                    assert(self.pass_view().reads[k as int].resource.spec_id() == rid);
                }
                return true;
            }
            k = k + 1;
        }
        false
    }
}

impl FrameGraph {
    /// Does pass `q` read any version that pass `p` produced?
    fn consumes_exec(&self, q: usize, p: usize) -> (b: bool)
        requires
            self.inv(),
            q < self.n_passes(),
        ensures
            b == spec_consumes(self.pass_views(), self.spec_nodes(), q as int, p as int),
    {
        let reads = &self.passes[q].reads;
        let mut k: usize = 0;
        while k < reads.len()
            invariant
                self.inv(),
                q < self.n_passes(),
                k <= reads@.len(),
                reads@ == self.pass_views()[q as int].reads,
                forall|k2: int, m2: int|
                    0 <= k2 < k && 0 <= m2 < self.spec_nodes().len() ==> !(decl_matches_node(
                        #[trigger] self.pass_views()[q as int].reads[k2],
                        #[trigger] self.spec_nodes()[m2],
                    ) && self.spec_nodes()[m2].spec_producer() == p),
            decreases reads@.len() - k,
        {
            let d = reads[k];
            let mut m: usize = 0;
            while m < self.nodes.len()
                invariant
                    self.inv(),
                    q < self.n_passes(),
                    k < reads@.len(),
                    reads@ == self.pass_views()[q as int].reads,
                    d == reads@[k as int],
                    m <= self.spec_nodes().len(),
                    forall|m2: int|
                        0 <= m2 < m ==> !(decl_matches_node(
                            self.pass_views()[q as int].reads[k as int],
                            #[trigger] self.spec_nodes()[m2],
                        ) && self.spec_nodes()[m2].spec_producer() == p),
                decreases self.spec_nodes().len() - m,
            {
                let node = &self.nodes[m];
                if d.resource.id() == node.getResourceId() && d.resource.version()
                    == node.getVersion() && node.producer() as usize == p {
                    proof {
                        assert(decl_matches_node(
                            self.pass_views()[q as int].reads[k as int],
                            self.spec_nodes()[m as int],
                        ));
                    }
                    return true;
                }
                m = m + 1;
            }
            k = k + 1;
        }
        false
    }

    /// Does the pass touch resource `r` at all?
    fn uses_exec(&self, p: usize, r: u32) -> (b: bool)
        requires
            self.inv(),
            p < self.n_passes(),
        ensures
            b == pass_uses(self.pass_views()[p as int], r as int),
    {
        let pass = &self.passes[p];
        let mut k: usize = 0;
        while k < pass.creates.len()
            invariant
                p < self.spec_passes().len(),
                pass.view() == self.pass_views()[p as int],
                k <= pass.creates@.len(),
                forall|j: int|
                    0 <= j < k ==> (#[trigger] pass.creates@[j]).spec_id() != r,
            decreases pass.creates@.len() - k,
        {
            if pass.creates[k].id() == r {
                proof {
                    assert(self.pass_views()[p as int].creates[k as int].spec_id() == r);
                }
                return true;
            }
            k = k + 1;
        }
        let mut k: usize = 0;
        while k < pass.reads.len()
            invariant
                p < self.spec_passes().len(),
                pass.view() == self.pass_views()[p as int],
                k <= pass.reads@.len(),
                forall|j: int|
                    0 <= j < pass.creates@.len() ==> (#[trigger] pass.creates@[j]).spec_id() != r,
                forall|j: int|
                    0 <= j < k ==> (#[trigger] pass.reads@[j]).resource.spec_id() != r,
            decreases pass.reads@.len() - k,
        {
            if pass.reads[k].resource.id() == r {
                proof {
                    assert(self.pass_views()[p as int].reads[k as int].resource.spec_id() == r);
                }
                return true;
            }
            k = k + 1;
        }
        let mut k: usize = 0;
        while k < pass.writes.len()
            invariant
                p < self.spec_passes().len(),
                pass.view() == self.pass_views()[p as int],
                k <= pass.writes@.len(),
                forall|j: int|
                    0 <= j < pass.creates@.len() ==> (#[trigger] pass.creates@[j]).spec_id() != r,
                forall|j: int|
                    0 <= j < pass.reads@.len() ==> (#[trigger] pass.reads@[j]).resource.spec_id()
                        != r,
                forall|j: int|
                    0 <= j < k ==> (#[trigger] pass.writes@[j]).resource.spec_id() != r,
            decreases pass.writes@.len() - k,
        {
            if pass.writes[k].resource.id() == r {
                proof {
                    assert(self.pass_views()[p as int].writes[k as int].resource.spec_id() == r);
                }
                return true;
            }
            k = k + 1;
        }
        false
    }
}

/// All conditions under which a write declaration is accepted.
pub open spec fn write_allowed(b: FrameGraphBuilder, h: FrameGraphResource) -> bool {
    &&& h.spec_id() < b.spec_graph().n_resources()
    &&& b.spec_graph().spec_registry()[h.spec_id() as int].spec_version() == h.spec_version()
    &&& pass_declares_input(b.pass_view(), h.spec_id() as int)
    &&& h.spec_version() < u32::MAX
}

/// Which declaration error a rejected write reports (the checks run in this
/// order).
pub open spec fn write_error(b: FrameGraphBuilder, h: FrameGraphResource) -> CompileError {
    if h.spec_id() >= b.spec_graph().n_resources() {
        CompileError::UnknownResource { pass: b.spec_pass(), id: h.spec_id() }
    } else if b.spec_graph().spec_registry()[h.spec_id() as int].spec_version() != h.spec_version() {
        CompileError::StaleHandle { pass: b.spec_pass(), id: h.spec_id(), version: h.spec_version() }
    } else if !pass_declares_input(b.pass_view(), h.spec_id() as int) {
        CompileError::WriteWithoutAccess { pass: b.spec_pass(), id: h.spec_id() }
    } else {
        CompileError::CapacityExceeded
    }
}

/// How a write leaves the written entry: version advanced, writer recorded.
pub open spec fn entry_after_write(e: ResourceEntry, e0: ResourceEntry, writer: u32) -> bool {
    &&& e.spec_kind() == e0.spec_kind()
    &&& e.spec_id() == e0.spec_id()
    &&& e.spec_version() == e0.spec_version() + 1
    &&& e.spec_name() == e0.spec_name()
    &&& e.spec_descriptor() == e0.spec_descriptor()
    &&& e.spec_data() == e0.spec_data()
    &&& e.spec_producer() == Some(writer)
    &&& e.spec_last() == e0.spec_last()
    &&& e.spec_alive() == e0.spec_alive()
}


impl FrameGraph {
    /// Compile the declared graph: surface any latched declaration error,
    /// cull passes that neither carry a side effect nor (transitively) feed
    /// one, fix the execution order (declaration order restricted to the
    /// referenced passes — producers are declared before their consumers, so
    /// this is a topological order and no cycle can have been declared), and
    /// place each transient resource's creation at its first scheduled use
    /// and its destruction after its last.
    pub fn compile(&mut self) -> (r: Result<(), CompileError>)
        requires
            old(self).inv(),
            !old(self).spec_compiled(),
        ensures
            final(self).inv(),
            match r {
                Result::Err(e) => old(self).spec_decl_error() == Some(e) && *final(self) == *old(self),
                Result::Ok(()) => {
                    &&& old(self).spec_decl_error() is None
                    &&& final(self).spec_compiled()
                    &&& final(self).pass_views() == old(self).pass_views()
                    &&& final(self).spec_nodes() == old(self).spec_nodes()
                    &&& final(self).spec_decl_error() is None
                    &&& final(self).n_resources() == old(self).n_resources()
                    &&& forall|r2: int|
                        0 <= r2 < old(self).n_resources() ==> entry_core_eq(
                            #[trigger] final(self).spec_registry()[r2],
                            old(self).spec_registry()[r2],
                        )
                    &&& forall|r2: int|
                        0 <= r2 < old(self).n_resources() ==> final(self).spec_registry()[
                            r2].spec_last() == (match final(self).spec_last_use()[r2] {
                            Option::Some(l) => Option::Some(final(self).spec_schedule()[l as int]),
                            Option::None => old(self).spec_registry()[r2].spec_last(),
                        })
                    &&& forall|p: int|
                        0 <= p < old(self).n_passes() ==> (((#[trigger] final(self).spec_passes()[p]).spec_ref_count() > 0) <==> exists|q: int|
                            p < q < old(self).n_passes() && #[trigger] spec_consumes(
                                old(self).pass_views(),
                                old(self).spec_nodes(),
                                q,
                                p,
                            ) && spec_referenced(old(self).pass_views(), old(self).spec_nodes(), q))
                },
            },
    {
        if let Some(e) = self.decl_error {
            return Err(e);
        }
        let ghost g0 = *self;
        let n: usize = self.passes.len();
        let nr: usize = self.registry.len();
        let ghost views = self.pass_views();
        let ghost nodes = self.spec_nodes();

        // Phase 1: referenced flags and consumer counts, in one reverse
        // sweep.  Producers precede consumers in declaration order, so each
        // pass's status depends only on later passes, already final.
        let mut referenced: Vec<bool> = vec![false; n];
        let mut counts: Vec<i32> = vec![0; n];
        let mut p: usize = n;
        while p > 0
            invariant
                self.inv(),
                !self.spec_compiled(),
                self.spec_decl_error() is None,
                n == self.n_passes(),
                views == self.pass_views(),
                nodes == self.spec_nodes(),
                p <= n,
                referenced@.len() == n,
                counts@.len() == n,
                forall|j: int|
                    p <= j < n ==> referenced@[j] == spec_referenced(views, nodes, j),
                forall|j: int|
                    p <= j < n ==> counts@[j] >= 0 && ((counts@[j] > 0) <==> exists|q: int|
                        j < q < n && #[trigger] spec_consumes(views, nodes, q, j)
                            && spec_referenced(views, nodes, q)),
            decreases p,
        {
            p = p - 1;
            let mut found = false;
            let mut cnt: i32 = 0;
            let mut q: usize = p + 1;
            while q < n
                invariant
                    self.inv(),
                    n == self.n_passes(),
                    views == self.pass_views(),
                    nodes == self.spec_nodes(),
                    p < n,
                    p + 1 <= q <= n,
                    referenced@.len() == n,
                    forall|j: int|
                        p < j < n ==> referenced@[j] == spec_referenced(views, nodes, j),
                    cnt >= 0,
                    (cnt > 0) <==> found,
                    found == exists|q2: int|
                        p < q2 < q && #[trigger] spec_consumes(views, nodes, q2, p as int)
                            && spec_referenced(views, nodes, q2),
                decreases n - q,
            {
                if referenced[q] && self.consumes_exec(q, p) {
                    found = true;
                    if cnt < i32::MAX {
                        cnt = cnt + 1;
                    }
                    proof {
                        assert(spec_consumes(views, nodes, q as int, p as int) && spec_referenced(
                            views,
                            nodes,
                            q as int,
                        ));
                    }
                }
                q = q + 1;
            }
            let side = self.passes[p].side_effect;
            let slot = &mut referenced[p];
            *slot = side || found;
            let cslot = &mut counts[p];
            *cslot = cnt;
            proof {
                assert(views[p as int].side_effect == side);
                assert(referenced@[p as int] == spec_referenced(views, nodes, p as int));
            }
        }

        // Phase 2: the schedule is the referenced passes in declaration
        // order.
        let mut schedule: Vec<u32> = Vec::new();
        let mut p2: usize = 0;
        while p2 < n
            invariant
                n == self.n_passes(),
                n <= u32::MAX,
                views == self.pass_views(),
                nodes == self.spec_nodes(),
                referenced@.len() == n,
                forall|j: int| 0 <= j < n ==> referenced@[j] == spec_referenced(views, nodes, j),
                p2 <= n,
                forall|i: int|
                    0 <= i < schedule@.len() ==> (#[trigger] schedule@[i]) < p2,
                forall|i: int|
                    0 <= i < schedule@.len() ==> spec_referenced(
                        views,
                        nodes,
                        (#[trigger] schedule@[i]) as int,
                    ),
                forall|i: int, j: int|
                    0 <= i < j < schedule@.len() ==> schedule@[i] < schedule@[j],
                forall|j: int|
                    0 <= j < p2 && #[trigger] spec_referenced(views, nodes, j) ==> exists|i: int|
                        0 <= i < schedule@.len() && (#[trigger] schedule@[i]) == j,
                schedule@.len() <= p2,
            decreases n - p2,
        {
            let ghost sched_prev = schedule@;
            if referenced[p2] {
                schedule.push(p2 as u32);
            }
            proof {
                assert forall|j: int|
                    0 <= j <= p2 && #[trigger] spec_referenced(views, nodes, j) implies exists|
                    i: int,
                |
                    0 <= i < schedule@.len() && (#[trigger] schedule@[i]) == j by {
                    if j < p2 {
                        let i = choose|i: int|
                            0 <= i < sched_prev.len() && (#[trigger] sched_prev[i]) == j;
                        assert(schedule@[i] == j);
                    } else {
                        assert(referenced@[p2 as int]);
                        assert(schedule@[schedule@.len() - 1] == p2 as u32);
                    }
                }
            }
            p2 = p2 + 1;
        }
        let ghost sched = schedule@;

        // Phase 3: record the derived reference counts on the pass nodes.
        let mut p3: usize = 0;
        while p3 < n
            invariant
                self.inv(),
                !self.spec_compiled(),
                self.spec_decl_error() is None,
                n == self.n_passes(),
                nr == self.n_resources(),
                views == self.pass_views(),
                nodes == self.spec_nodes(),
                self.spec_registry() == g0.spec_registry(),
                self.spec_schedule() == g0.spec_schedule(),
                self.spec_first_use() == g0.spec_first_use(),
                self.spec_last_use() == g0.spec_last_use(),
                counts@.len() == n,
                forall|j: int|
                    0 <= j < n ==> counts@[j] >= 0 && ((counts@[j] > 0) <==> exists|q: int|
                        j < q < n && #[trigger] spec_consumes(views, nodes, q, j)
                            && spec_referenced(views, nodes, q)),
                p3 <= n,
                forall|j: int|
                    0 <= j < p3 ==> (#[trigger] self.spec_passes()[j]).spec_ref_count()
                        == counts@[j],
            decreases n - p3,
        {
            let ghost gprev = *self;
            let c = counts[p3];
            let pass = &mut self.passes[p3];
            pass.node.set_ref_count(c);
            proof {
                assert(self.pass_views() =~= views);
                Self::lemma_inv_from_core(gprev, *self);
            }
            p3 = p3 + 1;
        }

        // Phase 4: lifetime placement — first and last scheduled use of each
        // transient resource, and the last consumer recorded on its entry.
        let ghost gpre = *self;
        self.schedule = schedule;
        proof {
            Self::lemma_inv_from_core(gpre, *self);
        }
        let mut first: Vec<Option<u32>> = Vec::new();
        let mut last: Vec<Option<u32>> = Vec::new();
        let mut r4: usize = 0;
        while r4 < nr
            invariant
                self.inv(),
                !self.spec_compiled(),
                self.spec_decl_error() is None,
                n == self.n_passes(),
                nr == self.n_resources(),
                views == self.pass_views(),
                nodes == self.spec_nodes(),
                self.spec_schedule() == sched,
                sched.len() <= n,
                forall|i: int| 0 <= i < sched.len() ==> (#[trigger] sched[i]) < n,
                first@.len() == r4,
                last@.len() == r4,
                r4 <= nr,
                forall|r2: int|
                    0 <= r2 < r4 ==> lifetime_placed(
                        views,
                        sched,
                        self.spec_registry()[r2].spec_kind(),
                        r2,
                        #[trigger] first@[r2],
                        last@[r2],
                    ),
                forall|r2: int|
                    0 <= r2 < nr ==> entry_core_eq(
                        #[trigger] self.spec_registry()[r2],
                        g0.spec_registry()[r2],
                    ),
                forall|r2: int|
                    0 <= r2 < r4 ==> (#[trigger] self.spec_registry()[r2]).spec_last() == (
                    match last@[r2] {
                        Option::Some(l) => Option::Some(sched[l as int]),
                        Option::None => g0.spec_registry()[r2].spec_last(),
                    }),
                forall|r2: int|
                    r4 <= r2 < nr ==> (#[trigger] self.spec_registry()[r2]).spec_last()
                        == g0.spec_registry()[r2].spec_last(),
                counts@.len() == n,
                forall|j: int|
                    0 <= j < n ==> (#[trigger] self.spec_passes()[j]).spec_ref_count()
                        == counts@[j],
            decreases nr - r4,
        {
            let is_trans = self.registry[r4].is_transient();
            let mut fu: Option<u32> = None;
            let mut lu: Option<u32> = None;
            if is_trans {
                let mut i: usize = 0;
                while i < self.schedule.len()
                    invariant
                        self.inv(),
                        n == self.n_passes(),
                        nr == self.n_resources(),
                        views == self.pass_views(),
                        self.spec_schedule() == sched,
                        forall|i2: int| 0 <= i2 < sched.len() ==> (#[trigger] sched[i2]) < n,
                        r4 < nr,
                        i <= sched.len(),
                        sched.len() <= n,
                        n <= u32::MAX,
                        fu is Some <==> lu is Some,
                        fu is None ==> forall|i2: int|
                            0 <= i2 < i ==> !scheduled_use_at(views, sched, r4 as int, i2),
                        fu matches Some(f) ==> lu matches Some(l) && f <= l < i
                            && scheduled_use_at(views, sched, r4 as int, f as int)
                            && scheduled_use_at(views, sched, r4 as int, l as int) && (forall|
                            i2: int,
                        |
                            0 <= i2 < f ==> !scheduled_use_at(views, sched, r4 as int, i2)) && (
                        forall|i2: int|
                            l < i2 < i ==> !scheduled_use_at(views, sched, r4 as int, i2)),
                    decreases sched.len() - i,
                {
                    let pass_idx = self.schedule[i] as usize;
                    if self.uses_exec(pass_idx, r4 as u32) {
                        if fu.is_none() {
                            fu = Some(i as u32);
                        }
                        lu = Some(i as u32);
                        proof {
                            assert(scheduled_use_at(views, sched, r4 as int, i as int));
                        }
                    }
                    i = i + 1;
                }
            }
            let ghost gprev = *self;
            if let Some(l) = lu {
                let pass_at = self.schedule[l as usize];
                let entry = &mut self.registry[r4];
                entry.set_last(pass_at);
            }
            first.push(fu);
            last.push(lu);
            proof {
                if self.spec_registry() != gprev.spec_registry() {
                    assert(entry_core_eq(
                        self.spec_registry()[r4 as int],
                        gprev.spec_registry()[r4 as int],
                    ));
                }
                Self::lemma_inv_from_core(gprev, *self);
                if !is_trans {
                    assert(self.spec_registry()[r4 as int].spec_kind() == Type::Imported);
                    assert(forall|i2: int|
                        #[trigger] scheduled_use_at(views, sched, r4 as int, i2)
                            ==> self.spec_registry()[r4 as int].spec_kind() == Type::Imported);
                }
                assert(lifetime_placed(
                    views,
                    sched,
                    self.spec_registry()[r4 as int].spec_kind(),
                    r4 as int,
                    fu,
                    lu,
                ));
            }
            r4 = r4 + 1;
        }
        let ghost gpre2 = *self;
        self.first_use = first;
        self.last_use = last;
        self.compiled = true;
        proof {
            let g1 = *self;
            Self::lemma_inv_from_core(gpre2, g1);
            assert(g1.pass_views() == views);
            assert(g1.spec_nodes() == nodes);
            assert(g1.spec_schedule() == sched);
            assert forall|i: int| 0 <= i < g1.spec_schedule().len() implies spec_referenced(
                g1.pass_views(),
                g1.spec_nodes(),
                (#[trigger] g1.spec_schedule()[i]) as int,
            ) by {
                assert(spec_referenced(views, nodes, sched[i] as int));
            }
            assert forall|p5: int|
                0 <= p5 < g1.n_passes() && #[trigger] spec_referenced(
                    g1.pass_views(),
                    g1.spec_nodes(),
                    p5,
                ) implies exists|i: int|
                0 <= i < g1.spec_schedule().len() && (#[trigger] g1.spec_schedule()[i]) == p5 by {
                assert(spec_referenced(views, nodes, p5));
                let i = choose|i: int| 0 <= i < sched.len() && (#[trigger] sched[i]) == p5;
                assert(g1.spec_schedule()[i] == p5);
            }
            assert forall|r5: int| 0 <= r5 < g1.n_resources() implies #[trigger] g1.lifetime_wf(
                r5,
            ) by {
                assert(lifetime_placed(
                    views,
                    sched,
                    g1.spec_registry()[r5].spec_kind(),
                    r5,
                    first@[r5],
                    last@[r5],
                ));
            }
            assert(g1.compiled_inv());
            assert(g1.inv());
        }
        Ok(())
    }
}


/// A recoverable pass failure: the pass is skipped for this frame, later
/// passes still run.
pub struct PassError {
    pub message: String,
}

/// One step the executor took, in order.
#[derive(Clone, Copy, PartialEq, Eq, Structural, Debug)]
pub enum ExecEvent {
    /// A transient resource's device object was created (its creation point).
    Created { id: u32 },
    /// The pre-read barrier hook ran for a declared read.
    PreRead { id: u32, flags: u32 },
    /// The pre-write barrier hook ran for a declared write.
    PreWrite { id: u32, flags: u32 },
    /// The pass callback ran and succeeded.
    PassOk { pass: u32 },
    /// The pass callback reported a failure; execution continued.
    PassFailed { pass: u32 },
    /// A transient resource's device object was destroyed (its destruction
    /// point).
    Destroyed { id: u32 },
}

/// The external collaborator that performs device work while the executor
/// walks the compiled schedule.  The graph promises nothing about these
/// methods and proves its guarantees for every implementation.
pub trait PassExecutor {
    /// Create the device object for a transient resource at its creation
    /// point; the returned raw handle is stored in the resource's payload.
    fn create_resource(&mut self, id: u32, desc: &ResourceDesc) -> u64;

    /// Destroy the device object at the resource's destruction point.
    fn destroy_resource(&mut self, id: u32, desc: &ResourceDesc, data: &ResourceData);

    /// Apply a barrier before a declared read.
    fn pre_read(&mut self, barrier: &ResourceBarrier, flags: u32);

    /// Apply a barrier before a declared write.
    fn pre_write(&mut self, barrier: &ResourceBarrier, flags: u32);

    /// Run the pass callback against the resources the pass registered.
    fn execute_pass(
        &mut self,
        pass: u32,
        name: &str,
        resources: &FrameGraphPassResources,
        image_index: u32,
    ) -> Result<(), PassError>;
}

/// The creation events of schedule position `i`, over resources `0..r`.
pub open spec fn created_upto(first: Seq<Option<u32>>, i: int, r: int) -> Seq<ExecEvent>
    decreases r,
{
    if r <= 0 {
        Seq::empty()
    } else {
        created_upto(first, i, r - 1) + (if first[r - 1] matches Some(f) && f == i {
            seq![ExecEvent::Created { id: (r - 1) as u32 }]
        } else {
            Seq::empty()
        })
    }
}

/// The destruction events of schedule position `i`, over resources `0..r`.
pub open spec fn destroyed_upto(last: Seq<Option<u32>>, i: int, r: int) -> Seq<ExecEvent>
    decreases r,
{
    if r <= 0 {
        Seq::empty()
    } else {
        destroyed_upto(last, i, r - 1) + (if last[r - 1] matches Some(l) && l == i {
            seq![ExecEvent::Destroyed { id: (r - 1) as u32 }]
        } else {
            Seq::empty()
        })
    }
}

/// The pre-read hook events for the first `k` declared reads of a pass.
pub open spec fn read_hooks_upto(
    reads: Seq<AccessDeclaration>,
    descs: Seq<ResourceDesc>,
    k: int,
) -> Seq<ExecEvent>
    decreases k,
{
    if k <= 0 {
        Seq::empty()
    } else {
        read_hooks_upto(reads, descs, k - 1) + (if spec_has_pre_read(
            descs[reads[k - 1].resource.spec_id() as int],
        ) {
            seq![ExecEvent::PreRead {
                id: reads[k - 1].resource.spec_id(),
                flags: reads[k - 1].flags,
            }]
        } else {
            Seq::empty()
        })
    }
}

/// The pre-write hook events for the first `k` declared writes of a pass.
pub open spec fn write_hooks_upto(
    writes: Seq<AccessDeclaration>,
    descs: Seq<ResourceDesc>,
    k: int,
) -> Seq<ExecEvent>
    decreases k,
{
    if k <= 0 {
        Seq::empty()
    } else {
        write_hooks_upto(writes, descs, k - 1) + (if spec_has_pre_write(
            descs[writes[k - 1].resource.spec_id() as int],
        ) {
            seq![ExecEvent::PreWrite {
                id: writes[k - 1].resource.spec_id(),
                flags: writes[k - 1].flags,
            }]
        } else {
            Seq::empty()
        })
    }
}

/// Everything the executor does at one schedule position: create the
/// resources whose lifetime starts here, run the barrier hooks in the pass's
/// declaration order (reads, then writes), run the callback, then destroy
/// the resources whose lifetime ends here.
pub open spec fn segment_events(
    views: Seq<PassView>,
    sched: Seq<u32>,
    descs: Seq<ResourceDesc>,
    first: Seq<Option<u32>>,
    last: Seq<Option<u32>>,
    i: int,
    ok: bool,
) -> Seq<ExecEvent> {
    let pv = views[sched[i] as int];
    created_upto(first, i, first.len() as int) + read_hooks_upto(
        pv.reads,
        descs,
        pv.reads.len() as int,
    ) + write_hooks_upto(pv.writes, descs, pv.writes.len() as int) + seq![
        if ok {
            ExecEvent::PassOk { pass: sched[i] }
        } else {
            ExecEvent::PassFailed { pass: sched[i] }
        },
    ] + destroyed_upto(last, i, last.len() as int)
}

/// The executor's whole event sequence for the first `i` schedule positions,
/// given which passes succeeded.
pub open spec fn trace_upto(
    views: Seq<PassView>,
    sched: Seq<u32>,
    descs: Seq<ResourceDesc>,
    first: Seq<Option<u32>>,
    last: Seq<Option<u32>>,
    st: Seq<bool>,
    i: int,
) -> Seq<ExecEvent>
    decreases i,
{
    if i <= 0 {
        Seq::empty()
    } else {
        trace_upto(views, sched, descs, first, last, st, i - 1) + segment_events(
            views,
            sched,
            descs,
            first,
            last,
            i - 1,
            st[i - 1],
        )
    }
}

/// The registry's descriptors, by resource id.
pub open spec fn descs_of(g: FrameGraph) -> Seq<ResourceDesc> {
    g.spec_registry().map_values(|e: ResourceEntry| e.spec_descriptor())
}

/// The registry entry fields execution never touches (payload and liveness
/// are the executor's to change).
pub open spec fn entry_exec_eq(a: ResourceEntry, b: ResourceEntry) -> bool {
    &&& a.spec_kind() == b.spec_kind()
    &&& a.spec_id() == b.spec_id()
    &&& a.spec_version() == b.spec_version()
    &&& a.spec_name() == b.spec_name()
    &&& a.spec_descriptor() == b.spec_descriptor()
    &&& a.spec_producer() == b.spec_producer()
    &&& a.spec_last() == b.spec_last()
}

/// The trace prefix only reads the statuses of the positions it covers.
proof fn lemma_trace_upto_prefix(
    views: Seq<PassView>,
    sched: Seq<u32>,
    descs: Seq<ResourceDesc>,
    first: Seq<Option<u32>>,
    last: Seq<Option<u32>>,
    st1: Seq<bool>,
    st2: Seq<bool>,
    i: int,
)
    requires
        forall|j: int| 0 <= j < i ==> st1[j] == st2[j],
    ensures
        trace_upto(views, sched, descs, first, last, st1, i) == trace_upto(
            views,
            sched,
            descs,
            first,
            last,
            st2,
            i,
        ),
    decreases i,
{
    if i > 0 {
        lemma_trace_upto_prefix(views, sched, descs, first, last, st1, st2, i - 1);
    }
}

/// Is a payload recorded under this resource id?
pub open spec fn ids_declared(s: Seq<(u32, ResourceDesc, ResourceData)>, id: u32) -> bool {
    exists|j: int| 0 <= j < s.len() && (#[trigger] s[j]).0 == id
}

/// The resources accessor handed to a pass callback: the payloads and
/// descriptors of exactly the resources the pass registered, keyed by
/// resource id.
pub struct FrameGraphPassResources {
    entries: Vec<(u32, ResourceDesc, ResourceData)>,
}

impl FrameGraphPassResources {
    pub closed spec fn spec_entries(&self) -> Seq<(u32, ResourceDesc, ResourceData)> {
        self.entries@
    }

    /// Did the pass register this resource?
    pub open spec fn spec_declared(&self, id: u32) -> bool {
        ids_declared(self.spec_entries(), id)
    }

    pub fn contains(&self, res: FrameGraphResource) -> (b: bool)
        ensures
            b == self.spec_declared(res.spec_id()),
    {
        let id = res.id();
        let mut j: usize = 0;
        while j < self.entries.len()
            invariant
                j <= self.spec_entries().len(),
                id == res.spec_id(),
                forall|j2: int| 0 <= j2 < j ==> (#[trigger] self.spec_entries()[j2]).0 != id,
            decreases self.spec_entries().len() - j,
        {
            if self.entries[j].0 == id {
                proof {
                    assert(self.spec_entries()[j as int].0 == id);
                }
                return true;
            }
            j = j + 1;
        }
        false
    }

    /// Typed view of a registered resource's payload.  A handle the pass
    /// never registered, or a request for the wrong type, is a programming
    /// error excluded by precondition.
    pub fn get<T: Resource>(&self, res: FrameGraphResource) -> (r: &T)
        requires
            self.spec_declared(res.spec_id()),
            forall|j: int|
                0 <= j < self.spec_entries().len() && (#[trigger] self.spec_entries()[j]).0
                    == res.spec_id() ==> T::spec_matches(self.spec_entries()[j].2),
        ensures
            exists|j: int|
                0 <= j < self.spec_entries().len() && (#[trigger] self.spec_entries()[j]).0
                    == res.spec_id() && (forall|j2: int|
                    0 <= j2 < j ==> (#[trigger] self.spec_entries()[j2]).0 != res.spec_id()) && *r
                    == T::spec_of(self.spec_entries()[j].2),
    {
        let id = res.id();
        let mut j: usize = 0;
        while j < self.entries.len()
            invariant
                j <= self.spec_entries().len(),
                id == res.spec_id(),
                self.spec_declared(res.spec_id()),
                forall|j2: int|
                    0 <= j2 < self.spec_entries().len() && (#[trigger] self.spec_entries()[j2]).0
                        == res.spec_id() ==> T::spec_matches(self.spec_entries()[j2].2),
                forall|j2: int| 0 <= j2 < j ==> (#[trigger] self.spec_entries()[j2]).0 != id,
            decreases self.spec_entries().len() - j,
        {
            if self.entries[j].0 == id {
                proof {
                    assert(self.spec_entries()[j as int].0 == id);
                }
                return T::of_data(&self.entries[j].2);
            }
            j = j + 1;
        }
        vstd::pervasive::unreached()
    }
}

impl FrameGraph {
    /// Collect the payloads of the resources pass `p` registered, one entry
    /// per resource id.
    fn build_pass_resources(&self, p: usize) -> (res: FrameGraphPassResources)
        requires
            self.base_inv(),
            p < self.n_passes(),
        ensures
            forall|j: int|
                0 <= j < res.spec_entries().len() ==> {
                    let t = #[trigger] res.spec_entries()[j];
                    &&& (t.0 as int) < self.n_resources()
                    &&& t.1 == self.spec_registry()[t.0 as int].spec_descriptor()
                    &&& t.2 == self.spec_registry()[t.0 as int].spec_data()
                },
            forall|id: u32|
                #[trigger] res.spec_declared(id) <==> pass_uses(
                    self.pass_views()[p as int],
                    id as int,
                ),
    {
        let pass = &self.passes[p];
        let mut entries: Vec<(u32, ResourceDesc, ResourceData)> = Vec::new();
        let ghost pv = self.pass_views()[p as int];
        let mut k: usize = 0;
        while k < pass.creates.len()
            invariant
                self.base_inv(),
                p < self.n_passes(),
                pass.view() == self.pass_views()[p as int],
                pv == self.pass_views()[p as int],
                k <= pv.creates.len(),
                forall|j: int|
                    0 <= j < entries@.len() ==> {
                        let t = #[trigger] entries@[j];
                        &&& (t.0 as int) < self.n_resources()
                        &&& t.1 == self.spec_registry()[t.0 as int].spec_descriptor()
                        &&& t.2 == self.spec_registry()[t.0 as int].spec_data()
                        &&& pass_uses(pv, t.0 as int)
                    },
                forall|k2: int|
                    #![trigger pv.creates[k2]]
                    0 <= k2 < k ==> ids_declared(entries@, pv.creates[k2].spec_id()),
            decreases pv.creates.len() - k,
        {
            let id = pass.creates[k].id();
            proof {
                assert(pv.creates[k as int].spec_id() == id);
            }
            Self::add_resource_entry(&mut entries, self, id);
            k = k + 1;
        }
        let mut k: usize = 0;
        while k < pass.reads.len()
            invariant
                self.base_inv(),
                p < self.n_passes(),
                pass.view() == self.pass_views()[p as int],
                pv == self.pass_views()[p as int],
                k <= pv.reads.len(),
                forall|j: int|
                    0 <= j < entries@.len() ==> {
                        let t = #[trigger] entries@[j];
                        &&& (t.0 as int) < self.n_resources()
                        &&& t.1 == self.spec_registry()[t.0 as int].spec_descriptor()
                        &&& t.2 == self.spec_registry()[t.0 as int].spec_data()
                        &&& pass_uses(pv, t.0 as int)
                    },
                forall|k2: int|
                    #![trigger pv.creates[k2]]
                    0 <= k2 < pv.creates.len() ==> ids_declared(entries@, pv.creates[k2].spec_id()),
                forall|k2: int|
                    #![trigger pv.reads[k2]]
                    0 <= k2 < k ==> ids_declared(entries@, pv.reads[k2].resource.spec_id()),
            decreases pv.reads.len() - k,
        {
            let id = pass.reads[k].resource.id();
            proof {
                assert(pv.reads[k as int].resource.spec_id() == id);
            }
            Self::add_resource_entry(&mut entries, self, id);
            k = k + 1;
        }
        let mut k: usize = 0;
        while k < pass.writes.len()
            invariant
                self.base_inv(),
                p < self.n_passes(),
                pass.view() == self.pass_views()[p as int],
                pv == self.pass_views()[p as int],
                k <= pv.writes.len(),
                forall|j: int|
                    0 <= j < entries@.len() ==> {
                        let t = #[trigger] entries@[j];
                        &&& (t.0 as int) < self.n_resources()
                        &&& t.1 == self.spec_registry()[t.0 as int].spec_descriptor()
                        &&& t.2 == self.spec_registry()[t.0 as int].spec_data()
                        &&& pass_uses(pv, t.0 as int)
                    },
                forall|k2: int|
                    #![trigger pv.creates[k2]]
                    0 <= k2 < pv.creates.len() ==> ids_declared(entries@, pv.creates[k2].spec_id()),
                forall|k2: int|
                    #![trigger pv.reads[k2]]
                    0 <= k2 < pv.reads.len() ==> ids_declared(
                        entries@,
                        pv.reads[k2].resource.spec_id(),
                    ),
                forall|k2: int|
                    #![trigger pv.writes[k2]]
                    0 <= k2 < k ==> ids_declared(entries@, pv.writes[k2].resource.spec_id()),
            decreases pv.writes.len() - k,
        {
            let id = pass.writes[k].resource.id();
            proof {
                assert(pv.writes[k as int].resource.spec_id() == id);
            }
            Self::add_resource_entry(&mut entries, self, id);
            k = k + 1;
        }
        let res = FrameGraphPassResources { entries };
        proof {
            assert forall|id: u32| #[trigger] res.spec_declared(id) implies pass_uses(
                pv,
                id as int,
            ) by {
                let j = choose|j: int|
                    0 <= j < res.spec_entries().len() && (#[trigger] res.spec_entries()[j]).0 == id;
                assert(pass_uses(pv, res.spec_entries()[j].0 as int));
            }
            assert forall|id: u32| pass_uses(pv, id as int) implies #[trigger] res.spec_declared(
                id,
            ) by {
                if exists|k2: int|
                    0 <= k2 < pv.creates.len() && (#[trigger] pv.creates[k2]).spec_id()
                        == id as int {
                    let k2 = choose|k2: int|
                        0 <= k2 < pv.creates.len() && (#[trigger] pv.creates[k2]).spec_id()
                            == id as int;
                    assert(ids_declared(entries@, pv.creates[k2].spec_id()));
                } else if exists|k2: int|
                    0 <= k2 < pv.reads.len() && (#[trigger] pv.reads[k2]).resource.spec_id()
                        == id as int {
                    let k2 = choose|k2: int|
                        0 <= k2 < pv.reads.len() && (#[trigger] pv.reads[k2]).resource.spec_id()
                            == id as int;
                    assert(ids_declared(entries@, pv.reads[k2].resource.spec_id()));
                } else {
                    let k2 = choose|k2: int|
                        0 <= k2 < pv.writes.len() && (#[trigger] pv.writes[k2]).resource.spec_id()
                            == id as int;
                    assert(ids_declared(entries@, pv.writes[k2].resource.spec_id()));
                }
            }
        }
        res
    }

    /// Insert one resource's payload, unless that id is already present.
    fn add_resource_entry(
        entries: &mut Vec<(u32, ResourceDesc, ResourceData)>,
        g: &FrameGraph,
        id: u32,
    )
        requires
            g.base_inv(),
            (id as int) < g.n_resources(),
        ensures
            forall|j: int|
                0 <= j < old(entries)@.len() ==> final(entries)@[j] == old(entries)@[j],
            final(entries)@.len() >= old(entries)@.len(),
            ids_declared(final(entries)@, id),
            forall|id2: u32|
                #[trigger] ids_declared(final(entries)@, id2) <==> (ids_declared(
                    old(entries)@,
                    id2,
                ) || id2 == id),
            forall|j: int|
                old(entries)@.len() <= j < final(entries)@.len() ==> {
                    let t = #[trigger] final(entries)@[j];
                    &&& t.0 == id
                    &&& t.1 == g.spec_registry()[t.0 as int].spec_descriptor()
                    &&& t.2 == g.spec_registry()[t.0 as int].spec_data()
                },
    {
        let ghost e0 = entries@;
        let mut j: usize = 0;
        while j < entries.len()
            invariant
                j <= entries@.len(),
                entries@ == e0,
                forall|j2: int| 0 <= j2 < j ==> (#[trigger] entries@[j2]).0 != id,
            decreases entries@.len() - j,
        {
            if entries[j].0 == id {
                proof {
                    assert(entries@[j as int].0 == id);
                    assert(ids_declared(entries@, id));
                }
                return ;
            }
            j = j + 1;
        }
        entries.push((id, *g.registry[id as usize].descriptor(), *g.registry[id as usize].data()));
        proof {
            assert(entries@[entries@.len() - 1].0 == id);
            assert(ids_declared(entries@, id));
            assert forall|id2: u32| #[trigger] ids_declared(entries@, id2) implies (ids_declared(
                e0,
                id2,
            ) || id2 == id) by {
                let j2 = choose|j2: int|
                    0 <= j2 < entries@.len() && (#[trigger] entries@[j2]).0 == id2;
                if j2 < e0.len() {
                    assert(e0[j2].0 == id2);
                }
            }
            assert forall|id2: u32| ids_declared(e0, id2) implies ids_declared(
                entries@,
                id2,
            ) by {
                let j2 = choose|j2: int| 0 <= j2 < e0.len() && (#[trigger] e0[j2]).0 == id2;
                assert(entries@[j2].0 == id2);
            }
        }
    }
}


impl FrameGraph {
    /// Execute the compiled schedule: at each position, first create the
    /// transient resources whose lifetime starts here, then run the barrier
    /// hooks for the pass's declared reads and writes, then the pass
    /// callback, then destroy the transient resources whose lifetime ends
    /// here.  A failing callback only skips its own pass; later passes (and
    /// all destructions) still run.  The returned trace records every step
    /// in order; the graph promises its shape whatever the executor did.
    pub fn execute<E: PassExecutor>(&mut self, executor: &mut E, image_index: u32) -> (trace: Vec<
        ExecEvent,
    >)
        requires
            old(self).inv(),
            old(self).spec_compiled(),
        ensures
            final(self).inv(),
            final(self).spec_compiled(),
            final(self).pass_views() == old(self).pass_views(),
            final(self).spec_nodes() == old(self).spec_nodes(),
            final(self).spec_schedule() == old(self).spec_schedule(),
            final(self).spec_first_use() == old(self).spec_first_use(),
            final(self).spec_last_use() == old(self).spec_last_use(),
            final(self).spec_decl_error() == old(self).spec_decl_error(),
            final(self).n_resources() == old(self).n_resources(),
            forall|r: int|
                0 <= r < old(self).n_resources() ==> entry_exec_eq(
                    #[trigger] final(self).spec_registry()[r],
                    old(self).spec_registry()[r],
                ),
            forall|r: int|
                0 <= r < old(self).n_resources() && old(self).spec_first_use()[r] is None
                    ==> (#[trigger] final(self).spec_registry()[r]).spec_data() == old(
                    self,
                ).spec_registry()[r].spec_data(),
            exists|st: Seq<bool>|
                st.len() == old(self).spec_schedule().len() && trace@ == trace_upto(
                    old(self).pass_views(),
                    old(self).spec_schedule(),
                    descs_of(*old(self)),
                    old(self).spec_first_use(),
                    old(self).spec_last_use(),
                    st,
                    old(self).spec_schedule().len() as int,
                ),
    {
        let ghost g0 = *self;
        let ghost views = self.pass_views();
        let ghost nodes = self.spec_nodes();
        let ghost sched = self.spec_schedule();
        let ghost first = self.spec_first_use();
        let ghost last = self.spec_last_use();
        let ghost descs = descs_of(*self);
        let nr: usize = self.registry.len();
        let mut trace: Vec<ExecEvent> = Vec::new();
        let ghost mut st: Seq<bool> = Seq::empty();
        let mut i: usize = 0;
        proof {
            assert forall|r: int| 0 <= r < nr implies lifetime_placed(
                views,
                sched,
                g0.spec_registry()[r].spec_kind(),
                r,
                #[trigger] first[r],
                last[r],
            ) by {
                assert(g0.lifetime_wf(r));
            }
        }
        while i < self.schedule.len()
            invariant
                self.base_inv(),
                self.spec_compiled(),
                self.spec_decl_error() is None,
                views == self.pass_views(),
                nodes == self.spec_nodes(),
                sched == self.spec_schedule(),
                first == self.spec_first_use(),
                last == self.spec_last_use(),
                nr == self.n_resources(),
                first.len() == nr as int,
                last.len() == nr as int,
                descs.len() == nr as int,
                forall|i2: int| 0 <= i2 < sched.len() ==> (#[trigger] sched[i2]) < views.len(),
                forall|i2: int, j2: int| 0 <= i2 < j2 < sched.len() ==> sched[i2] < sched[j2],
                forall|i2: int|
                    0 <= i2 < sched.len() ==> spec_referenced(
                        views,
                        nodes,
                        (#[trigger] sched[i2]) as int,
                    ),
                forall|p2: int|
                    0 <= p2 < views.len() && #[trigger] spec_referenced(views, nodes, p2)
                        ==> exists|i2: int| 0 <= i2 < sched.len() && (#[trigger] sched[i2]) == p2,
                forall|r: int|
                    0 <= r < nr ==> lifetime_placed(
                        views,
                        sched,
                        g0.spec_registry()[r].spec_kind(),
                        r,
                        #[trigger] first[r],
                        last[r],
                    ),
                forall|r: int|
                    0 <= r < nr ==> entry_exec_eq(
                        #[trigger] self.spec_registry()[r],
                        g0.spec_registry()[r],
                    ),
                forall|r: int|
                    0 <= r < nr ==> (#[trigger] descs[r]) == g0.spec_registry()[
                        r].spec_descriptor(),
                forall|r: int|
                    0 <= r < nr && first[r] is None ==> (#[trigger] self.spec_registry()[
                        r]).spec_data() == g0.spec_registry()[r].spec_data(),
                forall|r: int|
                    0 <= r < nr ==> ((#[trigger] self.spec_registry()[r]).spec_alive() <==> (
                    first[r] matches Some(f) && last[r] matches Some(l) && f < i && i <= l)),
                st.len() == i as int,
                i <= sched.len(),
                trace@ == trace_upto(views, sched, descs, first, last, st, i as int),
            decreases sched.len() - i,
        {
            let pu = self.schedule[i];
            let p = pu as usize;
            let ghost st0 = st;
            let ghost tr0 = trace@;
            // Creation points: resources whose first scheduled use is here.
            let mut r: usize = 0;
            while r < nr
                invariant
                    self.base_inv(),
                    self.spec_compiled(),
                    self.spec_decl_error() is None,
                    views == self.pass_views(),
                    nodes == self.spec_nodes(),
                    sched == self.spec_schedule(),
                    first == self.spec_first_use(),
                    last == self.spec_last_use(),
                    nr == self.n_resources(),
                    first.len() == nr as int,
                    last.len() == nr as int,
                    descs.len() == nr as int,
                    i < sched.len(),
                    r <= nr,
                    forall|r2: int|
                        0 <= r2 < nr ==> lifetime_placed(
                            views,
                            sched,
                            g0.spec_registry()[r2].spec_kind(),
                            r2,
                            #[trigger] first[r2],
                            last[r2],
                        ),
                    forall|r2: int|
                        0 <= r2 < nr ==> entry_exec_eq(
                            #[trigger] self.spec_registry()[r2],
                            g0.spec_registry()[r2],
                        ),
                    forall|r2: int|
                        0 <= r2 < nr ==> (#[trigger] descs[r2]) == g0.spec_registry()[
                            r2].spec_descriptor(),
                    forall|r2: int|
                        0 <= r2 < nr && first[r2] is None ==> (#[trigger] self.spec_registry()[
                            r2]).spec_data() == g0.spec_registry()[r2].spec_data(),
                    forall|r2: int|
                        0 <= r2 < nr ==> ((#[trigger] self.spec_registry()[r2]).spec_alive() <==> (
                        first[r2] matches Some(f) && last[r2] matches Some(l) && i <= l && (f < i
                            || (f == i && r2 < r)))),
                    trace@ == tr0 + created_upto(first, i as int, r as int),
                decreases nr - r,
            {
                let fu = self.first_use[r];
                if let Some(f) = fu {
                    if f as usize == i {
                        let desc = *self.registry[r].descriptor();
                        let raw = executor.create_resource(r as u32, &desc);
                        let data = match desc {
                            ResourceDesc::Texture(_) => ResourceData::Texture(
                                FrameGraphTexture { image: raw },
                            ),
                            ResourceDesc::Buffer(_) => ResourceData::Buffer(
                                FrameGraphBuffer { buffer: raw },
                            ),
                        };
                        let ghost gprev = *self;
                        proof {
                            assert(lifetime_placed(
                                views,
                                sched,
                                g0.spec_registry()[r as int].spec_kind(),
                                r as int,
                                first[r as int],
                                last[r as int],
                            ));
                            assert(g0.spec_registry()[r as int].spec_kind() == Type::Transient);
                            assert(self.spec_registry()[r as int].spec_kind() == Type::Transient);
                            assert(!self.spec_registry()[r as int].spec_alive());
                        }
                        let entry = &mut self.registry[r];
                        entry.set_data(data);
                        entry.create();
                        trace.push(ExecEvent::Created { id: r as u32 });
                        proof {
                            Self::lemma_inv_from_core(gprev, *self);
                        }
                    }
                }
                proof {
                    assert(trace@ =~= tr0 + created_upto(first, i as int, (r + 1) as int));
                }
                r = r + 1;
            }
            // Barrier hooks, in the pass's declaration order: reads first.
            let ghost tr1 = trace@;
            let nreads = self.passes[p].reads.len();
            let mut k: usize = 0;
            while k < nreads
                invariant
                    self.base_inv(),
                    self.spec_compiled(),
                    self.spec_decl_error() is None,
                    views == self.pass_views(),
                    nodes == self.spec_nodes(),
                    sched == self.spec_schedule(),
                    first == self.spec_first_use(),
                    last == self.spec_last_use(),
                    nr == self.n_resources(),
                    descs.len() == nr as int,
                    i < sched.len(),
                    p < views.len(),
                    p == sched[i as int] as int,
                    nreads == views[p as int].reads.len(),
                    k <= nreads,
                    forall|r2: int|
                        0 <= r2 < nr ==> entry_exec_eq(
                            #[trigger] self.spec_registry()[r2],
                            g0.spec_registry()[r2],
                        ),
                    forall|r2: int|
                        0 <= r2 < nr ==> (#[trigger] descs[r2]) == g0.spec_registry()[
                            r2].spec_descriptor(),
                    trace@ == tr1 + read_hooks_upto(views[p as int].reads, descs, k as int),
                decreases nreads - k,
            {
                let d = self.passes[p].reads[k];
                proof {
                    assert(d == views[p as int].reads[k as int]);
                    assert(FrameGraph::decls_in_range(views[p as int], nr as int));
                }
                let rid = d.resource.id();
                let hook = self.registry[rid as usize].pre_read(d.flags);
                match hook {
                    Some(barrier) => {
                        executor.pre_read(&barrier, d.flags);
                        trace.push(ExecEvent::PreRead { id: rid, flags: d.flags });
                    },
                    None => {},
                }
                proof {
                    assert(self.spec_registry()[rid as int].spec_descriptor() == descs[
                        rid as int]);
                    assert(trace@ =~= tr1 + read_hooks_upto(
                        views[p as int].reads,
                        descs,
                        (k + 1) as int,
                    ));
                }
                k = k + 1;
            }
            // ... then writes.
            let ghost tr2 = trace@;
            let nwrites = self.passes[p].writes.len();
            let mut k: usize = 0;
            while k < nwrites
                invariant
                    self.base_inv(),
                    self.spec_compiled(),
                    self.spec_decl_error() is None,
                    views == self.pass_views(),
                    nodes == self.spec_nodes(),
                    sched == self.spec_schedule(),
                    first == self.spec_first_use(),
                    last == self.spec_last_use(),
                    nr == self.n_resources(),
                    descs.len() == nr as int,
                    i < sched.len(),
                    p < views.len(),
                    p == sched[i as int] as int,
                    nwrites == views[p as int].writes.len(),
                    k <= nwrites,
                    forall|r2: int|
                        0 <= r2 < nr ==> entry_exec_eq(
                            #[trigger] self.spec_registry()[r2],
                            g0.spec_registry()[r2],
                        ),
                    forall|r2: int|
                        0 <= r2 < nr ==> (#[trigger] descs[r2]) == g0.spec_registry()[
                            r2].spec_descriptor(),
                    trace@ == tr2 + write_hooks_upto(views[p as int].writes, descs, k as int),
                decreases nwrites - k,
            {
                let d = self.passes[p].writes[k];
                proof {
                    assert(d == views[p as int].writes[k as int]);
                    assert(FrameGraph::decls_in_range(views[p as int], nr as int));
                }
                let rid = d.resource.id();
                let hook = self.registry[rid as usize].pre_write(d.flags);
                match hook {
                    Some(barrier) => {
                        executor.pre_write(&barrier, d.flags);
                        trace.push(ExecEvent::PreWrite { id: rid, flags: d.flags });
                    },
                    None => {},
                }
                proof {
                    assert(self.spec_registry()[rid as int].spec_descriptor() == descs[
                        rid as int]);
                    assert(trace@ =~= tr2 + write_hooks_upto(
                        views[p as int].writes,
                        descs,
                        (k + 1) as int,
                    ));
                }
                k = k + 1;
            }
            // The pass callback, against the resources it registered.
            let resources = self.build_pass_resources(p);
            let outcome = executor.execute_pass(
                pu,
                self.passes[p].node().getName().as_str(),
                &resources,
                image_index,
            );
            let ok = outcome.is_ok();
            let ghost tr3 = trace@;
            if ok {
                trace.push(ExecEvent::PassOk { pass: pu });
            } else {
                trace.push(ExecEvent::PassFailed { pass: pu });
            }
            proof {
                st = st.push(ok);
            }
            // Destruction points: resources whose last scheduled use is here.
            let ghost tr4 = trace@;
            let mut r2: usize = 0;
            while r2 < nr
                invariant
                    self.base_inv(),
                    self.spec_compiled(),
                    self.spec_decl_error() is None,
                    views == self.pass_views(),
                    nodes == self.spec_nodes(),
                    sched == self.spec_schedule(),
                    first == self.spec_first_use(),
                    last == self.spec_last_use(),
                    nr == self.n_resources(),
                    first.len() == nr as int,
                    last.len() == nr as int,
                    descs.len() == nr as int,
                    i < sched.len(),
                    r2 <= nr,
                    forall|r3: int|
                        0 <= r3 < nr ==> lifetime_placed(
                            views,
                            sched,
                            g0.spec_registry()[r3].spec_kind(),
                            r3,
                            #[trigger] first[r3],
                            last[r3],
                        ),
                    forall|r3: int|
                        0 <= r3 < nr ==> entry_exec_eq(
                            #[trigger] self.spec_registry()[r3],
                            g0.spec_registry()[r3],
                        ),
                    forall|r3: int|
                        0 <= r3 < nr ==> (#[trigger] descs[r3]) == g0.spec_registry()[
                            r3].spec_descriptor(),
                    forall|r3: int|
                        0 <= r3 < nr && first[r3] is None ==> (#[trigger] self.spec_registry()[
                            r3]).spec_data() == g0.spec_registry()[r3].spec_data(),
                    forall|r3: int|
                        0 <= r3 < nr ==> ((#[trigger] self.spec_registry()[r3]).spec_alive() <==> (
                        first[r3] matches Some(f) && last[r3] matches Some(l) && f <= i && i <= l
                            && (i < l || r3 >= r2))),
                    trace@ == tr4 + destroyed_upto(last, i as int, r2 as int),
                decreases nr - r2,
            {
                let lu = self.last_use[r2];
                if let Some(l) = lu {
                    if l as usize == i {
                        let desc = *self.registry[r2].descriptor();
                        let data = *self.registry[r2].data();
                        executor.destroy_resource(r2 as u32, &desc, &data);
                        let ghost gprev = *self;
                        proof {
                            assert(lifetime_placed(
                                views,
                                sched,
                                g0.spec_registry()[r2 as int].spec_kind(),
                                r2 as int,
                                first[r2 as int],
                                last[r2 as int],
                            ));
                            assert(g0.spec_registry()[r2 as int].spec_kind() == Type::Transient);
                            assert(self.spec_registry()[r2 as int].spec_kind() == Type::Transient);
                            assert(self.spec_registry()[r2 as int].spec_alive());
                        }
                        let entry = &mut self.registry[r2];
                        entry.destroy();
                        trace.push(ExecEvent::Destroyed { id: r2 as u32 });
                        proof {
                            Self::lemma_inv_from_core(gprev, *self);
                        }
                    }
                }
                proof {
                    assert(trace@ =~= tr4 + destroyed_upto(last, i as int, (r2 + 1) as int));
                }
                r2 = r2 + 1;
            }
            proof {
                assert(trace@ =~= tr0 + segment_events(
                    views,
                    sched,
                    descs,
                    first,
                    last,
                    i as int,
                    ok,
                ));
                lemma_trace_upto_prefix(views, sched, descs, first, last, st0, st, i as int);
                assert(trace@ == trace_upto(views, sched, descs, first, last, st, (i + 1) as int));
            }
            i = i + 1;
        }
        proof {
            let g1 = *self;
            assert forall|r: int| 0 <= r < g1.n_resources() implies !(
            #[trigger] g1.spec_registry()[r]).spec_alive() by {
                if first[r] is Some {
                    assert(lifetime_placed(
                        views,
                        sched,
                        g0.spec_registry()[r].spec_kind(),
                        r,
                        first[r],
                        last[r],
                    ));
                }
            }
            assert forall|r: int| 0 <= r < g1.n_resources() implies #[trigger] g1.lifetime_wf(
                r,
            ) by {
                assert(lifetime_placed(
                    views,
                    sched,
                    g0.spec_registry()[r].spec_kind(),
                    r,
                    first[r],
                    last[r],
                ));
                assert(g1.spec_registry()[r].spec_kind() == g0.spec_registry()[r].spec_kind());
            }
            assert(g1.compiled_inv());
            assert(g1.inv());
        }
        trace
    }
}


/// Does this event touch resource `r`: a barrier hook for it, or the
/// callback of a pass that registered it?
pub open spec fn touches_resource(views: Seq<PassView>, e: ExecEvent, r: int) -> bool {
    match e {
        ExecEvent::PreRead { id, .. } => id == r,
        ExecEvent::PreWrite { id, .. } => id == r,
        ExecEvent::PassOk { pass } => pass < views.len() && pass_uses(views[pass as int], r),
        ExecEvent::PassFailed { pass } => pass < views.len() && pass_uses(views[pass as int], r),
        _ => false,
    }
}

/// Character of the creation block: only creation events of resources whose
/// lifetime starts at `j`, each at most once.
proof fn lemma_created_upto_chars(first: Seq<Option<u32>>, j: int, n: int, r: int)
    requires
        0 <= n <= first.len(),
        first.len() <= u32::MAX,
        0 <= r < first.len(),
    ensures
        ({
            let s = created_upto(first, j, n);
            &&& forall|idx: int|
                0 <= idx < s.len() ==> ((#[trigger] s[idx]) matches ExecEvent::Created { id }
                    && id < n && (first[id as int] matches Some(f) && f == j))
            &&& ((0 <= r < n && (first[r] matches Some(f) && f == j)) ==> exists|c: int|
                0 <= c < s.len() && (#[trigger] s[c]) == (ExecEvent::Created { id: r as u32 })
                    && forall|idx: int|
                    0 <= idx < s.len() && idx != c ==> s[idx] != (ExecEvent::Created {
                        id: r as u32,
                    }))
            &&& (!(0 <= r < n && (first[r] matches Some(f) && f == j)) ==> forall|idx: int|
                0 <= idx < s.len() ==> (#[trigger] s[idx]) != (ExecEvent::Created { id: r as u32 }))
        }),
    decreases n,
{
    if n > 0 {
        lemma_created_upto_chars(first, j, n - 1, r);
        let s0 = created_upto(first, j, n - 1);
        let s = created_upto(first, j, n);
        assert forall|idx: int| 0 <= idx < s.len() implies ((#[trigger] s[idx])
            matches ExecEvent::Created { id } && id < n && (first[id as int] matches Some(f) && f
            == j)) by {
            if idx < s0.len() {
                assert(s[idx] == s0[idx]);
            } else {
                assert(s[idx] == (ExecEvent::Created { id: (n - 1) as u32 }));
            }
        }
        if !(0 <= r < n && (first[r] matches Some(f) && f == j)) {
            assert forall|idx: int| 0 <= idx < s.len() implies (#[trigger] s[idx]) != (
            ExecEvent::Created { id: r as u32 }) by {
                if idx < s0.len() {
                    assert(s[idx] == s0[idx]);
                } else {
                    assert(s[idx] == (ExecEvent::Created { id: (n - 1) as u32 }));
                    assert(r != n - 1);
                }
            }
        }
        if 0 <= r < n - 1 && (first[r] matches Some(f) && f == j) {
            let c = choose|c: int|
                0 <= c < s0.len() && (#[trigger] s0[c]) == (ExecEvent::Created { id: r as u32 })
                    && forall|idx: int|
                    0 <= idx < s0.len() && idx != c ==> s0[idx] != (ExecEvent::Created {
                        id: r as u32,
                    });
            assert(s[c] == (ExecEvent::Created { id: r as u32 }));
            assert forall|idx: int| 0 <= idx < s.len() && idx != c implies s[idx] != (
            ExecEvent::Created { id: r as u32 }) by {
                if idx < s0.len() {
                    assert(s[idx] == s0[idx]);
                } else {
                    assert(s[idx] == (ExecEvent::Created { id: (n - 1) as u32 }));
                    assert(r != n - 1);
                }
            }
        }
        if r == n - 1 && (first[r] matches Some(f) && f == j) {
            assert(s[s.len() - 1] == (ExecEvent::Created { id: r as u32 }));
        }
    }
}

/// Character of the destruction block, mirroring the creation block.
proof fn lemma_destroyed_upto_chars(last: Seq<Option<u32>>, j: int, n: int, r: int)
    requires
        0 <= n <= last.len(),
        last.len() <= u32::MAX,
        0 <= r < last.len(),
    ensures
        ({
            let s = destroyed_upto(last, j, n);
            &&& forall|idx: int|
                0 <= idx < s.len() ==> ((#[trigger] s[idx]) matches ExecEvent::Destroyed { id }
                    && id < n && (last[id as int] matches Some(l) && l == j))
            &&& ((0 <= r < n && (last[r] matches Some(l) && l == j)) ==> exists|c: int|
                0 <= c < s.len() && (#[trigger] s[c]) == (ExecEvent::Destroyed { id: r as u32 })
                    && forall|idx: int|
                    0 <= idx < s.len() && idx != c ==> s[idx] != (ExecEvent::Destroyed {
                        id: r as u32,
                    }))
            &&& (!(0 <= r < n && (last[r] matches Some(l) && l == j)) ==> forall|idx: int|
                0 <= idx < s.len() ==> (#[trigger] s[idx]) != (ExecEvent::Destroyed {
                    id: r as u32,
                }))
        }),
    decreases n,
{
    if n > 0 {
        lemma_destroyed_upto_chars(last, j, n - 1, r);
        let s0 = destroyed_upto(last, j, n - 1);
        let s = destroyed_upto(last, j, n);
        assert forall|idx: int| 0 <= idx < s.len() implies ((#[trigger] s[idx])
            matches ExecEvent::Destroyed { id } && id < n && (last[id as int] matches Some(l) && l
            == j)) by {
            if idx < s0.len() {
                assert(s[idx] == s0[idx]);
            } else {
                assert(s[idx] == (ExecEvent::Destroyed { id: (n - 1) as u32 }));
            }
        }
        if !(0 <= r < n && (last[r] matches Some(l) && l == j)) {
            assert forall|idx: int| 0 <= idx < s.len() implies (#[trigger] s[idx]) != (
            ExecEvent::Destroyed { id: r as u32 }) by {
                if idx < s0.len() {
                    assert(s[idx] == s0[idx]);
                } else {
                    assert(s[idx] == (ExecEvent::Destroyed { id: (n - 1) as u32 }));
                    assert(r != n - 1);
                }
            }
        }
        if 0 <= r < n - 1 && (last[r] matches Some(l) && l == j) {
            let c = choose|c: int|
                0 <= c < s0.len() && (#[trigger] s0[c]) == (ExecEvent::Destroyed { id: r as u32 })
                    && forall|idx: int|
                    0 <= idx < s0.len() && idx != c ==> s0[idx] != (ExecEvent::Destroyed {
                        id: r as u32,
                    });
            assert(s[c] == (ExecEvent::Destroyed { id: r as u32 }));
            assert forall|idx: int| 0 <= idx < s.len() && idx != c implies s[idx] != (
            ExecEvent::Destroyed { id: r as u32 }) by {
                if idx < s0.len() {
                    assert(s[idx] == s0[idx]);
                } else {
                    assert(s[idx] == (ExecEvent::Destroyed { id: (n - 1) as u32 }));
                    assert(r != n - 1);
                }
            }
        }
        if r == n - 1 && (last[r] matches Some(l) && l == j) {
            assert(s[s.len() - 1] == (ExecEvent::Destroyed { id: r as u32 }));
        }
    }
}

/// The read-hook block holds only pre-read events for declared reads.
proof fn lemma_read_hooks_chars(reads: Seq<AccessDeclaration>, descs: Seq<ResourceDesc>, k: int)
    requires
        k <= reads.len(),
    ensures
        ({
            let s = read_hooks_upto(reads, descs, k);
            forall|idx: int|
                0 <= idx < s.len() ==> ((#[trigger] s[idx]) matches ExecEvent::PreRead { id, .. }
                    && exists|k2: int|
                    0 <= k2 < k && (#[trigger] reads[k2]).resource.spec_id() == id)
        }),
    decreases k,
{
    if k > 0 {
        lemma_read_hooks_chars(reads, descs, k - 1);
        let s = read_hooks_upto(reads, descs, k);
        let s0 = read_hooks_upto(reads, descs, k - 1);
        assert forall|idx: int| 0 <= idx < s.len() implies ((#[trigger] s[idx])
            matches ExecEvent::PreRead { id, .. } && exists|k2: int|
            0 <= k2 < k && (#[trigger] reads[k2]).resource.spec_id() == id) by {
            if idx < s0.len() {
                assert(s[idx] == s0[idx]);
            } else {
                assert(reads[k - 1].resource.spec_id() == reads[k - 1].resource.spec_id());
            }
        }
    }
}

/// The write-hook block holds only pre-write events for declared writes.
proof fn lemma_write_hooks_chars(writes: Seq<AccessDeclaration>, descs: Seq<ResourceDesc>, k: int)
    requires
        k <= writes.len(),
    ensures
        ({
            let s = write_hooks_upto(writes, descs, k);
            forall|idx: int|
                0 <= idx < s.len() ==> ((#[trigger] s[idx]) matches ExecEvent::PreWrite { id, .. }
                    && exists|k2: int|
                    0 <= k2 < k && (#[trigger] writes[k2]).resource.spec_id() == id)
        }),
    decreases k,
{
    if k > 0 {
        lemma_write_hooks_chars(writes, descs, k - 1);
        let s = write_hooks_upto(writes, descs, k);
        let s0 = write_hooks_upto(writes, descs, k - 1);
        assert forall|idx: int| 0 <= idx < s.len() implies ((#[trigger] s[idx])
            matches ExecEvent::PreWrite { id, .. } && exists|k2: int|
            0 <= k2 < k && (#[trigger] writes[k2]).resource.spec_id() == id) by {
            if idx < s0.len() {
                assert(s[idx] == s0[idx]);
            } else {
                assert(writes[k - 1].resource.spec_id() == writes[k - 1].resource.spec_id());
            }
        }
    }
}

/// Character of one whole segment with respect to resource `r`: its
/// creation event appears exactly when `r`'s lifetime starts here (once, and
/// before anything that touches `r`), its destruction event exactly when the
/// lifetime ends here (once, after everything that touches `r`), and
/// touching `r` at all means this position is a scheduled use of `r`.
#[verifier::spinoff_prover]
#[verifier::rlimit(60)]
proof fn lemma_segment_chars(
    views: Seq<PassView>,
    sched: Seq<u32>,
    descs: Seq<ResourceDesc>,
    first: Seq<Option<u32>>,
    last: Seq<Option<u32>>,
    j: int,
    ok: bool,
    r: int,
)
    requires
        0 <= j < sched.len(),
        (sched[j] as int) < views.len(),
        first.len() == last.len(),
        first.len() <= u32::MAX,
        0 <= r < first.len(),
        FrameGraph::decls_in_range(views[sched[j] as int], first.len() as int),
    ensures
        ({
            let s = segment_events(views, sched, descs, first, last, j, ok);
            &&& ((first[r] matches Some(f) && f == j) ==> exists|c: int|
                0 <= c < s.len() && (#[trigger] s[c]) == (ExecEvent::Created { id: r as u32 })
                    && (forall|idx: int|
                    0 <= idx < s.len() && idx != c ==> s[idx] != (ExecEvent::Created {
                        id: r as u32,
                    })) && (forall|idx: int|
                    0 <= idx < s.len() && touches_resource(views, #[trigger] s[idx], r) ==> c
                        < idx))
            &&& (!(first[r] matches Some(f) && f == j) ==> forall|idx: int|
                0 <= idx < s.len() ==> (#[trigger] s[idx]) != (ExecEvent::Created { id: r as u32 }))
            &&& ((last[r] matches Some(l) && l == j) ==> exists|d: int|
                0 <= d < s.len() && (#[trigger] s[d]) == (ExecEvent::Destroyed { id: r as u32 })
                    && (forall|idx: int|
                    0 <= idx < s.len() && idx != d ==> s[idx] != (ExecEvent::Destroyed {
                        id: r as u32,
                    })) && (forall|idx: int|
                    0 <= idx < s.len() && touches_resource(views, #[trigger] s[idx], r) ==> idx
                        < d))
            &&& (!(last[r] matches Some(l) && l == j) ==> forall|idx: int|
                0 <= idx < s.len() ==> (#[trigger] s[idx]) != (ExecEvent::Destroyed {
                    id: r as u32,
                }))
            &&& (forall|idx: int|
                0 <= idx < s.len() && touches_resource(views, #[trigger] s[idx], r)
                    ==> scheduled_use_at(views, sched, r, j))
            &&& (forall|idx: int, idx2: int|
                0 <= idx < s.len() && 0 <= idx2 < s.len() && (#[trigger] s[idx]) == (
                ExecEvent::Created { id: r as u32 }) && (#[trigger] s[idx2]) == (
                ExecEvent::Destroyed { id: r as u32 }) ==> idx < idx2)
        }),
{
    let pv = views[sched[j] as int];
    let ca = created_upto(first, j, first.len() as int);
    let rh = read_hooks_upto(pv.reads, descs, pv.reads.len() as int);
    let wh = write_hooks_upto(pv.writes, descs, pv.writes.len() as int);
    let pe = seq![
        if ok {
            ExecEvent::PassOk { pass: sched[j] }
        } else {
            ExecEvent::PassFailed { pass: sched[j] }
        },
    ];
    let de = destroyed_upto(last, j, last.len() as int);
    let s = segment_events(views, sched, descs, first, last, j, ok);
    lemma_created_upto_chars(first, j, first.len() as int, r);
    lemma_destroyed_upto_chars(last, j, last.len() as int, r);
    lemma_read_hooks_chars(pv.reads, descs, pv.reads.len() as int);
    lemma_write_hooks_chars(pv.writes, descs, pv.writes.len() as int);
    assert(s =~= ca + rh + wh + pe + de);
    assert(s.len() == ca.len() + rh.len() + wh.len() + 1 + de.len());
    // Where each kind of event can sit in the segment.
    assert forall|idx: int|
        0 <= idx < s.len() && touches_resource(views, #[trigger] s[idx], r) implies (ca.len()
        <= idx < ca.len() + rh.len() + wh.len() + 1 && scheduled_use_at(views, sched, r, j)) by {
        if idx < ca.len() {
            assert(s[idx] == ca[idx]);
        } else if idx < ca.len() + rh.len() {
            assert(s[idx] == rh[idx - ca.len()]);
            let id = s[idx]->PreRead_id;
            let k2 = choose|k2: int|
                0 <= k2 < pv.reads.len() && (#[trigger] pv.reads[k2]).resource.spec_id() == id;
            assert(pass_uses(pv, r));
        } else if idx < ca.len() + rh.len() + wh.len() {
            assert(s[idx] == wh[idx - ca.len() - rh.len()]);
            let id = s[idx]->PreWrite_id;
            let k2 = choose|k2: int|
                0 <= k2 < pv.writes.len() && (#[trigger] pv.writes[k2]).resource.spec_id() == id;
            assert(pass_uses(pv, r));
        } else if idx == ca.len() + rh.len() + wh.len() {
            assert(s[idx] == pe[0]);
            assert(pass_uses(views[sched[j] as int], r));
        } else {
            assert(s[idx] == de[idx - ca.len() - rh.len() - wh.len() - 1]);
        }
    }
    if first[r] matches Some(f) && f == j {
        let c = choose|c: int|
            0 <= c < ca.len() && (#[trigger] ca[c]) == (ExecEvent::Created { id: r as u32 })
                && forall|idx: int|
                0 <= idx < ca.len() && idx != c ==> ca[idx] != (ExecEvent::Created {
                    id: r as u32,
                });
        assert(s[c] == (ExecEvent::Created { id: r as u32 }));
        assert forall|idx: int| 0 <= idx < s.len() && idx != c implies s[idx] != (
        ExecEvent::Created { id: r as u32 }) by {
            if idx < ca.len() {
                assert(s[idx] == ca[idx]);
            } else if idx < ca.len() + rh.len() {
                assert(s[idx] == rh[idx - ca.len()]);
            } else if idx < ca.len() + rh.len() + wh.len() {
                assert(s[idx] == wh[idx - ca.len() - rh.len()]);
            } else if idx == ca.len() + rh.len() + wh.len() {
                assert(s[idx] == pe[0]);
            } else {
                assert(s[idx] == de[idx - ca.len() - rh.len() - wh.len() - 1]);
            }
        }
    }
    assert forall|idx: int|
        0 <= idx < s.len() && !(first[r] matches Some(f) && f == j) implies s[idx] != (
    ExecEvent::Created { id: r as u32 }) by {
        if idx < ca.len() {
            assert(s[idx] == ca[idx]);
        } else if idx < ca.len() + rh.len() {
            assert(s[idx] == rh[idx - ca.len()]);
        } else if idx < ca.len() + rh.len() + wh.len() {
            assert(s[idx] == wh[idx - ca.len() - rh.len()]);
        } else if idx == ca.len() + rh.len() + wh.len() {
            assert(s[idx] == pe[0]);
        } else {
            assert(s[idx] == de[idx - ca.len() - rh.len() - wh.len() - 1]);
        }
    }
    if last[r] matches Some(l) && l == j {
        let d0 = choose|d0: int|
            0 <= d0 < de.len() && (#[trigger] de[d0]) == (ExecEvent::Destroyed { id: r as u32 })
                && forall|idx: int|
                0 <= idx < de.len() && idx != d0 ==> de[idx] != (ExecEvent::Destroyed {
                    id: r as u32,
                });
        let d = ca.len() + rh.len() + wh.len() + 1 + d0;
        assert(s[d] == (ExecEvent::Destroyed { id: r as u32 }));
        assert forall|idx: int| 0 <= idx < s.len() && idx != d implies s[idx] != (
        ExecEvent::Destroyed { id: r as u32 }) by {
            if idx < ca.len() {
                assert(s[idx] == ca[idx]);
            } else if idx < ca.len() + rh.len() {
                assert(s[idx] == rh[idx - ca.len()]);
            } else if idx < ca.len() + rh.len() + wh.len() {
                assert(s[idx] == wh[idx - ca.len() - rh.len()]);
            } else if idx == ca.len() + rh.len() + wh.len() {
                assert(s[idx] == pe[0]);
            } else {
                assert(s[idx] == de[idx - ca.len() - rh.len() - wh.len() - 1]);
            }
        }
    }
    assert forall|idx: int|
        0 <= idx < s.len() && !(last[r] matches Some(l) && l == j) implies s[idx] != (
    ExecEvent::Destroyed { id: r as u32 }) by {
        if idx < ca.len() {
            assert(s[idx] == ca[idx]);
        } else if idx < ca.len() + rh.len() {
            assert(s[idx] == rh[idx - ca.len()]);
        } else if idx < ca.len() + rh.len() + wh.len() {
            assert(s[idx] == wh[idx - ca.len() - rh.len()]);
        } else if idx == ca.len() + rh.len() + wh.len() {
            assert(s[idx] == pe[0]);
        } else {
            assert(s[idx] == de[idx - ca.len() - rh.len() - wh.len() - 1]);
        }
    }
    assert forall|idx: int, idx2: int|
        0 <= idx < s.len() && 0 <= idx2 < s.len() && (#[trigger] s[idx]) == (ExecEvent::Created {
            id: r as u32,
        }) && (#[trigger] s[idx2]) == (ExecEvent::Destroyed { id: r as u32 }) implies idx
        < idx2 by {
        if idx >= ca.len() {
            if idx < ca.len() + rh.len() {
                assert(s[idx] == rh[idx - ca.len()]);
            } else if idx < ca.len() + rh.len() + wh.len() {
                assert(s[idx] == wh[idx - ca.len() - rh.len()]);
            } else if idx == ca.len() + rh.len() + wh.len() {
                assert(s[idx] == pe[0]);
            } else {
                assert(s[idx] == de[idx - ca.len() - rh.len() - wh.len() - 1]);
            }
        }
        if idx2 < ca.len() {
            assert(s[idx2] == ca[idx2]);
        } else if idx2 < ca.len() + rh.len() {
            assert(s[idx2] == rh[idx2 - ca.len()]);
        } else if idx2 < ca.len() + rh.len() + wh.len() {
            assert(s[idx2] == wh[idx2 - ca.len() - rh.len()]);
        } else if idx2 == ca.len() + rh.len() + wh.len() {
            assert(s[idx2] == pe[0]);
        }
    }
}


/// Does this event concern resource `r` at all?
pub open spec fn mentions_resource(views: Seq<PassView>, e: ExecEvent, r: int) -> bool {
    ||| e == (ExecEvent::Created { id: r as u32 })
    ||| e == (ExecEvent::Destroyed { id: r as u32 })
    ||| touches_resource(views, e, r)
}

/// The lifetime shape of resource `r` across the first `i` schedule
/// positions: silence before its creation point, one creation (before every
/// touch) once the point is passed, and one destruction (after every touch)
/// once its destruction point is passed.
#[verifier::spinoff_prover]
#[verifier::rlimit(100)]
proof fn lemma_trace_lifetime_upto(
    views: Seq<PassView>,
    sched: Seq<u32>,
    descs: Seq<ResourceDesc>,
    first: Seq<Option<u32>>,
    last: Seq<Option<u32>>,
    st: Seq<bool>,
    r: int,
    fu: u32,
    lu: u32,
    i: int,
)
    requires
        forall|i2: int| 0 <= i2 < sched.len() ==> (#[trigger] sched[i2]) < views.len(),
        forall|i2: int|
            0 <= i2 < sched.len() ==> FrameGraph::decls_in_range(
                views[(#[trigger] sched[i2]) as int],
                first.len() as int,
            ),
        first.len() == last.len(),
        first.len() <= u32::MAX,
        0 <= r < first.len(),
        first[r] == Some(fu),
        last[r] == Some(lu),
        fu <= lu < sched.len(),
        forall|i2: int| #[trigger] scheduled_use_at(views, sched, r, i2) ==> fu <= i2 <= lu,
        0 <= i <= sched.len(),
    ensures
        ({
            let tr = trace_upto(views, sched, descs, first, last, st, i);
            &&& (i <= fu ==> forall|idx: int|
                0 <= idx < tr.len() ==> !mentions_resource(views, #[trigger] tr[idx], r))
            &&& ((fu < i <= lu) ==> exists|c: int|
                0 <= c < tr.len() && (#[trigger] tr[c]) == (ExecEvent::Created { id: r as u32 })
                    && (forall|idx: int|
                    0 <= idx < tr.len() && idx != c ==> tr[idx] != (ExecEvent::Created {
                        id: r as u32,
                    })) && (forall|idx: int|
                    0 <= idx < tr.len() ==> tr[idx] != (ExecEvent::Destroyed { id: r as u32 }))
                    && (forall|idx: int|
                    0 <= idx < tr.len() && touches_resource(views, tr[idx], r) ==> c < idx))
            &&& (lu < i ==> exists|c: int, d: int|
                0 <= c < d < tr.len() && (#[trigger] tr[c]) == (ExecEvent::Created { id: r as u32 })
                    && (#[trigger] tr[d]) == (ExecEvent::Destroyed { id: r as u32 }) && (forall|
                    idx: int,
                |
                    0 <= idx < tr.len() && idx != c ==> tr[idx] != (ExecEvent::Created {
                        id: r as u32,
                    })) && (forall|idx: int|
                    0 <= idx < tr.len() && idx != d ==> tr[idx] != (ExecEvent::Destroyed {
                        id: r as u32,
                    })) && (forall|idx: int|
                    0 <= idx < tr.len() && touches_resource(views, tr[idx], r) ==> c < idx < d))
        }),
    decreases i,
{
    if i > 0 {
        lemma_trace_lifetime_upto(views, sched, descs, first, last, st, r, fu, lu, i - 1);
        lemma_segment_chars(views, sched, descs, first, last, i - 1, st[i - 1], r);
        let tr0 = trace_upto(views, sched, descs, first, last, st, i - 1);
        let seg = segment_events(views, sched, descs, first, last, i - 1, st[i - 1]);
        let tr = trace_upto(views, sched, descs, first, last, st, i);
        assert(tr == tr0 + seg);
        if i - 1 < fu {
            assert forall|idx: int| 0 <= idx < tr.len() implies !mentions_resource(
                views,
                #[trigger] tr[idx],
                r,
            ) by {
                if idx < tr0.len() {
                    assert(tr[idx] == tr0[idx]);
                } else {
                    assert(tr[idx] == seg[idx - tr0.len()]);
                    if touches_resource(views, tr[idx], r) {
                        assert(scheduled_use_at(views, sched, r, i - 1));
                    }
                }
            }
        } else if i - 1 == fu {
            let cs = choose|cs: int|
                0 <= cs < seg.len() && (#[trigger] seg[cs]) == (ExecEvent::Created { id: r as u32 })
                    && (forall|idx: int|
                    0 <= idx < seg.len() && idx != cs ==> seg[idx] != (ExecEvent::Created {
                        id: r as u32,
                    })) && (forall|idx: int|
                    0 <= idx < seg.len() && touches_resource(views, #[trigger] seg[idx], r) ==> cs
                        < idx);
            let c = tr0.len() + cs;
            assert(tr[c] == (ExecEvent::Created { id: r as u32 }));
            assert forall|idx: int| 0 <= idx < tr.len() && idx != c implies tr[idx] != (
            ExecEvent::Created { id: r as u32 }) by {
                if idx < tr0.len() {
                    assert(tr[idx] == tr0[idx]);
                    assert(!mentions_resource(views, tr0[idx], r));
                } else {
                    assert(tr[idx] == seg[idx - tr0.len()]);
                }
            }
            assert forall|idx: int|
                0 <= idx < tr.len() && touches_resource(views, tr[idx], r) implies c < idx by {
                if idx < tr0.len() {
                    assert(tr[idx] == tr0[idx]);
                    assert(!mentions_resource(views, tr0[idx], r));
                } else {
                    assert(tr[idx] == seg[idx - tr0.len()]);
                }
            }
            if lu == i - 1 {
                let ds = choose|ds: int|
                    0 <= ds < seg.len() && (#[trigger] seg[ds]) == (ExecEvent::Destroyed {
                        id: r as u32,
                    }) && (forall|idx: int|
                        0 <= idx < seg.len() && idx != ds ==> seg[idx] != (ExecEvent::Destroyed {
                            id: r as u32,
                        })) && (forall|idx: int|
                        0 <= idx < seg.len() && touches_resource(views, #[trigger] seg[idx], r)
                            ==> idx < ds);
                let d = tr0.len() + ds;
                assert(tr[d] == (ExecEvent::Destroyed { id: r as u32 }));
                assert(cs < ds);
                assert forall|idx: int| 0 <= idx < tr.len() && idx != d implies tr[idx] != (
                ExecEvent::Destroyed { id: r as u32 }) by {
                    if idx < tr0.len() {
                        assert(tr[idx] == tr0[idx]);
                        assert(!mentions_resource(views, tr0[idx], r));
                    } else {
                        assert(tr[idx] == seg[idx - tr0.len()]);
                    }
                }
                assert forall|idx: int|
                    0 <= idx < tr.len() && touches_resource(views, tr[idx], r) implies c < idx
                    < d by {
                    if idx < tr0.len() {
                        assert(tr[idx] == tr0[idx]);
                        assert(!mentions_resource(views, tr0[idx], r));
                    } else {
                        assert(tr[idx] == seg[idx - tr0.len()]);
                    }
                }
            } else {
                assert forall|idx: int| 0 <= idx < tr.len() implies tr[idx] != (
                ExecEvent::Destroyed { id: r as u32 }) by {
                    if idx < tr0.len() {
                        assert(tr[idx] == tr0[idx]);
                        assert(!mentions_resource(views, tr0[idx], r));
                    } else {
                        assert(tr[idx] == seg[idx - tr0.len()]);
                    }
                }
            }
        } else if i - 1 <= lu {
            // fu < i - 1: the creation already happened in tr0.
            let c = choose|c: int|
                0 <= c < tr0.len() && (#[trigger] tr0[c]) == (ExecEvent::Created { id: r as u32 })
                    && (forall|idx: int|
                    0 <= idx < tr0.len() && idx != c ==> tr0[idx] != (ExecEvent::Created {
                        id: r as u32,
                    })) && (forall|idx: int|
                    0 <= idx < tr0.len() ==> tr0[idx] != (ExecEvent::Destroyed { id: r as u32 }))
                    && (forall|idx: int|
                    0 <= idx < tr0.len() && touches_resource(views, tr0[idx], r) ==> c < idx);
            assert(tr[c] == (ExecEvent::Created { id: r as u32 }));
            assert forall|idx: int| 0 <= idx < tr.len() && idx != c implies tr[idx] != (
            ExecEvent::Created { id: r as u32 }) by {
                if idx < tr0.len() {
                    assert(tr[idx] == tr0[idx]);
                } else {
                    assert(tr[idx] == seg[idx - tr0.len()]);
                }
            }
            if lu == i - 1 {
                let ds = choose|ds: int|
                    0 <= ds < seg.len() && (#[trigger] seg[ds]) == (ExecEvent::Destroyed {
                        id: r as u32,
                    }) && (forall|idx: int|
                        0 <= idx < seg.len() && idx != ds ==> seg[idx] != (ExecEvent::Destroyed {
                            id: r as u32,
                        })) && (forall|idx: int|
                        0 <= idx < seg.len() && touches_resource(views, #[trigger] seg[idx], r)
                            ==> idx < ds);
                let d = tr0.len() + ds;
                assert(tr[d] == (ExecEvent::Destroyed { id: r as u32 }));
                assert(c < d);
                assert forall|idx: int| 0 <= idx < tr.len() && idx != d implies tr[idx] != (
                ExecEvent::Destroyed { id: r as u32 }) by {
                    if idx < tr0.len() {
                        assert(tr[idx] == tr0[idx]);
                    } else {
                        assert(tr[idx] == seg[idx - tr0.len()]);
                    }
                }
                assert forall|idx: int|
                    0 <= idx < tr.len() && touches_resource(views, tr[idx], r) implies c < idx
                    < d by {
                    if idx < tr0.len() {
                        assert(tr[idx] == tr0[idx]);
                    } else {
                        assert(tr[idx] == seg[idx - tr0.len()]);
                    }
                }
            } else {
                assert forall|idx: int| 0 <= idx < tr.len() implies tr[idx] != (
                ExecEvent::Destroyed { id: r as u32 }) by {
                    if idx < tr0.len() {
                        assert(tr[idx] == tr0[idx]);
                    } else {
                        assert(tr[idx] == seg[idx - tr0.len()]);
                    }
                }
                assert forall|idx: int|
                    0 <= idx < tr.len() && touches_resource(views, tr[idx], r) implies c < idx by {
                    if idx < tr0.len() {
                        assert(tr[idx] == tr0[idx]);
                    } else {
                        assert(tr[idx] == seg[idx - tr0.len()]);
                    }
                }
            }
        } else {
            // lu < i - 1: both events already happened; the segment is silent
            // about r.
            let (c, d) = choose|c: int, d: int|
                0 <= c < d < tr0.len() && (#[trigger] tr0[c]) == (ExecEvent::Created {
                    id: r as u32,
                }) && (#[trigger] tr0[d]) == (ExecEvent::Destroyed { id: r as u32 }) && (forall|
                    idx: int,
                |
                    0 <= idx < tr0.len() && idx != c ==> tr0[idx] != (ExecEvent::Created {
                        id: r as u32,
                    })) && (forall|idx: int|
                    0 <= idx < tr0.len() && idx != d ==> tr0[idx] != (ExecEvent::Destroyed {
                        id: r as u32,
                    })) && (forall|idx: int|
                    0 <= idx < tr0.len() && touches_resource(views, tr0[idx], r) ==> c < idx < d);
            assert(tr[c] == (ExecEvent::Created { id: r as u32 }));
            assert(tr[d] == (ExecEvent::Destroyed { id: r as u32 }));
            assert forall|idx: int|
                tr0.len() <= idx < tr.len() implies !mentions_resource(
                views,
                #[trigger] tr[idx],
                r,
            ) by {
                assert(tr[idx] == seg[idx - tr0.len()]);
                if touches_resource(views, tr[idx], r) {
                    assert(scheduled_use_at(views, sched, r, i - 1));
                }
            }
            assert forall|idx: int| 0 <= idx < tr.len() && idx != c implies tr[idx] != (
            ExecEvent::Created { id: r as u32 }) by {
                if idx < tr0.len() {
                    assert(tr[idx] == tr0[idx]);
                }
            }
            assert forall|idx: int| 0 <= idx < tr.len() && idx != d implies tr[idx] != (
            ExecEvent::Destroyed { id: r as u32 }) by {
                if idx < tr0.len() {
                    assert(tr[idx] == tr0[idx]);
                }
            }
            assert forall|idx: int|
                0 <= idx < tr.len() && touches_resource(views, tr[idx], r) implies c < idx < d by {
                if idx < tr0.len() {
                    assert(tr[idx] == tr0[idx]);
                }
            }
        }
    }
}


/// Culling law: a pass with no side-effect flag and no referenced consumer
/// of its outputs never appears in the compiled schedule.
pub proof fn lemma_culled_pass_not_scheduled(g: &FrameGraph, p: int)
    requires
        g.inv(),
        g.spec_compiled(),
        0 <= p < g.n_passes(),
        !g.pass_views()[p].side_effect,
        forall|q: int|
            p < q < g.n_passes() && #[trigger] spec_consumes(g.pass_views(), g.spec_nodes(), q, p)
                ==> !spec_referenced(g.pass_views(), g.spec_nodes(), q),
    ensures
        forall|i: int|
            0 <= i < g.spec_schedule().len() ==> (#[trigger] g.spec_schedule()[i]) != p,
{
    assert(!spec_referenced(g.pass_views(), g.spec_nodes(), p));
    assert forall|i: int| 0 <= i < g.spec_schedule().len() implies (#[trigger] g.spec_schedule()[
        i]) != p by {
        assert(spec_referenced(g.pass_views(), g.spec_nodes(), g.spec_schedule()[i] as int));
    }
}

/// Ordering law: the compiled schedule is a topological order.  For any
/// scheduled pass and any of its declared reads, some pass producing the
/// read version is scheduled at the same or an earlier position — producers
/// always run before their consumers.
pub proof fn lemma_producer_scheduled_before_consumer(g: &FrameGraph, i: int, k: int)
    requires
        g.inv(),
        g.spec_compiled(),
        0 <= i < g.spec_schedule().len(),
        0 <= k < g.pass_views()[g.spec_schedule()[i] as int].reads.len(),
    ensures
        exists|j: int, m: int|
            0 <= j <= i && 0 <= m < g.spec_nodes().len() && decl_matches_node(
                g.pass_views()[g.spec_schedule()[i] as int].reads[k],
                #[trigger] g.spec_nodes()[m],
            ) && (#[trigger] g.spec_schedule()[j]) == g.spec_nodes()[m].spec_producer(),
{
    let views = g.pass_views();
    let nodes = g.spec_nodes();
    let sched = g.spec_schedule();
    let q = sched[i] as int;
    assert(g.read_has_node(q, k));
    let m = choose|m: int|
        0 <= m < nodes.len() && decl_matches_node(views[q].reads[k], #[trigger] nodes[m])
            && nodes[m].spec_producer() <= q;
    let prod = nodes[m].spec_producer() as int;
    if prod == q {
        assert(sched[i] == nodes[m].spec_producer());
    } else {
        assert(spec_consumes(views, nodes, q, prod));
        assert(spec_referenced(views, nodes, q));
        assert(spec_referenced(views, nodes, prod));
        let j = choose|j: int| 0 <= j < sched.len() && (#[trigger] sched[j]) == prod;
        assert(j <= i) by {
            if j > i {
                assert(sched[i] < sched[j]);
            }
        }
        assert(sched[j] == nodes[m].spec_producer());
    }
}

/// Lifetime law: in every execution trace of a compiled graph, a transient
/// resource the schedule uses is created exactly once, strictly before
/// every event that touches it (its barrier hooks and the callbacks of the
/// passes that registered it), and destroyed exactly once, strictly after
/// every such event.
pub proof fn lemma_transient_lifetime(g: &FrameGraph, st: Seq<bool>, r: int)
    requires
        g.inv(),
        g.spec_compiled(),
        0 <= r < g.n_resources(),
        g.spec_first_use()[r] is Some,
    ensures
        ({
            let tr = trace_upto(
                g.pass_views(),
                g.spec_schedule(),
                descs_of(*g),
                g.spec_first_use(),
                g.spec_last_use(),
                st,
                g.spec_schedule().len() as int,
            );
            exists|c: int, d: int|
                0 <= c < d < tr.len() && (#[trigger] tr[c]) == (ExecEvent::Created { id: r as u32 })
                    && (#[trigger] tr[d]) == (ExecEvent::Destroyed { id: r as u32 }) && (forall|
                    idx: int,
                |
                    0 <= idx < tr.len() && idx != c ==> tr[idx] != (ExecEvent::Created {
                        id: r as u32,
                    })) && (forall|idx: int|
                    0 <= idx < tr.len() && idx != d ==> tr[idx] != (ExecEvent::Destroyed {
                        id: r as u32,
                    })) && (forall|idx: int|
                    0 <= idx < tr.len() && touches_resource(g.pass_views(), tr[idx], r) ==> c < idx
                        < d)
        }),
{
    let views = g.pass_views();
    let sched = g.spec_schedule();
    let first = g.spec_first_use();
    let last = g.spec_last_use();
    assert(g.lifetime_wf(r));
    let fu = choose|fu: u32| first[r] == Some(fu);
    let lu = choose|lu: u32| last[r] == Some(lu);
    assert(lifetime_placed(views, sched, g.spec_registry()[r].spec_kind(), r, first[r], last[r]));
    assert forall|i2: int|
        0 <= i2 < sched.len() implies FrameGraph::decls_in_range(
        views[(#[trigger] sched[i2]) as int],
        first.len() as int,
    ) by {
        assert(FrameGraph::decls_in_range(views[sched[i2] as int], g.n_resources()));
    }
    lemma_trace_lifetime_upto(
        views,
        sched,
        descs_of(*g),
        first,
        last,
        st,
        r,
        fu,
        lu,
        sched.len() as int,
    );
}

} // verus!