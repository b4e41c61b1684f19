use ferrum_graph::frame_graph::{
    CompileError, ExecEvent, FrameGraph, FrameGraphBuilder, FrameGraphPassResources,
    FrameGraphResource, PassError, PassExecutor,
};
use ferrum_graph::graph_node::GraphNode;
use ferrum_graph::resource_entry::{FrameGraphTexture, ResourceData, ResourceDesc, TextureDesc};
use ferrum_graph::ResourceBarrier;

struct RecordingExecutor {
    created: Vec<u32>,
    destroyed: Vec<u32>,
    pre_reads: Vec<(u32, u32)>,
    pre_writes: Vec<(u32, u32)>,
    ran: Vec<(u32, String)>,
    fail_passes: Vec<u32>,
    expect_target: Option<FrameGraphResource>,
    seen_target_image: Option<u64>,
}

impl RecordingExecutor {
    fn new() -> Self {
        RecordingExecutor {
            created: Vec::new(),
            destroyed: Vec::new(),
            pre_reads: Vec::new(),
            pre_writes: Vec::new(),
            ran: Vec::new(),
            fail_passes: Vec::new(),
            expect_target: None,
            seen_target_image: None,
        }
    }
}

impl PassExecutor for RecordingExecutor {
    fn create_resource(&mut self, id: u32, _desc: &ResourceDesc) -> u64 {
        self.created.push(id);
        100 + id as u64
    }

    fn destroy_resource(&mut self, id: u32, _desc: &ResourceDesc, data: &ResourceData) {
        match data {
            ResourceData::Texture(t) => assert_eq!(t.image, 100 + id as u64),
            ResourceData::Buffer(b) => assert_eq!(b.buffer, 100 + id as u64),
        }
        self.destroyed.push(id);
    }

    fn pre_read(&mut self, barrier: &ResourceBarrier, flags: u32) {
        assert!(!barrier.resource_name.is_empty());
        self.pre_reads.push((flags, flags));
    }

    fn pre_write(&mut self, _barrier: &ResourceBarrier, flags: u32) {
        self.pre_writes.push((flags, flags));
    }

    fn execute_pass(
        &mut self,
        pass: u32,
        name: &str,
        resources: &FrameGraphPassResources,
        _image_index: u32,
    ) -> Result<(), PassError> {
        self.ran.push((pass, name.to_string()));
        if let Some(h) = self.expect_target {
            if resources.contains(h) {
                let tex: &FrameGraphTexture = resources.get(h);
                self.seen_target_image = Some(tex.image);
            }
        }
        if self.fail_passes.contains(&pass) {
            Err(PassError { message: format!("pass {} failed", pass) })
        } else {
            Ok(())
        }
    }
}

fn texture_desc(width: u32, height: u32) -> TextureDesc {
    TextureDesc {
        width,
        height,
        format: ash::vk::Format::R8G8B8A8_SRGB.as_raw() as u32,
    }
}

#[test]
fn simple() {
    let mut fg = FrameGraph::new();
    let mut target: Option<FrameGraphResource> = None;
    fg.addCallbackPass("SimplePass".to_string(), |mut b: FrameGraphBuilder| {
        let h = b.create::<FrameGraphTexture>("Foo", texture_desc(640, 480));
        target = Some(b.write(h));
        b.set_side_effect();
        b
    });
    let target = target.unwrap();
    assert_eq!(target.id(), 0);
    assert_eq!(target.version(), 2);
    fg.compile().unwrap();
    let mut exec = RecordingExecutor::new();
    exec.expect_target = Some(target);
    let trace = fg.execute(&mut exec, 0);
    assert_eq!(exec.ran.len(), 1);
    assert_eq!(exec.ran[0].1, "SimplePass");
    assert_eq!(exec.seen_target_image, Some(100));
    assert_eq!(trace.len(), 4);
}

/// Versions follow renamed-after-write form: `create` yields version 1,
/// reads keep the version, every write advances it by exactly one.
#[test]
fn handle_versions() {
    let mut fg = FrameGraph::new();
    fg.addCallbackPass("Versions".to_string(), |mut b: FrameGraphBuilder| {
        let h = b.create::<FrameGraphTexture>("T", texture_desc(8, 8));
        assert_eq!(h.version(), 1);
        let r = b.read(h, 7);
        assert_eq!(r.id(), h.id());
        assert_eq!(r.version(), 1);
        let w = b.write(r);
        assert_eq!(w.id(), h.id());
        assert_eq!(w.version(), 2);
        let w2 = b.write(w);
        assert_eq!(w2.version(), 3);
        b
    });
    assert!(fg.declaration_error().is_none());
}

/// The full declare → compile → execute scenario: "ColorTarget" is created
/// and written by pass A and read by the root pass B; the schedule is
/// [A, B] and the trace brackets both callbacks with the creation and
/// destruction of the target.
#[test]
fn scenario_color_target() {
    let mut fg = FrameGraph::new();
    let mut handle: Option<FrameGraphResource> = None;
    fg.addCallbackPass("A".to_string(), |mut b: FrameGraphBuilder| {
        let h = b.create::<FrameGraphTexture>("ColorTarget", texture_desc(640, 480));
        handle = Some(b.write(h));
        b
    });
    let h2 = handle.unwrap();
    fg.addCallbackPass("B".to_string(), move |mut b: FrameGraphBuilder| {
        b.read(h2, 1);
        b.set_side_effect();
        b
    });
    fg.compile().unwrap();
    assert_eq!(fg.schedule().clone(), vec![0u32, 1u32]);
    let mut exec = RecordingExecutor::new();
    let trace = fg.execute(&mut exec, 0);
    assert_eq!(
        trace,
        vec![
            ExecEvent::Created { id: 0 },
            ExecEvent::PreWrite { id: 0, flags: 0 },
            ExecEvent::PassOk { pass: 0 },
            ExecEvent::PreRead { id: 0, flags: 1 },
            ExecEvent::PassOk { pass: 1 },
            ExecEvent::Destroyed { id: 0 },
        ]
    );
    assert_eq!(exec.created, vec![0]);
    assert_eq!(exec.destroyed, vec![0]);
    assert_eq!(
        exec.ran,
        vec![(0, "A".to_string()), (1, "B".to_string())]
    );
}

/// A pass with no consumers and no side-effect flag is culled, together
/// with the resource only it would have created.
#[test]
fn culling_removes_unreferenced_pass() {
    let mut fg = FrameGraph::new();
    fg.addCallbackPass("Root".to_string(), |mut b: FrameGraphBuilder| {
        let h = b.create::<FrameGraphTexture>("Kept", texture_desc(4, 4));
        b.write(h);
        b.set_side_effect();
        b
    });
    fg.addCallbackPass("C".to_string(), |mut b: FrameGraphBuilder| {
        let h = b.create::<FrameGraphTexture>("Unused", texture_desc(4, 4));
        b.write(h);
        b
    });
    fg.compile().unwrap();
    assert_eq!(fg.schedule().clone(), vec![0u32]);
    let mut exec = RecordingExecutor::new();
    let trace = fg.execute(&mut exec, 0);
    // "Unused" (resource 1) is never created or destroyed.
    assert!(exec.created.iter().all(|id| *id == 0));
    assert!(trace.iter().all(|e| !matches!(
        *e,
        ExecEvent::Created { id: 1 }
            | ExecEvent::Destroyed { id: 1 }
            | ExecEvent::PassOk { pass: 1 }
            | ExecEvent::PassFailed { pass: 1 }
    )));
}

/// Writing a handle the pass never created nor read is a declaration error:
/// compile fails and the graph never executes.
#[test]
fn write_without_access_fails_compile() {
    let mut fg = FrameGraph::new();
    let mut handle: Option<FrameGraphResource> = None;
    fg.addCallbackPass("A".to_string(), |mut b: FrameGraphBuilder| {
        handle = Some(b.create::<FrameGraphTexture>("T", texture_desc(2, 2)));
        b
    });
    let h = handle.unwrap();
    fg.addCallbackPass("D".to_string(), move |mut b: FrameGraphBuilder| {
        b.write(h);
        b
    });
    let r = fg.compile();
    assert!(matches!(r, Err(CompileError::WriteWithoutAccess { pass: 1, id: 0 })));
    assert!(!fg.is_compiled());
}

/// Reusing a stale handle (superseded by a later write) is a declaration
/// error.
#[test]
fn stale_handle_fails_compile() {
    let mut fg = FrameGraph::new();
    fg.addCallbackPass("A".to_string(), |mut b: FrameGraphBuilder| {
        let h = b.create::<FrameGraphTexture>("T", texture_desc(2, 2));
        let _h2 = b.write(h);
        // `h` now names a superseded version.
        b.read(h, 0);
        b
    });
    let r = fg.compile();
    assert!(matches!(r, Err(CompileError::StaleHandle { pass: 0, id: 0, version: 1 })));
}

/// A failing pass callback skips only that pass; later passes still run and
/// the transient is still destroyed.
#[test]
fn failing_pass_does_not_abort_schedule() {
    let mut fg = FrameGraph::new();
    let mut handle: Option<FrameGraphResource> = None;
    fg.addCallbackPass("A".to_string(), |mut b: FrameGraphBuilder| {
        let h = b.create::<FrameGraphTexture>("T", texture_desc(2, 2));
        handle = Some(b.write(h));
        b
    });
    let h2 = handle.unwrap();
    fg.addCallbackPass("B".to_string(), move |mut b: FrameGraphBuilder| {
        b.read(h2, 0);
        b.set_side_effect();
        b
    });
    fg.compile().unwrap();
    let mut exec = RecordingExecutor::new();
    exec.fail_passes.push(0);
    let trace = fg.execute(&mut exec, 0);
    assert_eq!(
        trace,
        vec![
            ExecEvent::Created { id: 0 },
            ExecEvent::PreWrite { id: 0, flags: 0 },
            ExecEvent::PassFailed { pass: 0 },
            ExecEvent::PreRead { id: 0, flags: 0 },
            ExecEvent::PassOk { pass: 1 },
            ExecEvent::Destroyed { id: 0 },
        ]
    );
    assert_eq!(exec.ran.len(), 2);
}

#[test]
fn graph_node_header() {
    let node = GraphNode::new("Shadow".to_string(), 5);
    assert_eq!(node.getId(), 5);
    assert_eq!(node.getName().as_str(), "Shadow");
    assert_eq!(node.getRefCount(), 0);
}

/// After compilation the producing pass's node carries a positive reference
/// count exactly when a referenced consumer reads its output.
#[test]
fn ref_counts_after_compile() {
    let mut fg = FrameGraph::new();
    let mut handle: Option<FrameGraphResource> = None;
    fg.addCallbackPass("A".to_string(), |mut b: FrameGraphBuilder| {
        let h = b.create::<FrameGraphTexture>("T", texture_desc(2, 2));
        handle = Some(b.write(h));
        b
    });
    let h2 = handle.unwrap();
    fg.addCallbackPass("B".to_string(), move |mut b: FrameGraphBuilder| {
        b.read(h2, 0);
        b.set_side_effect();
        b
    });
    fg.compile().unwrap();
    assert!(fg.pass_node(0).node().getRefCount() > 0);
    assert_eq!(fg.pass_node(1).node().getRefCount(), 0);
    assert!(fg.pass_node(1).has_side_effect());
}

/// The same compiled graph can drive several frames: transients are
/// recreated and destroyed each execution.
#[test]
fn execute_twice_recreates_transients() {
    let mut fg = FrameGraph::new();
    fg.reserve(1, 1);
    fg.addCallbackPass("Only".to_string(), |mut b: FrameGraphBuilder| {
        let h = b.create::<FrameGraphTexture>("T", texture_desc(1, 1));
        b.write(h);
        b.set_side_effect();
        b
    });
    assert_eq!(fg.pass_count(), 1);
    assert_eq!(fg.resource_count(), 1);
    fg.compile().unwrap();
    let mut exec = RecordingExecutor::new();
    let first = fg.execute(&mut exec, 0);
    let second = fg.execute(&mut exec, 1);
    assert_eq!(first, second);
    assert_eq!(exec.created, vec![0, 0]);
    assert_eq!(exec.destroyed, vec![0, 0]);
}

/// A handle from a different graph names no resource here.
#[test]
fn foreign_handle_is_unknown() {
    let mut other = FrameGraph::new();
    let mut handle: Option<FrameGraphResource> = None;
    other.addCallbackPass("Other".to_string(), |mut b: FrameGraphBuilder| {
        let h = b.create::<FrameGraphTexture>("A", texture_desc(1, 1));
        handle = Some(b.create::<FrameGraphTexture>("B", texture_desc(1, 1)));
        let _ = h;
        b
    });
    let foreign = handle.unwrap();
    let mut fg = FrameGraph::new();
    fg.addCallbackPass("P".to_string(), move |mut b: FrameGraphBuilder| {
        b.read(foreign, 0);
        b
    });
    let r = fg.compile();
    assert!(matches!(r, Err(CompileError::UnknownResource { pass: 0, id: 1 })));
}
