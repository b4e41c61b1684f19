use ferrum_graph::frame_graph::{FrameGraph, FrameGraphBuilder};
use ferrum_graph::resource_entry::{
    has_pre_read, has_pre_write, has_to_string, BufferDesc, FrameGraphBuffer, FrameGraphTexture,
    Model, ResourceData, ResourceDesc, TextureDesc, INITIAL_VERSION,
};
use ferrum_graph::ResourceAccess;

fn graph_with_two_resources() -> FrameGraph {
    let mut fg = FrameGraph::new();
    fg.addCallbackPass("Setup".to_string(), |mut b: FrameGraphBuilder| {
        let t = b.create::<FrameGraphTexture>(
            "Color",
            TextureDesc { width: 640, height: 480, format: 43 },
        );
        b.create::<FrameGraphBuffer>("Verts", BufferDesc { size: 1024, usage: 3 });
        b.write(t);
        b.set_side_effect();
        b
    });
    fg
}

#[test]
fn entry_identity_and_kind() {
    let fg = graph_with_two_resources();
    let tex = fg.resource_entry(0);
    assert_eq!(tex.id(), 0);
    assert_eq!(tex.version(), 2);
    assert!(tex.is_transient());
    assert!(!tex.is_imported());
    let buf = fg.resource_entry(1);
    assert_eq!(buf.id(), 1);
    assert_eq!(buf.version(), INITIAL_VERSION);
}

#[test]
fn entry_descriptions() {
    let fg = graph_with_two_resources();
    assert_eq!(fg.resource_entry(0).to_string(), "Texture(640x480, format 43)");
    assert_eq!(fg.resource_entry(1).to_string(), "Buffer(1024 bytes, usage 3)");
}

#[test]
fn describe_descriptor_directly() {
    let desc = ResourceDesc::Texture(TextureDesc { width: 1, height: 22, format: 0 });
    assert_eq!(desc.describe(), "Texture(1x22, format 0)");
    let desc = ResourceDesc::Buffer(BufferDesc { size: 0, usage: 10 });
    assert_eq!(desc.describe(), "Buffer(0 bytes, usage 10)");
}

#[test]
fn model_holds_descriptor_and_payload() {
    let model = Model::new(
        ResourceDesc::Texture(TextureDesc { width: 2, height: 2, format: 9 }),
        ResourceData::Texture(FrameGraphTexture { image: 5 }),
    );
    assert_eq!(model.to_string(), "Texture(2x2, format 9)");
    assert_eq!(model.resource, ResourceData::Texture(FrameGraphTexture { image: 5 }));
}

#[test]
fn typed_views_recover_payload_and_descriptor() {
    let fg = graph_with_two_resources();
    let tex = fg.resource_entry(0);
    // Not yet executed: the payload is the initial, device-less value.
    let payload: &FrameGraphTexture = tex.get();
    assert_eq!(payload.image, 0);
    let desc: &TextureDesc = tex.get_descriptor::<FrameGraphTexture>();
    assert_eq!(desc.width, 640);
    assert_eq!(desc.height, 480);
    let buf = fg.resource_entry(1);
    let desc: &BufferDesc = buf.get_descriptor::<FrameGraphBuffer>();
    assert_eq!(desc.size, 1024);
    assert_eq!(desc.usage, 3);
}

#[test]
fn capability_flags_are_explicit() {
    let t = ResourceDesc::Texture(TextureDesc { width: 1, height: 1, format: 0 });
    let b = ResourceDesc::Buffer(BufferDesc { size: 1, usage: 0 });
    assert!(has_pre_read(&t));
    assert!(has_pre_write(&t));
    assert!(has_to_string(&t));
    assert!(has_pre_read(&b));
    assert!(has_pre_write(&b));
    assert!(has_to_string(&b));
}

#[test]
fn barrier_hooks_describe_the_transition() {
    let fg = graph_with_two_resources();
    let tex = fg.resource_entry(0);
    let barrier = tex.pre_read(1).expect("texture kind installs a pre-read hook");
    assert_eq!(barrier.resource_name, "Color");
    assert_eq!(barrier.from, ResourceAccess::Write);
    assert_eq!(barrier.to, ResourceAccess::Read);
    let barrier = tex.pre_write(1).expect("texture kind installs a pre-write hook");
    assert_eq!(barrier.from, ResourceAccess::Read);
    assert_eq!(barrier.to, ResourceAccess::Write);
}
