use ferrum_graph::blackboard::BlackBoard;

/// The shared context values this test suite stores, as the tagged union
/// the blackboard is instantiated with; the keys are the type identifiers.
#[derive(Debug, Clone, PartialEq, Eq)]
enum Ctx {
    RenderContext { device: u64 },
    FrameIndex(u64),
    Label(String),
}

const KEY_RENDER_CONTEXT: u64 = 1;
const KEY_FRAME_INDEX: u64 = 2;
const KEY_LABEL: u64 = 3;
const KEY_NEVER_ADDED: u64 = 99;

#[test]
fn add_then_get_returns_value() {
    let mut board: BlackBoard<Ctx> = BlackBoard::new();
    let stored = board.add(KEY_RENDER_CONTEXT, Ctx::RenderContext { device: 7 });
    assert_eq!(*stored, Ctx::RenderContext { device: 7 });
    assert_eq!(*board.get(KEY_RENDER_CONTEXT), Ctx::RenderContext { device: 7 });
    assert!(board.has(KEY_RENDER_CONTEXT));
}

#[test]
fn try_get_of_absent_type_is_none() {
    let mut board: BlackBoard<Ctx> = BlackBoard::new();
    board.add(KEY_FRAME_INDEX, Ctx::FrameIndex(3));
    assert!(board.try_get(KEY_NEVER_ADDED).is_none());
    assert!(board.try_get_mut(KEY_NEVER_ADDED).is_none());
    assert!(!board.has(KEY_NEVER_ADDED));
}

#[test]
fn add_replaces_existing_value() {
    let mut board: BlackBoard<Ctx> = BlackBoard::new();
    board.add(KEY_FRAME_INDEX, Ctx::FrameIndex(1));
    board.add(KEY_FRAME_INDEX, Ctx::FrameIndex(2));
    assert_eq!(*board.get(KEY_FRAME_INDEX), Ctx::FrameIndex(2));
}

#[test]
fn returned_reference_is_usable_for_mutation() {
    let mut board: BlackBoard<Ctx> = BlackBoard::new();
    let slot = board.add(KEY_FRAME_INDEX, Ctx::FrameIndex(0));
    *slot = Ctx::FrameIndex(41);
    assert_eq!(*board.get(KEY_FRAME_INDEX), Ctx::FrameIndex(41));
    match board.get_mut(KEY_FRAME_INDEX) {
        Ctx::FrameIndex(v) => *v = *v + 1,
        _ => panic!("wrong variant"),
    }
    assert_eq!(*board.get(KEY_FRAME_INDEX), Ctx::FrameIndex(42));
}

#[test]
fn several_types_coexist() {
    let mut board: BlackBoard<Ctx> = BlackBoard::new();
    board.add(KEY_RENDER_CONTEXT, Ctx::RenderContext { device: 1 });
    board.add(KEY_FRAME_INDEX, Ctx::FrameIndex(9));
    board.add(KEY_LABEL, Ctx::Label("main".to_string()));
    assert_eq!(*board.get(KEY_RENDER_CONTEXT), Ctx::RenderContext { device: 1 });
    assert_eq!(*board.get(KEY_FRAME_INDEX), Ctx::FrameIndex(9));
    assert_eq!(*board.get(KEY_LABEL), Ctx::Label("main".to_string()));
    if let Some(v) = board.try_get_mut(KEY_FRAME_INDEX) {
        *v = Ctx::FrameIndex(10);
    }
    assert_eq!(*board.get(KEY_FRAME_INDEX), Ctx::FrameIndex(10));
}
