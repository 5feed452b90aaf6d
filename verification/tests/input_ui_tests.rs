use glengine::{key_move, Data2D, FrameCounter, Key, MoveDir, Window2D, UI2D};

#[test]
fn movement_keys() {
    assert_eq!(key_move(Key::W), Some(MoveDir { forward: 1, up: 0, right: 0 }));
    assert_eq!(key_move(Key::S), Some(MoveDir { forward: -1, up: 0, right: 0 }));
    assert_eq!(key_move(Key::D), Some(MoveDir { forward: 0, up: 0, right: 1 }));
    assert_eq!(key_move(Key::A), Some(MoveDir { forward: 0, up: 0, right: -1 }));
    assert_eq!(key_move(Key::E), Some(MoveDir { forward: 0, up: 1, right: 0 }));
    assert_eq!(key_move(Key::Q), Some(MoveDir { forward: 0, up: -1, right: 0 }));
    assert_eq!(key_move(Key::Other), None);
}

#[test]
fn frame_counter_reports_once_a_second() {
    let mut fc = FrameCounter::new();
    assert_eq!(fc.tick(0), None);
    assert_eq!(fc.tick(0), None);
    assert_eq!(fc.tick(1), Some(3));
    assert_eq!(fc.tick(0), None);
    assert_eq!(fc.tick(5), Some(2));
    assert_eq!(fc.tick(1), Some(1));
}

#[test]
fn windows_keep_their_order() {
    let mut ui = UI2D::default();
    assert!(ui.windows().is_empty());
    ui.add_window(Window2D::new("Test".to_string(), vec![Data2D::Button, Data2D::Button]));
    ui.add_window(Window2D::new("Other".to_string(), vec![]));
    assert_eq!(ui.windows().len(), 2);
    assert_eq!(ui.windows()[0].title, "Test");
    assert_eq!(ui.windows()[0].data, vec![Data2D::Button, Data2D::Button]);
    assert_eq!(ui.windows()[1].title, "Other");
}
