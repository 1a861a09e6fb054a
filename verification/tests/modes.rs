use sierpinski::mode::{apply_event, process_events, InputEvent, Key, Mode};
use sierpinski::sierpinski::{frame_draw, DrawKind, Sierpinski, SierpinskiType};

#[test]
fn trigger_keys_switch_unconditionally() {
    for start in [Mode::Triangle, Mode::Sierpinski, Mode::SierpinskiRec] {
        assert_eq!(apply_event(start, &InputEvent::KeyDown(Key::F1)), Mode::Triangle);
        assert_eq!(apply_event(start, &InputEvent::KeyDown(Key::F2)), Mode::Sierpinski);
        assert_eq!(apply_event(start, &InputEvent::KeyDown(Key::F3)), Mode::SierpinskiRec);
    }
}

#[test]
fn other_events_leave_mode_alone() {
    for start in [Mode::Triangle, Mode::Sierpinski, Mode::SierpinskiRec] {
        assert_eq!(apply_event(start, &InputEvent::Quit), start);
        assert_eq!(apply_event(start, &InputEvent::KeyDown(Key::Escape)), start);
        assert_eq!(apply_event(start, &InputEvent::KeyDown(Key::Other)), start);
        assert_eq!(apply_event(start, &InputEvent::Resized(800, 600)), start);
        assert_eq!(apply_event(start, &InputEvent::Other), start);
    }
}

#[test]
fn last_switch_wins() {
    let events = vec![
        InputEvent::KeyDown(Key::F2),
        InputEvent::Other,
        InputEvent::KeyDown(Key::F3),
        InputEvent::Resized(640, 480),
        InputEvent::KeyDown(Key::F1),
    ];
    let (mode, quit) = process_events(Mode::initial(), &events);
    assert_eq!(mode, Mode::Triangle);
    assert!(!quit);

    let events = vec![InputEvent::KeyDown(Key::F3), InputEvent::KeyDown(Key::F2)];
    let (mode, _) = process_events(Mode::initial(), &events);
    assert_eq!(mode, Mode::Sierpinski);
}

#[test]
fn no_switch_keeps_initial_mode() {
    let events = vec![InputEvent::Other, InputEvent::Resized(1, 1)];
    let (mode, quit) = process_events(Mode::initial(), &events);
    assert_eq!(mode, Mode::Triangle);
    assert!(!quit);

    let (mode, quit) = process_events(Mode::SierpinskiRec, &vec![]);
    assert_eq!(mode, Mode::SierpinskiRec);
    assert!(!quit);
}

#[test]
fn quit_events_are_reported() {
    let (mode, quit) = process_events(Mode::initial(), &vec![InputEvent::Quit]);
    assert_eq!(mode, Mode::Triangle);
    assert!(quit);

    let (_, quit) = process_events(Mode::initial(), &vec![InputEvent::KeyDown(Key::Escape)]);
    assert!(quit);

    // Every pending event is drained before the quit takes effect.
    let events = vec![InputEvent::KeyDown(Key::F2), InputEvent::Quit, InputEvent::KeyDown(Key::F3)];
    let (mode, quit) = process_events(Mode::initial(), &events);
    assert_eq!(mode, Mode::SierpinskiRec);
    assert!(quit);
}

#[test]
fn switch_then_tick_draws_the_random_buffer() {
    // One frame after a switch-to-random-gasket event, the draw call
    // submits the precomputed chaos-game buffer with its fixed count,
    // not the plain shape.
    let gasket = Sierpinski::new(SierpinskiType::Points { number: 500 });
    let recursive = Sierpinski::new(SierpinskiType::Triangles { depth: 4 });

    let mode = Mode::initial();
    let before = frame_draw(mode, &gasket, &recursive);
    assert_eq!(before.kind, DrawKind::Triangles);
    assert_eq!(before.count, 3);

    let (mode, quit) = process_events(mode, &vec![InputEvent::KeyDown(Key::F2)]);
    assert!(!quit);
    let after = frame_draw(mode, &gasket, &recursive);
    assert_eq!(after.kind, DrawKind::Points);
    assert_eq!(after.count, 500);
    assert_eq!(after.count, gasket.vertex_count());
    assert_ne!(after, before);
}
