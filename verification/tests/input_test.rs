use rts_engine::input_state::Drag;

#[test]
fn drag_press_move_release() {
    let mut d = Drag::Idle;
    d.on_left_pressed(10, 20);
    assert!(d == Drag::Start { x0: 10, y0: 20 });
    d.on_cursor_moved(15, 25);
    assert!(d == Drag::Dragging { x0: 10, y0: 20, x1: 15, y1: 25 });
    d.on_cursor_moved(30, 40);
    assert!(d == Drag::Dragging { x0: 10, y0: 20, x1: 30, y1: 40 });
    d.on_left_released(31, 41);
    assert!(d == Drag::End { x0: 10, y0: 20, x1: 31, y1: 41 });
    d.update();
    assert!(d == Drag::Idle);
}

#[test]
fn drag_release_without_move_cancels() {
    let mut d = Drag::Idle;
    d.on_left_pressed(1, 2);
    d.on_left_released(1, 2);
    assert!(d == Drag::Idle);
}

#[test]
fn drag_move_without_press_does_nothing() {
    let mut d = Drag::Idle;
    d.on_cursor_moved(5, 5);
    assert!(d == Drag::Idle);
    d.update();
    assert!(d == Drag::Idle);
}

#[test]
fn drag_update_keeps_ongoing_drag() {
    let mut d = Drag::Dragging { x0: 1, y0: 1, x1: 2, y1: 2 };
    d.update();
    assert!(d == Drag::Dragging { x0: 1, y0: 1, x1: 2, y1: 2 });
    let mut e = Drag::End { x0: 1, y0: 1, x1: 2, y1: 2 };
    e.on_cursor_moved(9, 9);
    assert!(e == Drag::End { x0: 1, y0: 1, x1: 2, y1: 2 });
}
