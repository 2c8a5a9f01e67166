use reactor_core::editor::{move_cursor, process_keypress, scroll, Key, Position, Size};

#[test]
fn up_and_down_move_within_the_document() {
    let rows = vec![5, 3, 4];
    let p = move_cursor(Position { x: 0, y: 1 }, Key::Up, &rows, 10);
    assert_eq!(p, Position { x: 0, y: 0 });
    let p = move_cursor(p, Key::Up, &rows, 10);
    assert_eq!(p, Position { x: 0, y: 0 });
    let p = move_cursor(Position { x: 0, y: 2 }, Key::Down, &rows, 10);
    assert_eq!(p, Position { x: 0, y: 3 });
    let p = move_cursor(p, Key::Down, &rows, 10);
    assert_eq!(p, Position { x: 0, y: 3 });
}

#[test]
fn left_at_line_start_wraps_to_previous_line_end() {
    let rows = vec![5, 3];
    let p = move_cursor(Position { x: 0, y: 1 }, Key::Left, &rows, 10);
    assert_eq!(p, Position { x: 5, y: 0 });
    let p = move_cursor(Position { x: 0, y: 0 }, Key::Left, &rows, 10);
    assert_eq!(p, Position { x: 0, y: 0 });
}

#[test]
fn right_at_line_end_wraps_to_next_line_start() {
    let rows = vec![2, 3];
    let p = move_cursor(Position { x: 2, y: 0 }, Key::Right, &rows, 10);
    assert_eq!(p, Position { x: 0, y: 1 });
    let p = move_cursor(Position { x: 1, y: 0 }, Key::Right, &rows, 10);
    assert_eq!(p, Position { x: 2, y: 0 });
}

#[test]
fn moving_to_a_shorter_row_snaps_the_column() {
    let rows = vec![8, 3];
    let p = move_cursor(Position { x: 7, y: 0 }, Key::Down, &rows, 10);
    assert_eq!(p, Position { x: 3, y: 1 });
}

#[test]
fn page_keys_jump_a_screen_and_clamp() {
    let rows = vec![1; 30];
    let p = move_cursor(Position { x: 0, y: 0 }, Key::PageDown, &rows, 10);
    assert_eq!(p.y, 10);
    let p = move_cursor(Position { x: 0, y: 25 }, Key::PageDown, &rows, 10);
    assert_eq!(p.y, 30);
    let p = move_cursor(Position { x: 0, y: 25 }, Key::PageUp, &rows, 10);
    assert_eq!(p.y, 15);
    let p = move_cursor(Position { x: 0, y: 5 }, Key::PageUp, &rows, 10);
    assert_eq!(p.y, 0);
}

#[test]
fn home_and_end_jump_within_the_row() {
    let rows = vec![9];
    let p = move_cursor(Position { x: 4, y: 0 }, Key::End, &rows, 10);
    assert_eq!(p, Position { x: 9, y: 0 });
    let p = move_cursor(p, Key::Home, &rows, 10);
    assert_eq!(p, Position { x: 0, y: 0 });
}

#[test]
fn scroll_keeps_the_cursor_visible() {
    let size = Size { width: 10, height: 5 };
    // Cursor below the window: the window slides down.
    let o = scroll(Position { x: 0, y: 9 }, Position { x: 0, y: 0 }, size);
    assert_eq!(o, Position { x: 0, y: 5 });
    // Cursor above the window: the window jumps up to it.
    let o = scroll(Position { x: 0, y: 2 }, Position { x: 0, y: 5 }, size);
    assert_eq!(o, Position { x: 0, y: 2 });
    // Cursor right of the window: the window slides right.
    let o = scroll(Position { x: 12, y: 0 }, Position { x: 0, y: 0 }, size);
    assert_eq!(o, Position { x: 3, y: 0 });
    // Cursor inside the window: nothing moves.
    let o = scroll(Position { x: 3, y: 3 }, Position { x: 1, y: 1 }, size);
    assert_eq!(o, Position { x: 1, y: 1 });
}

#[test]
fn quit_key_asks_to_quit_without_moving() {
    let rows = vec![4, 4];
    let size = Size { width: 10, height: 5 };
    let start = Position { x: 2, y: 1 };
    let step = process_keypress(start, Position { x: 0, y: 0 }, Key::Quit, &rows, size);
    assert!(step.should_quit);
    assert_eq!(step.cursor, start);
    let step = process_keypress(start, Position { x: 0, y: 0 }, Key::Other, &rows, size);
    assert!(!step.should_quit);
    assert_eq!(step.cursor, start);
    let step = process_keypress(start, Position { x: 0, y: 0 }, Key::Right, &rows, size);
    assert!(!step.should_quit);
    assert_eq!(step.cursor, Position { x: 3, y: 1 });
}
