use vstd::prelude::*;

verus! {

/// A position in the document, in character columns (`x`) and rows (`y`).
#[derive(Clone, Copy, Debug, Default, PartialEq, Eq, Structural)]
pub struct Position {
    pub x: usize,
    pub y: usize,
}

/// The terminal's size in character cells.
#[derive(Clone, Copy, Debug, PartialEq, Eq, Structural)]
pub struct Size {
    pub width: u16,
    pub height: u16,
}

/// The keys the editor's decision logic distinguishes: the cursor
/// movements, the quit chord, and everything else.
#[derive(Clone, Copy, Debug, PartialEq, Eq, Structural)]
pub enum Key {
    Up,
    Down,
    Left,
    Right,
    PageUp,
    PageDown,
    Home,
    End,
    Quit,
    Other,
}

/// What one handled keypress decides: whether to quit, and where the
/// cursor and the view offset move.
#[derive(Clone, Copy, Debug, PartialEq, Eq, Structural)]
pub struct EditorStep {
    pub should_quit: bool,
    pub cursor: Position,
    pub offset: Position,
}

/// The length of document row `y`, zero for rows past the end.
pub open spec fn spec_row_len(rows: Seq<usize>, y: int) -> int {
    if 0 <= y < rows.len() {
        rows[y] as int
    } else {
        0
    }
}

/// Where a movement key sends the cursor, before snapping it back into
/// the row it lands on. `rows` holds the length of each document row.
pub open spec fn move_target(
    pos: Position,
    key: Key,
    rows: Seq<usize>,
    terminal_height: int,
) -> (int, int) {
    let x = pos.x as int;
    let y = pos.y as int;
    let height = rows.len() as int;
    let width = spec_row_len(rows, y);
    match key {
        Key::Up => (x, if y > 0 { y - 1 } else { 0 }),
        Key::Down => (x, if y < height { y + 1 } else { y }),
        Key::Left => if x > 0 {
            (x - 1, y)
        } else if y > 0 {
            (spec_row_len(rows, y - 1), y - 1)
        } else {
            (0, 0)
        },
        Key::Right => if x < width {
            (x + 1, y)
        } else if y < height {
            (0, y + 1)
        } else {
            (x, y)
        },
        Key::PageDown => (x, if y + terminal_height < height { y + terminal_height } else { height }),
        Key::PageUp => (x, if y > terminal_height { y - terminal_height } else { 0 }),
        Key::Home => (0, y),
        Key::End => (width, y),
        _ => (x, y),
    }
}

/// The position after one movement key: the target, with the column
/// snapped back to the end of the row the cursor lands on.
pub open spec fn move_cursor_spec(
    pos: Position,
    key: Key,
    rows: Seq<usize>,
    terminal_height: int,
) -> (int, int) {
    let target = move_target(pos, key, rows, terminal_height);
    let w = spec_row_len(rows, target.1);
    (if target.0 > w { w } else { target.0 }, target.1)
}

/// Move the cursor for one key. `rows` holds the length of each document
/// row; `terminal_height` is how many rows the terminal shows, which the
/// page keys jump by.
pub fn move_cursor(pos: Position, key: Key, rows: &Vec<usize>, terminal_height: usize) -> (p:
    Position)
    ensures
        (p.x as int, p.y as int) == move_cursor_spec(pos, key, rows@, terminal_height as int),
{
    let mut x = pos.x;
    let mut y = pos.y;
    let height = rows.len();
    let width = if y < rows.len() {
        rows[y]
    } else {
        0
    };
    match key {
        Key::Up => {
            if y > 0 {
                y = y - 1;
            }
        },
        Key::Down => {
            if y < height {
                y = y + 1;
            }
        },
        Key::Left => {
            if x > 0 {
                x = x - 1;
            } else if y > 0 {
                y = y - 1;
                x = if y < rows.len() {
                    rows[y]
                } else {
                    0
                };
            }
        },
        Key::Right => {
            if x < width {
                x = x + 1;
            } else if y < height {
                y = y + 1;
                x = 0;
            }
        },
        Key::PageDown => {
            if y < height && terminal_height < height - y {
                y = y + terminal_height;
            } else {
                y = height;
            }
        },
        Key::PageUp => {
            if y > terminal_height {
                y = y - terminal_height;
            } else {
                y = 0;
            }
        },
        Key::Home => {
            x = 0;
        },
        Key::End => {
            x = width;
        },
        _ => {},
    }
    let new_width = if y < rows.len() {
        rows[y]
    } else {
        0
    };
    if x > new_width {
        x = new_width;
    }
    Position { x, y }
}

/// Where one axis of the view offset scrolls to so that the cursor at
/// `c` stays visible in a window of `span` cells starting at `off`.
pub open spec fn scroll_axis(c: int, off: int, span: int) -> int {
    if c < off {
        c
    } else if c >= off + span {
        c - span + 1
    } else {
        off
    }
}

/// Scroll the view offset so the cursor stays on screen.
pub fn scroll(cursor: Position, offset: Position, size: Size) -> (o: Position)
    requires
        size.width >= 1,
        size.height >= 1,
    ensures
        o.x as int == scroll_axis(cursor.x as int, offset.x as int, size.width as int),
        o.y as int == scroll_axis(cursor.y as int, offset.y as int, size.height as int),
{
    let width = size.width as usize;
    let height = size.height as usize;
    let x = cursor.x;
    let y = cursor.y;
    let mut ox = offset.x;
    let mut oy = offset.y;
    if y < oy {
        oy = y;
    } else if y - oy >= height {
        oy = y - height + 1;
    }
    if x < ox {
        ox = x;
    } else if x - ox >= width {
        ox = x - width + 1;
    }
    Position { x: ox, y: oy }
}

/// Handle one keypress as the editor does: the quit chord asks to quit,
/// a movement key moves the cursor, anything else is ignored - and after
/// every key the view scrolls to keep the cursor visible.
pub fn process_keypress(
    cursor: Position,
    offset: Position,
    key: Key,
    rows: &Vec<usize>,
    size: Size,
) -> (r: EditorStep)
    requires
        size.width >= 1,
        size.height >= 1,
    ensures
        r.should_quit == (key == Key::Quit),
        (key != Key::Quit && key != Key::Other) ==> (r.cursor.x as int, r.cursor.y as int)
            == move_cursor_spec(cursor, key, rows@, size.height as int),
        (key == Key::Quit || key == Key::Other) ==> r.cursor == cursor,
        r.offset.x as int == scroll_axis(r.cursor.x as int, offset.x as int, size.width as int),
        r.offset.y as int == scroll_axis(r.cursor.y as int, offset.y as int, size.height as int),
{
    let mut should_quit = false;
    let mut new_cursor = cursor;
    match key {
        Key::Quit => {
            should_quit = true;
        },
        Key::Other => {},
        _ => {
            new_cursor = move_cursor(cursor, key, rows, size.height as usize);
        },
    }
    let new_offset = scroll(new_cursor, offset, size);
    EditorStep { should_quit, cursor: new_cursor, offset: new_offset }
}

} // verus!
