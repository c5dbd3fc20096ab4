//! Terminal cells, colors, the logical command stream, and the engine's
//! running belief about the terminal's cursor and color state.

use vstd::prelude::*;

verus! {

/// A terminal color: the terminal's default, a palette index, or a truecolor value.
#[derive(Clone, Copy, PartialEq, Eq, Structural, Debug)]
pub enum Color {
    Default,
    Ansi(u8),
    Rgb(u8, u8, u8),
}

/// One terminal cell: a glyph and the color pair it is shown with.
#[derive(Clone, Copy, PartialEq, Eq, Structural, Debug)]
pub struct Cell {
    pub ch: char,
    pub fg: Color,
    pub bg: Color,
}

/// What a vacated coordinate shows when no entity covers it.
pub open spec fn blank_cell() -> Cell {
    Cell { ch: ' ', fg: Color::Default, bg: Color::Default }
}

pub fn make_blank_cell() -> (r: Cell)
    ensures
        r == blank_cell(),
{
    Cell { ch: ' ', fg: Color::Default, bg: Color::Default }
}

/// A cursor position in terminal coordinates: `x` is the column, `y` the row.
#[derive(Clone, Copy, PartialEq, Eq, Structural, Debug)]
pub struct CursorPos {
    pub x: usize,
    pub y: usize,
}

/// One logical terminal command. Encoding commands into escape sequences is
/// a terminal-driver concern outside this library.
#[derive(Clone, Copy, PartialEq, Eq, Structural, Debug)]
pub enum Command {
    MoveTo(usize, usize),
    SetFg(Color),
    SetBg(Color),
    Print(char),
    SetCursorVisible(bool),
}

/// The engine's belief about the terminal's state: where the cursor is and
/// which colors are in force. `None` means unknown, forcing an explicit
/// command before the next dependent write.
#[derive(Clone, Copy, Debug)]
pub struct Belief {
    pub cursor: Option<CursorPos>,
    pub fg: Option<Color>,
    pub bg: Option<Color>,
}

/// The belief held when nothing is known of the terminal, as after a resize.
pub open spec fn unknown_belief() -> Belief {
    Belief { cursor: None, fg: None, bg: None }
}

/// Runs one command against a belief. `None` marks a command the engine must
/// never emit: a move to where the cursor already is, a color equal to the
/// one in force, or a glyph write while the cursor position is unknown.
/// A write at column `x` advances the cursor to `x + 1` in the same row, or
/// to unknown when that would cross the terminal width.
pub open spec fn step_stream(b: Belief, c: Command, width: usize) -> Option<Belief> {
    match c {
        Command::MoveTo(x, y) => {
            if b.cursor == Some(CursorPos { x, y }) {
                None
            } else {
                Some(Belief { cursor: Some(CursorPos { x, y }), fg: b.fg, bg: b.bg })
            }
        },
        Command::SetFg(col) => {
            if b.fg == Some(col) {
                None
            } else {
                Some(Belief { cursor: b.cursor, fg: Some(col), bg: b.bg })
            }
        },
        Command::SetBg(col) => {
            if b.bg == Some(col) {
                None
            } else {
                Some(Belief { cursor: b.cursor, fg: b.fg, bg: Some(col) })
            }
        },
        Command::Print(_) => {
            match b.cursor {
                Some(p) => {
                    if p.x + 1 < width {
                        Some(
                            Belief {
                                cursor: Some(CursorPos { x: (p.x + 1) as usize, y: p.y }),
                                fg: b.fg,
                                bg: b.bg,
                            },
                        )
                    } else {
                        Some(Belief { cursor: None, fg: b.fg, bg: b.bg })
                    }
                },
                None => None,
            }
        },
        Command::SetCursorVisible(_) => Some(b),
    }
}

/// Runs a whole command stream against a belief. A `Some` result says the
/// stream holds no redundant command and no blind write, and gives the
/// belief the engine holds after emitting it.
pub open spec fn run_stream(cmds: Seq<Command>, b: Belief, width: usize) -> Option<Belief>
    decreases cmds.len(),
{
    if cmds.len() == 0 {
        Some(b)
    } else {
        match run_stream(cmds.drop_last(), b, width) {
            Some(m) => step_stream(m, cmds.last(), width),
            None => None,
        }
    }
}

/// How many glyph writes a stream holds.
pub open spec fn count_writes(cmds: Seq<Command>) -> nat
    decreases cmds.len(),
{
    if cmds.len() == 0 {
        0
    } else {
        count_writes(cmds.drop_last()) + if cmds.last() is Print {
            1nat
        } else {
            0nat
        }
    }
}

pub fn opt_color_is(a: &Option<Color>, b: Color) -> (r: bool)
    ensures
        r == (*a == Some(b)),
{
    match a {
        Some(c) => *c == b,
        None => false,
    }
}

pub fn cursor_is(a: &Option<CursorPos>, x: usize, y: usize) -> (r: bool)
    ensures
        r == (*a == Some(CursorPos { x, y })),
{
    match a {
        Some(p) => p.x == x && p.y == y,
        None => false,
    }
}

pub fn opt_cell_is(a: &Option<Cell>, b: &Cell) -> (r: bool)
    ensures
        r == (*a == Some(*b)),
{
    match a {
        Some(c) => c.ch == b.ch && c.fg == b.fg && c.bg == b.bg,
        None => false,
    }
}

} // verus!
