//! The terminal diff and emit engine: walks the scratch buffer against the
//! previous cell buffer row by row, ascending column within row, and emits a
//! command stream free of redundant cursor moves and color changes, then
//! commits every touched cell into the previous cell buffer.

use vstd::prelude::*;

use crate::cells::{
    count_writes, cursor_is, opt_cell_is, opt_color_is, run_stream, step_stream, Belief, Cell,
    Command, CursorPos,
};
use crate::scene::lemma_cell_index_bound;

verus! {

/// What the previous cell buffer records after commit: the scratch entry
/// where one exists, the old record elsewhere.
pub open spec fn committed(s: Option<Cell>, p: Option<Cell>) -> Option<Cell> {
    if s is Some {
        s
    } else {
        p
    }
}

/// A scratch entry that obliges a write: present and different from what the
/// terminal last showed there (an unknown old record always differs).
pub open spec fn cell_changed(s: Option<Cell>, p: Option<Cell>) -> bool {
    s is Some && p != s
}

/// How many of the first `k` scratch entries oblige a write.
pub open spec fn n_changed_upto(s: Seq<Option<Cell>>, p: Seq<Option<Cell>>, k: int) -> nat
    decreases k,
{
    if k <= 0 {
        0
    } else {
        n_changed_upto(s, p, k - 1) + if cell_changed(s[k - 1], p[k - 1]) {
            1nat
        } else {
            0nat
        }
    }
}

/// Runs one command against the engine's knowledge of the terminal: the
/// previous cell buffer plus the cursor and color belief. `None` marks a
/// stream no correct engine emits: beyond the redundancy and blind-write
/// faults of `step_stream`, a glyph write whose colors or target cell are
/// unknown or out of bounds. A glyph write records, at the cursor's cell,
/// exactly the glyph with the colors in force.
pub open spec fn step_knowledge(
    g: Seq<Option<Cell>>,
    b: Belief,
    c: Command,
    width: usize,
) -> Option<(Seq<Option<Cell>>, Belief)> {
    match step_stream(b, c, width) {
        None => None,
        Some(b2) => match c {
            Command::Print(ch) => match (b.cursor, b.fg, b.bg) {
                (Some(p), Some(fg), Some(bg)) => {
                    if p.x < width && p.y * width + p.x < g.len() {
                        Some((g.update(p.y * width + p.x, Some(Cell { ch, fg, bg })), b2))
                    } else {
                        None
                    }
                },
                _ => None,
            },
            _ => Some((g, b2)),
        },
    }
}

/// Runs a whole command stream against the engine's knowledge. A `Some`
/// result pins down, next to everything `run_stream` says, which cell every
/// glyph write lands in and with which colors: the grid it returns is the
/// terminal knowledge the stream leaves behind.
pub open spec fn run_knowledge(
    cmds: Seq<Command>,
    g: Seq<Option<Cell>>,
    b: Belief,
    width: usize,
) -> Option<(Seq<Option<Cell>>, Belief)>
    decreases cmds.len(),
{
    if cmds.len() == 0 {
        Some((g, b))
    } else {
        match run_knowledge(cmds.drop_last(), g, b, width) {
            Some((g2, b2)) => step_knowledge(g2, b2, cmds.last(), width),
            None => None,
        }
    }
}

/// Diffs the scratch buffer against the previous cell buffer and emits the
/// commands bringing the terminal up to date. The stream holds exactly one
/// glyph write per changed cell and no redundant command; the previous cell
/// buffer afterwards records every scratch entry.
#[verifier::rlimit(60)]
pub fn emit(
    prev: &mut Vec<Option<Cell>>,
    scratch: &Vec<Option<Cell>>,
    belief: &mut Belief,
    width: usize,
    height: usize,
) -> (cmds: Vec<Command>)
    requires
        old(prev)@.len() == width * height,
        scratch@.len() == width * height,
    ensures
        final(prev)@.len() == width * height,
        forall|k: int|
            0 <= k < width * height ==> final(prev)@[k] == committed(
                scratch@[k],
                #[trigger] old(prev)@[k],
            ),
        run_stream(cmds@, *old(belief), width) == Some(*final(belief)),
        run_knowledge(cmds@, old(prev)@, *old(belief), width) == Some(
            (final(prev)@, *final(belief)),
        ),
        count_writes(cmds@) == n_changed_upto(scratch@, old(prev)@, (width * height) as int),
        (forall|k: int|
            0 <= k < width * height ==> !cell_changed(scratch@[k], #[trigger] old(prev)@[k]))
            ==> cmds@ == Seq::<Command>::empty(),
{
    let total = prev.len();
    let ghost b0 = *old(belief);
    let ghost prev0 = old(prev)@;
    let mut cmds: Vec<Command> = Vec::new();
    let mut y: usize = 0;
    while y < height
        invariant
            total == width * height,
            prev@.len() == width * height,
            scratch@.len() == width * height,
            prev0.len() == width * height,
            y <= height,
            forall|k: int|
                0 <= k < y * width ==> prev@[k] == committed(scratch@[k], #[trigger] prev0[k]),
            forall|k: int| y * width <= k < width * height ==> prev@[k] == #[trigger] prev0[k],
            run_stream(cmds@, b0, width) == Some(*belief),
            run_knowledge(cmds@, prev0, b0, width) == Some((prev@, *belief)),
            count_writes(cmds@) == n_changed_upto(scratch@, prev0, (y * width) as int),
            (forall|k: int|
                0 <= k < y * width ==> !cell_changed(scratch@[k], #[trigger] prev0[k])) ==> cmds@
                == Seq::<Command>::empty(),
        decreases height - y,
    {
        let mut x: usize = 0;
        proof {
            crate::composite::lemma_rowstart_bound(width as int, height as int, y as int);
        }
        while x < width
            invariant
                total == width * height,
                prev@.len() == width * height,
                scratch@.len() == width * height,
                prev0.len() == width * height,
                y < height,
                x <= width,
                y * width + x <= width * height,
                forall|k: int|
                    0 <= k < y * width + x ==> prev@[k] == committed(
                        scratch@[k],
                        #[trigger] prev0[k],
                    ),
                forall|k: int|
                    y * width + x <= k < width * height ==> prev@[k] == #[trigger] prev0[k],
                run_stream(cmds@, b0, width) == Some(*belief),
                run_knowledge(cmds@, prev0, b0, width) == Some((prev@, *belief)),
                count_writes(cmds@) == n_changed_upto(scratch@, prev0, (y * width + x) as int),
                (forall|k: int|
                    0 <= k < y * width + x ==> !cell_changed(scratch@[k], #[trigger] prev0[k]))
                    ==> cmds@ == Seq::<Command>::empty(),
            decreases width - x,
        {
            proof {
                lemma_cell_index_bound(width as int, height as int, x as int, y as int);
                assert(total <= usize::MAX);
            }
            let idx = y * width + x;
            let sc = scratch[idx];
            match sc {
                Some(c) => {
                    let pv = prev[idx];
                    let same = opt_cell_is(&pv, &c);
                    if !same {
                        proof {
                            assert(cell_changed(scratch@[idx as int], prev0[idx as int]));
                        }
                        if !cursor_is(&belief.cursor, x, y) {
                            let ghost cs = cmds@;
                            cmds.push(Command::MoveTo(x, y));
                            belief.cursor = Some(CursorPos { x, y });
                            proof {
                                assert(cmds@.drop_last() =~= cs);
                                assert(run_stream(cmds@, b0, width) == Some(*belief));
                                assert(run_knowledge(cmds@, prev0, b0, width) == Some(
                                    (prev@, *belief),
                                ));
                                assert(count_writes(cmds@) == count_writes(cs));
                            }
                        }
                        if !opt_color_is(&belief.fg, c.fg) {
                            let ghost cs = cmds@;
                            cmds.push(Command::SetFg(c.fg));
                            belief.fg = Some(c.fg);
                            proof {
                                assert(cmds@.drop_last() =~= cs);
                                assert(run_stream(cmds@, b0, width) == Some(*belief));
                                assert(run_knowledge(cmds@, prev0, b0, width) == Some(
                                    (prev@, *belief),
                                ));
                                assert(count_writes(cmds@) == count_writes(cs));
                            }
                        }
                        if !opt_color_is(&belief.bg, c.bg) {
                            let ghost cs = cmds@;
                            cmds.push(Command::SetBg(c.bg));
                            belief.bg = Some(c.bg);
                            proof {
                                assert(cmds@.drop_last() =~= cs);
                                assert(run_stream(cmds@, b0, width) == Some(*belief));
                                assert(run_knowledge(cmds@, prev0, b0, width) == Some(
                                    (prev@, *belief),
                                ));
                                assert(count_writes(cmds@) == count_writes(cs));
                            }
                        }
                        let ghost cs = cmds@;
                        let ghost before_print = prev@;
                        cmds.push(Command::Print(c.ch));
                        if x + 1 < width {
                            belief.cursor = Some(CursorPos { x: x + 1, y });
                        } else {
                            belief.cursor = None;
                        }
                        prev[idx] = Some(c);
                        proof {
                            assert(cmds@.drop_last() =~= cs);
                            assert(run_stream(cmds@, b0, width) == Some(*belief));
                            assert(prev@ =~= before_print.update(idx as int, Some(c)));
                            assert(run_knowledge(cmds@, prev0, b0, width) == Some(
                                (prev@, *belief),
                            ));
                            assert(count_writes(cmds@) == count_writes(cs) + 1);
                        }
                    } else {
                        proof {
                            assert(!cell_changed(scratch@[idx as int], prev0[idx as int]));
                        }
                        let ghost unchanged = prev@;
                        prev[idx] = Some(c);
                        proof {
                            assert(prev@ =~= unchanged);
                        }
                    }
                },
                None => {
                    proof {
                        assert(!cell_changed(scratch@[idx as int], prev0[idx as int]));
                    }
                },
            }
            proof {
                assert forall|k: int|
                    0 <= k < y * width + x + 1 implies prev@[k] == committed(
                    scratch@[k],
                    #[trigger] prev0[k],
                ) by {}
                assert(count_writes(cmds@) == n_changed_upto(
                    scratch@,
                    prev0,
                    (y * width + x + 1) as int,
                ));
            }
            x = x + 1;
        }
        proof {
            assert(y * width + width == (y + 1) * width) by (nonlinear_arith);
        }
        y = y + 1;
    }
    proof {
        assert(height * width == width * height) by (nonlinear_arith);
    }
    cmds
}

} // verus!
