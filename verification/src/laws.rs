//! Laws relating the tick pipeline's contracts across calls: an unchanged
//! scene redraws nothing, z-order compositing does not depend on the order
//! entities are handed in, and a committed tick leaves the previous cell
//! buffer showing exactly a fresh full render of the current scene.

use vstd::prelude::*;

use crate::assets::AssetStore;
use crate::cells::{blank_cell, Belief, Cell, Color, Command, CursorPos};
use crate::composite::cell_at;
use crate::emit::{run_knowledge, step_knowledge};
use crate::scene::{
    covers, distinct_ids, is_winner_at, lemma_winner_renders, needs_redraw, outranks,
    rendered_cell, scene_covers, touched, unchanged_in, unchanged_scene, vacates, EntityState,
};

verus! {

/// A scene is unchanged relative to its own committed snapshot, so a tick
/// run twice on the same entity state detects nothing to redraw the second
/// time and, by the renderer's contract, emits an empty command stream.
pub proof fn lemma_unchanged_scene_refl(s: Seq<EntityState>)
    ensures
        unchanged_scene(s, s),
{
    assert forall|i: int| 0 <= i < s.len() implies unchanged_in(s, #[trigger] s[i]) by {
        assert(s[i] == s[i]);
    }
}

/// Carries a winning entity from one scene to another that holds the same
/// covering entities, state for state; returns its index there.
proof fn lemma_winner_transfers(
    s1: Seq<EntityState>,
    s2: Seq<EntityState>,
    assets: AssetStore,
    i: int,
    x: int,
    y: int,
) -> (r: int)
    requires
        distinct_ids(s2),
        forall|i1: int|
            0 <= i1 < s1.len() && covers(#[trigger] s1[i1], assets, x, y) ==> unchanged_in(
                s2,
                s1[i1],
            ),
        forall|j2: int|
            0 <= j2 < s2.len() && covers(#[trigger] s2[j2], assets, x, y) ==> unchanged_in(
                s1,
                s2[j2],
            ),
        is_winner_at(s1, assets, i, x, y),
    ensures
        is_winner_at(s2, assets, r, x, y),
        s2[r] == s1[i],
{
    assert(unchanged_in(s2, s1[i]));
    let i2 = choose|i2: int| 0 <= i2 < s2.len() && #[trigger] s2[i2] == s1[i];
    assert forall|j2: int|
        0 <= j2 < s2.len() && j2 != i2 && covers(#[trigger] s2[j2], assets, x, y) implies outranks(
        s2[i2],
        s2[j2],
    ) by {
        assert(unchanged_in(s1, s2[j2]));
        let j1 = choose|j1: int| 0 <= j1 < s1.len() && #[trigger] s1[j1] == s2[j2];
        if j1 == i {
            assert(s2[j2].id == s2[i2].id);
            assert(false);
        } else {
            assert(covers(s1[j1], assets, x, y));
            assert(outranks(s1[i], s1[j1]));
        }
    }
    i2
}

/// Z-order determinism: two scenes holding the same entities, in whatever
/// order they were created or handed in, render identically at every
/// coordinate — the higher z-order always wins, and on equal z-order the
/// entity with the smaller identifier (the earlier-created one) wins.
pub proof fn lemma_zorder_determinism(
    s1: Seq<EntityState>,
    s2: Seq<EntityState>,
    assets: AssetStore,
    x: int,
    y: int,
)
    requires
        distinct_ids(s1),
        distinct_ids(s2),
        forall|e: EntityState| #[trigger] s1.contains(e) ==> s2.contains(e),
        forall|e: EntityState| #[trigger] s2.contains(e) ==> s1.contains(e),
    ensures
        rendered_cell(s1, assets, x, y) == rendered_cell(s2, assets, x, y),
{
    assert forall|i1: int|
        0 <= i1 < s1.len() && covers(#[trigger] s1[i1], assets, x, y) implies unchanged_in(
        s2,
        s1[i1],
    ) by {
        assert(s1.contains(s1[i1]));
        assert(s2.contains(s1[i1]));
    }
    assert forall|j2: int|
        0 <= j2 < s2.len() && covers(#[trigger] s2[j2], assets, x, y) implies unchanged_in(
        s1,
        s2[j2],
    ) by {
        assert(s2.contains(s2[j2]));
        assert(s1.contains(s2[j2]));
    }
    lemma_renders_alike(s1, s2, assets, x, y);
}

/// Two scenes whose covering entities coincide, state for state, at one
/// coordinate render the same cell there.
proof fn lemma_renders_alike(
    s1: Seq<EntityState>,
    s2: Seq<EntityState>,
    assets: AssetStore,
    x: int,
    y: int,
)
    requires
        distinct_ids(s1),
        distinct_ids(s2),
        forall|i1: int|
            0 <= i1 < s1.len() && covers(#[trigger] s1[i1], assets, x, y) ==> unchanged_in(
                s2,
                s1[i1],
            ),
        forall|j2: int|
            0 <= j2 < s2.len() && covers(#[trigger] s2[j2], assets, x, y) ==> unchanged_in(
                s1,
                s2[j2],
            ),
    ensures
        rendered_cell(s1, assets, x, y) == rendered_cell(s2, assets, x, y),
        scene_covers(s1, assets, x, y) == scene_covers(s2, assets, x, y),
{
    if scene_covers(s1, assets, x, y) {
        let i = choose|i: int| 0 <= i < s1.len() && covers(#[trigger] s1[i], assets, x, y);
        assert(unchanged_in(s2, s1[i]));
        let i2 = choose|i2: int| 0 <= i2 < s2.len() && #[trigger] s2[i2] == s1[i];
        assert(scene_covers(s2, assets, x, y));
    }
    if scene_covers(s2, assets, x, y) {
        let j = choose|j: int| 0 <= j < s2.len() && covers(#[trigger] s2[j], assets, x, y);
        assert(unchanged_in(s1, s2[j]));
        let j1 = choose|j1: int| 0 <= j1 < s1.len() && #[trigger] s1[j1] == s2[j];
        assert(scene_covers(s1, assets, x, y));
    }
    if exists|i: int| #[trigger] is_winner_at(s1, assets, i, x, y) {
        let i = choose|i: int| #[trigger] is_winner_at(s1, assets, i, x, y);
        let i2 = lemma_winner_transfers(s1, s2, assets, i, x, y);
        lemma_winner_renders(s1, assets, i, x, y);
        lemma_winner_renders(s2, assets, i2, x, y);
    } else if exists|j: int| #[trigger] is_winner_at(s2, assets, j, x, y) {
        let j = choose|j: int| #[trigger] is_winner_at(s2, assets, j, x, y);
        let j1 = lemma_winner_transfers(s2, s1, assets, j, x, y);
        assert(is_winner_at(s1, assets, j1, x, y));
        assert(false);
    }
}

/// Locality of the diff: at a coordinate the tick does not touch — one
/// covered by no changed, new, removed or moved entity's footprint — a full
/// render of the current scene agrees with a full render of the committed
/// one, so the emitted commands only ever concern touched footprints.
pub proof fn lemma_untouched_renders_alike(
    cur: Seq<EntityState>,
    det: Seq<EntityState>,
    assets: AssetStore,
    x: int,
    y: int,
)
    requires
        distinct_ids(cur),
        distinct_ids(det),
        !touched(cur, det, assets, x, y),
    ensures
        rendered_cell(cur, assets, x, y) == rendered_cell(det, assets, x, y),
        scene_covers(cur, assets, x, y) == scene_covers(det, assets, x, y),
{
    assert forall|i: int|
        0 <= i < cur.len() && covers(#[trigger] cur[i], assets, x, y) implies unchanged_in(
        det,
        cur[i],
    ) by {
        if !unchanged_in(det, cur[i]) {
            assert(needs_redraw(cur, det, i) && covers(cur[i], assets, x, y));
            assert(touched(cur, det, assets, x, y));
        }
    }
    assert forall|j: int|
        0 <= j < det.len() && covers(#[trigger] det[j], assets, x, y) implies unchanged_in(
        cur,
        det[j],
    ) by {
        if !unchanged_in(cur, det[j]) {
            assert(vacates(cur, det, j) && covers(det[j], assets, x, y));
            assert(touched(cur, det, assets, x, y));
        }
    }
    lemma_renders_alike(cur, det, assets, x, y);
}

/// What the previous cell buffer says a coordinate shows: the recorded cell,
/// or the blank cell where nothing was ever written.
pub open spec fn buffer_shows(g: Seq<Option<Cell>>, width: usize, x: int, y: int) -> Cell {
    match cell_at(g, width, x, y) {
        Some(c) => c,
        None => blank_cell(),
    }
}

/// Vacate and reveal: a committed tick leaves the previous cell buffer
/// showing, at every coordinate, exactly what a fresh full render of the
/// current scene shows — also at cells of entities that did not themselves
/// change, such as a lower entity revealed by removing the one occluding it.
/// The two buffer premises are the renderer's own tick postconditions; the
/// first premise is this same conclusion for the previously committed tick.
pub proof fn lemma_commit_full_render(
    cur: Seq<EntityState>,
    det: Seq<EntityState>,
    assets: AssetStore,
    before: Seq<Option<Cell>>,
    after: Seq<Option<Cell>>,
    width: usize,
    height: usize,
)
    requires
        distinct_ids(cur),
        distinct_ids(det),
        forall|x: int, y: int|
            0 <= x < width && 0 <= y < height ==> #[trigger] buffer_shows(before, width, x, y)
                == rendered_cell(det, assets, x, y),
        forall|x: int, y: int|
            0 <= x < width && 0 <= y < height && !touched(cur, det, assets, x, y)
                ==> #[trigger] cell_at(after, width, x, y) == cell_at(before, width, x, y),
        forall|x: int, y: int|
            0 <= x < width && 0 <= y < height && touched(cur, det, assets, x, y)
                ==> #[trigger] cell_at(after, width, x, y) == Some(
                rendered_cell(cur, assets, x, y),
            ),
    ensures
        forall|x: int, y: int|
            0 <= x < width && 0 <= y < height ==> #[trigger] buffer_shows(after, width, x, y)
                == rendered_cell(cur, assets, x, y),
{
    assert forall|x: int, y: int| 0 <= x < width && 0 <= y < height implies #[trigger] buffer_shows(
        after,
        width,
        x,
        y,
    ) == rendered_cell(cur, assets, x, y) by {
        assert(buffer_shows(before, width, x, y) == rendered_cell(det, assets, x, y));
        if touched(cur, det, assets, x, y) {
            assert(cell_at(after, width, x, y) == Some(rendered_cell(cur, assets, x, y)));
        } else {
            assert(cell_at(after, width, x, y) == cell_at(before, width, x, y));
            lemma_untouched_renders_alike(cur, det, assets, x, y);
        }
    }
}

/// A real terminal as the emitted stream finds it: a full cell grid, a
/// cursor, and the colors in force.
pub struct Terminal {
    pub cells: Seq<Cell>,
    pub cursor: CursorPos,
    pub fg: Color,
    pub bg: Color,
}

/// What one logical command does to a real terminal. A glyph write lands at
/// the cursor's cell with the colors in force and advances the cursor.
pub open spec fn term_step(t: Terminal, c: Command, width: usize) -> Terminal {
    match c {
        Command::MoveTo(x, y) => Terminal { cursor: CursorPos { x, y }, ..t },
        Command::SetFg(col) => Terminal { fg: col, ..t },
        Command::SetBg(col) => Terminal { bg: col, ..t },
        Command::Print(ch) => {
            let k = t.cursor.y * width + t.cursor.x;
            let written = if t.cursor.x < width && k < t.cells.len() {
                t.cells.update(k as int, Cell { ch, fg: t.fg, bg: t.bg })
            } else {
                t.cells
            };
            Terminal {
                cells: written,
                cursor: CursorPos { x: (t.cursor.x + 1) as usize, y: t.cursor.y },
                ..t
            }
        },
        Command::SetCursorVisible(_) => t,
    }
}

/// What a whole command stream does to a real terminal.
pub open spec fn run_term(cmds: Seq<Command>, t: Terminal, width: usize) -> Terminal
    decreases cmds.len(),
{
    if cmds.len() == 0 {
        t
    } else {
        term_step(run_term(cmds.drop_last(), t, width), cmds.last(), width)
    }
}

/// The terminal agrees with the engine's knowledge: every recorded cell is
/// what the terminal shows there, and every believed cursor position or
/// color is the terminal's actual one. Unknown entries constrain nothing.
pub open spec fn consistent(t: Terminal, g: Seq<Option<Cell>>, b: Belief, width: usize) -> bool {
    &&& t.cells.len() == g.len()
    &&& forall|k: int| 0 <= k < g.len() && g[k] is Some ==> t.cells[k] == (#[trigger] g[k]).unwrap()
    &&& (b.cursor is Some ==> t.cursor == b.cursor.unwrap())
    &&& (b.fg is Some ==> t.fg == b.fg.unwrap())
    &&& (b.bg is Some ==> t.bg == b.bg.unwrap())
}

/// Soundness of the emitted stream: run against any real terminal that
/// agrees with the engine's starting knowledge, it leaves a terminal that
/// agrees with the engine's final knowledge — in particular, every cell the
/// previous cell buffer records afterwards is exactly what the terminal now
/// shows — and it changes no terminal cell the final buffer does not record.
pub proof fn lemma_stream_soundness(
    cmds: Seq<Command>,
    g0: Seq<Option<Cell>>,
    b0: Belief,
    t0: Terminal,
    width: usize,
    g1: Seq<Option<Cell>>,
    b1: Belief,
)
    requires
        run_knowledge(cmds, g0, b0, width) == Some((g1, b1)),
        consistent(t0, g0, b0, width),
    ensures
        consistent(run_term(cmds, t0, width), g1, b1, width),
        g1.len() == g0.len(),
        forall|k: int|
            0 <= k < g0.len() ==> run_term(cmds, t0, width).cells[k] == t0.cells[k] || g1[k]
                == Some(#[trigger] run_term(cmds, t0, width).cells[k]),
    decreases cmds.len(),
{
    if cmds.len() > 0 {
        let mid = run_knowledge(cmds.drop_last(), g0, b0, width);
        let gm = mid.unwrap().0;
        let bm = mid.unwrap().1;
        lemma_stream_soundness(cmds.drop_last(), g0, b0, t0, width, gm, bm);
        let tm = run_term(cmds.drop_last(), t0, width);
        let t1 = run_term(cmds, t0, width);
        assert(t1 == term_step(tm, cmds.last(), width));
        assert(Some((g1, b1)) == step_knowledge(gm, bm, cmds.last(), width));
        match cmds.last() {
            Command::Print(ch) => {
                let p = bm.cursor.unwrap();
                let k = p.y * width + p.x;
                assert(tm.cursor == p);
                assert(tm.fg == bm.fg.unwrap());
                assert(tm.bg == bm.bg.unwrap());
                assert(t1.cells == tm.cells.update(
                    k as int,
                    Cell { ch, fg: tm.fg, bg: tm.bg },
                ));
                assert(g1 == gm.update(k as int, Some(Cell { ch, fg: tm.fg, bg: tm.bg })));
            },
            _ => {},
        }
        assert forall|k: int| 0 <= k < g0.len() implies t1.cells[k] == t0.cells[k] || g1[k]
            == Some(t1.cells[k]) by {
            assert(tm.cells[k] == t0.cells[k] || gm[k] == Some(tm.cells[k]));
            match cmds.last() {
                Command::Print(ch) => {
                    let p = bm.cursor.unwrap();
                    let kw = p.y * width + p.x;
                    if k == kw {
                        assert(g1[k] == Some(t1.cells[k]));
                    } else {
                        assert(t1.cells[k] == tm.cells[k]);
                        assert(g1[k] == gm[k]);
                    }
                },
                _ => {
                    assert(t1.cells[k] == tm.cells[k]);
                    assert(g1[k] == gm[k]);
                },
            }
        }
        assert(forall|k: int|
            0 <= k < g0.len() ==> run_term(cmds, t0, width).cells[k] == t0.cells[k] || g1[k]
                == Some(#[trigger] run_term(cmds, t0, width).cells[k]));
    }
}

} // verus!
