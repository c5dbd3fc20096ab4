//! The scene model: per-entity render state, the snapshot of the previous
//! tick, and the specification of what a full render of a scene shows at
//! each terminal coordinate.

use vstd::prelude::*;

use crate::assets::{AssetStore, CellStyle, no_style};
use crate::cells::{blank_cell, Cell, Color};

verus! {

/// One entity's render state: position in terminal cells, asset handles,
/// and z-order. Owned by the host; this library only reads it.
#[derive(Clone, Copy, PartialEq, Eq, Structural, Debug)]
pub struct EntityState {
    pub id: u64,
    pub x: usize,
    pub y: usize,
    pub z: u64,
    pub sprite: usize,
    pub style: usize,
}

/// The snapshot of each live entity's render state as last committed to the
/// terminal: the baseline every tick diffs against.
pub struct PreviousEntityDetails {
    pub entries: Vec<EntityState>,
}

impl PreviousEntityDetails {
    pub fn new() -> (r: PreviousEntityDetails)
        ensures
            r.entries@.len() == 0,
    {
        PreviousEntityDetails { entries: Vec::new() }
    }
}

/// No two entities share an identifier. Duplicate identifiers are a host
/// bookkeeping error; the library stays safe under them but pins rendered
/// content only when they are absent.
pub open spec fn distinct_ids(s: Seq<EntityState>) -> bool {
    forall|i: int, j: int|
        0 <= i < s.len() && 0 <= j < s.len() && i != j ==> (#[trigger] s[i]).id != (
        #[trigger] s[j]).id
}

/// Both asset handles of `e` name loaded assets. An entity referencing a
/// stale handle is skipped for the tick's composite, a non-fatal condition
/// `stale_entities` reports to the host.
pub open spec fn handles_loaded(e: EntityState, assets: AssetStore) -> bool {
    e.sprite < assets.sprites@.len() && e.style < assets.styles@.len()
}

/// Whether entity `e` shows a glyph at terminal coordinate `(x, y)`:
/// its handles are loaded, the coordinate falls in its sprite, and the
/// sprite cell is not transparent.
pub open spec fn covers(e: EntityState, assets: AssetStore, x: int, y: int) -> bool {
    &&& handles_loaded(e, assets)
    &&& e.x <= x
    &&& e.y <= y
    &&& assets.sprites@[e.sprite as int].glyph_at(x - e.x, y - e.y) is Some
}

/// The style an entity resolves for one of its covered cells: the explicit
/// style-map entry if there is one, otherwise no preference. A stale style
/// handle resolves no style.
pub open spec fn resolved_style(e: EntityState, assets: AssetStore, x: int, y: int) -> CellStyle {
    if e.style < assets.styles@.len() {
        assets.styles@[e.style as int].style_at(x - e.x, y - e.y)
    } else {
        no_style()
    }
}

/// The cell entity `e` paints at a coordinate it covers: its glyph, with
/// each unresolved color channel falling back to the terminal default.
pub open spec fn painted_cell(e: EntityState, assets: AssetStore, x: int, y: int) -> Cell
    recommends
        covers(e, assets, x, y),
{
    let ch = assets.sprites@[e.sprite as int].glyph_at(x - e.x, y - e.y).unwrap();
    let st = resolved_style(e, assets, x, y);
    Cell {
        ch,
        fg: match st.fg {
            Some(c) => c,
            None => Color::Default,
        },
        bg: match st.bg {
            Some(c) => c,
            None => Color::Default,
        },
    }
}

/// Compositing priority: higher z wins; on equal z the earlier-created
/// entity (the smaller identifier) wins.
pub open spec fn outranks(a: EntityState, b: EntityState) -> bool {
    a.z > b.z || (a.z == b.z && a.id < b.id)
}

/// Some entity of the scene shows a glyph at `(x, y)`.
pub open spec fn scene_covers(s: Seq<EntityState>, assets: AssetStore, x: int, y: int) -> bool {
    exists|i: int| 0 <= i < s.len() && covers(#[trigger] s[i], assets, x, y)
}

/// Entity `s[i]` covers `(x, y)` and outranks every other entity covering it.
pub open spec fn is_winner_at(
    s: Seq<EntityState>,
    assets: AssetStore,
    i: int,
    x: int,
    y: int,
) -> bool {
    &&& 0 <= i < s.len()
    &&& covers(s[i], assets, x, y)
    &&& forall|j: int|
        0 <= j < s.len() && j != i && covers(#[trigger] s[j], assets, x, y) ==> outranks(
            s[i],
            s[j],
        )
}

/// What a fresh full render of the scene shows at `(x, y)`: the cell painted
/// by the winning entity, or the blank cell where nothing covers.
pub open spec fn rendered_cell(s: Seq<EntityState>, assets: AssetStore, x: int, y: int) -> Cell {
    if exists|i: int| #[trigger] is_winner_at(s, assets, i, x, y) {
        painted_cell(s[choose|i: int| is_winner_at(s, assets, i, x, y)], assets, x, y)
    } else {
        blank_cell()
    }
}

/// Under distinct identifiers, the winning index at a coordinate is unique.
pub proof fn lemma_winner_unique(
    s: Seq<EntityState>,
    assets: AssetStore,
    i: int,
    j: int,
    x: int,
    y: int,
)
    requires
        distinct_ids(s),
        is_winner_at(s, assets, i, x, y),
        is_winner_at(s, assets, j, x, y),
    ensures
        i == j,
{
    if i != j {
        assert(outranks(s[i], s[j]));
        assert(outranks(s[j], s[i]));
    }
}

/// A winner pins the rendered cell: what the winning entity paints is what
/// the full render shows.
pub proof fn lemma_winner_renders(s: Seq<EntityState>, assets: AssetStore, i: int, x: int, y: int)
    requires
        distinct_ids(s),
        is_winner_at(s, assets, i, x, y),
    ensures
        rendered_cell(s, assets, x, y) == painted_cell(s[i], assets, x, y),
{
    let w = choose|k: int| is_winner_at(s, assets, k, x, y);
    lemma_winner_unique(s, assets, i, w, x, y);
}

/// The exact state `e`, identifier included, appears in `s`.
pub open spec fn unchanged_in(s: Seq<EntityState>, e: EntityState) -> bool {
    exists|i: int| 0 <= i < s.len() && #[trigger] s[i] == e
}

/// Nothing to redraw: every current entity was committed exactly as it
/// stands, and every committed entity still stands exactly as committed.
pub open spec fn unchanged_scene(cur: Seq<EntityState>, det: Seq<EntityState>) -> bool {
    &&& forall|i: int| 0 <= i < cur.len() ==> unchanged_in(det, #[trigger] cur[i])
    &&& forall|j: int| 0 <= j < det.len() ==> unchanged_in(cur, #[trigger] det[j])
}

/// Current entity `cur[i]` needs a redraw: it is new, or its committed
/// snapshot differs in position, handle, or z-order.
pub open spec fn needs_redraw(cur: Seq<EntityState>, det: Seq<EntityState>, i: int) -> bool {
    0 <= i < cur.len() && !unchanged_in(det, cur[i])
}

/// Snapshot entry `det[j]` leaves cells behind: its entity was removed or
/// changed, so its old footprint must be erased or recomposited.
pub open spec fn vacates(cur: Seq<EntityState>, det: Seq<EntityState>, j: int) -> bool {
    0 <= j < det.len() && !unchanged_in(cur, det[j])
}

/// A coordinate this tick must recompute: covered by an entity that needs a
/// redraw, or by the old footprint of a removed or changed entity.
pub open spec fn touched(
    cur: Seq<EntityState>,
    det: Seq<EntityState>,
    assets: AssetStore,
    x: int,
    y: int,
) -> bool {
    ||| exists|i: int|
        #[trigger] needs_redraw(cur, det, i) && covers(cur[i], assets, x, y)
    ||| exists|j: int| #[trigger] vacates(cur, det, j) && covers(det[j], assets, x, y)
}

/// Whether entity `e` shows a glyph at `(x, y)`, decided at run time.
pub fn covers_exec(e: &EntityState, assets: &AssetStore, x: usize, y: usize) -> (r: bool)
    requires
        assets.wf(),
    ensures
        r == covers(*e, *assets, x as int, y as int),
{
    if e.sprite >= assets.sprites.len() || e.style >= assets.styles.len() {
        return false;
    }
    let sp = &assets.sprites[e.sprite];
    if x < e.x || y < e.y {
        return false;
    }
    let dx = x - e.x;
    let dy = y - e.y;
    if dx >= sp.width || dy >= sp.height {
        return false;
    }
    let n = sp.cells.len();
    proof {
        lemma_cell_index_bound(sp.width as int, sp.height as int, dx as int, dy as int);
        assert(n <= usize::MAX);
    }
    sp.cells[dy * sp.width + dx].is_some()
}

/// The cell entity `e` paints at a coordinate it covers, computed at run
/// time and equal to the specification.
pub fn painted_cell_exec(e: &EntityState, assets: &AssetStore, x: usize, y: usize) -> (r: Cell)
    requires
        assets.wf(),
        covers(*e, *assets, x as int, y as int),
    ensures
        r == painted_cell(*e, *assets, x as int, y as int),
{
    let sp = &assets.sprites[e.sprite];
    let dx = x - e.x;
    let dy = y - e.y;
    let n = sp.cells.len();
    proof {
        lemma_cell_index_bound(sp.width as int, sp.height as int, dx as int, dy as int);
        assert(n <= usize::MAX);
    }
    let ch = match sp.cells[dy * sp.width + dx] {
        Some(c) => c,
        None => ' ',  // unreachable: the entity covers this coordinate
    };
    let mut fg = Color::Default;
    let mut bg = Color::Default;
    if e.style < assets.styles.len() {
        let sm = &assets.styles[e.style];
        if dx < sm.width && dy < sm.height {
            let nm = sm.cells.len();
            proof {
                lemma_cell_index_bound(sm.width as int, sm.height as int, dx as int, dy as int);
                assert(nm <= usize::MAX);
            }
            let st = sm.cells[dy * sm.width + dx];
            if let Some(c) = st.fg {
                fg = c;
            }
            if let Some(c) = st.bg {
                bg = c;
            }
        }
    }
    Cell { ch, fg, bg }
}

/// The identifiers of the entities whose sprite or style handle is stale,
/// in scene order.
pub open spec fn stale_ids(s: Seq<EntityState>, assets: AssetStore) -> Seq<u64>
    decreases s.len(),
{
    if s.len() == 0 {
        Seq::empty()
    } else {
        let rest = stale_ids(s.drop_last(), assets);
        if !handles_loaded(s.last(), assets) {
            rest.push(s.last().id)
        } else {
            rest
        }
    }
}

/// Reports, as a non-fatal diagnostic for the host, every entity the tick
/// skipped because its sprite or style handle names no loaded asset.
pub fn stale_entities(current: &Vec<EntityState>, assets: &AssetStore) -> (r: Vec<u64>)
    ensures
        r@ == stale_ids(current@, *assets),
{
    let mut r: Vec<u64> = Vec::new();
    let mut i: usize = 0;
    while i < current.len()
        invariant
            i <= current@.len(),
            r@ == stale_ids(current@.take(i as int), *assets),
        decreases current@.len() - i,
    {
        let e = &current[i];
        if e.sprite >= assets.sprites.len() || e.style >= assets.styles.len() {
            r.push(e.id);
        }
        proof {
            assert(current@.take(i + 1).drop_last() =~= current@.take(i as int));
            assert(current@.take(i + 1).last() == current@[i as int]);
        }
        i = i + 1;
    }
    proof {
        assert(current@.take(current@.len() as int) =~= current@);
    }
    r
}

/// A row-major index stays within a `w` x `h` grid.
pub proof fn lemma_cell_index_bound(w: int, h: int, dx: int, dy: int)
    requires
        0 <= dx < w,
        0 <= dy < h,
    ensures
        0 <= dy * w + dx < w * h,
        dy * w + dx <= (h - 1) * w + (w - 1),
{
    assert(dy * w <= (h - 1) * w) by (nonlinear_arith)
        requires
            dy <= h - 1,
            w >= 0,
    ;
    assert((h - 1) * w + w == h * w) by (nonlinear_arith);
    assert(dy * w >= 0) by (nonlinear_arith)
        requires
            dy >= 0,
            w >= 0,
    ;
}

} // verus!
