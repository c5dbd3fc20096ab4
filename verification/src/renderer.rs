//! The renderer: owns the previous-frame state (entity snapshots, previous
//! cell buffer, cursor and color belief) and runs one tick as detect,
//! composite, emit, commit. A dimension change invalidates the whole buffer
//! and forces a full redraw of every visible entity.

use vstd::prelude::*;

use crate::assets::AssetStore;
use crate::cells::{run_stream, unknown_belief, Belief, Cell, Command};
use crate::composite::{
    cell_at, composite, plan_touches, touch_redraw_upto, touch_vacated_upto,
};
use crate::detect::{detect, from_vacated, RedrawPlan};
use crate::cells::count_writes;
use crate::emit::{cell_changed, committed, emit, n_changed_upto, run_knowledge};
use crate::scene::{
    covers, distinct_ids, lemma_cell_index_bound, needs_redraw, rendered_cell, scene_covers,
    touched, unchanged_scene, vacates, EntityState, PreviousEntityDetails,
};

verus! {

/// A flat grid index names exactly one in-bounds coordinate.
proof fn lemma_index_to_coords(width: int, height: int, k: int)
    requires
        width > 0,
        0 <= k < width * height,
    ensures
        0 <= k % width < width,
        0 <= k / width < height,
        (k / width) * width + (k % width) == k,
{
    vstd::arithmetic::div_mod::lemma_fundamental_div_mod(k, width);
    vstd::arithmetic::div_mod::lemma_mod_bound(k, width);
    assert(k == width * (k / width) + k % width);
    assert(k / width >= 0) by {
        vstd::arithmetic::div_mod::lemma_div_pos_is_pos(k, width);
    }
    if k / width >= height {
        assert(width * (k / width) >= width * height) by (nonlinear_arith)
            requires
                width > 0,
                k / width >= height,
        ;
        assert(false);
    }
    assert((k / width) * width == width * (k / width)) by (nonlinear_arith);
}

/// How many of the first `k` coordinates of a `width`-column grid, taken in
/// row-major order, some entity of the scene covers.
pub open spec fn n_covered_upto(
    cur: Seq<EntityState>,
    assets: AssetStore,
    width: usize,
    k: int,
) -> nat
    decreases k,
{
    if k <= 0 {
        0
    } else {
        n_covered_upto(cur, assets, width, k - 1) + if scene_covers(
            cur,
            assets,
            (k - 1) % (width as int),
            (k - 1) / (width as int),
        ) {
            1nat
        } else {
            0nat
        }
    }
}

/// Two cell counts agree when their per-index predicates agree.
proof fn lemma_counts_match(
    scratch: Seq<Option<Cell>>,
    prevb: Seq<Option<Cell>>,
    cur: Seq<EntityState>,
    assets: AssetStore,
    width: usize,
    k: int,
)
    requires
        forall|j: int|
            0 <= j < k ==> cell_changed(scratch[j], #[trigger] prevb[j]) == scene_covers(
                cur,
                assets,
                j % (width as int),
                j / (width as int),
            ),
    ensures
        n_changed_upto(scratch, prevb, k) == n_covered_upto(cur, assets, width, k),
    decreases k,
{
    if k > 0 {
        lemma_counts_match(scratch, prevb, cur, assets, width, k - 1);
    }
}

/// How many of the first `k` coordinates of a `width`-column grid, taken in
/// row-major order, the tick must recompute.
pub open spec fn n_touched_upto(
    cur: Seq<EntityState>,
    det: Seq<EntityState>,
    assets: AssetStore,
    width: usize,
    k: int,
) -> nat
    decreases k,
{
    if k <= 0 {
        0
    } else {
        n_touched_upto(cur, det, assets, width, k - 1) + if touched(
            cur,
            det,
            assets,
            (k - 1) % (width as int),
            (k - 1) / (width as int),
        ) {
            1nat
        } else {
            0nat
        }
    }
}

/// A cell count never exceeds one whose per-index predicate is implied.
proof fn lemma_counts_bounded(
    scratch: Seq<Option<Cell>>,
    prevb: Seq<Option<Cell>>,
    cur: Seq<EntityState>,
    det: Seq<EntityState>,
    assets: AssetStore,
    width: usize,
    k: int,
)
    requires
        forall|j: int|
            0 <= j < k && cell_changed(scratch[j], #[trigger] prevb[j]) ==> touched(
                cur,
                det,
                assets,
                j % (width as int),
                j / (width as int),
            ),
    ensures
        n_changed_upto(scratch, prevb, k) <= n_touched_upto(cur, det, assets, width, k),
    decreases k,
{
    if k > 0 {
        lemma_counts_bounded(scratch, prevb, cur, det, assets, width, k - 1);
    }
}

/// The plan the change detector computes touches exactly the coordinates the
/// scene-level redraw specification touches.
proof fn lemma_plan_touches_eq(
    cur: Seq<EntityState>,
    det: Seq<EntityState>,
    redraw: Seq<bool>,
    vacated: Seq<EntityState>,
    assets: AssetStore,
    x: int,
    y: int,
)
    requires
        redraw.len() == cur.len(),
        forall|i: int| 0 <= i < cur.len() ==> redraw[i] == needs_redraw(cur, det, i),
        forall|k: int| 0 <= k < vacated.len() ==> from_vacated(cur, det, #[trigger] vacated[k]),
        forall|j: int| vacates(cur, det, j) ==> vacated.contains(#[trigger] det[j]),
    ensures
        plan_touches(cur, redraw, vacated, assets, x, y) == touched(cur, det, assets, x, y),
{
    if plan_touches(cur, redraw, vacated, assets, x, y) {
        if touch_redraw_upto(cur, redraw, assets, x, y, cur.len() as int) {
            let i = choose|i: int| 0 <= i < cur.len() && redraw[i] && covers(cur[i], assets, x, y);
            assert(needs_redraw(cur, det, i) && covers(cur[i], assets, x, y));
        } else {
            let k = choose|k: int| 0 <= k < vacated.len() && covers(vacated[k], assets, x, y);
            assert(from_vacated(cur, det, vacated[k]));
            let j = choose|j: int| #[trigger] vacates(cur, det, j) && det[j] == vacated[k];
            assert(vacates(cur, det, j) && covers(det[j], assets, x, y));
        }
        assert(touched(cur, det, assets, x, y));
    }
    if touched(cur, det, assets, x, y) {
        if exists|i: int| #[trigger] needs_redraw(cur, det, i) && covers(cur[i], assets, x, y) {
            let i = choose|i: int|
                #[trigger] needs_redraw(cur, det, i) && covers(cur[i], assets, x, y);
            assert(redraw[i] && covers(cur[i], assets, x, y));
            assert(touch_redraw_upto(cur, redraw, assets, x, y, cur.len() as int));
        } else {
            let j = choose|j: int| #[trigger] vacates(cur, det, j) && covers(det[j], assets, x, y);
            assert(vacated.contains(det[j]));
            let k = choose|k: int| 0 <= k < vacated.len() && vacated[k] == det[j];
            assert(covers(vacated[k], assets, x, y));
            assert(touch_vacated_upto(vacated, assets, x, y, vacated.len() as int));
        }
        assert(plan_touches(cur, redraw, vacated, assets, x, y));
    }
}

/// A fully stale previous cell buffer: nothing is known of any coordinate.
pub open spec fn stale_cells(width: usize, height: usize) -> Seq<Option<Cell>> {
    Seq::new((width * height) as nat, (|i: int| None))
}

fn stale_grid(width: usize, height: usize) -> (g: Vec<Option<Cell>>)
    requires
        (width as int) * (height as int) <= usize::MAX as int,
    ensures
        g@.len() == width * height,
        forall|k: int| 0 <= k < g@.len() ==> (#[trigger] g@[k]) is None,
        g@ == stale_cells(width, height),
{
    let total = width * height;
    let mut g: Vec<Option<Cell>> = Vec::new();
    while g.len() < total
        invariant
            total == width * height,
            g@.len() <= total,
            forall|k: int| 0 <= k < g@.len() ==> (#[trigger] g@[k]) is None,
        decreases total - g@.len(),
    {
        g.push(None);
    }
    proof {
        assert(g@ =~= stale_cells(width, height));
    }
    g
}

/// The renderer's persistent state across ticks.
pub struct Renderer {
    pub width: usize,
    pub height: usize,
    pub prev: Vec<Option<Cell>>,
    pub details: PreviousEntityDetails,
    pub belief: Belief,
    pub cursor_visible: bool,
}

impl Renderer {
    /// The previous cell buffer spans exactly the terminal area.
    pub open spec fn wf(self) -> bool {
        self.prev@.len() == self.width * self.height
    }

    /// The terminal dimensions changed since the last committed tick.
    pub open spec fn resized(self, width: usize, height: usize) -> bool {
        self.width != width || self.height != height
    }

    pub fn new(width: usize, height: usize) -> (r: Renderer)
        requires
            (width as int) * (height as int) <= usize::MAX as int,
        ensures
            r.wf(),
            r.width == width,
            r.height == height,
            r.details.entries@.len() == 0,
            forall|k: int| 0 <= k < r.prev@.len() ==> (#[trigger] r.prev@[k]) is None,
            r.belief == unknown_belief(),
            r.cursor_visible,
    {
        Renderer {
            width,
            height,
            prev: stale_grid(width, height),
            details: PreviousEntityDetails::new(),
            belief: Belief { cursor: None, fg: None, bg: None },
            cursor_visible: true,
        }
    }

    /// Changes the exposed cursor-visibility setting, returning the command
    /// to emit exactly when the setting actually changed.
    pub fn set_cursor_visibility(&mut self, on: bool) -> (cmd: Option<Command>)
        ensures
            *final(self) == (Renderer { cursor_visible: on, ..*old(self) }),
            cmd == (if on == old(self).cursor_visible {
                None
            } else {
                Some(Command::SetCursorVisible(on))
            }),
    {
        if on != self.cursor_visible {
            self.cursor_visible = on;
            Some(Command::SetCursorVisible(on))
        } else {
            None
        }
    }

    /// Runs one tick: detects changed entities against the committed
    /// snapshots, composites the touched cells, emits the minimal command
    /// stream against the previous cell buffer, and commits both baselines.
    ///
    /// After the call the previous cell buffer holds, at every touched
    /// coordinate, exactly what a fresh full render of the current scene
    /// shows there, and is untouched elsewhere; an unchanged scene emits
    /// nothing; a dimension change invalidates the buffer and recommits it
    /// as a full render of the scene.
    pub fn render_tick(
        &mut self,
        current: &Vec<EntityState>,
        assets: &AssetStore,
        width: usize,
        height: usize,
    ) -> (cmds: Vec<Command>)
        requires
            old(self).wf(),
            assets.wf(),
            (width as int) * (height as int) <= usize::MAX as int,
        ensures
            final(self).wf(),
            final(self).width == width,
            final(self).height == height,
            final(self).details.entries@ == current@,
            final(self).cursor_visible == old(self).cursor_visible,
            run_stream(
                cmds@,
                if old(self).resized(width, height) {
                    unknown_belief()
                } else {
                    old(self).belief
                },
                width,
            ) == Some(final(self).belief),
            run_knowledge(
                cmds@,
                if old(self).resized(width, height) {
                    stale_cells(width, height)
                } else {
                    old(self).prev@
                },
                if old(self).resized(width, height) {
                    unknown_belief()
                } else {
                    old(self).belief
                },
                width,
            ) == Some((final(self).prev@, final(self).belief)),
            !old(self).resized(width, height) ==> forall|x: int, y: int|
                0 <= x < width && 0 <= y < height && !touched(
                    current@,
                    old(self).details.entries@,
                    *assets,
                    x,
                    y,
                ) ==> #[trigger] cell_at(final(self).prev@, width, x, y) == cell_at(
                    old(self).prev@,
                    width,
                    x,
                    y,
                ),
            !old(self).resized(width, height) && distinct_ids(current@) ==> forall|x: int, y: int|
                0 <= x < width && 0 <= y < height && touched(
                    current@,
                    old(self).details.entries@,
                    *assets,
                    x,
                    y,
                ) ==> #[trigger] cell_at(final(self).prev@, width, x, y) == Some(
                    rendered_cell(current@, *assets, x, y),
                ),
            !old(self).resized(width, height) && unchanged_scene(
                current@,
                old(self).details.entries@,
            ) ==> cmds@ == Seq::<Command>::empty(),
            old(self).resized(width, height) ==> forall|x: int, y: int|
                0 <= x < width && 0 <= y < height && !scene_covers(current@, *assets, x, y)
                    ==> #[trigger] cell_at(final(self).prev@, width, x, y) is None,
            old(self).resized(width, height) && distinct_ids(current@) ==> forall|x: int, y: int|
                0 <= x < width && 0 <= y < height && scene_covers(current@, *assets, x, y)
                    ==> #[trigger] cell_at(final(self).prev@, width, x, y) == Some(
                    rendered_cell(current@, *assets, x, y),
                ),
            old(self).resized(width, height) ==> count_writes(cmds@) == n_covered_upto(
                current@,
                *assets,
                width,
                (width * height) as int,
            ),
            !old(self).resized(width, height) ==> count_writes(cmds@) <= n_touched_upto(
                current@,
                old(self).details.entries@,
                *assets,
                width,
                (width * height) as int,
            ),
    {
        let ghost det0 = self.details.entries@;
        let resized = width != self.width || height != self.height;
        let plan: RedrawPlan = if resized {
            self.width = width;
            self.height = height;
            self.prev = stale_grid(width, height);
            self.belief = Belief { cursor: None, fg: None, bg: None };
            let mut redraw: Vec<bool> = Vec::new();
            while redraw.len() < current.len()
                invariant
                    redraw@.len() <= current@.len(),
                    forall|k: int| 0 <= k < redraw@.len() ==> #[trigger] redraw@[k],
                decreases current@.len() - redraw@.len(),
            {
                redraw.push(true);
            }
            RedrawPlan { redraw, vacated: Vec::new() }
        } else {
            detect(current, &self.details)
        };
        let ghost prev_mid = self.prev@;
        let scratch = composite(current, &plan, assets, width, height);
        proof {
            if resized {
                assert forall|x: int, y: int| 0 <= x < width && 0 <= y < height implies
                    plan_touches(current@, plan.redraw@, plan.vacated@, *assets, x, y)
                        == scene_covers(current@, *assets, x, y) by {
                    if plan_touches(current@, plan.redraw@, plan.vacated@, *assets, x, y) {
                        if touch_redraw_upto(
                            current@,
                            plan.redraw@,
                            *assets,
                            x,
                            y,
                            current@.len() as int,
                        ) {
                            let i = choose|i: int|
                                0 <= i < current@.len() && plan.redraw@[i] && covers(
                                    #[trigger] current@[i],
                                    *assets,
                                    x,
                                    y,
                                );
                            assert(scene_covers(current@, *assets, x, y));
                        }
                    }
                    if scene_covers(current@, *assets, x, y) {
                        let i = choose|i: int|
                            0 <= i < current@.len() && covers(#[trigger] current@[i], *assets, x, y);
                        assert(plan.redraw@[i] && covers(current@[i], *assets, x, y));
                        assert(touch_redraw_upto(
                            current@,
                            plan.redraw@,
                            *assets,
                            x,
                            y,
                            current@.len() as int,
                        ));
                    }
                }
            } else {
                assert forall|x: int, y: int| 0 <= x < width && 0 <= y < height implies
                    plan_touches(current@, plan.redraw@, plan.vacated@, *assets, x, y) == touched(
                    current@,
                    det0,
                    *assets,
                    x,
                    y,
                ) by {
                    lemma_plan_touches_eq(
                        current@,
                        det0,
                        plan.redraw@,
                        plan.vacated@,
                        *assets,
                        x,
                        y,
                    );
                }
            }
        }
        let cmds = emit(&mut self.prev, &scratch, &mut self.belief, width, height);
        proof {
            assert forall|x: int, y: int| 0 <= x < width && 0 <= y < height implies
                #[trigger] cell_at(self.prev@, width, x, y) == committed(
                cell_at(scratch@, width, x, y),
                cell_at(prev_mid, width, x, y),
            ) by {
                lemma_cell_index_bound(width as int, height as int, x, y);
                assert(self.prev@[y * width + x] == committed(
                    scratch@[y * width + x],
                    prev_mid[y * width + x],
                ));
            }
            if resized {
                assert forall|x: int, y: int|
                    0 <= x < width && 0 <= y < height && !scene_covers(current@, *assets, x, y)
                        implies #[trigger] cell_at(self.prev@, width, x, y) is None by {
                    lemma_cell_index_bound(width as int, height as int, x, y);
                    assert(!plan_touches(current@, plan.redraw@, plan.vacated@, *assets, x, y));
                    assert(cell_at(scratch@, width, x, y) is None);
                    assert(prev_mid[y * width + x] is None);
                }
                assert forall|k: int| 0 <= k < width * height implies cell_changed(
                    scratch@[k],
                    #[trigger] prev_mid[k],
                ) == scene_covers(
                    current@,
                    *assets,
                    k % (width as int),
                    k / (width as int),
                ) by {
                    if width == 0 {
                        assert((width as int) * (height as int) == 0);
                    }
                    lemma_index_to_coords(width as int, height as int, k);
                    let x = k % (width as int);
                    let y = k / (width as int);
                    assert(cell_at(scratch@, width, x, y) == scratch@[k]);
                    assert(prev_mid[k] is None);
                    assert((cell_at(scratch@, width, x, y) is Some) == plan_touches(
                        current@,
                        plan.redraw@,
                        plan.vacated@,
                        *assets,
                        x,
                        y,
                    ));
                }
                lemma_counts_match(
                    scratch@,
                    prev_mid,
                    current@,
                    *assets,
                    width,
                    (width * height) as int,
                );
            }
            if !resized {
                assert forall|k: int|
                    0 <= k < width * height && cell_changed(scratch@[k], #[trigger] prev_mid[k])
                        implies touched(
                    current@,
                    det0,
                    *assets,
                    k % (width as int),
                    k / (width as int),
                ) by {
                    if width == 0 {
                        assert((width as int) * (height as int) == 0);
                    }
                    lemma_index_to_coords(width as int, height as int, k);
                    let x = k % (width as int);
                    let y = k / (width as int);
                    assert(cell_at(scratch@, width, x, y) == scratch@[k]);
                    assert((cell_at(scratch@, width, x, y) is Some) == plan_touches(
                        current@,
                        plan.redraw@,
                        plan.vacated@,
                        *assets,
                        x,
                        y,
                    ));
                }
                lemma_counts_bounded(
                    scratch@,
                    prev_mid,
                    current@,
                    det0,
                    *assets,
                    width,
                    (width * height) as int,
                );
            }
            if !resized && unchanged_scene(current@, det0) {
                assert(forall|i: int|
                    0 <= i < current@.len() ==> !needs_redraw(current@, det0, i));
                assert(forall|j: int| !vacates(current@, det0, j));
                if plan.vacated@.len() > 0 {
                    assert(from_vacated(current@, det0, plan.vacated@[0]));
                    assert(false);
                }
                assert forall|k: int| 0 <= k < width * height implies !cell_changed(
                    scratch@[k],
                    #[trigger] prev_mid[k],
                ) by {
                    if width > 0 {
                        lemma_index_to_coords(width as int, height as int, k);
                        let x = k % (width as int);
                        let y = k / (width as int);
                        assert(!plan_touches(current@, plan.redraw@, plan.vacated@, *assets, x, y));
                        assert(cell_at(scratch@, width, x, y) == scratch@[k]);
                    }
                }
                assert(cmds@ == Seq::<Command>::empty());
            }
        }
        let mut entries: Vec<EntityState> = Vec::new();
        let mut i: usize = 0;
        while i < current.len()
            invariant
                i <= current@.len(),
                entries@ == current@.take(i as int),
            decreases current@.len() - i,
        {
            let ghost before = entries@;
            entries.push(current[i]);
            proof {
                assert(entries@ =~= current@.take(i + 1));
            }
            i = i + 1;
        }
        proof {
            assert(entries@ =~= current@);
        }
        self.details = PreviousEntityDetails { entries };
        cmds
    }
}

} // verus!
