//! The cell compositor: rasterizes the redraw set plus all vacated cells
//! into a scratch buffer keyed by terminal coordinate, resolving overlap by
//! z-order (higher wins, ties to the earlier-created entity) against every
//! live entity, so nothing is left stale.

use vstd::prelude::*;

use crate::assets::AssetStore;
use crate::cells::{make_blank_cell, Cell};
use crate::detect::RedrawPlan;
use crate::scene::{
    covers, covers_exec, distinct_ids, is_winner_at, lemma_cell_index_bound, lemma_winner_renders,
    outranks, painted_cell_exec, rendered_cell, scene_covers, EntityState,
};

verus! {

/// The scratch entry a grid holds at a terminal coordinate.
pub open spec fn cell_at(g: Seq<Option<Cell>>, width: usize, x: int, y: int) -> Option<Cell> {
    g[y * width + x]
}

/// The mask entry a grid holds at a terminal coordinate.
pub open spec fn mask_at(m: Seq<bool>, width: usize, x: int, y: int) -> bool {
    m[y * width + x]
}

/// Some entity among the first `n` marked for redraw covers `(x, y)`.
pub open spec fn touch_redraw_upto(
    cur: Seq<EntityState>,
    redraw: Seq<bool>,
    assets: AssetStore,
    x: int,
    y: int,
    n: int,
) -> bool {
    exists|i: int| 0 <= i < n && redraw[i] && covers(#[trigger] cur[i], assets, x, y)
}

/// Some of the first `n` vacated old states covers `(x, y)`.
pub open spec fn touch_vacated_upto(
    vacated: Seq<EntityState>,
    assets: AssetStore,
    x: int,
    y: int,
    n: int,
) -> bool {
    exists|k: int| 0 <= k < n && covers(#[trigger] vacated[k], assets, x, y)
}

/// A coordinate the plan makes this tick recompute.
pub open spec fn plan_touches(
    cur: Seq<EntityState>,
    redraw: Seq<bool>,
    vacated: Seq<EntityState>,
    assets: AssetStore,
    x: int,
    y: int,
) -> bool {
    ||| touch_redraw_upto(cur, redraw, assets, x, y, cur.len() as int)
    ||| touch_vacated_upto(vacated, assets, x, y, vacated.len() as int)
}

/// Distinct coordinates have distinct row-major indices.
pub proof fn lemma_rowmajor_injective(width: int, x1: int, y1: int, x2: int, y2: int)
    requires
        0 <= x1 < width,
        0 <= x2 < width,
        0 <= y1,
        0 <= y2,
        y1 * width + x1 == y2 * width + x2,
    ensures
        x1 == x2,
        y1 == y2,
{
    assert((y1 - y2) * width == x2 - x1) by (nonlinear_arith)
        requires
            y1 * width + x1 == y2 * width + x2,
    ;
    if y1 != y2 {
        if y1 > y2 {
            assert((y1 - y2) * width >= width) by (nonlinear_arith)
                requires
                    y1 - y2 >= 1,
                    width >= 0,
            ;
        } else {
            assert((y1 - y2) * width <= -width) by (nonlinear_arith)
                requires
                    y1 - y2 <= -1,
                    width >= 0,
            ;
        }
    }
}

/// Marks every in-bounds coordinate entity `e` covers.
fn mark_entity(mask: &mut Vec<bool>, e: &EntityState, assets: &AssetStore, width: usize, height: usize)
    requires
        assets.wf(),
        old(mask)@.len() == width * height,
    ensures
        final(mask)@.len() == width * height,
        forall|x: int, y: int|
            0 <= x < width && 0 <= y < height ==> #[trigger] mask_at(final(mask)@, width, x, y) == (
            mask_at(old(mask)@, width, x, y) || covers(*e, *assets, x, y)),
{
    if e.sprite >= assets.sprites.len() || e.style >= assets.styles.len() {
        return ;
    }
    if e.x >= width || e.y >= height {
        return ;
    }
    let sp = &assets.sprites[e.sprite];
    let row_max: usize = if sp.height < height - e.y {
        sp.height
    } else {
        height - e.y
    };
    let col_max: usize = if sp.width < width - e.x {
        sp.width
    } else {
        width - e.x
    };
    let n = sp.cells.len();
    let ghost mask0 = old(mask)@;
    let mut dy: usize = 0;
    while dy < row_max
        invariant
            assets.wf(),
            e.sprite < assets.sprites@.len(),
            e.style < assets.styles@.len(),
            sp == assets.sprites@[e.sprite as int],
            sp.wf(),
            n == sp.cells@.len(),
            e.x < width,
            e.y < height,
            row_max <= sp.height,
            row_max <= height - e.y,
            col_max <= sp.width,
            col_max <= width - e.x,
            sp.height <= row_max || height - e.y <= row_max,
            sp.width <= col_max || width - e.x <= col_max,
            dy <= row_max,
            mask@.len() == width * height,
            forall|x: int, y: int|
                0 <= x < width && 0 <= y < height ==> #[trigger] mask_at(mask@, width, x, y) == (
                mask_at(mask0, width, x, y) || (covers(*e, *assets, x, y) && y - e.y < dy)),
        decreases row_max - dy,
    {
        let ty = e.y + dy;
        let mut dx: usize = 0;
        while dx < col_max
            invariant
                assets.wf(),
                e.sprite < assets.sprites@.len(),
            e.style < assets.styles@.len(),
                sp == assets.sprites@[e.sprite as int],
                sp.wf(),
                n == sp.cells@.len(),
                e.x < width,
                e.y < height,
                row_max <= sp.height,
                row_max <= height - e.y,
                col_max <= sp.width,
                col_max <= width - e.x,
                sp.width <= col_max || width - e.x <= col_max,
                dy < row_max,
                ty == e.y + dy,
                dx <= col_max,
                mask@.len() == width * height,
                forall|x: int, y: int|
                    0 <= x < width && 0 <= y < height ==> #[trigger] mask_at(mask@, width, x, y)
                        == (mask_at(mask0, width, x, y) || (covers(*e, *assets, x, y) && (y - e.y
                        < dy || (y - e.y == dy && x - e.x < dx)))),
            decreases col_max - dx,
        {
            let tx = e.x + dx;
            let nm = mask.len();
            proof {
                lemma_cell_index_bound(sp.width as int, sp.height as int, dx as int, dy as int);
                assert(n <= usize::MAX);
                lemma_cell_index_bound(width as int, height as int, tx as int, ty as int);
                assert(nm <= usize::MAX);
            }
            let ghost before = mask@;
            if sp.cells[dy * sp.width + dx].is_some() {
                mask[ty * width + tx] = true;
            }
            proof {
                assert forall|x: int, y: int| 0 <= x < width && 0 <= y < height implies
                    #[trigger] mask_at(mask@, width, x, y) == (mask_at(mask0, width, x, y) || (
                    covers(*e, *assets, x, y) && (y - e.y < dy || (y - e.y == dy && x - e.x < dx
                        + 1)))) by {
                    if x == tx && y == ty {
                        assert(covers(*e, *assets, x, y) == sp.glyph_at(dx as int, dy as int)
                             is Some);
                    } else {
                        if y * width + x == ty * width + tx {
                            lemma_rowmajor_injective(width as int, x, y, tx as int, ty as int);
                        }
                        lemma_cell_index_bound(width as int, height as int, x, y);
                        assert(mask_at(mask@, width, x, y) == mask_at(before, width, x, y));
                    }
                }
            }
            dx = dx + 1;
        }
        proof {
            assert forall|x: int, y: int|
                0 <= x < width && 0 <= y < height && covers(*e, *assets, x, y) && y - e.y
                    == dy implies x - e.x < col_max by {
                assert(sp.glyph_at(x - e.x, y - e.y) is Some);
            }
        }
        dy = dy + 1;
    }
    proof {
        assert forall|x: int, y: int|
            0 <= x < width && 0 <= y < height && covers(*e, *assets, x, y) implies y - e.y
                < row_max by {
            assert(sp.glyph_at(x - e.x, y - e.y) is Some);
        }
    }
}

/// The winning entity at `(x, y)`: covers it and outranks every other
/// covering entity. `None` when nothing covers the coordinate.
fn winner_at(current: &Vec<EntityState>, assets: &AssetStore, x: usize, y: usize) -> (r: Option<
    usize,
>)
    requires
        assets.wf(),
    ensures
        match r {
            Some(i) => i < current@.len() && covers(current@[i as int], *assets, x as int, y as int)
                && (distinct_ids(current@) ==> is_winner_at(
                current@,
                *assets,
                i as int,
                x as int,
                y as int,
            )),
            None => !scene_covers(current@, *assets, x as int, y as int),
        },
{
    let mut best: Option<usize> = None;
    let mut j: usize = 0;
    while j < current.len()
        invariant
            assets.wf(),
            j <= current@.len(),
            match best {
                Some(b) => b < j && covers(current@[b as int], *assets, x as int, y as int) && (
                distinct_ids(current@) ==> forall|j2: int|
                    0 <= j2 < j && j2 != b && covers(#[trigger] current@[j2], *assets, x as int, y as int)
                        ==> outranks(current@[b as int], current@[j2])),
                None => forall|j2: int|
                    0 <= j2 < j ==> !covers(#[trigger] current@[j2], *assets, x as int, y as int),
            },
        decreases current@.len() - j,
    {
        if covers_exec(&current[j], assets, x, y) {
            match best {
                None => {
                    best = Some(j);
                },
                Some(b) => {
                    let ej = &current[j];
                    let eb = &current[b];
                    if ej.z > eb.z || (ej.z == eb.z && ej.id < eb.id) {
                        best = Some(j);
                    }
                },
            }
        }
        j = j + 1;
    }
    best
}

/// Rasterizes the plan: every touched in-bounds coordinate gets the cell a
/// fresh full render of the current scene shows there (the winning entity's
/// glyph and style, or the blank cell); untouched coordinates stay empty.
pub fn composite(
    current: &Vec<EntityState>,
    plan: &RedrawPlan,
    assets: &AssetStore,
    width: usize,
    height: usize,
) -> (scratch: Vec<Option<Cell>>)
    requires
        assets.wf(),
        plan.redraw@.len() == current@.len(),
        (width as int) * (height as int) <= usize::MAX as int,
    ensures
        scratch@.len() == width * height,
        forall|x: int, y: int|
            0 <= x < width && 0 <= y < height ==> ((#[trigger] cell_at(scratch@, width, x, y))
                 is Some == plan_touches(current@, plan.redraw@, plan.vacated@, *assets, x, y)),
        distinct_ids(current@) ==> forall|x: int, y: int|
            0 <= x < width && 0 <= y < height && plan_touches(
                current@,
                plan.redraw@,
                plan.vacated@,
                *assets,
                x,
                y,
            ) ==> #[trigger] cell_at(scratch@, width, x, y) == Some(
                rendered_cell(current@, *assets, x, y),
            ),
{
    let total = width * height;
    let mut mask: Vec<bool> = Vec::new();
    while mask.len() < total
        invariant
            total == width * height,
            mask@.len() <= total,
            forall|k: int| 0 <= k < mask@.len() ==> !(#[trigger] mask@[k]),
        decreases total - mask@.len(),
    {
        mask.push(false);
    }
    proof {
        assert forall|x2: int, y2: int| 0 <= x2 < width && 0 <= y2 < height implies !(
        #[trigger] mask_at(mask@, width, x2, y2)) by {
            lemma_cell_index_bound(width as int, height as int, x2, y2);
        }
    }
    let mut i: usize = 0;
    while i < current.len()
        invariant
            assets.wf(),
            plan.redraw@.len() == current@.len(),
            i <= current@.len(),
            mask@.len() == width * height,
            forall|x: int, y: int|
                0 <= x < width && 0 <= y < height ==> #[trigger] mask_at(mask@, width, x, y)
                    == touch_redraw_upto(current@, plan.redraw@, *assets, x, y, i as int),
        decreases current@.len() - i,
    {
        if plan.redraw[i] {
            mark_entity(&mut mask, &current[i], assets, width, height);
        }
        proof {
            assert forall|x: int, y: int| 0 <= x < width && 0 <= y < height implies
                #[trigger] mask_at(mask@, width, x, y) == touch_redraw_upto(
                current@,
                plan.redraw@,
                *assets,
                x,
                y,
                i + 1,
            ) by {
                if mask_at(mask@, width, x, y) {
                } else {
                    assert(!touch_redraw_upto(current@, plan.redraw@, *assets, x, y, i as int));
                }
            }
        }
        i = i + 1;
    }
    let mut k: usize = 0;
    while k < plan.vacated.len()
        invariant
            assets.wf(),
            k <= plan.vacated@.len(),
            mask@.len() == width * height,
            forall|x: int, y: int|
                0 <= x < width && 0 <= y < height ==> #[trigger] mask_at(mask@, width, x, y) == (
                touch_redraw_upto(
                    current@,
                    plan.redraw@,
                    *assets,
                    x,
                    y,
                    current@.len() as int,
                ) || touch_vacated_upto(plan.vacated@, *assets, x, y, k as int)),
        decreases plan.vacated@.len() - k,
    {
        mark_entity(&mut mask, &plan.vacated[k], assets, width, height);
        proof {
            assert forall|x: int, y: int| 0 <= x < width && 0 <= y < height implies
                (touch_vacated_upto(plan.vacated@, *assets, x, y, k as int) || covers(
                plan.vacated@[k as int],
                *assets,
                x,
                y,
            )) == touch_vacated_upto(plan.vacated@, *assets, x, y, k + 1) by {
                if !touch_vacated_upto(plan.vacated@, *assets, x, y, k + 1) {
                    assert(!covers(plan.vacated@[k as int], *assets, x, y));
                }
            }
        }
        k = k + 1;
    }
    let mut out: Vec<Option<Cell>> = Vec::new();
    let mut y: usize = 0;
    while y < height
        invariant
            assets.wf(),
            plan.redraw@.len() == current@.len(),
            mask@.len() == width * height,
            (width as int) * (height as int) <= usize::MAX as int,
            forall|x2: int, y2: int|
                0 <= x2 < width && 0 <= y2 < height ==> #[trigger] mask_at(mask@, width, x2, y2)
                    == plan_touches(current@, plan.redraw@, plan.vacated@, *assets, x2, y2),
            y <= height,
            out@.len() == y * width,
            forall|x2: int, y2: int|
                0 <= x2 < width && 0 <= y2 < y ==> cell_entry_ok(
                    current@,
                    plan.redraw@,
                    plan.vacated@,
                    *assets,
                    out@,
                    width,
                    x2,
                    y2,
                ),
        decreases height - y,
    {
        let mut x: usize = 0;
        proof {
            lemma_rowstart_bound(width as int, height as int, y as int);
        }
        while x < width
            invariant
                assets.wf(),
                plan.redraw@.len() == current@.len(),
                mask@.len() == width * height,
                (width as int) * (height as int) <= usize::MAX as int,
                forall|x2: int, y2: int|
                    0 <= x2 < width && 0 <= y2 < height ==> #[trigger] mask_at(mask@, width, x2, y2)
                        == plan_touches(current@, plan.redraw@, plan.vacated@, *assets, x2, y2),
                y < height,
                x <= width,
                out@.len() == y * width + x,
                forall|x2: int, y2: int|
                    0 <= x2 < width && (0 <= y2 < y || (y2 == y && 0 <= x2 < x)) ==> cell_entry_ok(
                        current@,
                        plan.redraw@,
                        plan.vacated@,
                        *assets,
                        out@,
                        width,
                        x2,
                        y2,
                    ),
            decreases width - x,
        {
            proof {
                lemma_cell_index_bound(width as int, height as int, x as int, y as int);
            }
            let idx = y * width + x;
            let ghost out0 = out@;
            proof {
                assert(mask_at(mask@, width, x as int, y as int) == mask@[idx as int]);
            }
            if mask[idx] {
                let cell = match winner_at(current, assets, x, y) {
                    Some(i) => {
                        proof {
                            if distinct_ids(current@) {
                                lemma_winner_renders(
                                    current@,
                                    *assets,
                                    i as int,
                                    x as int,
                                    y as int,
                                );
                            }
                        }
                        painted_cell_exec(&current[i], assets, x, y)
                    },
                    None => {
                        proof {
                            assert(!(exists|w: int|
                                is_winner_at(current@, *assets, w, x as int, y as int)));
                        }
                        make_blank_cell()
                    },
                };
                out.push(Some(cell));
            } else {
                out.push(None);
            }
            proof {
                assert forall|x2: int, y2: int|
                    0 <= x2 < width && (0 <= y2 < y || (y2 == y && 0 <= x2 < x + 1)) implies
                    cell_entry_ok(
                    current@,
                    plan.redraw@,
                    plan.vacated@,
                    *assets,
                    out@,
                    width,
                    x2,
                    y2,
                ) by {
                    if y2 == y && x2 == x {
                        assert(cell_at(out@, width, x2, y2) == out@[idx as int]);
                    } else {
                        if y2 < y {
                            lemma_cell_index_bound(width as int, y as int, x2, y2);
                        }
                        assert(y2 * width + x2 < out0.len());
                        assert(cell_at(out@, width, x2, y2) == cell_at(out0, width, x2, y2));
                        assert(cell_entry_ok(
                            current@,
                            plan.redraw@,
                            plan.vacated@,
                            *assets,
                            out0,
                            width,
                            x2,
                            y2,
                        ));
                    }
                }
            }
            x = x + 1;
        }
        proof {
            assert(y * width + width == (y + 1) * width) by (nonlinear_arith);
        }
        y = y + 1;
    }
    proof {
        assert(height * width == width * height) by (nonlinear_arith);
        assert forall|x2: int, y2: int| 0 <= x2 < width && 0 <= y2 < height implies ((
        #[trigger] cell_at(out@, width, x2, y2)) is Some == plan_touches(
            current@,
            plan.redraw@,
            plan.vacated@,
            *assets,
            x2,
            y2,
        )) by {
            assert(cell_entry_ok(current@, plan.redraw@, plan.vacated@, *assets, out@, width, x2, y2));
        }
        assert forall|x2: int, y2: int|
            0 <= x2 < width && 0 <= y2 < height && distinct_ids(current@) && plan_touches(
                current@,
                plan.redraw@,
                plan.vacated@,
                *assets,
                x2,
                y2,
            ) implies #[trigger] cell_at(out@, width, x2, y2) == Some(
            rendered_cell(current@, *assets, x2, y2),
        ) by {
            assert(cell_entry_ok(current@, plan.redraw@, plan.vacated@, *assets, out@, width, x2, y2));
        }
    }
    out
}

/// One scratch entry is as the compositor promises: present exactly when the
/// plan touches the coordinate, and holding the fresh full render there when
/// identifiers are distinct.
pub open spec fn cell_entry_ok(
    cur: Seq<EntityState>,
    redraw: Seq<bool>,
    vacated: Seq<EntityState>,
    assets: AssetStore,
    g: Seq<Option<Cell>>,
    width: usize,
    x: int,
    y: int,
) -> bool {
    &&& (cell_at(g, width, x, y) is Some == plan_touches(cur, redraw, vacated, assets, x, y))
    &&& (distinct_ids(cur) && plan_touches(cur, redraw, vacated, assets, x, y) ==> cell_at(
        g,
        width,
        x,
        y,
    ) == Some(rendered_cell(cur, assets, x, y)))
}

/// A full row's start index stays within the grid.
pub proof fn lemma_rowstart_bound(width: int, height: int, y: int)
    requires
        0 <= y < height,
        0 <= width,
    ensures
        y * width <= width * height - width,
        0 <= y * width,
{
    assert(y * width <= (height - 1) * width) by (nonlinear_arith)
        requires
            y <= height - 1,
            width >= 0,
    ;
    assert((height - 1) * width == width * height - width) by (nonlinear_arith);
    assert(y * width >= 0) by (nonlinear_arith)
        requires
            y >= 0,
            width >= 0,
    ;
}

} // verus!
