//! What the positions of a sweep and the cells of a raster are, said without
//! the loops that list them.

use crate::dish_actions::{distance, raster, row_cells, sweep_positions};
use vstd::prelude::*;

verus! {

/// The positions of a sweep are `start`, `start + step`, `start + 2 step`
/// and so on: the last of them is the last that does not pass `end`.
pub proof fn law_sweep_positions(start: int, end: int, step: int)
    requires
        step > 0,
        start <= end,
    ensures
        sweep_positions(start, end, step).len() >= 1,
        forall|k: int|
            0 <= k < sweep_positions(start, end, step).len() ==> #[trigger] sweep_positions(
                start,
                end,
                step,
            )[k] == start + k * step,
        start + (sweep_positions(start, end, step).len() - 1) * step <= end,
        end < start + sweep_positions(start, end, step).len() * step,
    decreases distance(start, end + 1),
{
    let all = sweep_positions(start, end, step);
    let rest = sweep_positions(start + step, end, step);
    assert(all =~= seq![start] + rest);
    if start + step <= end {
        law_sweep_positions(start + step, end, step);
        assert forall|k: int| 0 <= k < all.len() implies #[trigger] all[k] == start + k * step by {
            if k > 0 {
                assert(all[k] == rest[k - 1]);
                assert(start + step + (k - 1) * step == start + k * step) by (nonlinear_arith);
            }
        }
        assert(start + step + (rest.len() - 1) * step == start + (all.len() - 1) * step)
            by (nonlinear_arith)
            requires
                all.len() == rest.len() + 1,
        ;
        assert(start + step + rest.len() * step == start + all.len() * step)
            by (nonlinear_arith)
            requires
                all.len() == rest.len() + 1,
        ;
    } else {
        assert(rest =~= Seq::<int>::empty());
        assert(all.len() * step == step) by (nonlinear_arith)
            requires
                all.len() == 1,
        ;
    }
}

/// The cells of a row lie at the azimuth of the row, at the elevations
/// `el`, `el + step`, `el + 2 step` and so on, as long as these are below
/// `el_end`.
pub proof fn law_row_cells(az: int, el: int, el_end: int, step: int)
    requires
        step > 0,
    ensures
        forall|k: int|
            0 <= k < row_cells(az, el, el_end, step).len() ==> #[trigger] row_cells(
                az,
                el,
                el_end,
                step,
            )[k] == (az, el + k * step),
        el >= el_end ==> row_cells(az, el, el_end, step).len() == 0,
        el < el_end ==> el + (row_cells(az, el, el_end, step).len() - 1) * step < el_end <= el
            + row_cells(az, el, el_end, step).len() * step,
    decreases distance(el, el_end),
{
    if el < el_end {
        let all = row_cells(az, el, el_end, step);
        let rest = row_cells(az, el + step, el_end, step);
        assert(all =~= seq![(az, el)] + rest);
        law_row_cells(az, el + step, el_end, step);
        assert forall|k: int| 0 <= k < all.len() implies #[trigger] all[k] == (
            az,
            el + k * step,
        ) by {
            if k > 0 {
                assert(all[k] == rest[k - 1]);
                assert(el + step + (k - 1) * step == el + k * step) by (nonlinear_arith);
            }
        }
        assert(el + step + (rest.len() - 1) * step == el + (all.len() - 1) * step)
            by (nonlinear_arith)
            requires
                all.len() == rest.len() + 1,
        ;
        assert(el + step + rest.len() * step == el + all.len() * step) by (nonlinear_arith)
            requires
                all.len() == rest.len() + 1,
        ;
    }
}

/// Whether `x` is `from` plus a whole number of steps, and below `to`.
pub open spec fn on_grid(x: int, from: int, to: int, step: int) -> bool {
    from <= x < to && (x - from) % step == 0
}

/// Whether cell `a` is visited before cell `b`: azimuth counts first.
pub open spec fn visited_before(a: (int, int), b: (int, int)) -> bool {
    a.0 < b.0 || (a.0 == b.0 && a.1 < b.1)
}

/// A point lies on a grid if it is the first point of the grid or lies on
/// the grid that begins one step further.
proof fn lemma_grid_step(x: int, from: int, to: int, step: int)
    requires
        step > 0,
    ensures
        on_grid(x, from, to, step) <==> (x == from && from < to) || on_grid(
            x,
            from + step,
            to,
            step,
        ),
{
    if x >= from + step {
        assert((x - from) % step == (x - from - step) % step) by (nonlinear_arith)
            requires
                step > 0,
        ;
    }
    if from < x < from + step {
        assert((x - from) % step == x - from) by (nonlinear_arith)
            requires
                0 < x - from < step,
        ;
    }
}

/// A row holds exactly the cells at its azimuth whose elevation lies on the
/// grid.
proof fn lemma_row_members(az: int, el: int, el_end: int, step: int, cell: (int, int))
    requires
        step > 0,
    ensures
        row_cells(az, el, el_end, step).contains(cell) <==> cell.0 == az && on_grid(
            cell.1,
            el,
            el_end,
            step,
        ),
    decreases distance(el, el_end),
{
    let all = row_cells(az, el, el_end, step);
    lemma_grid_step(cell.1, el, el_end, step);
    if el < el_end {
        let rest = row_cells(az, el + step, el_end, step);
        assert(all =~= seq![(az, el)] + rest);
        lemma_row_members(az, el + step, el_end, step, cell);
        if all.contains(cell) {
            let k = choose|k: int| 0 <= k < all.len() && all[k] == cell;
            if k > 0 {
                assert(rest[k - 1] == cell);
            }
        }
        if cell == (az, el) {
            assert(all[0] == cell);
        }
        if rest.contains(cell) {
            let k = choose|k: int| 0 <= k < rest.len() && rest[k] == cell;
            assert(all[k + 1] == cell);
        }
    }
}

/// A raster visits exactly the cells whose azimuth and elevation lie on the
/// grid of the step, from the lower corner up to but without the upper one.
pub proof fn law_raster_members(
    az: int,
    az_end: int,
    el_start: int,
    el_end: int,
    step: int,
    cell: (int, int),
)
    requires
        step > 0,
    ensures
        raster(az, az_end, el_start, el_end, step).contains(cell) <==> on_grid(
            cell.0,
            az,
            az_end,
            step,
        ) && on_grid(cell.1, el_start, el_end, step),
    decreases distance(az, az_end),
{
    let all = raster(az, az_end, el_start, el_end, step);
    lemma_grid_step(cell.0, az, az_end, step);
    if az < az_end {
        let row = row_cells(az, el_start, el_end, step);
        let rest = raster(az + step, az_end, el_start, el_end, step);
        assert(all =~= row + rest);
        lemma_row_members(az, el_start, el_end, step, cell);
        law_raster_members(az + step, az_end, el_start, el_end, step, cell);
        if all.contains(cell) {
            let k = choose|k: int| 0 <= k < all.len() && all[k] == cell;
            if k < row.len() {
                assert(row[k] == cell);
            } else {
                assert(rest[k - row.len()] == cell);
            }
        }
        if row.contains(cell) {
            let k = choose|k: int| 0 <= k < row.len() && row[k] == cell;
            assert(all[k] == cell);
        }
        if rest.contains(cell) {
            let k = choose|k: int| 0 <= k < rest.len() && rest[k] == cell;
            assert(all[row.len() + k] == cell);
        }
    }
}

/// A raster visits its cells in order: row after row by rising azimuth, and
/// within a row by rising elevation. No cell is visited twice.
pub proof fn law_raster_order(az: int, az_end: int, el_start: int, el_end: int, step: int)
    requires
        step > 0,
    ensures
        forall|i: int, j: int|
            0 <= i < j < raster(az, az_end, el_start, el_end, step).len() ==> visited_before(
                #[trigger] raster(az, az_end, el_start, el_end, step)[i],
                #[trigger] raster(az, az_end, el_start, el_end, step)[j],
            ),
    decreases distance(az, az_end),
{
    let all = raster(az, az_end, el_start, el_end, step);
    if az < az_end {
        let row = row_cells(az, el_start, el_end, step);
        let rest = raster(az + step, az_end, el_start, el_end, step);
        assert(all =~= row + rest);
        law_row_cells(az, el_start, el_end, step);
        law_raster_order(az + step, az_end, el_start, el_end, step);
        assert forall|i: int, j: int| 0 <= i < j < all.len() implies visited_before(
            #[trigger] all[i],
            #[trigger] all[j],
        ) by {
            if j < row.len() {
                assert(all[i] == row[i] && all[j] == row[j]);
                assert(i * step < j * step) by (nonlinear_arith)
                    requires
                        i < j,
                        step > 0,
                ;
            } else if i < row.len() {
                assert(all[i] == row[i]);
                let cell = rest[j - row.len()];
                assert(all[j] == cell);
                assert(rest.contains(cell));
                law_raster_members(az + step, az_end, el_start, el_end, step, cell);
            } else {
                assert(all[i] == rest[i - row.len()] && all[j] == rest[j - row.len()]);
            }
        }
    }
}

} // verus!
