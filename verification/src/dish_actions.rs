//! Maneuvers of the dish, planned as the steps that carry them out.

use crate::angle::{div_toward_zero, Angle};
use crate::dish_driver::DishCommand;
use vstd::prelude::*;

verus! {

/// A sweep of the elevation from `start` to `end` degrees, both included, in
/// steps of `step` degrees.
#[derive(Clone, Copy, Debug, PartialEq, Eq, Structural)]
pub struct Sweep1DParams {
    pub start: i32,
    pub end: i32,
    pub step: i32,
}

/// A raster over azimuth and elevation, from `bottom_left` up to but without
/// `top_right`.
#[derive(Clone, Copy, Debug, PartialEq, Eq, Structural)]
pub struct Scan2DParams {
    pub bottom_left: DishPosition,
    pub top_right: DishPosition,
    pub step: Angle,
}

/// A direction in which the dish can point.
#[derive(Clone, Copy, Debug, PartialEq, Eq, Structural)]
pub struct DishPosition {
    pub azimuth: Angle,
    pub elevation: Angle,
}

/// A maneuver.
#[derive(Clone, Copy, Debug, PartialEq, Eq, Structural)]
pub enum DishAction {
    ElevationSweep(Sweep1DParams),
    Scan2d(Scan2DParams),
    MoveAngles(Angle, Angle),
}

/// Why a maneuver is refused before anything is sent.
#[derive(Clone, Copy, Debug, PartialEq, Eq, Structural)]
pub enum ActionError {
    /// The step is not at least one whole degree.
    StepNotPositive,
    /// The sweep starts above its end.
    EmptyRange,
}

/// One thing to do while a maneuver is carried out.
#[derive(Clone, Copy, Debug, PartialEq, Eq, Structural)]
pub enum Step {
    /// Put the command on the bus.
    Send(DishCommand),
    /// Let this many milliseconds pass.
    Sleep(u64),
    /// Move to the position and wait until the dish is there or the wait
    /// times out.
    MoveTo(DishPosition),
}

/// How far `from` lies below `to` (0 if it does not).
pub open spec fn distance(from: int, to: int) -> nat {
    if from < to {
        (to - from) as nat
    } else {
        0
    }
}

/// The positions `current`, `current + step`, ... up to and with `end`.
pub open spec fn sweep_positions(current: int, end: int, step: int) -> Seq<int>
    decreases distance(current, end + 1),
{
    if step <= 0 || current > end {
        Seq::empty()
    } else {
        seq![current] + sweep_positions(current + step, end, step)
    }
}

/// The cells of one row of a raster: the elevations `el`, `el + step`, ...
/// below `el_end`, at the azimuth `az`.
pub open spec fn row_cells(az: int, el: int, el_end: int, step: int) -> Seq<(int, int)>
    decreases distance(el, el_end),
{
    if step <= 0 || el >= el_end {
        Seq::empty()
    } else {
        seq![(az, el)] + row_cells(az, el + step, el_end, step)
    }
}

/// The cells of a raster in the order in which they are visited: for each
/// azimuth `az`, `az + step`, ... below `az_end`, the row of elevations from
/// `el_start` to below `el_end`.
pub open spec fn raster(az: int, az_end: int, el_start: int, el_end: int, step: int) -> Seq<
    (int, int),
>
    decreases distance(az, az_end),
{
    if step <= 0 || az >= az_end {
        Seq::empty()
    } else {
        row_cells(az, el_start, el_end, step) + raster(az + step, az_end, el_start, el_end, step)
    }
}

/// The position at whole degrees.
pub open spec fn at_degrees(cell: (int, int)) -> DishPosition {
    DishPosition {
        azimuth: Angle { millidegrees: (cell.0 * 1000) as i64 },
        elevation: Angle { millidegrees: (cell.1 * 1000) as i64 },
    }
}

impl Sweep1DParams {
    /// Whether the sweep is refused, and why.
    pub open spec fn refusal(&self) -> Option<ActionError> {
        if self.step <= 0 {
            Some(ActionError::StepNotPositive)
        } else if self.start > self.end {
            Some(ActionError::EmptyRange)
        } else {
            None
        }
    }

    /// The elevations of the sweep, in whole degrees and in order. A step
    /// that is not positive is refused, and so is a start above the end.
    pub fn positions(&self) -> (r: Result<Vec<i32>, ActionError>)
        ensures
            r matches Err(e) ==> self.refusal() == Some(e),
            r matches Ok(v) ==> self.refusal() is None && v@.map_values(|p: i32| p as int)
                == sweep_positions(self.start as int, self.end as int, self.step as int),
    {
        if self.step <= 0 {
            return Err(ActionError::StepNotPositive);
        }
        if self.start > self.end {
            return Err(ActionError::EmptyRange);
        }
        let ghost all = sweep_positions(self.start as int, self.end as int, self.step as int);
        let mut v: Vec<i32> = Vec::new();
        let mut current: i64 = self.start as i64;
        while current <= self.end as i64
            invariant
                self.step > 0,
                self.start <= current <= self.end + self.step,
                all == v@.map_values(|p: i32| p as int) + sweep_positions(
                    current as int,
                    self.end as int,
                    self.step as int,
                ),
            decreases distance(current as int, self.end + 1),
        {
            let ghost before = v@.map_values(|p: i32| p as int);
            v.push(current as i32);
            assert(v@.map_values(|p: i32| p as int) =~= before + seq![current as int]);
            current = current + self.step as i64;
        }
        assert(all =~= v@.map_values(|p: i32| p as int));
        Ok(v)
    }
}

impl Scan2DParams {
    /// The step in whole degrees.
    pub open spec fn whole_step(&self) -> int {
        div_toward_zero(self.step@, 1000)
    }

    /// The cells of the scan, in whole degrees and in the order of the
    /// visit: the corners and the step with their fractions dropped.
    pub open spec fn cells(&self) -> Seq<(int, int)> {
        raster(
            div_toward_zero(self.bottom_left.azimuth@, 1000),
            div_toward_zero(self.top_right.azimuth@, 1000),
            div_toward_zero(self.bottom_left.elevation@, 1000),
            div_toward_zero(self.top_right.elevation@, 1000),
            self.whole_step(),
        )
    }

    /// The positions of the cells of the scan, in the order of the visit. A
    /// step of less than one whole degree is refused.
    pub fn positions(&self) -> (r: Result<Vec<DishPosition>, ActionError>)
        ensures
            r is Err <==> self.whole_step() <= 0,
            r matches Err(e) ==> e == ActionError::StepNotPositive,
            r matches Ok(v) ==> v@ == self.cells().map_values(|c: (int, int)| at_degrees(c)),
    {
        let step: i64 = self.step.whole_degrees();
        if step <= 0 {
            return Err(ActionError::StepNotPositive);
        }
        let az_end: i64 = self.top_right.azimuth.whole_degrees();
        let el_start: i64 = self.bottom_left.elevation.whole_degrees();
        let el_end: i64 = self.top_right.elevation.whole_degrees();
        let ghost all = self.cells().map_values(|c: (int, int)| at_degrees(c));
        let mut v: Vec<DishPosition> = Vec::new();
        let mut az: i64 = self.bottom_left.azimuth.whole_degrees();
        proof {
            lemma_whole_degrees_small(self.step@);
            lemma_whole_degrees_small(self.top_right.azimuth@);
            lemma_whole_degrees_small(self.bottom_left.azimuth@);
            lemma_whole_degrees_small(self.top_right.elevation@);
            lemma_whole_degrees_small(self.bottom_left.elevation@);
        }
        while az < az_end
            invariant
                0 < step <= 9223372036854775,
                -9223372036854775 <= az <= 9223372036854775 * 2,
                -9223372036854775 <= az_end <= 9223372036854775,
                -9223372036854775 <= el_start <= 9223372036854775,
                -9223372036854775 <= el_end <= 9223372036854775,
                all == v@ + raster(
                    az as int,
                    az_end as int,
                    el_start as int,
                    el_end as int,
                    step as int,
                ).map_values(|c: (int, int)| at_degrees(c)),
            decreases distance(az as int, az_end as int),
        {
            let ghost rest = raster(
                az + step,
                az_end as int,
                el_start as int,
                el_end as int,
                step as int,
            ).map_values(|c: (int, int)| at_degrees(c));
            let ghost row = row_cells(az as int, el_start as int, el_end as int, step as int);
            assert(raster(
                az as int,
                az_end as int,
                el_start as int,
                el_end as int,
                step as int,
            ).map_values(|c: (int, int)| at_degrees(c)) =~= row.map_values(
                |c: (int, int)| at_degrees(c),
            ) + rest);
            let ghost before = v@;
            let mut el: i64 = el_start;
            while el < el_end
                invariant
                    0 < step <= 9223372036854775,
                    -9223372036854775 <= az < 9223372036854775,
                    -9223372036854775 <= el <= 9223372036854775 * 2,
                    -9223372036854775 <= el_end <= 9223372036854775,
                    before + row.map_values(|c: (int, int)| at_degrees(c)) == v@ + row_cells(
                        az as int,
                        el as int,
                        el_end as int,
                        step as int,
                    ).map_values(|c: (int, int)| at_degrees(c)),
                decreases distance(el as int, el_end as int),
            {
                let ghost tail = row_cells(az as int, el + step, el_end as int, step as int);
                assert(row_cells(az as int, el as int, el_end as int, step as int).map_values(
                    |c: (int, int)| at_degrees(c),
                ) =~= seq![at_degrees((az as int, el as int))] + tail.map_values(
                    |c: (int, int)| at_degrees(c),
                ));
                let ghost so_far = v@;
                v.push(
                    DishPosition {
                        azimuth: Angle { millidegrees: az * 1000 },
                        elevation: Angle { millidegrees: el * 1000 },
                    },
                );
                assert(v@ =~= so_far + seq![at_degrees((az as int, el as int))]);
                el = el + step;
            }
            assert(row_cells(az as int, el as int, el_end as int, step as int).map_values(
                |c: (int, int)| at_degrees(c),
            ) =~= Seq::<DishPosition>::empty());
            assert(v@ =~= before + row.map_values(|c: (int, int)| at_degrees(c)));
            az = az + step;
        }
        assert(raster(
            az as int,
            az_end as int,
            el_start as int,
            el_end as int,
            step as int,
        ).map_values(|c: (int, int)| at_degrees(c)) =~= Seq::<DishPosition>::empty());
        assert(all =~= v@);
        Ok(v)
    }
}

/// The whole degrees of an angle stay well within the range of its
/// thousandths.
pub proof fn lemma_whole_degrees_small(m: int)
    requires
        i64::MIN <= m <= i64::MAX,
    ensures
        -9223372036854775 <= div_toward_zero(m, 1000) <= 9223372036854775,
{
}

/// Plans maneuvers, with the times and tolerances that its plans and waits
/// go by.
#[derive(Clone, Copy, Debug, PartialEq, Eq, Structural)]
pub struct ActionManager {
    /// How close one axis must come to its target.
    pub axis_tolerance: Angle,
    /// How close both axes must come to a position.
    pub position_tolerance: Angle,
    /// Milliseconds after which the wait for a position gives up.
    pub position_timeout_ms: u64,
    /// Milliseconds between two looks at the store.
    pub poll_ms: u64,
    /// Milliseconds to let the dish settle after a command or a move.
    pub settle_ms: u64,
    /// Milliseconds that one signal-strength sample takes.
    pub sample_ms: u64,
    /// Seconds for which the dish is asked to watch the signal.
    pub watch_seconds: i32,
}

impl ActionManager {
    /// The settings in use: a tenth of a degree for one axis, two degrees
    /// for a position, 15 s until a wait gives up, 100 ms between polls and
    /// to settle, and one second for each sample.
    pub open spec fn defaults() -> ActionManager {
        ActionManager {
            axis_tolerance: Angle { millidegrees: 100 },
            position_tolerance: Angle { millidegrees: 2000 },
            position_timeout_ms: 15000,
            poll_ms: 100,
            settle_ms: 100,
            sample_ms: 1000,
            watch_seconds: 1,
        }
    }

    /// A manager with the settings `defaults`.
    pub fn new() -> (m: ActionManager)
        ensures
            m == ActionManager::defaults(),
    {
        ActionManager {
            axis_tolerance: Angle { millidegrees: 100 },
            position_tolerance: Angle { millidegrees: 2000 },
            position_timeout_ms: 15000,
            poll_ms: 100,
            settle_ms: 100,
            sample_ms: 1000,
            watch_seconds: 1,
        }
    }

    /// The steps of a sweep over `positions`: at each, set the elevation,
    /// let the dish settle, ask for a sample and wait for it. The sweep does
    /// not wait for the dish to arrive.
    pub open spec fn sweep_plan(&self, positions: Seq<int>) -> Seq<Step> {
        Seq::new(
            4 * positions.len(),
            |i: int|
                if i % 4 == 0 {
                    Step::Send(
                        DishCommand::SetElevationAngle(
                            Angle { millidegrees: (positions[i / 4] * 1000) as i64 },
                        ),
                    )
                } else if i % 4 == 1 {
                    Step::Sleep(self.settle_ms)
                } else if i % 4 == 2 {
                    Step::Send(DishCommand::RfWatch(self.watch_seconds))
                } else {
                    Step::Sleep(self.sample_ms)
                },
        )
    }

    /// The steps of a scan over `cells`: at each, move there, ask for a
    /// sample and wait for it; at the end, move to `park`.
    pub open spec fn scan_plan(&self, cells: Seq<DishPosition>, park: DishPosition) -> Seq<Step> {
        Seq::new(
            3 * cells.len(),
            |i: int|
                if i % 3 == 0 {
                    Step::MoveTo(cells[i / 3])
                } else if i % 3 == 1 {
                    Step::Send(DishCommand::RfWatch(self.watch_seconds))
                } else {
                    Step::Sleep(self.sample_ms)
                },
        ).push(Step::MoveTo(park))
    }

    /// The steps that carry out `action`, or why it is refused.
    pub open spec fn plan(&self, action: DishAction) -> Result<Seq<Step>, ActionError> {
        match action {
            DishAction::ElevationSweep(params) => match params.refusal() {
                Some(e) => Err(e),
                None => Ok(
                    self.sweep_plan(
                        sweep_positions(
                            params.start as int,
                            params.end as int,
                            params.step as int,
                        ),
                    ),
                ),
            },
            DishAction::Scan2d(params) => if params.whole_step() <= 0 {
                Err(ActionError::StepNotPositive)
            } else {
                Ok(
                    self.scan_plan(
                        params.cells().map_values(|c: (int, int)| at_degrees(c)),
                        params.bottom_left,
                    ),
                )
            },
            DishAction::MoveAngles(az, el) => Ok(
                seq![Step::MoveTo(DishPosition { azimuth: az, elevation: el })],
            ),
        }
    }

    /// The steps of a sweep over the given positions.
    fn render_sweep(&self, positions: &Vec<i32>) -> (v: Vec<Step>)
        ensures
            v@ == self.sweep_plan(positions@.map_values(|p: i32| p as int)),
    {
        let ghost all = positions@.map_values(|p: i32| p as int);
        let mut v: Vec<Step> = Vec::new();
        let mut k: usize = 0;
        while k < positions.len()
            invariant
                k <= positions.len(),
                all == positions@.map_values(|p: i32| p as int),
                v@ == self.sweep_plan(all.take(k as int)),
            decreases positions.len() - k,
        {
            let p: i32 = positions[k];
            v.push(
                Step::Send(
                    DishCommand::SetElevationAngle(Angle { millidegrees: (p as i64) * 1000 }),
                ),
            );
            v.push(Step::Sleep(self.settle_ms));
            v.push(Step::Send(DishCommand::RfWatch(self.watch_seconds)));
            v.push(Step::Sleep(self.sample_ms));
            assert(v@ =~= self.sweep_plan(all.take(k + 1)));
            k = k + 1;
        }
        assert(all.take(k as int) =~= all);
        v
    }

    /// The steps of a scan over the given cells.
    fn render_scan(&self, cells: &Vec<DishPosition>, park: DishPosition) -> (v: Vec<Step>)
        ensures
            v@ == self.scan_plan(cells@, park),
    {
        let mut v: Vec<Step> = Vec::new();
        let mut k: usize = 0;
        while k < cells.len()
            invariant
                k <= cells.len(),
                v@.push(Step::MoveTo(park)) == self.scan_plan(cells@.take(k as int), park),
            decreases cells.len() - k,
        {
            let ghost before = v@;
            v.push(Step::MoveTo(cells[k]));
            v.push(Step::Send(DishCommand::RfWatch(self.watch_seconds)));
            v.push(Step::Sleep(self.sample_ms));
            proof {
                let old_plan = self.scan_plan(cells@.take(k as int), park);
                let new_plan = self.scan_plan(cells@.take(k + 1), park);
                assert(before =~= old_plan.drop_last());
                assert(v@.push(Step::MoveTo(park)) =~= new_plan);
            }
            k = k + 1;
        }
        assert(cells@.take(k as int) =~= cells@);
        v.push(Step::MoveTo(park));
        v
    }

    /// Plans `action`: the steps to carry out in order, or the reason why
    /// the action is refused before anything is sent.
    pub fn render(&self, action: DishAction) -> (r: Result<Vec<Step>, ActionError>)
        ensures
            r matches Ok(v) ==> self.plan(action) == Ok::<Seq<Step>, ActionError>(v@),
            r matches Err(e) ==> self.plan(action) == Err::<Seq<Step>, ActionError>(e),
    {
        match action {
            DishAction::ElevationSweep(params) => match params.positions() {
                Ok(positions) => Ok(self.render_sweep(&positions)),
                Err(e) => Err(e),
            },
            DishAction::Scan2d(params) => match params.positions() {
                Ok(cells) => Ok(self.render_scan(&cells, params.bottom_left)),
                Err(e) => Err(e),
            },
            DishAction::MoveAngles(az, el) => {
                let mut v: Vec<Step> = Vec::new();
                v.push(Step::MoveTo(DishPosition { azimuth: az, elevation: el }));
                Ok(v)
            },
        }
    }
}

/// The maneuvers that a run begins with: one scan between the given
/// corners, in whole degrees, if a scan is asked for, and nothing otherwise.
pub fn startup_actions(
    scan: bool,
    az_start: i32,
    az_end: i32,
    el_start: i32,
    el_end: i32,
    step: Angle,
) -> (v: Vec<DishAction>)
    ensures
        scan ==> v@ == seq![
            DishAction::Scan2d(
                Scan2DParams {
                    bottom_left: at_degrees((az_start as int, el_start as int)),
                    top_right: at_degrees((az_end as int, el_end as int)),
                    step,
                },
            ),
        ],
        !scan ==> v@ == Seq::<DishAction>::empty(),
{
    let mut v: Vec<DishAction> = Vec::new();
    if scan {
        v.push(
            DishAction::Scan2d(
                Scan2DParams {
                    bottom_left: DishPosition {
                        azimuth: Angle::from_degrees(az_start),
                        elevation: Angle::from_degrees(el_start),
                    },
                    top_right: DishPosition {
                        azimuth: Angle::from_degrees(az_end),
                        elevation: Angle::from_degrees(el_end),
                    },
                    step,
                },
            ),
        );
    }
    v
}

} // verus!
