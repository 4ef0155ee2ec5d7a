//! Waiting for the dish to arrive: the decisions of the polling loops, one
//! look at the store at a time.

use crate::angle::Angle;
use crate::dish_actions::{ActionManager, DishPosition, Step};
use crate::dish_controller::DishState;
use crate::dish_driver::DishCommand;
use vstd::prelude::*;

verus! {

/// A wait for the dish to come within a tolerance of a target.
#[derive(Clone, Copy, Debug, PartialEq, Eq, Structural)]
#[allow(inconsistent_fields)]
pub enum Wait {
    /// For the azimuth alone, for as long as it takes.
    Azimuth { target: Angle, tolerance: Angle, poll_ms: u64 },
    /// For the elevation alone, for as long as it takes.
    Elevation { target: Angle, tolerance: Angle, poll_ms: u64 },
    /// For both axes, until `timeout_ms` have passed.
    Position {
        target: DishPosition,
        tolerance: Angle,
        poll_ms: u64,
        timeout_ms: u64,
        settle_ms: u64,
    },
}

/// What one look at the store decides.
#[derive(Clone, Copy, Debug, PartialEq, Eq, Structural)]
pub enum Poll {
    /// Not there yet: sleep this many milliseconds and look again.
    Pending(u64),
    /// The dish is within the tolerance: sleep this many milliseconds, and
    /// the wait is over.
    Reached(u64),
    /// The time is up: send the commands of the wait once more, sleep this
    /// many milliseconds, and the wait is over.
    TimedOut(u64),
}

/// The store as one look finds it, and the milliseconds since the wait began.
#[derive(Clone, Copy, Debug, PartialEq, Eq, Structural)]
pub struct Observation {
    pub state: DishState,
    pub elapsed_ms: u64,
}

impl Wait {
    /// The commands that set the target: sent when the wait begins, and
    /// once more when it times out.
    pub open spec fn commands(&self) -> Seq<DishCommand> {
        match self {
            Wait::Azimuth { target, .. } => seq![DishCommand::SetAzimuthAngle(*target)],
            Wait::Elevation { target, .. } => seq![DishCommand::SetElevationAngle(*target)],
            Wait::Position { target, .. } => seq![
                DishCommand::SetAzimuthAngle(target.azimuth),
                DishCommand::SetElevationAngle(target.elevation),
            ],
        }
    }

    /// Whether the store shows the dish within the tolerance of the target.
    pub open spec fn has_converged(&self, state: DishState) -> bool {
        match self {
            Wait::Azimuth { target, tolerance, .. } => state.azimuth_angle.is_within(
                *target,
                *tolerance,
            ),
            Wait::Elevation { target, tolerance, .. } => state.elevation_angle.is_within(
                *target,
                *tolerance,
            ),
            Wait::Position { target, tolerance, .. } => state.azimuth_angle.is_within(
                target.azimuth,
                *tolerance,
            ) && state.elevation_angle.is_within(target.elevation, *tolerance),
        }
    }

    /// Whether the wait gives up once `elapsed_ms` have passed.
    pub open spec fn has_expired(&self, elapsed_ms: u64) -> bool {
        match self {
            Wait::Position { timeout_ms, .. } => elapsed_ms >= *timeout_ms,
            _ => false,
        }
    }

    /// Milliseconds between two looks at the store.
    pub open spec fn interval(&self) -> u64 {
        match self {
            Wait::Azimuth { poll_ms, .. } => *poll_ms,
            Wait::Elevation { poll_ms, .. } => *poll_ms,
            Wait::Position { poll_ms, .. } => *poll_ms,
        }
    }

    /// Milliseconds to sleep when the wait is over.
    pub open spec fn settle(&self) -> u64 {
        match self {
            Wait::Position { settle_ms, .. } => *settle_ms,
            _ => 0,
        }
    }

    /// What one look decides: arrival counts before the clock does.
    pub open spec fn decide(&self, seen: Observation) -> Poll {
        if self.has_converged(seen.state) {
            Poll::Reached(self.settle())
        } else if self.has_expired(seen.elapsed_ms) {
            Poll::TimedOut(self.settle())
        } else {
            Poll::Pending(self.interval())
        }
    }

    /// The commands to send when the wait begins: `commands`.
    pub fn start(&self) -> (v: Vec<DishCommand>)
        ensures
            v@ == self.commands(),
    {
        let mut v: Vec<DishCommand> = Vec::new();
        match self {
            Wait::Azimuth { target, .. } => {
                v.push(DishCommand::SetAzimuthAngle(*target));
            },
            Wait::Elevation { target, .. } => {
                v.push(DishCommand::SetElevationAngle(*target));
            },
            Wait::Position { target, .. } => {
                v.push(DishCommand::SetAzimuthAngle(target.azimuth));
                v.push(DishCommand::SetElevationAngle(target.elevation));
            },
        }
        v
    }

    /// Looks at the store once: `decide`.
    pub fn poll(&self, state: &DishState, elapsed_ms: u64) -> (p: Poll)
        ensures
            p == self.decide(Observation { state: *state, elapsed_ms }),
            p is Reached <==> self.has_converged(*state),
    {
        match self {
            Wait::Azimuth { target, tolerance, poll_ms } => {
                if state.azimuth_angle.within(*target, *tolerance) {
                    Poll::Reached(0)
                } else {
                    Poll::Pending(*poll_ms)
                }
            },
            Wait::Elevation { target, tolerance, poll_ms } => {
                if state.elevation_angle.within(*target, *tolerance) {
                    Poll::Reached(0)
                } else {
                    Poll::Pending(*poll_ms)
                }
            },
            Wait::Position { target, tolerance, poll_ms, timeout_ms, settle_ms } => {
                if state.azimuth_angle.within(target.azimuth, *tolerance)
                    && state.elevation_angle.within(target.elevation, *tolerance) {
                    Poll::Reached(*settle_ms)
                } else if elapsed_ms >= *timeout_ms {
                    Poll::TimedOut(*settle_ms)
                } else {
                    Poll::Pending(*poll_ms)
                }
            },
        }
    }
}

impl ActionManager {
    /// The wait that moves the azimuth to `angle`: it sets the angle once
    /// and ends only when the store shows the azimuth within the tolerance
    /// for one axis.
    pub fn set_azimuth_blocking(&self, angle: Angle) -> (w: Wait)
        ensures
            w == (Wait::Azimuth {
                target: angle,
                tolerance: self.axis_tolerance,
                poll_ms: self.poll_ms,
            }),
    {
        Wait::Azimuth { target: angle, tolerance: self.axis_tolerance, poll_ms: self.poll_ms }
    }

    /// The wait that moves the elevation to `angle`: it sets the angle once
    /// and ends only when the store shows the elevation within the
    /// tolerance for one axis.
    pub fn set_elevation_blocking(&self, angle: Angle) -> (w: Wait)
        ensures
            w == (Wait::Elevation {
                target: angle,
                tolerance: self.axis_tolerance,
                poll_ms: self.poll_ms,
            }),
    {
        Wait::Elevation { target: angle, tolerance: self.axis_tolerance, poll_ms: self.poll_ms }
    }

    /// The wait that moves both axes: it sets both angles once and ends when
    /// the store shows both within the tolerance for a position, or when the
    /// time is up; then it sets both once more.
    pub fn set_position_blocking(&self, az: Angle, el: Angle) -> (w: Wait)
        ensures
            w == (Wait::Position {
                target: DishPosition { azimuth: az, elevation: el },
                tolerance: self.position_tolerance,
                poll_ms: self.poll_ms,
                timeout_ms: self.position_timeout_ms,
                settle_ms: self.settle_ms,
            }),
    {
        Wait::Position {
            target: DishPosition { azimuth: az, elevation: el },
            tolerance: self.position_tolerance,
            poll_ms: self.poll_ms,
            timeout_ms: self.position_timeout_ms,
            settle_ms: self.settle_ms,
        }
    }
}

/// The steps that put `commands` on the bus, in order.
pub open spec fn sends(commands: Seq<DishCommand>) -> Seq<Step> {
    commands.map_values(|c: DishCommand| Step::Send(c))
}

/// `n` sleeps of `ms` milliseconds each.
pub open spec fn sleeps(n: int, ms: u64) -> Seq<Step> {
    Seq::new(n as nat, |i: int| Step::Sleep(ms))
}

/// A sleep of `ms` milliseconds, or nothing for no time at all.
pub open spec fn pause(ms: u64) -> Seq<Step> {
    if ms > 0 {
        seq![Step::Sleep(ms)]
    } else {
        Seq::empty()
    }
}

impl Wait {
    /// The first look at or after the `i`-th that ends the wait
    /// (`seen.len()` if none does).
    pub open spec fn first_end(&self, seen: Seq<Observation>, i: int) -> int
        decreases seen.len() - i,
    {
        if 0 <= i < seen.len() && self.decide(seen[i]) is Pending {
            self.first_end(seen, i + 1)
        } else {
            i
        }
    }

    /// The steps that follow a look.
    pub open spec fn after(&self, p: Poll) -> Seq<Step> {
        match p {
            Poll::Pending(ms) => seq![Step::Sleep(ms)],
            Poll::Reached(ms) => pause(ms),
            Poll::TimedOut(ms) => sends(self.commands()) + pause(ms),
        }
    }

    /// Everything that the wait does when its looks at the store find
    /// `seen`, one after the other: it sends its commands, sleeps after each
    /// look that leaves it pending, and ends at the first look that does
    /// not. Looks behind that one are not taken.
    pub open spec fn trace(&self, seen: Seq<Observation>) -> Seq<Step> {
        let k = self.first_end(seen, 0);
        sends(self.commands()) + sleeps(k, self.interval()) + if k < seen.len() {
            self.after(self.decide(seen[k]))
        } else {
            Seq::empty()
        }
    }

    /// Where `first_end` lies, and what holds before it and at it.
    pub proof fn lemma_first_end(&self, seen: Seq<Observation>, i: int)
        requires
            0 <= i <= seen.len(),
        ensures
            i <= self.first_end(seen, i) <= seen.len(),
            forall|j: int|
                i <= j < self.first_end(seen, i) ==> (#[trigger] self.decide(seen[j])) is Pending,
            self.first_end(seen, i) < seen.len() ==> !(self.decide(
                seen[self.first_end(seen, i)],
            ) is Pending),
        decreases seen.len() - i,
    {
        if i < seen.len() && self.decide(seen[i]) is Pending {
            self.lemma_first_end(seen, i + 1);
        }
    }

    /// Appends the steps of `after(p)` to `out`.
    fn finish(&self, out: &mut Vec<Step>, p: Poll)
        ensures
            final(out)@ == old(out)@ + self.after(p),
    {
        match p {
            Poll::Pending(ms) => {
                out.push(Step::Sleep(ms));
            },
            Poll::Reached(ms) => {
                if ms > 0 {
                    out.push(Step::Sleep(ms));
                }
            },
            Poll::TimedOut(ms) => {
                let again = self.start();
                let mut i: usize = 0;
                while i < again.len()
                    invariant
                        i <= again.len(),
                        again@ == self.commands(),
                        out@ == old(out)@ + sends(again@.take(i as int)),
                    decreases again.len() - i,
                {
                    out.push(Step::Send(again[i]));
                    assert(out@ =~= old(out)@ + sends(again@.take(i + 1)));
                    i = i + 1;
                }
                assert(again@.take(i as int) =~= again@);
                if ms > 0 {
                    out.push(Step::Sleep(ms));
                }
            },
        }
        assert(out@ =~= old(out)@ + self.after(p));
    }

    /// Carries the wait out on looks that are given beforehand: `trace`. A
    /// loop that takes each look from the store when its turn comes, and
    /// sleeps for real, does the same steps.
    pub fn replay(&self, seen: &Vec<Observation>) -> (v: Vec<Step>)
        ensures
            v@ == self.trace(seen@),
    {
        let mut v: Vec<Step> = Vec::new();
        let first = self.start();
        let mut i: usize = 0;
        while i < first.len()
            invariant
                i <= first.len(),
                first@ == self.commands(),
                v@ == sends(first@.take(i as int)),
            decreases first.len() - i,
        {
            v.push(Step::Send(first[i]));
            assert(v@ =~= sends(first@.take(i + 1)));
            i = i + 1;
        }
        assert(first@.take(i as int) =~= first@);
        let mut k: usize = 0;
        while k < seen.len()
            invariant
                k <= seen.len(),
                self.first_end(seen@, 0) == self.first_end(seen@, k as int),
                v@ == sends(self.commands()) + sleeps(k as int, self.interval()),
            decreases seen.len() - k,
        {
            let p = self.poll(&seen[k].state, seen[k].elapsed_ms);
            match p {
                Poll::Pending(ms) => {
                    v.push(Step::Sleep(ms));
                    assert(v@ =~= sends(self.commands()) + sleeps(k + 1, self.interval()));
                },
                _ => {
                    self.finish(&mut v, p);
                    assert(v@ =~= self.trace(seen@));
                    return v;
                },
            }
            k = k + 1;
        }
        assert(v@ =~= self.trace(seen@));
        v
    }
}

/// A wait for one axis ends at a look that finds the axis within the
/// tolerance of the target, and at the first such look: it sleeps through
/// every look before, sends nothing but the one command at its start, and
/// never gives up.
pub proof fn law_axis_wait_ends_within_tolerance(wait: Wait, seen: Seq<Observation>)
    requires
        wait is Azimuth || wait is Elevation,
    ensures
        0 <= wait.first_end(seen, 0) <= seen.len(),
        forall|i: int|
            0 <= i < wait.first_end(seen, 0) ==> !wait.has_converged((#[trigger] seen[i]).state),
        wait.first_end(seen, 0) < seen.len() ==> wait.has_converged(
            seen[wait.first_end(seen, 0)].state,
        ),
        wait.trace(seen) == sends(wait.commands()) + sleeps(
            wait.first_end(seen, 0),
            wait.interval(),
        ),
        wait.commands().len() == 1,
{
    wait.lemma_first_end(seen, 0);
    let k = wait.first_end(seen, 0);
    assert forall|i: int| 0 <= i < k implies !wait.has_converged((#[trigger] seen[i]).state) by {
        assert(wait.decide(seen[i]) is Pending);
    }
    assert(wait.trace(seen) =~= sends(wait.commands()) + sleeps(k, wait.interval()));
}

/// A wait for a position that never finds the dish within the tolerance
/// gives up at the first look that finds the time used up: until then it
/// only sleeps, then it sends its two commands a second time, lets the dish
/// settle, and is over.
pub proof fn law_position_wait_gives_up(wait: Wait, seen: Seq<Observation>)
    requires
        wait is Position,
        forall|i: int| 0 <= i < seen.len() ==> !wait.has_converged((#[trigger] seen[i]).state),
        exists|i: int| 0 <= i < seen.len() && wait.has_expired((#[trigger] seen[i]).elapsed_ms),
    ensures
        0 <= wait.first_end(seen, 0) < seen.len(),
        wait.has_expired(seen[wait.first_end(seen, 0)].elapsed_ms),
        forall|i: int|
            0 <= i < wait.first_end(seen, 0) ==> !wait.has_expired(
                (#[trigger] seen[i]).elapsed_ms,
            ),
        wait.trace(seen) == sends(wait.commands()) + sleeps(
            wait.first_end(seen, 0),
            wait.interval(),
        ) + sends(wait.commands()) + pause(wait.settle()),
        wait.commands().len() == 2,
{
    wait.lemma_first_end(seen, 0);
    let k = wait.first_end(seen, 0);
    let late = choose|i: int| 0 <= i < seen.len() && wait.has_expired((#[trigger] seen[i]).elapsed_ms);
    assert(!wait.has_converged(seen[late].state));
    assert(!(wait.decide(seen[late]) is Pending));
    assert(k <= late);
    assert(!wait.has_converged(seen[k].state));
    assert forall|i: int| 0 <= i < k implies !wait.has_expired(
        (#[trigger] seen[i]).elapsed_ms,
    ) by {
        assert(wait.decide(seen[i]) is Pending);
        assert(!wait.has_converged(seen[i].state));
    }
    assert(wait.trace(seen) =~= sends(wait.commands()) + sleeps(k, wait.interval()) + sends(
        wait.commands(),
    ) + pause(wait.settle()));
}

} // verus!
