use dish_control::angle::Angle;
use dish_control::dish_actions::{
    startup_actions, ActionError, ActionManager, DishAction, DishPosition, Scan2DParams, Step,
    Sweep1DParams,
};
use dish_control::dish_controller::DishState;
use dish_control::dish_driver::DishCommand;
use dish_control::waits::{Observation, Poll, Wait};

fn deg(d: i64) -> Angle {
    Angle { millidegrees: d * 1000 }
}

fn at(az: i64, el: i64) -> DishPosition {
    DishPosition { azimuth: deg(az), elevation: deg(el) }
}

fn seen(az: i64, el: i64, elapsed_ms: u64) -> Observation {
    let mut state = DishState::new();
    state.azimuth_angle = Angle { millidegrees: az };
    state.elevation_angle = Angle { millidegrees: el };
    Observation { state, elapsed_ms }
}

#[test]
fn manager_has_the_usual_settings() {
    let m = ActionManager::new();
    assert_eq!(m.axis_tolerance, Angle { millidegrees: 100 });
    assert_eq!(m.position_tolerance, Angle { millidegrees: 2000 });
    assert_eq!(m.position_timeout_ms, 15000);
    assert_eq!(m.poll_ms, 100);
    assert_eq!(m.settle_ms, 100);
    assert_eq!(m.sample_ms, 1000);
    assert_eq!(m.watch_seconds, 1);
}

#[test]
fn scan_visits_cells_azimuth_first_and_parks() {
    let params = Scan2DParams { bottom_left: at(0, 0), top_right: at(2, 2), step: deg(1) };
    assert_eq!(params.positions(), Ok(vec![at(0, 0), at(0, 1), at(1, 0), at(1, 1)]));
    let plan = ActionManager::new().render(DishAction::Scan2d(params)).unwrap();
    let watch = Step::Send(DishCommand::RfWatch(1));
    let expected = vec![
        Step::MoveTo(at(0, 0)), watch, Step::Sleep(1000),
        Step::MoveTo(at(0, 1)), watch, Step::Sleep(1000),
        Step::MoveTo(at(1, 0)), watch, Step::Sleep(1000),
        Step::MoveTo(at(1, 1)), watch, Step::Sleep(1000),
        Step::MoveTo(at(0, 0)),
    ];
    assert_eq!(plan, expected);
}

#[test]
fn scan_drops_fractions_but_parks_at_the_true_corner() {
    let corner = DishPosition {
        azimuth: Angle { millidegrees: 90500 },
        elevation: Angle { millidegrees: 5900 },
    };
    let params = Scan2DParams {
        bottom_left: corner,
        top_right: DishPosition {
            azimuth: Angle { millidegrees: 95999 },
            elevation: Angle { millidegrees: 8100 },
        },
        step: Angle { millidegrees: 2999 },
    };
    assert_eq!(
        params.positions(),
        Ok(vec![at(90, 5), at(90, 7), at(92, 5), at(92, 7), at(94, 5), at(94, 7)])
    );
    let plan = ActionManager::new().render(DishAction::Scan2d(params)).unwrap();
    assert_eq!(plan.len(), 19);
    assert_eq!(plan[18], Step::MoveTo(corner));
}

#[test]
fn scan_over_nothing_only_parks() {
    let params = Scan2DParams { bottom_left: at(5, 5), top_right: at(5, 9), step: deg(1) };
    let plan = ActionManager::new().render(DishAction::Scan2d(params)).unwrap();
    assert_eq!(plan, vec![Step::MoveTo(at(5, 5))]);
}

#[test]
fn scan_with_a_step_below_one_degree_is_refused() {
    for step in [0, 999, -1000, i64::MIN] {
        let params = Scan2DParams {
            bottom_left: at(0, 0),
            top_right: at(2, 2),
            step: Angle { millidegrees: step },
        };
        assert_eq!(
            ActionManager::new().render(DishAction::Scan2d(params)),
            Err(ActionError::StepNotPositive)
        );
    }
}

#[test]
fn sweep_sets_samples_and_does_not_wait() {
    let sweep = Sweep1DParams { start: 10, end: 15, step: 2 };
    assert_eq!(sweep.positions(), Ok(vec![10, 12, 14]));
    let plan = ActionManager::new().render(DishAction::ElevationSweep(sweep)).unwrap();
    let mut expected = Vec::new();
    for el in [10, 12, 14] {
        expected.push(Step::Send(DishCommand::SetElevationAngle(deg(el))));
        expected.push(Step::Sleep(100));
        expected.push(Step::Send(DishCommand::RfWatch(1)));
        expected.push(Step::Sleep(1000));
    }
    assert_eq!(plan, expected);
}

#[test]
fn sweep_includes_its_end() {
    assert_eq!(Sweep1DParams { start: -2, end: 2, step: 2 }.positions(), Ok(vec![-2, 0, 2]));
    assert_eq!(Sweep1DParams { start: 7, end: 7, step: 5 }.positions(), Ok(vec![7]));
    let far = Sweep1DParams { start: i32::MAX - 1, end: i32::MAX, step: i32::MAX };
    assert_eq!(far.positions(), Ok(vec![i32::MAX - 1]));
}

#[test]
fn ill_formed_sweeps_are_refused() {
    let m = ActionManager::new();
    let zero = Sweep1DParams { start: 0, end: 10, step: 0 };
    assert_eq!(m.render(DishAction::ElevationSweep(zero)), Err(ActionError::StepNotPositive));
    let back = Sweep1DParams { start: 0, end: 10, step: -1 };
    assert_eq!(m.render(DishAction::ElevationSweep(back)), Err(ActionError::StepNotPositive));
    let empty = Sweep1DParams { start: 11, end: 10, step: 1 };
    assert_eq!(m.render(DishAction::ElevationSweep(empty)), Err(ActionError::EmptyRange));
}

#[test]
fn move_is_one_wait_for_a_position() {
    let plan = ActionManager::new().render(DishAction::MoveAngles(deg(180), deg(45)));
    assert_eq!(plan, Ok(vec![Step::MoveTo(at(180, 45))]));
}

#[test]
fn startup_has_a_scan_only_when_asked() {
    assert_eq!(startup_actions(false, 90, 270, 5, 70, deg(1)), Vec::new());
    let expected = DishAction::Scan2d(Scan2DParams {
        bottom_left: at(90, 5),
        top_right: at(270, 70),
        step: Angle { millidegrees: 1500 },
    });
    assert_eq!(startup_actions(true, 90, 270, 5, 70, Angle { millidegrees: 1500 }), vec![expected]);
}

#[test]
fn axis_wait_ends_only_within_its_tolerance() {
    let m = ActionManager::new();
    let wait = m.set_azimuth_blocking(deg(90));
    assert_eq!(wait.start(), vec![DishCommand::SetAzimuthAngle(deg(90))]);
    assert_eq!(wait.poll(&seen(89_899, 0, 0).state, 0), Poll::Pending(100));
    assert_eq!(wait.poll(&seen(90_101, 0, 0).state, 1_000_000_000), Poll::Pending(100));
    assert_eq!(wait.poll(&seen(89_900, 0, 0).state, 0), Poll::Reached(0));
    assert_eq!(wait.poll(&seen(90_100, 77_000, 0).state, 0), Poll::Reached(0));
    let looks = vec![seen(0, 0, 0), seen(45_000, 0, 100), seen(89_950, 0, 200), seen(0, 0, 300)];
    let trace = wait.replay(&looks);
    assert_eq!(
        trace,
        vec![Step::Send(DishCommand::SetAzimuthAngle(deg(90))), Step::Sleep(100), Step::Sleep(100)]
    );
}

#[test]
fn elevation_wait_looks_at_the_elevation() {
    let mut m = ActionManager::new();
    m.axis_tolerance = Angle { millidegrees: 500 };
    let wait = m.set_elevation_blocking(deg(30));
    assert_eq!(wait.start(), vec![DishCommand::SetElevationAngle(deg(30))]);
    assert_eq!(wait.poll(&seen(30_000, 29_499, 0).state, 0), Poll::Pending(100));
    assert_eq!(wait.poll(&seen(0, 29_500, 0).state, 0), Poll::Reached(0));
    assert_eq!(wait.poll(&seen(0, 30_500, 0).state, 0), Poll::Reached(0));
}

#[test]
fn position_wait_needs_both_axes() {
    let wait = ActionManager::new().set_position_blocking(deg(180), deg(45));
    assert_eq!(
        wait,
        Wait::Position {
            target: at(180, 45),
            tolerance: Angle { millidegrees: 2000 },
            poll_ms: 100,
            timeout_ms: 15000,
            settle_ms: 100,
        }
    );
    assert_eq!(wait.poll(&seen(180_000, 42_999, 0).state, 0), Poll::Pending(100));
    assert_eq!(wait.poll(&seen(177_999, 45_000, 0).state, 0), Poll::Pending(100));
    assert_eq!(wait.poll(&seen(178_000, 47_000, 0).state, 0), Poll::Reached(100));
    assert_eq!(wait.poll(&seen(178_000, 47_000, 20_000).state, 20_000), Poll::Reached(100));
    assert_eq!(wait.poll(&seen(0, 0, 14_999).state, 14_999), Poll::Pending(100));
    assert_eq!(wait.poll(&seen(0, 0, 15_000).state, 15_000), Poll::TimedOut(100));
}

#[test]
fn position_wait_that_never_arrives_sets_twice_and_ends() {
    let wait = ActionManager::new().set_position_blocking(deg(180), deg(45));
    let looks: Vec<Observation> = (0..200).map(|i| seen(0, 0, i * 100)).collect();
    let trace = wait.replay(&looks);
    let set_az = Step::Send(DishCommand::SetAzimuthAngle(deg(180)));
    let set_el = Step::Send(DishCommand::SetElevationAngle(deg(45)));
    assert_eq!(trace.iter().filter(|s| **s == set_az).count(), 2);
    assert_eq!(trace.iter().filter(|s| **s == set_el).count(), 2);
    assert_eq!(trace.len(), 2 + 150 + 2 + 1);
    assert_eq!(&trace[..2], &[set_az, set_el]);
    assert!(trace[2..152].iter().all(|s| *s == Step::Sleep(100)));
    assert_eq!(&trace[152..], &[set_az, set_el, Step::Sleep(100)]);
    let slept: u64 = trace[2..152].iter().map(|s| match s { Step::Sleep(ms) => *ms, _ => 0 }).sum();
    assert_eq!(slept, 15_000);
}

#[test]
fn position_wait_that_arrives_settles_and_sets_once() {
    let wait = ActionManager::new().set_position_blocking(deg(180), deg(45));
    let looks = vec![seen(0, 0, 0), seen(179_000, 44_000, 100), seen(0, 0, 99_000)];
    let trace = wait.replay(&looks);
    assert_eq!(
        trace,
        vec![
            Step::Send(DishCommand::SetAzimuthAngle(deg(180))),
            Step::Send(DishCommand::SetElevationAngle(deg(45))),
            Step::Sleep(100),
            Step::Sleep(100),
        ]
    );
}

#[test]
fn wait_without_looks_has_only_begun() {
    let wait = ActionManager::new().set_position_blocking(deg(1), deg(2));
    let trace = wait.replay(&Vec::new());
    assert_eq!(
        trace,
        vec![
            Step::Send(DishCommand::SetAzimuthAngle(deg(1))),
            Step::Send(DishCommand::SetElevationAngle(deg(2))),
        ]
    );
}

#[test]
fn raster_cells_lie_on_the_grid_in_rising_order() {
    let params = Scan2DParams { bottom_left: at(-3, 10), top_right: at(4, 21), step: deg(3) };
    let cells = params.positions().unwrap();
    let mut expected = Vec::new();
    for az in [-3, 0, 3] {
        for el in [10, 13, 16, 19] {
            expected.push(at(az, el));
        }
    }
    assert_eq!(cells, expected);
    for pair in cells.windows(2) {
        let (a, b) = (pair[0], pair[1]);
        assert!(
            a.azimuth.millidegrees < b.azimuth.millidegrees
                || (a.azimuth == b.azimuth
                    && a.elevation.millidegrees < b.elevation.millidegrees)
        );
    }
}
