use dish_control::angle::Angle;
use dish_control::dish_driver::{DishCommand, DishResponse};
use dish_control::dispatcher::{App, Effect, GlobalBus, Key, RfPowerSample};
use dish_control::rfss::{Average, DecodeError};

fn sample(sum: i128, count: u64) -> RfPowerSample {
    RfPowerSample {
        power: Average { sum, count },
        azimuth: Angle { millidegrees: 160192 },
        elevation: Angle { millidegrees: 46383 },
        time_ms: 7,
    }
}

#[test]
fn sample_above_the_limit_is_replaced_and_not_recorded() {
    let mut app = App::new();
    let before = app;
    let out = app.handle(&GlobalBus::RfPowerSample(sample(5001, 1)), 0);
    assert_eq!(out, vec![Effect::Transmit(DishCommand::RfWatch(1)), Effect::Pause(1000)]);
    assert_eq!(app, before);
    let out = app.handle(&GlobalBus::RfPowerSample(sample(25001, 5)), 0);
    assert_eq!(out, vec![Effect::Transmit(DishCommand::RfWatch(1)), Effect::Pause(1000)]);
}

#[test]
fn sample_at_or_below_the_limit_is_recorded() {
    let mut app = App::new();
    for s in [sample(5000, 1), sample(25000, 5), sample(15708, 5), sample(0, 0), sample(-1, 1)] {
        assert_eq!(app.handle(&GlobalBus::RfPowerSample(s), 0), vec![Effect::Persist(s)]);
    }
}

#[test]
fn mean_is_compared_exactly() {
    assert!(Average { sum: 15001, count: 3 }.exceeds(5000));
    assert!(!Average { sum: 15000, count: 3 }.exceeds(5000));
    assert!(!Average { sum: 0, count: 0 }.exceeds(-1));
    assert!(Average { sum: i128::MAX, count: u64::MAX }.exceeds(i64::MAX));
    assert!(!Average { sum: i128::MIN, count: u64::MAX }.exceeds(i64::MIN));
}

#[test]
fn signal_response_updates_the_store_and_publishes_a_sample() {
    let mut app = App::new();
    app.handle(
        &GlobalBus::DishResponse(DishResponse::Azimuth(3224, Angle { millidegrees: 160192 })),
        1,
    );
    let out = app.handle(&GlobalBus::DishResponse(DishResponse::Elevation(1098)), 2);
    assert_eq!(out, Vec::new());
    let power = Average { sum: 15708, count: 5 };
    let out = app.handle(&GlobalBus::DishResponse(DishResponse::RfPower(power)), 3);
    let expected = RfPowerSample {
        power,
        azimuth: Angle { millidegrees: 160192 },
        elevation: Angle { millidegrees: 46383 },
        time_ms: 3,
    };
    assert_eq!(out, vec![Effect::Publish(expected)]);
    assert_eq!(app.state.signal_strength, power);
    assert_eq!(app.state.azimuth_count, 3224);
    assert_eq!(app.state.elevation_count, 1098);
}

#[test]
fn commands_are_forwarded() {
    let mut app = App::new();
    let out = app.handle(&GlobalBus::DishCommand(DishCommand::GetAzimuth), 0);
    assert_eq!(out, vec![Effect::Transmit(DishCommand::GetAzimuth)]);
    assert_eq!(app.handle(&GlobalBus::Update, 0), Vec::new());
}

#[test]
fn keys_nudge_sample_and_quit() {
    let mut app = App::new();
    let mut press = |key: Key| app.handle(&GlobalBus::KeyboardEvent(key), 0);
    assert_eq!(press(Key::Left), vec![Effect::Transmit(DishCommand::NudgeAzimuthCcw)]);
    assert_eq!(press(Key::Right), vec![Effect::Transmit(DishCommand::NudgeAzimuthCw)]);
    assert_eq!(press(Key::Up), vec![Effect::Transmit(DishCommand::NudgeElevationUp)]);
    assert_eq!(press(Key::Down), vec![Effect::Transmit(DishCommand::NudgeElevationDown)]);
    assert_eq!(press(Key::Char(' ')), vec![Effect::Transmit(DishCommand::RfWatch(1))]);
    assert_eq!(press(Key::Char('x')), Vec::new());
    assert_eq!(press(Key::Other), Vec::new());
    assert!(!app.should_quit);
    assert_eq!(app.handle(&GlobalBus::KeyboardEvent(Key::Char('q')), 0), Vec::new());
    assert!(app.should_quit);
}

#[test]
fn run_treats_messages_in_order_and_stops_at_quit() {
    let mut app = App::new();
    let noisy = sample(6000, 1);
    let good = sample(3000, 1);
    let messages = vec![
        GlobalBus::DishCommand(DishCommand::Version),
        GlobalBus::RfPowerSample(noisy),
        GlobalBus::RfPowerSample(good),
        GlobalBus::KeyboardEvent(Key::Char('q')),
        GlobalBus::DishCommand(DishCommand::GetAzimuth),
    ];
    let out = app.run(&messages, 0);
    assert_eq!(
        out,
        vec![
            Effect::Transmit(DishCommand::Version),
            Effect::Transmit(DishCommand::RfWatch(1)),
            Effect::Pause(1000),
            Effect::Persist(good),
        ]
    );
    assert!(app.should_quit);
    assert_eq!(app.run(&messages, 0), Vec::new());
}

#[test]
fn received_lines_become_messages() {
    assert_eq!(
        GlobalBus::from_line("Current elevation: 1098\r\n"),
        Ok(Some(GlobalBus::DishResponse(DishResponse::Elevation(1098))))
    );
    assert_eq!(GlobalBus::from_line("GO>"), Ok(None));
    assert_eq!(GlobalBus::from_line(""), Ok(None));
    assert_eq!(GlobalBus::from_line("Current rfss: [5D"), Err(DecodeError::MissingDigits));
}
