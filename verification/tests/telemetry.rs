use dish_control::angle::Angle;
use dish_control::dish_controller::{link_settings, poll_commands, DishState, FlowControl, Parity};
use dish_control::dish_driver::{DishCommand, DishResponse};
use dish_control::number::{read_i32, read_milli};
use dish_control::rfss::Average;
use dish_control::text::{chars_of, trim};

#[test]
fn elevation_count_to_angle_at_the_ends() {
    assert_eq!(DishState::elevation_count_to_angle(334), Angle { millidegrees: 0 });
    assert_eq!(DishState::elevation_count_to_angle(1487), Angle { millidegrees: 70000 });
}

#[test]
fn elevation_angle_to_count_inverts_at_the_ends() {
    assert_eq!(DishState::elevation_angle_to_count(Angle { millidegrees: 0 }), 334);
    assert_eq!(DishState::elevation_angle_to_count(Angle { millidegrees: 70000 }), 1487);
    for count in [334, 1487] {
        let angle = DishState::elevation_count_to_angle(count);
        assert_eq!(DishState::elevation_angle_to_count(angle), count);
    }
}

#[test]
fn elevation_conversions_between_the_ends() {
    // 70 * (1098 - 334) / 1153 = 46.3833...
    assert_eq!(DishState::elevation_count_to_angle(1098), Angle { millidegrees: 46383 });
    // 70 * (0 - 334) / 1153 = -20.2775...
    assert_eq!(DishState::elevation_count_to_angle(0), Angle { millidegrees: -20277 });
    // 334 + 35 * 1153 / 70 = 910.5
    assert_eq!(DishState::elevation_angle_to_count(Angle { millidegrees: 35000 }), 910);
    // 334 - 30 * 1153 / 70 = -160.14...
    assert_eq!(DishState::elevation_angle_to_count(Angle { millidegrees: -30000 }), -160);
    assert_eq!(DishState::elevation_angle_to_count(Angle { millidegrees: i64::MAX }), i32::MAX);
    assert_eq!(DishState::elevation_angle_to_count(Angle { millidegrees: i64::MIN }), i32::MIN);
}

#[test]
fn elevation_conversions_agree_with_floats() {
    for count in [-5000, 0, 333, 334, 335, 900, 1098, 1487, 2000, 100000] {
        let exact = 70.0 * (count as f64 - 334.0) / (1487.0 - 334.0);
        let angle = DishState::elevation_count_to_angle(count);
        assert_eq!(angle.millidegrees, (exact * 1000.0).trunc() as i64);
    }
}

#[test]
fn responses_update_their_own_fields() {
    let mut state = DishState::new();
    assert_eq!(state.azimuth_count, 0);
    assert_eq!(state.signal_strength, Average { sum: 0, count: 1 });
    state.update_from_response(&DishResponse::Azimuth(3224, Angle { millidegrees: 160192 }));
    assert_eq!(state.azimuth_count, 3224);
    assert_eq!(state.azimuth_angle, Angle { millidegrees: 160192 });
    assert_eq!(state.elevation_count, 0);
    state.update_from_response(&DishResponse::Elevation(1487));
    assert_eq!(state.elevation_count, 1487);
    assert_eq!(state.elevation_angle, Angle { millidegrees: 70000 });
    assert_eq!(state.azimuth_count, 3224);
    state.update_from_response(&DishResponse::RfPower(Average { sum: 15708, count: 5 }));
    assert_eq!(state.signal_strength, Average { sum: 15708, count: 5 });
    let before = state;
    state.update_from_response(&DishResponse::Ver("1.0".to_string()));
    assert_eq!(state, before);
}

#[test]
fn a_round_of_position_requests() {
    assert_eq!(poll_commands(), vec![DishCommand::GetAzimuth, DishCommand::GetElevation]);
}

#[test]
fn serial_line_is_eight_n_one() {
    let s = link_settings(9600);
    assert_eq!(s.baudrate, 9600);
    assert_eq!(s.data_bits, 8);
    assert_eq!(s.parity, Parity::Unchecked);
    assert_eq!(s.stop_bits, 1);
    assert_eq!(s.flow_control, FlowControl::Off);
    assert_eq!(s.timeout_ms, 1000);
}

#[test]
fn angles_compare_within_a_tolerance() {
    let tol = Angle { millidegrees: 100 };
    let target = Angle { millidegrees: 35000 };
    assert!(Angle { millidegrees: 35100 }.within(target, tol));
    assert!(Angle { millidegrees: 34900 }.within(target, tol));
    assert!(!Angle { millidegrees: 35101 }.within(target, tol));
    assert!(!Angle { millidegrees: 34899 }.within(target, tol));
    assert!(!Angle { millidegrees: i64::MIN }.within(Angle { millidegrees: i64::MAX }, tol));
    assert_eq!(Angle::from_degrees(-3), Angle { millidegrees: -3000 });
    assert_eq!(Angle::from_millidegrees(5), Angle { millidegrees: 5 });
    assert_eq!(Angle { millidegrees: -1999 }.whole_degrees(), -1);
    assert_eq!(Angle { millidegrees: 1999 }.whole_degrees(), 1);
    assert_eq!(Angle { millidegrees: i64::MIN }.whole_degrees(), -9223372036854775);
}

#[test]
fn counts_are_read_as_rust_reads_them() {
    for text in ["0", "7", "-7", "+7", "007", "2147483647", "-2147483648", "2147483648", "", "-", "+", "1 ", "1.0", "0x10", "٣"] {
        let v = chars_of(text);
        assert_eq!(read_i32(&v, 0, v.len()), text.parse::<i32>().ok());
    }
}

#[test]
fn decimals_are_read_in_thousandths() {
    let read = |text: &str| {
        let v = chars_of(text);
        read_milli(&v, 0, v.len())
    };
    assert_eq!(read("160.192"), Some(160192));
    assert_eq!(read("160"), Some(160000));
    assert_eq!(read("160."), Some(160000));
    assert_eq!(read(".5"), Some(500));
    assert_eq!(read("-0.25"), Some(-250));
    assert_eq!(read("+1.5"), Some(1500));
    assert_eq!(read("1.2345"), Some(1234));
    assert_eq!(read("2147483647.999"), Some(2147483647999));
    assert_eq!(read("2147483648"), None);
    assert_eq!(read("."), None);
    assert_eq!(read(""), None);
    assert_eq!(read("-"), None);
    assert_eq!(read("1.2.3"), None);
    assert_eq!(read("1e3"), None);
    assert_eq!(read("12a"), None);
    assert_eq!(read("1.23x"), None);
}

#[test]
fn trimming_drops_white_space_at_both_ends() {
    for text in ["", " ", "a", "  a b \t\r\n", "\u{a0}x\u{3000}", "\u{2003}", "x\u{200b}"] {
        let got: String = trim(&chars_of(text)).into_iter().collect();
        assert_eq!(got, text.trim());
    }
}

#[test]
fn counts_survive_the_way_through_an_angle() {
    for count in [-100000, -1, 0, 1, 333, 334, 335, 1098, 1486, 1487, 1488, 100000] {
        let back = DishState::elevation_angle_to_count(DishState::elevation_count_to_angle(count));
        assert!((back - count).abs() <= 1);
    }
    for count in [334 - 1153, 334, 1487, 1487 + 1153] {
        let back = DishState::elevation_angle_to_count(DishState::elevation_count_to_angle(count));
        assert_eq!(back, count);
    }
}
