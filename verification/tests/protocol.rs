use dish_control::angle::Angle;
use dish_control::dish_driver::{DishCommand, DishResponse};
use dish_control::number::read_milli;
use dish_control::rfss::{
    average_readings, clean_reading, clean_readings, delete_all, read_value, segment_bounds,
    Average, DecodeError,
};
use dish_control::text::chars_of;

fn mean(a: &Average) -> f64 {
    a.sum as f64 / a.count as f64
}

#[test]
fn test_dish_response_parse() {
    let line = "Current heading:       3224 (160.192 deg.)";
    let response = DishResponse::parse(line).unwrap().unwrap();
    assert_eq!(response, DishResponse::Azimuth(3224, Angle { millidegrees: 160192 }));

    let line = "Current elevation: 1098";
    let response = DishResponse::parse(line).unwrap().unwrap();
    assert_eq!(response, DishResponse::Elevation(1098));

    let line = "Current rfss:           \u{1b}[5D3142 \u{1b}[5D3142 \u{1b}[5D3141 \u{1b}[5D3141 \u{1b}[5D3142";
    let response = DishResponse::parse(line).unwrap().unwrap();
    assert_eq!(response, DishResponse::RfPower(Average { sum: 15708, count: 5 }));
    match response {
        DishResponse::RfPower(a) => assert_eq!(mean(&a), 3141.6),
        _ => panic!("not a signal strength"),
    }
}

#[test]
fn heading_line_gives_count_and_angle() {
    let r = DishResponse::parse("Current heading:       3224 (160.192 deg.)");
    assert_eq!(r, Ok(Some(DishResponse::Azimuth(3224, Angle { millidegrees: 160192 }))));
}

#[test]
fn elevation_line_gives_count() {
    let r = DishResponse::parse("Current elevation: 1098");
    assert_eq!(r, Ok(Some(DishResponse::Elevation(1098))));
}

#[test]
fn signal_line_without_escapes_gives_mean() {
    let r = DishResponse::parse("Current rfss:  [5D3142 [5D3142 [5D3141 [5D3141 [5D3142");
    assert_eq!(r, Ok(Some(DishResponse::RfPower(Average { sum: 15708, count: 5 }))));
    assert_eq!(mean(&Average { sum: 15708, count: 5 }), 3141.6);
}

#[test]
fn received_line_is_trimmed_first() {
    let r = DishResponse::parse("  \tCurrent elevation: 1098\r\n");
    assert_eq!(r, Ok(Some(DishResponse::Elevation(1098))));
}

#[test]
fn inert_lines_decode_to_nothing() {
    for line in ["", "   ", "\r\n", "GO>", "GO> azacc", "azacc", "elacc", "Stopped at Az: 3536", "ver 1.2"] {
        assert_eq!(DishResponse::parse(line), Ok(None));
    }
}

#[test]
fn heading_without_a_count_decodes_to_nothing() {
    assert_eq!(DishResponse::parse("Current heading:"), Ok(None));
    assert_eq!(DishResponse::parse("Current heading: north (1.0 deg.)"), Ok(None));
    assert_eq!(DishResponse::parse("Current heading:3224 (1.0 deg.)"), Ok(None));
    assert_eq!(DishResponse::parse("Current elevation:"), Ok(None));
    assert_eq!(DishResponse::parse("Current elevation: 99999999999"), Ok(None));
}

#[test]
fn heading_with_an_unreadable_angle_gives_zero() {
    let zero = Angle { millidegrees: 0 };
    assert_eq!(DishResponse::parse("Current heading: 12"), Ok(Some(DishResponse::Azimuth(12, zero))));
    assert_eq!(
        DishResponse::parse("Current heading: 12 (abc deg.)"),
        Ok(Some(DishResponse::Azimuth(12, zero)))
    );
    assert_eq!(
        DishResponse::parse("Current heading: -7 ((-0.5 deg.)"),
        Ok(Some(DishResponse::Azimuth(-7, Angle { millidegrees: -500 })))
    );
    assert_eq!(
        DishResponse::parse("Current heading: 7 (12.34567"),
        Ok(Some(DishResponse::Azimuth(7, Angle { millidegrees: 12345 })))
    );
}

#[test]
fn signal_line_with_a_reading_without_digits_fails() {
    assert_eq!(DishResponse::parse("Current rfss: [5D3142 [5D"), Err(DecodeError::MissingDigits));
    assert_eq!(DishResponse::parse("Current rfss: [5Dabc"), Err(DecodeError::MissingDigits));
    assert_eq!(
        DishResponse::parse("Current rfss: [5D99999999999"),
        Err(DecodeError::MissingDigits)
    );
}

#[test]
fn signal_line_without_markers_has_no_values() {
    assert_eq!(
        DishResponse::parse("Current rfss: 3142"),
        Ok(Some(DishResponse::RfPower(Average { sum: 0, count: 0 })))
    );
}

#[test]
fn readings_are_cleaned_of_controls_and_other_text() {
    let r = DishResponse::parse("Current rfss: \u{1b}[5D3\u{1b}1 4x2 \u{1b}[5D  7\u{7}");
    assert_eq!(r, Ok(Some(DishResponse::RfPower(Average { sum: 3149, count: 2 }))));
}

#[test]
fn cleaning_deletes_what_is_no_digit() {
    assert_eq!(clean_reading("31\u{1b}42 \u{9b}x"), Ok("3142".to_string()));
    assert_eq!(clean_reading("\u{1b} "), Ok(String::new()));
    let bounds = vec![(0, 2), (2, 2), (3, 6)];
    assert_eq!(
        clean_readings("1a\u{e9}2\u{1b}3", &bounds),
        Ok(vec!["1".to_string(), String::new(), "23".to_string()])
    );
}

#[test]
fn digits_of_other_scripts_are_kept_and_spell_no_count() {
    assert_eq!(clean_reading("\u{0663}1"), Ok("\u{0663}1".to_string()));
    assert_eq!(
        DishResponse::parse("Current rfss: [5D\u{0663}1"),
        Err(DecodeError::MissingDigits)
    );
}

#[test]
fn reading_values() {
    assert_eq!(read_value("3142"), Some(3142));
    assert_eq!(read_value(" 0042 "), Some(42));
    assert_eq!(read_value(""), None);
    assert_eq!(read_value("2147483647"), Some(2147483647));
    assert_eq!(read_value("2147483648"), None);
    assert_eq!(read_value("-2147483648"), Some(-2147483648));
    assert_eq!(read_value("+5"), Some(5));
    assert_eq!(read_value("+"), None);
    assert_eq!(read_value("5 5"), None);
}

#[test]
fn average_of_readings() {
    let readings = vec!["3142".to_string(), "3141".to_string()];
    assert_eq!(average_readings(&readings), Ok(Average { sum: 6283, count: 2 }));
    let bad = vec!["3142".to_string(), String::new()];
    assert_eq!(average_readings(&bad), Err(DecodeError::MissingDigits));
    assert_eq!(average_readings(&Vec::new()), Ok(Average { sum: 0, count: 0 }));
}

#[test]
fn commands_serialize_to_the_words_of_the_dish() {
    let deg = |m: i64| Angle { millidegrees: m };
    assert_eq!(DishCommand::SetAzimuthAngle(deg(160192)).serialize(), "azangle 160.192");
    assert_eq!(DishCommand::SetAzimuthAngle(deg(90000)).serialize(), "azangle 90");
    assert_eq!(DishCommand::SetElevationAngle(deg(35500)).serialize(), "elangle 35.5");
    assert_eq!(DishCommand::SetElevationAngle(deg(-50)).serialize(), "elangle -0.05");
    assert_eq!(DishCommand::SetElevationAngle(deg(0)).serialize(), "elangle 0");
    assert_eq!(DishCommand::GetAzimuth.serialize(), "azacc");
    assert_eq!(DishCommand::GetElevation.serialize(), "elacc");
    assert_eq!(DishCommand::NudgeAzimuthCcw.serialize(), "aznudge ccw");
    assert_eq!(DishCommand::NudgeAzimuthCw.serialize(), "aznudge cw");
    assert_eq!(DishCommand::NudgeElevationUp.serialize(), "elnudge up");
    assert_eq!(DishCommand::NudgeElevationDown.serialize(), "elnudge down");
    assert_eq!(DishCommand::RfWatch(1).serialize(), "rfwatch 1");
    assert_eq!(DishCommand::RfWatch(-12).serialize(), "rfwatch -12");
    assert_eq!(DishCommand::RfWatch(i32::MIN).serialize(), "rfwatch -2147483648");
    assert_eq!(DishCommand::Version.serialize(), "ver");
}

#[test]
fn serialized_angles_match_the_decimal_form_of_a_float() {
    for m in [0i64, 1, 10, 100, 1000, 1500, 160192, -160192, 35050, 70000, 123456789] {
        let text = DishCommand::SetAzimuthAngle(Angle { millidegrees: m }).serialize();
        assert_eq!(text, format!("azangle {}", m as f64 / 1000.0));
    }
}

#[test]
fn frame_is_the_text_and_a_carriage_return() {
    assert_eq!(DishCommand::Version.frame(), b"ver\r".to_vec());
    assert_eq!(
        DishCommand::SetAzimuthAngle(Angle { millidegrees: 160192 }).frame(),
        b"azangle 160.192\r".to_vec()
    );
    let frame = DishCommand::RfWatch(1).frame();
    assert_eq!(frame.iter().filter(|b| **b == b'\r' || **b == b'\n').count(), 1);
    assert_eq!(frame.last(), Some(&b'\r'));
}

#[test]
fn encoding_and_decoding_are_separate_directions() {
    let text = DishCommand::GetAzimuth.serialize();
    assert_eq!(DishResponse::parse(&text), Ok(None));
    let text = DishCommand::SetAzimuthAngle(Angle { millidegrees: 1000 }).serialize();
    assert_eq!(DishResponse::parse(&text), Ok(None));
}

#[test]
fn refused_pattern_is_an_error() {
    assert_eq!(delete_all("(", "abc"), Err(DecodeError::BadPattern));
    assert_eq!(delete_all("[", "abc"), Err(DecodeError::BadPattern));
}

#[test]
fn patterns_delete_what_they_match() {
    assert_eq!(delete_all("[^\\d]", "a1b2 "), Ok("12".to_string()));
    assert_eq!(delete_all("\\p{C}", "a\u{1b}b\u{0}"), Ok("ab".to_string()));
    assert_eq!(delete_all("b+", "abbbcb"), Ok("ac".to_string()));
}

#[test]
fn readings_stand_behind_their_markers() {
    let parts = |line: &str| -> Vec<String> {
        let chars = chars_of(line);
        segment_bounds(&chars)
            .into_iter()
            .map(|(from, to)| chars[from..to].iter().collect())
            .collect()
    };
    assert_eq!(parts("ab"), Vec::<String>::new());
    assert_eq!(parts("x[5D1 [5D22[5D"), vec!["1 ", "22", ""]);
    assert_eq!(parts("[5D[5D[5"), vec!["", "[5"]);
    assert_eq!(parts("[5[5D7"), vec!["7"]);
    assert_eq!(segment_bounds(&chars_of("\u{e9}[5D12[5D")), vec![(4, 6), (9, 9)]);
    for line in ["", "[5D", "a[5Db[5Dc", "[5D[5D", "[[5D5D", "[5[5D[5DD"] {
        let expected: Vec<String> = line.split("[5D").skip(1).map(|p| p.to_string()).collect();
        assert_eq!(parts(line), expected);
    }
}

#[test]
fn written_angles_read_back() {
    for m in [0i64, 1, -1, 999, 1000, -1001, 160192, 70000, 2147483647999, -2147483647999] {
        let text = DishCommand::SetElevationAngle(Angle { millidegrees: m }).serialize();
        let number = chars_of(&text["elangle ".len()..]);
        assert_eq!(read_milli(&number, 0, number.len()), Some(m));
    }
}
