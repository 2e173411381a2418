use payinfo::time::Time;

#[test]
fn reads_single_digit_hour() {
    assert_eq!(Time::from_str("9:00"), Ok(Time { hour: 9, minute: 0 }));
}

#[test]
fn reads_two_digit_hour() {
    assert_eq!(Time::from_str("17:05"), Ok(Time { hour: 17, minute: 5 }));
}

#[test]
fn does_not_check_ranges() {
    assert_eq!(Time::from_str("25:99"), Ok(Time { hour: 25, minute: 99 }));
    assert_eq!(Time::from_str("255:255"), Ok(Time { hour: 255, minute: 255 }));
}

#[test]
fn accepts_plus_sign_and_leading_zeros() {
    assert_eq!(Time::from_str("+5:07"), Ok(Time { hour: 5, minute: 7 }));
    assert_eq!(Time::from_str("5:+7"), Ok(Time { hour: 5, minute: 7 }));
    assert_eq!(Time::from_str("0009:5"), Ok(Time { hour: 9, minute: 5 }));
}

#[test]
fn rejects_text_without_colon() {
    assert_eq!(Time::from_str("900"), Err(()));
    assert_eq!(Time::from_str(""), Err(()));
    assert_eq!(Time::from_str("noon"), Err(()));
}

#[test]
fn rejects_missing_or_bad_parts() {
    assert_eq!(Time::from_str("9:"), Err(()));
    assert_eq!(Time::from_str(":30"), Err(()));
    assert_eq!(Time::from_str(":"), Err(()));
    assert_eq!(Time::from_str("a:30"), Err(()));
    assert_eq!(Time::from_str("9:3o"), Err(()));
    assert_eq!(Time::from_str("-1:30"), Err(()));
    assert_eq!(Time::from_str("+:30"), Err(()));
    assert_eq!(Time::from_str("9.5:30"), Err(()));
}

#[test]
fn rejects_second_colon() {
    assert_eq!(Time::from_str("1:2:3"), Err(()));
    assert_eq!(Time::from_str("1::3"), Err(()));
}

#[test]
fn rejects_parts_over_255() {
    assert_eq!(Time::from_str("256:00"), Err(()));
    assert_eq!(Time::from_str("10:256"), Err(()));
    assert_eq!(Time::from_str("99999999999999999999999:00"), Err(()));
}

#[test]
fn rejects_surrounding_whitespace() {
    assert_eq!(Time::from_str(" 9:00"), Err(()));
    assert_eq!(Time::from_str("9:00 "), Err(()));
    assert_eq!(Time::from_str("9 :00"), Err(()));
}

#[test]
fn rejects_digits_outside_ascii() {
    assert_eq!(Time::from_str("\u{0661}:00"), Err(()));
}

#[test]
fn writes_zero_padded() {
    assert_eq!(Time { hour: 9, minute: 5 }.to_text(), "09:05");
    assert_eq!(Time { hour: 0, minute: 0 }.to_text(), "00:00");
    assert_eq!(Time { hour: 17, minute: 30 }.to_text(), "17:30");
}

#[test]
fn writes_three_digit_parts_in_full() {
    assert_eq!(Time { hour: 123, minute: 7 }.to_text(), "123:07");
    assert_eq!(Time { hour: 255, minute: 255 }.to_text(), "255:255");
}

#[test]
fn written_time_reads_back() {
    for hour in 0..=255u8 {
        for minute in [0u8, 1, 9, 10, 59, 99, 100, 255] {
            let t = Time { hour, minute };
            assert_eq!(Time::from_str(&t.to_text()), Ok(t));
        }
    }
}
