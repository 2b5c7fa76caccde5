use hud_cli::clock::{date_text, time_text, ClockReading};

#[test]
fn time_zero_padded() {
    let c = ClockReading { hour: 7, minute: 3, month: 1, day: 9 };
    assert_eq!(time_text(&c), "07:03");
    assert_eq!(date_text(&c), "01月09日");
}

#[test]
fn time_two_digit_fields() {
    let c = ClockReading { hour: 23, minute: 59, month: 12, day: 31 };
    assert_eq!(time_text(&c), "23:59");
    assert_eq!(date_text(&c), "12月31日");
}
