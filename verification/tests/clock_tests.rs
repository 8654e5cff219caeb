use chat_server::clock::{
    minute_stamp, FIRST_PLAIN_INSTANT, LAST_PLAIN_INSTANT,
};
use chat_server::Event;

#[test]
fn the_epoch_is_nine_in_the_morning_in_tokyo() {
    assert_eq!(minute_stamp(0), "1970/01/01 09:00");
}

#[test]
fn seconds_are_cut_off_not_rounded() {
    assert_eq!(minute_stamp(59), "1970/01/01 09:00");
    assert_eq!(minute_stamp(60), "1970/01/01 09:01");
    assert_eq!(minute_stamp(-1), "1970/01/01 08:59");
}

#[test]
fn the_date_is_the_date_in_tokyo() {
    assert_eq!(minute_stamp(1704135840), "2024/01/02 04:04");
    assert_eq!(minute_stamp(1735657200), "2025/01/01 00:00");
    assert_eq!(minute_stamp(1735657199), "2024/12/31 23:59");
}

#[test]
fn leap_days_are_counted() {
    assert_eq!(minute_stamp(951749999), "2000/02/28 23:59");
    assert_eq!(minute_stamp(951750000), "2000/02/29 00:00");
}

#[test]
fn the_summer_time_of_1950_is_known() {
    assert_eq!(minute_stamp(-615513600), "1950/07/01 10:00");
}

#[test]
fn an_instant_outside_the_calendar_has_no_stamp() {
    assert_eq!(minute_stamp(i64::MAX), "");
    assert_eq!(minute_stamp(i64::MIN), "");
}

fn has_minute_shape(stamp: &str) -> bool {
    let bytes = stamp.as_bytes();
    bytes.len() == 16
        && bytes.iter().enumerate().all(|(i, b)| match i {
            4 | 7 => *b == b'/',
            10 => *b == b' ',
            13 => *b == b':',
            _ => b.is_ascii_digit(),
        })
}

#[test]
fn the_stamp_of_the_present_has_the_shape_of_a_minute() {
    let now = chrono::Utc::now().timestamp();
    assert!(has_minute_shape(&minute_stamp(now)));
}

#[test]
fn the_stamp_of_the_present_is_tokyo_time() {
    let now = chrono::Utc::now();
    let ahead = now + chrono::Duration::hours(9);
    assert_eq!(minute_stamp(now.timestamp()), ahead.format("%Y/%m/%d %H:%M").to_string());
}

#[test]
fn years_of_four_digits_give_stamps_of_one_shape() {
    assert_eq!(FIRST_PLAIN_INSTANT, -62_167_219_200);
    assert_eq!(LAST_PLAIN_INSTANT, 253_402_264_799);
    assert_eq!(minute_stamp(FIRST_PLAIN_INSTANT), "0000/01/01 09:18");
    assert_eq!(minute_stamp(LAST_PLAIN_INSTANT), "9999/12/31 22:59");
    assert_eq!(minute_stamp(-30_610_257_539), "1000/01/01 00:00");
    assert_eq!(minute_stamp(-30_610_257_540), "0999/12/31 23:59");
    let span = (LAST_PLAIN_INSTANT - FIRST_PLAIN_INSTANT) as i128;
    for k in 0..=20_000i128 {
        let instant = FIRST_PLAIN_INSTANT as i128 + span * k / 20_000;
        let stamp = minute_stamp(instant as i64);
        assert!(has_minute_shape(&stamp), "{} gives {:?}", instant, stamp);
    }
    for transition in [-2587712400i64, -683802000, -672310800, -654771600, -640861200, -620298000,
        -609411600, -588848400, -577962000]
    {
        for instant in [transition - 1, transition, transition + 1] {
            assert!(has_minute_shape(&minute_stamp(instant)));
        }
    }
}

#[test]
fn years_of_more_digits_are_written_with_a_sign() {
    assert_eq!(minute_stamp(253_402_268_399), "9999/12/31 23:59");
    assert_eq!(minute_stamp(253_402_268_400), "+10000/01/01 00:00");
    assert_eq!(minute_stamp(-62_167_252_740), "-0001/12/31 23:59");
    assert_eq!(minute_stamp(-62_167_252_739), "0000/01/01 00:00");
}

#[test]
fn received_at_stamps_the_bytes_with_the_minute_of_the_instant() {
    assert_eq!(
        Event::received_at(b"hi\n".to_vec(), 1704135840),
        Event::Received { bytes: b"hi\n".to_vec(), stamp: "2024/01/02 04:04".to_string() }
    );
    assert_eq!(
        Event::received_at(Vec::new(), i64::MAX),
        Event::Received { bytes: Vec::new(), stamp: String::new() }
    );
}

#[test]
fn a_read_with_bytes_is_input() {
    assert_eq!(
        Event::from_read(Some(b"hi\n".to_vec()), 0),
        Event::Received { bytes: b"hi\n".to_vec(), stamp: "1970/01/01 09:00".to_string() }
    );
    assert_eq!(
        Event::from_read(Some(vec![0]), 1704135840),
        Event::Received { bytes: vec![0], stamp: "2024/01/02 04:04".to_string() }
    );
}

#[test]
fn a_read_of_no_bytes_is_a_lost_connection() {
    assert_eq!(Event::from_read(Some(Vec::new()), 0), Event::ConnectionLost);
}

#[test]
fn a_failed_read_is_a_lost_connection() {
    assert_eq!(Event::from_read(None, 0), Event::ConnectionLost);
}
