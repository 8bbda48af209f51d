use locker::clock::{clock_text, read_clock, Moment};

fn at(year: i32, month: u32, day: u32, hour: u32, minute: u32) -> (String, String) {
    let text = clock_text(&Moment {
        year,
        month,
        day,
        hour,
        minute,
    });
    (text.time, text.date)
}

#[test]
fn moments_in_words() {
    let cases = [
        (2024, 1, 1, 0, 0, "00:00", "Monday, January 1"),
        (2024, 2, 29, 23, 59, "23:59", "Thursday, February 29"),
        (2000, 12, 31, 7, 5, "07:05", "Sunday, December 31"),
        (1969, 12, 31, 19, 0, "19:00", "Wednesday, December 31"),
        (1, 1, 1, 12, 30, "12:30", "Monday, January 1"),
    ];
    for (y, mo, d, h, mi, time, date) in cases {
        assert_eq!(at(y, mo, d, h, mi), (time.to_string(), date.to_string()));
    }
}

#[test]
fn every_day_of_four_centuries() {
    let days = [
        "Monday", "Tuesday", "Wednesday", "Thursday", "Friday", "Saturday", "Sunday",
    ];
    let months = [
        "January", "February", "March", "April", "May", "June", "July", "August", "September",
        "October", "November", "December",
    ];
    // The 1st of January 1900 was a Monday.
    let mut weekday = 0;
    for year in 1900..2300 {
        let leap = year % 4 == 0 && (year % 100 != 0 || year % 400 == 0);
        for month in 1..=12u32 {
            let len = match month {
                2 if leap => 29,
                2 => 28,
                4 | 6 | 9 | 11 => 30,
                _ => 31,
            };
            for day in 1..=len {
                let expected = format!("{}, {} {}", days[weekday], months[month as usize - 1], day);
                assert_eq!(at(year, month, day, 1, 2).1, expected);
                weekday = (weekday + 1) % 7;
            }
        }
    }
}

#[test]
fn every_minute_of_a_day() {
    for hour in 0..24 {
        for minute in 0..60 {
            let expected = format!("{hour:02}:{minute:02}");
            assert_eq!(at(2024, 5, 17, hour, minute).0, expected);
        }
    }
}

#[test]
fn ends_of_the_calendar() {
    assert_eq!(at(262142, 12, 31, 0, 0).0, "00:00");
    assert_eq!(at(-262143, 1, 1, 0, 0).0, "00:00");
}

#[test]
fn clock_can_be_read() {
    let now = read_clock();
    assert_eq!(now.time.len(), 5);
    assert_eq!(now.time.as_bytes()[2], b':');
    assert!(now.date.contains(", "));
}
