use lala_bar::clock::Clock;

fn clock(month: u32, day: u32, weekday: u32, hour: u32, minute: u32) -> Clock {
    Clock { month, day, weekday, hour, minute }
}

#[test]
fn date_label_pads_month_and_day() {
    assert_eq!(clock(3, 7, 2, 9, 5).date_label(), "03-07");
    assert_eq!(clock(12, 31, 0, 0, 0).date_label(), "12-31");
}

#[test]
fn time_label_is_24_hour() {
    assert_eq!(clock(3, 7, 2, 9, 5).time_label(), "09:05");
    assert_eq!(clock(1, 1, 0, 23, 59).time_label(), "23:59");
    assert_eq!(clock(1, 1, 0, 0, 0).time_label(), "00:00");
}

#[test]
fn weekday_label_names_the_day() {
    let names = ["Monday", "Tuesday", "Wednesday", "Thursday", "Friday", "Saturday", "Sunday"];
    for (w, name) in names.iter().enumerate() {
        assert_eq!(clock(5, 5, w as u32, 12, 0).weekday_label(), *name);
    }
}
