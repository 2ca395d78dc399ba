use schedule::clock::LocalTime;
use schedule::date::{Date, UtcMinute};
use schedule::format::{format_schedule, DailyKind};
use schedule::lesson::{sort_lessons, Lesson};
use schedule::parser::{continues_lesson, display_room_name, for_room};
use schedule::pretty::format_pretty;
use schedule::rate_limit::RateLimiter;
use schedule::service::due_daily_delivery;
use schedule::stats::{aggregate_points, bucket_count, dashboard, Period};
use schedule::text::trim;

fn lesson(subject: &str, teacher: &str, start_time: &str) -> Lesson {
    Lesson {
        groups: vec!["ИС11В".to_owned()],
        date: Date::from_ymd_opt(2026, 9, 28).unwrap(),
        weekday: "Понедельник".to_owned(),
        lesson_number: 1,
        start_time: start_time.to_owned(),
        end_time: "09:55".to_owned(),
        subject: subject.to_owned(),
        lesson_type: None,
        teacher: Some(teacher.to_owned()),
        room: Some("Удалённо".to_owned()),
        description: subject.to_owned(),
    }
}

#[test]
fn listing_sorts_and_is_stable() {
    let listed = sort_lessons(vec![
        lesson("Физика", "первый", "10:05"),
        lesson("Алгебра", "второй", "10:05"),
        lesson("Физика", "третий", "08:20"),
        lesson("Алгебра", "первый", "10:05"),
    ]);
    let order: Vec<(&str, &str)> = listed
        .iter()
        .map(|lesson| (lesson.subject.as_str(), lesson.teacher.as_deref().unwrap()))
        .collect();
    assert_eq!(
        order,
        [
            ("Физика", "третий"),
            ("Алгебра", "второй"),
            ("Алгебра", "первый"),
            ("Физика", "первый")
        ]
    );
}

#[test]
fn trimming_and_room_names_are_idempotent() {
    for text in [" дот ", "ДОТ", " 303/2\n", "", "Удалённо"] {
        assert_eq!(trim(&trim(text)), trim(text));
        let name = display_room_name(text);
        assert_eq!(display_room_name(&name), name);
        let lessons = [lesson("Физика", "первый", "10:05")];
        assert_eq!(
            for_room(&lessons, text).len(),
            for_room(&lessons, &name).len()
        );
    }
}

#[test]
fn texts_begin_with_their_headings() {
    let physics = lesson("Физика", "первый", "10:05");
    assert!(format_pretty(&[&physics], "Заголовок", true, true, true).starts_with("Заголовок · 28.09.2026\n"));
    assert!(format_pretty(&[], "Заголовок", true, true, false).starts_with("Заголовок\n"));
    assert!(format_schedule("Заголовок", &[physics], false).starts_with("Заголовок\n"));
}

#[test]
fn clock_seen_every_fifteen_seconds_finds_both_deliveries_once_a_minute() {
    let date = Date::from_ymd_opt(2026, 9, 28).unwrap();
    for shift in 0..15 {
        let due: Vec<DailyKind> = (0..5_759)
            .filter_map(|tick| {
                let second = shift + 15 * tick;
                due_daily_delivery(LocalTime { date, second }, false).map(|(_, kind)| kind)
            })
            .collect();
        assert_eq!(due.iter().filter(|kind| **kind == DailyKind::Today).count(), 4);
        assert_eq!(due.iter().filter(|kind| **kind == DailyKind::Tomorrow).count(), 4);
    }
}

#[test]
fn points_sum_to_their_series() {
    let values: Vec<u64> = (0..1_441).collect();
    for count in [1, 7, 120, 1_441] {
        let points = aggregate_points(&values, count);
        assert_eq!(points.len(), count);
        assert_eq!(points.iter().sum::<u64>(), values.iter().sum::<u64>());
    }
    assert_eq!(aggregate_points(&values, 1_441), values);
}

#[test]
fn overflowing_series_make_no_dashboard() {
    let moment = UtcMinute::from_timestamp(1_700_000_000).unwrap();
    let mut values = vec![None; 5 * bucket_count(Period::Hour)];
    values[0] = Some(u64::MAX);
    assert!(dashboard(Period::Hour, &values, 0, 0, moment).is_some());
    values[5] = Some(1);
    assert!(dashboard(Period::Hour, &values, 0, 0, moment).is_none());
}

#[test]
fn windows_keep_to_their_limit() {
    let mut limiter = RateLimiter::default();
    let second = 1_000_000_000u64;
    let allowed: Vec<u64> = (0..200)
        .map(|tick| tick * second / 2)
        .filter(|now| limiter.allow(1, 1, *now))
        .collect();
    for (index, start) in allowed.iter().enumerate() {
        let inside = allowed[index..]
            .iter()
            .filter(|now| **now - start < 10 * second)
            .count();
        assert!(inside <= 6);
    }
    assert_eq!(allowed.len(), 60);
}

#[test]
fn rows_go_on_under_the_same_room() {
    let row: Vec<String> = ["", "", "6", "17.25-19.00", " ", "303/2"]
        .iter()
        .map(|cell| (*cell).to_owned())
        .collect();
    let room = Some("303/2".to_owned());
    let date = Date::from_ymd_opt(2026, 9, 28);
    assert!(continues_lesson(&row, 4, &room, None, &room));
    assert!(!continues_lesson(&row, 4, &room, date, &room));
    assert!(!continues_lesson(&row, 4, &room, None, &None));
    assert!(!continues_lesson(&row, 4, &None, None, &None));
    assert!(!continues_lesson(&row, 3, &room, None, &room));
    let mut monday = row;
    monday[0] = "Понедельник".to_owned();
    assert!(!continues_lesson(&monday, 4, &room, None, &room));
}
