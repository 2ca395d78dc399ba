use schedule::action::{keyboard_rows, menu_rows, Keyboard};
use schedule::date::Date;
use schedule::domain::{ScheduleDiff, UpdateKind};
use schedule::format::{format_daily_delivery, format_schedule, weekday_ru, DailyKind};
use schedule::identity::id_text;
use schedule::lesson::Lesson;
use schedule::parts::{lines, message_parts, PART_LIMIT};
use schedule::stats::Period;
use schedule::store::{
    clip_error, lesson_number, notification_text, parse_update_kind, preview_message,
    publication_message, search_column, search_pattern, stored_number, Publication, QueuedMessage,
    UploadPreview,
};

fn date(year: i32, month: u32, day: u32) -> Date {
    Date::from_ymd_opt(year, month, day).unwrap()
}

fn lesson(day: u32, room: Option<&str>) -> Lesson {
    Lesson {
        groups: vec!["ИС11В".to_owned(), "КТО11В".to_owned()],
        date: date(2026, 9, day),
        weekday: "Понедельник".to_owned(),
        lesson_number: 1,
        start_time: "08:20".to_owned(),
        end_time: "09:55".to_owned(),
        subject: "Алгебра".to_owned(),
        lesson_type: Some("лек.".to_owned()),
        teacher: None,
        room: room.map(str::to_owned),
        description: "Алгебра".to_owned(),
    }
}

#[test]
fn gives_tomorrow_delivery_a_clear_heading() {
    let message = format_daily_delivery(
        "ИС31В",
        Date::from_ymd_opt(2026, 9, 26).unwrap(),
        DailyKind::Tomorrow,
        &[],
    );
    assert!(message.starts_with("🌙 План на завтра · суббота · 26.09.2026"));
    assert!(message.contains("📚 Группа ИС31В"));
    assert!(message.contains("📭 По опубликованному расписанию занятий нет."));
}

#[test]
fn gives_today_delivery_a_clear_heading() {
    let message = format_daily_delivery(
        "ИС31В",
        Date::from_ymd_opt(2026, 9, 25).unwrap(),
        DailyKind::Today,
        &[],
    );
    assert!(message.starts_with("☀️ Доброе утро! Расписание на сегодня · пятница · 25.09.2026"));
}

#[test]
fn timetable_is_written_line_by_line() {
    let lessons = [lesson(28, Some("101")), lesson(28, None), lesson(29, None)];
    assert_eq!(
        format_schedule("Заголовок", &lessons, true),
        "Заголовок\n━━━━━━━━━━━━━━━━\n\
         \n🗓️ Понедельник · 28.09.2026\n🕒 08:20–09:55 · пара №1\n👥 ИС11В, КТО11В\n📖 Алгебра\n🧩 лек. · 📍 101\n\
         \n🕒 08:20–09:55 · пара №1\n👥 ИС11В, КТО11В\n📖 Алгебра\n🧩 лек.\n\
         \n\n🗓️ Понедельник · 29.09.2026\n🕒 08:20–09:55 · пара №1\n👥 ИС11В, КТО11В\n📖 Алгебра\n🧩 лек.\n\
         \n✨ Всего пар: 3"
    );
    assert_eq!(
        format_schedule("Пусто", &[], false),
        "Пусто\n━━━━━━━━━━━━━━━━\n✨ Всего пар: 0"
    );
    let delivery =
        format_daily_delivery("ИС11В", date(2026, 9, 28), DailyKind::Today, &lessons[..1]);
    assert!(delivery.starts_with(
        "☀️ Доброе утро! Расписание на сегодня · понедельник · 28.09.2026\n📚 Группа ИС11В\n━"
    ));
    assert!(delivery.ends_with("✨ Всего пар: 1"));
}

#[test]
fn weekdays_have_russian_names() {
    let names: Vec<&str> = (0..7).map(weekday_ru).collect();
    assert_eq!(
        names,
        vec!["понедельник", "вторник", "среда", "четверг", "пятница", "суббота", "воскресенье"]
    );
    assert_eq!(DailyKind::Today.as_str(), "today");
    assert_eq!(DailyKind::Tomorrow.as_str(), "tomorrow");
}

#[test]
fn lines_end_at_line_feeds() {
    for text in ["", "a", "a\n", "\n", "a\r\nb\rc\n\nd\r", "\n\na"] {
        let expected: Vec<&str> = text.lines().collect();
        assert_eq!(lines(text), expected);
    }
}

#[test]
fn long_texts_are_cut_into_messages() {
    let line = "ы".repeat(1_000);
    let text = format!("{line}\n{line}\n{line}");
    // A thousand two-byte letters and a line feed twice over are too much for one message.
    assert_eq!(message_parts(&text), vec![line.clone(), line.clone(), line]);
    assert_eq!(message_parts("один\nдва"), vec!["один\nдва"]);
    assert_eq!(message_parts(""), Vec::<String>::new());
    assert_eq!(message_parts("\nодин"), vec!["один"]);
}

#[test]
fn very_long_lines_are_cut_into_pieces() {
    let long = "я".repeat(4_000);
    let text = format!("начало\n{long}\nконец");
    let parts = message_parts(&text);
    assert_eq!(parts.len(), 5);
    assert_eq!(parts[0], "начало");
    assert_eq!(parts[1].len(), 3_500);
    assert_eq!(parts[3].len(), 1_000);
    assert_eq!(parts[4], "конец");
    for part in &parts {
        assert!(!part.is_empty() && part.len() <= PART_LIMIT);
    }
    let kept: String = parts.concat();
    assert_eq!(kept, text.replace('\n', ""));
}

#[test]
fn line_of_the_limit_is_kept_whole() {
    let full = "x".repeat(PART_LIMIT);
    assert_eq!(message_parts(&full), vec![full.clone()]);
    let more = "x".repeat(PART_LIMIT + 1);
    assert_eq!(message_parts(&more).len(), 2);
}

fn diff() -> ScheduleDiff {
    ScheduleDiff {
        changed_groups: vec!["ИС11В".to_owned(), "КТО11В".to_owned()],
        changed_dates: vec![date(2026, 9, 28), date(2026, 9, 30)],
        added: 3,
        removed: 2,
    }
}

fn nothing() -> ScheduleDiff {
    ScheduleDiff {
        changed_groups: Vec::new(),
        changed_dates: Vec::new(),
        added: 0,
        removed: 0,
    }
}

#[test]
fn students_are_told_of_publications() {
    let (start, end) = (date(2026, 9, 28), date(2026, 10, 4));
    assert_eq!(
        notification_text(UpdateKind::NewWeek, start, end, &diff()),
        "🆕 Опубликовано расписание на новую неделю: 28.09–04.10.2026. Нажмите «На неделю», чтобы посмотреть пары."
    );
    assert_eq!(
        notification_text(UpdateKind::Correction, start, end, &diff()),
        "🔄 Обновлено расписание на неделю 28.09–04.10.2026. Изменены дни: 28.09, 30.09. Добавлено пар: 3, удалено пар: 2."
    );
}

#[test]
fn administrators_are_asked_and_told() {
    let preview = |kind: UpdateKind, diff: ScheduleDiff| UploadPreview {
        id: 1,
        week_start: date(2026, 9, 28),
        week_end: date(2026, 10, 4),
        kind,
        diff,
    };
    assert_eq!(
        preview_message(&preview(UpdateKind::Correction, diff())),
        "🔄 Актуализация существующей недели\nПериод: 28.09.2026–04.10.2026\nЗатронутые группы: ИС11В, КТО11В\nИзменённые дни: 28.09, 30.09\nДобавлено пар: 3, удалено пар: 2\n\nОпубликовать это расписание?"
    );
    assert_eq!(
        preview_message(&preview(UpdateKind::NewWeek, nothing())),
        "🆕 Новая неделя\nПериод: 28.09.2026–04.10.2026\nЗатронутые группы: —\nИзменённые дни: —\nДобавлено пар: 0, удалено пар: 0\n\nОпубликовать это расписание?"
    );
    let publication = |kind: UpdateKind| Publication {
        week_start: date(2026, 9, 28),
        week_end: date(2026, 10, 4),
        kind,
        diff: diff(),
    };
    assert_eq!(
        publication_message(&publication(UpdateKind::NewWeek)),
        "✅ Новая неделя опубликована: 28.09–04.10.2026. Уведомления студентам поставлены в очередь."
    );
    assert_eq!(
        publication_message(&publication(UpdateKind::Correction)),
        "✅ Расписание актуализировано на 28.09–04.10.2026. Изменены дни: 28.09, 30.09. Уведомления поставлены в очередь."
    );
}

#[test]
fn stored_values_are_read_back() {
    for kind in [UpdateKind::NewWeek, UpdateKind::Correction] {
        assert_eq!(parse_update_kind(kind.as_str()), Some(kind));
    }
    assert_eq!(parse_update_kind("draft"), None);
    for number in 0..=255u8 {
        assert_eq!(lesson_number(stored_number(number)), number);
    }
    for number in [-300i16, -1, 256, i16::MIN, i16::MAX] {
        assert_eq!(lesson_number(number), number as u8);
    }
    assert_eq!(clip_error("коротко"), "коротко");
    assert_eq!(clip_error(&"ж".repeat(501)), "ж".repeat(500));
    let message = QueuedMessage {
        id: 1,
        chat_id: 2,
        body: "текст".to_owned(),
    };
    assert_eq!(message.clone().body, "текст");
}

#[test]
fn searches_look_at_one_column() {
    assert_eq!(search_column("teacher"), "teacher");
    assert_eq!(search_column("room"), "room");
    assert_eq!(search_column("anything"), "room");
    assert_eq!(search_pattern("teacher", "дот"), "%дот%");
    assert_eq!(search_pattern("room", " ДОТ "), "%Удалённо%");
    assert_eq!(search_pattern("room", "303"), "%303%");
}

#[test]
fn keyboards_have_their_buttons() {
    let rows = |keyboard: Keyboard| -> Vec<Vec<(String, String)>> {
        keyboard_rows(keyboard)
            .into_iter()
            .map(|row| row.into_iter().map(|button| (button.label, button.data)).collect())
            .collect()
    };
    let pair = |label: &str, data: &str| (label.to_owned(), data.to_owned());
    assert_eq!(
        rows(Keyboard::ConfirmGroup),
        vec![vec![pair("✅ Да", "group:yes"), pair("❌ Нет", "group:no")]]
    );
    assert_eq!(
        rows(Keyboard::Search),
        vec![
            vec![pair("👩‍🏫 Преподаватель", "search:teacher")],
            vec![pair("🏫 Аудитория", "search:room")]
        ]
    );
    assert_eq!(
        rows(Keyboard::Stats(Period::Hour)),
        vec![
            vec![pair("30 мин", "stats:30m"), pair("✅ 1 час", "stats:1h")],
            vec![pair("24 часа", "stats:24h"), pair("7 дней", "stats:7d")]
        ]
    );
    assert_eq!(
        rows(Keyboard::Upload(7)),
        vec![vec![
            pair(
                "✅ Подтвердить публикацию",
                &format!("upload:confirm:{}", id_text(7))
            ),
            pair("Отмена", &format!("upload:cancel:{}", id_text(7)))
        ]]
    );
    assert_eq!(
        menu_rows(),
        vec![
            vec!["📅 Сегодня", "🗓️ На неделю"],
            vec!["🔎 Расширенный поиск"],
            vec!["🔔 Уведомления"]
        ]
    );
}
