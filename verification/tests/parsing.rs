use schedule::date::Date;
use schedule::domain::validate_schedule;
use schedule::lesson::{sort_lessons, Lesson};
use schedule::parser::{
    cell_text, contains_kind, display_room_name, for_date, for_group, for_room, is_weekday, non_empty,
    parse_date, parse_description, parse_time, parse_workbook, room_label, split_description,
    split_groups, Cell, ParseError,
};
use schedule::workbook::ReadError;

fn date(year: i32, month: u32, day: u32) -> Date {
    Date::from_ymd_opt(year, month, day).unwrap()
}

fn text(value: &str) -> Cell {
    Cell::Text(value.to_owned())
}

fn row(cells: &[&str]) -> Vec<Cell> {
    cells
        .iter()
        .map(|cell| if cell.is_empty() { Cell::Empty } else { text(cell) })
        .collect()
}

/// A sheet in the layout of a faculty's workbook: the day, the date, the number and the time of a
/// pair, then a subject and a room for each group.
fn sheet() -> Vec<Vec<Cell>> {
    vec![
        row(&["Расписание занятий"]),
        row(&["День", "Дата", "Пара", "Время", "ИС11В", "", "ОЗМ21В/ОЗЭ21В", ""]),
        row(&["", "", "", "", "Дисциплина", "Ауд.", "Дисциплина", "Ауд."]),
        row(&[
            "Понедельник",
            "28.09.2026",
            "5",
            "15.40-17.15",
            "Основы инклюзивной культуры (пр.+пр.) доц. Усова И.В.",
            "303/2",
            "",
            "",
        ]),
        row(&["", "", "6", "17.25-19.00", "", "303/2", "Иностранный язык (пр.) Смирнова А.А.", "ДОТ"]),
        row(&["Вторник", "2026-09-29", "1", "8.20-9.55", "", "", "Физическая культура", "Спортзал"]),
        row(&["", "", "нет", "10.05-11.40", "Без номера", "1", "", ""]),
        row(&["", "", "2", "когда-нибудь", "Без времени", "1", "", ""]),
    ]
}

fn lessons() -> Vec<Lesson> {
    parse_workbook(Ok(vec![vec![row(&["Оглавление"])], sheet()])).unwrap()
}

#[test]
fn parses_lesson_description() {
    let (subject, kind, teacher) = parse_description(
        "Основы инклюзивной культуры (ИС11В, КТО11В) (пр.+пр.) доц. Усова И.В.",
    );
    assert_eq!(subject, "Основы инклюзивной культуры");
    assert_eq!(kind.as_deref(), Some("пр.+пр."));
    assert_eq!(teacher.as_deref(), Some("доц. Усова И.В."));
}

#[test]
fn normalizes_time() {
    assert_eq!(
        parse_time("08.20-09.55 "),
        Some(("08:20".into(), "09:55".into()))
    );
}

#[test]
fn recognizes_joint_group_headers() {
    assert_eq!(split_groups("ОЗМ21В/ОЗЭ21В"), vec!["ОЗМ21В", "ОЗЭ21В"]);
}

#[test]
fn labels_dot_as_remote() {
    assert_eq!(display_room_name("ДОТ"), "Удалённо");
    assert_eq!(display_room_name(" дот "), "Удалённо");
    assert_eq!(display_room_name("303/2"), "303/2");
}

#[test]
fn remote_room_can_be_queried_by_either_label() {
    let lesson = Lesson {
        groups: vec!["ИС11В".into()],
        date: Date::from_ymd_opt(2026, 9, 28).unwrap(),
        weekday: "Понедельник".into(),
        lesson_number: 1,
        start_time: "08:20".into(),
        end_time: "09:55".into(),
        subject: "Тест".into(),
        lesson_type: None,
        teacher: None,
        room: Some(display_room_name("ДОТ")),
        description: "Тест".into(),
    };
    assert_eq!(for_room(std::slice::from_ref(&lesson), "ДОТ").len(), 1);
    assert_eq!(for_room(std::slice::from_ref(&lesson), "Удалённо").len(), 1);
}

#[test]
fn consecutive_pairs_of_one_subject_are_separate_lessons() {
    let lessons = lessons();
    let group_lessons = for_group(&lessons, "ИС11В");
    assert_eq!(group_lessons.len(), 2);
    let first = group_lessons[0];
    assert_eq!(first.date, date(2026, 9, 28));
    assert_eq!(first.weekday, "Понедельник");
    assert_eq!(first.lesson_number, 5);
    assert_eq!(first.start_time, "15:40");
    assert_eq!(first.end_time, "17:15");
    assert_eq!(first.subject, "Основы инклюзивной культуры");
    assert_eq!(first.lesson_type.as_deref(), Some("пр.+пр."));
    assert_eq!(first.teacher.as_deref(), Some("доц. Усова И.В."));
    assert_eq!(first.room.as_deref(), Some("303/2"));
    let second = group_lessons[1];
    assert_eq!(second.subject, first.subject);
    assert_eq!(second.lesson_number, 6);
    assert_eq!(second.start_time, "17:25");
    assert_eq!(second.end_time, "19:00");
}

#[test]
fn rooms_and_days_select_lessons() {
    let lessons = lessons();
    assert_eq!(lessons.len(), 4);
    assert_eq!(for_room(&lessons, " 303/2 ").len(), 2);
    assert_eq!(for_room(&lessons, "дот")[0].subject, "Иностранный язык");
    assert_eq!(for_room(&lessons, "спортзал").len(), 0);
    assert_eq!(for_room(&lessons, "Спортзал").len(), 1);
    let tuesday = for_date(&lessons, date(2026, 9, 29));
    assert_eq!(tuesday.len(), 1);
    assert_eq!(tuesday[0].subject, "Физическая культура");
    assert_eq!(tuesday[0].lesson_type, None);
    assert_eq!(tuesday[0].start_time, "08:20");
    assert!(for_date(&lessons, date(2026, 9, 30)).is_empty());
}

#[test]
fn joint_headers_give_every_group_the_lesson() {
    let lessons = lessons();
    assert_eq!(for_group(&lessons, "ОЗЭ21В").len(), 2);
    assert_eq!(for_group(&lessons, "ОЗМ21В").len(), 2);
    assert_eq!(for_group(&lessons, "ОЗЭ21В")[0].groups, vec!["ОЗМ21В", "ОЗЭ21В"]);
}

#[test]
fn read_lessons_can_be_published() {
    let (start, end) = validate_schedule(&lessons()).unwrap();
    assert_eq!(start, date(2026, 9, 28));
    assert_eq!(end, date(2026, 10, 4));
}

#[test]
fn room_of_another_pair_ends_a_lesson() {
    let mut rows = sheet();
    rows[4][5] = text("304");
    let lessons = parse_workbook(Ok(vec![rows])).unwrap();
    assert_eq!(for_group(&lessons, "ИС11В").len(), 1);
}

#[test]
fn rows_without_a_number_prolong_the_lesson_before_them() {
    let mut rows = sheet();
    let ends = |rows: Vec<Vec<Cell>>| {
        let lessons = parse_workbook(Ok(vec![rows])).unwrap();
        for_group(&lessons, "ИС11В")
            .iter()
            .map(|lesson| (lesson.lesson_number, lesson.start_time.clone(), lesson.end_time.clone()))
            .collect::<Vec<_>>()
    };
    let pair = |number: u8, start: &str, end: &str| (number, start.to_owned(), end.to_owned());
    // After the first pair, and before the second.
    rows.insert(4, row(&["", "", "", "17.15-17.20", "", "303/2", "", ""]));
    assert_eq!(
        ends(rows.clone()),
        [pair(5, "15:40", "17:20"), pair(6, "17:25", "19:00")]
    );
    // After the second pair; a row without a time changes nothing, the last time counts.
    rows.insert(6, row(&["", "", "0", "19.00-19.30", "", "303/2", "", ""]));
    rows.insert(7, row(&["", "", "7", "", "", "303/2", "", ""]));
    rows.insert(8, row(&["", "", "", "19.30-20.00", "", "303/2", "", ""]));
    assert_eq!(
        ends(rows.clone()),
        [pair(5, "15:40", "17:20"), pair(6, "17:25", "20:00")]
    );
    // In another room the lesson does not go on.
    rows[6][5] = text("304");
    assert_eq!(
        ends(rows),
        [pair(5, "15:40", "17:20"), pair(6, "17:25", "19:00")]
    );
}

#[test]
fn workbooks_without_timetables_are_refused() {
    let nothing = parse_workbook(Ok(vec![vec![row(&["День", "Дата", "Пара", "Время"])]]));
    assert!(matches!(nothing, Err(ParseError::NoScheduleSheets)));
    assert_eq!(
        nothing.unwrap_err().message(),
        "в файле не найдено листов с таблицами расписания"
    );
    let broken = parse_workbook(Err(ReadError::Unreadable("повреждён".to_owned())));
    assert_eq!(
        broken.unwrap_err().message(),
        "не удалось прочитать расписание: повреждён"
    );
    let broken_off = parse_workbook(Err(ReadError::BrokenOff));
    assert_eq!(broken_off, Err(ParseError::BrokenOff));
    assert_eq!(
        broken_off.unwrap_err().message(),
        "задача парсинга завершилась аварийно"
    );
}

#[test]
fn timetable_without_lessons_is_empty() {
    let rows = vec![row(&["День", "Дата", "Пара", "Время", "ИС11В"])];
    assert!(parse_workbook(Ok(vec![rows])).unwrap().is_empty());
}

#[test]
fn lessons_are_listed_by_date_time_groups_and_subject() {
    let base = &lessons()[0];
    let with = |day: u32, start: &str, group: &str, subject: &str, number: u8| Lesson {
        date: date(2026, 9, day),
        start_time: start.to_owned(),
        groups: vec![group.to_owned()],
        subject: subject.to_owned(),
        lesson_number: number,
        ..base.clone()
    };
    let sorted = sort_lessons(vec![
        with(29, "08:20", "А", "Я", 1),
        with(28, "10:05", "А", "А", 2),
        with(28, "08:20", "Б", "А", 3),
        with(28, "08:20", "А", "Б", 4),
        with(28, "08:20", "А", "А", 5),
        with(28, "08:20", "А", "А", 6),
    ]);
    let numbers: Vec<u8> = sorted.iter().map(|lesson| lesson.lesson_number).collect();
    // Lessons that are alike keep their order.
    assert_eq!(numbers, vec![5, 6, 4, 3, 2, 1]);
}

#[test]
fn cells_are_read_as_trimmed_text() {
    assert_eq!(cell_text(&Cell::Empty), "");
    assert_eq!(cell_text(&text("  День ")), "День");
    assert_eq!(cell_text(&Cell::Value(" 5".to_owned())), "5");
}

#[test]
fn weekdays_are_spelled_out() {
    for name in [
        "Понедельник",
        "Вторник",
        "Среда",
        "Четверг",
        "Пятница",
        "Суббота",
        "Воскресенье",
    ] {
        assert!(is_weekday(name));
    }
    assert!(!is_weekday("понедельник"));
    assert!(!is_weekday(""));
}

#[test]
fn dates_are_read_in_two_forms() {
    assert_eq!(parse_date(" 28.09.2026 "), Some(date(2026, 9, 28)));
    assert_eq!(parse_date("2026-09-28"), Some(date(2026, 9, 28)));
    assert_eq!(parse_date("31.02.2026"), None);
    assert_eq!(parse_date("завтра"), None);
}

#[test]
fn times_without_two_clocks_are_refused() {
    assert_eq!(parse_time("08.20"), None);
    assert_eq!(parse_time("08:20-09:55"), None);
    assert_eq!(
        parse_time("8.5 - 9.5"),
        Some(("08:05".into(), "09:05".into()))
    );
}

#[test]
fn descriptions_without_a_kind_are_subjects() {
    assert_eq!(
        parse_description(" История (ИС11В) "),
        ("История (ИС11В)".to_owned(), None, None)
    );
    assert_eq!(
        parse_description("Физика (ЛЕК.)"),
        ("Физика".to_owned(), Some("ЛЕК.".to_owned()), None)
    );
    assert_eq!(parse_description("Химия (лек"), ("Химия (лек".to_owned(), None, None));
    // Positions are those of characters: the brackets of `История (лек.) Иванов`.
    assert_eq!(
        split_description("История (лек.) Иванов", 8, 13),
        (
            "История".to_owned(),
            Some("лек.".to_owned()),
            Some("Иванов".to_owned())
        )
    );
}

#[test]
fn kinds_are_recognized_by_their_beginnings() {
    for kind in ["лек", "пр", "лаб", "сем", "конс", "экз", "зач"] {
        assert!(contains_kind(kind));
    }
    assert!(!contains_kind("ис11в"));
}

#[test]
fn rooms_are_trimmed_and_labelled() {
    assert_eq!(room_label("303/2".to_owned(), "303/2"), "303/2");
    assert_eq!(room_label("Дот".to_owned(), "дот"), "Удалённо");
    assert_eq!(display_room_name(&display_room_name("ДОТ")), "Удалённо");
    assert_eq!(non_empty("  "), None);
    assert_eq!(non_empty(" a "), Some("a".to_owned()));
}
