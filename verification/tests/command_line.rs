use schedule::cards::{
    card_picture, lesson_chips, wrap_chips, Card, LineWrapper, CHIP_GAP, CHIP_MARGIN, TEXT_WIDTH,
};
use schedule::date::Date;
use schedule::draw::Draw;
use schedule::files::{
    accepts_extension, default_table, file_extension, find_default_schedule, source_key,
    DefaultTableError,
};
use schedule::lesson::Lesson;
use schedule::pretty::{
    format_date_range, format_pretty, normalize_argument, parse_cli_date, select, Command,
};

fn lesson() -> Lesson {
    Lesson {
        groups: vec!["ИС11В".into()],
        date: Date::from_ymd_opt(2026, 9, 28).unwrap(),
        weekday: "Понедельник".into(),
        lesson_number: 1,
        start_time: "08:20".into(),
        end_time: "09:55".into(),
        subject: "Линейная алгебра".into(),
        lesson_type: Some("лек.+лек.".into()),
        teacher: Some("Петрова Э.А.".into()),
        room: Some("303/2".into()),
        description: "Линейная алгебра (лек.+лек.) Петрова Э.А.".into(),
    }
}

#[test]
fn pretty_group_output_keeps_group_in_heading() {
    let lesson = lesson();
    let output = format_pretty(&[&lesson], "📚 Расписание группы ИС11В", false, true, true);
    assert_eq!(output.matches("ИС11В").count(), 1);
    assert!(output.contains("🗓️ Понедельник"));
    assert!(output.contains("📍 303/2"));
}

#[test]
fn pretty_room_output_keeps_room_in_heading() {
    let lesson = lesson();
    let output = format_pretty(
        &[&lesson],
        "🏫 Расписание в аудитории 303/2",
        true,
        false,
        true,
    );
    assert_eq!(output.matches("303/2").count(), 1);
    assert!(output.contains("👥 ИС11В"));
}

#[test]
fn pretty_day_output_does_not_repeat_the_date() {
    let lesson = lesson();
    let output = format_pretty(
        &[&lesson],
        "📅 Расписание на 28.09.2026 · Понедельник",
        true,
        true,
        false,
    );
    assert_eq!(output.matches("28.09.2026").count(), 1);
    assert!(output.contains("🕒 08:20–09:55"));
}

#[test]
fn queries_select_lessons_and_headings() {
    let mut other = lesson();
    other.groups = vec!["КТО11В".into()];
    other.room = Some("Удалённо".into());
    other.date = Date::from_ymd_opt(2026, 9, 29).unwrap();
    other.weekday = "Вторник".into();
    let lessons = [lesson(), other];
    let week = select(
        &lessons,
        &Command::Week {
            group: "ИС11В".into(),
        },
    )
    .unwrap();
    assert_eq!(week.title, "Расписание группы ИС11В");
    assert_eq!(week.pretty_heading, "📚 Расписание группы ИС11В");
    assert_eq!(week.lessons.len(), 1);
    assert!(!week.show_groups && week.show_rooms && week.show_day_headings);
    let room = select(&lessons, &Command::Room { room: "дот".into() }).unwrap();
    assert_eq!(room.title, "Расписание: Удалённо");
    assert_eq!(room.lessons[0].groups, ["КТО11В"]);
    assert!(room.show_groups && !room.show_rooms && room.show_day_headings);
    for date in ["29.09.2026", "2026-09-29"] {
        let day = select(&lessons, &Command::Day { date: date.into() }).unwrap();
        assert_eq!(day.title, "Расписание на 2026-09-29");
        assert_eq!(day.pretty_heading, "📅 Расписание на 29.09.2026 · Вторник");
        assert_eq!(day.lessons.len(), 1);
        assert!(day.show_groups && day.show_rooms && !day.show_day_headings);
    }
}

#[test]
fn queries_without_lessons_are_refused() {
    let lessons = [lesson()];
    let refused = |command: Command| select(&lessons, &command).unwrap_err();
    assert_eq!(
        refused(Command::Week { group: "X".into() }),
        "группа `X` не найдена или в расписании нет занятий"
    );
    assert_eq!(
        refused(Command::Room { room: "ДОТ".into() }),
        "в аудитории `Удалённо` нет занятий"
    );
    assert_eq!(
        refused(Command::Day {
            date: "01.01.2026".into()
        }),
        "на 2026-01-01 нет занятий"
    );
    assert_eq!(
        refused(Command::Day {
            date: "завтра".into()
        }),
        "неверная дата `завтра`; используйте ДД.ММ.ГГГГ или ГГГГ-ММ-ДД"
    );
    assert_eq!(parse_cli_date("31.02.2026"), None);
    assert_eq!(parse_cli_date("2026-02-28"), Date::from_ymd_opt(2026, 2, 28));
}

#[test]
fn ranges_are_written_briefly() {
    let date = |year, month, day| Date::from_ymd_opt(year, month, day).unwrap();
    assert_eq!(
        format_date_range(date(2026, 9, 8), date(2026, 9, 8)),
        "08.09.2026"
    );
    assert_eq!(
        format_date_range(date(2026, 9, 8), date(2026, 9, 14)),
        "8–14.9.2026"
    );
    assert_eq!(
        format_date_range(date(2026, 9, 28), date(2026, 10, 4)),
        "28.09.2026–04.10.2026"
    );
}

#[test]
fn pretty_may_be_spelled_with_one_dash() {
    assert_eq!(normalize_argument("-pretty"), "--pretty");
    assert_eq!(normalize_argument("--pretty"), "--pretty");
    assert_eq!(normalize_argument("-p"), "-p");
    assert_eq!(normalize_argument("-json"), "-json");
}

#[test]
fn extensions_are_those_of_paths() {
    for path in [
        "", "a", "a.xls", "a.b.XLSX", ".xls", "..xls", "a.", "dir.x/a", "dir/a.xlsb", "a.xls/", "a.xls/.",
        "a.xls/..", "/", "./a.xls", "a..xls", "x/.a.b",
    ] {
        let expected = std::path::Path::new(path)
            .extension()
            .map(|extension| extension.to_str().unwrap().to_owned());
        assert_eq!(file_extension(path), expected, "{path:?}");
    }
    assert!(accepts_extension("xls") && accepts_extension("xlsx") && accepts_extension("xlsb"));
    assert!(!accepts_extension("ods") && !accepts_extension("XLS") && !accepts_extension(""));
    assert_eq!(
        source_key(10, "xls"),
        "schedule-sources/00000000-0000-0000-0000-00000000000a.xls"
    );
}

#[test]
fn one_table_is_found_by_default() {
    let find = |paths: &[&str]| {
        find_default_schedule(&paths.iter().map(|path| (*path).to_owned()).collect())
    };
    assert!(default_table("tables/week.XLS") && default_table("week.xlsx"));
    assert!(!default_table("week.xlsb") && !default_table("xls"));
    assert_eq!(find(&["tables/readme.md", "tables/week.xls"]), Ok(1));
    assert_eq!(find(&["tables/readme.md"]), Err(DefaultTableError::NoneFound));
    assert_eq!(
        find(&["a.xls", "b.txt", "c.xlsx"]),
        Err(DefaultTableError::SeveralFound)
    );
    assert_eq!(
        DefaultTableError::SeveralFound.message(),
        "в папке tables несколько расписаний; укажите нужное через --input"
    );
}

#[test]
fn chips_stand_in_rows() {
    let labels: Vec<String> = lesson_chips(&lesson())
        .into_iter()
        .map(|chip| chip.label)
        .collect();
    assert_eq!(
        labels,
        ["Вид: лек.+лек.", "Преподаватель: Петрова Э.А.", "Аудитория: 303/2"]
    );
    let width = 100 - CHIP_MARGIN;
    assert_eq!(wrap_chips(&vec![width; 3], 2 * 100 + CHIP_GAP), [2, 1]);
    assert_eq!(wrap_chips(&vec![width; 3], 2 * 100 + CHIP_GAP - 1), [1, 1, 1]);
    assert_eq!(wrap_chips(&vec![5_000, 1], 100), [1, 1]);
    assert!(wrap_chips(&Vec::new(), 100).is_empty());
}

#[test]
fn lines_are_wrapped_at_words() {
    let wrap = |text: &str, letter: u32| {
        let mut wrapper = LineWrapper::new();
        for word in text.split_whitespace() {
            let width = wrapper.candidate(word).chars().count() as u32 * letter;
            wrapper = wrapper.push(word, width);
        }
        wrapper.finish()
    };
    assert_eq!(
        wrap("Основы инклюзивной культуры", TEXT_WIDTH / 18),
        ["Основы инклюзивной", "культуры"]
    );
    assert_eq!(wrap("слово", TEXT_WIDTH), ["слово"]);
    assert_eq!(wrap("раз два", 1), ["раз два"]);
    assert!(wrap(" ", 1).is_empty());
    let text = "один два три четыре пять";
    let letter = TEXT_WIDTH / 9;
    let lines = wrap(text, letter);
    assert_eq!(lines, ["один два", "три", "четыре", "пять"]);
    assert_eq!(lines.join(" "), text);
    for (line, next) in lines.iter().zip(&lines[1..]) {
        assert!(line.chars().count() as u32 * letter <= TEXT_WIDTH);
        assert!((line.chars().count() + 1 + next.chars().count()) as u32 * letter > TEXT_WIDTH);
    }
    let open = LineWrapper::new().push("один", 0);
    assert_eq!(open.push("два", TEXT_WIDTH).finish(), ["один два"]);
    let open = LineWrapper::new().push("один", 0);
    assert_eq!(open.push("два", TEXT_WIDTH + 1).finish(), ["один", "два"]);
}

#[test]
fn pictures_hold_a_card_for_each_lesson() {
    let lesson = lesson();
    let card = || Card {
        lines: vec!["Линейная алгебра".into()],
        label_widths: vec![100, 200, 150],
    };
    let (height, plan) = card_picture(&[&lesson, &lesson], "Заголовок", &vec![card(), card()]).unwrap();
    // A title, one day, and two cards of one line and one row of chips.
    assert_eq!(height, 160 + 54 + 2 * (50 + 31 + 38 + 16) + 48);
    let texts: Vec<&str> = plan
        .iter()
        .filter_map(|draw| match draw {
            Draw::Text { text, .. } => Some(text.as_str()),
            _ => None,
        })
        .collect();
    assert_eq!(texts[0], "Заголовок");
    assert_eq!(texts.iter().filter(|text| **text == "Линейная алгебра").count(), 2);
    assert_eq!(texts.iter().filter(|text| **text == "Аудитория: 303/2").count(), 2);
    for draw in &plan {
        if let Draw::Text { y, .. } = draw {
            assert!((*y as u32) < height);
        }
    }
    assert!(card_picture(&[&lesson], "Заголовок", &Vec::new()).is_none());
    let wrong = Card {
        lines: Vec::new(),
        label_widths: vec![TEXT_WIDTH],
    };
    assert!(card_picture(&[&lesson], "Заголовок", &vec![wrong]).is_none());
}

#[test]
fn wide_labels_stand_alone() {
    let lesson = lesson();
    let picture = |width: u32| {
        let card = Card {
            lines: Vec::new(),
            label_widths: vec![100, width, 150],
        };
        card_picture(&[&lesson], "Заголовок", &vec![card])
    };
    let (height, plan) = picture(1_000_001).unwrap();
    assert_eq!(height, 160 + 54 + (50 + 3 * 38 + 16) + 48);
    assert!(plan.iter().any(|draw| matches!(
        draw,
        Draw::FilledRect { x: 79, width: 999_999, .. }
    )));
    let widest = i32::MAX as u32 - 64 - CHIP_MARGIN;
    assert!(picture(widest).is_some());
    assert!(picture(widest + 1).is_none());
    assert!(picture(3).is_some());
    assert!(picture(2).is_none());
}
