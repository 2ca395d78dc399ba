use schedule::date::Date;
use schedule::domain::{
    compare_schedules, validate_schedule, ScheduleDiff, ScheduleError, UpdateKind,
};
use schedule::lesson::Lesson;
use schedule::store::Publication;
use schedule::upload::{
    all_groups, next_confirm, next_preview, ConfirmError, ConfirmReply, ConfirmStep, PendingUpload,
    PreviewReply, PreviewStep, UploadError,
};

fn day(year: i32, month: u32, day: u32) -> Date {
    Date::from_ymd_opt(year, month, day).unwrap()
}

fn lesson(date: (i32, u32, u32), subject: &str, groups: &[&str]) -> Lesson {
    Lesson {
        groups: groups.iter().map(|group| (*group).to_owned()).collect(),
        date: Date::from_ymd_opt(date.0, date.1, date.2).unwrap(),
        weekday: "Понедельник".to_owned(),
        lesson_number: 1,
        start_time: "08:20".to_owned(),
        end_time: "09:55".to_owned(),
        subject: subject.to_owned(),
        lesson_type: Some("лек.".to_owned()),
        teacher: Some("Преподаватель".to_owned()),
        room: Some("101".to_owned()),
        description: subject.to_owned(),
    }
}

#[test]
fn identifies_monday_to_sunday_schedule_range() {
    let (start, end) = validate_schedule(&[
        lesson((2026, 9, 29), "Алгебра", &["ИС11В"]),
        lesson((2026, 10, 3), "Физика", &["ИС11В"]),
    ])
    .unwrap();
    assert_eq!(start, Date::from_ymd_opt(2026, 9, 28).unwrap());
    assert_eq!(end, Date::from_ymd_opt(2026, 10, 4).unwrap());
}

#[test]
fn rejects_data_spanning_two_calendar_weeks() {
    let result = validate_schedule(&[
        lesson((2026, 9, 28), "Алгебра", &["ИС11В"]),
        lesson((2026, 10, 5), "Физика", &["ИС11В"]),
    ]);
    assert!(result.is_err());
}

#[test]
fn finds_changed_groups_and_days() {
    let old = [lesson((2026, 9, 28), "Алгебра", &["ИС11В", "КТО11В"])];
    let new = [lesson((2026, 9, 28), "Геометрия", &["ИС11В", "КТО11В"])];
    let diff = compare_schedules(&old, &new);
    assert_eq!(diff.changed_groups, ["ИС11В", "КТО11В"]);
    assert_eq!(
        diff.changed_dates,
        [Date::from_ymd_opt(2026, 9, 28).unwrap()]
    );
    assert_eq!((diff.added, diff.removed), (2, 2));
}

#[test]
fn timetables_are_checked() {
    assert_eq!(validate_schedule(&[]), Err(ScheduleError::Empty));
    assert_eq!(
        ScheduleError::Empty.message(),
        "в файле не найдено ни одной пары"
    );
    let good = || lesson((2026, 9, 28), "Алгебра", &["ИС11В"]);
    let mut incomplete = vec![good(), good(), good(), good()];
    incomplete[0].groups.clear();
    incomplete[1].groups.push(" ".to_owned());
    incomplete[2].subject = "\t".to_owned();
    incomplete[3].lesson_number = 0;
    for one in incomplete {
        assert_eq!(
            validate_schedule(&[good(), one]),
            Err(ScheduleError::Incomplete)
        );
    }
    assert_eq!(
        validate_schedule(&[
            lesson((2026, 9, 27), "Алгебра", &["ИС11В"]),
            lesson((2026, 9, 28), "Физика", &["ИС11В"]),
        ]),
        Err(ScheduleError::SeveralWeeks)
    );
    // The first date of the calendar is no Monday, and the last one no Sunday.
    assert_eq!(
        validate_schedule(&[lesson((-262_143, 1, 1), "Алгебра", &["ИС11В"])]).is_err(),
        Date::from_ymd_opt(-262_143, 1, 1).unwrap().weekday() != 0
    );
    assert_eq!(
        validate_schedule(&[lesson((262_142, 12, 31), "Алгебра", &["ИС11В"])]).is_err(),
        Date::from_ymd_opt(262_142, 12, 31).unwrap().weekday() != 6
    );
}

#[test]
fn differences_are_those_of_sets() {
    let algebra = || lesson((2026, 9, 28), "Алгебра", &["ИС11В"]);
    let physics = || lesson((2026, 9, 30), "Физика", &["КТО11В"]);
    let none = compare_schedules(&[algebra(), physics(), algebra()], &[physics(), algebra()]);
    assert!(none.changed_groups.is_empty() && none.changed_dates.is_empty());
    assert_eq!((none.added, none.removed), (0, 0));
    let forth = compare_schedules(&[algebra()], &[physics()]);
    assert_eq!(forth.changed_groups, ["ИС11В", "КТО11В"]);
    assert_eq!(forth.changed_dates, [day(2026, 9, 28), day(2026, 9, 30)]);
    assert_eq!((forth.added, forth.removed), (1, 1));
    let back = compare_schedules(&[physics(), physics()], &[]);
    assert_eq!((back.added, back.removed), (0, 1));
    let again = compare_schedules(&[], &[physics(), physics()]);
    assert_eq!((again.added, again.removed), (1, 0));
    assert_eq!(again.changed_groups, back.changed_groups);
}

#[test]
fn new_week_is_kept_for_confirmation() {
    let lessons = [lesson((2026, 9, 28), "Алгебра", &["КТО11В", "ИС11В"])];
    let step = next_preview(PreviewStep::AskAdmin, PreviewReply::Admin(true), &lessons);
    assert!(matches!(step, PreviewStep::AskFile { .. }));
    let step = next_preview(
        step,
        PreviewReply::File {
            was_published: false,
            is_current_file: false,
        },
        &lessons,
    );
    assert!(matches!(step, PreviewStep::AskCurrent { .. }));
    match next_preview(step, PreviewReply::Current(None), &lessons) {
        PreviewStep::Save {
            update,
            base_version,
        } => {
            assert_eq!(base_version, None);
            assert_eq!(update.kind, UpdateKind::NewWeek);
            assert_eq!(update.week_start, day(2026, 9, 28));
            assert_eq!(update.week_end, day(2026, 10, 4));
            assert_eq!(update.diff.changed_groups, ["ИС11В", "КТО11В"]);
            assert_eq!((update.diff.added, update.diff.removed), (2, 0));
        }
        other => panic!("{other:?}"),
    }
}

fn compared(previous: Vec<Lesson>, lessons: &[Lesson], is_current_file: bool) -> PreviewStep {
    next_preview(
        PreviewStep::AskLessons {
            week_start: day(2026, 9, 28),
            week_end: day(2026, 10, 4),
            is_current_file,
            version: 9,
        },
        PreviewReply::Lessons(previous),
        lessons,
    )
}

#[test]
fn corrections_must_change_something() {
    let algebra = || lesson((2026, 9, 28), "Алгебра", &["ИС11В"]);
    let geometry = [lesson((2026, 9, 28), "Геометрия", &["ИС11В"])];
    match compared(vec![algebra()], &geometry, true) {
        PreviewStep::Save {
            update,
            base_version,
        } => {
            assert_eq!(base_version, Some(9));
            assert_eq!(update.kind, UpdateKind::Correction);
            assert_eq!((update.diff.added, update.diff.removed), (1, 1));
        }
        other => panic!("{other:?}"),
    }
    assert!(matches!(
        compared(vec![algebra()], &[algebra()], true),
        PreviewStep::Refuse(UploadError::AlreadyPublished)
    ));
    assert!(matches!(
        compared(vec![algebra()], &[algebra(), algebra()], false),
        PreviewStep::Refuse(UploadError::NoChanges)
    ));
}

#[test]
fn uploads_are_refused_for_their_reasons() {
    let lessons = [lesson((2026, 9, 28), "Алгебра", &["ИС11В"])];
    assert!(matches!(
        next_preview(PreviewStep::AskAdmin, PreviewReply::Admin(false), &lessons),
        PreviewStep::Refuse(UploadError::NotAdmin)
    ));
    assert!(matches!(
        next_preview(PreviewStep::AskAdmin, PreviewReply::Admin(true), &[]),
        PreviewStep::Refuse(UploadError::Schedule(ScheduleError::Empty))
    ));
    let asked = PreviewStep::AskFile {
        week_start: day(2026, 9, 28),
        week_end: day(2026, 10, 4),
    };
    assert!(matches!(
        next_preview(
            asked,
            PreviewReply::File {
                was_published: true,
                is_current_file: false
            },
            &lessons
        ),
        PreviewStep::Refuse(UploadError::Superseded)
    ));
    assert!(matches!(
        next_preview(PreviewStep::AskAdmin, PreviewReply::Current(None), &lessons),
        PreviewStep::AskAdmin
    ));
    assert_eq!(
        UploadError::Schedule(ScheduleError::SeveralWeeks).message(),
        "таблица содержит пары из нескольких календарных недель"
    );
}

fn pending(update_kind: &str, base_version: Option<u128>) -> PendingUpload {
    PendingUpload {
        week_start: day(2026, 9, 28),
        week_end: day(2026, 10, 4),
        update_kind: update_kind.to_owned(),
        base_version,
        diff: ScheduleDiff {
            changed_groups: vec!["ИС11В".to_owned()],
            changed_dates: vec![day(2026, 9, 28)],
            added: 1,
            removed: 1,
        },
        lessons: vec![
            lesson((2026, 9, 28), "Геометрия", &["ИС11В"]),
            lesson((2026, 9, 29), "Физика", &["КТО11В", "ИС11В"]),
        ],
    }
}

fn confirm(upload: PendingUpload, current: Option<u128>) -> ConfirmStep {
    let step = next_confirm(ConfirmStep::AskAdmin, ConfirmReply::Admin(true));
    assert!(matches!(step, ConfirmStep::AskPending));
    let step = next_confirm(step, ConfirmReply::Pending(Some(upload)));
    next_confirm(step, ConfirmReply::Current(current))
}

#[test]
fn confirmed_uploads_are_published() {
    match confirm(pending("correction", Some(4)), Some(4)) {
        ConfirmStep::Publish(plan) => {
            assert_eq!(plan.publication.kind, UpdateKind::Correction);
            assert_eq!(plan.notify_groups, ["ИС11В"]);
            assert_eq!(plan.lessons.len(), 2);
            assert!(plan.body.contains("Изменены дни: 28.09"));
        }
        other => panic!("{other:?}"),
    }
    match confirm(pending("new_week", None), None) {
        ConfirmStep::Publish(plan) => {
            let Publication { kind, .. } = plan.publication;
            assert_eq!(kind, UpdateKind::NewWeek);
            assert_eq!(plan.notify_groups, ["ИС11В", "КТО11В"]);
            assert!(plan.body.contains("новую неделю"));
        }
        other => panic!("{other:?}"),
    }
}

#[test]
fn confirmations_are_refused_for_their_reasons() {
    assert!(matches!(
        next_confirm(ConfirmStep::AskAdmin, ConfirmReply::Admin(false)),
        ConfirmStep::Refuse(ConfirmError::NotAdmin)
    ));
    assert!(matches!(
        next_confirm(ConfirmStep::AskPending, ConfirmReply::Pending(None)),
        ConfirmStep::Refuse(ConfirmError::NotFound)
    ));
    match next_confirm(
        ConfirmStep::AskPending,
        ConfirmReply::Pending(Some(pending("draft", None))),
    ) {
        ConfirmStep::Refuse(error) => {
            assert_eq!(error.message(), "неизвестный тип обновления `draft`");
        }
        other => panic!("{other:?}"),
    }
    for (base, current) in [(Some(4), Some(5)), (Some(4), None), (None, Some(4))] {
        assert!(matches!(
            confirm(pending("correction", base), current),
            ConfirmStep::Refuse(ConfirmError::Changed)
        ));
    }
}

#[test]
fn groups_are_listed_once() {
    let lessons = vec![
        lesson((2026, 9, 28), "Алгебра", &["КТО11В", "ИС11В"]),
        lesson((2026, 9, 28), "Физика", &["ИС11В"]),
    ];
    assert_eq!(all_groups(&lessons), ["ИС11В", "КТО11В"]);
    assert!(all_groups(&Vec::new()).is_empty());
}
