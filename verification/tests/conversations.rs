use schedule::action::{Effect, Failure, Keyboard, Membership, Next, Query, Reply};
use schedule::callback::stats_callback_allowed;
use schedule::conversation::{Callback, ChatType, Config, Document, Message, Request, State};
use schedule::date::Date;
use schedule::domain::{ScheduleDiff, UpdateKind};
use schedule::group::{parse_group_command, single_argument};
use schedule::handlers::{begin, respond};
use schedule::identity::{id_text, token_hash};
use schedule::lesson::Lesson;
use schedule::parser::ParseError;
use schedule::phrases;
use schedule::private::{is_search_button, is_today_button, is_week_button};
use schedule::stats::{Metric, Period};
use schedule::store::{Publication, UploadPreview, User};

#[test]
fn parses_group_command_and_arguments() {
    assert_eq!(
        parse_group_command("/day@ScheduleBot 28.09.2026", "schedulebot"),
        Some(("day".to_owned(), vec!["28.09.2026".to_owned()]))
    );
}

#[test]
fn ignores_commands_mentioned_to_another_bot() {
    assert_eq!(parse_group_command("/today@OtherBot", "schedulebot"), None);
}

#[test]
fn parses_commands_without_explicit_mention() {
    assert_eq!(
        parse_group_command("/week", "schedulebot"),
        Some(("week".to_owned(), vec![]))
    );
}

#[test]
fn dashboard_callbacks_are_limited_to_admin_private_chat() {
    assert!(stats_callback_allowed(true, 42, Some(42)));
    assert!(!stats_callback_allowed(false, 42, Some(42)));
    assert!(!stats_callback_allowed(true, 42, Some(-10042)));
    assert!(!stats_callback_allowed(true, 42, None));
}

#[test]
fn commands_are_read_whatever_their_case() {
    assert_eq!(
        parse_group_command("  /SetGroup  ИС11В  x ", "schedulebot"),
        Some(("setgroup".to_owned(), vec!["ИС11В".to_owned(), "x".to_owned()]))
    );
    assert_eq!(parse_group_command("week", "schedulebot"), None);
    assert_eq!(parse_group_command(" ", "schedulebot"), None);
    assert_eq!(single_argument(&["one".to_owned()]), Some("one"));
    assert_eq!(single_argument(&[]), None);
    assert_eq!(single_argument(&["one".to_owned(), "two".to_owned()]), None);
    assert!(is_today_button("Сегодня") && is_today_button("📅 Сегодня"));
    assert!(is_week_button("На неделю") && is_search_button("🔎 Расширенный поиск"));
    assert!(!is_today_button("сегодня"));
}

const USER: i64 = 42;
const GROUP: i64 = -500;

fn config() -> Config {
    Config {
        bot_username: "schedulebot".to_owned(),
        bootstrap_token: Some("секрет".to_owned()),
        has_archive: true,
    }
}

fn today() -> Date {
    Date::from_ymd_opt(2026, 9, 28).unwrap()
}

fn message(chat: i64, chat_type: ChatType, text: Option<&str>) -> Message {
    Message {
        user: USER,
        username: Some("student".to_owned()),
        chat,
        chat_type,
        text: text.map(str::to_owned),
        document: None,
    }
}

fn private(text: &str) -> Request {
    Request::Message(message(USER, ChatType::Private, Some(text)))
}

fn group(text: &str) -> Request {
    Request::Message(message(GROUP, ChatType::Group, Some(text)))
}

fn button(data: &str) -> Request {
    Request::Callback(Callback {
        user: USER,
        username: None,
        data: Some(data.to_owned()),
        message_chat: Some(USER),
    })
}

fn profile(role: &str, group_code: Option<&str>, flow_state: &str) -> User {
    User {
        telegram_id: USER,
        chat_id: USER,
        role: role.to_owned(),
        group_code: group_code.map(str::to_owned),
        pending_group: None,
        flow_state: flow_state.to_owned(),
        search_kind: None,
        daily_notifications_enabled: true,
    }
}

fn student(group_code: Option<&str>, flow_state: &str) -> Reply {
    Reply::User(Some(profile("student", group_code, flow_state)))
}

fn lesson() -> Lesson {
    Lesson {
        groups: vec!["ИС11В".to_owned()],
        date: today(),
        weekday: "Понедельник".to_owned(),
        lesson_number: 1,
        start_time: "08:20".to_owned(),
        end_time: "09:55".to_owned(),
        subject: "Алгебра".to_owned(),
        lesson_type: None,
        teacher: None,
        room: None,
        description: "Алгебра".to_owned(),
    }
}

type Question = Query<String, Date, Vec<Lesson>>;

struct Talk {
    effects: Vec<Effect<String>>,
    questions: Vec<Question>,
    failure: Option<Failure>,
}

/// Holds a conversation in which the questions get the given replies, in order.
fn talk_with(config: &Config, request: &Request, replies: Vec<Reply>) -> Talk {
    let mut talk = Talk {
        effects: Vec::new(),
        questions: Vec::new(),
        failure: None,
    };
    let mut replies = replies.into_iter();
    let mut step = begin(config, request);
    loop {
        talk.effects.extend(step.effects);
        match step.next {
            Next::Done => break,
            Next::Fail(failure) => {
                talk.failure = Some(failure);
                break;
            }
            Next::Ask(question, state) => {
                talk.questions.push(question);
                match replies.next() {
                    Some(reply) => step = respond(config, today(), request, state, reply),
                    None => break,
                }
            }
        }
    }
    assert!(replies.next().is_none(), "there are more replies than questions");
    talk
}

fn talk(request: &Request, mut replies: Vec<Reply>) -> Talk {
    replies.insert(0, Reply::Allowed(true));
    talk_with(&config(), request, replies)
}

/// What a conversation does beside counting and registering.
fn deeds(talk: Talk) -> Vec<Effect<String>> {
    assert_eq!(talk.failure, None);
    talk.effects
        .into_iter()
        .filter(|effect| {
            !matches!(
                effect,
                Effect::RecordMetric(_) | Effect::RegisterUser { .. } | Effect::AnswerCallback
            )
        })
        .collect()
}

fn say(chat: i64, text: &str) -> Effect<String> {
    Effect::SendText {
        chat,
        text: text.to_owned(),
    }
}

fn say_menu(text: &str) -> Effect<String> {
    Effect::SendMenu {
        chat: USER,
        text: text.to_owned(),
    }
}

fn move_to(state: &str) -> Effect<String> {
    Effect::SetFlowState {
        user: USER,
        state: state.to_owned(),
        search_kind: None,
    }
}

#[test]
fn allowed_requests_are_counted_and_registered() {
    let talk = talk(&private("/help"), vec![]);
    assert_eq!(
        talk.questions,
        [Query::Allow {
            user: USER,
            chat: USER
        }]
    );
    assert_eq!(
        talk.effects,
        [
            Effect::RecordMetric(Metric::Commands),
            Effect::RegisterUser {
                user: USER,
                chat: USER,
                username: Some("student".to_owned())
            },
            say(USER, phrases::HELP),
        ]
    );
}

#[test]
fn refused_requests_are_warned_once() {
    for request in [private("/start"), button("menu:today")] {
        let warned = talk_with(
            &config(),
            &request,
            vec![Reply::Allowed(false), Reply::ShouldWarn(true)],
        );
        assert!(warned
            .effects
            .contains(&Effect::RecordMetric(Metric::RateLimited)));
        assert!(warned.effects.iter().any(
            |effect| matches!(effect, Effect::SendText { text, .. } if text == phrases::TOO_MANY_REQUESTS)
        ));
        assert!(!warned
            .effects
            .contains(&Effect::RecordMetric(Metric::Commands)));
        let silent = talk_with(
            &config(),
            &request,
            vec![Reply::Allowed(false), Reply::ShouldWarn(false)],
        );
        assert!(deeds(silent).is_empty());
    }
    let in_group = talk_with(&config(), &group("/today"), vec![Reply::Allowed(false)]);
    assert_eq!(
        in_group.effects,
        [Effect::RecordMetric(Metric::RateLimited)]
    );
}

#[test]
fn newcomers_are_asked_for_their_group() {
    assert_eq!(
        deeds(talk(&private("/start"), vec![student(None, "menu")])),
        [move_to("await_group"), say(USER, phrases::WELCOME)]
    );
    assert_eq!(
        deeds(talk(&private("/start"), vec![student(Some("ИС11В"), "menu")])),
        [say_menu("С возвращением! Твоя группа: ИС11В.")]
    );
    assert_eq!(
        deeds(talk(
            &private(" ис11в "),
            vec![
                student(None, "await_group"),
                Reply::Groups(vec!["КТО11В".to_owned(), "ИС11В".to_owned()])
            ]
        )),
        [
            Effect::SetPendingGroup {
                user: USER,
                group: "ИС11В".to_owned()
            },
            Effect::SendChoice {
                chat: USER,
                text: "Твоя группа — ИС11В?".to_owned(),
                keyboard: Keyboard::ConfirmGroup
            }
        ]
    );
    assert_eq!(
        deeds(talk(
            &private("ИС99В"),
            vec![student(None, "await_group"), Reply::Groups(vec![])]
        )),
        [say(USER, phrases::UNKNOWN_GROUP)]
    );
    assert_eq!(
        deeds(talk(
            &button("group:yes"),
            vec![Reply::GroupConfirmed(Some("ИС11В".to_owned()))]
        )),
        [say_menu("Группа ИС11В сохранена.")]
    );
    assert_eq!(
        deeds(talk(&button("group:no"), vec![])),
        [
            Effect::RejectPendingGroup { user: USER },
            say(USER, phrases::WRITE_RIGHT_GROUP)
        ]
    );
}

#[test]
fn rights_are_claimed_by_links() {
    let invited = talk(&private("/start adm_abc"), vec![student(None, "menu")]);
    assert!(invited.effects.contains(&Effect::RedeemInvite {
        user: USER,
        token_sha256: token_hash("abc")
    }));
    let claim = Effect::ClaimBootstrapAdmin { user: USER };
    let first = talk(&private("/start bootstrap_секрет"), vec![student(None, "menu")]);
    assert!(first.effects.contains(&claim));
    let wrong = talk(&private("/start bootstrap_секреТ"), vec![student(None, "menu")]);
    assert!(!wrong.effects.contains(&claim));
    let admin = Reply::User(Some(profile("admin", None, "menu")));
    assert_eq!(
        deeds(talk(&private("/start"), vec![admin])),
        [move_to("await_group"), say(USER, phrases::ADMIN_WITHOUT_GROUP)]
    );
}

#[test]
fn lessons_are_shown() {
    let shown = talk(
        &private("📅 Сегодня"),
        vec![student(Some("ИС11В"), "menu"), Reply::Lessons(vec![lesson()])],
    );
    assert_eq!(
        shown.questions[2],
        Query::TodayLessons {
            group: "ИС11В".to_owned(),
            date: today()
        }
    );
    match &deeds(shown)[..] {
        [Effect::SendText { text, .. }] => assert!(text.starts_with("Сегодня · группа ИС11В\n")),
        other => panic!("{other:?}"),
    }
    assert_eq!(
        deeds(talk(
            &button("menu:week"),
            vec![student(Some("ИС11В"), "menu"), Reply::Lessons(vec![])]
        )),
        [say_menu(phrases::NO_WEEK)]
    );
    assert_eq!(
        deeds(talk(
            &private("Сегодня"),
            vec![student(Some("ИС11В"), "menu"), Reply::Lessons(vec![])]
        )),
        [say_menu("На сегодня (28.09.2026) занятий не нашёл.")]
    );
}

#[test]
fn answers_name_the_day_that_was_asked_for() {
    let asked = Date::from_ymd_opt(2026, 9, 27).unwrap();
    let state = State::Today {
        chat: USER,
        group: "ИС11В".to_owned(),
        date: asked,
    };
    // The day has changed before the lessons were found.
    let step = respond(
        &config(),
        today(),
        &private("Сегодня"),
        state,
        Reply::Lessons(vec![]),
    );
    assert_eq!(
        step.effects,
        [say_menu("На сегодня (27.09.2026) занятий не нашёл.")]
    );
}

#[test]
fn searches_go_through_their_states() {
    let question = Effect::SendChoice {
        chat: USER,
        text: phrases::SEARCH_QUESTION.to_owned(),
        keyboard: Keyboard::Search,
    };
    assert_eq!(
        deeds(talk(
            &private("Расширенный поиск"),
            vec![student(Some("ИС11В"), "menu")]
        )),
        [move_to("await_search_kind"), question]
    );
    assert_eq!(
        deeds(talk(&button("search:room"), vec![])),
        [
            Effect::SetFlowState {
                user: USER,
                state: "await_search_text".to_owned(),
                search_kind: Some("room".to_owned())
            },
            say(USER, "Напиши номер или часть номера аудитории для поиска.")
        ]
    );
    let mut searcher = profile("student", Some("ИС11В"), "await_search_text");
    searcher.search_kind = Some("room".to_owned());
    let again = || Reply::User(Some(searcher.clone()));
    let found = talk(
        &private("дот"),
        vec![again(), again(), Reply::Lessons(vec![lesson()])],
    );
    assert_eq!(
        found.questions[3],
        Query::SearchLessons {
            column: "room".to_owned(),
            pattern: "%Удалённо%".to_owned(),
            date: today()
        }
    );
    match &deeds(found)[..] {
        [state, Effect::SendText { text, .. }] => {
            assert_eq!(*state, move_to("menu"));
            assert!(text.starts_with("Поиск аудитории: Удалённо\n"));
        }
        other => panic!("{other:?}"),
    }
    assert_eq!(
        deeds(talk(
            &private("дот"),
            vec![again(), again(), Reply::Lessons(vec![])]
        )),
        [move_to("menu"), say_menu(phrases::NOTHING_FOUND)]
    );
}

#[test]
fn administrators_get_links_and_dashboards() {
    assert_eq!(
        deeds(talk(
            &private("/admin_link"),
            vec![
                Reply::Admin(true),
                Reply::Invite("token".to_owned()),
                Reply::BotName("schedulebot".to_owned())
            ]
        )),
        [say(
            USER,
            "Одноразовая ссылка действует 15 минут:\nhttps://t.me/schedulebot?start=adm_token"
        )]
    );
    assert_eq!(
        deeds(talk(&private("/admin_link"), vec![Reply::Admin(false)])),
        [say(USER, phrases::LINK_FOR_ADMINS)]
    );
    assert!(matches!(
        deeds(talk(&private("/stats"), vec![Reply::Admin(true)]))[..],
        [Effect::SendDashboard {
            period: Period::Day,
            ..
        }]
    ));
    assert_eq!(
        deeds(talk(&private("/stats@bot"), vec![Reply::Admin(false)])),
        [say(USER, phrases::STATS_FOR_ADMINS)]
    );
    assert!(matches!(
        deeds(talk(&button("stats:7d"), vec![Reply::Admin(true)]))[..],
        [Effect::EditDashboard {
            period: Period::Week,
            ..
        }]
    ));
    assert_eq!(
        deeds(talk(&button("stats:7d"), vec![Reply::Admin(false)])),
        [Effect::AlertCallback {
            text: phrases::DASHBOARD_FOR_ADMINS.to_owned()
        }]
    );
    assert!(deeds(talk(&button("stats:year"), vec![])).is_empty());
}

#[test]
fn daily_messages_are_toggled() {
    assert_eq!(
        deeds(talk(&private("/notifications"), vec![student(Some("ИС11В"), "menu")])),
        [
            Effect::SetDailyNotifications {
                user: USER,
                enabled: false
            },
            say_menu("Ежедневные уведомления выключены.")
        ]
    );
}

#[test]
fn group_chats_are_set_by_their_administrators() {
    let known = || Reply::Groups(vec!["ИС11В".to_owned()]);
    let admin = || Reply::Member(Membership::Admin);
    let set = deeds(talk(&group("/setgroup ИС11В"), vec![admin(), known()]));
    assert!(matches!(
        &set[..],
        [Effect::SetChatGroup { chat: GROUP, group, by: USER }, Effect::SendText { chat: GROUP, .. }]
            if group == "ИС11В"
    ));
    for (reply, text) in [
        (Membership::Other, phrases::SET_GROUP_FOR_ADMINS),
        (Membership::Unknown, phrases::SET_GROUP_UNCHECKED),
    ] {
        assert_eq!(
            deeds(talk(&group("/setgroup ИС11В"), vec![Reply::Member(reply)])),
            [say(GROUP, text)]
        );
    }
    assert_eq!(
        deeds(talk(&group("/setgroup"), vec![admin()])),
        [say(GROUP, phrases::SET_GROUP_USAGE)]
    );
    assert_eq!(
        deeds(talk(&group("/setgroup X"), vec![admin(), known()])),
        [say(GROUP, phrases::UNKNOWN_CHAT_GROUP)]
    );
    assert_eq!(
        deeds(talk(&group("/disable"), vec![admin(), Reply::Removed(true)])),
        [say(GROUP, phrases::DISABLED)]
    );
    assert_eq!(
        deeds(talk(&group("/disable"), vec![admin(), Reply::Removed(false)])),
        [say(GROUP, phrases::NOT_ENABLED)]
    );
}

#[test]
fn group_chats_see_their_lessons() {
    let chosen = || Reply::ChatGroup(Some("ИС11В".to_owned()));
    let shown = talk(
        &group("/day 29.09.2026"),
        vec![chosen(), Reply::Lessons(vec![])],
    );
    assert_eq!(
        shown.questions[2],
        Query::TodayLessons {
            group: "ИС11В".to_owned(),
            date: Date::from_ymd_opt(2026, 9, 29).unwrap()
        }
    );
    for text in ["/day", "/day завтра", "/day 29.09.2026 30.09.2026"] {
        assert_eq!(
            deeds(talk(&group(text), vec![chosen()])),
            [say(GROUP, phrases::DAY_USAGE)]
        );
    }
    assert_eq!(
        deeds(talk(&group("/today"), vec![Reply::ChatGroup(None)])),
        [say(GROUP, phrases::CHAT_WITHOUT_GROUP)]
    );
    assert_eq!(
        deeds(talk(&group("/help"), vec![])),
        [say(GROUP, phrases::GROUP_HELP)]
    );
    let ignored = talk_with(&config(), &group("просто текст"), vec![]);
    assert!(ignored.questions.is_empty() && ignored.effects.is_empty());
}

fn upload(name: &str) -> Request {
    let mut file = message(USER, ChatType::Private, None);
    file.document = Some(Document {
        file_name: Some(name.to_owned()),
    });
    Request::Message(file)
}

fn admin() -> Reply {
    Reply::User(Some(profile("admin", None, "menu")))
}

fn preview() -> UploadPreview {
    UploadPreview {
        id: 7,
        week_start: today(),
        week_end: Date::from_ymd_opt(2026, 10, 4).unwrap(),
        kind: UpdateKind::NewWeek,
        diff: ScheduleDiff {
            changed_groups: vec!["ИС11В".to_owned()],
            changed_dates: vec![today()],
            added: 1,
            removed: 0,
        },
    }
}

#[test]
fn uploads_are_archived_before_they_are_confirmed() {
    let key = format!("schedule-sources/{}.xls", id_text(7));
    let done = talk(
        &upload("week.XLS"),
        vec![
            admin(),
            Reply::Downloaded(1_000),
            Reply::Parsed(Ok(vec![lesson()])),
            Reply::Previewed(Ok(preview())),
            Reply::Saved(Ok(())),
            Reply::Attached(Ok(())),
        ],
    );
    assert_eq!(
        done.questions[2..],
        [
            Query::Download {
                extension: "xls".to_owned()
            },
            Query::Parse {
                extension: "xls".to_owned()
            },
            Query::Preview {
                user: USER,
                file_name: "week.XLS".to_owned(),
                lessons: vec![lesson()]
            },
            Query::SaveSource { key: key.clone() },
            Query::AttachSource {
                id: 7,
                user: USER,
                key: key.clone()
            },
        ]
    );
    assert!(matches!(
        deeds(done)[..],
        [Effect::SendChoice {
            keyboard: Keyboard::Upload(7),
            ..
        }]
    ));
    assert_eq!(
        deeds(talk(
            &upload("week.xls"),
            vec![
                admin(),
                Reply::Downloaded(1_000),
                Reply::Parsed(Ok(vec![lesson()])),
                Reply::Previewed(Ok(preview())),
                Reply::Saved(Err("нет связи".to_owned())),
            ]
        )),
        [
            Effect::CancelUpload { id: 7, user: USER },
            say(
                USER,
                "Не удалось сохранить исходную таблицу в архиве: нет связи"
            )
        ]
    );
}

#[test]
fn uploads_break_off_for_their_reasons() {
    assert_eq!(
        deeds(talk(&upload("week.xls"), vec![student(None, "menu")])),
        [say(USER, phrases::UPLOADS_FOR_ADMINS)]
    );
    assert_eq!(
        deeds(talk(&upload("week.pdf"), vec![admin()])),
        [say(USER, phrases::SUPPORTED_FILES)]
    );
    assert_eq!(
        deeds(talk(
            &upload("week.xls"),
            vec![admin(), Reply::Downloaded(15 * 1024 * 1024 + 1)]
        )),
        [say(USER, phrases::FILE_TOO_LARGE)]
    );
    assert_eq!(
        deeds(talk(
            &upload("week.xls"),
            vec![
                admin(),
                Reply::Downloaded(15 * 1024 * 1024),
                Reply::Parsed(Err(ParseError::NoScheduleSheets))
            ]
        ))
        .len(),
        1
    );
    let broken_off = talk(
        &upload("week.xls"),
        vec![
            admin(),
            Reply::Downloaded(1),
            Reply::Parsed(Err(ParseError::BrokenOff)),
        ],
    );
    assert_eq!(broken_off.failure, Some(Failure::ParsingBrokenOff));
    assert_eq!(
        Failure::ParsingBrokenOff.message(),
        "задача парсинга завершилась аварийно"
    );
    assert_eq!(
        deeds(talk(
            &upload("week.xls"),
            vec![
                admin(),
                Reply::Downloaded(1),
                Reply::Parsed(Ok(vec![])),
                Reply::Previewed(Err("пусто".to_owned()))
            ]
        )),
        [say(USER, "Файл не прошёл проверку: пусто")]
    );
    let no_archive = Config {
        has_archive: false,
        ..config()
    };
    assert_eq!(
        deeds(talk_with(
            &no_archive,
            &upload("week.xls"),
            vec![
                Reply::Allowed(true),
                admin(),
                Reply::Downloaded(1),
                Reply::Parsed(Ok(vec![lesson()])),
                Reply::Previewed(Ok(preview()))
            ]
        )),
        [
            Effect::CancelUpload { id: 7, user: USER },
            say(USER, phrases::NO_ARCHIVE)
        ]
    );
}

#[test]
fn upload_buttons_publish_and_cancel() {
    let confirm = format!("upload:confirm:{}", id_text(7));
    let cancel = format!("upload:cancel:{}", id_text(7));
    let published = talk(
        &button(&confirm),
        vec![Reply::Published(Publication {
            week_start: today(),
            week_end: Date::from_ymd_opt(2026, 10, 4).unwrap(),
            kind: UpdateKind::NewWeek,
            diff: preview().diff,
        })],
    );
    assert_eq!(published.questions[1], Query::ConfirmUpload { id: 7, user: USER });
    assert_eq!(deeds(published).len(), 1);
    let dropped = talk(
        &button(&cancel),
        vec![Reply::Cancelled {
            cancelled: true,
            source_key: Some("key".to_owned()),
        }],
    );
    assert_eq!(dropped.questions[1], Query::CancelUpload { id: 7, user: USER });
    assert_eq!(
        deeds(dropped),
        [
            Effect::DeleteSource {
                key: "key".to_owned()
            },
            say(USER, phrases::UPLOAD_CANCELLED)
        ]
    );
    assert_eq!(
        talk(&button("upload:confirm:7"), vec![]).failure,
        Some(Failure::BadUploadId)
    );
    assert_eq!(
        deeds(talk(&button("upload"), vec![])),
        [say(USER, phrases::STALE_BUTTON)]
    );
}

#[test]
fn conversations_fail_on_what_they_did_not_ask() {
    assert_eq!(
        talk(&private("/start"), vec![Reply::Admin(true)]).failure,
        Some(Failure::UnexpectedReply)
    );
    assert_eq!(
        talk(&private("/start"), vec![Reply::User(None)]).failure,
        Some(Failure::UserNotFound)
    );
    assert_eq!(Failure::UserNotFound.message(), "пользователь не найден");
    let elsewhere = Request::Message(message(1, ChatType::Other, Some("/start")));
    assert!(talk_with(&config(), &elsewhere, vec![]).effects.is_empty());
}
