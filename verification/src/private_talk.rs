//! What private conversations come to: from a message or a button, over the answers, to what is
//! asked, kept and sent.

use crate::action::{says_long, Effect, Failure, Keyboard, Query, Reply};
use crate::callback::pressed;
use crate::conversation::{Callback, ChatType, Config, Message, Request};
use crate::date::{dotted, DateView};
use crate::dialogue::{asks, done_since, lemma_drop, lemma_since, sends};
use crate::files::extension;
use crate::format::schedule_text;
use crate::handlers::talk;
use crate::identity::id_form;
use crate::lesson::{lessons_view, Lesson};
use crate::parser::{room_name, ParseError};
use crate::phrases;
use crate::private::{
    group_at, is_stats_command, lowercased, names_today, names_week, published_group,
};
use crate::showing::{group_shown, shows};
use crate::stats::Metric;
use crate::store::{preview_question, UploadPreview, User};
use crate::text::{
    has_prefix, is_space, lemma_word_len, lowercase, text_of, texts, trim_end, trim_start, trimmed,
    words,
};
use vstd::prelude::*;

verus! {

/// Whether a text is no command.
pub open spec fn is_plain(text: Seq<char>) -> bool {
    text.len() > 0 && !is_space(text[0]) && text[0] != '/'
}

/// Whether a private message says a text, and nothing hangs on it.
pub open spec fn tells(message: Message, text: Seq<char>) -> bool {
    &&& message.chat_type == ChatType::Private
    &&& message.document is None
    &&& text_of(message.text) == Some(text)
}

pub(crate) proof fn lemma_plain(text: Seq<char>)
    requires
        is_plain(text),
    ensures
        !is_stats_command(text),
        !has_prefix(text, "/start"@),
        !has_prefix(text, "/help"@),
        !has_prefix(text, "/admin_link"@),
        !has_prefix(text, "/notifications"@),
{
    reveal_strlit("/stats");
    reveal_strlit("/stats@");
    reveal_strlit("/start");
    reveal_strlit("/help");
    reveal_strlit("/admin_link");
    reveal_strlit("/notifications");
    lemma_word_len(text);
    assert(trim_start(text) == text);
    let first = words(text)[0];
    assert(first[0] == text[0]);
    assert("/stats"@[0] == '/' && "/stats@"@[0] == '/' && "/start"@[0] == '/' && "/help"@[0] == '/'
        && "/admin_link"@[0] == '/' && "/notifications"@[0] == '/');
    if has_prefix(first, "/stats@"@) {
        assert(first.take("/stats@"@.len() as int)[0] == '/');
    }
    if has_prefix(text, "/start"@) {
        assert(text.take("/start"@.len() as int)[0] == '/');
    }
    if has_prefix(text, "/help"@) {
        assert(text.take("/help"@.len() as int)[0] == '/');
    }
    if has_prefix(text, "/admin_link"@) {
        assert(text.take("/admin_link"@.len() as int)[0] == '/');
    }
    if has_prefix(text, "/notifications"@) {
        assert(text.take("/notifications"@.len() as int)[0] == '/');
    }
}

pub(crate) proof fn lemma_solid(text: Seq<char>)
    requires
        text.len() > 0,
        !is_space(text[0]),
        !is_space(text.last()),
    ensures
        trimmed(text) == text,
{
    assert(trim_start(text) == text);
    assert(trim_end(text) == text);
}

pub(crate) proof fn lemma_today_text(text: Seq<char>)
    requires
        text == "Сегодня"@ || text == "📅 Сегодня"@,
    ensures
        is_plain(text),
        trimmed(text) == text,
        text != phrases::NOTIFICATIONS_BUTTON@,
        names_today(text),
{
    reveal_strlit("Сегодня");
    reveal_strlit("📅 Сегодня");
    reveal_strlit("🔔 Уведомления");
    assert("Сегодня"@.len() == 7 && "🔔 Уведомления"@.len() == 13 && "📅 Сегодня"@.len() == 9);
    lemma_solid(text);
}

pub(crate) proof fn lemma_week_text(text: Seq<char>)
    requires
        text == "На неделю"@ || text == "🗓️ На неделю"@,
    ensures
        is_plain(text),
        trimmed(text) == text,
        text != phrases::NOTIFICATIONS_BUTTON@,
        !names_today(text),
        names_week(text),
{
    reveal_strlit("Сегодня");
    reveal_strlit("📅 Сегодня");
    reveal_strlit("На неделю");
    reveal_strlit("🗓️ На неделю");
    reveal_strlit("🔔 Уведомления");
    assert("Сегодня"@.len() == 7 && "🔔 Уведомления"@.len() == 13 && "📅 Сегодня"@.len() == 9
        && "На неделю"@.len() == 9 && "🗓️ На неделю"@.len() == 12 && "На неделю"@[0] == 'Н'
        && "📅 Сегодня"@[0] != 'Н');
    lemma_solid(text);
}

/// Whoever writes to the bot is counted and registered with the chat and the name they have, once
/// the request is allowed; otherwise the refusal is counted, and a warning is sent only if it is due.
#[verifier::spinoff_prover]
#[verifier::rlimit(60)]
pub proof fn writers_are_registered(config: Config, message: Message, warn: bool, day: DateView)
    requires
        message.chat_type == ChatType::Private,
    ensures
        ({
            let request = Request::Message(message);
            let begun = talk(config, request, seq![]);
            let allowed = talk(config, request, seq![(day, Reply::Allowed(true))]);
            let refused = talk(config, request, seq![(day, Reply::Allowed(false))]);
            let warned = talk(
                config,
                request,
                seq![(day, Reply::Allowed(false)), (day, Reply::ShouldWarn(warn))],
            );
            &&& asks(begun, Query::Allow { user: message.user, chat: message.chat })
            &&& begun.effects.len() == 0
            &&& allowed.effects.len() >= 2
            &&& allowed.effects[0] == Effect::<Seq<char>>::RecordMetric(Metric::Commands)
            &&& allowed.effects[1] == (Effect::RegisterUser {
                user: message.user,
                chat: message.chat,
                username: text_of(message.username),
            })
            &&& refused.effects == seq![Effect::<Seq<char>>::RecordMetric(Metric::RateLimited)]
            &&& asks(refused, Query::ShouldWarn { user: message.user })
            &&& warned.next is Done
            &&& done_since(warned, refused) == if warn {
                seq![
                    Effect::SendText { chat: message.chat, text: phrases::TOO_MANY_REQUESTS@ },
                ]
            } else {
                seq![]
            }
        }),
{
    let request = Request::Message(message);
    let yes = (day, Reply::Allowed(true));
    let no = (day, Reply::Allowed(false));
    let due = (day, Reply::ShouldWarn(warn));
    lemma_drop(yes, yes, yes, yes);
    lemma_drop(no, due, due, due);
    let refused = talk(config, request, seq![no]);
    assert(talk(config, request, seq![]).next is Ask);
    assert(talk(config, request, seq![]).effects =~= seq![]);
    assert(asks(refused, Query::ShouldWarn { user: message.user }));
    assert(refused.effects =~= seq![Effect::<Seq<char>>::RecordMetric(Metric::RateLimited)]);
    let text: Effect<Seq<char>> = Effect::SendText {
        chat: message.chat,
        text: phrases::TOO_MANY_REQUESTS@,
    };
    lemma_since(refused.effects, seq![text]);
    lemma_since(refused.effects, seq![]);
}

pub(crate) proof fn lemma_profile_asked(config: Config, message: Message, text: Seq<char>, day: DateView)
    requires
        tells(message, text),
        is_plain(text),
        text != phrases::NOTIFICATIONS_BUTTON@,
    ensures
        asks(
            talk(config, Request::Message(message), seq![(day, Reply::Allowed(true))]),
            Query::User { user: message.user },
        ),
        talk(config, Request::Message(message), seq![(day, Reply::Allowed(true))]).next->Ask_1
            == crate::conversation::State::<Seq<char>, DateView>::Profile,
{
    let yes = (day, Reply::Allowed(true));
    lemma_drop(yes, yes, yes, yes);
    lemma_plain(text);
    assert(talk(config, Request::Message(message), seq![]).next is Ask);
}

/// Whether someone is in the menu, that is, neither names nor confirms their group.
pub open spec fn is_in_menu(profile: User) -> bool {
    profile.flow_state@ != "await_group"@ && profile.flow_state@ != "confirm_group"@
}

/// The button of today shows today's lessons of the user's group: the store is asked for them on the
/// day of the question, and what it gives is sent under the name of the group; where there are none,
/// the answer names the day.
#[verifier::spinoff_prover]
#[verifier::rlimit(60)]
pub proof fn today_button_shows_the_day(
    config: Config,
    message: Message,
    text: Seq<char>,
    profile: User,
    group: Seq<char>,
    lessons: Vec<Lesson>,
    day: DateView,
    today: DateView,
)
    requires
        tells(message, text),
        text == "Сегодня"@ || text == "📅 Сегодня"@,
        is_in_menu(profile),
        text_of(profile.group_code) == Some(group),
    ensures
        ({
            let request = Request::Message(message);
            let first = (day, Reply::Allowed(true));
            let second = (today, Reply::User(Some(profile)));
            let third = (day, Reply::Lessons(lessons));
            let asked = talk(config, request, seq![first, second]);
            let shown = talk(config, request, seq![first, second, third]);
            &&& asks(asked, Query::TodayLessons { group, date: today })
            &&& shown.next is Done
            &&& lessons@.len() > 0 ==> sends(
                done_since(shown, asked),
                message.chat,
                schedule_text("Сегодня · группа "@ + group, lessons_view(lessons@), false),
            )
            &&& lessons@.len() == 0 ==> exists|answer: Seq<char>| #[trigger]
                shows(answer, dotted(today)) && done_since(shown, asked) == seq![
                    Effect::SendMenu { chat: message.chat, text: answer },
                ]
        }),
{
    broadcast use group_shown;

    lemma_today_text(text);
    lemma_profile_asked(config, message, text, day);
    let request = Request::Message(message);
    let first = (day, Reply::Allowed(true));
    let second = (today, Reply::User(Some(profile)));
    let third = (day, Reply::Lessons(lessons));
    lemma_drop(first, second, third, third);
    let asked = talk(config, request, seq![first, second]);
    assert(asks(asked, Query::TodayLessons { group, date: today }));
    assert(lessons_view(lessons@).len() == lessons@.len());
    let table = schedule_text("Сегодня · группа "@ + group, lessons_view(lessons@), false);
    if lessons@.len() > 0 {
        lemma_since(asked.effects, says_long(message.chat, table));
    } else {
        let answer = "На сегодня ("@ + dotted(today) + ") занятий не нашёл."@;
        assert(shows(answer, dotted(today)));
        let effect = Effect::SendMenu { chat: message.chat, text: answer };
        lemma_since(asked.effects, seq![effect]);
    }
}

/// The button of the week shows the week's lessons of the user's group: the store is asked for them,
/// and what it gives is sent under the name of the group, with dates.
#[verifier::spinoff_prover]
#[verifier::rlimit(60)]
pub proof fn week_button_shows_the_week(
    config: Config,
    message: Message,
    text: Seq<char>,
    profile: User,
    group: Seq<char>,
    lessons: Vec<Lesson>,
    day: DateView,
    today: DateView,
)
    requires
        tells(message, text),
        text == "На неделю"@ || text == "🗓️ На неделю"@,
        is_in_menu(profile),
        text_of(profile.group_code) == Some(group),
    ensures
        ({
            let request = Request::Message(message);
            let first = (day, Reply::Allowed(true));
            let second = (today, Reply::User(Some(profile)));
            let third = (day, Reply::Lessons(lessons));
            let asked = talk(config, request, seq![first, second]);
            let shown = talk(config, request, seq![first, second, third]);
            &&& asks(asked, Query::WeekLessons { group, date: today })
            &&& shown.next is Done
            &&& lessons@.len() > 0 ==> sends(
                done_since(shown, asked),
                message.chat,
                schedule_text("На неделю · группа "@ + group, lessons_view(lessons@), true),
            )
            &&& lessons@.len() == 0 ==> done_since(shown, asked) == seq![
                Effect::SendMenu { chat: message.chat, text: phrases::NO_WEEK@ },
            ]
        }),
{
    lemma_week_text(text);
    lemma_profile_asked(config, message, text, day);
    let request = Request::Message(message);
    let first = (day, Reply::Allowed(true));
    let second = (today, Reply::User(Some(profile)));
    let third = (day, Reply::Lessons(lessons));
    lemma_drop(first, second, third, third);
    let asked = talk(config, request, seq![first, second]);
    assert(asks(asked, Query::WeekLessons { group, date: today }));
    assert(lessons_view(lessons@).len() == lessons@.len());
    let table = schedule_text("На неделю · группа "@ + group, lessons_view(lessons@), true);
    let nothing: Effect<Seq<char>> = Effect::SendMenu {
        chat: message.chat,
        text: phrases::NO_WEEK@,
    };
    if lessons@.len() > 0 {
        lemma_since(asked.effects, says_long(message.chat, table));
    } else {
        lemma_since(asked.effects, seq![nothing]);
    }
}

/// Whether a pressed button reports a text.
pub open spec fn reports(callback: Callback, data: Seq<char>) -> bool {
    callback.data matches Some(reported) && reported@ == data
}

/// The buttons of the menu below a message do what the menu does, for the one who pressed them.
#[verifier::spinoff_prover]
#[verifier::rlimit(60)]
pub proof fn menu_buttons_show_the_timetable(
    config: Config,
    callback: Callback,
    profile: User,
    group: Seq<char>,
    day: DateView,
    today: DateView,
)
    requires
        text_of(profile.group_code) == Some(group),
    ensures
        ({
            let request = Request::Callback(callback);
            let first = (day, Reply::Allowed(true));
            let second = (today, Reply::User(Some(profile)));
            let known = talk(config, request, seq![first]);
            let asked = talk(config, request, seq![first, second]);
            &&& reports(callback, "menu:today"@) ==> asks(
                known,
                Query::User { user: callback.user },
            ) && asks(asked, Query::TodayLessons { group, date: today })
            &&& reports(callback, "menu:week"@) ==> asks(
                known,
                Query::User { user: callback.user },
            ) && asks(asked, Query::WeekLessons { group, date: today })
        }),
{
    let request = Request::Callback(callback);
    let first = (day, Reply::Allowed(true));
    let second = (today, Reply::User(Some(profile)));
    lemma_drop(first, second, second, second);
    lemma_button_names();
    assert(talk(config, request, seq![]).next is Ask);
    let known = talk(config, request, seq![first]);
    if reports(callback, "menu:today"@) {
        assert(asks(known, Query::User { user: callback.user }));
    }
    if reports(callback, "menu:week"@) {
        assert(asks(known, Query::User { user: callback.user }));
    }
}

/// The names of the buttons differ.
pub(crate) proof fn lemma_button_names()
    ensures
        !has_prefix("group:yes"@, "stats:"@),
        !has_prefix("group:no"@, "stats:"@),
        !has_prefix("search:teacher"@, "stats:"@),
        !has_prefix("search:room"@, "stats:"@),
        !has_prefix("menu:today"@, "stats:"@),
        !has_prefix("menu:week"@, "stats:"@),
        !has_prefix("menu:search"@, "stats:"@),
        "group:yes"@.len() == 9,
        "group:no"@.len() == 8,
        "search:teacher"@.len() == 14,
        "search:room"@.len() == 11,
        "menu:today"@.len() == 10,
        "menu:week"@.len() == 9,
        "menu:search"@.len() == 11,
        "menu:week"@[0] == 'm',
        "group:yes"@[0] == 'g',
        "search:room"@[0] == 's',
        "menu:search"@[0] == 'm',
{
    reveal_strlit("stats:");
    reveal_strlit("group:yes");
    reveal_strlit("group:no");
    reveal_strlit("search:teacher");
    reveal_strlit("search:room");
    reveal_strlit("menu:today");
    reveal_strlit("menu:week");
    reveal_strlit("menu:search");
    assert("stats:"@[0] == 's' && "stats:"@[1] == 't' && "stats:"@.len() == 6);
    assert("search:teacher"@.take(6)[1] == 'e' && "search:room"@.take(6)[1] == 'e');
    assert("group:yes"@.take(6)[0] == 'g' && "group:no"@.take(6)[0] == 'g' && "menu:today"@.take(
        6,
    )[0] == 'm' && "menu:week"@.take(6)[0] == 'm' && "menu:search"@.take(6)[0] == 'm');
}

proof fn lemma_group_at(groups: Seq<Seq<char>>, lower: Seq<char>)
    ensures
        match group_at(groups, lowercased(groups), lower) {
            Some(group) => exists|i: int|
                0 <= i < groups.len() && #[trigger] groups[i] == group && lowercase(group) == lower,
            None => forall|i: int|
                0 <= i < groups.len() ==> lowercase(#[trigger] groups[i]) != lower,
        },
    decreases groups.len(),
{
    if groups.len() > 0 {
        let rest = groups.skip(1);
        assert(lowercased(groups)[0] == lowercase(groups[0]));
        assert(lowercased(groups).skip(1) =~= lowercased(rest));
        if lowercase(groups[0]) != lower {
            lemma_group_at(rest, lower);
            match group_at(rest, lowercased(rest), lower) {
                Some(group) => {
                    let i = choose|i: int|
                        0 <= i < rest.len() && #[trigger] rest[i] == group && lowercase(group)
                            == lower;
                    assert(groups[i + 1] == group);
                },
                None => {
                    assert forall|i: int| 0 <= i < groups.len() implies lowercase(
                        #[trigger] groups[i],
                    ) != lower by {
                        if i > 0 {
                            assert(groups[i] == rest[i - 1]);
                        }
                    }
                },
            }
        } else {
            assert(groups[0] == group_at(groups, lowercased(groups), lower).unwrap());
        }
    }
}

/// Someone who is asked for their group and names a published one, whatever the case of its letters,
/// is asked whether that published group is theirs, and it waits for the answer; an unknown name
/// keeps nothing.
#[verifier::spinoff_prover]
#[verifier::rlimit(60)]
pub proof fn named_group_waits_for_its_confirmation(
    config: Config,
    message: Message,
    text: Seq<char>,
    profile: User,
    groups: Vec<String>,
    day: DateView,
    today: DateView,
)
    requires
        tells(message, text),
        is_plain(text),
        text != phrases::NOTIFICATIONS_BUTTON@,
        profile.flow_state@ == "await_group"@,
    ensures
        ({
            let request = Request::Message(message);
            let first = (day, Reply::Allowed(true));
            let second = (today, Reply::User(Some(profile)));
            let third = (day, Reply::Groups(groups));
            let asked = talk(config, request, seq![first, second]);
            let named = talk(config, request, seq![first, second, third]);
            let known = texts(groups@);
            let lower = lowercase(trimmed(text));
            &&& asks(asked, Query::KnownGroups)
            &&& named.next is Done
            &&& (exists|i: int| 0 <= i < known.len() && lowercase(#[trigger] known[i]) == lower)
                ==> exists|i: int, question: Seq<char>|
                {
                    &&& 0 <= i < known.len()
                    &&& lowercase(known[i]) == lower
                    &&& #[trigger] shows(question, known[i])
                    &&& done_since(named, asked) == seq![
                        Effect::SetPendingGroup { user: message.user, group: known[i] },
                        Effect::SendChoice {
                            chat: message.chat,
                            text: question,
                            keyboard: Keyboard::ConfirmGroup,
                        },
                    ]
                }
            &&& (forall|i: int| 0 <= i < known.len() ==> lowercase(#[trigger] known[i]) != lower)
                ==> done_since(named, asked) == seq![
                Effect::SendText { chat: message.chat, text: phrases::UNKNOWN_GROUP@ },
            ]
        }),
{
    broadcast use group_shown;

    lemma_profile_asked(config, message, text, day);
    crate::text::trim_is_idempotent(text);
    let request = Request::Message(message);
    let first = (day, Reply::Allowed(true));
    let second = (today, Reply::User(Some(profile)));
    let third = (day, Reply::Groups(groups));
    lemma_drop(first, second, third, third);
    let asked = talk(config, request, seq![first, second]);
    let known = texts(groups@);
    let lower = lowercase(trimmed(text));
    assert(asks(asked, Query::KnownGroups));
    lemma_group_at(known, lower);
    match published_group(known, trimmed(text)) {
        Some(group) => {
            let i = choose|i: int|
                0 <= i < known.len() && #[trigger] known[i] == group && lowercase(group) == lower;
            let question = "Твоя группа — "@ + group + "?"@;
            assert(shows(question, known[i]));
            let choice = Effect::SendChoice {
                chat: message.chat,
                text: question,
                keyboard: Keyboard::ConfirmGroup,
            };
            lemma_since(
                asked.effects,
                seq![Effect::SetPendingGroup { user: message.user, group: known[i] }, choice],
            );
        },
        None => {
            let effect: Effect<Seq<char>> = Effect::SendText {
                chat: message.chat,
                text: phrases::UNKNOWN_GROUP@,
            };
            lemma_since(asked.effects, seq![effect]);
        },
    }
}

/// The buttons below that question keep or drop the group that waits, and the one who pressed is told
/// which group was kept.
#[verifier::spinoff_prover]
#[verifier::rlimit(60)]
pub proof fn waiting_group_is_kept_or_dropped(
    config: Config,
    callback: Callback,
    group: String,
    day: DateView,
)
    ensures
        ({
            let request = Request::Callback(callback);
            let first = (day, Reply::Allowed(true));
            let second = (day, Reply::GroupConfirmed(Some(group)));
            let asked = talk(config, request, seq![first]);
            let kept = talk(config, request, seq![first, second]);
            &&& reports(callback, "group:yes"@) ==> {
                &&& asks(asked, Query::ConfirmGroup { user: callback.user })
                &&& kept.next is Done
                &&& exists|text: Seq<char>| #[trigger]
                    shows(text, group@) && done_since(kept, asked) == seq![
                        Effect::SendMenu { chat: callback.user, text },
                    ]
            }
            &&& reports(callback, "group:no"@) ==> asked.next is Done && asked.effects.contains(
                Effect::RejectPendingGroup { user: callback.user },
            )
        }),
{
    broadcast use group_shown;

    let request = Request::Callback(callback);
    let first = (day, Reply::Allowed(true));
    let second = (day, Reply::GroupConfirmed(Some(group)));
    lemma_drop(first, second, second, second);
    lemma_button_names();
    assert(talk(config, request, seq![]).next is Ask);
    let asked = talk(config, request, seq![first]);
    if reports(callback, "group:yes"@) {
        assert(asks(asked, Query::ConfirmGroup { user: callback.user }));
        let text = "Группа "@ + group@ + " сохранена."@;
        assert(shows(text, group@));
        let effect = Effect::SendMenu { chat: callback.user, text };
        lemma_since(asked.effects, seq![effect]);
    }
    if reports(callback, "group:no"@) {
        let reject: Effect<Seq<char>> = Effect::RejectPendingGroup { user: callback.user };
        assert(asked.effects[3] == reject);
    }
}

/// The buttons of the search choose what is searched for.
#[verifier::spinoff_prover]
#[verifier::rlimit(60)]
pub proof fn search_buttons_choose_the_kind(config: Config, callback: Callback, day: DateView)
    ensures
        ({
            let request = Request::Callback(callback);
            let chosen = talk(config, request, seq![(day, Reply::Allowed(true))]);
            let user = callback.user;
            &&& reports(callback, "search:teacher"@) ==> chosen.next is Done
                && chosen.effects.contains(
                Effect::SetFlowState {
                    user,
                    state: "await_search_text"@,
                    search_kind: Some("teacher"@),
                },
            )
            &&& reports(callback, "search:room"@) ==> chosen.next is Done
                && chosen.effects.contains(
                Effect::SetFlowState {
                    user,
                    state: "await_search_text"@,
                    search_kind: Some("room"@),
                },
            )
            &&& reports(callback, "menu:search"@) ==> chosen.next is Done
                && chosen.effects.contains(
                Effect::SendChoice {
                    chat: user,
                    text: phrases::SEARCH_QUESTION@,
                    keyboard: Keyboard::Search,
                },
            ) && chosen.effects.contains(
                Effect::SetFlowState { user, state: "await_search_kind"@, search_kind: None },
            )
        }),
{
    let request = Request::Callback(callback);
    let first = (day, Reply::Allowed(true));
    lemma_drop(first, first, first, first);
    lemma_button_names();
    assert(talk(config, request, seq![]).next is Ask);
    let chosen = talk(config, request, seq![first]);
    let user = callback.user;
    if reports(callback, "search:teacher"@) {
        let effect = Effect::SetFlowState {
            user,
            state: "await_search_text"@,
            search_kind: Some("teacher"@),
        };
        assert(chosen.effects[3] == effect);
    }
    if reports(callback, "search:room"@) {
        let effect = Effect::SetFlowState {
            user,
            state: "await_search_text"@,
            search_kind: Some("room"@),
        };
        assert(chosen.effects[3] == effect);
    }
    if reports(callback, "menu:search"@) {
        let state = Effect::SetFlowState {
            user,
            state: "await_search_kind"@,
            search_kind: None,
        };
        let choice = Effect::SendChoice {
            chat: user,
            text: phrases::SEARCH_QUESTION@,
            keyboard: Keyboard::Search,
        };
        assert(chosen.effects[3] == state);
        assert(chosen.effects[4] == choice);
    }
}

/// Whether a text is none of the menu's buttons.
pub open spec fn is_no_button(text: Seq<char>) -> bool {
    &&& text != "Сегодня"@ && text != phrases::TODAY_BUTTON@
    &&& text != "На неделю"@ && text != phrases::WEEK_BUTTON@
    &&& text != "Расширенный поиск"@ && text != phrases::SEARCH_BUTTON@
    &&& text != phrases::NOTIFICATIONS_BUTTON@
}

/// A search looks for what was written: teachers by the words anywhere in their names, rooms by their
/// shown name, from the day of the question on; and the user goes back to the menu with what was
/// found, under a title that tells what was looked for.
#[verifier::spinoff_prover]
#[verifier::rlimit(60)]
pub proof fn search_finds_what_was_written(
    config: Config,
    message: Message,
    text: Seq<char>,
    profile: User,
    fresh: User,
    lessons: Vec<Lesson>,
    day: DateView,
    today: DateView,
)
    requires
        tells(message, text),
        is_plain(text),
        is_no_button(text),
        trimmed(text) == text,
        profile.flow_state@ == "await_search_text"@,
        text_of(fresh.search_kind) == Some("teacher"@) || text_of(fresh.search_kind) == Some(
            "room"@,
        ) || fresh.search_kind is None,
    ensures
        ({
            let request = Request::Message(message);
            let first = (day, Reply::Allowed(true));
            let second = (day, Reply::User(Some(profile)));
            let third = (today, Reply::User(Some(fresh)));
            let fourth = (day, Reply::Lessons(lessons));
            let asked = talk(config, request, seq![first, second, third]);
            let found = talk(config, request, seq![first, second, third, fourth]);
            let by_room = text_of(fresh.search_kind) == Some("room"@);
            let title = if by_room {
                "Поиск аудитории: "@ + room_name(text)
            } else {
                "Поиск преподавателя: "@ + text
            };
            &&& asks(
                asked,
                if by_room {
                    Query::SearchLessons {
                        column: "room"@,
                        pattern: "%"@ + room_name(text) + "%"@,
                        date: today,
                    }
                } else {
                    Query::SearchLessons {
                        column: "teacher"@,
                        pattern: "%"@ + text + "%"@,
                        date: today,
                    }
                },
            )
            &&& found.next is Done
            &&& done_since(found, asked).len() > 0
            &&& done_since(found, asked)[0] == (Effect::SetFlowState {
                user: message.user,
                state: "menu"@,
                search_kind: None,
            })
            &&& lessons@.len() > 0 ==> sends(
                done_since(found, asked).skip(1),
                message.chat,
                schedule_text(title, lessons_view(lessons@), true),
            )
            &&& lessons@.len() == 0 ==> done_since(found, asked).skip(1) == seq![
                Effect::SendMenu { chat: message.chat, text: phrases::NOTHING_FOUND@ },
            ]
        }),
{
    reveal_strlit("await_group");
    reveal_strlit("confirm_group");
    reveal_strlit("await_search_text");
    reveal_strlit("await_search_kind");
    reveal_strlit("room");
    reveal_strlit("teacher");
    assert("await_group"@.len() == 11 && "confirm_group"@.len() == 13 && "await_search_text"@.len()
        == 17 && "await_search_kind"@.len() == 17 && "await_search_text"@[13] == 't'
        && "await_search_kind"@[13] == 'k' && "room"@.len() == 4 && "teacher"@.len() == 7);
    lemma_profile_asked(config, message, text, day);
    let request = Request::Message(message);
    let first = (day, Reply::Allowed(true));
    let second = (day, Reply::User(Some(profile)));
    let third = (today, Reply::User(Some(fresh)));
    let fourth = (day, Reply::Lessons(lessons));
    lemma_drop(first, second, third, fourth);
    let again = talk(config, request, seq![first, second]);
    assert(asks(again, Query::User { user: message.user }));
    let asked = talk(config, request, seq![first, second, third]);
    let found = talk(config, request, seq![first, second, third, fourth]);
    assert(asked.next is Ask);
    assert(lessons_view(lessons@).len() == lessons@.len());
    let by_room = text_of(fresh.search_kind) == Some("room"@);
    let title = if by_room {
        "Поиск аудитории: "@ + room_name(text)
    } else {
        "Поиск преподавателя: "@ + text
    };
    let back: Effect<Seq<char>> = Effect::SetFlowState {
        user: message.user,
        state: "menu"@,
        search_kind: None,
    };
    let nothing: Effect<Seq<char>> = Effect::SendMenu {
        chat: message.chat,
        text: phrases::NOTHING_FOUND@,
    };
    let more = if lessons@.len() == 0 {
        seq![nothing]
    } else {
        says_long(message.chat, schedule_text(title, lessons_view(lessons@), true))
    };
    lemma_since(asked.effects, seq![back] + more);
    assert(done_since(found, asked) == seq![back] + more);
    assert((seq![back] + more).skip(1) =~= more);
}

/// Asking for the daily messages turns them over: they are switched off where they were on, and on
/// where they were off, and the answer says which.
#[verifier::spinoff_prover]
#[verifier::rlimit(60)]
pub proof fn daily_messages_are_turned_over(
    config: Config,
    message: Message,
    profile: User,
    day: DateView,
)
    requires
        tells(message, "🔔 Уведомления"@),
    ensures
        ({
            let request = Request::Message(message);
            let first = (day, Reply::Allowed(true));
            let second = (day, Reply::User(Some(profile)));
            let asked = talk(config, request, seq![first]);
            let turned = talk(config, request, seq![first, second]);
            let enabled = !profile.daily_notifications_enabled;
            &&& asks(asked, Query::User { user: message.user })
            &&& turned.next is Done
            &&& exists|text: Seq<char>|
                #![trigger shows(text, "включены"@)]
                #![trigger shows(text, "выключены"@)]
                {
                    &&& if enabled {
                        shows(text, "включены"@)
                    } else {
                        shows(text, "выключены"@)
                    }
                    &&& done_since(turned, asked) == seq![
                        Effect::SetDailyNotifications { user: message.user, enabled },
                        Effect::SendMenu { chat: message.chat, text },
                    ]
                }
        }),
{
    broadcast use group_shown;

    reveal_strlit("🔔 Уведомления");
    let text = "🔔 Уведомления"@;
    assert(phrases::NOTIFICATIONS_BUTTON@ == text);
    lemma_plain(text);
    let request = Request::Message(message);
    let first = (day, Reply::Allowed(true));
    let second = (day, Reply::User(Some(profile)));
    lemma_drop(first, second, second, second);
    assert(talk(config, request, seq![]).next is Ask);
    let asked = talk(config, request, seq![first]);
    assert(asks(asked, Query::User { user: message.user }));
    let enabled = !profile.daily_notifications_enabled;
    let word = if enabled {
        "включены"@
    } else {
        "выключены"@
    };
    let answer = "Ежедневные уведомления "@ + word + "."@;
    assert(shows(answer, word));
    let turn: Effect<Seq<char>> = Effect::SetDailyNotifications { user: message.user, enabled };
    lemma_since(
        asked.effects,
        seq![turn, Effect::SendMenu { chat: message.chat, text: answer }],
    );
}

/// An upload goes its way: the file of an administrator is fetched and read, its lessons are compared
/// under its name, the file is archived under a key of the upload and attached to it, and the
/// administrator is asked, with the buttons of that upload, whether to publish what was shown.
#[verifier::spinoff_prover]
#[verifier::rlimit(60)]
pub proof fn upload_goes_its_way(
    config: Config,
    message: Message,
    name: String,
    profile: User,
    lower: Seq<char>,
    size: u64,
    lessons: Vec<Lesson>,
    preview: UploadPreview,
    day: DateView,
)
    requires
        message.chat_type == ChatType::Private,
        message.text is None,
        message.document matches Some(document) && document.file_name == Some(name),
        profile.role@ == "admin"@,
        extension(name@) matches Some(ext) && lowercase(ext) == lower,
        lower == "xls"@ || lower == "xlsx"@ || lower == "xlsb"@,
        size <= 15 * 1024 * 1024,
        config.has_archive,
    ensures
        ({
            let request = Request::Message(message);
            let allowed = (day, Reply::Allowed(true));
            let known = (day, Reply::User(Some(profile)));
            let fetched = (day, Reply::Downloaded(size));
            let read = (day, Reply::Parsed(Ok(lessons)));
            let compared = (day, Reply::Previewed(Ok(preview)));
            let saved = (day, Reply::Saved(Ok(())));
            let attached = (day, Reply::Attached(Ok(())));
            let user = message.user;
            let chat = message.chat;
            let id = preview.id;
            let key = "schedule-sources/"@ + id_form(id) + "."@ + lower;
            let last = seq![allowed, known, fetched, read].push(compared).push(saved);
            &&& asks(
                talk(config, request, seq![allowed, known]),
                Query::Download { extension: lower },
            )
            &&& asks(
                talk(config, request, seq![allowed, known, fetched]),
                Query::Parse { extension: lower },
            )
            &&& asks(
                talk(config, request, seq![allowed, known, fetched, read]),
                Query::Preview { user, file_name: name@, lessons: lessons_view(lessons@) },
            )
            &&& asks(
                talk(config, request, seq![allowed, known, fetched, read].push(compared)),
                Query::SaveSource { key },
            )
            &&& asks(talk(config, request, last), Query::AttachSource { id, user, key })
            &&& talk(config, request, last.push(attached)).next is Done
            &&& done_since(
                talk(config, request, last.push(attached)),
                talk(config, request, last),
            ) == seq![
                Effect::SendChoice {
                    chat,
                    text: preview_question(preview@.update),
                    keyboard: Keyboard::Upload(id),
                },
            ]
        }),
{
    let request = Request::Message(message);
    let allowed = (day, Reply::Allowed(true));
    let known = (day, Reply::User(Some(profile)));
    let fetched = (day, Reply::Downloaded(size));
    let read = (day, Reply::Parsed(Ok(lessons)));
    let compared = (day, Reply::Previewed(Ok(preview)));
    let saved = (day, Reply::Saved(Ok(())));
    let attached = (day, Reply::Attached(Ok(())));
    let user = message.user;
    let chat = message.chat;
    let id = preview.id;
    lemma_drop(allowed, known, fetched, read);
    let four = seq![allowed, known, fetched, read];
    let five = four.push(compared);
    let six = five.push(saved);
    let seven = six.push(attached);
    assert(five.drop_last() =~= four);
    assert(six.drop_last() =~= five);
    assert(seven.drop_last() =~= six);
    assert(talk(config, request, seq![]).next is Ask);
    assert(asks(talk(config, request, seq![allowed]), Query::User { user }));
    assert(asks(
        talk(config, request, seq![allowed, known]),
        Query::Download { extension: lower },
    ));
    assert(asks(
        talk(config, request, seq![allowed, known, fetched]),
        Query::Parse { extension: lower },
    ));
    assert(talk(config, request, four).next is Ask);
    assert(talk(config, request, five).next is Ask);
    assert(talk(config, request, six).next is Ask);
    let choice = Effect::SendChoice {
        chat,
        text: preview_question(preview@.update),
        keyboard: Keyboard::Upload(id),
    };
    lemma_since(talk(config, request, six).effects, seq![choice]);
}

/// An upload that cannot be archived or attached is cancelled, its file is deleted where it was
/// archived, and nobody is asked to publish it.
#[verifier::spinoff_prover]
#[verifier::rlimit(60)]
pub proof fn failed_upload_is_cancelled(
    config: Config,
    request: Request,
    user: i64,
    chat: i64,
    id: u128,
    question: Seq<char>,
    key: Seq<char>,
    reason: String,
    today: DateView,
)
    ensures
        ({
            let saving = crate::conversation::State::SourceSaved { user, chat, id, question, key };
            let attaching = crate::conversation::State::SourceAttached {
                user,
                chat,
                id,
                question,
                key,
            };
            let unsaved = crate::handlers::responds(
                config,
                today,
                request,
                saving,
                Reply::Saved(Err(reason)),
            );
            let unattached = crate::handlers::responds(
                config,
                today,
                request,
                attaching,
                Reply::Attached(Err(reason)),
            );
            &&& unsaved.next is Done
            &&& unsaved.effects.contains(Effect::CancelUpload { id, user })
            &&& unattached.next is Done
            &&& unattached.effects.contains(Effect::CancelUpload { id, user })
            &&& unattached.effects.contains(Effect::DeleteSource { key })
            &&& forall|i: int|
                0 <= i < unsaved.effects.len() ==> !((#[trigger] unsaved.effects[i]) is SendChoice)
            &&& forall|i: int|
                0 <= i < unattached.effects.len() ==> !((
                #[trigger] unattached.effects[i]) is SendChoice)
        }),
{
    let saving = crate::conversation::State::SourceSaved { user, chat, id, question, key };
    let attaching = crate::conversation::State::SourceAttached { user, chat, id, question, key };
    let unsaved = crate::handlers::responds(
        config,
        today,
        request,
        saving,
        Reply::Saved(Err(reason)),
    );
    let unattached = crate::handlers::responds(
        config,
        today,
        request,
        attaching,
        Reply::Attached(Err(reason)),
    );
    let cancel: Effect<Seq<char>> = Effect::CancelUpload { id, user };
    let delete: Effect<Seq<char>> = Effect::DeleteSource { key };
    assert(unsaved.effects[0] == cancel);
    assert(unattached.effects[0] == cancel);
    assert(unattached.effects[1] == delete);
}

/// `/start` greets by the profile: someone with a group is shown the menu and told their group, an
/// administrator as such; someone without is asked for their group.
#[verifier::spinoff_prover]
#[verifier::rlimit(60)]
pub proof fn start_greets_by_the_profile(
    config: Config,
    message: Message,
    text: Seq<char>,
    profile: User,
    day: DateView,
)
    requires
        message.chat_type == ChatType::Private,
        text_of(message.text) == Some(text),
        !is_stats_command(text),
        has_prefix(text, "/start"@),
    ensures
        ({
            let request = Request::Message(message);
            let first = (day, Reply::Allowed(true));
            let second = (day, Reply::User(Some(profile)));
            let asked = talk(config, request, seq![first]);
            let greeted = talk(config, request, seq![first, second]);
            let done = done_since(greeted, asked);
            &&& asks(asked, Query::User { user: message.user })
            &&& greeted.next is Done
            &&& text_of(profile.group_code) matches Some(group) ==> {
                &&& done.len() == 1
                &&& done[0] matches Effect::SendMenu { chat, text }
                &&& chat == message.chat
                &&& shows(text, group)
                &&& profile.role@ == "admin"@ ==> shows(text, "/admin_link"@)
            }
            &&& profile.group_code is None ==> {
                &&& done.len() == 2
                &&& done[0] == (Effect::SetFlowState {
                    user: message.user,
                    state: "await_group"@,
                    search_kind: None,
                })
                &&& done[1] == (Effect::SendText {
                    chat: message.chat,
                    text: if profile.role@ == "admin"@ {
                        phrases::ADMIN_WITHOUT_GROUP@
                    } else {
                        phrases::WELCOME@
                    },
                })
            }
        }),
{
    broadcast use group_shown;

    let request = Request::Message(message);
    let first = (day, Reply::Allowed(true));
    let second = (day, Reply::User(Some(profile)));
    lemma_drop(first, second, second, second);
    assert(talk(config, request, seq![]).next is Ask);
    let asked = talk(config, request, seq![first]);
    assert(asks(asked, Query::User { user: message.user }));
    let step = crate::private::greeted(message.user, message.chat, profile@);
    lemma_since(asked.effects, step.effects);
    if let Some(group) = text_of(profile.group_code) {
        let advice =
            ".\nВыбери расписание в меню, отправь Excel для публикации или используй /admin_link."@;
        lemma_advice();
        let admin = "Ты вошёл как администратор. Группа: "@ + group + advice;
        let student = "С возвращением! Твоя группа: "@ + group + "."@;
        assert(shows(admin, group) && shows(admin, "/admin_link"@) && shows(student, group));
    }
}

proof fn lemma_advice()
    ensures
        shows(
            ".\nВыбери расписание в меню, отправь Excel для публикации или используй /admin_link."@,
            "/admin_link"@,
        ),
{
    reveal(shows);
    reveal_strlit(
        ".\nВыбери расписание в меню, отправь Excel для публикации или используй /admin_link.",
    );
    reveal_strlit("/admin_link");
    let advice =
        ".\nВыбери расписание в меню, отправь Excel для публикации или используй /admin_link."@;
    let at = advice.len() - 1 - "/admin_link"@.len();
    assert(advice.subrange(at, at + "/admin_link"@.len()) =~= "/admin_link"@);
}

proof fn lemma_link_text()
    ensures
        !is_stats_command("/admin_link"@),
        !has_prefix("/admin_link"@, "/start"@),
        !has_prefix("/admin_link"@, "/help"@),
        has_prefix("/admin_link"@, "/admin_link"@),
{
    reveal_strlit("/admin_link");
    reveal_strlit("/start");
    reveal_strlit("/help");
    reveal_strlit("/stats");
    reveal_strlit("/stats@");
    let text = "/admin_link"@;
    lemma_word_len(text);
    lemma_word_len(text.skip(1));
    assert(!is_space(text.skip(1)[0]));
    assert(trim_start(text) == text);
    let first = words(text)[0];
    assert(first.len() >= 2 && first[1] == 'a');
    assert("/stats"@[1] == 's' && "/stats@"@[1] == 's');
    if has_prefix(first, "/stats@"@) {
        assert(first.take(7)[1] == 's');
    }
    assert(text.take(6)[1] == 'a' && "/start"@[1] == 's');
    assert(text.take(5)[1] == 'a' && "/help"@[1] == 'h');
    assert(text.take(11) =~= text);
}

/// `/admin_link` makes an invitation for an administrator, and sends a link that opens the bot with
/// its token; nobody else gets one.
#[verifier::spinoff_prover]
#[verifier::rlimit(60)]
pub proof fn admin_link_carries_the_token(
    config: Config,
    message: Message,
    token: String,
    name: String,
    day: DateView,
)
    requires
        message.chat_type == ChatType::Private,
        text_of(message.text) == Some("/admin_link"@),
    ensures
        ({
            let request = Request::Message(message);
            let first = (day, Reply::Allowed(true));
            let no = (day, Reply::Admin(false));
            let yes = (day, Reply::Admin(true));
            let made = (day, Reply::Invite(token));
            let named = (day, Reply::BotName(name));
            let asked = talk(config, request, seq![first]);
            let refused = talk(config, request, seq![first, no]);
            let making = talk(config, request, seq![first, yes]);
            let naming = talk(config, request, seq![first, yes, made]);
            let sent = talk(config, request, seq![first, yes, made, named]);
            &&& asks(asked, Query::IsAdmin { user: message.user })
            &&& refused.next is Done
            &&& done_since(refused, asked) == seq![
                Effect::SendText { chat: message.chat, text: phrases::LINK_FOR_ADMINS@ },
            ]
            &&& asks(making, Query::NewInvite { user: message.user })
            &&& asks(naming, Query::BotName)
            &&& sent.next is Done
            &&& done_since(sent, naming).len() == 1
            &&& done_since(sent, naming)[0] matches Effect::SendText { chat, text }
            &&& chat == message.chat
            &&& shows(text, name@ + "?start=adm_"@ + token@)
        }),
{
    broadcast use group_shown;

    let request = Request::Message(message);
    let first = (day, Reply::Allowed(true));
    let no = (day, Reply::Admin(false));
    let yes = (day, Reply::Admin(true));
    let made = (day, Reply::Invite(token));
    let named = (day, Reply::BotName(name));
    lemma_link_text();
    lemma_drop(first, no, no, no);
    lemma_drop(first, yes, made, named);
    assert(talk(config, request, seq![]).next is Ask);
    let asked = talk(config, request, seq![first]);
    assert(asks(asked, Query::IsAdmin { user: message.user }));
    let refusal: Effect<Seq<char>> = Effect::SendText {
        chat: message.chat,
        text: phrases::LINK_FOR_ADMINS@,
    };
    lemma_since(asked.effects, seq![refusal]);
    assert(asks(talk(config, request, seq![first, yes]), Query::NewInvite { user: message.user }));
    let naming = talk(config, request, seq![first, yes, made]);
    assert(asks(naming, Query::BotName));
    let head = "Одноразовая ссылка действует 15 минут:\nhttps://t.me/"@;
    let link = name@ + "?start=adm_"@ + token@;
    let text = head + name@ + "?start=adm_"@ + token@;
    assert(text =~= head + link);
    assert(shows(text, link));
    lemma_since(naming.effects, seq![Effect::SendText { chat: message.chat, text }]);
}

/// A file is not taken where it should not be: one that is brought by someone else than an
/// administrator, that is no spreadsheet, or that is larger than fifteen megabytes; the sender is told
/// so, and nothing is read.
#[verifier::spinoff_prover]
#[verifier::rlimit(60)]
pub proof fn unfit_file_is_not_taken(
    config: Config,
    message: Message,
    name: String,
    profile: User,
    size: u64,
    day: DateView,
)
    requires
        message.chat_type == ChatType::Private,
        message.text is None,
        message.document matches Some(document) && document.file_name == Some(name),
    ensures
        ({
            let request = Request::Message(message);
            let first = (day, Reply::Allowed(true));
            let second = (day, Reply::User(Some(profile)));
            let third = (day, Reply::Downloaded(size));
            let known = talk(config, request, seq![first]);
            let taken = talk(config, request, seq![first, second]);
            let fetched = talk(config, request, seq![first, second, third]);
            let lower = lowercase(
                match extension(name@) {
                    Some(ext) => ext,
                    None => seq![],
                },
            );
            let fits = lower == "xls"@ || lower == "xlsx"@ || lower == "xlsb"@;
            &&& asks(known, Query::User { user: message.user })
            &&& profile.role@ != "admin"@ ==> taken.next is Done && done_since(taken, known)
                == seq![
                Effect::SendText { chat: message.chat, text: phrases::UPLOADS_FOR_ADMINS@ },
            ]
            &&& profile.role@ == "admin"@ && !fits ==> taken.next is Done && done_since(
                taken,
                known,
            ) == seq![Effect::SendText { chat: message.chat, text: phrases::SUPPORTED_FILES@ }]
            &&& profile.role@ == "admin"@ && fits && size > 15 * 1024 * 1024 ==> {
                &&& asks(taken, Query::Download { extension: lower })
                &&& fetched.next is Done
                &&& done_since(fetched, taken) == seq![
                    Effect::SendText { chat: message.chat, text: phrases::FILE_TOO_LARGE@ },
                ]
            }
        }),
{
    let request = Request::Message(message);
    let first = (day, Reply::Allowed(true));
    let second = (day, Reply::User(Some(profile)));
    let third = (day, Reply::Downloaded(size));
    lemma_drop(first, second, third, third);
    assert(talk(config, request, seq![]).next is Ask);
    let known = talk(config, request, seq![first]);
    let taken = talk(config, request, seq![first, second]);
    assert(asks(known, Query::User { user: message.user }));
    let admins: Effect<Seq<char>> = Effect::SendText {
        chat: message.chat,
        text: phrases::UPLOADS_FOR_ADMINS@,
    };
    let files: Effect<Seq<char>> = Effect::SendText {
        chat: message.chat,
        text: phrases::SUPPORTED_FILES@,
    };
    let large: Effect<Seq<char>> = Effect::SendText {
        chat: message.chat,
        text: phrases::FILE_TOO_LARGE@,
    };
    lemma_since(known.effects, seq![admins]);
    lemma_since(known.effects, seq![files]);
    lemma_since(taken.effects, seq![large]);
}

/// A file whose timetable cannot be read or kept is answered with the reason.
#[verifier::spinoff_prover]
#[verifier::rlimit(60)]
pub proof fn unread_file_is_answered_with_the_reason(
    config: Config,
    request: Request,
    user: i64,
    chat: i64,
    file_name: Seq<char>,
    lower: Seq<char>,
    error: ParseError,
    reason: String,
    today: DateView,
)
    requires
        error !is BrokenOff,
    ensures
        ({
            let reading = crate::conversation::State::FileRead {
                user,
                chat,
                file_name,
                extension: lower,
            };
            let comparing = crate::conversation::State::UploadPreviewed {
                user,
                chat,
                extension: lower,
            };
            let unread = crate::handlers::responds(
                config,
                today,
                request,
                reading,
                Reply::Parsed(Err(error)),
            );
            let unkept = crate::handlers::responds(
                config,
                today,
                request,
                comparing,
                Reply::Previewed(Err(reason)),
            );
            &&& unread.next is Done
            &&& unread.effects.len() == 1
            &&& unread.effects[0] matches Effect::SendText { chat: to, text }
            &&& to == chat
            &&& shows(text, error.text())
            &&& unkept.next is Done
            &&& unkept.effects.len() == 1
            &&& unkept.effects[0] matches Effect::SendText { chat: to, text }
            &&& to == chat
            &&& shows(text, reason@)
        }),
{
    broadcast use group_shown;

    assert(shows("Не распознал расписание в файле: "@ + error.text(), error.text()));
    assert(shows("Файл не прошёл проверку: "@ + reason@, reason@));
}

/// The buttons of an upload publish it or drop it: the store is asked for that upload of the one who
/// pressed; a publication is reported with its week, and a dropped upload leaves no file in the
/// archive.
#[verifier::spinoff_prover]
#[verifier::rlimit(60)]
pub proof fn upload_buttons_publish_or_drop(
    config: Config,
    callback: Callback,
    id: u128,
    publication: crate::store::Publication,
    key: String,
    day: DateView,
)
    ensures
        ({
            let request = Request::Callback(callback);
            let first = (day, Reply::Allowed(true));
            let published = (day, Reply::Published(publication));
            let dropped = (
                day,
                Reply::Cancelled { cancelled: true, source_key: Some(key) },
            );
            let kept = (day, Reply::Cancelled { cancelled: false, source_key: None });
            let asked = talk(config, request, seq![first]);
            let user = callback.user;
            let data = pressed(callback);
            &&& has_prefix(data, "upload:confirm:"@) && crate::action::named_upload(
                data,
                "upload:confirm:"@,
            ) == Some(id) ==> {
                let told = talk(config, request, seq![first, published]);
                &&& asks(asked, Query::ConfirmUpload { id, user })
                &&& told.next is Done
                &&& done_since(told, asked) == seq![
                    Effect::SendText {
                        chat: user,
                        text: crate::store::publication_notice(publication@),
                    },
                ]
            }
            &&& has_prefix(data, "upload:cancel:"@) && crate::action::named_upload(
                data,
                "upload:cancel:"@,
            ) == Some(id) ==> {
                let gone = talk(config, request, seq![first, dropped]);
                let stays = talk(config, request, seq![first, kept]);
                &&& asks(asked, Query::CancelUpload { id, user })
                &&& gone.next is Done
                &&& config.has_archive ==> done_since(gone, asked) == seq![
                    Effect::DeleteSource { key: key@ },
                    Effect::SendText { chat: user, text: phrases::UPLOAD_CANCELLED@ },
                ]
                &&& stays.next is Done
                &&& done_since(stays, asked) == seq![
                    Effect::<Seq<char>>::SendText {
                        chat: user,
                        text: phrases::UPLOAD_NOT_CANCELLED@,
                    },
                ]
            }
            &&& (has_prefix(data, "upload:confirm:"@) && crate::action::named_upload(
                data,
                "upload:confirm:"@,
            ) is None) || (has_prefix(data, "upload:cancel:"@) && crate::action::named_upload(
                data,
                "upload:cancel:"@,
            ) is None) ==> asked.next == crate::action::Next::<
                Query<Seq<char>, DateView, Seq<crate::lesson::LessonView>>,
                crate::conversation::StateView,
            >::Fail(Failure::BadUploadId)
        }),
{
    let request = Request::Callback(callback);
    let first = (day, Reply::Allowed(true));
    let published = (day, Reply::Published(publication));
    let dropped = (day, Reply::Cancelled { cancelled: true, source_key: Some(key) });
    let kept = (day, Reply::Cancelled { cancelled: false, source_key: None });
    let user = callback.user;
    let data = pressed(callback);
    lemma_drop(first, published, published, published);
    lemma_drop(first, dropped, dropped, dropped);
    lemma_drop(first, kept, kept, kept);
    assert(talk(config, request, seq![]).next is Ask);
    let asked = talk(config, request, seq![first]);
    if has_prefix(data, "upload:confirm:"@) || has_prefix(data, "upload:cancel:"@) {
        lemma_upload_data(data);
        let report: Effect<Seq<char>> = Effect::SendText {
            chat: user,
            text: crate::store::publication_notice(publication@),
        };
        let delete: Effect<Seq<char>> = Effect::DeleteSource { key: key@ };
        let cancelled: Effect<Seq<char>> = Effect::SendText {
            chat: user,
            text: phrases::UPLOAD_CANCELLED@,
        };
        let stays: Effect<Seq<char>> = Effect::SendText {
            chat: user,
            text: phrases::UPLOAD_NOT_CANCELLED@,
        };
        lemma_since(asked.effects, seq![report]);
        lemma_since(asked.effects, seq![delete].push(cancelled));
        assert(seq![delete].push(cancelled) =~= seq![delete, cancelled]);
        lemma_since(asked.effects, seq![stays]);
    }
}

proof fn lemma_upload_data(data: Seq<char>)
    requires
        has_prefix(data, "upload:confirm:"@) || has_prefix(data, "upload:cancel:"@),
    ensures
        crate::text::without_prefix(data, "stats:"@) is None,
        data != "group:yes"@,
        data != "group:no"@,
        data != "search:teacher"@,
        data != "search:room"@,
        data != "menu:today"@,
        data != "menu:week"@,
        data != "menu:search"@,
        !(has_prefix(data, "upload:confirm:"@) && has_prefix(data, "upload:cancel:"@)),
{
    reveal_strlit("upload:confirm:");
    reveal_strlit("upload:cancel:");
    reveal_strlit("stats:");
    reveal_strlit("group:yes");
    reveal_strlit("group:no");
    reveal_strlit("search:teacher");
    reveal_strlit("search:room");
    reveal_strlit("menu:today");
    reveal_strlit("menu:week");
    reveal_strlit("menu:search");
    if has_prefix(data, "upload:confirm:"@) {
        assert(data[0] == data.take(15)[0] && data[8] == data.take(15)[8]);
    }
    if has_prefix(data, "upload:cancel:"@) {
        assert(data[0] == data.take(14)[0] && data[8] == data.take(14)[8]);
    }
    assert(data[0] == 'u');
    assert("upload:confirm:"@[8] == 'o' && "upload:cancel:"@[8] == 'a');
    if has_prefix(data, "stats:"@) {
        assert(data.take(6)[0] == 's');
    }
    assert("group:yes"@[0] == 'g' && "group:no"@[0] == 'g' && "search:teacher"@[0] == 's'
        && "search:room"@[0] == 's' && "menu:today"@[0] == 'm' && "menu:week"@[0] == 'm'
        && "menu:search"@[0] == 'm');
}

} // verus!
