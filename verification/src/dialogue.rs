//! What conversations come to: from a request, over the answers, to what is asked and sent.

use crate::action::{says_long, Effect, Membership, Next, Query, Reply};
use crate::conversation::{ChatType, Config, Message, Request};
use crate::date::{date_in, dotted, DateView};
use crate::format::schedule_text;
use crate::group::{command_in, spelled, CommandView};
use crate::handlers::{talk, Talk};
use crate::lesson::{lessons_view, Lesson, LessonView};
use crate::parts::parts_of;
use crate::phrases;
use crate::showing::{group_shown, shows};
use crate::text::{ascii_lowered, texts, trimmed};
use vstd::prelude::*;

verus! {

/// What a conversation has done since an earlier point.
pub open spec fn done_since(now: Talk, earlier: Talk) -> Seq<Effect<Seq<char>>> {
    now.effects.skip(earlier.effects.len() as int)
}

/// Whether effects send a text to a chat, cut into messages where it is long.
pub open spec fn sends(effects: Seq<Effect<Seq<char>>>, chat: i64, text: Seq<char>) -> bool {
    &&& effects.len() == parts_of(text).len()
    &&& forall|i: int|
        0 <= i < effects.len() ==> #[trigger] effects[i] == (Effect::SendText {
            chat,
            text: parts_of(text)[i],
        })
}

/// Whether a conversation asks a question next.
pub open spec fn asks(talk: Talk, query: Query<Seq<char>, DateView, Seq<LessonView>>) -> bool {
    talk.next matches Next::Ask(asked, _) && asked == query
}

pub(crate) proof fn lemma_drop<T>(a: T, b: T, c: T, d: T)
    ensures
        seq![a].drop_last() == Seq::<T>::empty(),
        seq![a, b].drop_last() == seq![a],
        seq![a, b, c].drop_last() == seq![a, b],
        seq![a, b, c, d].drop_last() == seq![a, b, c],
{
    assert(seq![a].drop_last() =~= Seq::<T>::empty());
    assert(seq![a, b].drop_last() =~= seq![a]);
    assert(seq![a, b, c].drop_last() =~= seq![a, b]);
    assert(seq![a, b, c, d].drop_last() =~= seq![a, b, c]);
}

pub(crate) proof fn lemma_since(before: Seq<Effect<Seq<char>>>, more: Seq<Effect<Seq<char>>>)
    ensures
        (before + more).skip(before.len() as int) == more,
{
    assert((before + more).skip(before.len() as int) =~= more);
}

/// Whether a message to a group chat gives the bot a command.
pub open spec fn commands(
    config: Config,
    message: Message,
    name: Seq<char>,
    arguments: Seq<Seq<char>>,
) -> bool {
    &&& message.chat_type == ChatType::Group
    &&& message.text matches Some(text) && command_in(trimmed(text@), config.bot_username@) == Some(
        CommandView { name, arguments },
    )
}

/// `/week` in a group chat shows the week: the store is asked for the lessons of the week of the
/// chat's group, and what it gives is sent under the name of the group, with dates.
#[verifier::spinoff_prover]
#[verifier::rlimit(60)]
pub proof fn week_command_shows_the_week(
    config: Config,
    message: Message,
    arguments: Seq<Seq<char>>,
    group: String,
    lessons: Vec<Lesson>,
    day: DateView,
    today: DateView,
)
    requires
        commands(config, message, "week"@, arguments),
    ensures
        ({
            let request = Request::Message(message);
            let first = (day, Reply::Allowed(true));
            let second = (today, Reply::ChatGroup(Some(group)));
            let third = (day, Reply::Lessons(lessons));
            let asked = talk(config, request, seq![first, second]);
            let shown = talk(config, request, seq![first, second, third]);
            &&& asks(talk(config, request, seq![first]), Query::ChatGroup { chat: message.chat })
            &&& asks(asked, Query::WeekLessons { group: group@, date: today })
            &&& shown.next is Done
            &&& lessons@.len() > 0 ==> sends(
                done_since(shown, asked),
                message.chat,
                schedule_text("На неделю · группа "@ + group@, lessons_view(lessons@), true),
            )
            &&& lessons@.len() == 0 ==> exists|text: Seq<char>|
                #[trigger] shows(text, group@) && done_since(shown, asked) == seq![
                    Effect::SendText { chat: message.chat, text },
                ]
        }),
{
    broadcast use group_shown;

    reveal_strlit("week");
    reveal_strlit("disable");
    reveal_strlit("setgroup");
    reveal_strlit("group");
    reveal_strlit("today");
    assert("week"@[0] == 'w' && "disable"@[0] == 'd' && "setgroup"@[0] == 's' && "group"@[0] == 'g'
        && "today"@[0] == 't');
    let first = (day, Reply::Allowed(true));
    let second = (today, Reply::ChatGroup(Some(group)));
    let third = (day, Reply::Lessons(lessons));
    let request = Request::Message(message);
    lemma_drop(first, second, third, third);
    let asked = talk(config, request, seq![first, second]);
    let shown = talk(config, request, seq![first, second, third]);
    assert(talk(config, request, seq![]).next is Ask);
    assert(asks(talk(config, request, seq![first]), Query::ChatGroup { chat: message.chat }));
    assert(asks(asked, Query::WeekLessons { group: group@, date: today }));
    assert(lessons_view(lessons@).len() == lessons@.len());
    let title = "На неделю · группа "@ + group@;
    let text = schedule_text(title, lessons_view(lessons@), true);
    if lessons@.len() > 0 {
        lemma_since(asked.effects, says_long(message.chat, text));
    } else {
        let nothing = "На неделю для группы "@ + group@ + " расписания не нашёл."@;
        assert(shows(nothing, group@));
        let effect = Effect::SendText { chat: message.chat, text: nothing };
        lemma_since(asked.effects, seq![effect]);
    }
}

/// `/today` in a group chat shows the day: the store is asked for the lessons of the chat's group on
/// the day of the question, and what it gives is sent under the name of the group.
#[verifier::spinoff_prover]
#[verifier::rlimit(60)]
pub proof fn today_command_shows_the_day(
    config: Config,
    message: Message,
    arguments: Seq<Seq<char>>,
    group: String,
    lessons: Vec<Lesson>,
    day: DateView,
    today: DateView,
)
    requires
        commands(config, message, "today"@, arguments),
    ensures
        ({
            let request = Request::Message(message);
            let first = (day, Reply::Allowed(true));
            let second = (today, Reply::ChatGroup(Some(group)));
            let third = (day, Reply::Lessons(lessons));
            let asked = talk(config, request, seq![first, second]);
            let shown = talk(config, request, seq![first, second, third]);
            &&& asks(talk(config, request, seq![first]), Query::ChatGroup { chat: message.chat })
            &&& asks(asked, Query::TodayLessons { group: group@, date: today })
            &&& shown.next is Done
            &&& lessons@.len() > 0 ==> sends(
                done_since(shown, asked),
                message.chat,
                schedule_text("Сегодня · группа "@ + group@, lessons_view(lessons@), false),
            )
            &&& lessons@.len() == 0 ==> exists|text: Seq<char>|
                #[trigger] shows(text, group@) && shows(text, dotted(today)) && done_since(shown, asked)
                    == seq![Effect::SendText { chat: message.chat, text }]
        }),
{
    broadcast use group_shown;

    reveal_strlit("disable");
    reveal_strlit("setgroup");
    reveal_strlit("group");
    reveal_strlit("today");
    assert("disable"@[0] == 'd' && "setgroup"@[0] == 's' && "group"@[0] == 'g' && "today"@[0]
        == 't');
    let first = (day, Reply::Allowed(true));
    let second = (today, Reply::ChatGroup(Some(group)));
    let third = (day, Reply::Lessons(lessons));
    let request = Request::Message(message);
    lemma_drop(first, second, third, third);
    let asked = talk(config, request, seq![first, second]);
    let shown = talk(config, request, seq![first, second, third]);
    assert(talk(config, request, seq![]).next is Ask);
    assert(asks(talk(config, request, seq![first]), Query::ChatGroup { chat: message.chat }));
    assert(asks(asked, Query::TodayLessons { group: group@, date: today }));
    assert(lessons_view(lessons@).len() == lessons@.len());
    let title = "Сегодня · группа "@ + group@;
    let text = schedule_text(title, lessons_view(lessons@), false);
    if lessons@.len() > 0 {
        lemma_since(asked.effects, says_long(message.chat, text));
    } else {
        let nothing = "На "@ + dotted(today) + " для группы "@ + group@ + " пар не нашёл."@;
        assert(shows(nothing, group@));
        assert(shows(nothing, dotted(today)));
        let effect = Effect::SendText { chat: message.chat, text: nothing };
        lemma_since(asked.effects, seq![effect]);
    }
}

/// `/day` with a date in a group chat shows that day: the store is asked for the lessons of the
/// chat's group on the named day, whatever day it is, and what it gives is sent under the date and
/// the name of the group. Without a date that can be read nothing is asked.
#[verifier::spinoff_prover]
#[verifier::rlimit(60)]
pub proof fn day_command_shows_the_named_day(
    config: Config,
    message: Message,
    arguments: Seq<Seq<char>>,
    group: String,
    lessons: Vec<Lesson>,
    day: DateView,
    today: DateView,
)
    requires
        commands(config, message, "day"@, arguments),
    ensures
        ({
            let request = Request::Message(message);
            let first = (day, Reply::Allowed(true));
            let second = (today, Reply::ChatGroup(Some(group)));
            let third = (day, Reply::Lessons(lessons));
            let asked = talk(config, request, seq![first, second]);
            let shown = talk(config, request, seq![first, second, third]);
            let named = date_in(arguments[0], "%d.%m.%Y"@);
            &&& asks(talk(config, request, seq![first]), Query::ChatGroup { chat: message.chat })
            &&& arguments.len() == 1 ==> (named matches Some(date) ==> {
                &&& asks(asked, Query::TodayLessons { group: group@, date })
                &&& shown.next is Done
                &&& lessons@.len() > 0 ==> sends(
                    done_since(shown, asked),
                    message.chat,
                    schedule_text(
                        dotted(date) + " · группа "@ + group@,
                        lessons_view(lessons@),
                        true,
                    ),
                )
                &&& lessons@.len() == 0 ==> exists|text: Seq<char>|
                    #[trigger] shows(text, group@) && shows(text, dotted(date)) && done_since(shown, asked)
                        == seq![Effect::SendText { chat: message.chat, text }]
            })
            &&& arguments.len() != 1 || named is None ==> asked.next is Done && done_since(
                asked,
                talk(config, request, seq![first]),
            ) == seq![Effect::SendText { chat: message.chat, text: phrases::DAY_USAGE@ }]
        }),
{
    broadcast use group_shown;

    reveal_strlit("disable");
    reveal_strlit("setgroup");
    reveal_strlit("group");
    reveal_strlit("today");
    reveal_strlit("week");
    reveal_strlit("day");
    assert("disable"@.len() == 7 && "setgroup"@.len() == 8 && "group"@.len() == 5 && "today"@.len()
        == 5 && "week"@.len() == 4 && "day"@.len() == 3);
    let first = (day, Reply::Allowed(true));
    let second = (today, Reply::ChatGroup(Some(group)));
    let third = (day, Reply::Lessons(lessons));
    let request = Request::Message(message);
    lemma_drop(first, second, third, third);
    let begun = talk(config, request, seq![first]);
    let asked = talk(config, request, seq![first, second]);
    let shown = talk(config, request, seq![first, second, third]);
    assert(talk(config, request, seq![]).next is Ask);
    assert(asks(begun, Query::ChatGroup { chat: message.chat }));
    assert(lessons_view(lessons@).len() == lessons@.len());
    let named = date_in(arguments[0], "%d.%m.%Y"@);
    if arguments.len() == 1 && named is Some {
        let date = named.unwrap();
        assert(asks(asked, Query::TodayLessons { group: group@, date }));
        let title = dotted(date) + " · группа "@ + group@;
        let text = schedule_text(title, lessons_view(lessons@), true);
        if lessons@.len() > 0 {
            lemma_since(asked.effects, says_long(message.chat, text));
        } else {
            let nothing = "На "@ + dotted(date) + " для группы "@ + group@ + " пар не нашёл."@;
            assert(shows(nothing, group@));
            assert(shows(nothing, dotted(date)));
            let effect = Effect::SendText { chat: message.chat, text: nothing };
            lemma_since(asked.effects, seq![effect]);
        }
    } else {
        let effect: Effect<Seq<char>> = Effect::SendText {
            chat: message.chat,
            text: phrases::DAY_USAGE@,
        };
        lemma_since(begun.effects, seq![effect]);
    }
}

/// A chat without a group is told so, whatever timetable it asks for; nothing else is asked.
#[verifier::spinoff_prover]
#[verifier::rlimit(60)]
pub proof fn chat_without_a_group_is_told_so(
    config: Config,
    message: Message,
    name: Seq<char>,
    arguments: Seq<Seq<char>>,
    day: DateView,
)
    requires
        commands(config, message, name, arguments),
        name == "today"@ || name == "week"@ || name == "day"@ || name == "group"@,
    ensures
        ({
            let request = Request::Message(message);
            let first = (day, Reply::Allowed(true));
            let second = (day, Reply::ChatGroup(None));
            let asked = talk(config, request, seq![first]);
            let shown = talk(config, request, seq![first, second]);
            &&& asks(asked, Query::ChatGroup { chat: message.chat })
            &&& shown.next is Done
            &&& done_since(shown, asked) == seq![
                Effect::SendText { chat: message.chat, text: phrases::CHAT_WITHOUT_GROUP@ },
            ]
        }),
{
    reveal_strlit("disable");
    reveal_strlit("setgroup");
    reveal_strlit("group");
    reveal_strlit("today");
    reveal_strlit("week");
    reveal_strlit("day");
    assert("disable"@.len() == 7 && "setgroup"@.len() == 8 && "group"@.len() == 5 && "today"@.len()
        == 5 && "week"@.len() == 4 && "day"@.len() == 3 && "today"@[0] == 't' && "group"@[0]
        == 'g');
    let first = (day, Reply::Allowed(true));
    let second = (day, Reply::ChatGroup(None));
    let request = Request::Message(message);
    lemma_drop(first, second, second, second);
    let asked = talk(config, request, seq![first]);
    assert(talk(config, request, seq![]).next is Ask);
    assert(asks(asked, Query::ChatGroup { chat: message.chat }));
    let effect: Effect<Seq<char>> = Effect::SendText {
        chat: message.chat,
        text: phrases::CHAT_WITHOUT_GROUP@,
    };
    lemma_since(asked.effects, seq![effect]);
}

proof fn lemma_spelled(groups: Seq<Seq<char>>, text: Seq<char>)
    ensures
        match spelled(groups, text) {
            Some(group) => exists|i: int|
                0 <= i < groups.len() && #[trigger] groups[i] == group && ascii_lowered(group)
                    == ascii_lowered(text),
            None => forall|i: int|
                0 <= i < groups.len() ==> ascii_lowered(#[trigger] groups[i]) != ascii_lowered(
                    text,
                ),
        },
    decreases groups.len(),
{
    if groups.len() > 0 && ascii_lowered(groups[0]) != ascii_lowered(text) {
        let rest = groups.skip(1);
        lemma_spelled(rest, text);
        match spelled(rest, text) {
            Some(group) => {
                let i = choose|i: int|
                    0 <= i < rest.len() && #[trigger] rest[i] == group && ascii_lowered(group)
                        == ascii_lowered(text);
                assert(groups[i + 1] == group);
            },
            None => {
                assert forall|i: int| 0 <= i < groups.len() implies ascii_lowered(
                    #[trigger] groups[i],
                ) != ascii_lowered(text) by {
                    if i > 0 {
                        assert(groups[i] == rest[i - 1]);
                    }
                }
            },
        }
    } else if groups.len() > 0 {
        assert(groups[0] == spelled(groups, text).unwrap());
    }
}

/// `/setgroup` with a name, from an administrator of the chat, binds the chat to the published group
/// of that name, whatever the case of its ASCII letters, and tells which one; an unknown name binds
/// nothing.
#[verifier::spinoff_prover]
#[verifier::rlimit(60)]
pub proof fn setgroup_binds_a_published_group(
    config: Config,
    message: Message,
    argument: Seq<char>,
    groups: Vec<String>,
    day: DateView,
)
    requires
        commands(config, message, "setgroup"@, seq![argument]),
    ensures
        ({
            let request = Request::Message(message);
            let first = (day, Reply::Allowed(true));
            let second = (day, Reply::Member(Membership::Admin));
            let third = (day, Reply::Groups(groups));
            let asked = talk(config, request, seq![first, second]);
            let bound = talk(config, request, seq![first, second, third]);
            let known = texts(groups@);
            let user = message.user;
            let chat = message.chat;
            &&& asks(talk(config, request, seq![first]), Query::Member { chat, user })
            &&& asks(asked, Query::KnownGroups)
            &&& bound.next is Done
            &&& (exists|i: int|
                0 <= i < known.len() && ascii_lowered(#[trigger] known[i]) == ascii_lowered(
                    argument,
                )) ==> exists|i: int, text: Seq<char>|
                {
                    &&& 0 <= i < known.len()
                    &&& ascii_lowered(known[i]) == ascii_lowered(argument)
                    &&& #[trigger] shows(text, known[i])
                    &&& done_since(bound, asked) == seq![
                        Effect::SetChatGroup { chat, group: known[i], by: user },
                        Effect::SendText { chat, text },
                    ]
                }
            &&& (forall|i: int|
                0 <= i < known.len() ==> ascii_lowered(#[trigger] known[i]) != ascii_lowered(
                    argument,
                )) ==> done_since(bound, asked) == seq![
                Effect::SendText { chat, text: phrases::UNKNOWN_CHAT_GROUP@ },
            ]
        }),
{
    broadcast use group_shown;

    reveal_strlit("disable");
    reveal_strlit("setgroup");
    assert("disable"@.len() == 7 && "setgroup"@.len() == 8);
    let first = (day, Reply::Allowed(true));
    let second = (day, Reply::Member(Membership::Admin));
    let third = (day, Reply::Groups(groups));
    let request = Request::Message(message);
    lemma_drop(first, second, third, third);
    let asked = talk(config, request, seq![first, second]);
    let bound = talk(config, request, seq![first, second, third]);
    let known = texts(groups@);
    let user = message.user;
    let chat = message.chat;
    assert(talk(config, request, seq![]).next is Ask);
    assert(asks(talk(config, request, seq![first]), Query::Member { chat, user }));
    assert(asks(asked, Query::KnownGroups));
    lemma_spelled(known, argument);
    match spelled(known, argument) {
        Some(group) => {
            let i = choose|i: int|
                0 <= i < known.len() && #[trigger] known[i] == group && ascii_lowered(group)
                    == ascii_lowered(argument);
            let text = "✅ Чат привязан к группе "@ + group
                + ". Доступны /today, /week и /day ДД.ММ.ГГГГ."@;
            assert(shows(text, known[i]));
            let effect = Effect::SendText { chat, text };
            lemma_since(
                asked.effects,
                seq![Effect::SetChatGroup { chat, group: known[i], by: user }, effect],
            );
        },
        None => {
            let effect: Effect<Seq<char>> = Effect::SendText {
                chat,
                text: phrases::UNKNOWN_CHAT_GROUP@,
            };
            lemma_since(asked.effects, seq![effect]);
        },
    }
}

/// `/disable` from an administrator of the chat forgets the chat's group and says whether there was
/// one; `/group` tells it.
#[verifier::spinoff_prover]
#[verifier::rlimit(60)]
pub proof fn disable_and_group_speak_of_the_chat(
    config: Config,
    message: Message,
    name: Seq<char>,
    arguments: Seq<Seq<char>>,
    removed: bool,
    group: String,
    day: DateView,
)
    requires
        commands(config, message, name, arguments),
    ensures
        name == "disable"@ ==> ({
            let request = Request::Message(message);
            let first = (day, Reply::Allowed(true));
            let second = (day, Reply::Member(Membership::Admin));
            let third = (day, Reply::Removed(removed));
            let asked = talk(config, request, seq![first, second]);
            let done = talk(config, request, seq![first, second, third]);
            &&& asks(
                talk(config, request, seq![first]),
                Query::Member { chat: message.chat, user: message.user },
            )
            &&& asks(asked, Query::RemoveChatGroup { chat: message.chat })
            &&& done.next is Done
            &&& done_since(done, asked) == seq![
                Effect::SendText {
                    chat: message.chat,
                    text: if removed {
                        phrases::DISABLED@
                    } else {
                        phrases::NOT_ENABLED@
                    },
                },
            ]
        }),
        name == "group"@ ==> ({
            let request = Request::Message(message);
            let first = (day, Reply::Allowed(true));
            let second = (day, Reply::ChatGroup(Some(group)));
            let asked = talk(config, request, seq![first]);
            let done = talk(config, request, seq![first, second]);
            &&& asks(asked, Query::ChatGroup { chat: message.chat })
            &&& done.next is Done
            &&& exists|text: Seq<char>|
                #[trigger] shows(text, group@) && done_since(done, asked) == seq![
                    Effect::SendText { chat: message.chat, text },
                ]
        }),
{
    broadcast use group_shown;

    reveal_strlit("disable");
    reveal_strlit("setgroup");
    reveal_strlit("group");
    assert("disable"@.len() == 7 && "setgroup"@.len() == 8 && "group"@.len() == 5);
    let request = Request::Message(message);
    let first = (day, Reply::Allowed(true));
    assert(talk(config, request, seq![]).next is Ask);
    if name == "disable"@ {
        let second = (day, Reply::Member(Membership::Admin));
        let third = (day, Reply::Removed(removed));
        lemma_drop(first, second, third, third);
        let asked = talk(config, request, seq![first, second]);
        assert(asks(
            talk(config, request, seq![first]),
            Query::Member { chat: message.chat, user: message.user },
        ));
        assert(asks(asked, Query::RemoveChatGroup { chat: message.chat }));
        let effect: Effect<Seq<char>> = Effect::SendText {
            chat: message.chat,
            text: if removed {
                phrases::DISABLED@
            } else {
                phrases::NOT_ENABLED@
            },
        };
        lemma_since(asked.effects, seq![effect]);
    }
    if name == "group"@ {
        let second = (day, Reply::ChatGroup(Some(group)));
        lemma_drop(first, second, second, second);
        let asked = talk(config, request, seq![first]);
        assert(asks(asked, Query::ChatGroup { chat: message.chat }));
        let text = "Для этого чата выбрана группа "@ + group@ + "."@;
        assert(shows(text, group@));
        let effect = Effect::SendText { chat: message.chat, text };
        lemma_since(asked.effects, seq![effect]);
    }
}

} // verus!
