//! Commands in group chats.

use crate::action::{
    ask, asking, finish, finish_with_text, finished, none, one, precede, preceded, says, Effect,
    Membership, Query,
};
use crate::conversation::{
    send_schedule, sends_schedule, Config, Message, Span, State, Step, StepView,
};
use crate::date::{date_in, date_of, dotted, parse_from_str, Date, DateView};
use crate::lesson::{lessons_view, Lesson, LessonView};
use crate::phrases;
use crate::stats::Metric;
use crate::text::{
    ascii_lowered, concat2, concat3, eq_ignore_ascii_case, same_text, split_at_first, split_once,
    split_whitespace, str_of, strip_prefix, text_of, texts, to_ascii_lowercase, trim, trimmed,
    without_prefix, words,
};
use vstd::prelude::*;

verus! {

/// A command and its arguments.
pub struct CommandView {
    pub name: Seq<char>,
    pub arguments: Seq<Seq<char>>,
}

/// The command that a text gives to the bot: a slash and a name, behind which `@` may name the
/// bot, then the arguments. A command that names another bot is none.
pub open spec fn command_in(text: Seq<char>, bot_username: Seq<char>) -> Option<CommandView> {
    let all = words(text);
    if all.len() == 0 {
        None
    } else {
        match without_prefix(all[0], "/"@) {
            None => None,
            Some(command) => match split_at_first(command, '@') {
                None => Some(
                    CommandView { name: ascii_lowered(command), arguments: all.skip(1) },
                ),
                Some((name, mention)) => if ascii_lowered(mention) == ascii_lowered(
                    bot_username,
                ) {
                    Some(CommandView { name: ascii_lowered(name), arguments: all.skip(1) })
                } else {
                    None
                },
            },
        }
    }
}

/// The contents of a parsed command.
pub open spec fn command_view(command: Option<(String, Vec<String>)>) -> Option<CommandView> {
    match command {
        Some((name, arguments)) => Some(
            CommandView { name: name@, arguments: texts(arguments@) },
        ),
        None => None,
    }
}

fn rest_of(list: Vec<String>) -> (r: Vec<String>)
    requires
        list@.len() > 0,
    ensures
        texts(r@) == texts(list@).skip(1),
{
    let mut list = list;
    let ghost all = list@;
    list.remove(0);
    assert(texts(list@) =~= texts(all).skip(1));
    list
}

/// The command that a text gives to the bot, in lower case, and its arguments.
pub fn parse_group_command(text: &str, bot_username: &str) -> (r: Option<(String, Vec<String>)>)
    ensures
        command_view(r) == command_in(text@, bot_username@),
{
    let all = split_whitespace(text);
    assert(all@.len() == texts(all@).len());
    if all.len() == 0 {
        return None;
    }
    match strip_prefix(all[0].as_str(), "/") {
        None => None,
        Some(command) => match split_once(command.as_str(), '@') {
            None => Some((to_ascii_lowercase(command.as_str()), rest_of(all))),
            Some((name, mention)) => {
                if eq_ignore_ascii_case(mention.as_str(), bot_username) {
                    Some((to_ascii_lowercase(name.as_str()), rest_of(all)))
                } else {
                    None
                }
            },
        },
    }
}

/// The argument, where there is exactly one.
pub open spec fn only_argument(arguments: Seq<Seq<char>>) -> Option<Seq<char>> {
    if arguments.len() == 1 {
        Some(arguments[0])
    } else {
        None
    }
}

/// The argument, where there is exactly one.
pub fn single_argument(args: &[String]) -> (r: Option<&str>)
    ensures
        str_of(r) == only_argument(texts(args@)),
{
    if args.len() == 1 {
        Some(args[0].as_str())
    } else {
        None
    }
}

fn owned_argument(args: &Vec<String>) -> (r: Option<String>)
    ensures
        text_of(r) == only_argument(texts(args@)),
{
    match single_argument(args.as_slice()) {
        Some(argument) => Some(argument.to_owned()),
        None => None,
    }
}

/// The command of a message to a group chat.
pub open spec fn message_command(config: Config, message: Message) -> Option<CommandView> {
    match text_of(message.text) {
        Some(text) => command_in(trimmed(text), config.bot_username@),
        None => None,
    }
}

fn read_command(config: &Config, message: &Message) -> (r: Option<(String, Vec<String>)>)
    ensures
        command_view(r) == message_command(*config, *message),
{
    match &message.text {
        Some(text) => {
            let text = trim(text.as_str());
            parse_group_command(text.as_str(), config.bot_username.as_str())
        },
        None => None,
    }
}

/// The first step: only commands for this bot are dealt with.
pub open spec fn group_begins(config: Config, message: Message) -> StepView {
    match message_command(config, message) {
        None => finished(seq![]),
        Some(_) => asking(
            seq![],
            Query::Allow { user: message.user, chat: message.chat },
            State::GroupAllowed,
        ),
    }
}

/// The first step: only commands for this bot are dealt with.
pub fn begin_group(config: &Config, message: &Message) -> (r: Step)
    ensures
        r@ == group_begins(*config, *message),
{
    match read_command(config, message) {
        None => finish(none()),
        Some(_) => ask(
            none(),
            Query::Allow { user: message.user, chat: message.chat },
            State::GroupAllowed,
        ),
    }
}

/// What a command asks first.
pub open spec fn command_runs(message: Message, command: CommandView) -> StepView {
    let user = message.user;
    let chat = message.chat;
    if command.name == "disable"@ {
        asking(seq![], Query::Member { chat, user }, State::DisableRights { chat })
    } else if command.name == "setgroup"@ {
        asking(
            seq![],
            Query::Member { chat, user },
            State::SetGroupRights { user, chat, requested: only_argument(command.arguments) },
        )
    } else if command.name == "group"@ {
        asking(seq![], Query::ChatGroup { chat }, State::ShowGroup { chat })
    } else if command.name == "today"@ {
        asking(
            seq![],
            Query::ChatGroup { chat },
            State::GroupTimetable { chat, span: Span::Today },
        )
    } else if command.name == "week"@ {
        asking(
            seq![],
            Query::ChatGroup { chat },
            State::GroupTimetable { chat, span: Span::Week },
        )
    } else if command.name == "day"@ {
        asking(
            seq![],
            Query::ChatGroup { chat },
            State::GroupTimetable { chat, span: Span::Day(only_argument(command.arguments)) },
        )
    } else {
        finished(seq![says(chat, phrases::GROUP_HELP@)])
    }
}

fn run_command(message: &Message, name: &str, arguments: &Vec<String>) -> (r: Step)
    ensures
        r@ == command_runs(
            *message,
            CommandView { name: name@, arguments: texts(arguments@) },
        ),
{
    let user = message.user;
    let chat = message.chat;
    if same_text(name, "disable") {
        ask(none(), Query::Member { chat, user }, State::DisableRights { chat })
    } else if same_text(name, "setgroup") {
        ask(
            none(),
            Query::Member { chat, user },
            State::SetGroupRights { user, chat, requested: owned_argument(arguments) },
        )
    } else if same_text(name, "group") {
        ask(none(), Query::ChatGroup { chat }, State::ShowGroup { chat })
    } else if same_text(name, "today") {
        ask(
            none(),
            Query::ChatGroup { chat },
            State::GroupTimetable { chat, span: Span::Today },
        )
    } else if same_text(name, "week") {
        ask(none(), Query::ChatGroup { chat }, State::GroupTimetable { chat, span: Span::Week })
    } else if same_text(name, "day") {
        ask(
            none(),
            Query::ChatGroup { chat },
            State::GroupTimetable { chat, span: Span::Day(owned_argument(arguments)) },
        )
    } else {
        finish_with_text(chat, phrases::GROUP_HELP)
    }
}

/// The step after it is known whether the request is allowed.
pub open spec fn group_allowed(config: Config, message: Message, allowed: bool) -> StepView {
    match message_command(config, message) {
        None => finished(seq![]),
        Some(command) => if allowed {
            preceded(
                seq![Effect::RecordMetric(Metric::Commands)],
                command_runs(message, command),
            )
        } else {
            finished(seq![Effect::RecordMetric(Metric::RateLimited)])
        },
    }
}

/// The step after it is known whether the request is allowed.
pub fn group_allowed_step(config: &Config, message: &Message, allowed: bool) -> (r: Step)
    ensures
        r@ == group_allowed(*config, *message, allowed),
{
    match read_command(config, message) {
        None => finish(none()),
        Some((name, arguments)) => {
            if allowed {
                precede(
                    one(Effect::RecordMetric(Metric::Commands)),
                    run_command(message, name.as_str(), &arguments),
                )
            } else {
                finish(one(Effect::RecordMetric(Metric::RateLimited)))
            }
        },
    }
}

/// The step of `/disable` after the rights are known.
pub open spec fn disable_checked(chat: i64, member: Membership) -> StepView {
    match member {
        Membership::Unknown => finished(seq![says(chat, phrases::DISABLE_UNCHECKED@)]),
        Membership::Other => finished(seq![says(chat, phrases::DISABLE_FOR_ADMINS@)]),
        Membership::Admin => asking(
            seq![],
            Query::RemoveChatGroup { chat },
            State::DisableDone { chat },
        ),
    }
}

/// The step of `/disable` after the rights are known.
pub fn disable_checked_step(chat: i64, member: Membership) -> (r: Step)
    ensures
        r@ == disable_checked(chat, member),
{
    match member {
        Membership::Unknown => finish_with_text(chat, phrases::DISABLE_UNCHECKED),
        Membership::Other => finish_with_text(chat, phrases::DISABLE_FOR_ADMINS),
        Membership::Admin => ask(
            none(),
            Query::RemoveChatGroup { chat },
            State::DisableDone { chat },
        ),
    }
}

/// The step of `/disable` after the group is forgotten.
pub open spec fn disable_done(chat: i64, removed: bool) -> StepView {
    finished(
        seq![
            says(
                chat,
                if removed {
                    phrases::DISABLED@
                } else {
                    phrases::NOT_ENABLED@
                },
            ),
        ],
    )
}

/// The step of `/disable` after the group is forgotten.
pub fn disable_done_step(chat: i64, removed: bool) -> (r: Step)
    ensures
        r@ == disable_done(chat, removed),
{
    if removed {
        finish_with_text(chat, phrases::DISABLED)
    } else {
        finish_with_text(chat, phrases::NOT_ENABLED)
    }
}

/// The step of `/setgroup` after the rights are known.
pub open spec fn set_group_checked(
    user: i64,
    chat: i64,
    requested: Option<Seq<char>>,
    member: Membership,
) -> StepView {
    match member {
        Membership::Unknown => finished(seq![says(chat, phrases::SET_GROUP_UNCHECKED@)]),
        Membership::Other => finished(seq![says(chat, phrases::SET_GROUP_FOR_ADMINS@)]),
        Membership::Admin => match requested {
            None => finished(seq![says(chat, phrases::SET_GROUP_USAGE@)]),
            Some(requested) => asking(
                seq![],
                Query::KnownGroups,
                State::SetGroupNames { user, chat, requested },
            ),
        },
    }
}

/// The step of `/setgroup` after the rights are known.
pub fn set_group_checked_step(
    user: i64,
    chat: i64,
    requested: Option<String>,
    member: Membership,
) -> (r: Step)
    ensures
        r@ == set_group_checked(user, chat, text_of(requested), member),
{
    match member {
        Membership::Unknown => finish_with_text(chat, phrases::SET_GROUP_UNCHECKED),
        Membership::Other => finish_with_text(chat, phrases::SET_GROUP_FOR_ADMINS),
        Membership::Admin => match requested {
            None => finish_with_text(chat, phrases::SET_GROUP_USAGE),
            Some(requested) => ask(
                none(),
                Query::KnownGroups,
                State::SetGroupNames { user, chat, requested },
            ),
        },
    }
}

/// The first of the names that a text spells, whatever the case of its ASCII letters.
pub open spec fn spelled(groups: Seq<Seq<char>>, text: Seq<char>) -> Option<Seq<char>>
    decreases groups.len(),
{
    if groups.len() == 0 {
        None
    } else if ascii_lowered(groups[0]) == ascii_lowered(text) {
        Some(groups[0])
    } else {
        spelled(groups.skip(1), text)
    }
}

fn find_spelled(groups: &Vec<String>, text: &str) -> (r: Option<String>)
    ensures
        text_of(r) == spelled(texts(groups@), text@),
{
    let ghost all = texts(groups@);
    let mut i: usize = 0;
    assert(all.skip(0) =~= all);
    while i < groups.len()
        invariant
            i <= groups@.len(),
            all == texts(groups@),
            spelled(all, text@) == spelled(all.skip(i as int), text@),
        decreases groups@.len() - i,
    {
        assert(all.skip(i as int)[0] == groups@[i as int]@);
        assert(all.skip(i as int).skip(1) =~= all.skip(i + 1));
        if eq_ignore_ascii_case(groups[i].as_str(), text) {
            return Some(groups[i].clone());
        }
        i += 1;
    }
    None
}

/// The step of `/setgroup` after the known groups are there.
pub open spec fn group_chosen(
    user: i64,
    chat: i64,
    requested: Seq<char>,
    groups: Seq<Seq<char>>,
) -> StepView {
    match spelled(groups, requested) {
        None => finished(seq![says(chat, phrases::UNKNOWN_CHAT_GROUP@)]),
        Some(group) => finished(
            seq![
                Effect::SetChatGroup { chat, group, by: user },
                says(
                    chat,
                    "✅ Чат привязан к группе "@ + group
                        + ". Доступны /today, /week и /day ДД.ММ.ГГГГ."@,
                ),
            ],
        ),
    }
}

/// The step of `/setgroup` after the known groups are there.
pub fn group_chosen_step(user: i64, chat: i64, requested: &str, groups: &Vec<String>) -> (r: Step)
    ensures
        r@ == group_chosen(user, chat, requested@, texts(groups@)),
{
    match find_spelled(groups, requested) {
        None => finish_with_text(chat, phrases::UNKNOWN_CHAT_GROUP),
        Some(group) => {
            let text = concat3(
                "✅ Чат привязан к группе ",
                group.as_str(),
                ". Доступны /today, /week и /day ДД.ММ.ГГГГ.",
            );
            finish(
                crate::action::two(
                    Effect::SetChatGroup { chat, group, by: user },
                    Effect::SendText { chat, text },
                ),
            )
        },
    }
}

/// The step of `/group`.
pub open spec fn group_shown(chat: i64, group: Option<Seq<char>>) -> StepView {
    finished(
        seq![
            says(
                chat,
                match group {
                    Some(group) => "Для этого чата выбрана группа "@ + group + "."@,
                    None => phrases::CHAT_WITHOUT_GROUP@,
                },
            ),
        ],
    )
}

/// The step of `/group`.
pub fn group_shown_step(chat: i64, group: Option<String>) -> (r: Step)
    ensures
        r@ == group_shown(chat, text_of(group)),
{
    match group {
        Some(group) => {
            let text = concat3("Для этого чата выбрана группа ", group.as_str(), ".");
            finish_with_text(chat, text.as_str())
        },
        None => finish_with_text(chat, phrases::CHAT_WITHOUT_GROUP),
    }
}

/// The day that is asked for, where `argument` is read as `named`.
pub open spec fn day_asked(span: Span<Seq<char>>, today: DateView, named: Option<DateView>) -> Option<
    DateView,
> {
    match span {
        Span::Day(_) => named,
        _ => Some(today),
    }
}

/// The day that the argument of `/day` names.
pub open spec fn named_day(span: Span<Seq<char>>) -> Option<DateView> {
    match span {
        Span::Day(Some(argument)) => date_in(argument, "%d.%m.%Y"@),
        _ => None,
    }
}

/// The step of a timetable command once the chat's group is known; `named` is the day that its
/// argument names.
pub open spec fn timetable_asked(
    chat: i64,
    group: Option<Seq<char>>,
    span: Span<Seq<char>>,
    today: DateView,
    named: Option<DateView>,
) -> StepView {
    match group {
        None => finished(seq![says(chat, phrases::CHAT_WITHOUT_GROUP@)]),
        Some(group) => match day_asked(span, today, named) {
            None => finished(seq![says(chat, phrases::DAY_USAGE@)]),
            Some(date) => asking(
                seq![],
                if span is Week {
                    Query::WeekLessons { group, date }
                } else {
                    Query::TodayLessons { group, date }
                },
                State::GroupLessons { chat, group, span, date },
            ),
        },
    }
}

/// The step of a timetable command once the chat's group is known; `named` is the day that its
/// argument names.
pub fn timetable_asked_step(
    chat: i64,
    group: Option<String>,
    span: Span<String>,
    today: Date,
    named: Option<Date>,
) -> (r: Step)
    ensures
        r@ == timetable_asked(chat, text_of(group), span@, today@, date_of(named)),
{
    match group {
        None => finish_with_text(chat, phrases::CHAT_WITHOUT_GROUP),
        Some(group) => {
            let (week, date) = match &span {
                Span::Today => (false, Some(today)),
                Span::Week => (true, Some(today)),
                Span::Day(_) => (false, named),
            };
            match date {
                None => finish_with_text(chat, phrases::DAY_USAGE),
                Some(date) => {
                    if week {
                        ask(
                            none(),
                            Query::WeekLessons { group: group.clone(), date },
                            State::GroupLessons { chat, group, span, date },
                        )
                    } else {
                        ask(
                            none(),
                            Query::TodayLessons { group: group.clone(), date },
                            State::GroupLessons { chat, group, span, date },
                        )
                    }
                },
            }
        },
    }
}

fn read_day(span: &Span<String>) -> (r: Option<Date>)
    ensures
        date_of(r) == named_day(span@),
{
    match span {
        Span::Day(Some(argument)) => parse_from_str(argument.as_str(), "%d.%m.%Y"),
        _ => None,
    }
}

/// The step of a timetable command once the chat's group is known.
pub fn timetable_step(chat: i64, group: Option<String>, span: Span<String>, today: Date) -> (r: Step)
    ensures
        r@ == timetable_asked(chat, text_of(group), span@, today@, named_day(span@)),
{
    let named = read_day(&span);
    timetable_asked_step(chat, group, span, today, named)
}

/// What is said where there are no lessons.
pub open spec fn no_lessons(group: Seq<char>, span: Span<Seq<char>>, date: DateView) -> Seq<char> {
    if span is Week {
        "На неделю для группы "@ + group + " расписания не нашёл."@
    } else {
        "На "@ + dotted(date) + " для группы "@ + group + " пар не нашёл."@
    }
}

/// The title of the lessons.
pub open spec fn lessons_title(group: Seq<char>, span: Span<Seq<char>>, date: DateView) -> Seq<char> {
    match span {
        Span::Week => "На неделю · группа "@ + group,
        Span::Today => "Сегодня · группа "@ + group,
        Span::Day(_) => dotted(date) + " · группа "@ + group,
    }
}

/// The step of a timetable command once the lessons are known.
pub open spec fn group_lessons_shown(
    chat: i64,
    group: Seq<char>,
    span: Span<Seq<char>>,
    date: DateView,
    lessons: Seq<LessonView>,
) -> StepView {
    finished(
        if lessons.len() == 0 {
            seq![says(chat, no_lessons(group, span, date))]
        } else {
            sends_schedule(chat, lessons_title(group, span, date), lessons, !(span is Today))
        },
    )
}

/// The step of a timetable command once the lessons are known.
pub fn group_lessons_step(
    chat: i64,
    group: &str,
    span: &Span<String>,
    date: Date,
    lessons: &Vec<Lesson>,
) -> (r: Step)
    ensures
        r@ == group_lessons_shown(chat, group@, span@, date@, lessons_view(lessons@)),
{
    assert(lessons@.len() == lessons_view(lessons@).len());
    let day = date.dotted();
    if lessons.len() == 0 {
        let text = match span {
            Span::Week => concat3("На неделю для группы ", group, " расписания не нашёл."),
            _ => {
                let mut text = concat3("На ", day.as_str(), " для группы ");
                text.append(group);
                text.append(" пар не нашёл.");
                text
            },
        };
        finish_with_text(chat, text.as_str())
    } else {
        let (title, show_dates) = match span {
            Span::Week => (concat2("На неделю · группа ", group), true),
            Span::Today => (concat2("Сегодня · группа ", group), false),
            Span::Day(_) => (concat3(day.as_str(), " · группа ", group), true),
        };
        finish(send_schedule(chat, title.as_str(), lessons, show_dates))
    }
}

} // verus!
