//! What a conversation remembers between its steps, and the steps that several of them share.

use crate::action::{
    ask, asking, effects_view, finish, finish_with_text, finished, move_to, moves_to, none, one,
    say, say_long, say_with_menu, says, says_long, says_with_menu, two, Effect, Keyboard, Plan,
    PlanView, Query,
};
use crate::date::{dotted, Date, DateView};
use crate::format::{format_schedule, schedule_text};
use crate::lesson::{lessons_view, Lesson, LessonView};
use crate::phrases;
use crate::stats::Period;
use crate::store::{User, UserView};
use crate::text::{concat2, concat3, text_of};
use vstd::prelude::*;

verus! {

/// What all conversations know.
#[derive(Debug)]
pub struct Config {
    pub bot_username: String,
    /// The secret of the first administrator.
    pub bootstrap_token: Option<String>,
    /// Whether uploaded files can be archived.
    pub has_archive: bool,
}

/// Where a message was sent.
#[derive(Debug, Clone, Copy, PartialEq, Eq, Structural)]
pub enum ChatType {
    Private,
    Group,
    Other,
}

/// A file that hangs on a message.
#[derive(Debug)]
pub struct Document {
    pub file_name: Option<String>,
}

/// A message that someone sent.
#[derive(Debug)]
pub struct Message {
    pub user: i64,
    pub username: Option<String>,
    pub chat: i64,
    pub chat_type: ChatType,
    pub text: Option<String>,
    pub document: Option<Document>,
}

/// A button that someone pressed.
#[derive(Debug)]
pub struct Callback {
    pub user: i64,
    pub username: Option<String>,
    pub data: Option<String>,
    /// The chat of the message that the button belongs to.
    pub message_chat: Option<i64>,
}

/// What begins a conversation.
#[derive(Debug)]
pub enum Request {
    Message(Message),
    Callback(Callback),
}

/// Which lessons a group chat asks for.
#[derive(Debug, PartialEq, Eq)]
pub enum Span<T> {
    Today,
    Week,
    /// Those of the day that the argument names, if there is one argument.
    Day(Option<T>),
}

impl View for Span<String> {
    type V = Span<Seq<char>>;

    open spec fn view(&self) -> Span<Seq<char>> {
        match *self {
            Span::Today => Span::Today,
            Span::Week => Span::Week,
            Span::Day(argument) => Span::Day(text_of(argument)),
        }
    }
}

/// What a conversation waits for, with what it needs to go on. `T` and `D` are the types of texts
/// and dates.
#[derive(Debug, PartialEq, Eq)]
pub enum State<T, D> {
    // Whether the request is allowed.
    PrivateAllowed,
    GroupAllowed,
    CallbackAllowed,
    Warning { chat: i64 },
    // Private messages.
    StatsCommand { chat: i64 },
    Started { user: i64, chat: i64 },
    LinkCommand { user: i64, chat: i64 },
    LinkToken { chat: i64 },
    LinkName { chat: i64, token: T },
    Notifications { user: i64, chat: i64 },
    Profile,
    GroupNamed { user: i64, chat: i64, input: T },
    SearchText { user: i64, chat: i64, query: T },
    SearchDone { user: i64, chat: i64, kind: T, query: T },
    Today { chat: i64, group: T, date: D },
    Week { chat: i64, group: T },
    // Uploads.
    FileFetched { user: i64, chat: i64, file_name: T, extension: T },
    FileRead { user: i64, chat: i64, file_name: T, extension: T },
    UploadPreviewed { user: i64, chat: i64, extension: T },
    SourceSaved { user: i64, chat: i64, id: u128, question: T, key: T },
    SourceAttached { user: i64, chat: i64, id: u128, question: T, key: T },
    // Group messages.
    DisableRights { chat: i64 },
    DisableDone { chat: i64 },
    SetGroupRights { user: i64, chat: i64, requested: Option<T> },
    SetGroupNames { user: i64, chat: i64, requested: T },
    ShowGroup { chat: i64 },
    GroupTimetable { chat: i64, span: Span<T> },
    GroupLessons { chat: i64, group: T, span: Span<T>, date: D },
    // Buttons.
    StatsButton { user: i64, chat: Option<i64>, period: Period },
    GroupButton { user: i64 },
    TodayButton { user: i64 },
    WeekButton { user: i64 },
    UploadConfirmed { user: i64 },
    UploadCancelled { user: i64 },
}

/// The contents of a state.
pub type StateView = State<Seq<char>, DateView>;

impl View for State<String, Date> {
    type V = State<Seq<char>, DateView>;

    open spec fn view(&self) -> State<Seq<char>, DateView> {
        match *self {
            State::PrivateAllowed => State::PrivateAllowed,
            State::GroupAllowed => State::GroupAllowed,
            State::CallbackAllowed => State::CallbackAllowed,
            State::Warning { chat } => State::Warning { chat },
            State::StatsCommand { chat } => State::StatsCommand { chat },
            State::Started { user, chat } => State::Started { user, chat },
            State::LinkCommand { user, chat } => State::LinkCommand { user, chat },
            State::LinkToken { chat } => State::LinkToken { chat },
            State::LinkName { chat, token } => State::LinkName { chat, token: token@ },
            State::Notifications { user, chat } => State::Notifications { user, chat },
            State::Profile => State::Profile,
            State::GroupNamed { user, chat, input } => State::GroupNamed {
                user,
                chat,
                input: input@,
            },
            State::SearchText { user, chat, query } => State::SearchText {
                user,
                chat,
                query: query@,
            },
            State::SearchDone { user, chat, kind, query } => State::SearchDone {
                user,
                chat,
                kind: kind@,
                query: query@,
            },
            State::Today { chat, group, date } => State::Today { chat, group: group@, date: date@ },
            State::Week { chat, group } => State::Week { chat, group: group@ },
            State::FileFetched { user, chat, file_name, extension } => State::FileFetched {
                user,
                chat,
                file_name: file_name@,
                extension: extension@,
            },
            State::FileRead { user, chat, file_name, extension } => State::FileRead {
                user,
                chat,
                file_name: file_name@,
                extension: extension@,
            },
            State::UploadPreviewed { user, chat, extension } => State::UploadPreviewed {
                user,
                chat,
                extension: extension@,
            },
            State::SourceSaved { user, chat, id, question, key } => State::SourceSaved {
                user,
                chat,
                id,
                question: question@,
                key: key@,
            },
            State::SourceAttached { user, chat, id, question, key } => State::SourceAttached {
                user,
                chat,
                id,
                question: question@,
                key: key@,
            },
            State::DisableRights { chat } => State::DisableRights { chat },
            State::DisableDone { chat } => State::DisableDone { chat },
            State::SetGroupRights { user, chat, requested } => State::SetGroupRights {
                user,
                chat,
                requested: text_of(requested),
            },
            State::SetGroupNames { user, chat, requested } => State::SetGroupNames {
                user,
                chat,
                requested: requested@,
            },
            State::ShowGroup { chat } => State::ShowGroup { chat },
            State::GroupTimetable { chat, span } => State::GroupTimetable { chat, span: span@ },
            State::GroupLessons { chat, group, span, date } => State::GroupLessons {
                chat,
                group: group@,
                span: span@,
                date: date@,
            },
            State::StatsButton { user, chat, period } => State::StatsButton { user, chat, period },
            State::GroupButton { user } => State::GroupButton { user },
            State::TodayButton { user } => State::TodayButton { user },
            State::WeekButton { user } => State::WeekButton { user },
            State::UploadConfirmed { user } => State::UploadConfirmed { user },
            State::UploadCancelled { user } => State::UploadCancelled { user },
        }
    }
}

/// The plan of a conversation's step.
pub type StepView = PlanView<StateView>;

/// The plan of a conversation's step.
pub type Step = Plan<State<String, Date>>;

/// The step after the store has said whether to warn someone who asks too often.
pub open spec fn warned(chat: i64, warn: bool) -> StepView {
    finished(
        if warn {
            seq![says(chat, phrases::TOO_MANY_REQUESTS@)]
        } else {
            seq![]
        },
    )
}

/// The step after the store has said whether to warn someone who asks too often.
pub fn warn_step(chat: i64, warn: bool) -> (r: Step)
    ensures
        r@ == warned(chat, warn),
{
    if warn {
        finish_with_text(chat, phrases::TOO_MANY_REQUESTS)
    } else {
        finish(none())
    }
}

/// The step that shows today's lessons of a user's group.
pub open spec fn shows_today(chat: i64, user: UserView, today: DateView) -> StepView {
    match user.group_code {
        None => finished(
            seq![
                moves_to(user.telegram_id, "await_group"@),
                says(chat, phrases::NAME_GROUP_FOR_LESSONS@),
            ],
        ),
        Some(group) => asking(
            seq![],
            Query::TodayLessons { group, date: today },
            State::Today { chat, group, date: today },
        ),
    }
}

/// The step that shows today's lessons of a user's group.
pub fn show_today(chat: i64, user: User, today: Date) -> (r: Step)
    ensures
        r@ == shows_today(chat, user@, today@),
{
    match user.group_code {
        None => finish(
            two(
                move_to(user.telegram_id, "await_group"),
                say(chat, phrases::NAME_GROUP_FOR_LESSONS),
            ),
        ),
        Some(group) => ask(
            none(),
            Query::TodayLessons { group: group.clone(), date: today },
            State::Today { chat, group, date: today },
        ),
    }
}

/// The step that shows the week's lessons of a user's group.
pub open spec fn shows_week(chat: i64, user: UserView, today: DateView) -> StepView {
    match user.group_code {
        None => finished(
            seq![
                moves_to(user.telegram_id, "await_group"@),
                says(chat, phrases::NAME_GROUP_FOR_LESSONS@),
            ],
        ),
        Some(group) => asking(
            seq![],
            Query::WeekLessons { group, date: today },
            State::Week { chat, group },
        ),
    }
}

/// The step that shows the week's lessons of a user's group.
pub fn show_week(chat: i64, user: User, today: Date) -> (r: Step)
    ensures
        r@ == shows_week(chat, user@, today@),
{
    match user.group_code {
        None => finish(
            two(
                move_to(user.telegram_id, "await_group"),
                say(chat, phrases::NAME_GROUP_FOR_LESSONS),
            ),
        ),
        Some(group) => ask(
            none(),
            Query::WeekLessons { group: group.clone(), date: today },
            State::Week { chat, group },
        ),
    }
}

/// The effects that send a timetable.
pub open spec fn sends_schedule(
    chat: i64,
    title: Seq<char>,
    lessons: Seq<LessonView>,
    show_dates: bool,
) -> Seq<Effect<Seq<char>>> {
    says_long(chat, schedule_text(title, lessons, show_dates))
}

/// The effects that send a timetable.
pub fn send_schedule(chat: i64, title: &str, lessons: &Vec<Lesson>, show_dates: bool) -> (r: Vec<
    Effect<String>,
>)
    ensures
        effects_view(r@) == sends_schedule(chat, title@, lessons_view(lessons@), show_dates),
{
    let mut effects = none();
    let text = format_schedule(title, lessons.as_slice(), show_dates);
    say_long(&mut effects, chat, text.as_str());
    assert(effects_view(effects@) =~= sends_schedule(
        chat,
        title@,
        lessons_view(lessons@),
        show_dates,
    ));
    effects
}

/// The step after today's lessons are known, which were asked for on `date`.
pub open spec fn today_shown(
    chat: i64,
    group: Seq<char>,
    date: DateView,
    lessons: Seq<LessonView>,
) -> StepView {
    finished(
        if lessons.len() == 0 {
            seq![
                says_with_menu(chat, "На сегодня ("@ + dotted(date) + ") занятий не нашёл."@),
            ]
        } else {
            sends_schedule(chat, "Сегодня · группа "@ + group, lessons, false)
        },
    )
}

/// The step after today's lessons are known, which were asked for on `date`.
pub fn today_step(chat: i64, group: &str, date: Date, lessons: &Vec<Lesson>) -> (r: Step)
    ensures
        r@ == today_shown(chat, group@, date@, lessons_view(lessons@)),
{
    assert(lessons@.len() == lessons_view(lessons@).len());
    if lessons.len() == 0 {
        let day = date.dotted();
        let text = concat3("На сегодня (", day.as_str(), ") занятий не нашёл.");
        finish(one(say_with_menu(chat, text.as_str())))
    } else {
        let title = concat2("Сегодня · группа ", group);
        finish(send_schedule(chat, title.as_str(), lessons, false))
    }
}

/// The step after the week's lessons are known.
pub open spec fn week_shown(chat: i64, group: Seq<char>, lessons: Seq<LessonView>) -> StepView {
    finished(
        if lessons.len() == 0 {
            seq![says_with_menu(chat, phrases::NO_WEEK@)]
        } else {
            sends_schedule(chat, "На неделю · группа "@ + group, lessons, true)
        },
    )
}

/// The step after the week's lessons are known.
pub fn week_step(chat: i64, group: &str, lessons: &Vec<Lesson>) -> (r: Step)
    ensures
        r@ == week_shown(chat, group@, lessons_view(lessons@)),
{
    assert(lessons@.len() == lessons_view(lessons@).len());
    if lessons.len() == 0 {
        finish(one(say_with_menu(chat, phrases::NO_WEEK)))
    } else {
        let title = concat2("На неделю · группа ", group);
        finish(send_schedule(chat, title.as_str(), lessons, true))
    }
}

/// The effects that begin a search.
pub open spec fn begins_search(user: i64, chat: i64) -> Seq<Effect<Seq<char>>> {
    seq![moves_to(user, "await_search_kind"@), asks_search_kind(chat)]
}

/// The effect that asks what to search for.
pub open spec fn asks_search_kind(chat: i64) -> Effect<Seq<char>> {
    Effect::SendChoice { chat, text: phrases::SEARCH_QUESTION@, keyboard: Keyboard::Search }
}

/// The effect that asks what to search for.
pub fn ask_search_kind(chat: i64) -> (r: Effect<String>)
    ensures
        r@ == asks_search_kind(chat),
{
    Effect::SendChoice {
        chat,
        text: phrases::SEARCH_QUESTION.to_owned(),
        keyboard: Keyboard::Search,
    }
}

/// The effects that begin a search.
pub fn begin_search(user: i64, chat: i64) -> (r: Vec<Effect<String>>)
    ensures
        effects_view(r@) == begins_search(user, chat),
{
    two(move_to(user, "await_search_kind"), ask_search_kind(chat))
}

/// The effect that asks whether a group is the right one.
pub open spec fn asks_group(chat: i64, group: Seq<char>) -> Effect<Seq<char>> {
    Effect::SendChoice {
        chat,
        text: "Твоя группа — "@ + group + "?"@,
        keyboard: Keyboard::ConfirmGroup,
    }
}

/// The effect that asks whether a group is the right one.
pub fn ask_group(chat: i64, group: &str) -> (r: Effect<String>)
    ensures
        r@ == asks_group(chat, group@),
{
    Effect::SendChoice {
        chat,
        text: concat3("Твоя группа — ", group, "?"),
        keyboard: Keyboard::ConfirmGroup,
    }
}

} // verus!
