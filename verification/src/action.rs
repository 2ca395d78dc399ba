//! What a conversation does and asks: effects, questions and the replies to them.

use crate::callback::{lemma_upload_buttons, upload_buttons_work};
use crate::date::{Date, DateView};
use crate::identity::{id_digit, id_form, id_text, id_value, lemma_hex_digit};
use crate::lesson::{lessons_view, Lesson, LessonView};
use crate::parser::ParseError;
use crate::parts::{message_parts, parts_of};
use crate::stats::{Metric, Period};
use crate::store::{Publication, UploadPreview, User};
use crate::text::{concat2, concat3, has_prefix, text_of, texts, without_prefixes};
use vstd::prelude::*;

verus! {

/// The buttons below a message.
#[derive(Debug, Clone, Copy, PartialEq, Eq)]
pub enum Keyboard {
    /// Is this the right group?
    ConfirmGroup,
    /// What is searched for?
    Search,
    /// Is this upload to be published?
    Upload(u128),
    /// Which period does the dashboard show?
    Stats(Period),
}

/// Something that is done without waiting for an answer. `T` is the type of texts.
#[derive(Debug, PartialEq, Eq)]
pub enum Effect<T> {
    /// Counts one event.
    RecordMetric(Metric),
    RegisterUser { user: i64, chat: i64, username: Option<T> },
    SendText { chat: i64, text: T },
    /// Sends a text with the menu below it.
    SendMenu { chat: i64, text: T },
    SendChoice { chat: i64, text: T, keyboard: Keyboard },
    SendDashboard { chat: i64, period: Period, caption: T },
    /// Replaces the dashboard that the pressed button belongs to.
    EditDashboard { chat: i64, period: Period, caption: T },
    AnswerCallback,
    AlertCallback { text: T },
    SetFlowState { user: i64, state: T, search_kind: Option<T> },
    SetPendingGroup { user: i64, group: T },
    RejectPendingGroup { user: i64 },
    SetChatGroup { chat: i64, group: T, by: i64 },
    SetDailyNotifications { user: i64, enabled: bool },
    /// Makes the user an administrator if an open invitation has this digest.
    RedeemInvite { user: i64, token_sha256: T },
    /// Makes the user an administrator if nobody has been made one this way.
    ClaimBootstrapAdmin { user: i64 },
    CancelUpload { id: u128, user: i64 },
    DeleteSource { key: T },
}

/// A question whose answer decides how to go on. `T`, `D` and `L` are the types of texts, dates
/// and lists of lessons.
#[derive(Debug, PartialEq, Eq)]
pub enum Query<T, D, L> {
    /// May the user ask now, in this chat?
    Allow { user: i64, chat: i64 },
    /// Is the user to be told that there were too many requests?
    ShouldWarn { user: i64 },
    IsAdmin { user: i64 },
    User { user: i64 },
    KnownGroups,
    ChatGroup { chat: i64 },
    Member { chat: i64, user: i64 },
    /// Forgets the group of a chat. Was there one?
    RemoveChatGroup { chat: i64 },
    TodayLessons { group: T, date: D },
    WeekLessons { group: T, date: D },
    SearchLessons { column: T, pattern: T, date: D },
    NewInvite { user: i64 },
    BotName,
    /// Makes the group that waits the user's group. Which one was it?
    ConfirmGroup { user: i64 },
    ConfirmUpload { id: u128, user: i64 },
    CancelUpload { id: u128, user: i64 },
    /// Fetches the attached file. How many bytes does it have?
    Download { extension: T },
    /// Which lessons does the fetched file hold?
    Parse { extension: T },
    Preview { user: i64, file_name: T, lessons: L },
    SaveSource { key: T },
    AttachSource { id: u128, user: i64, key: T },
}

/// What a member of a chat may do.
#[derive(Debug, Clone, Copy, PartialEq, Eq, Structural)]
pub enum Membership {
    /// The owner or an administrator.
    Admin,
    /// Anyone else.
    Other,
    /// The chat did not say.
    Unknown,
}

/// The answer to a question.
#[derive(Debug)]
pub enum Reply {
    Allowed(bool),
    ShouldWarn(bool),
    Admin(bool),
    User(Option<User>),
    Groups(Vec<String>),
    ChatGroup(Option<String>),
    Member(Membership),
    Removed(bool),
    Lessons(Vec<Lesson>),
    Invite(String),
    BotName(String),
    GroupConfirmed(Option<String>),
    Published(Publication),
    Cancelled { cancelled: bool, source_key: Option<String> },
    Downloaded(u64),
    Parsed(Result<Vec<Lesson>, ParseError>),
    Previewed(Result<UploadPreview, String>),
    Saved(Result<(), String>),
    Attached(Result<(), String>),
}

/// Why a conversation breaks off.
#[derive(Debug, Clone, Copy, PartialEq, Eq, Structural)]
pub enum Failure {
    UserNotFound,
    /// A button names no upload.
    BadUploadId,
    /// A file made its reading break off.
    ParsingBrokenOff,
    /// The answer belongs to another question.
    UnexpectedReply,
}

impl Failure {
    /// The message that the failure is reported with.
    pub open spec fn text(self) -> Seq<char> {
        match self {
            Failure::UserNotFound => "пользователь не найден"@,
            Failure::BadUploadId => "неверный идентификатор загрузки"@,
            Failure::ParsingBrokenOff => crate::phrases::PARSING_BROKEN_OFF@,
            Failure::UnexpectedReply => "неожиданный ответ"@,
        }
    }

    /// The message that the failure is reported with.
    pub fn message(self) -> (r: &'static str)
        ensures
            r@ == self.text(),
    {
        match self {
            Failure::UserNotFound => "пользователь не найден",
            Failure::BadUploadId => "неверный идентификатор загрузки",
            Failure::ParsingBrokenOff => crate::phrases::PARSING_BROKEN_OFF,
            Failure::UnexpectedReply => "неожиданный ответ",
        }
    }
}

/// How a conversation goes on. `S` is the type of what it remembers.
#[derive(Debug, PartialEq, Eq)]
pub enum Next<Q, S> {
    Done,
    Fail(Failure),
    Ask(Q, S),
}

/// The effects of one step, in order, and how the conversation goes on.
#[derive(Debug)]
pub struct Plan<S> {
    pub effects: Vec<Effect<String>>,
    pub next: Next<Query<String, Date, Vec<Lesson>>, S>,
}

/// The contents of a `Plan`.
#[verifier::ext_equal]
#[verifier::reject_recursive_types(S)]
pub struct PlanView<S> {
    pub effects: Seq<Effect<Seq<char>>>,
    pub next: Next<Query<Seq<char>, DateView, Seq<LessonView>>, S>,
}

impl View for Effect<String> {
    type V = Effect<Seq<char>>;

    open spec fn view(&self) -> Effect<Seq<char>> {
        match *self {
            Effect::RecordMetric(metric) => Effect::RecordMetric(metric),
            Effect::RegisterUser { user, chat, username } => Effect::RegisterUser {
                user,
                chat,
                username: text_of(username),
            },
            Effect::SendText { chat, text } => Effect::SendText { chat, text: text@ },
            Effect::SendMenu { chat, text } => Effect::SendMenu { chat, text: text@ },
            Effect::SendChoice { chat, text, keyboard } => Effect::SendChoice {
                chat,
                text: text@,
                keyboard,
            },
            Effect::SendDashboard { chat, period, caption } => Effect::SendDashboard {
                chat,
                period,
                caption: caption@,
            },
            Effect::EditDashboard { chat, period, caption } => Effect::EditDashboard {
                chat,
                period,
                caption: caption@,
            },
            Effect::AnswerCallback => Effect::AnswerCallback,
            Effect::AlertCallback { text } => Effect::AlertCallback { text: text@ },
            Effect::SetFlowState { user, state, search_kind } => Effect::SetFlowState {
                user,
                state: state@,
                search_kind: text_of(search_kind),
            },
            Effect::SetPendingGroup { user, group } => Effect::SetPendingGroup {
                user,
                group: group@,
            },
            Effect::RejectPendingGroup { user } => Effect::RejectPendingGroup { user },
            Effect::SetChatGroup { chat, group, by } => Effect::SetChatGroup {
                chat,
                group: group@,
                by,
            },
            Effect::SetDailyNotifications { user, enabled } => Effect::SetDailyNotifications {
                user,
                enabled,
            },
            Effect::RedeemInvite { user, token_sha256 } => Effect::RedeemInvite {
                user,
                token_sha256: token_sha256@,
            },
            Effect::ClaimBootstrapAdmin { user } => Effect::ClaimBootstrapAdmin { user },
            Effect::CancelUpload { id, user } => Effect::CancelUpload { id, user },
            Effect::DeleteSource { key } => Effect::DeleteSource { key: key@ },
        }
    }
}

/// The contents of a list of effects.
pub open spec fn effects_view(effects: Seq<Effect<String>>) -> Seq<Effect<Seq<char>>> {
    effects.map_values(|effect: Effect<String>| effect@)
}

impl View for Query<String, Date, Vec<Lesson>> {
    type V = Query<Seq<char>, DateView, Seq<LessonView>>;

    open spec fn view(&self) -> Query<Seq<char>, DateView, Seq<LessonView>> {
        match *self {
            Query::Allow { user, chat } => Query::Allow { user, chat },
            Query::ShouldWarn { user } => Query::ShouldWarn { user },
            Query::IsAdmin { user } => Query::IsAdmin { user },
            Query::User { user } => Query::User { user },
            Query::KnownGroups => Query::KnownGroups,
            Query::ChatGroup { chat } => Query::ChatGroup { chat },
            Query::Member { chat, user } => Query::Member { chat, user },
            Query::RemoveChatGroup { chat } => Query::RemoveChatGroup { chat },
            Query::TodayLessons { group, date } => Query::TodayLessons {
                group: group@,
                date: date@,
            },
            Query::WeekLessons { group, date } => Query::WeekLessons {
                group: group@,
                date: date@,
            },
            Query::SearchLessons { column, pattern, date } => Query::SearchLessons {
                column: column@,
                pattern: pattern@,
                date: date@,
            },
            Query::NewInvite { user } => Query::NewInvite { user },
            Query::BotName => Query::BotName,
            Query::ConfirmGroup { user } => Query::ConfirmGroup { user },
            Query::ConfirmUpload { id, user } => Query::ConfirmUpload { id, user },
            Query::CancelUpload { id, user } => Query::CancelUpload { id, user },
            Query::Download { extension } => Query::Download { extension: extension@ },
            Query::Parse { extension } => Query::Parse { extension: extension@ },
            Query::Preview { user, file_name, lessons } => Query::Preview {
                user,
                file_name: file_name@,
                lessons: lessons_view(lessons@),
            },
            Query::SaveSource { key } => Query::SaveSource { key: key@ },
            Query::AttachSource { id, user, key } => Query::AttachSource { id, user, key: key@ },
        }
    }
}

impl<S: View> View for Plan<S> {
    type V = PlanView<S::V>;

    open spec fn view(&self) -> PlanView<S::V> {
        PlanView {
            effects: effects_view(self.effects@),
            next: match self.next {
                Next::Done => Next::Done,
                Next::Fail(failure) => Next::Fail(failure),
                Next::Ask(query, state) => Next::Ask(query@, state@),
            },
        }
    }
}

/// The plan that ends the conversation after some effects.
pub open spec fn finished<S>(effects: Seq<Effect<Seq<char>>>) -> PlanView<S> {
    PlanView { effects, next: Next::Done }
}

/// The plan that breaks the conversation off after some effects.
pub open spec fn failed<S>(effects: Seq<Effect<Seq<char>>>, failure: Failure) -> PlanView<S> {
    PlanView { effects, next: Next::Fail(failure) }
}

/// The plan that asks a question after some effects.
pub open spec fn asking<S>(
    effects: Seq<Effect<Seq<char>>>,
    query: Query<Seq<char>, DateView, Seq<LessonView>>,
    state: S,
) -> PlanView<S> {
    PlanView { effects, next: Next::Ask(query, state) }
}

/// The plan with some effects put before its own.
pub open spec fn preceded<S>(effects: Seq<Effect<Seq<char>>>, plan: PlanView<S>) -> PlanView<S> {
    PlanView { effects: effects + plan.effects, next: plan.next }
}

/// The effect that sends a text.
pub open spec fn says(chat: i64, text: Seq<char>) -> Effect<Seq<char>> {
    Effect::SendText { chat, text }
}

/// The effect that sends a text with the menu.
pub open spec fn says_with_menu(chat: i64, text: Seq<char>) -> Effect<Seq<char>> {
    Effect::SendMenu { chat, text }
}

/// The effect that moves a user to a state without a kind of search.
pub open spec fn moves_to(user: i64, state: Seq<char>) -> Effect<Seq<char>> {
    Effect::SetFlowState { user, state, search_kind: None }
}

/// Adds an effect to the end of a list.
pub fn push_effect(effects: &mut Vec<Effect<String>>, effect: Effect<String>)
    ensures
        effects_view(final(effects)@) == effects_view(old(effects)@).push(effect@),
{
    let ghost before = effects@;
    effects.push(effect);
    assert(effects_view(effects@) =~= effects_view(before).push(effect@));
}

/// A list of one effect.
pub fn one(effect: Effect<String>) -> (r: Vec<Effect<String>>)
    ensures
        effects_view(r@) == seq![effect@],
{
    let mut r: Vec<Effect<String>> = Vec::new();
    r.push(effect);
    assert(effects_view(r@) =~= seq![effect@]);
    r
}

/// A list of two effects.
pub fn two(first: Effect<String>, second: Effect<String>) -> (r: Vec<Effect<String>>)
    ensures
        effects_view(r@) == seq![first@, second@],
{
    let mut r: Vec<Effect<String>> = Vec::new();
    r.push(first);
    r.push(second);
    assert(effects_view(r@) =~= seq![first@, second@]);
    r
}

/// An empty list of effects.
pub fn none() -> (r: Vec<Effect<String>>)
    ensures
        effects_view(r@) == Seq::<Effect<Seq<char>>>::empty(),
{
    let r: Vec<Effect<String>> = Vec::new();
    assert(effects_view(r@) =~= seq![]);
    r
}

/// The effect that sends a text.
pub fn say(chat: i64, text: &str) -> (r: Effect<String>)
    ensures
        r@ == says(chat, text@),
{
    Effect::SendText { chat, text: text.to_owned() }
}

/// The effect that sends a text with the menu.
pub fn say_with_menu(chat: i64, text: &str) -> (r: Effect<String>)
    ensures
        r@ == says_with_menu(chat, text@),
{
    Effect::SendMenu { chat, text: text.to_owned() }
}

/// The effect that moves a user to a state without a kind of search.
pub fn move_to(user: i64, state: &str) -> (r: Effect<String>)
    ensures
        r@ == moves_to(user, state@),
{
    Effect::SetFlowState { user, state: state.to_owned(), search_kind: None }
}

/// The plan that ends the conversation after some effects.
pub fn finish<S: View>(effects: Vec<Effect<String>>) -> (r: Plan<S>)
    ensures
        r@ == finished::<S::V>(effects_view(effects@)),
{
    Plan { effects, next: Next::Done }
}

/// The plan that ends the conversation with a text.
pub fn finish_with_text<S: View>(chat: i64, text: &str) -> (r: Plan<S>)
    ensures
        r@ == finished::<S::V>(seq![says(chat, text@)]),
{
    finish(one(say(chat, text)))
}

/// The plan that breaks the conversation off.
pub fn fail<S: View>(failure: Failure) -> (r: Plan<S>)
    ensures
        r@ == failed::<S::V>(seq![], failure),
{
    Plan { effects: none(), next: Next::Fail(failure) }
}

/// The plan that asks a question.
pub fn ask<S: View>(
    effects: Vec<Effect<String>>,
    query: Query<String, Date, Vec<Lesson>>,
    state: S,
) -> (r: Plan<S>)
    ensures
        r@ == asking::<S::V>(effects_view(effects@), query@, state@),
{
    Plan { effects, next: Next::Ask(query, state) }
}

/// The plan with some effects put before its own.
pub fn precede<S: View>(effects: Vec<Effect<String>>, plan: Plan<S>) -> (r: Plan<S>)
    ensures
        r@ == preceded(effects_view(effects@), plan@),
{
    let ghost first = effects_view(effects@);
    let ghost second = effects_view(plan.effects@);
    let mut effects = effects;
    let mut rest = plan.effects;
    let ghost own = effects@;
    effects.append(&mut rest);
    assert(effects_view(effects@) =~= first + second);
    Plan { effects, next: plan.next }
}

/// The effects that send a long text.
pub open spec fn says_long(chat: i64, text: Seq<char>) -> Seq<Effect<Seq<char>>> {
    parts_of(text).map_values(|part: Seq<char>| says(chat, part))
}

/// Adds the effects that send a long text.
pub fn say_long(effects: &mut Vec<Effect<String>>, chat: i64, text: &str)
    ensures
        effects_view(final(effects)@) == effects_view(old(effects)@) + says_long(chat, text@),
{
    let ghost before = effects_view(effects@);
    let parts = message_parts(text);
    let ghost all = texts(parts@);
    let mut i: usize = 0;
    assert(effects_view(effects@) =~= before + all.take(0).map_values(
        |part: Seq<char>| says(chat, part),
    ));
    while i < parts.len()
        invariant
            i <= parts@.len(),
            all == texts(parts@),
            effects_view(effects@) == before + all.take(i as int).map_values(
                |part: Seq<char>| says(chat, part),
            ),
        decreases parts@.len() - i,
    {
        push_effect(effects, say(chat, parts[i].as_str()));
        i += 1;
        assert(effects_view(effects@) =~= before + all.take(i as int).map_values(
            |part: Seq<char>| says(chat, part),
        ));
    }
    assert(all.take(i as int) =~= all);
}

/// The label of a button and what pressing it reports.
#[derive(Debug, Clone, PartialEq, Eq)]
pub struct Button {
    pub label: String,
    pub data: String,
}

/// The label of a button and what pressing it reports.
pub open spec fn button_view(button: Button) -> (Seq<char>, Seq<char>) {
    (button.label@, button.data@)
}

/// The contents of a row of buttons.
pub open spec fn row_view(row: Seq<Button>) -> Seq<(Seq<char>, Seq<char>)> {
    row.map_values(|button: Button| button_view(button))
}

/// The contents of rows of buttons.
pub open spec fn rows_view(rows: Seq<Vec<Button>>) -> Seq<Seq<(Seq<char>, Seq<char>)>> {
    rows.map_values(|row: Vec<Button>| row_view(row@))
}

/// What pressing the button of a period reports.
pub open spec fn period_data(period: Period) -> Seq<char> {
    "stats:"@ + period.code()
}

/// The button of a period, with a mark where it is the one that is shown.
pub open spec fn period_button(period: Period, name: Seq<char>, shown: Period) -> (
    Seq<char>,
    Seq<char>,
) {
    (
        if period == shown {
            "✅ "@ + name
        } else {
            name
        },
        period_data(period),
    )
}

/// What pressing the button that publishes an upload reports.
pub open spec fn confirm_data(id: u128) -> Seq<char> {
    "upload:confirm:"@ + id_form(id)
}

/// What pressing the button that drops an upload reports.
pub open spec fn cancel_data(id: u128) -> Seq<char> {
    "upload:cancel:"@ + id_form(id)
}

/// The upload that a pressed button names behind a prefix, which may be repeated.
pub open spec fn named_upload(data: Seq<char>, prefix: Seq<char>) -> Option<u128> {
    id_value(without_prefixes(data, prefix))
}

proof fn lemma_prefix_comes_off(id: u128, prefix: Seq<char>)
    requires
        prefix.len() > 0,
        prefix[0] == 'u',
    ensures
        without_prefixes(prefix + id_form(id), prefix) == id_form(id),
{
    let form = id_form(id);
    let data = prefix + form;
    assert(data.take(prefix.len() as int) =~= prefix);
    assert(data.skip(prefix.len() as int) =~= form);
    assert(form[0] == id_digit(id, 0));
    lemma_hex_digit(id, 0);
    assert(!has_prefix(form, prefix)) by {
        if has_prefix(form, prefix) {
            assert(form.take(prefix.len() as int)[0] == prefix[0]);
        }
    }
    reveal_with_fuel(without_prefixes, 3);
}

/// The rows of buttons of a keyboard.
pub open spec fn keyboard_view(keyboard: Keyboard) -> Seq<Seq<(Seq<char>, Seq<char>)>> {
    match keyboard {
        Keyboard::ConfirmGroup => seq![
            seq![("✅ Да"@, "group:yes"@), ("❌ Нет"@, "group:no"@)],
        ],
        Keyboard::Search => seq![
            seq![("👩‍🏫 Преподаватель"@, "search:teacher"@)],
            seq![("🏫 Аудитория"@, "search:room"@)],
        ],
        Keyboard::Upload(id) => seq![
            seq![
                ("✅ Подтвердить публикацию"@, confirm_data(id)),
                ("Отмена"@, cancel_data(id)),
            ],
        ],
        Keyboard::Stats(shown) => seq![
            seq![
                period_button(Period::ThirtyMinutes, "30 мин"@, shown),
                period_button(Period::Hour, "1 час"@, shown),
            ],
            seq![
                period_button(Period::Day, "24 часа"@, shown),
                period_button(Period::Week, "7 дней"@, shown),
            ],
        ],
    }
}

fn button(label: &str, data: &str) -> (r: Button)
    ensures
        button_view(r) == (label@, data@),
{
    Button { label: label.to_owned(), data: data.to_owned() }
}

fn stats_button(period: Period, name: &str, shown: Period) -> (r: Button)
    ensures
        button_view(r) == period_button(period, name@, shown),
{
    let data = concat2("stats:", period.callback());
    let label = if period == shown {
        concat2("✅ ", name)
    } else {
        name.to_owned()
    };
    Button { label, data }
}

fn row_of_one(only: Button) -> (r: Vec<Button>)
    ensures
        row_view(r@) == seq![button_view(only)],
{
    let mut r: Vec<Button> = Vec::new();
    r.push(only);
    assert(row_view(r@) =~= seq![button_view(only)]);
    r
}

fn row_of_two(first: Button, second: Button) -> (r: Vec<Button>)
    ensures
        row_view(r@) == seq![button_view(first), button_view(second)],
{
    let mut r: Vec<Button> = Vec::new();
    r.push(first);
    r.push(second);
    assert(row_view(r@) =~= seq![button_view(first), button_view(second)]);
    r
}

/// The buttons of a dashboard that shows `selected`.
pub fn stats_keyboard(selected: Period) -> (r: Vec<Vec<Button>>)
    ensures
        rows_view(r@) == keyboard_view(Keyboard::Stats(selected)),
{
    let mut rows: Vec<Vec<Button>> = Vec::new();
    rows.push(
        row_of_two(
            stats_button(Period::ThirtyMinutes, "30 мин", selected),
            stats_button(Period::Hour, "1 час", selected),
        ),
    );
    rows.push(
        row_of_two(
            stats_button(Period::Day, "24 часа", selected),
            stats_button(Period::Week, "7 дней", selected),
        ),
    );
    assert(rows_view(rows@) =~= keyboard_view(Keyboard::Stats(selected)));
    rows
}

/// The rows of buttons of a keyboard. Pressing the buttons of an upload asks for that
/// upload.
pub fn keyboard_rows(keyboard: Keyboard) -> (r: Vec<Vec<Button>>)
    ensures
        rows_view(r@) == keyboard_view(keyboard),
        keyboard matches Keyboard::Upload(id) ==> upload_buttons_work(id),
{
    let mut rows: Vec<Vec<Button>> = Vec::new();
    match keyboard {
        Keyboard::ConfirmGroup => {
            rows.push(row_of_two(button("✅ Да", "group:yes"), button("❌ Нет", "group:no")));
        },
        Keyboard::Search => {
            rows.push(row_of_one(button("👩‍🏫 Преподаватель", "search:teacher")));
            rows.push(row_of_one(button("🏫 Аудитория", "search:room")));
        },
        Keyboard::Upload(id) => {
            let name = id_text(id);
            proof {
                reveal_strlit("upload:confirm:");
                reveal_strlit("upload:cancel:");
                lemma_prefix_comes_off(id, "upload:confirm:"@);
                lemma_prefix_comes_off(id, "upload:cancel:"@);
                lemma_upload_buttons(id);
            }
            let confirm = concat2("upload:confirm:", name.as_str());
            let cancel = concat2("upload:cancel:", name.as_str());
            rows.push(
                row_of_two(
                    button("✅ Подтвердить публикацию", confirm.as_str()),
                    button("Отмена", cancel.as_str()),
                ),
            );
        },
        Keyboard::Stats(shown) => {
            return stats_keyboard(shown);
        },
    }
    assert(rows_view(rows@) =~= keyboard_view(keyboard));
    rows
}

/// The rows of the menu.
pub open spec fn menu_view() -> Seq<Seq<Seq<char>>> {
    seq![
        seq![crate::phrases::TODAY_BUTTON@, crate::phrases::WEEK_BUTTON@],
        seq![crate::phrases::SEARCH_BUTTON@],
        seq![crate::phrases::NOTIFICATIONS_BUTTON@],
    ]
}

/// The rows of the menu.
pub fn menu_rows() -> (r: Vec<Vec<String>>)
    ensures
        r@.map_values(|row: Vec<String>| texts(row@)) == menu_view(),
{
    let mut first: Vec<String> = Vec::new();
    first.push(crate::phrases::TODAY_BUTTON.to_owned());
    first.push(crate::phrases::WEEK_BUTTON.to_owned());
    assert(texts(first@) =~= menu_view()[0]);
    let mut second: Vec<String> = Vec::new();
    second.push(crate::phrases::SEARCH_BUTTON.to_owned());
    assert(texts(second@) =~= menu_view()[1]);
    let mut third: Vec<String> = Vec::new();
    third.push(crate::phrases::NOTIFICATIONS_BUTTON.to_owned());
    assert(texts(third@) =~= menu_view()[2]);
    let mut rows: Vec<Vec<String>> = Vec::new();
    rows.push(first);
    rows.push(second);
    rows.push(third);
    assert(rows@.map_values(|row: Vec<String>| texts(row@)) =~= menu_view());
    rows
}

/// The caption of a dashboard.
pub open spec fn caption_of(period: Period) -> Seq<char> {
    "📊 Статистика за "@ + period.title() + "\nНажми на период, чтобы обновить график."@
}

/// The caption of a dashboard.
pub fn dashboard_caption(period: Period) -> (r: String)
    ensures
        r@ == caption_of(period),
{
    concat3(
        "📊 Статистика за ",
        period.label(),
        "\nНажми на период, чтобы обновить график.",
    )
}

} // verus!
