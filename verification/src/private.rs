//! Messages in private chats.

use crate::action::{
    ask, asking, caption_of, dashboard_caption, effects_view, fail, failed, finish,
    finish_with_text, finished, move_to, moves_to, none, one, precede, preceded, push_effect, say,
    say_with_menu, says, says_with_menu, two, Effect, Failure, Keyboard, Query,
};
use crate::conversation::{
    ask_group, ask_search_kind, asks_group, asks_search_kind, begin_search, begins_search,
    send_schedule, sends_schedule, show_today, show_week, shows_today, shows_week, Config, Document,
    Message, State, Step, StepView,
};
use crate::date::{Date, DateView};
use crate::files::{
    accepts_extension, archive_key, extension, file_extension, is_spreadsheet, source_key,
    FILE_LIMIT,
};
use crate::identity::{token_digest, token_hash, token_matches};
use crate::lesson::{copy_text, lessons_view, Lesson, LessonView};
use crate::parser::{display_room_name, room_name, ParseError};
use crate::phrases;
use crate::stats::{Metric, Period};
use crate::store::{
    column_of, pattern_of, preview_message, preview_question, search_column, search_pattern,
    UploadPreview, User, UserView,
};
use crate::text::{
    concat2, concat3, has_prefix, is_space, is_word, lowercase, same_text, split_whitespace,
    starts_with, strip_prefix, text_of, texts, to_lowercase, trim, trimmed,
    two_words_are_read_apart, without_prefix, words,
};
use vstd::prelude::*;

verus! {

/// The first step of a private message.
pub open spec fn private_begins(message: Message) -> StepView {
    asking(
        seq![],
        Query::Allow { user: message.user, chat: message.chat },
        State::PrivateAllowed,
    )
}

/// The first step of a private message.
pub fn begin_private(message: &Message) -> (r: Step)
    ensures
        r@ == private_begins(*message),
{
    ask(
        none(),
        Query::Allow { user: message.user, chat: message.chat },
        State::PrivateAllowed,
    )
}

/// Whether a text is the command for the dashboard.
pub open spec fn is_stats_command(text: Seq<char>) -> bool {
    let all = words(text);
    all.len() > 0 && (all[0] == "/stats"@ || has_prefix(all[0], "/stats@"@))
}

/// Whether a text is the command for the dashboard.
pub fn stats_command(text: &str) -> (r: bool)
    ensures
        r == is_stats_command(text@),
{
    let all = split_whitespace(text);
    assert(all@.len() == texts(all@).len());
    all.len() > 0 && (same_text(all[0].as_str(), "/stats") || starts_with(
        all[0].as_str(),
        "/stats@",
    ))
}

/// What follows `/start`.
pub open spec fn start_parameter(text: Seq<char>) -> Seq<char> {
    let all = words(text);
    if all.len() > 1 {
        all[1]
    } else {
        seq![]
    }
}

fn read_parameter(text: &str) -> (r: String)
    ensures
        r@ == start_parameter(text@),
{
    let all = split_whitespace(text);
    assert(all@.len() == texts(all@).len());
    if all.len() > 1 {
        all[1].clone()
    } else {
        String::new()
    }
}

/// What `/start` does before it greets: it redeems an invitation, or claims the rights of the
/// first administrator for someone who knows the secret.
pub open spec fn start_claims(config: Config, user: i64, text: Seq<char>) -> Seq<
    Effect<Seq<char>>,
> {
    let parameter = start_parameter(text);
    match without_prefix(parameter, "adm_"@) {
        Some(token) => seq![Effect::RedeemInvite { user, token_sha256: token_digest(token) }],
        None => match (
            without_prefix(parameter, "bootstrap_"@),
            text_of(config.bootstrap_token),
        ) {
            (Some(token), Some(secret)) => if token == secret {
                seq![Effect::ClaimBootstrapAdmin { user }]
            } else {
                seq![]
            },
            _ => seq![],
        },
    }
}

fn claim_rights(config: &Config, user: i64, text: &str) -> (r: Vec<Effect<String>>)
    ensures
        effects_view(r@) == start_claims(*config, user, text@),
{
    let parameter = read_parameter(text);
    match strip_prefix(parameter.as_str(), "adm_") {
        Some(token) => one(
            Effect::RedeemInvite { user, token_sha256: token_hash(token.as_str()) },
        ),
        None => match (strip_prefix(parameter.as_str(), "bootstrap_"), &config.bootstrap_token) {
            (Some(token), Some(secret)) => {
                if token_matches(token.as_str(), secret.as_str()) {
                    one(Effect::ClaimBootstrapAdmin { user })
                } else {
                    none()
                }
            },
            _ => none(),
        },
    }
}

/// An invitation's link makes its reader an administrator: opening it sends `/start` with the
/// token behind its prefix, and what is then redeemed is the digest that was stored for the token.
pub proof fn invitation_link_is_redeemed(config: Config, user: i64, token: Seq<char>)
    requires
        is_word(token),
    ensures
        start_claims(config, user, "/start adm_"@ + token) == seq![
            Effect::RedeemInvite { user, token_sha256: token_digest(token) },
        ],
{
    reveal_strlit("/start adm_");
    reveal_strlit("/start");
    reveal_strlit("adm_");
    let parameter = "adm_"@ + token;
    let text = "/start adm_"@ + token;
    assert(text =~= "/start"@ + seq![' '] + parameter);
    assert forall|i: int| 0 <= i < parameter.len() implies !is_space(parameter[i]) by {
        if i >= 4 {
            assert(parameter[i] == token[i - 4]);
        }
    }
    two_words_are_read_apart("/start"@, parameter);
    assert(parameter.take(4) =~= "adm_"@);
    assert(parameter.skip(4) =~= token);
}

/// The secret of the first administrator claims its rights, and nothing else does.
pub proof fn only_the_secret_claims(config: Config, user: i64, secret: Seq<char>, token: Seq<char>)
    requires
        text_of(config.bootstrap_token) == Some(secret),
        is_word(token),
    ensures
        start_claims(config, user, "/start bootstrap_"@ + token) == if token == secret {
            seq![Effect::<Seq<char>>::ClaimBootstrapAdmin { user }]
        } else {
            seq![]
        },
{
    reveal_strlit("/start bootstrap_");
    reveal_strlit("/start");
    reveal_strlit("bootstrap_");
    reveal_strlit("adm_");
    let parameter = "bootstrap_"@ + token;
    let text = "/start bootstrap_"@ + token;
    assert(text =~= "/start"@ + seq![' '] + parameter);
    assert forall|i: int| 0 <= i < parameter.len() implies !is_space(parameter[i]) by {
        if i >= 10 {
            assert(parameter[i] == token[i - 10]);
        }
    }
    two_words_are_read_apart("/start"@, parameter);
    assert(parameter.take(4)[0] == 'b');
    assert(parameter.take(10) =~= "bootstrap_"@);
    assert(parameter.skip(10) =~= token);
}

/// Where a private message leads.
pub open spec fn message_routed(config: Config, message: Message) -> StepView {
    let user = message.user;
    let chat = message.chat;
    let profile = asking(seq![], Query::User { user }, State::Profile);
    match text_of(message.text) {
        None => profile,
        Some(text) => if is_stats_command(text) {
            asking(seq![], Query::IsAdmin { user }, State::StatsCommand { chat })
        } else if has_prefix(text, "/start"@) {
            asking(
                start_claims(config, user, text),
                Query::User { user },
                State::Started { user, chat },
            )
        } else if has_prefix(text, "/help"@) {
            finished(seq![says(chat, phrases::HELP@)])
        } else if has_prefix(text, "/admin_link"@) {
            asking(seq![], Query::IsAdmin { user }, State::LinkCommand { user, chat })
        } else if has_prefix(text, "/notifications"@) || text == phrases::NOTIFICATIONS_BUTTON@ {
            asking(seq![], Query::User { user }, State::Notifications { user, chat })
        } else {
            profile
        },
    }
}

fn route_message(config: &Config, message: &Message) -> (r: Step)
    ensures
        r@ == message_routed(*config, *message),
{
    let user = message.user;
    let chat = message.chat;
    match &message.text {
        None => ask(none(), Query::User { user }, State::Profile),
        Some(text) => {
            let text = text.as_str();
            if stats_command(text) {
                ask(none(), Query::IsAdmin { user }, State::StatsCommand { chat })
            } else if starts_with(text, "/start") {
                ask(
                    claim_rights(config, user, text),
                    Query::User { user },
                    State::Started { user, chat },
                )
            } else if starts_with(text, "/help") {
                finish_with_text(chat, phrases::HELP)
            } else if starts_with(text, "/admin_link") {
                ask(none(), Query::IsAdmin { user }, State::LinkCommand { user, chat })
            } else if starts_with(text, "/notifications") || same_text(
                text,
                phrases::NOTIFICATIONS_BUTTON,
            ) {
                ask(none(), Query::User { user }, State::Notifications { user, chat })
            } else {
                ask(none(), Query::User { user }, State::Profile)
            }
        },
    }
}

/// The step after it is known whether the request is allowed: only then is the sender registered.
pub open spec fn private_allowed(config: Config, message: Message, allowed: bool) -> StepView {
    if allowed {
        preceded(
            seq![
                Effect::RecordMetric(Metric::Commands),
                Effect::RegisterUser {
                    user: message.user,
                    chat: message.chat,
                    username: text_of(message.username),
                },
            ],
            message_routed(config, message),
        )
    } else {
        asking(
            seq![Effect::RecordMetric(Metric::RateLimited)],
            Query::ShouldWarn { user: message.user },
            State::Warning { chat: message.chat },
        )
    }
}

/// The step after it is known whether the request is allowed: only then is the sender registered.
pub fn private_allowed_step(config: &Config, message: &Message, allowed: bool) -> (r: Step)
    ensures
        r@ == private_allowed(*config, *message, allowed),
{
    if allowed {
        precede(
            two(
                Effect::RecordMetric(Metric::Commands),
                Effect::RegisterUser {
                    user: message.user,
                    chat: message.chat,
                    username: copy_text(&message.username),
                },
            ),
            route_message(config, message),
        )
    } else {
        ask(
            one(Effect::RecordMetric(Metric::RateLimited)),
            Query::ShouldWarn { user: message.user },
            State::Warning { chat: message.chat },
        )
    }
}

/// The step of `/stats`.
pub open spec fn stats_checked(chat: i64, is_admin: bool) -> StepView {
    finished(
        seq![
            if is_admin {
                Effect::SendDashboard { chat, period: Period::Day, caption: caption_of(Period::Day) }
            } else {
                says(chat, phrases::STATS_FOR_ADMINS@)
            },
        ],
    )
}

/// The step of `/stats`.
pub fn stats_checked_step(chat: i64, is_admin: bool) -> (r: Step)
    ensures
        r@ == stats_checked(chat, is_admin),
{
    if is_admin {
        finish(
            one(
                Effect::SendDashboard {
                    chat,
                    period: Period::Day,
                    caption: dashboard_caption(Period::Day),
                },
            ),
        )
    } else {
        finish_with_text(chat, phrases::STATS_FOR_ADMINS)
    }
}

/// The greeting of `/start`.
pub open spec fn greeted(user: i64, chat: i64, profile: UserView) -> StepView {
    if profile.role == "admin"@ {
        match profile.group_code {
            Some(group) => finished(
                seq![
                    says_with_menu(
                        chat,
                        "Ты вошёл как администратор. Группа: "@ + group
                            + ".\nВыбери расписание в меню, отправь Excel для публикации или используй /admin_link."@,
                    ),
                ],
            ),
            None => finished(
                seq![moves_to(user, "await_group"@), says(chat, phrases::ADMIN_WITHOUT_GROUP@)],
            ),
        }
    } else {
        match profile.group_code {
            Some(group) => finished(
                seq![
                    says_with_menu(chat, "С возвращением! Твоя группа: "@ + group + "."@),
                ],
            ),
            None => finished(seq![moves_to(user, "await_group"@), says(chat, phrases::WELCOME@)]),
        }
    }
}

/// The greeting of `/start`.
pub fn greet_step(user: i64, chat: i64, profile: &User) -> (r: Step)
    ensures
        r@ == greeted(user, chat, profile@),
{
    if same_text(profile.role.as_str(), "admin") {
        match &profile.group_code {
            Some(group) => {
                let text = concat3(
                    "Ты вошёл как администратор. Группа: ",
                    group.as_str(),
                    ".\nВыбери расписание в меню, отправь Excel для публикации или используй /admin_link.",
                );
                finish(one(say_with_menu(chat, text.as_str())))
            },
            None => finish(
                two(move_to(user, "await_group"), say(chat, phrases::ADMIN_WITHOUT_GROUP)),
            ),
        }
    } else {
        match &profile.group_code {
            Some(group) => {
                let text = concat3("С возвращением! Твоя группа: ", group.as_str(), ".");
                finish(one(say_with_menu(chat, text.as_str())))
            },
            None => finish(two(move_to(user, "await_group"), say(chat, phrases::WELCOME))),
        }
    }
}

/// The step of `/admin_link` after the rights are known.
pub open spec fn link_checked(user: i64, chat: i64, is_admin: bool) -> StepView {
    if is_admin {
        asking(seq![], Query::NewInvite { user }, State::LinkToken { chat })
    } else {
        finished(seq![says(chat, phrases::LINK_FOR_ADMINS@)])
    }
}

/// The step of `/admin_link` after the rights are known.
pub fn link_checked_step(user: i64, chat: i64, is_admin: bool) -> (r: Step)
    ensures
        r@ == link_checked(user, chat, is_admin),
{
    if is_admin {
        ask(none(), Query::NewInvite { user }, State::LinkToken { chat })
    } else {
        finish_with_text(chat, phrases::LINK_FOR_ADMINS)
    }
}

/// The step of `/admin_link` after the token is there.
pub open spec fn link_made(chat: i64, token: Seq<char>) -> StepView {
    asking(seq![], Query::BotName, State::LinkName { chat, token })
}

/// The step of `/admin_link` after the token is there.
pub fn link_made_step(chat: i64, token: String) -> (r: Step)
    ensures
        r@ == link_made(chat, token@),
{
    ask(none(), Query::BotName, State::LinkName { chat, token })
}

/// The last step of `/admin_link`: the link carries the token behind the prefix that `/start`
/// redeems.
pub open spec fn link_sent(chat: i64, token: Seq<char>, bot_name: Seq<char>) -> StepView {
    finished(
        seq![
            says(
                chat,
                "Одноразовая ссылка действует 15 минут:\nhttps://t.me/"@ + bot_name
                    + "?start=adm_"@ + token,
            ),
        ],
    )
}

/// The last step of `/admin_link`.
pub fn link_sent_step(chat: i64, token: &str, bot_name: &str) -> (r: Step)
    ensures
        r@ == link_sent(chat, token@, bot_name@),
{
    let mut text = concat3(
        "Одноразовая ссылка действует 15 минут:\nhttps://t.me/",
        bot_name,
        "?start=adm_",
    );
    text.append(token);
    finish_with_text(chat, text.as_str())
}

/// The step that turns daily messages on and off.
pub open spec fn notifications_toggled(user: i64, chat: i64, profile: UserView) -> StepView {
    let enabled = !profile.daily_notifications_enabled;
    finished(
        seq![
            Effect::SetDailyNotifications { user, enabled },
            says_with_menu(
                chat,
                "Ежедневные уведомления "@ + (if enabled {
                    "включены"@
                } else {
                    "выключены"@
                }) + "."@,
            ),
        ],
    )
}

/// The step that turns daily messages on and off.
pub fn notifications_step(user: i64, chat: i64, profile: &User) -> (r: Step)
    ensures
        r@ == notifications_toggled(user, chat, profile@),
{
    let enabled = !profile.daily_notifications_enabled;
    let text = concat3(
        "Ежедневные уведомления ",
        if enabled {
            "включены"
        } else {
            "выключены"
        },
        ".",
    );
    finish(
        two(Effect::SetDailyNotifications { user, enabled }, say_with_menu(chat, text.as_str())),
    )
}

/// Whether a text is the button of today's lessons.
pub open spec fn names_today(text: Seq<char>) -> bool {
    text == "Сегодня"@ || text == phrases::TODAY_BUTTON@
}

/// Whether a text is the button of today's lessons.
pub fn is_today_button(text: &str) -> (r: bool)
    ensures
        r == names_today(text@),
{
    same_text(text, "Сегодня") || same_text(text, phrases::TODAY_BUTTON)
}

/// Whether a text is the button of the week's lessons.
pub open spec fn names_week(text: Seq<char>) -> bool {
    text == "На неделю"@ || text == phrases::WEEK_BUTTON@
}

/// Whether a text is the button of the week's lessons.
pub fn is_week_button(text: &str) -> (r: bool)
    ensures
        r == names_week(text@),
{
    same_text(text, "На неделю") || same_text(text, phrases::WEEK_BUTTON)
}

/// Whether a text is the button of the search.
pub open spec fn names_search(text: Seq<char>) -> bool {
    text == "Расширенный поиск"@ || text == phrases::SEARCH_BUTTON@
}

/// Whether a text is the button of the search.
pub fn is_search_button(text: &str) -> (r: bool)
    ensures
        r == names_search(text@),
{
    same_text(text, "Расширенный поиск") || same_text(text, phrases::SEARCH_BUTTON)
}

/// Where a text leads that is no command, by the state that its sender is in.
pub open spec fn text_routed(
    user: i64,
    chat: i64,
    profile: UserView,
    text: Seq<char>,
    today: DateView,
) -> StepView {
    let state = profile.flow_state;
    if state == "await_group"@ {
        asking(seq![], Query::KnownGroups, State::GroupNamed { user, chat, input: text })
    } else if state == "confirm_group"@ {
        finished(
            seq![
                asks_group(
                    chat,
                    match profile.pending_group {
                        Some(group) => group,
                        None => seq![],
                    },
                ),
            ],
        )
    } else if names_today(text) {
        shows_today(chat, profile, today)
    } else if names_week(text) {
        shows_week(chat, profile, today)
    } else if names_search(text) {
        finished(begins_search(user, chat))
    } else if state == "await_search_kind"@ {
        finished(seq![says(chat, phrases::CHOOSE_SEARCH_KIND@), asks_search_kind(chat)])
    } else if state == "await_search_text"@ {
        asking(seq![], Query::User { user }, State::SearchText { user, chat, query: text })
    } else if profile.group_code is None {
        finished(seq![moves_to(user, "await_group"@), says(chat, phrases::NAME_GROUP_FIRST@)])
    } else {
        finished(seq![says_with_menu(chat, phrases::CHOOSE_ACTION@)])
    }
}

fn route_text(user: i64, chat: i64, profile: User, text: String, today: Date) -> (r: Step)
    ensures
        r@ == text_routed(user, chat, profile@, text@, today@),
{
    let state = profile.flow_state.as_str();
    if same_text(state, "await_group") {
        ask(none(), Query::KnownGroups, State::GroupNamed { user, chat, input: text })
    } else if same_text(state, "confirm_group") {
        match &profile.pending_group {
            Some(group) => finish(one(ask_group(chat, group.as_str()))),
            None => {
                let nothing = String::new();
                finish(one(ask_group(chat, nothing.as_str())))
            },
        }
    } else if is_today_button(text.as_str()) {
        show_today(chat, profile, today)
    } else if is_week_button(text.as_str()) {
        show_week(chat, profile, today)
    } else if is_search_button(text.as_str()) {
        finish(begin_search(user, chat))
    } else if same_text(state, "await_search_kind") {
        finish(two(say(chat, phrases::CHOOSE_SEARCH_KIND), ask_search_kind(chat)))
    } else if same_text(state, "await_search_text") {
        ask(none(), Query::User { user }, State::SearchText { user, chat, query: text })
    } else if profile.group_code.is_none() {
        finish(two(move_to(user, "await_group"), say(chat, phrases::NAME_GROUP_FIRST)))
    } else {
        finish(one(say_with_menu(chat, phrases::CHOOSE_ACTION)))
    }
}

/// The name of an attached file.
pub open spec fn document_name(document: Document) -> Seq<char> {
    match document.file_name {
        Some(name) => name@,
        None => "schedule.xls"@,
    }
}

/// The lower-case extension of a file.
pub open spec fn lower_extension(name: Seq<char>) -> Seq<char> {
    lowercase(
        match extension(name) {
            Some(ext) => ext,
            None => seq![],
        },
    )
}

/// The first step of an upload, where `lower` is the lower-case extension of the file: only
/// administrators bring files, and only spreadsheets are fetched.
pub open spec fn document_taken(
    user: i64,
    chat: i64,
    role: Seq<char>,
    file_name: Seq<char>,
    lower: Seq<char>,
) -> StepView {
    if role != "admin"@ {
        finished(seq![says(chat, phrases::UPLOADS_FOR_ADMINS@)])
    } else if !is_spreadsheet(lower) {
        finished(seq![says(chat, phrases::SUPPORTED_FILES@)])
    } else {
        asking(
            seq![],
            Query::Download { extension: lower },
            State::FileFetched { user, chat, file_name, extension: lower },
        )
    }
}

/// The first step of an upload, where `lower` is the lower-case extension of the file.
pub fn document_step(user: i64, chat: i64, role: &str, file_name: String, lower: String) -> (r: Step)
    ensures
        r@ == document_taken(user, chat, role@, file_name@, lower@),
{
    if !same_text(role, "admin") {
        finish_with_text(chat, phrases::UPLOADS_FOR_ADMINS)
    } else if !accepts_extension(lower.as_str()) {
        finish_with_text(chat, phrases::SUPPORTED_FILES)
    } else {
        ask(
            none(),
            Query::Download { extension: lower.clone() },
            State::FileFetched { user, chat, file_name, extension: lower },
        )
    }
}

fn read_extension(file_name: &str) -> (r: String)
    ensures
        r@ == lower_extension(file_name@),
{
    match file_extension(file_name) {
        Some(ext) => to_lowercase(ext.as_str()),
        None => {
            let nothing = String::new();
            assert(nothing@ =~= seq![]);
            to_lowercase(nothing.as_str())
        },
    }
}

/// The step after the sender's profile is known.
pub open spec fn profile_known(message: Message, profile: UserView, today: DateView) -> StepView {
    let user = message.user;
    let chat = message.chat;
    match message.document {
        Some(document) => document_taken(
            user,
            chat,
            profile.role,
            document_name(document),
            lower_extension(document_name(document)),
        ),
        None => match text_of(message.text) {
            None => finished(seq![says(chat, phrases::SEND_GROUP_OR_BUTTON@)]),
            Some(text) => text_routed(user, chat, profile, trimmed(text), today),
        },
    }
}

/// The step after the sender's profile is known.
pub fn profile_step(message: &Message, profile: User, today: Date) -> (r: Step)
    ensures
        r@ == profile_known(*message, profile@, today@),
{
    let user = message.user;
    let chat = message.chat;
    match &message.document {
        Some(document) => {
            let name = match &document.file_name {
                Some(name) => name.clone(),
                None => "schedule.xls".to_owned(),
            };
            let lower = read_extension(name.as_str());
            document_step(user, chat, profile.role.as_str(), name, lower)
        },
        None => match &message.text {
            None => finish_with_text(chat, phrases::SEND_GROUP_OR_BUTTON),
            Some(text) => {
                let text = trim(text.as_str());
                route_text(user, chat, profile, text, today)
            },
        },
    }
}

/// The first of the groups whose lower-case form is `lower`; `lowered` are the lower-case forms of
/// the groups.
pub open spec fn group_at(groups: Seq<Seq<char>>, lowered: Seq<Seq<char>>, lower: Seq<char>) -> Option<
    Seq<char>,
>
    decreases groups.len(),
{
    if groups.len() == 0 {
        None
    } else if lowered[0] == lower {
        Some(groups[0])
    } else {
        group_at(groups.skip(1), lowered.skip(1), lower)
    }
}

/// The lower-case forms of a list.
pub open spec fn lowercased(list: Seq<Seq<char>>) -> Seq<Seq<char>> {
    list.map_values(|text: Seq<char>| lowercase(text))
}

/// The step after someone named a group, where `found` is the published group that it spells.
pub open spec fn group_named(user: i64, chat: i64, found: Option<Seq<char>>) -> StepView {
    match found {
        Some(group) => finished(
            seq![Effect::SetPendingGroup { user, group }, asks_group(chat, group)],
        ),
        None => finished(seq![says(chat, phrases::UNKNOWN_GROUP@)]),
    }
}

/// The step after someone named a group, where `found` is the published group that it spells.
pub fn group_named_step(user: i64, chat: i64, found: Option<String>) -> (r: Step)
    ensures
        r@ == group_named(user, chat, text_of(found)),
{
    match found {
        Some(group) => {
            let question = ask_group(chat, group.as_str());
            finish(two(Effect::SetPendingGroup { user, group }, question))
        },
        None => finish_with_text(chat, phrases::UNKNOWN_GROUP),
    }
}

/// The first of the groups whose lower-case form is `lower`; `lowered` are the lower-case forms of
/// the groups.
pub fn find_group(groups: &Vec<String>, lowered: &Vec<String>, lower: &str) -> (r: Option<String>)
    requires
        groups@.len() == lowered@.len(),
    ensures
        text_of(r) == group_at(texts(groups@), texts(lowered@), lower@),
{
    let ghost all = texts(groups@);
    let ghost low = texts(lowered@);
    let mut i: usize = 0;
    assert(all.skip(0) =~= all);
    assert(low.skip(0) =~= low);
    while i < groups.len()
        invariant
            i <= groups@.len(),
            groups@.len() == lowered@.len(),
            all == texts(groups@),
            low == texts(lowered@),
            group_at(all, low, lower@) == group_at(
                all.skip(i as int),
                low.skip(i as int),
                lower@,
            ),
        decreases groups@.len() - i,
    {
        assert(all.skip(i as int)[0] == groups@[i as int]@);
        assert(low.skip(i as int)[0] == lowered@[i as int]@);
        assert(all.skip(i as int).skip(1) =~= all.skip(i + 1));
        assert(low.skip(i as int).skip(1) =~= low.skip(i + 1));
        if same_text(lowered[i].as_str(), lower) {
            return Some(groups[i].clone());
        }
        i += 1;
    }
    None
}

fn lowercase_all(list: &Vec<String>) -> (r: Vec<String>)
    ensures
        texts(r@) == lowercased(texts(list@)),
{
    let mut r: Vec<String> = Vec::new();
    let mut i: usize = 0;
    while i < list.len()
        invariant
            i <= list@.len(),
            r@.len() == i,
            forall|j: int| 0 <= j < i ==> #[trigger] r@[j]@ == lowercase(list@[j]@),
        decreases list@.len() - i,
    {
        r.push(to_lowercase(list[i].as_str()));
        i += 1;
    }
    assert(texts(r@) =~= lowercased(texts(list@)));
    r
}

/// The published group that an input spells, whatever the case of its letters.
pub open spec fn published_group(groups: Seq<Seq<char>>, input: Seq<char>) -> Option<Seq<char>> {
    group_at(groups, lowercased(groups), lowercase(trimmed(input)))
}

/// The step after someone named a group and the published groups are known.
pub fn group_input_step(user: i64, chat: i64, input: &str, groups: &Vec<String>) -> (r: Step)
    ensures
        r@ == group_named(user, chat, published_group(texts(groups@), input@)),
{
    let input = trim(input);
    let lower = to_lowercase(input.as_str());
    let lowered = lowercase_all(groups);
    assert(groups@.len() == texts(groups@).len());
    assert(lowered@.len() == texts(lowered@).len());
    group_named_step(user, chat, find_group(groups, &lowered, lower.as_str()))
}

/// What a user searches for: teachers, unless they chose rooms.
pub open spec fn kind_of_search(profile: UserView) -> Seq<char> {
    match profile.search_kind {
        Some(kind) => kind,
        None => "teacher"@,
    }
}

/// The step that searches.
pub open spec fn search_asked(
    user: i64,
    chat: i64,
    query: Seq<char>,
    profile: UserView,
    today: DateView,
) -> StepView {
    let kind = kind_of_search(profile);
    asking(
        seq![],
        Query::SearchLessons {
            column: column_of(kind),
            pattern: pattern_of(kind, query),
            date: today,
        },
        State::SearchDone { user, chat, kind, query },
    )
}

/// The step that searches.
pub fn search_step(user: i64, chat: i64, query: String, profile: &User, today: Date) -> (r: Step)
    ensures
        r@ == search_asked(user, chat, query@, profile@, today@),
{
    let kind = match &profile.search_kind {
        Some(kind) => kind.clone(),
        None => "teacher".to_owned(),
    };
    ask(
        none(),
        Query::SearchLessons {
            column: search_column(kind.as_str()).to_owned(),
            pattern: search_pattern(kind.as_str(), query.as_str()),
            date: today,
        },
        State::SearchDone { user, chat, kind, query },
    )
}

/// The title of what a search found; `room` is the shown name of the room that was asked for.
pub open spec fn search_title(kind: Seq<char>, query: Seq<char>, room: Seq<char>) -> Seq<char> {
    if kind == "teacher"@ {
        "Поиск преподавателя: "@ + query
    } else {
        "Поиск аудитории: "@ + room
    }
}

/// The last step of a search; `room` is the shown name of the room that was asked for.
pub open spec fn search_shown(
    user: i64,
    chat: i64,
    kind: Seq<char>,
    query: Seq<char>,
    room: Seq<char>,
    lessons: Seq<LessonView>,
) -> StepView {
    finished(
        seq![moves_to(user, "menu"@)] + if lessons.len() == 0 {
            seq![says_with_menu(chat, phrases::NOTHING_FOUND@)]
        } else {
            sends_schedule(chat, search_title(kind, query, room), lessons, true)
        },
    )
}

/// The last step of a search; `room` is the shown name of the room that was asked for.
pub fn search_shown_step(
    user: i64,
    chat: i64,
    kind: &str,
    query: &str,
    room: &str,
    lessons: &Vec<Lesson>,
) -> (r: Step)
    ensures
        r@ == search_shown(user, chat, kind@, query@, room@, lessons_view(lessons@)),
{
    assert(lessons@.len() == lessons_view(lessons@).len());
    let plan: Step = if lessons.len() == 0 {
        finish(one(say_with_menu(chat, phrases::NOTHING_FOUND)))
    } else {
        let title = if same_text(kind, "teacher") {
            concat2("Поиск преподавателя: ", query)
        } else {
            concat2("Поиск аудитории: ", room)
        };
        finish(send_schedule(chat, title.as_str(), lessons, true))
    };
    precede(one(move_to(user, "menu")), plan)
}

/// The last step of a search.
pub fn search_done_step(
    user: i64,
    chat: i64,
    kind: &str,
    query: &str,
    lessons: &Vec<Lesson>,
) -> (r: Step)
    ensures
        r@ == search_shown(user, chat, kind@, query@, room_name(query@), lessons_view(lessons@)),
{
    let room = display_room_name(query);
    search_shown_step(user, chat, kind, query, room.as_str(), lessons)
}

/// The step of an upload after the file is there: it must keep within the limit.
pub open spec fn file_fetched(
    user: i64,
    chat: i64,
    file_name: Seq<char>,
    extension: Seq<char>,
    size: u64,
) -> StepView {
    if size > FILE_LIMIT {
        finished(seq![says(chat, phrases::FILE_TOO_LARGE@)])
    } else {
        asking(
            seq![],
            Query::Parse { extension },
            State::FileRead { user, chat, file_name, extension },
        )
    }
}

/// The step of an upload after the file is there.
pub fn file_fetched_step(
    user: i64,
    chat: i64,
    file_name: String,
    extension: String,
    size: u64,
) -> (r: Step)
    ensures
        r@ == file_fetched(user, chat, file_name@, extension@, size),
{
    if size > FILE_LIMIT {
        finish_with_text(chat, phrases::FILE_TOO_LARGE)
    } else {
        ask(
            none(),
            Query::Parse { extension: extension.clone() },
            State::FileRead { user, chat, file_name, extension },
        )
    }
}

/// The step of an upload after the file is read.
pub open spec fn file_read(
    user: i64,
    chat: i64,
    file_name: Seq<char>,
    extension: Seq<char>,
    parsed: Result<Vec<Lesson>, ParseError>,
) -> StepView {
    match parsed {
        Err(ParseError::BrokenOff) => failed(seq![], Failure::ParsingBrokenOff),
        Err(error) => finished(
            seq![says(chat, "Не распознал расписание в файле: "@ + error.text())],
        ),
        Ok(lessons) => asking(
            seq![],
            Query::Preview { user, file_name, lessons: lessons_view(lessons@) },
            State::UploadPreviewed { user, chat, extension },
        ),
    }
}

/// The step of an upload after the file is read.
pub fn file_read_step(
    user: i64,
    chat: i64,
    file_name: String,
    extension: String,
    parsed: Result<Vec<Lesson>, ParseError>,
) -> (r: Step)
    ensures
        r@ == file_read(user, chat, file_name@, extension@, parsed),
{
    match parsed {
        Err(ParseError::BrokenOff) => fail(Failure::ParsingBrokenOff),
        Err(error) => {
            let reason = error.message();
            let text = concat2("Не распознал расписание в файле: ", reason.as_str());
            finish_with_text(chat, text.as_str())
        },
        Ok(lessons) => ask(
            none(),
            Query::Preview { user, file_name, lessons },
            State::UploadPreviewed { user, chat, extension },
        ),
    }
}

/// The step of an upload after it is compared with what is published: it goes on only where the
/// file can be archived.
pub open spec fn upload_previewed(
    config: Config,
    user: i64,
    chat: i64,
    extension: Seq<char>,
    preview: Result<UploadPreview, String>,
) -> StepView {
    match preview {
        Err(error) => finished(seq![says(chat, "Файл не прошёл проверку: "@ + error@)]),
        Ok(preview) => {
            let id = preview.id;
            let key = archive_key(id, extension);
            if config.has_archive {
                asking(
                    seq![],
                    Query::SaveSource { key },
                    State::SourceSaved {
                        user,
                        chat,
                        id,
                        question: preview_question(preview@.update),
                        key,
                    },
                )
            } else {
                finished(
                    seq![Effect::CancelUpload { id, user }, says(chat, phrases::NO_ARCHIVE@)],
                )
            }
        },
    }
}

/// The step of an upload after it is compared with what is published.
pub fn upload_previewed_step(
    config: &Config,
    user: i64,
    chat: i64,
    extension: &str,
    preview: Result<UploadPreview, String>,
) -> (r: Step)
    ensures
        r@ == upload_previewed(*config, user, chat, extension@, preview),
{
    match preview {
        Err(error) => {
            let text = concat2("Файл не прошёл проверку: ", error.as_str());
            finish_with_text(chat, text.as_str())
        },
        Ok(preview) => {
            let id = preview.id;
            if config.has_archive {
                let key = source_key(id, extension);
                let question = preview_message(&preview);
                ask(
                    none(),
                    Query::SaveSource { key: key.clone() },
                    State::SourceSaved { user, chat, id, question, key },
                )
            } else {
                finish(two(Effect::CancelUpload { id, user }, say(chat, phrases::NO_ARCHIVE)))
            }
        },
    }
}

/// The step of an upload after the file is archived: without its file it is dropped.
pub open spec fn source_saved(
    user: i64,
    chat: i64,
    id: u128,
    question: Seq<char>,
    key: Seq<char>,
    saved: Result<(), String>,
) -> StepView {
    match saved {
        Err(error) => finished(
            seq![
                Effect::CancelUpload { id, user },
                says(chat, "Не удалось сохранить исходную таблицу в архиве: "@ + error@),
            ],
        ),
        Ok(_) => asking(
            seq![],
            Query::AttachSource { id, user, key },
            State::SourceAttached { user, chat, id, question, key },
        ),
    }
}

/// The step of an upload after the file is archived.
pub fn source_saved_step(
    user: i64,
    chat: i64,
    id: u128,
    question: String,
    key: String,
    saved: Result<(), String>,
) -> (r: Step)
    ensures
        r@ == source_saved(user, chat, id, question@, key@, saved),
{
    match saved {
        Err(error) => {
            let text = concat2(
                "Не удалось сохранить исходную таблицу в архиве: ",
                error.as_str(),
            );
            finish(two(Effect::CancelUpload { id, user }, say(chat, text.as_str())))
        },
        Ok(_) => ask(
            none(),
            Query::AttachSource { id, user, key: key.clone() },
            State::SourceAttached { user, chat, id, question, key },
        ),
    }
}

/// The last step of an upload: the administrator is asked, or the upload is dropped together with
/// its file.
pub open spec fn source_attached(
    user: i64,
    chat: i64,
    id: u128,
    question: Seq<char>,
    key: Seq<char>,
    attached: Result<(), String>,
) -> StepView {
    match attached {
        Err(error) => finished(
            seq![
                Effect::CancelUpload { id, user },
                Effect::DeleteSource { key },
                says(chat, "Не удалось подготовить исходную таблицу к публикации: "@ + error@),
            ],
        ),
        Ok(_) => finished(
            seq![Effect::SendChoice { chat, text: question, keyboard: Keyboard::Upload(id) }],
        ),
    }
}

/// The last step of an upload.
pub fn source_attached_step(
    user: i64,
    chat: i64,
    id: u128,
    question: String,
    key: String,
    attached: Result<(), String>,
) -> (r: Step)
    ensures
        r@ == source_attached(user, chat, id, question@, key@, attached),
{
    match attached {
        Err(error) => {
            let text = concat2(
                "Не удалось подготовить исходную таблицу к публикации: ",
                error.as_str(),
            );
            let mut effects = two(Effect::CancelUpload { id, user }, Effect::DeleteSource { key });
            push_effect(&mut effects, say(chat, text.as_str()));
            finish(effects)
        },
        Ok(_) => finish(
            one(Effect::SendChoice { chat, text: question, keyboard: Keyboard::Upload(id) }),
        ),
    }
}

} // verus!
