//! Pressed buttons.

use crate::action::{
    ask, asking, cancel_data, caption_of, confirm_data, dashboard_caption, effects_view, fail,
    failed, finish, finish_with_text, finished, named_upload, none, one, period_data, precede,
    preceded, push_effect, say, say_with_menu, says, says_with_menu, two, Effect, Failure, Query,
};
use crate::conversation::{
    begin_search, begins_search, Callback, Config, State, StateView, Step, StepView,
};
use crate::identity::parse_id;
use crate::lesson::copy_text;
use crate::phrases;
use crate::stats::{period_code_round_trips, Metric, Period};
use crate::store::{publication_message, publication_notice, Publication};
use crate::text::{
    concat3, has_prefix, same_text, starts_with, strip_prefix, text_of, trim_start_matches,
    without_prefix,
};
use vstd::prelude::*;

verus! {

/// The first step of a pressed button.
pub open spec fn callback_begins(callback: Callback) -> StepView {
    asking(
        seq![],
        Query::Allow { user: callback.user, chat: callback.user },
        State::CallbackAllowed,
    )
}

/// The first step of a pressed button.
pub fn begin_callback(callback: &Callback) -> (r: Step)
    ensures
        r@ == callback_begins(*callback),
{
    ask(
        none(),
        Query::Allow { user: callback.user, chat: callback.user },
        State::CallbackAllowed,
    )
}

/// What a pressed button reports.
pub open spec fn pressed(callback: Callback) -> Seq<char> {
    match callback.data {
        Some(data) => data@,
        None => seq![],
    }
}

/// The step that publishes the upload that a button names, where it names one.
pub open spec fn confirm_pressed(user: i64, id: Option<u128>) -> StepView {
    match id {
        None => failed(seq![], Failure::BadUploadId),
        Some(id) => asking(
            seq![],
            Query::ConfirmUpload { id, user },
            State::UploadConfirmed { user },
        ),
    }
}

/// The step that publishes the upload that a button names, where it names one.
pub fn confirm_pressed_step(user: i64, id: Option<u128>) -> (r: Step)
    ensures
        r@ == confirm_pressed(user, id),
{
    match id {
        None => fail(Failure::BadUploadId),
        Some(id) => ask(
            none(),
            Query::ConfirmUpload { id, user },
            State::UploadConfirmed { user },
        ),
    }
}

/// The step that drops the upload that a button names, where it names one.
pub open spec fn cancel_pressed(user: i64, id: Option<u128>) -> StepView {
    match id {
        None => failed(seq![], Failure::BadUploadId),
        Some(id) => asking(
            seq![],
            Query::CancelUpload { id, user },
            State::UploadCancelled { user },
        ),
    }
}

/// The step that drops the upload that a button names, where it names one.
pub fn cancel_pressed_step(user: i64, id: Option<u128>) -> (r: Step)
    ensures
        r@ == cancel_pressed(user, id),
{
    match id {
        None => fail(Failure::BadUploadId),
        Some(id) => ask(
            none(),
            Query::CancelUpload { id, user },
            State::UploadCancelled { user },
        ),
    }
}

/// The effects of choosing what to search for.
pub open spec fn chooses_kind(user: i64, kind: Seq<char>, label: Seq<char>) -> Seq<
    Effect<Seq<char>>,
> {
    seq![
        Effect::SetFlowState { user, state: "await_search_text"@, search_kind: Some(kind) },
        says(user, "Напиши "@ + label + " для поиска."@),
    ]
}

fn choose_kind(user: i64, kind: &str, label: &str) -> (r: Vec<Effect<String>>)
    ensures
        effects_view(r@) == chooses_kind(user, kind@, label@),
{
    let text = concat3("Напиши ", label, " для поиска.");
    two(
        Effect::SetFlowState {
            user,
            state: "await_search_text".to_owned(),
            search_kind: Some(kind.to_owned()),
        },
        say(user, text.as_str()),
    )
}

/// Where a pressed button leads that is none of the dashboard's.
pub open spec fn button_routed(user: i64, data: Seq<char>) -> StepView {
    if data == "group:yes"@ {
        asking(seq![], Query::ConfirmGroup { user }, State::GroupButton { user })
    } else if data == "group:no"@ {
        finished(
            seq![Effect::RejectPendingGroup { user }, says(user, phrases::WRITE_RIGHT_GROUP@)],
        )
    } else if data == "search:teacher"@ {
        finished(chooses_kind(user, "teacher"@, "имя преподавателя"@))
    } else if data == "search:room"@ {
        finished(chooses_kind(user, "room"@, "номер или часть номера аудитории"@))
    } else if data == "menu:today"@ {
        asking(seq![], Query::User { user }, State::TodayButton { user })
    } else if data == "menu:week"@ {
        asking(seq![], Query::User { user }, State::WeekButton { user })
    } else if data == "menu:search"@ {
        finished(begins_search(user, user))
    } else if has_prefix(data, "upload:confirm:"@) {
        confirm_pressed(user, named_upload(data, "upload:confirm:"@))
    } else if has_prefix(data, "upload:cancel:"@) {
        cancel_pressed(user, named_upload(data, "upload:cancel:"@))
    } else {
        finished(seq![says(user, phrases::STALE_BUTTON@)])
    }
}

fn route_button(user: i64, data: &str) -> (r: Step)
    ensures
        r@ == button_routed(user, data@),
{
    if same_text(data, "group:yes") {
        ask(none(), Query::ConfirmGroup { user }, State::GroupButton { user })
    } else if same_text(data, "group:no") {
        finish(two(Effect::RejectPendingGroup { user }, say(user, phrases::WRITE_RIGHT_GROUP)))
    } else if same_text(data, "search:teacher") {
        finish(choose_kind(user, "teacher", "имя преподавателя"))
    } else if same_text(data, "search:room") {
        finish(choose_kind(user, "room", "номер или часть номера аудитории"))
    } else if same_text(data, "menu:today") {
        ask(none(), Query::User { user }, State::TodayButton { user })
    } else if same_text(data, "menu:week") {
        ask(none(), Query::User { user }, State::WeekButton { user })
    } else if same_text(data, "menu:search") {
        finish(begin_search(user, user))
    } else if starts_with(data, "upload:confirm:") {
        let id = trim_start_matches(data, "upload:confirm:");
        confirm_pressed_step(user, parse_id(id.as_str()))
    } else if starts_with(data, "upload:cancel:") {
        let id = trim_start_matches(data, "upload:cancel:");
        cancel_pressed_step(user, parse_id(id.as_str()))
    } else {
        finish_with_text(user, phrases::STALE_BUTTON)
    }
}

/// The step after it is known whether the request is allowed.
pub open spec fn callback_allowed(callback: Callback, allowed: bool) -> StepView {
    let user = callback.user;
    let data = pressed(callback);
    if !allowed {
        asking(
            seq![Effect::RecordMetric(Metric::RateLimited), Effect::AnswerCallback],
            Query::ShouldWarn { user },
            State::Warning { chat: user },
        )
    } else {
        match without_prefix(data, "stats:"@) {
            Some(code) => match Period::with_code(code) {
                None => finished(seq![Effect::AnswerCallback]),
                Some(period) => asking(
                    seq![],
                    Query::IsAdmin { user },
                    State::StatsButton { user, chat: callback.message_chat, period },
                ),
            },
            None => preceded(
                seq![
                    Effect::AnswerCallback,
                    Effect::RecordMetric(Metric::Commands),
                    Effect::RegisterUser {
                        user,
                        chat: user,
                        username: text_of(callback.username),
                    },
                ],
                button_routed(user, data),
            ),
        }
    }
}

/// The step after it is known whether the request is allowed.
pub fn callback_allowed_step(callback: &Callback, allowed: bool) -> (r: Step)
    ensures
        r@ == callback_allowed(*callback, allowed),
{
    let user = callback.user;
    if !allowed {
        return ask(
            two(Effect::RecordMetric(Metric::RateLimited), Effect::AnswerCallback),
            Query::ShouldWarn { user },
            State::Warning { chat: user },
        );
    }
    let data = match &callback.data {
        Some(data) => data.clone(),
        None => String::new(),
    };
    assert(data@ =~= pressed(*callback));
    match strip_prefix(data.as_str(), "stats:") {
        Some(code) => match Period::from_callback(code.as_str()) {
            None => finish(one(Effect::AnswerCallback)),
            Some(period) => ask(
                none(),
                Query::IsAdmin { user },
                State::StatsButton { user, chat: callback.message_chat, period },
            ),
        },
        None => {
            let mut effects = two(
                Effect::AnswerCallback,
                Effect::RecordMetric(Metric::Commands),
            );
            push_effect(
                &mut effects,
                Effect::RegisterUser { user, chat: user, username: copy_text(&callback.username) },
            );
            precede(effects, route_button(user, data.as_str()))
        },
    }
}

/// Whether a button of the dashboard may be used: by an administrator, in their own private chat.
pub open spec fn may_see_stats(is_admin: bool, user: i64, chat: Option<i64>) -> bool {
    is_admin && chat == Some(user)
}

/// Whether a button of the dashboard may be used.
pub fn stats_callback_allowed(is_admin: bool, user_id: i64, callback_chat_id: Option<i64>) -> (r:
    bool)
    ensures
        r == may_see_stats(is_admin, user_id, callback_chat_id),
{
    match callback_chat_id {
        Some(chat) => is_admin && chat == user_id,
        None => false,
    }
}

/// The step of a dashboard's button after the rights are known.
pub open spec fn stats_pressed(
    user: i64,
    chat: Option<i64>,
    period: Period,
    is_admin: bool,
) -> StepView {
    finished(
        if may_see_stats(is_admin, user, chat) {
            seq![
                Effect::AnswerCallback,
                Effect::RecordMetric(Metric::Commands),
                Effect::EditDashboard { chat: user, period, caption: caption_of(period) },
            ]
        } else {
            seq![Effect::AlertCallback { text: phrases::DASHBOARD_FOR_ADMINS@ }]
        },
    )
}

/// The step of a dashboard's button after the rights are known.
pub fn stats_pressed_step(user: i64, chat: Option<i64>, period: Period, is_admin: bool) -> (r: Step)
    ensures
        r@ == stats_pressed(user, chat, period, is_admin),
{
    if stats_callback_allowed(is_admin, user, chat) {
        let mut effects = two(Effect::AnswerCallback, Effect::RecordMetric(Metric::Commands));
        push_effect(
            &mut effects,
            Effect::EditDashboard { chat: user, period, caption: dashboard_caption(period) },
        );
        finish(effects)
    } else {
        finish(one(Effect::AlertCallback { text: phrases::DASHBOARD_FOR_ADMINS.to_owned() }))
    }
}

/// The step after a group is confirmed.
pub open spec fn group_confirmed(user: i64, group: Option<Seq<char>>) -> StepView {
    finished(
        seq![
            match group {
                Some(group) => says_with_menu(user, "Группа "@ + group + " сохранена."@),
                None => says(user, phrases::NO_PENDING_GROUP@),
            },
        ],
    )
}

/// The step after a group is confirmed.
pub fn group_confirmed_step(user: i64, group: Option<String>) -> (r: Step)
    ensures
        r@ == group_confirmed(user, text_of(group)),
{
    match group {
        Some(group) => {
            let text = concat3("Группа ", group.as_str(), " сохранена.");
            finish(one(say_with_menu(user, text.as_str())))
        },
        None => finish_with_text(user, phrases::NO_PENDING_GROUP),
    }
}

/// The step after an upload is published.
pub open spec fn upload_published(user: i64, publication: Publication) -> StepView {
    finished(seq![says(user, publication_notice(publication@))])
}

/// The step after an upload is published.
pub fn upload_published_step(user: i64, publication: &Publication) -> (r: Step)
    ensures
        r@ == upload_published(user, *publication),
{
    let text = publication_message(publication);
    finish_with_text(user, text.as_str())
}

/// The step after an upload is dropped: its file leaves the archive too.
pub open spec fn upload_dropped(
    config: Config,
    user: i64,
    cancelled: bool,
    source_key: Option<Seq<char>>,
) -> StepView {
    finished(
        if !cancelled {
            seq![says(user, phrases::UPLOAD_NOT_CANCELLED@)]
        } else {
            (match source_key {
                Some(key) => if config.has_archive {
                    seq![Effect::DeleteSource { key }]
                } else {
                    seq![]
                },
                None => seq![],
            }).push(says(user, phrases::UPLOAD_CANCELLED@))
        },
    )
}

/// The step after an upload is dropped: its file leaves the archive too.
pub fn upload_dropped_step(
    config: &Config,
    user: i64,
    cancelled: bool,
    source_key: Option<String>,
) -> (r: Step)
    ensures
        r@ == upload_dropped(*config, user, cancelled, text_of(source_key)),
{
    if !cancelled {
        return finish_with_text(user, phrases::UPLOAD_NOT_CANCELLED);
    }
    let mut effects = match source_key {
        Some(key) => {
            if config.has_archive {
                one(Effect::DeleteSource { key })
            } else {
                none()
            }
        },
        None => none(),
    };
    push_effect(&mut effects, say(user, phrases::UPLOAD_CANCELLED));
    finish(effects)
}

/// The button of a period asks for the dashboard of that period.
pub proof fn period_button_names_its_period(callback: Callback, period: Period)
    requires
        pressed(callback) == period_data(period),
    ensures
        callback_allowed(callback, true) == asking::<StateView>(
            seq![],
            Query::IsAdmin { user: callback.user },
            State::StatsButton { user: callback.user, chat: callback.message_chat, period },
        ),
{
    let data = period_data(period);
    assert(data.take("stats:"@.len() as int) =~= "stats:"@);
    assert(data.skip("stats:"@.len() as int) =~= period.code());
    period_code_round_trips(period);
}

/// Pressing the buttons of an upload asks for that upload.
pub open spec fn upload_buttons_work(id: u128) -> bool {
    &&& forall|user: i64| #[trigger]
        button_routed(user, confirm_data(id)) == confirm_pressed(user, Some(id))
    &&& forall|user: i64| #[trigger]
        button_routed(user, cancel_data(id)) == cancel_pressed(user, Some(id))
}

pub(crate) proof fn lemma_upload_buttons(id: u128)
    requires
        named_upload(confirm_data(id), "upload:confirm:"@) == Some(id),
        named_upload(cancel_data(id), "upload:cancel:"@) == Some(id),
    ensures
        upload_buttons_work(id),
{
    reveal_strlit("upload:confirm:");
    reveal_strlit("upload:cancel:");
    reveal_strlit("group:yes");
    reveal_strlit("group:no");
    reveal_strlit("search:teacher");
    reveal_strlit("search:room");
    reveal_strlit("menu:today");
    reveal_strlit("menu:week");
    reveal_strlit("menu:search");
    let confirm = confirm_data(id);
    let cancel = cancel_data(id);
    assert(confirm.take(15) =~= "upload:confirm:"@);
    assert(cancel.take(14) =~= "upload:cancel:"@);
    assert(confirm[0] == 'u' && cancel[0] == 'u' && cancel[8] == 'a');
    assert(cancel.take(15)[8] == 'a' || cancel.len() < 15);
    assert("upload:confirm:"@[8] == 'o');
    assert(!has_prefix(cancel, "upload:confirm:"@));
    assert("group:yes"@[0] == 'g' && "group:no"@[0] == 'g' && "search:teacher"@[0] == 's'
        && "search:room"@[0] == 's' && "menu:today"@[0] == 'm' && "menu:week"@[0] == 'm'
        && "menu:search"@[0] == 'm');
}

} // verus!
