//! Conversations from their first step to their last.

use crate::action::{
    fail, failed, finish, finished, none, Effect, Failure, Keyboard, Membership, Next, Query, Reply,
};
use crate::callback::{
    begin_callback, button_routed, callback_allowed, callback_allowed_step, callback_begins,
    group_confirmed, group_confirmed_step, pressed, stats_pressed, stats_pressed_step,
    upload_dropped, upload_dropped_step, upload_published, upload_published_step,
};
use crate::conversation::{
    sends_schedule, show_today, show_week, shows_today, shows_week, today_shown, today_step,
    warn_step, warned, week_shown, week_step, Callback, ChatType, Config, Message, Request, Span,
    State, StateView, Step, StepView,
};
use crate::date::{Date, DateView};
use crate::group::{
    begin_group, command_runs, disable_checked, disable_checked_step, disable_done,
    disable_done_step, group_allowed, group_allowed_step, group_begins, group_chosen,
    group_chosen_step, group_lessons_shown, group_lessons_step, group_shown, group_shown_step,
    lessons_title, message_command, named_day, set_group_checked, set_group_checked_step,
    timetable_asked, timetable_step,
};
use crate::lesson::{lessons_view, Lesson, LessonView};
use crate::parser::{room_name, ParseError};
use crate::phrases;
use crate::private::{
    begin_private, file_fetched, file_fetched_step, file_read, file_read_step, greet_step, greeted,
    group_input_step, group_named, link_checked, link_checked_step, link_made, link_made_step,
    link_sent, link_sent_step, message_routed, notifications_step, notifications_toggled,
    private_allowed, private_allowed_step, private_begins, profile_known, profile_step,
    published_group, search_asked, search_done_step, search_shown, search_step, search_title,
    source_attached, source_attached_step, source_saved, source_saved_step, start_claims,
    stats_checked, stats_checked_step, upload_previewed, upload_previewed_step,
};
use crate::stats::{Metric, Period};
use crate::store::{Publication, UploadPreview, UserView};
use crate::text::{text_of, texts, without_prefix};
use vstd::prelude::*;

verus! {

/// The first step of a conversation.
pub open spec fn begins(config: Config, request: Request) -> StepView {
    match request {
        Request::Message(message) => match message.chat_type {
            ChatType::Private => private_begins(message),
            ChatType::Group => group_begins(config, message),
            ChatType::Other => finished(seq![]),
        },
        Request::Callback(callback) => callback_begins(callback),
    }
}

/// The first step of a conversation.
pub fn begin(config: &Config, request: &Request) -> (r: Step)
    ensures
        r@ == begins(*config, *request),
{
    match request {
        Request::Message(message) => match message.chat_type {
            ChatType::Private => begin_private(message),
            ChatType::Group => begin_group(config, message),
            ChatType::Other => finish(none()),
        },
        Request::Callback(callback) => begin_callback(callback),
    }
}

/// The step after a reply. A reply to another question breaks the conversation off.
pub open spec fn responds(
    config: Config,
    today: DateView,
    request: Request,
    state: StateView,
    reply: Reply,
) -> StepView {
    match (state, reply) {
        (State::PrivateAllowed, Reply::Allowed(allowed)) => match request {
            Request::Message(message) => private_allowed(config, message, allowed),
            _ => failed(seq![], Failure::UnexpectedReply),
        },
        (State::GroupAllowed, Reply::Allowed(allowed)) => match request {
            Request::Message(message) => group_allowed(config, message, allowed),
            _ => failed(seq![], Failure::UnexpectedReply),
        },
        (State::CallbackAllowed, Reply::Allowed(allowed)) => match request {
            Request::Callback(callback) => callback_allowed(callback, allowed),
            _ => failed(seq![], Failure::UnexpectedReply),
        },
        (State::Warning { chat }, Reply::ShouldWarn(warn)) => warned(chat, warn),
        (State::StatsCommand { chat }, Reply::Admin(is_admin)) => stats_checked(chat, is_admin),
        (State::Started { user, chat }, Reply::User(profile)) => match profile {
            Some(profile) => greeted(user, chat, profile@),
            None => failed(seq![], Failure::UserNotFound),
        },
        (State::LinkCommand { user, chat }, Reply::Admin(is_admin)) => link_checked(
            user,
            chat,
            is_admin,
        ),
        (State::LinkToken { chat }, Reply::Invite(token)) => link_made(chat, token@),
        (State::LinkName { chat, token }, Reply::BotName(name)) => link_sent(chat, token, name@),
        (State::Notifications { user, chat }, Reply::User(profile)) => match profile {
            Some(profile) => notifications_toggled(user, chat, profile@),
            None => failed(seq![], Failure::UserNotFound),
        },
        (State::Profile, Reply::User(profile)) => match (profile, request) {
            (Some(profile), Request::Message(message)) => profile_known(message, profile@, today),
            (None, _) => failed(seq![], Failure::UserNotFound),
            _ => failed(seq![], Failure::UnexpectedReply),
        },
        (State::GroupNamed { user, chat, input }, Reply::Groups(groups)) => group_named(
            user,
            chat,
            published_group(texts(groups@), input),
        ),
        (State::SearchText { user, chat, query }, Reply::User(profile)) => match profile {
            Some(profile) => search_asked(user, chat, query, profile@, today),
            None => failed(seq![], Failure::UserNotFound),
        },
        (State::SearchDone { user, chat, kind, query }, Reply::Lessons(lessons)) => search_shown(
            user,
            chat,
            kind,
            query,
            room_name(query),
            lessons_view(lessons@),
        ),
        (State::Today { chat, group, date }, Reply::Lessons(lessons)) => today_shown(
            chat,
            group,
            date,
            lessons_view(lessons@),
        ),
        (State::Week { chat, group }, Reply::Lessons(lessons)) => week_shown(
            chat,
            group,
            lessons_view(lessons@),
        ),
        (State::FileFetched { user, chat, file_name, extension }, Reply::Downloaded(size)) =>
            file_fetched(user, chat, file_name, extension, size),
        (State::FileRead { user, chat, file_name, extension }, Reply::Parsed(parsed)) => file_read(
            user,
            chat,
            file_name,
            extension,
            parsed,
        ),
        (State::UploadPreviewed { user, chat, extension }, Reply::Previewed(preview)) =>
            upload_previewed(config, user, chat, extension, preview),
        (State::SourceSaved { user, chat, id, question, key }, Reply::Saved(saved)) => source_saved(
            user,
            chat,
            id,
            question,
            key,
            saved,
        ),
        (State::SourceAttached { user, chat, id, question, key }, Reply::Attached(attached)) =>
            source_attached(user, chat, id, question, key, attached),
        (State::DisableRights { chat }, Reply::Member(member)) => disable_checked(chat, member),
        (State::DisableDone { chat }, Reply::Removed(removed)) => disable_done(chat, removed),
        (State::SetGroupRights { user, chat, requested }, Reply::Member(member)) =>
            set_group_checked(user, chat, requested, member),
        (State::SetGroupNames { user, chat, requested }, Reply::Groups(groups)) => group_chosen(
            user,
            chat,
            requested,
            texts(groups@),
        ),
        (State::ShowGroup { chat }, Reply::ChatGroup(group)) => group_shown(chat, text_of(group)),
        (State::GroupTimetable { chat, span }, Reply::ChatGroup(group)) => timetable_asked(
            chat,
            text_of(group),
            span,
            today,
            named_day(span),
        ),
        (State::GroupLessons { chat, group, span, date }, Reply::Lessons(lessons)) =>
            group_lessons_shown(chat, group, span, date, lessons_view(lessons@)),
        (State::StatsButton { user, chat, period }, Reply::Admin(is_admin)) => stats_pressed(
            user,
            chat,
            period,
            is_admin,
        ),
        (State::GroupButton { user }, Reply::GroupConfirmed(group)) => group_confirmed(
            user,
            text_of(group),
        ),
        (State::TodayButton { user }, Reply::User(profile)) => match profile {
            Some(profile) => shows_today(user, profile@, today),
            None => failed(seq![], Failure::UserNotFound),
        },
        (State::WeekButton { user }, Reply::User(profile)) => match profile {
            Some(profile) => shows_week(user, profile@, today),
            None => failed(seq![], Failure::UserNotFound),
        },
        (State::UploadConfirmed { user }, Reply::Published(publication)) => upload_published(
            user,
            publication,
        ),
        (State::UploadCancelled { user }, Reply::Cancelled { cancelled, source_key }) =>
            upload_dropped(config, user, cancelled, text_of(source_key)),
        _ => failed(seq![], Failure::UnexpectedReply),
    }
}

/// The step after a reply.
#[verifier::rlimit(40)]
pub fn respond(
    config: &Config,
    today: Date,
    request: &Request,
    state: State<String, Date>,
    reply: Reply,
) -> (r: Step)
    ensures
        r@ == responds(*config, today@, *request, state@, reply),
{
    match (state, reply) {
        (State::PrivateAllowed, Reply::Allowed(allowed)) => match request {
            Request::Message(message) => private_allowed_step(config, message, allowed),
            _ => fail(Failure::UnexpectedReply),
        },
        (State::GroupAllowed, Reply::Allowed(allowed)) => match request {
            Request::Message(message) => group_allowed_step(config, message, allowed),
            _ => fail(Failure::UnexpectedReply),
        },
        (State::CallbackAllowed, Reply::Allowed(allowed)) => match request {
            Request::Callback(callback) => callback_allowed_step(callback, allowed),
            _ => fail(Failure::UnexpectedReply),
        },
        (State::Warning { chat }, Reply::ShouldWarn(warn)) => warn_step(chat, warn),
        (State::StatsCommand { chat }, Reply::Admin(is_admin)) => stats_checked_step(
            chat,
            is_admin,
        ),
        (State::Started { user, chat }, Reply::User(profile)) => match profile {
            Some(profile) => greet_step(user, chat, &profile),
            None => fail(Failure::UserNotFound),
        },
        (State::LinkCommand { user, chat }, Reply::Admin(is_admin)) => link_checked_step(
            user,
            chat,
            is_admin,
        ),
        (State::LinkToken { chat }, Reply::Invite(token)) => link_made_step(chat, token),
        (State::LinkName { chat, token }, Reply::BotName(name)) => link_sent_step(
            chat,
            token.as_str(),
            name.as_str(),
        ),
        (State::Notifications { user, chat }, Reply::User(profile)) => match profile {
            Some(profile) => notifications_step(user, chat, &profile),
            None => fail(Failure::UserNotFound),
        },
        (State::Profile, Reply::User(profile)) => match (profile, request) {
            (Some(profile), Request::Message(message)) => profile_step(message, profile, today),
            (None, _) => fail(Failure::UserNotFound),
            _ => fail(Failure::UnexpectedReply),
        },
        (State::GroupNamed { user, chat, input }, Reply::Groups(groups)) => group_input_step(
            user,
            chat,
            input.as_str(),
            &groups,
        ),
        (State::SearchText { user, chat, query }, Reply::User(profile)) => match profile {
            Some(profile) => search_step(user, chat, query, &profile, today),
            None => fail(Failure::UserNotFound),
        },
        (State::SearchDone { user, chat, kind, query }, Reply::Lessons(lessons)) =>
            search_done_step(user, chat, kind.as_str(), query.as_str(), &lessons),
        (State::Today { chat, group, date }, Reply::Lessons(lessons)) => today_step(
            chat,
            group.as_str(),
            date,
            &lessons,
        ),
        (State::Week { chat, group }, Reply::Lessons(lessons)) => week_step(
            chat,
            group.as_str(),
            &lessons,
        ),
        (State::FileFetched { user, chat, file_name, extension }, Reply::Downloaded(size)) =>
            file_fetched_step(user, chat, file_name, extension, size),
        (State::FileRead { user, chat, file_name, extension }, Reply::Parsed(parsed)) =>
            file_read_step(user, chat, file_name, extension, parsed),
        (State::UploadPreviewed { user, chat, extension }, Reply::Previewed(preview)) =>
            upload_previewed_step(config, user, chat, extension.as_str(), preview),
        (State::SourceSaved { user, chat, id, question, key }, Reply::Saved(saved)) =>
            source_saved_step(user, chat, id, question, key, saved),
        (State::SourceAttached { user, chat, id, question, key }, Reply::Attached(attached)) =>
            source_attached_step(user, chat, id, question, key, attached),
        (State::DisableRights { chat }, Reply::Member(member)) => disable_checked_step(
            chat,
            member,
        ),
        (State::DisableDone { chat }, Reply::Removed(removed)) => disable_done_step(chat, removed),
        (State::SetGroupRights { user, chat, requested }, Reply::Member(member)) =>
            set_group_checked_step(user, chat, requested, member),
        (State::SetGroupNames { user, chat, requested }, Reply::Groups(groups)) =>
            group_chosen_step(user, chat, requested.as_str(), &groups),
        (State::ShowGroup { chat }, Reply::ChatGroup(group)) => group_shown_step(chat, group),
        (State::GroupTimetable { chat, span }, Reply::ChatGroup(group)) => timetable_step(
            chat,
            group,
            span,
            today,
        ),
        (State::GroupLessons { chat, group, span, date }, Reply::Lessons(lessons)) =>
            group_lessons_step(chat, group.as_str(), &span, date, &lessons),
        (State::StatsButton { user, chat, period }, Reply::Admin(is_admin)) => stats_pressed_step(
            user,
            chat,
            period,
            is_admin,
        ),
        (State::GroupButton { user }, Reply::GroupConfirmed(group)) => group_confirmed_step(
            user,
            group,
        ),
        (State::TodayButton { user }, Reply::User(profile)) => match profile {
            Some(profile) => show_today(user, profile, today),
            None => fail(Failure::UserNotFound),
        },
        (State::WeekButton { user }, Reply::User(profile)) => match profile {
            Some(profile) => show_week(user, profile, today),
            None => fail(Failure::UserNotFound),
        },
        (State::UploadConfirmed { user }, Reply::Published(publication)) => upload_published_step(
            user,
            &publication,
        ),
        (State::UploadCancelled { user }, Reply::Cancelled { cancelled, source_key }) =>
            upload_dropped_step(config, user, cancelled, source_key),
        _ => fail(Failure::UnexpectedReply),
    }
}

/// A conversation so far: what it did, what it heard, and how it goes on.
pub struct Talk {
    pub effects: Seq<Effect<Seq<char>>>,
    pub heard: Seq<Reply>,
    pub next: Next<Query<Seq<char>, DateView, Seq<LessonView>>, StateView>,
}

/// A conversation after a number of replies, each with the day on which it came. Replies that come
/// after its end are not heard.
pub open spec fn talk(config: Config, request: Request, replies: Seq<(DateView, Reply)>) -> Talk
    decreases replies.len(),
{
    if replies.len() == 0 {
        let plan = begins(config, request);
        Talk { effects: plan.effects, heard: seq![], next: plan.next }
    } else {
        let before = talk(config, request, replies.drop_last());
        match before.next {
            Next::Ask(_, state) => {
                let (today, reply) = replies.last();
                let plan = responds(config, today, request, state, reply);
                Talk {
                    effects: before.effects + plan.effects,
                    heard: before.heard.push(reply),
                    next: plan.next,
                }
            },
            _ => before,
        }
    }
}

/// Whether the profile of an administrator was heard.
pub open spec fn heard_admin_profile(heard: Seq<Reply>) -> bool {
    exists|i: int|
        0 <= i < heard.len() && ((#[trigger] heard[i]) matches Reply::User(Some(profile))
            && profile.role@ == "admin"@)
}

/// Whether an archived file was reported.
pub open spec fn heard_saved(heard: Seq<Reply>) -> bool {
    exists|i: int| 0 <= i < heard.len() && ((#[trigger] heard[i]) matches Reply::Saved(Ok(_)))
}

/// Whether an effect neither shows nor changes anything.
pub open spec fn is_harmless(effect: Effect<Seq<char>>) -> bool {
    match effect {
        Effect::SendText { text, .. } => text == phrases::TOO_MANY_REQUESTS@,
        Effect::AnswerCallback => true,
        Effect::RecordMetric(metric) => metric == Metric::RateLimited,
        _ => false,
    }
}

/// What must have been heard before an effect.
pub open spec fn effect_earned(
    request: Request,
    effect: Effect<Seq<char>>,
    heard: Seq<Reply>,
) -> bool {
    &&& is_harmless(effect) || heard.contains(Reply::Allowed(true))
    &&& match effect {
        Effect::SendDashboard { .. } => heard.contains(Reply::Admin(true)),
        Effect::EditDashboard { chat, .. } => {
            &&& heard.contains(Reply::Admin(true))
            &&& request matches Request::Callback(callback)
            &&& callback.message_chat == Some(callback.user)
            &&& chat == callback.user
        },
        Effect::SetChatGroup { .. } => heard.contains(Reply::Member(Membership::Admin)),
        Effect::SendChoice { keyboard: Keyboard::Upload(_), .. } => {
            heard_admin_profile(heard) && heard_saved(heard)
        },
        _ => true,
    }
}

/// What must have been heard before a question.
pub open spec fn query_earned(
    query: Query<Seq<char>, DateView, Seq<LessonView>>,
    heard: Seq<Reply>,
) -> bool {
    &&& query is Allow || query is ShouldWarn || heard.contains(Reply::Allowed(true))
    &&& match query {
        Query::NewInvite { .. } => heard.contains(Reply::Admin(true)),
        Query::RemoveChatGroup { .. } => heard.contains(Reply::Member(Membership::Admin)),
        Query::Download { .. } => heard_admin_profile(heard),
        Query::Parse { .. } => heard_admin_profile(heard),
        Query::Preview { .. } => heard_admin_profile(heard),
        Query::SaveSource { .. } => heard_admin_profile(heard),
        Query::AttachSource { .. } => heard_admin_profile(heard),
        _ => true,
    }
}

/// What must have been heard before a state is reached.
pub open spec fn state_earned(request: Request, state: StateView, heard: Seq<Reply>) -> bool {
    match state {
        State::PrivateAllowed => true,
        State::GroupAllowed => true,
        State::CallbackAllowed => true,
        State::Warning { .. } => true,
        State::LinkToken { .. } => heard.contains(Reply::Admin(true)) && heard.contains(
            Reply::Allowed(true),
        ),
        State::FileFetched { .. } => heard_admin_profile(heard) && heard.contains(
            Reply::Allowed(true),
        ),
        State::FileRead { .. } => heard_admin_profile(heard) && heard.contains(
            Reply::Allowed(true),
        ),
        State::UploadPreviewed { .. } => heard_admin_profile(heard) && heard.contains(
            Reply::Allowed(true),
        ),
        State::SourceSaved { .. } => heard_admin_profile(heard) && heard.contains(
            Reply::Allowed(true),
        ),
        State::SourceAttached { .. } => heard_admin_profile(heard) && heard_saved(heard)
            && heard.contains(Reply::Allowed(true)),
        State::DisableDone { .. } => heard.contains(Reply::Allowed(true)) && heard.contains(
            Reply::Member(Membership::Admin),
        ),
        State::SetGroupNames { .. } => heard.contains(Reply::Allowed(true)) && heard.contains(
            Reply::Member(Membership::Admin),
        ),
        State::StatsButton { user, chat, .. } => {
            &&& heard.contains(Reply::Allowed(true))
            &&& request matches Request::Callback(callback)
            &&& callback.user == user
            &&& callback.message_chat == chat
        },
        _ => heard.contains(Reply::Allowed(true)),
    }
}

/// Everything in a conversation was earned by what was heard before it.
pub open spec fn talk_earned(request: Request, talk: Talk) -> bool {
    &&& forall|i: int|
        0 <= i < talk.effects.len() ==> effect_earned(
            request,
            #[trigger] talk.effects[i],
            talk.heard,
        )
    &&& talk.next matches Next::Ask(query, state) ==> query_earned(query, talk.heard)
        && state_earned(request, state, talk.heard)
}

proof fn lemma_heard_grows(heard: Seq<Reply>, reply: Reply)
    ensures
        heard.push(reply).contains(reply),
        forall|earlier: Reply|
            heard.contains(earlier) ==> #[trigger] heard.push(reply).contains(earlier),
        heard_admin_profile(heard) ==> heard_admin_profile(heard.push(reply)),
        heard_saved(heard) ==> heard_saved(heard.push(reply)),
        (reply matches Reply::User(Some(profile)) && profile.role@ == "admin"@)
            ==> heard_admin_profile(heard.push(reply)),
        (reply matches Reply::Saved(Ok(_))) ==> heard_saved(heard.push(reply)),
{
    let after = heard.push(reply);
    assert(after[heard.len() as int] == reply);
    assert forall|earlier: Reply| heard.contains(earlier) implies #[trigger] after.contains(
        earlier,
    ) by {
        let i = choose|i: int| 0 <= i < heard.len() && heard[i] == earlier;
        assert(after[i] == earlier);
    }
    if heard_admin_profile(heard) {
        let i = choose|i: int|
            0 <= i < heard.len() && ((#[trigger] heard[i]) matches Reply::User(Some(profile))
                && profile.role@ == "admin"@);
        assert(after[i] == heard[i]);
    }
    if heard_saved(heard) {
        let i = choose|i: int|
            0 <= i < heard.len() && ((#[trigger] heard[i]) matches Reply::Saved(Ok(_)));
        assert(after[i] == heard[i]);
    }
}

/// Everything in a step was earned by what was heard before it.
#[verifier::opaque]
pub open spec fn step_earned(request: Request, step: StepView, heard: Seq<Reply>) -> bool {
    talk_earned(request, Talk { effects: step.effects, heard, next: step.next })
}

proof fn lemma_schedule_earned(
    request: Request,
    chat: i64,
    title: Seq<char>,
    lessons: Seq<LessonView>,
    show_dates: bool,
    heard: Seq<Reply>,
)
    requires
        heard.contains(Reply::Allowed(true)),
    ensures
        forall|i: int|
            0 <= i < sends_schedule(chat, title, lessons, show_dates).len() ==> effect_earned(
                request,
                #[trigger] sends_schedule(chat, title, lessons, show_dates)[i],
                heard,
            ),
{
    let effects = sends_schedule(chat, title, lessons, show_dates);
    assert forall|i: int| 0 <= i < effects.len() implies effect_earned(
        request,
        #[trigger] effects[i],
        heard,
    ) by {
        assert(effects[i] is SendText);
    }
}

#[verifier::spinoff_prover]
proof fn lemma_private_earned(
    config: Config,
    message: Message,
    allowed: bool,
    request: Request,
    heard: Seq<Reply>,
)
    requires
        heard.contains(Reply::Allowed(allowed)),
    ensures
        step_earned(request, private_allowed(config, message, allowed), heard),
{
    reveal(step_earned);
    if allowed {
        let routed = message_routed(config, message);
        if let Some(text) = text_of(message.text) {
            let claims = start_claims(config, message.user, text);
            assert forall|i: int| 0 <= i < claims.len() implies effect_earned(
                request,
                #[trigger] claims[i],
                heard,
            ) by {}
        }
        assert(step_earned(request, routed, heard));
        let step = private_allowed(config, message, allowed);
        assert forall|i: int| 0 <= i < step.effects.len() implies effect_earned(
            request,
            #[trigger] step.effects[i],
            heard,
        ) by {
            if i >= 2 {
                assert(step.effects[i] == routed.effects[i - 2]);
            }
        }
    }
}

#[verifier::spinoff_prover]
proof fn lemma_group_earned(
    config: Config,
    message: Message,
    allowed: bool,
    request: Request,
    heard: Seq<Reply>,
)
    requires
        heard.contains(Reply::Allowed(allowed)),
    ensures
        step_earned(request, group_allowed(config, message, allowed), heard),
{
    reveal(step_earned);
    if let Some(command) = message_command(config, message) {
        if allowed {
            let routed = command_runs(message, command);
            assert(step_earned(request, routed, heard));
            let step = group_allowed(config, message, allowed);
            assert forall|i: int| 0 <= i < step.effects.len() implies effect_earned(
                request,
                #[trigger] step.effects[i],
                heard,
            ) by {
                if i >= 1 {
                    assert(step.effects[i] == routed.effects[i - 1]);
                }
            }
        }
    }
}

#[verifier::spinoff_prover]
proof fn lemma_callback_earned(
    callback: Callback,
    allowed: bool,
    request: Request,
    heard: Seq<Reply>,
)
    requires
        heard.contains(Reply::Allowed(allowed)),
        request == Request::Callback(callback),
    ensures
        step_earned(request, callback_allowed(callback, allowed), heard),
{
    reveal(step_earned);
    let data = pressed(callback);
    let routed = button_routed(callback.user, data);
    if allowed && without_prefix(data, "stats:"@) is None {
        assert(step_earned(request, routed, heard));
        let step = callback_allowed(callback, allowed);
        assert forall|i: int| 0 <= i < step.effects.len() implies effect_earned(
            request,
            #[trigger] step.effects[i],
            heard,
        ) by {
            if i >= 3 {
                assert(step.effects[i] == routed.effects[i - 3]);
            }
        }
    }
}

#[verifier::spinoff_prover]
proof fn lemma_profile_earned(
    message: Message,
    profile: UserView,
    today: DateView,
    request: Request,
    heard: Seq<Reply>,
)
    requires
        heard.contains(Reply::Allowed(true)),
        profile.role == "admin"@ ==> heard_admin_profile(heard),
    ensures
        step_earned(request, profile_known(message, profile, today), heard),
{
    reveal(step_earned);
}

#[verifier::spinoff_prover]
proof fn lemma_today_earned(
    chat: i64,
    profile: UserView,
    today: DateView,
    request: Request,
    heard: Seq<Reply>,
)
    requires
        heard.contains(Reply::Allowed(true)),
    ensures
        step_earned(request, shows_today(chat, profile, today), heard),
        step_earned(request, shows_week(chat, profile, today), heard),
{
    reveal(step_earned);
}

#[verifier::spinoff_prover]
proof fn lemma_lessons_earned(
    state: StateView,
    config: Config,
    today: DateView,
    lessons: Vec<Lesson>,
    request: Request,
    heard: Seq<Reply>,
)
    requires
        heard.contains(Reply::Allowed(true)),
    ensures
        step_earned(
            request,
            responds(config, today, request, state, Reply::Lessons(lessons)),
            heard,
        ),
{
    reveal(step_earned);
    let all = lessons_view(lessons@);
    match state {
        State::SearchDone { user, chat, kind, query } => {
            let title = search_title(kind, query, room_name(query));
            lemma_schedule_earned(request, chat, title, all, true, heard);
            let step = search_shown(user, chat, kind, query, room_name(query), all);
            assert forall|i: int| 0 <= i < step.effects.len() implies effect_earned(
                request,
                #[trigger] step.effects[i],
                heard,
            ) by {
                if i >= 1 && all.len() > 0 {
                    assert(step.effects[i] == sends_schedule(chat, title, all, true)[i - 1]);
                }
            }
        },
        State::Today { chat, group, date: _ } => {
            lemma_schedule_earned(request, chat, "Сегодня · группа "@ + group, all, false, heard);
        },
        State::Week { chat, group } => {
            lemma_schedule_earned(request, chat, "На неделю · группа "@ + group, all, true, heard);
        },
        State::GroupLessons { chat, group, span, date } => {
            lemma_schedule_earned(
                request,
                chat,
                lessons_title(group, span, date),
                all,
                !(span is Today),
                heard,
            );
        },
        _ => {},
    }
}

#[verifier::spinoff_prover]
proof fn lemma_admin_earned(
    user: i64,
    chat: i64,
    is_admin: bool,
    request: Request,
    heard: Seq<Reply>,
)
    requires
        heard.contains(Reply::Allowed(true)),
        heard.contains(Reply::Admin(is_admin)),
    ensures
        step_earned(request, stats_checked(chat, is_admin), heard),
        step_earned(request, link_checked(user, chat, is_admin), heard),
{
    reveal(step_earned);
}

#[verifier::spinoff_prover]
proof fn lemma_user_earned(
    user: i64,
    chat: i64,
    query: Seq<char>,
    profile: UserView,
    today: DateView,
    request: Request,
    heard: Seq<Reply>,
)
    requires
        heard.contains(Reply::Allowed(true)),
    ensures
        step_earned(request, greeted(user, chat, profile), heard),
        step_earned(request, notifications_toggled(user, chat, profile), heard),
        step_earned(request, search_asked(user, chat, query, profile, today), heard),
{
    reveal(step_earned);
}

#[verifier::spinoff_prover]
proof fn lemma_answer_earned(
    user: i64,
    chat: i64,
    text: Seq<char>,
    other: Seq<char>,
    optional: Option<Seq<char>>,
    flag: bool,
    request: Request,
    heard: Seq<Reply>,
)
    requires
        heard.contains(Reply::Allowed(true)),
    ensures
        step_earned(request, link_sent(chat, text, other), heard),
        step_earned(request, link_made(chat, text), heard),
        step_earned(request, group_named(user, chat, optional), heard),
        step_earned(request, disable_done(chat, flag), heard),
        step_earned(request, group_shown(chat, optional), heard),
        step_earned(request, group_confirmed(user, optional), heard),
{
    reveal(step_earned);
}

#[verifier::spinoff_prover]
proof fn lemma_warned_earned(chat: i64, warn: bool, request: Request, heard: Seq<Reply>)
    ensures
        step_earned(request, warned(chat, warn), heard),
        step_earned(request, failed(seq![], Failure::UnexpectedReply), heard),
        step_earned(request, failed(seq![], Failure::UserNotFound), heard),
{
    reveal(step_earned);
}

#[verifier::spinoff_prover]
proof fn lemma_published_earned(
    config: Config,
    user: i64,
    publication: Publication,
    cancelled: bool,
    source_key: Option<Seq<char>>,
    request: Request,
    heard: Seq<Reply>,
)
    requires
        heard.contains(Reply::Allowed(true)),
    ensures
        step_earned(request, upload_published(user, publication), heard),
        step_earned(request, upload_dropped(config, user, cancelled, source_key), heard),
{
    reveal(step_earned);
}

#[verifier::spinoff_prover]
proof fn lemma_file_earned(
    user: i64,
    chat: i64,
    file_name: Seq<char>,
    extension: Seq<char>,
    size: u64,
    parsed: Result<Vec<Lesson>, ParseError>,
    request: Request,
    heard: Seq<Reply>,
)
    requires
        heard.contains(Reply::Allowed(true)),
        heard_admin_profile(heard),
    ensures
        step_earned(request, file_fetched(user, chat, file_name, extension, size), heard),
        step_earned(request, file_read(user, chat, file_name, extension, parsed), heard),
{
    reveal(step_earned);
}

#[verifier::spinoff_prover]
proof fn lemma_upload_earned(
    config: Config,
    user: i64,
    chat: i64,
    extension: Seq<char>,
    preview: Result<UploadPreview, String>,
    request: Request,
    heard: Seq<Reply>,
)
    requires
        heard.contains(Reply::Allowed(true)),
        heard_admin_profile(heard),
    ensures
        step_earned(request, upload_previewed(config, user, chat, extension, preview), heard),
{
    reveal(step_earned);
}

#[verifier::spinoff_prover]
proof fn lemma_source_earned(
    user: i64,
    chat: i64,
    id: u128,
    question: Seq<char>,
    key: Seq<char>,
    outcome: Result<(), String>,
    request: Request,
    heard: Seq<Reply>,
)
    requires
        heard.contains(Reply::Allowed(true)),
        heard_admin_profile(heard),
    ensures
        outcome is Err || heard_saved(heard) ==> step_earned(
            request,
            source_saved(user, chat, id, question, key, outcome),
            heard,
        ),
        heard_saved(heard) ==> step_earned(
            request,
            source_attached(user, chat, id, question, key, outcome),
            heard,
        ),
{
    reveal(step_earned);
}

#[verifier::spinoff_prover]
proof fn lemma_member_earned(
    user: i64,
    chat: i64,
    requested: Option<Seq<char>>,
    member: Membership,
    request: Request,
    heard: Seq<Reply>,
)
    requires
        heard.contains(Reply::Allowed(true)),
        heard.contains(Reply::Member(member)),
    ensures
        step_earned(request, disable_checked(chat, member), heard),
        step_earned(request, set_group_checked(user, chat, requested, member), heard),
{
    reveal(step_earned);
}

#[verifier::spinoff_prover]
proof fn lemma_chosen_earned(
    user: i64,
    chat: i64,
    requested: Seq<char>,
    groups: Seq<Seq<char>>,
    request: Request,
    heard: Seq<Reply>,
)
    requires
        heard.contains(Reply::Allowed(true)),
        heard.contains(Reply::Member(Membership::Admin)),
    ensures
        step_earned(request, group_chosen(user, chat, requested, groups), heard),
{
    reveal(step_earned);
}

#[verifier::spinoff_prover]
proof fn lemma_timetable_earned(
    chat: i64,
    group: Option<Seq<char>>,
    span: Span<Seq<char>>,
    today: DateView,
    named: Option<DateView>,
    request: Request,
    heard: Seq<Reply>,
)
    requires
        heard.contains(Reply::Allowed(true)),
    ensures
        step_earned(request, timetable_asked(chat, group, span, today, named), heard),
{
    reveal(step_earned);
}

#[verifier::spinoff_prover]
proof fn lemma_dashboard_earned(
    callback: Callback,
    period: Period,
    is_admin: bool,
    heard: Seq<Reply>,
)
    requires
        heard.contains(Reply::Allowed(true)),
        heard.contains(Reply::Admin(is_admin)),
    ensures
        step_earned(
            Request::Callback(callback),
            stats_pressed(callback.user, callback.message_chat, period, is_admin),
            heard,
        ),
{
    reveal(step_earned);
}

#[verifier::spinoff_prover]
#[verifier::rlimit(60)]
proof fn lemma_step_earned(
    config: Config,
    today: DateView,
    request: Request,
    state: StateView,
    reply: Reply,
    heard: Seq<Reply>,
)
    requires
        state_earned(request, state, heard),
    ensures
        step_earned(
            request,
            responds(config, today, request, state, reply),
            heard.push(reply),
        ),
{
    lemma_heard_grows(heard, reply);
    let after = heard.push(reply);
    lemma_warned_earned(0, false, request, after);
    match (state, reply) {
        (State::PrivateAllowed, Reply::Allowed(allowed)) => {
            if let Request::Message(message) = request {
                lemma_private_earned(config, message, allowed, request, after);
            }
        },
        (State::GroupAllowed, Reply::Allowed(allowed)) => {
            if let Request::Message(message) = request {
                lemma_group_earned(config, message, allowed, request, after);
            }
        },
        (State::CallbackAllowed, Reply::Allowed(allowed)) => {
            if let Request::Callback(callback) = request {
                lemma_callback_earned(callback, allowed, request, after);
            }
        },
        (State::Profile, Reply::User(Some(profile))) => {
            if let Request::Message(message) = request {
                lemma_profile_earned(message, profile@, today, request, after);
            }
        },
        (State::TodayButton { user }, Reply::User(Some(profile))) => {
            lemma_today_earned(user, profile@, today, request, after);
        },
        (State::WeekButton { user }, Reply::User(Some(profile))) => {
            lemma_today_earned(user, profile@, today, request, after);
        },
        (State::SearchDone { .. }, Reply::Lessons(lessons)) => {
            lemma_lessons_earned(state, config, today, lessons, request, after);
        },
        (State::Today { .. }, Reply::Lessons(lessons)) => {
            lemma_lessons_earned(state, config, today, lessons, request, after);
        },
        (State::Week { .. }, Reply::Lessons(lessons)) => {
            lemma_lessons_earned(state, config, today, lessons, request, after);
        },
        (State::GroupLessons { .. }, Reply::Lessons(lessons)) => {
            lemma_lessons_earned(state, config, today, lessons, request, after);
        },
        (State::Warning { chat }, Reply::ShouldWarn(warn)) => {
            lemma_warned_earned(chat, warn, request, after);
        },
        (State::StatsCommand { chat }, Reply::Admin(is_admin)) => {
            lemma_admin_earned(0, chat, is_admin, request, after);
        },
        (State::Started { user, chat }, Reply::User(Some(profile))) => {
            lemma_user_earned(user, chat, seq![], profile@, today, request, after);
        },
        (State::LinkCommand { user, chat }, Reply::Admin(is_admin)) => {
            lemma_admin_earned(user, chat, is_admin, request, after);
        },
        (State::LinkToken { chat }, Reply::Invite(token)) => {
            lemma_answer_earned(0, chat, token@, seq![], None, false, request, after);
        },
        (State::LinkName { chat, token }, Reply::BotName(name)) => {
            lemma_answer_earned(0, chat, token, name@, None, false, request, after);
        },
        (State::Notifications { user, chat }, Reply::User(Some(profile))) => {
            lemma_user_earned(user, chat, seq![], profile@, today, request, after);
        },
        (State::GroupNamed { user, chat, input }, Reply::Groups(groups)) => {
            let found = published_group(texts(groups@), input);
            lemma_answer_earned(user, chat, seq![], seq![], found, false, request, after);
        },
        (State::SearchText { user, chat, query }, Reply::User(Some(profile))) => {
            lemma_user_earned(user, chat, query, profile@, today, request, after);
        },
        (State::FileFetched { user, chat, file_name, extension }, Reply::Downloaded(size)) => {
            lemma_file_earned(
                user,
                chat,
                file_name,
                extension,
                size,
                Err(ParseError::NoScheduleSheets),
                request,
                after,
            );
        },
        (State::FileRead { user, chat, file_name, extension }, Reply::Parsed(parsed)) => {
            lemma_file_earned(user, chat, file_name, extension, 0, parsed, request, after);
        },
        (State::UploadPreviewed { user, chat, extension }, Reply::Previewed(preview)) => {
            lemma_upload_earned(config, user, chat, extension, preview, request, after);
        },
        (State::SourceSaved { user, chat, id, question, key }, Reply::Saved(saved)) => {
            lemma_source_earned(user, chat, id, question, key, saved, request, after);
        },
        (State::SourceAttached { user, chat, id, question, key }, Reply::Attached(attached)) => {
            lemma_source_earned(user, chat, id, question, key, attached, request, after);
        },
        (State::DisableRights { chat }, Reply::Member(member)) => {
            lemma_member_earned(0, chat, None, member, request, after);
        },
        (State::DisableDone { chat }, Reply::Removed(removed)) => {
            lemma_answer_earned(0, chat, seq![], seq![], None, removed, request, after);
        },
        (State::SetGroupRights { user, chat, requested }, Reply::Member(member)) => {
            lemma_member_earned(user, chat, requested, member, request, after);
        },
        (State::SetGroupNames { user, chat, requested }, Reply::Groups(groups)) => {
            lemma_chosen_earned(user, chat, requested, texts(groups@), request, after);
        },
        (State::ShowGroup { chat }, Reply::ChatGroup(group)) => {
            lemma_answer_earned(0, chat, seq![], seq![], text_of(group), false, request, after);
        },
        (State::GroupTimetable { chat, span }, Reply::ChatGroup(group)) => {
            let named = named_day(span);
            lemma_timetable_earned(chat, text_of(group), span, today, named, request, after);
        },
        (State::StatsButton { user, chat, period }, Reply::Admin(is_admin)) => {
            if let Request::Callback(callback) = request {
                lemma_dashboard_earned(callback, period, is_admin, after);
            }
        },
        (State::GroupButton { user }, Reply::GroupConfirmed(group)) => {
            lemma_answer_earned(user, 0, seq![], seq![], text_of(group), false, request, after);
        },
        (State::UploadConfirmed { user }, Reply::Published(publication)) => {
            lemma_published_earned(config, user, publication, false, None, request, after);
        },
        (State::UploadCancelled { user }, Reply::Cancelled { cancelled, source_key }) => {
            let publication = arbitrary();
            lemma_published_earned(
                config,
                user,
                publication,
                cancelled,
                text_of(source_key),
                request,
                after,
            );
        },
        _ => {},
    }
}

#[verifier::spinoff_prover]
proof fn lemma_talk_grows(request: Request, before: Talk, reply: Reply, step: StepView)
    requires
        talk_earned(request, before),
        step_earned(request, step, before.heard.push(reply)),
    ensures
        talk_earned(
            request,
            Talk {
                effects: before.effects + step.effects,
                heard: before.heard.push(reply),
                next: step.next,
            },
        ),
{
    reveal(step_earned);
    lemma_heard_grows(before.heard, reply);
    let part = Talk {
        effects: step.effects,
        heard: before.heard.push(reply),
        next: step.next,
    };
    assert(talk_earned(request, part));
    let effects = before.effects + step.effects;
    let heard = before.heard.push(reply);
    assert forall|i: int| 0 <= i < effects.len() implies effect_earned(
        request,
        #[trigger] effects[i],
        heard,
    ) by {
        if i < before.effects.len() {
            assert(effects[i] == before.effects[i]);
            assert(effect_earned(request, before.effects[i], before.heard));
        } else {
            let k = i - before.effects.len();
            assert(effects[i] == step.effects[k]);
            assert(effect_earned(request, part.effects[k], part.heard));
        }
    }
}

/// Everything that a conversation does and asks was earned by what it heard before, whatever it
/// hears.
#[verifier::spinoff_prover]
pub proof fn conversations_earn_what_they_do(
    config: Config,
    request: Request,
    replies: Seq<(DateView, Reply)>,
)
    ensures
        talk_earned(request, talk(config, request, replies)),
    decreases replies.len(),
{
    if replies.len() > 0 {
        let before = talk(config, request, replies.drop_last());
        conversations_earn_what_they_do(config, request, replies.drop_last());
        if let Next::Ask(_, state) = before.next {
            let (today, reply) = replies.last();
            let step = responds(config, today, request, state, reply);
            lemma_step_earned(config, today, request, state, reply, before.heard);
            lemma_talk_grows(request, before, reply, step);
        }
    }
}

/// A request that is not allowed does nothing: it is counted, its button stops waiting, and at
/// most a warning is sent; the store is neither read nor changed.
pub proof fn refused_requests_do_nothing(
    config: Config,
    request: Request,
    replies: Seq<(DateView, Reply)>,
)
    requires
        !talk(config, request, replies).heard.contains(Reply::Allowed(true)),
    ensures
        forall|i: int|
            0 <= i < talk(config, request, replies).effects.len() ==> is_harmless(
                #[trigger] talk(config, request, replies).effects[i],
            ),
        talk(config, request, replies).next matches Next::Ask(query, _) ==> query is Allow
            || query is ShouldWarn,
{
    conversations_earn_what_they_do(config, request, replies);
}

/// The dashboard is sent to administrators only, and is refreshed only in the private chat of the
/// administrator who pressed the button.
pub proof fn dashboard_is_for_administrators(
    config: Config,
    request: Request,
    replies: Seq<(DateView, Reply)>,
    i: int,
)
    requires
        0 <= i < talk(config, request, replies).effects.len(),
        talk(config, request, replies).effects[i] is SendDashboard || talk(
            config,
            request,
            replies,
        ).effects[i] is EditDashboard,
    ensures
        talk(config, request, replies).heard.contains(Reply::Admin(true)),
        talk(config, request, replies).effects[i] matches Effect::EditDashboard { chat, .. } ==> {
            &&& request matches Request::Callback(callback)
            &&& callback.message_chat == Some(callback.user)
            &&& chat == callback.user
        },
{
    conversations_earn_what_they_do(config, request, replies);
    assert(effect_earned(
        request,
        talk(config, request, replies).effects[i],
        talk(config, request, replies).heard,
    ));
}

/// The group of a chat is set and forgotten only after the chat named the person as one of its
/// administrators.
pub proof fn chat_settings_are_for_chat_administrators(
    config: Config,
    request: Request,
    replies: Seq<(DateView, Reply)>,
)
    requires
        (talk(config, request, replies).next matches Next::Ask(query, _)
            && query is RemoveChatGroup) || exists|i: int|
            0 <= i < talk(config, request, replies).effects.len() && (#[trigger] talk(
                config,
                request,
                replies,
            ).effects[i]) is SetChatGroup,
    ensures
        talk(config, request, replies).heard.contains(Reply::Member(Membership::Admin)),
{
    conversations_earn_what_they_do(config, request, replies);
    let all = talk(config, request, replies);
    if exists|i: int| 0 <= i < all.effects.len() && (#[trigger] all.effects[i]) is SetChatGroup {
        let i = choose|i: int|
            0 <= i < all.effects.len() && (#[trigger] all.effects[i]) is SetChatGroup;
        assert(effect_earned(request, all.effects[i], all.heard));
    }
}

/// Files are fetched, read and compared only for administrators, and an upload is offered for
/// publication only after its file was archived.
pub proof fn uploads_are_for_administrators(
    config: Config,
    request: Request,
    replies: Seq<(DateView, Reply)>,
)
    ensures
        (talk(config, request, replies).next matches Next::Ask(query, _) && (query is Download
            || query is Parse || query is Preview || query is SaveSource || query is AttachSource))
            ==> heard_admin_profile(talk(config, request, replies).heard),
        forall|i: int|
            0 <= i < talk(config, request, replies).effects.len() ==> ((#[trigger] talk(
                config,
                request,
                replies,
            ).effects[i]) matches Effect::SendChoice { keyboard: Keyboard::Upload(_), .. } ==> {
                &&& heard_admin_profile(talk(config, request, replies).heard)
                &&& heard_saved(talk(config, request, replies).heard)
            }),
{
    conversations_earn_what_they_do(config, request, replies);
}

/// Invitations are made for administrators only.
pub proof fn invitations_are_for_administrators(
    config: Config,
    request: Request,
    replies: Seq<(DateView, Reply)>,
)
    requires
        talk(config, request, replies).next matches Next::Ask(query, _) && query is NewInvite,
    ensures
        talk(config, request, replies).heard.contains(Reply::Admin(true)),
{
    conversations_earn_what_they_do(config, request, replies);
}

} // verus!
