//! What a private message means by the state that its sender is in.

use crate::action::{Effect, Keyboard, Query, Reply};
use crate::conversation::{ChatType, Config, Message, Request, State};
use crate::date::DateView;
use crate::dialogue::{asks, done_since, lemma_drop, lemma_since};
use crate::handlers::{responds, talk};
use crate::identity::token_digest;
use crate::phrases;
use crate::private::{
    invitation_link_is_redeemed, is_stats_command, message_routed, names_search, names_today,
    names_week, only_the_secret_claims, start_claims,
};
use crate::private_talk::{
    is_in_menu, is_no_button, is_plain, lemma_profile_asked, lemma_solid, lemma_today_text,
    lemma_week_text, tells,
};
use crate::showing::{group_shown, shows};
use crate::stats::Metric;
use crate::store::{UploadPreview, User};
use crate::text::{has_prefix, is_space, is_word, text_of, trimmed, two_words_are_read_apart};
use vstd::prelude::*;

verus! {

proof fn lemma_states()
    ensures
        "await_group"@ != "confirm_group"@,
        "await_group"@ != "await_search_kind"@,
        "await_group"@ != "await_search_text"@,
        "confirm_group"@ != "await_search_kind"@,
        "confirm_group"@ != "await_search_text"@,
        "await_search_kind"@ != "await_search_text"@,
{
    reveal_strlit("await_group");
    reveal_strlit("confirm_group");
    reveal_strlit("await_search_text");
    reveal_strlit("await_search_kind");
    assert("await_group"@.len() == 11 && "confirm_group"@.len() == 13 && "await_search_text"@.len()
        == 17 && "await_search_kind"@.len() == 17 && "await_search_text"@[13] == 't'
        && "await_search_kind"@[13] == 'k');
}

/// Whoever has to confirm their group or to choose what to search for is asked again, whatever they
/// write; someone without a group who is asked for nothing else is asked for it, and anyone else is
/// shown the menu.
#[verifier::spinoff_prover]
#[verifier::rlimit(60)]
pub proof fn open_questions_are_asked_again(
    config: Config,
    message: Message,
    text: Seq<char>,
    profile: User,
    day: DateView,
)
    requires
        tells(message, text),
        is_plain(text),
        is_no_button(text),
        trimmed(text) == text,
    ensures
        ({
            let request = Request::Message(message);
            let first = (day, Reply::Allowed(true));
            let second = (day, Reply::User(Some(profile)));
            let asked = talk(config, request, seq![first]);
            let told = talk(config, request, seq![first, second]);
            let done = done_since(told, asked);
            let chat = message.chat;
            let state = profile.flow_state@;
            let is_free = state != "await_group"@ && state != "confirm_group"@ && state
                != "await_search_kind"@ && state != "await_search_text"@;
            &&& asks(asked, Query::User { user: message.user })
            &&& state == "confirm_group"@ ==> {
                &&& told.next is Done
                &&& done.len() == 1
                &&& done[0] matches Effect::SendChoice { chat: to, text: question, keyboard }
                &&& to == chat
                &&& keyboard == Keyboard::ConfirmGroup
                &&& text_of(profile.pending_group) matches Some(group) ==> shows(question, group)
            }
            &&& state == "await_search_kind"@ ==> {
                &&& told.next is Done
                &&& done.len() > 0
                &&& done.last() matches Effect::SendChoice { chat: to, text: question, keyboard }
                &&& to == chat
                &&& keyboard == Keyboard::Search
            }
            &&& is_free && profile.group_code is None ==> told.next is Done && done == seq![
                Effect::SetFlowState {
                    user: message.user,
                    state: "await_group"@,
                    search_kind: None,
                },
                Effect::SendText { chat, text: phrases::NAME_GROUP_FIRST@ },
            ]
            &&& is_free && profile.group_code is Some ==> told.next is Done && done == seq![
                Effect::SendMenu { chat, text: phrases::CHOOSE_ACTION@ },
            ]
        }),
{
    broadcast use group_shown;

    lemma_states();
    lemma_profile_asked(config, message, text, day);
    let request = Request::Message(message);
    let first = (day, Reply::Allowed(true));
    let second = (day, Reply::User(Some(profile)));
    lemma_drop(first, second, second, second);
    let asked = talk(config, request, seq![first]);
    let told = talk(config, request, seq![first, second]);
    let step = responds(
        config,
        day,
        request,
        State::Profile,
        Reply::User(Some(profile)),
    );
    lemma_since(asked.effects, step.effects);
    assert(done_since(told, asked) == step.effects);
    if let Some(group) = text_of(profile.pending_group) {
        assert(shows("Твоя группа — "@ + group + "?"@, group));
    }
}

proof fn lemma_search_text(text: Seq<char>)
    requires
        text == "Расширенный поиск"@ || text == "🔎 Расширенный поиск"@,
    ensures
        is_plain(text),
        trimmed(text) == text,
        text != phrases::NOTIFICATIONS_BUTTON@,
        !names_today(text),
        !names_week(text),
        names_search(text),
{
    reveal_strlit("Сегодня");
    reveal_strlit("📅 Сегодня");
    reveal_strlit("На неделю");
    reveal_strlit("🗓️ На неделю");
    reveal_strlit("🔔 Уведомления");
    reveal_strlit("Расширенный поиск");
    reveal_strlit("🔎 Расширенный поиск");
    assert("Сегодня"@.len() == 7 && "🔔 Уведомления"@.len() == 13 && "📅 Сегодня"@.len() == 9
        && "На неделю"@.len() == 9 && "🗓️ На неделю"@.len() == 12 && "Расширенный поиск"@.len() == 17
        && "🔎 Расширенный поиск"@.len() == 19);
    lemma_solid(text);
}

/// The button of the search asks what to search for, and the choice is awaited.
#[verifier::spinoff_prover]
#[verifier::rlimit(60)]
pub proof fn search_button_begins_a_search(
    config: Config,
    message: Message,
    text: Seq<char>,
    profile: User,
    day: DateView,
)
    requires
        tells(message, text),
        text == "Расширенный поиск"@ || text == "🔎 Расширенный поиск"@,
        is_in_menu(profile),
    ensures
        ({
            let request = Request::Message(message);
            let first = (day, Reply::Allowed(true));
            let second = (day, Reply::User(Some(profile)));
            let asked = talk(config, request, seq![first]);
            let told = talk(config, request, seq![first, second]);
            &&& told.next is Done
            &&& done_since(told, asked) == seq![
                Effect::SetFlowState {
                    user: message.user,
                    state: "await_search_kind"@,
                    search_kind: None,
                },
                Effect::SendChoice {
                    chat: message.chat,
                    text: phrases::SEARCH_QUESTION@,
                    keyboard: Keyboard::Search,
                },
            ]
        }),
{
    lemma_search_text(text);
    lemma_profile_asked(config, message, text, day);
    let request = Request::Message(message);
    let first = (day, Reply::Allowed(true));
    let second = (day, Reply::User(Some(profile)));
    lemma_drop(first, second, second, second);
    let asked = talk(config, request, seq![first]);
    let step = responds(
        config,
        day,
        request,
        State::Profile,
        Reply::User(Some(profile)),
    );
    lemma_since(asked.effects, step.effects);
}

/// Someone without a group who asks for lessons is asked for their group.
#[verifier::spinoff_prover]
#[verifier::rlimit(60)]
pub proof fn lessons_need_a_group(
    config: Config,
    message: Message,
    text: Seq<char>,
    profile: User,
    day: DateView,
)
    requires
        tells(message, text),
        text == "Сегодня"@ || text == "📅 Сегодня"@ || text == "На неделю"@ || text
            == "🗓️ На неделю"@,
        is_in_menu(profile),
        profile.group_code is None,
    ensures
        ({
            let request = Request::Message(message);
            let first = (day, Reply::Allowed(true));
            let second = (day, Reply::User(Some(profile)));
            let asked = talk(config, request, seq![first]);
            let told = talk(config, request, seq![first, second]);
            &&& told.next is Done
            &&& done_since(told, asked) == seq![
                Effect::SetFlowState {
                    user: profile.telegram_id,
                    state: "await_group"@,
                    search_kind: None,
                },
                Effect::SendText {
                    chat: message.chat,
                    text: phrases::NAME_GROUP_FOR_LESSONS@,
                },
            ]
        }),
{
    if text == "Сегодня"@ || text == "📅 Сегодня"@ {
        lemma_today_text(text);
    } else {
        lemma_week_text(text);
    }
    lemma_profile_asked(config, message, text, day);
    let request = Request::Message(message);
    let first = (day, Reply::Allowed(true));
    let second = (day, Reply::User(Some(profile)));
    lemma_drop(first, second, second, second);
    let asked = talk(config, request, seq![first]);
    let step = responds(
        config,
        day,
        request,
        State::Profile,
        Reply::User(Some(profile)),
    );
    lemma_since(asked.effects, step.effects);
}

/// A private message with neither text nor file is answered with what to send instead.
#[verifier::spinoff_prover]
#[verifier::rlimit(60)]
pub proof fn empty_messages_are_answered(
    config: Config,
    message: Message,
    profile: User,
    day: DateView,
)
    requires
        message.chat_type == ChatType::Private,
        message.document is None,
        message.text is None,
    ensures
        ({
            let request = Request::Message(message);
            let first = (day, Reply::Allowed(true));
            let second = (day, Reply::User(Some(profile)));
            let asked = talk(config, request, seq![first]);
            let told = talk(config, request, seq![first, second]);
            &&& asks(asked, Query::User { user: message.user })
            &&& told.next is Done
            &&& done_since(told, asked) == seq![
                Effect::SendText { chat: message.chat, text: phrases::SEND_GROUP_OR_BUTTON@ },
            ]
        }),
{
    let request = Request::Message(message);
    let first = (day, Reply::Allowed(true));
    let second = (day, Reply::User(Some(profile)));
    lemma_drop(first, second, second, second);
    assert(talk(config, request, seq![]).next is Ask);
    let asked = talk(config, request, seq![first]);
    let answer: Effect<Seq<char>> = Effect::SendText {
        chat: message.chat,
        text: phrases::SEND_GROUP_OR_BUTTON@,
    };
    lemma_since(asked.effects, seq![answer]);
}

/// `/help` is answered with the help, and nothing is asked for it.
#[verifier::spinoff_prover]
#[verifier::rlimit(60)]
pub proof fn help_is_given(config: Config, message: Message, text: Seq<char>, day: DateView)
    requires
        message.chat_type == ChatType::Private,
        text_of(message.text) == Some(text),
        text == "/help"@,
    ensures
        ({
            let told = talk(
                config,
                Request::Message(message),
                seq![(day, Reply::Allowed(true))],
            );
            &&& told.next is Done
            &&& told.effects.len() > 0
            &&& told.effects.last() == (Effect::SendText {
                chat: message.chat,
                text: phrases::HELP@,
            })
        }),
{
    reveal_strlit("/help");
    reveal_strlit("/stats");
    reveal_strlit("/stats@");
    reveal_strlit("/start");
    let first = (day, Reply::Allowed(true));
    lemma_drop(first, first, first, first);
    assert(talk(config, Request::Message(message), seq![]).next is Ask);
    assert(text.take(5) =~= "/help"@);
    assert("/help"@[1] == 'h' && "/stats"@[1] == 's' && "/start"@.len() == 6);
    crate::text::lemma_word_len(text);
    assert(crate::text::trim_start(text) == text);
    let word = crate::text::words(text)[0];
    assert(word.len() <= text.len());
    assert("/stats"@.len() == 6 && "/stats@"@.len() == 7);
}

/// An upload that could not be archived is dropped at once.
pub proof fn uploads_need_an_archive(
    config: Config,
    request: Request,
    user: i64,
    chat: i64,
    lower: Seq<char>,
    preview: UploadPreview,
    today: DateView,
)
    requires
        !config.has_archive,
    ensures
        ({
            let step = responds(
                config,
                today,
                request,
                State::UploadPreviewed { user, chat, extension: lower },
                Reply::Previewed(Ok(preview)),
            );
            &&& step.next is Done
            &&& step.effects == seq![
                Effect::CancelUpload { id: preview.id, user },
                Effect::SendText { chat, text: phrases::NO_ARCHIVE@ },
            ]
        }),
{
}

proof fn lemma_start_text(text: Seq<char>, rest: Seq<char>)
    requires
        text == "/start "@ + rest,
    ensures
        !is_stats_command(text),
        has_prefix(text, "/start"@),
{
    reveal_strlit("/start ");
    reveal_strlit("/start");
    reveal_strlit("/stats");
    reveal_strlit("/stats@");
    assert(text.take(6) =~= "/start"@);
    crate::text::lemma_word_len(text);
    assert(crate::text::trim_start(text) == text);
    let word = crate::text::words(text)[0];
    assert("/stats"@.len() == 6 && "/stats"@[3] == 'a' && "/stats"@[4] == 't' && "/stats"@[5] == 's'
        && "/stats@"@[5] == 's' && "/stats@"@.len() == 7 && text[5] == 't');
    if word == "/stats"@ {
        assert(word[5] == text[5]);
    }
    if has_prefix(word, "/stats@"@) {
        assert(word.take(7)[5] == word[5]);
        assert(word[5] == text[5]);
    }
}

/// Opening the link of an invitation redeems it, and opening that of the first administrator claims
/// the rights if it carries the secret; a wrong secret, or any where none is set, claims nothing.
#[verifier::spinoff_prover]
#[verifier::rlimit(60)]
pub proof fn links_are_redeemed(
    config: Config,
    message: Message,
    text: Seq<char>,
    token: Seq<char>,
    day: DateView,
)
    requires
        message.chat_type == ChatType::Private,
        text_of(message.text) == Some(text),
        is_word(token),
    ensures
        ({
            let after = talk(
                config,
                Request::Message(message),
                seq![(day, Reply::Allowed(true))],
            );
            let user = message.user;
            let claims = after.effects.skip(2);
            &&& text == "/start adm_"@ + token ==> claims == seq![
                Effect::RedeemInvite { user, token_sha256: token_digest(token) },
            ]
            &&& text == "/start bootstrap_"@ + token ==> claims == if text_of(
                config.bootstrap_token,
            ) == Some(token) {
                seq![Effect::<Seq<char>>::ClaimBootstrapAdmin { user }]
            } else {
                seq![]
            }
        }),
{
    reveal_strlit("/start adm_");
    reveal_strlit("/start bootstrap_");
    reveal_strlit("/start ");
    reveal_strlit("adm_");
    reveal_strlit("bootstrap_");
    let request = Request::Message(message);
    let yes = (day, Reply::Allowed(true));
    lemma_drop(yes, yes, yes, yes);
    let after = talk(config, request, seq![yes]);
    let begun = talk(config, request, seq![]);
    assert(begun.effects =~= seq![]);
    let head: Seq<Effect<Seq<char>>> = seq![
        Effect::RecordMetric(Metric::Commands),
        Effect::RegisterUser {
            user: message.user,
            chat: message.chat,
            username: text_of(message.username),
        },
    ];
    let step = message_routed(config, message);
    assert(after.effects =~= head + step.effects);
    assert(after.effects.skip(2) =~= step.effects);
    if text == "/start adm_"@ + token {
        assert(text =~= "/start "@ + ("adm_"@ + token));
        lemma_start_text(text, "adm_"@ + token);
        invitation_link_is_redeemed(config, message.user, token);
    }
    if text == "/start bootstrap_"@ + token {
        assert(text =~= "/start "@ + ("bootstrap_"@ + token));
        lemma_start_text(text, "bootstrap_"@ + token);
        if let Some(secret) = text_of(config.bootstrap_token) {
            only_the_secret_claims(config, message.user, secret, token);
        } else {
            lemma_no_secret(config, message.user, token);
        }
    }
}

proof fn lemma_no_secret(config: Config, user: i64, token: Seq<char>)
    requires
        text_of(config.bootstrap_token) is None,
        is_word(token),
    ensures
        start_claims(config, user, "/start bootstrap_"@ + token) == Seq::<
            Effect<Seq<char>>,
        >::empty(),
{
    reveal_strlit("/start bootstrap_");
    reveal_strlit("/start");
    reveal_strlit("bootstrap_");
    reveal_strlit("adm_");
    let parameter = "bootstrap_"@ + token;
    let text = "/start bootstrap_"@ + token;
    assert(text =~= "/start"@ + seq![' '] + parameter);
    assert forall|i: int| 0 <= i < parameter.len() implies !is_space(parameter[i]) by {
        if i >= 10 {
            assert(parameter[i] == token[i - 10]);
        }
    }
    two_words_are_read_apart("/start"@, parameter);
    assert(parameter.take(4)[0] == 'b');
}

/// `/notifications` turns daily messages over as the button does.
#[verifier::spinoff_prover]
#[verifier::rlimit(60)]
pub proof fn notifications_command_turns_daily_messages_over(
    config: Config,
    message: Message,
    profile: User,
    day: DateView,
)
    requires
        message.chat_type == ChatType::Private,
        text_of(message.text) == Some("/notifications"@),
    ensures
        ({
            let request = Request::Message(message);
            let first = (day, Reply::Allowed(true));
            let second = (day, Reply::User(Some(profile)));
            let asked = talk(config, request, seq![first]);
            let turned = talk(config, request, seq![first, second]);
            let done = done_since(turned, asked);
            &&& asks(asked, Query::User { user: message.user })
            &&& turned.next is Done
            &&& done.len() == 2
            &&& done[0] == (Effect::<Seq<char>>::SetDailyNotifications {
                user: message.user,
                enabled: !profile.daily_notifications_enabled,
            })
        }),
{
    lemma_notifications_text();
    let request = Request::Message(message);
    let first = (day, Reply::Allowed(true));
    let second = (day, Reply::User(Some(profile)));
    lemma_drop(first, second, second, second);
    assert(talk(config, request, seq![]).next is Ask);
    let asked = talk(config, request, seq![first]);
    assert(asks(asked, Query::User { user: message.user }));
    let step = crate::private::notifications_toggled(message.user, message.chat, profile@);
    lemma_since(asked.effects, step.effects);
}

proof fn lemma_notifications_text()
    ensures
        !is_stats_command("/notifications"@),
        !has_prefix("/notifications"@, "/start"@),
        !has_prefix("/notifications"@, "/help"@),
        !has_prefix("/notifications"@, "/admin_link"@),
        has_prefix("/notifications"@, "/notifications"@),
{
    let text = "/notifications"@;
    reveal_strlit("/notifications");
    reveal_strlit("/start");
    reveal_strlit("/help");
    reveal_strlit("/admin_link");
    reveal_strlit("/stats");
    reveal_strlit("/stats@");
    assert("/start"@[1] == 's' && "/help"@[1] == 'h' && "/admin_link"@[1] == 'a' && "/stats"@[1]
        == 's' && "/stats@"@[1] == 's' && text[1] == 'n' && "/start"@.len() == 6 && "/help"@.len()
        == 5 && "/admin_link"@.len() == 11 && "/stats@"@.len() == 7 && "/stats"@.len() == 6);
    assert(text.take(text.len() as int) =~= text);
    assert(text.take(6)[1] == 'n' && text.take(5)[1] == 'n' && text.take(11)[1] == 'n');
    crate::text::lemma_word_len(text);
    assert(crate::text::trim_start(text) == text);
    let word = crate::text::words(text)[0];
    if word == "/stats"@ {
        assert(word[1] == text[1]);
    }
    if has_prefix(word, "/stats@"@) {
        assert(word.take(7)[1] == word[1]);
        assert(word[1] == text[1]);
    }
}

} // verus!
