//! Who is answered and who is not: refused requests, foreign messages and the dashboard.

use crate::phrases;
use crate::action::{caption_of, period_data, Effect, Keyboard, Membership, Query, Reply};
use crate::callback::{button_routed, period_button_names_its_period, pressed};
use crate::conversation::{Callback, ChatType, Config, Message, Request};
use crate::date::DateView;
use crate::dialogue::{asks, commands, done_since, lemma_drop, lemma_since};
use crate::handlers::talk;
use crate::private_talk::{lemma_button_names, reports};
use crate::showing::{group_shown, shows};
use crate::stats::{Metric, Period};
use crate::text::{has_prefix, text_of, trimmed, words};
use vstd::prelude::*;

verus! {

/// A button that is refused stops waiting and is counted; a warning that is due goes to the one who
/// pressed it.
#[verifier::spinoff_prover]
#[verifier::rlimit(60)]
pub proof fn refused_buttons_stop_waiting(
    config: Config,
    callback: Callback,
    warn: bool,
    day: DateView,
)
    ensures
        ({
            let request = Request::Callback(callback);
            let no = (day, Reply::Allowed(false));
            let due = (day, Reply::ShouldWarn(warn));
            let begun = talk(config, request, seq![]);
            let refused = talk(config, request, seq![no]);
            let warned = talk(config, request, seq![no, due]);
            &&& asks(begun, Query::Allow { user: callback.user, chat: callback.user })
            &&& begun.effects.len() == 0
            &&& refused.effects.len() == 2
            &&& refused.effects.contains(Effect::RecordMetric(Metric::RateLimited))
            &&& refused.effects.contains(Effect::AnswerCallback)
            &&& asks(refused, Query::ShouldWarn { user: callback.user })
            &&& warned.next is Done
            &&& done_since(warned, refused) == if warn {
                seq![
                    Effect::SendText { chat: callback.user, text: phrases::TOO_MANY_REQUESTS@ },
                ]
            } else {
                seq![]
            }
        }),
{
    let request = Request::Callback(callback);
    let no = (day, Reply::Allowed(false));
    let due = (day, Reply::ShouldWarn(warn));
    lemma_drop(no, due, due, due);
    let begun = talk(config, request, seq![]);
    let refused = talk(config, request, seq![no]);
    let counted: Effect<Seq<char>> = Effect::RecordMetric(Metric::RateLimited);
    let answered: Effect<Seq<char>> = Effect::AnswerCallback;
    assert(begun.effects =~= seq![]);
    assert(refused.effects =~= seq![counted, answered]);
    assert(refused.effects[0] == counted);
    assert(refused.effects[1] == answered);
    let text: Effect<Seq<char>> = Effect::SendText {
        chat: callback.user,
        text: phrases::TOO_MANY_REQUESTS@,
    };
    lemma_since(refused.effects, seq![text]);
    lemma_since(refused.effects, seq![]);
}

/// A command in a group chat that is refused is counted and not answered.
#[verifier::spinoff_prover]
#[verifier::rlimit(60)]
pub proof fn refused_commands_are_not_answered(
    config: Config,
    message: Message,
    name: Seq<char>,
    arguments: Seq<Seq<char>>,
    day: DateView,
)
    requires
        commands(config, message, name, arguments),
    ensures
        ({
            let request = Request::Message(message);
            let begun = talk(config, request, seq![]);
            let refused = talk(config, request, seq![(day, Reply::Allowed(false))]);
            &&& asks(begun, Query::Allow { user: message.user, chat: message.chat })
            &&& begun.effects.len() == 0
            &&& refused.next is Done
            &&& refused.effects == seq![Effect::<Seq<char>>::RecordMetric(Metric::RateLimited)]
        }),
{
    let request = Request::Message(message);
    let no = (day, Reply::Allowed(false));
    lemma_drop(no, no, no, no);
    assert(talk(config, request, seq![]).effects =~= seq![]);
    assert(talk(config, request, seq![no]).effects =~= seq![
        Effect::<Seq<char>>::RecordMetric(Metric::RateLimited),
    ]);
}

/// Whether a command is one of those that a group chat can give.
pub open spec fn is_known_command(name: Seq<char>) -> bool {
    ||| name == "today"@
    ||| name == "week"@
    ||| name == "day"@
    ||| name == "group"@
    ||| name == "setgroup"@
    ||| name == "disable"@
}

/// Any other command in a group chat is answered with the list of commands.
#[verifier::spinoff_prover]
#[verifier::rlimit(60)]
pub proof fn other_commands_are_answered_with_help(
    config: Config,
    message: Message,
    name: Seq<char>,
    arguments: Seq<Seq<char>>,
    day: DateView,
)
    requires
        commands(config, message, name, arguments),
    ensures
        ({
            let allowed = talk(
                config,
                Request::Message(message),
                seq![(day, Reply::Allowed(true))],
            );
            &&& allowed.effects.len() > 0
            &&& allowed.effects[0] == Effect::<Seq<char>>::RecordMetric(Metric::Commands)
            &&& is_known_command(name) <==> allowed.next is Ask
            &&& !is_known_command(name) ==> allowed.next is Done && allowed.effects.skip(1) == seq![
                Effect::SendText { chat: message.chat, text: phrases::GROUP_HELP@ },
            ]
        }),
{
    let request = Request::Message(message);
    let yes = (day, Reply::Allowed(true));
    lemma_drop(yes, yes, yes, yes);
    let counted: Effect<Seq<char>> = Effect::RecordMetric(Metric::Commands);
    let help: Effect<Seq<char>> = Effect::SendText {
        chat: message.chat,
        text: phrases::GROUP_HELP@,
    };
    let allowed = talk(config, request, seq![yes]);
    assert(talk(config, request, seq![]).effects =~= seq![]);
    if is_known_command(name) {
        assert(allowed.effects =~= seq![counted]);
    } else {
        assert(allowed.effects =~= seq![counted, help]);
        assert(allowed.effects.skip(1) =~= seq![help]);
    }
}

/// What is not for the bot is left alone: in a group chat whatever has no text or does not begin with
/// a slash, elsewhere everything.
pub proof fn foreign_messages_are_left_alone(
    config: Config,
    message: Message,
    replies: Seq<(DateView, Reply)>,
)
    requires
        message.chat_type == ChatType::Other || message.chat_type == ChatType::Group && (
        message.text matches Some(text) ==> words(trimmed(text@)).len() == 0 || !has_prefix(
            words(trimmed(text@))[0],
            "/"@,
        )),
    ensures
        ({
            let after = talk(config, Request::Message(message), replies);
            after.effects.len() == 0 && after.next is Done
        }),
    decreases replies.len(),
{
    if replies.len() > 0 {
        foreign_messages_are_left_alone(config, message, replies.drop_last());
    }
}

/// `/stats` sends the dashboard of the last day to an administrator, and to nobody else.
#[verifier::spinoff_prover]
#[verifier::rlimit(60)]
pub proof fn stats_command_sends_the_dashboard(
    config: Config,
    message: Message,
    text: String,
    is_admin: bool,
    day: DateView,
)
    requires
        message.chat_type == ChatType::Private,
        message.text == Some(text),
        words(text@).len() > 0,
        words(text@)[0] == "/stats"@,
    ensures
        ({
            let request = Request::Message(message);
            let yes = (day, Reply::Allowed(true));
            let rights = (day, Reply::Admin(is_admin));
            let asked = talk(config, request, seq![yes]);
            let told = talk(config, request, seq![yes, rights]);
            let done = done_since(told, asked);
            &&& asks(asked, Query::IsAdmin { user: message.user })
            &&& told.next is Done
            &&& done.len() == 1
            &&& is_admin ==> (done[0] matches Effect::SendDashboard { chat, period, caption }
                && chat == message.chat && period == Period::Day && shows(
                caption,
                Period::Day.title(),
            ))
            &&& !is_admin ==> done[0] == (Effect::SendText {
                chat: message.chat,
                text: phrases::STATS_FOR_ADMINS@,
            })
        }),
{
    broadcast use group_shown;

    let request = Request::Message(message);
    let yes = (day, Reply::Allowed(true));
    let rights = (day, Reply::Admin(is_admin));
    lemma_drop(yes, rights, rights, rights);
    let asked = talk(config, request, seq![yes]);
    assert(talk(config, request, seq![]).next is Ask);
    assert(asks(asked, Query::IsAdmin { user: message.user }));
    let shown: Effect<Seq<char>> = if is_admin {
        Effect::SendDashboard {
            chat: message.chat,
            period: Period::Day,
            caption: caption_of(Period::Day),
        }
    } else {
        Effect::SendText { chat: message.chat, text: phrases::STATS_FOR_ADMINS@ }
    };
    lemma_since(asked.effects, seq![shown]);
}

/// The button of a period turns the dashboard to that period for an administrator in their own chat;
/// anyone else, and anywhere else, is only told that it is for administrators.
#[verifier::spinoff_prover]
#[verifier::rlimit(60)]
pub proof fn period_buttons_turn_the_dashboard(
    config: Config,
    callback: Callback,
    period: Period,
    is_admin: bool,
    day: DateView,
)
    requires
        reports(callback, period_data(period)),
    ensures
        ({
            let request = Request::Callback(callback);
            let yes = (day, Reply::Allowed(true));
            let rights = (day, Reply::Admin(is_admin));
            let asked = talk(config, request, seq![yes]);
            let told = talk(config, request, seq![yes, rights]);
            &&& asks(asked, Query::IsAdmin { user: callback.user })
            &&& asked.effects.len() == 0
            &&& told.next is Done
            &&& is_admin && callback.message_chat == Some(callback.user) ==> {
                &&& told.effects.contains(Effect::AnswerCallback)
                &&& told.effects.contains(Effect::RecordMetric(Metric::Commands))
                &&& told.effects.len() == 3
                &&& told.effects[2] matches Effect::EditDashboard { chat, period: turned, caption }
                &&& chat == callback.user
                &&& turned == period
                &&& shows(caption, period.title())
            }
            &&& !(is_admin && callback.message_chat == Some(callback.user)) ==> told.effects == seq![
                Effect::AlertCallback { text: phrases::DASHBOARD_FOR_ADMINS@ },
            ]
        }),
{
    broadcast use group_shown;

    let request = Request::Callback(callback);
    let yes = (day, Reply::Allowed(true));
    let rights = (day, Reply::Admin(is_admin));
    lemma_drop(yes, rights, rights, rights);
    period_button_names_its_period(callback, period);
    let asked = talk(config, request, seq![yes]);
    let told = talk(config, request, seq![yes, rights]);
    assert(talk(config, request, seq![]).effects =~= seq![]);
    assert(asked.effects =~= seq![]);
    let answered: Effect<Seq<char>> = Effect::AnswerCallback;
    let counted: Effect<Seq<char>> = Effect::RecordMetric(Metric::Commands);
    let turned: Effect<Seq<char>> = Effect::EditDashboard {
        chat: callback.user,
        period,
        caption: caption_of(period),
    };
    let alert: Effect<Seq<char>> = Effect::AlertCallback {
        text: phrases::DASHBOARD_FOR_ADMINS@,
    };
    if is_admin && callback.message_chat == Some(callback.user) {
        assert(told.effects =~= seq![answered, counted, turned]);
        assert(told.effects[0] == answered);
        assert(told.effects[1] == counted);
        assert(told.effects[2] == turned);
    } else {
        assert(told.effects =~= seq![alert]);
    }
}

/// Whoever is no administrator of a group chat cannot set or forget its group, nor can anyone whose
/// rights the chat does not tell; they are told why, and nothing is asked or changed. An administrator
/// who names no group, or more than one word, is told how to name one.
#[verifier::spinoff_prover]
#[verifier::rlimit(60)]
pub proof fn chat_settings_are_refused_with_the_reason(
    config: Config,
    message: Message,
    name: Seq<char>,
    arguments: Seq<Seq<char>>,
    member: Membership,
    day: DateView,
)
    requires
        commands(config, message, name, arguments),
        name == "disable"@ && member != Membership::Admin || name == "setgroup"@ && (member
            != Membership::Admin || arguments.len() != 1),
    ensures
        ({
            let request = Request::Message(message);
            let first = (day, Reply::Allowed(true));
            let second = (day, Reply::Member(member));
            let asked = talk(config, request, seq![first]);
            let told = talk(config, request, seq![first, second]);
            let reason = if name == "disable"@ {
                if member == Membership::Unknown {
                    phrases::DISABLE_UNCHECKED@
                } else {
                    phrases::DISABLE_FOR_ADMINS@
                }
            } else if member == Membership::Unknown {
                phrases::SET_GROUP_UNCHECKED@
            } else if member == Membership::Other {
                phrases::SET_GROUP_FOR_ADMINS@
            } else {
                phrases::SET_GROUP_USAGE@
            };
            &&& asks(asked, Query::Member { chat: message.chat, user: message.user })
            &&& told.next is Done
            &&& done_since(told, asked) == seq![
                Effect::SendText { chat: message.chat, text: reason },
            ]
        }),
{
    reveal_strlit("disable");
    reveal_strlit("setgroup");
    assert("disable"@.len() == 7 && "setgroup"@.len() == 8);
    let request = Request::Message(message);
    let first = (day, Reply::Allowed(true));
    let second = (day, Reply::Member(member));
    lemma_drop(first, second, second, second);
    assert(talk(config, request, seq![]).next is Ask);
    let asked = talk(config, request, seq![first]);
    assert(asks(asked, Query::Member { chat: message.chat, user: message.user }));
    let told = talk(config, request, seq![first, second]);
    lemma_since(asked.effects, told.effects.skip(asked.effects.len() as int));
    assert(told.effects.len() == asked.effects.len() + 1);
    assert(done_since(told, asked) =~= seq![told.effects.last()]);
}

/// Whether a button is one of those that the bot makes.
pub open spec fn is_known_button(data: Seq<char>) -> bool {
    ||| data == "group:yes"@
    ||| data == "group:no"@
    ||| data == "search:teacher"@
    ||| data == "search:room"@
    ||| data == "menu:today"@
    ||| data == "menu:week"@
    ||| data == "menu:search"@
    ||| has_prefix(data, "upload:confirm:"@)
    ||| has_prefix(data, "upload:cancel:"@)
}

/// Every button but those of the dashboard stops waiting, is counted, and registers the one who
/// pressed it, before anything else; a button that the bot does not know is said to be out of date,
/// and the one for a search asks what to search for.
#[verifier::spinoff_prover]
#[verifier::rlimit(60)]
pub proof fn pressed_buttons_are_answered(config: Config, callback: Callback, day: DateView)
    requires
        !has_prefix(pressed(callback), "stats:"@),
    ensures
        ({
            let after = talk(
                config,
                Request::Callback(callback),
                seq![(day, Reply::Allowed(true))],
            );
            let user = callback.user;
            let data = pressed(callback);
            &&& after.effects.len() >= 3
            &&& after.effects.take(3) == seq![
                Effect::AnswerCallback,
                Effect::RecordMetric(Metric::Commands),
                Effect::RegisterUser { user, chat: user, username: text_of(callback.username) },
            ]
            &&& !is_known_button(data) ==> after.next is Done && after.effects.skip(3) == seq![
                Effect::SendText { chat: user, text: phrases::STALE_BUTTON@ },
            ]
            &&& data == "menu:search"@ ==> after.next is Done && after.effects.skip(3) == seq![
                Effect::SetFlowState {
                    user,
                    state: "await_search_kind"@,
                    search_kind: None,
                },
                Effect::SendChoice {
                    chat: user,
                    text: phrases::SEARCH_QUESTION@,
                    keyboard: Keyboard::Search,
                },
            ]
        }),
{
    let request = Request::Callback(callback);
    let yes = (day, Reply::Allowed(true));
    let user = callback.user;
    let data = pressed(callback);
    lemma_drop(yes, yes, yes, yes);
    let begun = talk(config, request, seq![]);
    let after = talk(config, request, seq![yes]);
    assert(begun.effects =~= seq![]);
    let head: Seq<Effect<Seq<char>>> = seq![
        Effect::AnswerCallback,
        Effect::RecordMetric(Metric::Commands),
        Effect::RegisterUser { user, chat: user, username: text_of(callback.username) },
    ];
    let step = button_routed(user, data);
    assert(after.effects =~= head + step.effects);
    assert(after.effects.take(3) =~= head);
    assert(after.effects.skip(3) =~= step.effects);
    lemma_button_names();
    lemma_search_button();
}

proof fn lemma_search_button()
    ensures
        "menu:search"@ != "group:yes"@,
        "menu:search"@ != "group:no"@,
        "menu:search"@ != "search:teacher"@,
        "menu:search"@ != "search:room"@,
        "menu:search"@ != "menu:today"@,
        "menu:search"@ != "menu:week"@,
{
    lemma_button_names();
    reveal_strlit("menu:search");
    reveal_strlit("search:room");
    assert("menu:search"@[0] == 'm' && "search:room"@[0] == 's');
}

} // verus!
