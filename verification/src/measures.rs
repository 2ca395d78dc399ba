//! How much is let through, how long it lasts and how large it is.

use crate::parts::{is_short, parts_are_short, parts_of, pieces_of};
use crate::rate_limit::{
    allowed_between, allowed_if_and_only_if_below_the_limits, allowed_lately, clock_runs_on,
    no_window_exceeds_the_limit, time_of, warned_if_and_only_if_not_warned_lately, warned_lately,
    warns, was_granted, Call, Subject,
};
use crate::stats::{HOUR_TTL, MINUTE_TTL, Period};
use crate::text::{decimal, utf8_size};
use vstd::prelude::*;

verus! {

/// A second in the unit of the limiter's clock.
pub open spec fn second() -> int {
    1_000_000_000
}

/// No user gets more than six requests through in ten seconds, and no chat more than twenty-four.
pub proof fn six_requests_pass_in_ten_seconds(
    calls: Seq<Call>,
    user_id: i64,
    chat_id: i64,
    i: int,
    j: int,
)
    requires
        clock_runs_on(calls),
        0 <= i <= j < calls.len(),
        time_of(calls[j]) - time_of(calls[i]) < 10 * second(),
    ensures
        allowed_between(calls, Subject::User(user_id), i, j + 1) <= 6,
        allowed_between(calls, Subject::Chat(chat_id), i, j + 1) <= 24,
{
    no_window_exceeds_the_limit(calls, Subject::User(user_id), i, j);
    no_window_exceeds_the_limit(calls, Subject::Chat(chat_id), i, j);
}

proof fn lemma_lately_few(calls: Seq<Call>, subject: Subject, n: int, now: u64)
    requires
        n >= 0,
    ensures
        0 <= allowed_lately(calls, subject, n, now) <= n,
    decreases n,
{
    if n > 0 {
        lemma_lately_few(calls, subject, n - 1, now);
    }
}

proof fn lemma_lately_none(calls: Seq<Call>, subject: Subject, n: int, now: u64)
    requires
        0 <= n <= calls.len(),
        forall|k: int| 0 <= k < n ==> now - time_of(#[trigger] calls[k]) >= 10 * second(),
    ensures
        allowed_lately(calls, subject, n, now) == 0,
    decreases n,
{
    if n > 0 {
        lemma_lately_none(calls, subject, n - 1, now);
        assert(now - time_of(calls[n - 1]) >= 10 * second());
    }
}

/// The first six requests pass, whoever makes them, and so does every request that comes ten seconds
/// after all others.
pub proof fn spare_requests_pass(calls: Seq<Call>, i: int)
    requires
        clock_runs_on(calls),
        0 <= i < calls.len(),
        calls[i] is Request,
        i < 6 || forall|k: int|
            0 <= k < i ==> time_of(calls[i]) - time_of(#[trigger] calls[k]) >= 10 * second(),
    ensures
        was_granted(calls, i),
{
    if let Call::Request { user_id, chat_id, now } = calls[i] {
        allowed_if_and_only_if_below_the_limits(calls, i);
        if i < 6 {
            lemma_lately_few(calls, Subject::User(user_id), i, now);
            lemma_lately_few(calls, Subject::Chat(chat_id), i, now);
        } else {
            lemma_lately_none(calls, Subject::User(user_id), i, now);
            lemma_lately_none(calls, Subject::Chat(chat_id), i, now);
        }
    }
}

proof fn lemma_lately_all(calls: Seq<Call>, user_id: i64, n: int, now: u64)
    requires
        clock_runs_on(calls),
        0 <= n <= 6,
        n <= calls.len(),
        forall|k: int|
            0 <= k < n ==> ((#[trigger] calls[k]) matches Call::Request { user_id: user, .. } && user
                == user_id) && now - time_of(calls[k]) < 10 * second(),
    ensures
        allowed_lately(calls, Subject::User(user_id), n, now) == n,
    decreases n,
{
    if n > 0 {
        lemma_lately_all(calls, user_id, n - 1, now);
        assert(calls[n - 1] is Request);
        spare_requests_pass(calls, n - 1);
    }
}

/// The seventh request of a user within ten seconds does not pass.
pub proof fn seventh_request_does_not_pass(calls: Seq<Call>, user_id: i64)
    requires
        clock_runs_on(calls),
        calls.len() >= 7,
        forall|k: int|
            0 <= k < 7 ==> ((#[trigger] calls[k]) matches Call::Request { user_id: user, .. } && user
                == user_id),
        time_of(calls[6]) - time_of(calls[0]) < 10 * second(),
    ensures
        !was_granted(calls, 6),
{
    assert(calls[6] is Request);
    if let Call::Request { user_id: user, chat_id, now } = calls[6] {
        assert forall|k: int| 0 <= k < 6 implies ((#[trigger] calls[k]) matches Call::Request {
            user_id: user,
            ..
        } && user == user_id) && now - time_of(calls[k]) < 10 * second() by {
            assert(time_of(calls[0]) <= time_of(calls[k]));
        }
        lemma_lately_all(calls, user_id, 6, now);
        allowed_if_and_only_if_below_the_limits(calls, 6);
    }
}

/// A user who was warned is warned again after thirty seconds, and not before.
pub proof fn warnings_come_every_thirty_seconds(calls: Seq<Call>, user_id: i64, i: int, j: int)
    requires
        clock_runs_on(calls),
        0 <= i < j < calls.len(),
        warns(user_id, calls[i]),
        warns(user_id, calls[j]),
        was_granted(calls, i),
    ensures
        time_of(calls[j]) - time_of(calls[i]) < 30 * second() ==> !was_granted(calls, j),
        time_of(calls[j]) - time_of(calls[i]) >= 30 * second() && (forall|k: int|
            i < k < j ==> !(warns(user_id, #[trigger] calls[k]) && was_granted(calls, k)))
            ==> was_granted(calls, j),
{
    let now = time_of(calls[j]);
    warned_if_and_only_if_not_warned_lately(calls, j);
    if now - time_of(calls[i]) < 30 * second() {
        assert(warned_lately(calls, user_id, j, now));
    }
    if now - time_of(calls[i]) >= 30 * second() && (forall|k: int|
        i < k < j ==> !(warns(user_id, #[trigger] calls[k]) && was_granted(calls, k))) {
        if warned_lately(calls, user_id, j, now) {
            let k = choose|k: int|
                0 <= k < j && warns(user_id, #[trigger] calls[k]) && was_granted(calls, k) && now
                    - time_of(calls[k]) < crate::rate_limit::WARNING_COOLDOWN;
            assert(time_of(calls[k]) <= time_of(calls[i]) || k > i);
        }
    }
}

/// A message takes no more than 3800 bytes, and a piece of an overlong line no more than 3500.
pub proof fn messages_have_3800_bytes_at_most(text: Seq<char>, line: Seq<char>)
    ensures
        forall|i: int|
            0 <= i < parts_of(text).len() ==> 0 < utf8_size(#[trigger] parts_of(text)[i]) <= 3_800,
        forall|i: int|
            0 <= i < pieces_of(line).len() ==> utf8_size(#[trigger] pieces_of(line)[i]) <= 3_500,
{
    parts_are_short(text);
    assert forall|i: int| 0 <= i < parts_of(text).len() implies 0 < utf8_size(
        #[trigger] parts_of(text)[i],
    ) <= 3_800 by {
        assert(is_short(parts_of(text)[i]));
    }
    crate::parts::lemma_pieces(line);
}

/// The seconds that the last letter of a period's code stands for.
pub open spec fn unit_of(letter: char) -> int {
    if letter == 'm' {
        60
    } else if letter == 'h' {
        3_600
    } else {
        86_400
    }
}

/// A period lasts as long as it is called: its code is a number and the letter of the unit that it
/// counts, minutes, hours or days, and the name that is shown begins with the same number.
pub proof fn periods_last_as_long_as_they_are_called(period: Period)
    ensures
        ({
            let code = period.code();
            let unit = unit_of(code.last());
            let number = decimal((period.span() / unit) as nat);
            &&& code.len() > 0
            &&& code.last() == 'm' || code.last() == 'h' || code.last() == 'd'
            &&& period.span() % unit == 0
            &&& code == number.push(code.last())
            &&& period.title().len() > number.len()
            &&& period.title().take(number.len() as int) == number
        }),
{
    lemma_codes();
    reveal_with_fuel(decimal, 3);
    assert(1_800int / 60 == 30 && 3_600int / 3_600 == 1 && 86_400int / 3_600 == 24 && 604_800int
        / 86_400 == 7);
    let number = match period {
        Period::ThirtyMinutes => seq!['3', '0'],
        Period::Hour => seq!['1'],
        Period::Day => seq!['2', '4'],
        Period::Week => seq!['7'],
    };
    let unit = unit_of(period.code().last());
    assert(decimal((period.span() / unit) as nat) =~= number);
    assert(period.code() =~= number.push(period.code().last()));
    assert(period.title().take(number.len() as int) =~= number);
}

proof fn lemma_codes()
    ensures
        "30m"@ == seq!['3', '0', 'm'],
        "1h"@ == seq!['1', 'h'],
        "24h"@ == seq!['2', '4', 'h'],
        "7d"@ == seq!['7', 'd'],
        "30 минут"@.len() == 8 && "30 минут"@[0] == '3' && "30 минут"@[1] == '0',
        "1 час"@.len() == 5 && "1 час"@[0] == '1',
        "24 часа"@.len() == 7 && "24 часа"@[0] == '2' && "24 часа"@[1] == '4',
        "7 дней"@.len() == 6 && "7 дней"@[0] == '7',
{
    reveal_strlit("30m");
    reveal_strlit("1h");
    reveal_strlit("24h");
    reveal_strlit("7d");
    reveal_strlit("30 минут");
    reveal_strlit("1 час");
    reveal_strlit("24 часа");
    reveal_strlit("7 дней");
    assert("30m"@ =~= seq!['3', '0', 'm']);
    assert("1h"@ =~= seq!['1', 'h']);
    assert("24h"@ =~= seq!['2', '4', 'h']);
    assert("7d"@ =~= seq!['7', 'd']);
}

/// Counts are kept for longer than any dashboard shows them.
pub proof fn counts_outlive_their_dashboards(period: Period)
    ensures
        period.span() + period.bucket_span() < if period.bucket_span() == 3_600 {
            HOUR_TTL as int
        } else {
            MINUTE_TTL as int
        },
{
}

} // verus!
