//! What the running service decides: when daily messages are due, how the queue is worked off, and
//! how it starts.

use crate::clock::LocalTime;
use crate::date::{date_numbered, day_number_names_one_date, last_day_number, Date, DateView};
use crate::format::DailyKind;
use crate::stats::Metric;
use crate::store::{clip_error, clipped};
use crate::text::{concat2, parse_unsigned, unsigned_number};
use vstd::prelude::*;

verus! {

/// The second of the day at which the messages about today are due: 07:00.
pub const MORNING: u32 = 25_200;

/// The second of the day at which the messages about tomorrow are due: 21:00.
pub const EVENING: u32 = 75_600;

/// For how many seconds a delivery stays due.
pub const DUE_SECONDS: u32 = 60;

/// Whether a delivery of a time of day is due at another.
pub open spec fn is_due(target: int, second: int, send_missed: bool) -> bool {
    target <= second && (send_missed || second < target + DUE_SECONDS)
}

/// The delivery that is due on a local date, so many seconds after its start.
pub open spec fn delivery_at(date: DateView, second: int, send_missed: bool) -> Option<
    (DateView, DailyKind),
> {
    if is_due(EVENING as int, second, send_missed) {
        Some((date_numbered(date.day_number() + 1), DailyKind::Tomorrow))
    } else if is_due(MORNING as int, second, send_missed) {
        Some((date, DailyKind::Today))
    } else {
        None
    }
}

/// The contents of a delivery.
pub open spec fn delivery_view(delivery: Option<(Date, DailyKind)>) -> Option<
    (DateView, DailyKind),
> {
    match delivery {
        Some((date, kind)) => Some((date@, kind)),
        None => None,
    }
}

/// The delivery that is due at a local time. The calendar must go on after its date.
pub fn due_daily_delivery(now: LocalTime, send_missed: bool) -> (r: Option<(Date, DailyKind)>)
    requires
        now@.date.day_number() < last_day_number(),
    ensures
        delivery_view(r) == delivery_at(now@.date, now@.second, send_missed),
{
    let date = now.date;
    let second: u32 = now.second;
    if EVENING <= second && (send_missed || second < EVENING + DUE_SECONDS) {
        date.check();
        proof {
            crate::date::lemma_day_number_range(date@);
        }
        match date.checked_add_days(1) {
            Some(next) => {
                proof {
                    day_number_names_one_date(next@);
                }
                Some((next, DailyKind::Tomorrow))
            },
            None => None,
        }
    } else if MORNING <= second && (send_missed || second < MORNING + DUE_SECONDS) {
        Some((date, DailyKind::Today))
    } else {
        None
    }
}

/// A clock that is looked at once a minute or more often misses no delivery: the first look at or
/// after the time finds it due.
pub proof fn frequent_looks_miss_no_delivery(
    date: DateView,
    before: int,
    after: int,
    send_missed: bool,
)
    requires
        before < after <= before + DUE_SECONDS,
    ensures
        before < MORNING <= after ==> delivery_at(date, after, send_missed) == Some(
            (date, DailyKind::Today),
        ),
        before < EVENING <= after ==> delivery_at(date, after, send_missed) == Some(
            (date_numbered(date.day_number() + 1), DailyKind::Tomorrow),
        ),
{
}

/// Without the missed ones, a delivery is due for a minute only: nothing is sent late after a
/// restart.
pub proof fn missed_deliveries_stay_missed(date: DateView, second: int)
    requires
        !(MORNING <= second < MORNING + DUE_SECONDS),
        !(EVENING <= second < EVENING + DUE_SECONDS),
    ensures
        delivery_at(date, second, false) is None,
{
}

/// What follows a try to put the daily messages in the queue.
#[derive(Debug, Clone, Copy, PartialEq, Eq)]
pub struct EnqueueOutcome {
    /// How many messages to count.
    pub counted: u64,
    /// Whether to note the time as that of a success.
    pub succeeded: bool,
}

/// What follows a try to put the daily messages in the queue: `queued` is how many went there, or
/// nothing where it failed.
pub fn after_enqueue(queued: Option<u64>) -> (r: EnqueueOutcome)
    ensures
        r == (EnqueueOutcome {
            counted: match queued {
                Some(n) => n,
                None => 0,
            },
            succeeded: queued is Some,
        }),
{
    match queued {
        Some(n) => EnqueueOutcome { counted: n, succeeded: true },
        None => EnqueueOutcome { counted: 0, succeeded: false },
    }
}

/// How many messages are taken from the queue at a time.
pub const OUTBOX_BATCH_SIZE: i64 = 100;

/// What follows a try to send a message of the queue. `T` is the type of texts.
#[derive(Debug, PartialEq, Eq)]
pub enum Mark<T> {
    Sent { id: i64 },
    Failed { id: i64, error: T },
}

impl View for Mark<String> {
    type V = Mark<Seq<char>>;

    open spec fn view(&self) -> Mark<Seq<char>> {
        match *self {
            Mark::Sent { id } => Mark::Sent { id },
            Mark::Failed { id, error } => Mark::Failed { id, error: error@ },
        }
    }
}

/// What follows a try to send a message: which metric counts it and how it is marked; `error` is
/// why it failed, if it did.
pub open spec fn sending_marked(id: i64, error: Option<Seq<char>>) -> (Metric, Mark<Seq<char>>) {
    match error {
        None => (Metric::OutboxSent, Mark::Sent { id }),
        Some(error) => (Metric::OutboxFailed, Mark::Failed { id, error: clipped(error) }),
    }
}

/// What follows a try to send a message: which metric counts it and how it is marked.
pub fn after_sending(id: i64, error: Option<&str>) -> (r: (Metric, Mark<String>))
    ensures
        (r.0, r.1@) == sending_marked(id, crate::text::str_of(error)),
{
    match error {
        None => (Metric::OutboxSent, Mark::Sent { id }),
        Some(error) => (Metric::OutboxFailed, Mark::Failed { id, error: clip_error(error) }),
    }
}

/// How often the service tries to reach a store when it starts.
pub const CONNECT_ATTEMPTS: u32 = 12;

/// How many seconds it waits after a try that failed.
pub const CONNECT_PAUSE_SECONDS: u64 = 5;

/// Whether to try again after the given try, the first being 1, has failed.
pub fn tries_again(attempt: u32) -> (r: bool)
    ensures
        r == (attempt < CONNECT_ATTEMPTS),
{
    attempt < CONNECT_ATTEMPTS
}

/// The port that a setting names, 3000 where there is none.
pub open spec fn port_of(setting: Option<Seq<char>>) -> Option<int> {
    match setting {
        None => Some(3_000),
        Some(text) => unsigned_number(text, 65_535),
    }
}

/// The port that a setting names, 3000 where there is none.
pub fn parse_port(setting: Option<&str>) -> (r: Option<u16>)
    ensures
        match r {
            Some(port) => port_of(crate::text::str_of(setting)) == Some(port as int),
            None => port_of(crate::text::str_of(setting)) is None,
        },
{
    match setting {
        None => Some(3_000),
        Some(text) => match parse_unsigned(text, 65_535) {
            Some(port) => Some(port as u16),
            None => None,
        },
    }
}

/// The message about a setting that is missing.
pub fn missing_setting(name: &str) -> (r: String)
    ensures
        r@ == "не задана переменная окружения "@ + name@,
{
    concat2("не задана переменная окружения ", name)
}

/// The status of the health page: 200 where both stores answer, else 503.
pub fn health_status(store_answers: bool, limiter_answers: bool) -> (r: u16)
    ensures
        r == if store_answers && limiter_answers {
            200u16
        } else {
            503
        },
{
    if store_answers && limiter_answers {
        200
    } else {
        503
    }
}

} // verus!
