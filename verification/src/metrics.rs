//! Counters of the running process, and their text for a monitoring system.

use crate::stats::Metric;
use crate::text::{decimal, decimal_text, signed_decimal, signed_decimal_text};
use vstd::prelude::*;

verus! {

/// What the process keeps a number for.
#[derive(Debug, Clone, Copy, PartialEq, Eq, Structural)]
pub enum Counter {
    RateLimited,
    OutboxSent,
    OutboxFailed,
    DailyEnqueued,
    /// When the daily messages were last put in the queue, in seconds since 1970.
    SchedulerLastSuccess,
}

/// The numbers of the process.
#[derive(Debug, Clone, Copy)]
pub struct Counters {
    pub rate_limited: u64,
    pub outbox_sent: u64,
    pub outbox_failed: u64,
    pub daily_enqueued: u64,
    pub scheduler_last_success: u64,
}

/// The number of a counter.
pub open spec fn value_of(counters: Counters, counter: Counter) -> u64 {
    match counter {
        Counter::RateLimited => counters.rate_limited,
        Counter::OutboxSent => counters.outbox_sent,
        Counter::OutboxFailed => counters.outbox_failed,
        Counter::DailyEnqueued => counters.daily_enqueued,
        Counter::SchedulerLastSuccess => counters.scheduler_last_success,
    }
}

/// The number of a counter.
pub fn read(counters: &Counters, counter: Counter) -> (r: u64)
    ensures
        r == value_of(*counters, counter),
{
    match counter {
        Counter::RateLimited => counters.rate_limited,
        Counter::OutboxSent => counters.outbox_sent,
        Counter::OutboxFailed => counters.outbox_failed,
        Counter::DailyEnqueued => counters.daily_enqueued,
        Counter::SchedulerLastSuccess => counters.scheduler_last_success,
    }
}

/// The counter of a metric, where the process keeps one.
pub open spec fn counter_of(metric: Metric) -> Option<Counter> {
    match metric {
        Metric::RateLimited => Some(Counter::RateLimited),
        Metric::OutboxSent => Some(Counter::OutboxSent),
        Metric::OutboxFailed => Some(Counter::OutboxFailed),
        Metric::DailyEnqueued => Some(Counter::DailyEnqueued),
        Metric::Commands => None,
    }
}

/// A sum of 64 bits, where what is too large begins again at 0.
pub open spec fn wrapped(a: u64, b: u64) -> int {
    (a + b) % 0x1_0000_0000_0000_0000
}

fn wrapping_sum(a: u64, b: u64) -> (r: u64)
    ensures
        r == wrapped(a, b),
{
    ((a as u128 + b as u128) % 0x1_0000_0000_0000_0000) as u64
}

impl Counters {
    /// All numbers at 0.
    pub fn new() -> (r: Counters)
        ensures
            forall|counter: Counter| value_of(r, counter) == 0,
    {
        Counters {
            rate_limited: 0,
            outbox_sent: 0,
            outbox_failed: 0,
            daily_enqueued: 0,
            scheduler_last_success: 0,
        }
    }

    /// Counts events of a metric; no other number changes.
    pub fn record(&mut self, metric: Metric, amount: u64)
        ensures
            forall|counter: Counter| #[trigger]
                value_of(*final(self), counter) == if counter_of(metric) == Some(counter) {
                    wrapped(value_of(*old(self), counter), amount)
                } else {
                    value_of(*old(self), counter) as int
                },
    {
        match metric {
            Metric::RateLimited => {
                self.rate_limited = wrapping_sum(self.rate_limited, amount);
            },
            Metric::OutboxSent => {
                self.outbox_sent = wrapping_sum(self.outbox_sent, amount);
            },
            Metric::OutboxFailed => {
                self.outbox_failed = wrapping_sum(self.outbox_failed, amount);
            },
            Metric::DailyEnqueued => {
                self.daily_enqueued = wrapping_sum(self.daily_enqueued, amount);
            },
            Metric::Commands => {},
        }
    }

    /// Notes when the daily messages were last put in the queue; no other number changes.
    pub fn set_scheduler_last_success(&mut self, timestamp: u64)
        ensures
            *final(self) == (Counters { scheduler_last_success: timestamp, ..*old(self) }),
    {
        self.scheduler_last_success = timestamp;
    }
}

/// When the daily messages were last put in the queue: as it is stored, else as this process knows
/// it.
pub fn scheduler_last_success(stored: Option<u64>, counters: &Counters) -> (r: u64)
    ensures
        r == match stored {
            Some(timestamp) => timestamp,
            None => value_of(*counters, Counter::SchedulerLastSuccess),
        },
{
    match stored {
        Some(timestamp) => timestamp,
        None => counters.scheduler_last_success,
    }
}

/// The type line and the value line of a metric.
pub open spec fn metric_lines(name: Seq<char>, kind: Seq<char>, value: Seq<char>) -> Seq<char> {
    "# TYPE "@ + name + " "@ + kind + "\n"@ + name + " "@ + value + "\n"@
}

fn push_metric(text: &mut String, name: &str, kind: &str, value: &str)
    ensures
        final(text)@ == old(text)@ + metric_lines(name@, kind@, value@),
{
    let ghost before = text@;
    text.append("# TYPE ");
    text.append(name);
    text.append(" ");
    text.append(kind);
    text.append("\n");
    text.append(name);
    text.append(" ");
    text.append(value);
    text.append("\n");
    assert(text@ =~= before + metric_lines(name@, kind@, value@));
}

/// The numbers of the process, with the number of waiting messages.
pub open spec fn metrics_page(counters: Counters, queued: int) -> Seq<char> {
    metric_lines(
        "schedule_rate_limited_total"@,
        "counter"@,
        decimal(counters.rate_limited as nat),
    ) + metric_lines(
        "schedule_outbox_sent_total"@,
        "counter"@,
        decimal(counters.outbox_sent as nat),
    ) + metric_lines(
        "schedule_outbox_failed_total"@,
        "counter"@,
        decimal(counters.outbox_failed as nat),
    ) + metric_lines(
        "schedule_daily_enqueued_total"@,
        "counter"@,
        decimal(counters.daily_enqueued as nat),
    ) + metric_lines("schedule_outbox_queued"@, "gauge"@, signed_decimal(queued)) + metric_lines(
        "schedule_worker_last_success_timestamp_seconds"@,
        "gauge"@,
        decimal(counters.scheduler_last_success as nat),
    )
}

/// The numbers of the process, with the number of waiting messages.
pub fn metrics_text(counters: &Counters, queued: i64) -> (r: String)
    ensures
        r@ == metrics_page(*counters, queued as int),
{
    let mut text = String::new();
    let limited = decimal_text(counters.rate_limited);
    push_metric(&mut text, "schedule_rate_limited_total", "counter", limited.as_str());
    assert(text@ =~= metric_lines(
        "schedule_rate_limited_total"@,
        "counter"@,
        decimal(counters.rate_limited as nat),
    ));
    let sent = decimal_text(counters.outbox_sent);
    push_metric(&mut text, "schedule_outbox_sent_total", "counter", sent.as_str());
    let failed = decimal_text(counters.outbox_failed);
    push_metric(&mut text, "schedule_outbox_failed_total", "counter", failed.as_str());
    let enqueued = decimal_text(counters.daily_enqueued);
    push_metric(&mut text, "schedule_daily_enqueued_total", "counter", enqueued.as_str());
    let waiting = signed_decimal_text(queued);
    push_metric(&mut text, "schedule_outbox_queued", "gauge", waiting.as_str());
    let success = decimal_text(counters.scheduler_last_success);
    push_metric(
        &mut text,
        "schedule_worker_last_success_timestamp_seconds",
        "gauge",
        success.as_str(),
    );
    text
}

} // verus!
