use schedule::clock::{local_at, local_time, LocalTime};
use schedule::date::Date;
use schedule::format::DailyKind;
use schedule::metrics::{metrics_text, read, scheduler_last_success, Counter, Counters};
use schedule::service::{
    after_enqueue, after_sending, due_daily_delivery, health_status, missing_setting, parse_port,
    tries_again, EnqueueOutcome, Mark, CONNECT_ATTEMPTS,
};
use schedule::stats::Metric;

use chrono::TimeZone;

fn moscow(year: i32, month: u32, day: u32, hour: u32, minute: u32, second: u32) -> LocalTime {
    let moment = chrono_tz::Europe::Moscow
        .with_ymd_and_hms(year, month, day, hour, minute, second)
        .single()
        .unwrap();
    local_time("Europe/Moscow", moment.timestamp()).unwrap()
}

#[test]
fn selects_morning_delivery_at_seven_local_time() {
    let before = moscow(2026, 9, 25, 6, 59, 59);
    let due = moscow(2026, 9, 25, 7, 0, 0);
    assert_eq!(due_daily_delivery(before, false), None);
    assert_eq!(
        due_daily_delivery(due, false),
        Some((
            Date::from_ymd_opt(2026, 9, 25).unwrap(),
            DailyKind::Today
        ))
    );
}

#[test]
fn selects_tomorrow_delivery_at_nine_local_time() {
    let due = moscow(2026, 9, 25, 21, 0, 0);
    assert_eq!(
        due_daily_delivery(due, false),
        Some((
            Date::from_ymd_opt(2026, 9, 26).unwrap(),
            DailyKind::Tomorrow
        ))
    );
}

#[test]
fn skips_missed_delivery_after_service_restart_by_default() {
    let late = moscow(2026, 9, 25, 8, 0, 0);
    assert_eq!(due_daily_delivery(late, false), None);
    assert!(due_daily_delivery(late, true).is_some());
}

#[test]
fn deliveries_are_due_for_a_minute() {
    assert!(due_daily_delivery(moscow(2026, 9, 25, 7, 0, 59), false).is_some());
    assert_eq!(due_daily_delivery(moscow(2026, 9, 25, 7, 1, 0), false), None);
    assert_eq!(due_daily_delivery(moscow(2026, 9, 25, 23, 0, 0), false), None);
    assert_eq!(
        due_daily_delivery(moscow(2026, 12, 31, 23, 0, 0), true),
        Some((
            Date::from_ymd_opt(2027, 1, 1).unwrap(),
            DailyKind::Tomorrow
        ))
    );
    assert_eq!(due_daily_delivery(moscow(2026, 9, 25, 6, 0, 0), true), None);
}

#[test]
fn zones_move_the_clock() {
    // 1 January 2024, 22:30 in UTC.
    let seconds = 1_704_148_200;
    let there = local_time("Europe/Moscow", seconds).unwrap();
    assert_eq!(there.date, Date::from_ymd_opt(2024, 1, 2).unwrap());
    assert_eq!(there.second, 5_400);
    let west = local_time("America/New_York", seconds).unwrap();
    assert_eq!(west.date, Date::from_ymd_opt(2024, 1, 1).unwrap());
    assert_eq!(west.second, 17 * 3_600 + 1_800);
    assert_eq!(local_time("Europe/Nowhere", seconds), None);
    assert_eq!(local_at(-1, 0).unwrap().second, 86_399);
    assert_eq!(local_at(i64::MAX, 0), None);
}

#[test]
fn counters_follow_their_metrics() {
    let mut counters = Counters::new();
    counters.record(Metric::RateLimited, 2);
    counters.record(Metric::OutboxSent, 3);
    counters.record(Metric::OutboxFailed, 4);
    counters.record(Metric::DailyEnqueued, 5);
    counters.record(Metric::Commands, 6);
    counters.record(Metric::RateLimited, u64::MAX);
    counters.set_scheduler_last_success(1_700_000_000);
    assert_eq!(read(&counters, Counter::RateLimited), 1);
    assert_eq!(read(&counters, Counter::OutboxSent), 3);
    assert_eq!(read(&counters, Counter::OutboxFailed), 4);
    assert_eq!(read(&counters, Counter::DailyEnqueued), 5);
    assert_eq!(read(&counters, Counter::SchedulerLastSuccess), 1_700_000_000);
    assert_eq!(scheduler_last_success(None, &counters), 1_700_000_000);
    assert_eq!(scheduler_last_success(Some(7), &counters), 7);
    assert_eq!(
        metrics_text(&counters, -1),
        "# TYPE schedule_rate_limited_total counter\nschedule_rate_limited_total 1\n\
         # TYPE schedule_outbox_sent_total counter\nschedule_outbox_sent_total 3\n\
         # TYPE schedule_outbox_failed_total counter\nschedule_outbox_failed_total 4\n\
         # TYPE schedule_daily_enqueued_total counter\nschedule_daily_enqueued_total 5\n\
         # TYPE schedule_outbox_queued gauge\nschedule_outbox_queued -1\n\
         # TYPE schedule_worker_last_success_timestamp_seconds gauge\nschedule_worker_last_success_timestamp_seconds 1700000000\n"
    );
}

#[test]
fn queue_is_marked_by_what_happened() {
    assert_eq!(after_sending(4, None), (Metric::OutboxSent, Mark::Sent { id: 4 }));
    let long = "ы".repeat(700);
    assert_eq!(
        after_sending(5, Some(&long)),
        (
            Metric::OutboxFailed,
            Mark::Failed {
                id: 5,
                error: "ы".repeat(500)
            }
        )
    );
    assert_eq!(
        after_enqueue(Some(0)),
        EnqueueOutcome {
            counted: 0,
            succeeded: true
        }
    );
    assert_eq!(
        after_enqueue(None),
        EnqueueOutcome {
            counted: 0,
            succeeded: false
        }
    );
    assert_eq!(after_enqueue(Some(9)).counted, 9);
}

#[test]
fn settings_are_read() {
    assert_eq!(parse_port(None), Some(3_000));
    assert_eq!(parse_port(Some("8080")), Some(8_080));
    assert_eq!(parse_port(Some("+80")), Some(80));
    assert_eq!(parse_port(Some("65535")), Some(65_535));
    assert_eq!(parse_port(Some("65536")), None);
    assert_eq!(parse_port(Some("порт")), None);
    assert_eq!(parse_port(Some("")), None);
    assert_eq!(
        missing_setting("REDIS_URL"),
        "не задана переменная окружения REDIS_URL"
    );
    assert!(tries_again(1));
    assert!(!tries_again(CONNECT_ATTEMPTS));
    assert_eq!(health_status(true, true), 200);
    assert_eq!(health_status(true, false), 503);
    assert_eq!(health_status(false, true), 503);
}
