use schedule::dashboard::{background_color, dashboard_plan, scheduler_label, HEIGHT, WIDTH};
use schedule::date::UtcMinute;
use schedule::draw::Draw;
use schedule::stats::{
    aggregate_points, bucket_count, bucket_key, bucket_kind, bucket_number, bucket_series, dashboard,
    dashboard_keys, metric_at, record_keys, scheduler_key, DashboardData, Metric, Period, HOUR,
    MINUTE,
};

fn moment(seconds: i64) -> UtcMinute {
    UtcMinute::from_timestamp(seconds).unwrap()
}

#[test]
fn period_callback_values_round_trip() {
    for period in [
        Period::ThirtyMinutes,
        Period::Hour,
        Period::Day,
        Period::Week,
    ] {
        assert_eq!(Period::from_callback(period.callback()), Some(period));
    }
    assert_eq!(Period::from_callback("month"), None);
}

#[test]
fn dashboard_sums_series_and_aggregates_points() {
    let data = DashboardData::from_bucket_values(
        Period::Hour,
        [
            vec![1, 2, 3, 4],
            vec![0; 4],
            vec![2, 0, 1, 0],
            vec![0; 4],
            vec![1; 4],
        ],
        7,
        0,
        moment(1_700_000_000),
    );
    assert_eq!(data.totals, [10, 0, 3, 0, 4]);
    assert_eq!(data.points[0], vec![1, 2, 3, 4]);
    assert_eq!(data.queued, 7);
}

#[test]
fn metrics_have_names_labels_and_colors() {
    let names: Vec<&str> = (0..5).map(|index| metric_at(index).as_str()).collect();
    assert_eq!(
        names,
        vec!["commands", "rate_limited", "outbox_sent", "outbox_failed", "daily_enqueued"]
    );
    assert_eq!(Metric::DailyEnqueued.label(), "Поставлено в очередь");
    assert_eq!(Metric::Commands.label(), "Действия");
    assert_eq!(Metric::RateLimited.label(), "Антиспам");
    assert_eq!(Metric::OutboxSent.label(), "Отправлено");
    assert_eq!(Metric::OutboxFailed.label(), "Ошибки отправки");
    assert_eq!(Metric::OutboxFailed.color(), (255, 93, 108));
    assert_eq!(Metric::DailyEnqueued.color(), (170, 133, 255));
}

#[test]
fn periods_have_lengths() {
    assert_eq!(Period::ThirtyMinutes.seconds(), 1_800);
    assert_eq!(Period::Hour.seconds(), 3_600);
    assert_eq!(Period::Day.seconds(), 86_400);
    assert_eq!(Period::Week.seconds(), 604_800);
    assert_eq!(Period::Day.bucket_seconds(), MINUTE);
    assert_eq!(Period::Week.bucket_seconds(), HOUR);
    assert_eq!(Period::Week.label(), "7 дней");
    assert_eq!(bucket_count(Period::ThirtyMinutes), 31);
    assert_eq!(bucket_count(Period::Week), 169);
}

#[test]
fn long_series_are_drawn_in_fewer_points() {
    let values: Vec<u64> = (1..=10).collect();
    assert_eq!(aggregate_points(&values, 4), vec![3, 12, 13, 27]);
    let sum: u64 = aggregate_points(&values, 3).iter().sum();
    assert_eq!(sum, 55);
    assert_eq!(aggregate_points(&vec![5, 6], 4), vec![5, 5, 6, 6]);
    assert_eq!(aggregate_points(&values, 0), Vec::<u64>::new());
    assert_eq!(aggregate_points(&Vec::new(), 3), Vec::<u64>::new());
}

#[test]
fn points_are_capped() {
    let values: [Vec<u64>; 5] = std::array::from_fn(|_| vec![1; 1_441]);
    let data = DashboardData::from_bucket_values(Period::Day, values, -1, 5, moment(0));
    assert_eq!(data.points[4].len(), 120);
    assert_eq!(data.points[4].iter().sum::<u64>(), 1_441);
    assert_eq!(data.totals[4], 1_441);
}

#[test]
fn keys_name_kind_bucket_and_metric() {
    assert_eq!(
        bucket_key("minute", 28_333_333, Metric::Commands),
        "schedule:stats:v1:minute:28333333:commands"
    );
    assert_eq!(
        bucket_key("hour", -1, Metric::OutboxSent),
        "schedule:stats:v1:hour:-1:outbox_sent"
    );
    assert_eq!(bucket_kind(HOUR), "hour");
    assert_eq!(bucket_kind(MINUTE), "minute");
    assert_eq!(bucket_number(-1, 60), -1);
    assert_eq!(bucket_number(119, 60), 1);
    assert_eq!(scheduler_key(), "schedule:stats:v1:scheduler_last_success");
}

#[test]
fn recorded_event_is_among_the_keys_of_the_dashboard() {
    let then: i64 = 1_700_000_000;
    for period in [Period::ThirtyMinutes, Period::Hour, Period::Day, Period::Week] {
        let recorded = record_keys(Metric::RateLimited, 1, then).unwrap();
        let key = if period == Period::Week {
            recorded.hour
        } else {
            recorded.minute
        };
        for now in [then, then + period.seconds() / 2, then + period.seconds()] {
            assert!(dashboard_keys(period, now).contains(&key));
        }
    }
    assert!(record_keys(Metric::RateLimited, 0, then).is_none());
}

#[test]
fn keys_come_bucket_by_bucket() {
    let keys = dashboard_keys(Period::Hour, 3_600);
    assert_eq!(keys.len(), 305);
    assert_eq!(keys[0], "schedule:stats:v1:minute:0:commands");
    assert_eq!(keys[4], "schedule:stats:v1:minute:0:daily_enqueued");
    assert_eq!(keys[5], "schedule:stats:v1:minute:1:commands");
    assert_eq!(keys[304], "schedule:stats:v1:minute:60:daily_enqueued");
}

#[test]
fn stored_values_become_series() {
    let mut values: Vec<Option<u64>> = vec![None; 31 * 5];
    values[0] = Some(3);
    values[5] = Some(4);
    values[31 * 5 - 1] = Some(9);
    let series = bucket_series(&values, 31);
    assert_eq!(series[0][0], 3);
    assert_eq!(series[0][1], 4);
    assert_eq!(series[4][30], 9);
    let data = dashboard(Period::ThirtyMinutes, &values, 2, 0, moment(0)).unwrap();
    assert_eq!(data.totals, [7, 0, 0, 0, 9]);
    assert_eq!(data.points[0].len(), 31);
    values[10] = Some(u64::MAX);
    assert!(dashboard(Period::ThirtyMinutes, &values, 2, 0, moment(0)).is_none());
    // Missing values count as none.
    let empty = dashboard(Period::Hour, &Vec::new(), 0, 0, moment(0)).unwrap();
    assert_eq!(empty.totals, [0; 5]);
}

#[test]
fn last_success_is_told_in_words() {
    assert_eq!(scheduler_label(0, None), "последний запуск не записан");
    assert_eq!(scheduler_label(1, None), "время запуска неизвестно");
    assert_eq!(
        scheduler_label(1_700_000_000, Some(moment(1_700_000_000))),
        "успешный запуск: 14.11 22:13 UTC"
    );
}

fn texts(plan: &[Draw]) -> Vec<&str> {
    plan.iter()
        .filter_map(|draw| match draw {
            Draw::Text { text, .. } => Some(text.as_str()),
            _ => None,
        })
        .collect()
}

#[test]
fn dashboard_is_drawn_from_its_data() {
    let data = DashboardData::from_bucket_values(
        Period::Day,
        [vec![1, 2], vec![3, 4], vec![5, 6], vec![7, 8], vec![9, 10]],
        -1,
        u64::MAX,
        moment(1_700_000_000),
    );
    let plan = dashboard_plan(&data);
    assert_eq!(plan.len(), 50);
    assert_eq!(
        plan[0],
        Draw::Text {
            x: 56,
            y: 42,
            size: 24,
            color: (147, 162, 183),
            text: "SCHEDULE BOT  /  ОПЕРАЦИОННАЯ СВОДКА".to_owned()
        }
    );
    assert_eq!(
        plan[8],
        Draw::FilledRect {
            x: 548,
            y: 208,
            width: 476,
            height: 108,
            color: (25, 36, 54)
        }
    );
    let texts = texts(&plan);
    assert_eq!(texts[2], "Период: 24 часа");
    assert_eq!(texts[3..11], ["Действия", "3", "Отправлено", "11", "Ошибки отправки", "15", "Антиспам", "7"]);
    assert!(texts.contains(&"—"));
    assert_eq!(
        texts[texts.len() - 1],
        "Обновлено 14.11.2023 22:13 UTC  ·  Планировщик: успешный запуск: 31.12 23:59 UTC"
    );
    assert_eq!(
        plan[48],
        Draw::Series {
            x: 405,
            y: 967,
            width: 574,
            height: 52,
            color: (170, 133, 255),
            values: vec![9, 10]
        }
    );
    assert_eq!((WIDTH, HEIGHT), (1_080, 1_180));
    assert_eq!(background_color(), (15, 22, 35));
}
