//! Counting events in time buckets, and the dashboard that shows them.


use crate::date::UtcMinute;
use crate::text::{concat3, same_text, signed_decimal, signed_decimal_text, texts};
use vstd::prelude::*;

verus! {

/// Seconds of a minute.
pub const MINUTE: i64 = 60;

/// Seconds of an hour.
pub const HOUR: i64 = 3_600;

/// How many seconds a bucket of one minute is kept.
pub const MINUTE_TTL: i64 = 172_800;

/// How many seconds a bucket of one hour is kept.
pub const HOUR_TTL: i64 = 777_600;

/// How many metrics there are.
pub const METRIC_COUNT: usize = 5;

/// How many points a series has at most.
pub const MAX_POINTS: usize = 120;

/// What is counted.
#[derive(Debug, Clone, Copy, PartialEq, Eq, Structural)]
pub enum Metric {
    Commands,
    RateLimited,
    OutboxSent,
    OutboxFailed,
    DailyEnqueued,
}

/// The metric with a given place in the order of the dashboard.
pub open spec fn metric_number(index: int) -> Metric {
    if index == 0 {
        Metric::Commands
    } else if index == 1 {
        Metric::RateLimited
    } else if index == 2 {
        Metric::OutboxSent
    } else if index == 3 {
        Metric::OutboxFailed
    } else {
        Metric::DailyEnqueued
    }
}

/// The metric with a given place in the order of the dashboard.
pub fn metric_at(index: usize) -> (r: Metric)
    ensures
        r == metric_number(index as int),
{
    match index {
        0 => Metric::Commands,
        1 => Metric::RateLimited,
        2 => Metric::OutboxSent,
        3 => Metric::OutboxFailed,
        _ => Metric::DailyEnqueued,
    }
}

impl Metric {
    /// The name that the metric is stored under.
    pub open spec fn name(self) -> Seq<char> {
        match self {
            Metric::Commands => "commands"@,
            Metric::RateLimited => "rate_limited"@,
            Metric::OutboxSent => "outbox_sent"@,
            Metric::OutboxFailed => "outbox_failed"@,
            Metric::DailyEnqueued => "daily_enqueued"@,
        }
    }

    /// The name that the metric is stored under.
    pub fn as_str(self) -> (r: &'static str)
        ensures
            r@ == self.name(),
    {
        match self {
            Metric::Commands => "commands",
            Metric::RateLimited => "rate_limited",
            Metric::OutboxSent => "outbox_sent",
            Metric::OutboxFailed => "outbox_failed",
            Metric::DailyEnqueued => "daily_enqueued",
        }
    }

    /// The name that the dashboard shows.
    pub open spec fn title(self) -> Seq<char> {
        match self {
            Metric::Commands => "Действия"@,
            Metric::RateLimited => "Антиспам"@,
            Metric::OutboxSent => "Отправлено"@,
            Metric::OutboxFailed => "Ошибки отправки"@,
            Metric::DailyEnqueued => "Поставлено в очередь"@,
        }
    }

    /// The name that the dashboard shows.
    pub fn label(self) -> (r: &'static str)
        ensures
            r@ == self.title(),
    {
        match self {
            Metric::Commands => "Действия",
            Metric::RateLimited => "Антиспам",
            Metric::OutboxSent => "Отправлено",
            Metric::OutboxFailed => "Ошибки отправки",
            Metric::DailyEnqueued => "Поставлено в очередь",
        }
    }

    /// The red, green and blue that the dashboard draws the metric in.
    pub open spec fn rgb(self) -> (u8, u8, u8) {
        match self {
            Metric::Commands => (61, 154, 255),
            Metric::RateLimited => (255, 180, 72),
            Metric::OutboxSent => (67, 204, 150),
            Metric::OutboxFailed => (255, 93, 108),
            Metric::DailyEnqueued => (170, 133, 255),
        }
    }

    /// The red, green and blue that the dashboard draws the metric in.
    pub fn color(self) -> (r: (u8, u8, u8))
        ensures
            r == self.rgb(),
    {
        match self {
            Metric::Commands => (61, 154, 255),
            Metric::RateLimited => (255, 180, 72),
            Metric::OutboxSent => (67, 204, 150),
            Metric::OutboxFailed => (255, 93, 108),
            Metric::DailyEnqueued => (170, 133, 255),
        }
    }
}

/// How far back a dashboard looks.
#[derive(Debug, Clone, Copy, PartialEq, Eq, Structural)]
pub enum Period {
    ThirtyMinutes,
    Hour,
    Day,
    Week,
}

impl Period {
    /// The code of the period in a button.
    pub open spec fn code(self) -> Seq<char> {
        match self {
            Period::ThirtyMinutes => "30m"@,
            Period::Hour => "1h"@,
            Period::Day => "24h"@,
            Period::Week => "7d"@,
        }
    }

    /// The code of the period in a button.
    pub fn callback(self) -> (r: &'static str)
        ensures
            r@ == self.code(),
    {
        match self {
            Period::ThirtyMinutes => "30m",
            Period::Hour => "1h",
            Period::Day => "24h",
            Period::Week => "7d",
        }
    }

    /// The name that the dashboard shows.
    pub open spec fn title(self) -> Seq<char> {
        match self {
            Period::ThirtyMinutes => "30 минут"@,
            Period::Hour => "1 час"@,
            Period::Day => "24 часа"@,
            Period::Week => "7 дней"@,
        }
    }

    /// The name that the dashboard shows.
    pub fn label(self) -> (r: &'static str)
        ensures
            r@ == self.title(),
    {
        match self {
            Period::ThirtyMinutes => "30 минут",
            Period::Hour => "1 час",
            Period::Day => "24 часа",
            Period::Week => "7 дней",
        }
    }

    /// The length of the period in seconds.
    pub open spec fn span(self) -> int {
        match self {
            Period::ThirtyMinutes => 30 * MINUTE,
            Period::Hour => HOUR as int,
            Period::Day => 24 * HOUR,
            Period::Week => 7 * 24 * HOUR,
        }
    }

    /// The length of the period in seconds.
    pub fn seconds(self) -> (r: i64)
        ensures
            r == self.span(),
    {
        match self {
            Period::ThirtyMinutes => 30 * MINUTE,
            Period::Hour => HOUR,
            Period::Day => 24 * HOUR,
            Period::Week => 7 * 24 * HOUR,
        }
    }

    /// The period with a given code.
    pub open spec fn with_code(value: Seq<char>) -> Option<Period> {
        if value == "30m"@ {
            Some(Period::ThirtyMinutes)
        } else if value == "1h"@ {
            Some(Period::Hour)
        } else if value == "24h"@ {
            Some(Period::Day)
        } else if value == "7d"@ {
            Some(Period::Week)
        } else {
            None
        }
    }

    /// The period with a given code.
    pub fn from_callback(value: &str) -> (r: Option<Period>)
        ensures
            r == Period::with_code(value@),
    {
        if same_text(value, "30m") {
            Some(Period::ThirtyMinutes)
        } else if same_text(value, "1h") {
            Some(Period::Hour)
        } else if same_text(value, "24h") {
            Some(Period::Day)
        } else if same_text(value, "7d") {
            Some(Period::Week)
        } else {
            None
        }
    }

    /// The length in seconds of the buckets that a dashboard of the period is made of.
    pub open spec fn bucket_span(self) -> int {
        if self == Period::Week {
            HOUR as int
        } else {
            MINUTE as int
        }
    }

    /// The length in seconds of the buckets that a dashboard of the period is made of.
    pub fn bucket_seconds(self) -> (r: i64)
        ensures
            r == self.bucket_span(),
    {
        match self {
            Period::Week => HOUR,
            _ => MINUTE,
        }
    }
}

/// The code of a period leads back to the period.
pub proof fn period_code_round_trips(period: Period)
    ensures
        Period::with_code(period.code()) == Some(period),
{
    reveal_strlit("30m");
    reveal_strlit("1h");
    reveal_strlit("24h");
    reveal_strlit("7d");
    assert("1h"@.len() == 2 && "7d"@.len() == 2 && "30m"@.len() == 3 && "24h"@.len() == 3);
    assert("30m"@[0] == '3' && "24h"@[0] == '2' && "1h"@[0] == '1' && "7d"@[0] == '7');
}

/// No other text is the code of a period.
pub proof fn only_period_codes_are_read(value: Seq<char>)
    ensures
        Period::with_code(value) matches Some(period) ==> period.code() == value,
{
}

/// The sum of a series.
pub open spec fn total(values: Seq<u64>) -> int
    decreases values.len(),
{
    if values.len() == 0 {
        0
    } else {
        total(values.drop_last()) + values.last()
    }
}

proof fn lemma_total_split(values: Seq<u64>, at: int)
    requires
        0 <= at <= values.len(),
    ensures
        total(values) == total(values.take(at)) + total(values.skip(at)),
        total(values.take(at)) >= 0,
        total(values.skip(at)) >= 0,
    decreases values.len() - at,
{
    if at == values.len() {
        assert(values.take(at) =~= values);
        assert(values.skip(at) =~= Seq::empty());
        lemma_total_nonnegative(values);
    } else {
        let shorter = values.drop_last();
        lemma_total_split(shorter, at);
        assert(shorter.take(at) =~= values.take(at));
        assert(values.skip(at).drop_last() =~= shorter.skip(at));
    }
}

proof fn lemma_total_nonnegative(values: Seq<u64>)
    ensures
        total(values) >= 0,
    decreases values.len(),
{
    if values.len() > 0 {
        lemma_total_nonnegative(values.drop_last());
    }
}

proof fn lemma_part_is_smaller(values: Seq<u64>, from: int, to: int)
    requires
        0 <= from <= to <= values.len(),
    ensures
        0 <= total(values.subrange(from, to)) <= total(values),
{
    lemma_total_split(values, to);
    lemma_total_split(values.take(to), from);
    assert(values.take(to).skip(from) =~= values.subrange(from, to));
}

/// The sum of `values[from..to]`.
fn sum_range(values: &Vec<u64>, from: usize, to: usize) -> (r: u64)
    requires
        from <= to <= values@.len(),
        total(values@) <= u64::MAX,
    ensures
        r == total(values@.subrange(from as int, to as int)),
{
    let mut sum: u64 = 0;
    let mut i: usize = from;
    assert(values@.subrange(from as int, from as int) =~= Seq::empty());
    while i < to
        invariant
            from <= i <= to <= values@.len(),
            total(values@) <= u64::MAX,
            sum == total(values@.subrange(from as int, i as int)),
        decreases to - i,
    {
        proof {
            let longer = values@.subrange(from as int, i + 1);
            assert(longer.drop_last() =~= values@.subrange(from as int, i as int));
            assert(longer.last() == values@[i as int]);
            lemma_part_is_smaller(values@, from as int, i + 1);
        }
        sum = sum + values[i];
        i += 1;
    }
    sum
}

/// Where point `point` of `count` begins in a series of `len` values.
pub open spec fn point_start(len: int, count: int, point: int) -> int {
    point * len / count
}

/// Where point `point` of `count` ends in a series of `len` values: it takes one value at least.
pub open spec fn point_end(len: int, count: int, point: int) -> int {
    if point_start(len, count, point + 1) > point_start(len, count, point) {
        point_start(len, count, point + 1)
    } else {
        point_start(len, count, point) + 1
    }
}

/// A series drawn in at most `count` points: the sums of `count` neighbouring stretches.
pub open spec fn points_of(values: Seq<u64>, count: int) -> Seq<int> {
    if count <= 0 || values.len() == 0 {
        seq![]
    } else {
        Seq::new(
            count as nat,
            |point: int|
                total(
                    values.subrange(
                        point_start(values.len() as int, count, point),
                        point_end(values.len() as int, count, point),
                    ),
                ),
        )
    }
}

/// The contents of a list of numbers.
pub open spec fn numbers(values: Seq<u64>) -> Seq<int> {
    values.map_values(|value: u64| value as int)
}

proof fn lemma_point_bounds(len: int, count: int, point: int)
    requires
        len > 0,
        count > 0,
        0 <= point < count,
    ensures
        0 <= point_start(len, count, point) < len,
        point_start(len, count, point) < point_end(len, count, point) <= len,
        0 <= point * len <= count * len,
        0 <= (point + 1) * len <= count * len,
{
    assert(0 <= point * len && point * len < count * len && point * len + len == (point + 1) * len
        && (point + 1) * len <= count * len) by (nonlinear_arith)
        requires
            len > 0,
            count > 0,
            0 <= point < count,
    ;
    vstd::arithmetic::div_mod::lemma_div_is_ordered(0, point * len, count);
    vstd::arithmetic::div_mod::lemma_div_is_ordered((point + 1) * len, count * len, count);
    vstd::arithmetic::div_mod::lemma_div_multiples_vanish(len, count);
    assert(count * len / count == len);
    assert(point * len / count < len) by (nonlinear_arith)
        requires
            count > 0,
            point * len < count * len,
    ;
}

/// A series drawn in `point_count` points.
pub fn aggregate_points(values: &Vec<u64>, point_count: usize) -> (r: Vec<u64>)
    requires
        total(values@) <= u64::MAX,
        point_count * values@.len() <= usize::MAX,
    ensures
        numbers(r@) == points_of(values@, point_count as int),
{
    let mut r: Vec<u64> = Vec::new();
    if point_count == 0 || values.len() == 0 {
        assert(numbers(r@) =~= seq![]);
        return r;
    }
    let len: usize = values.len();
    let mut point: usize = 0;
    while point < point_count
        invariant
            point <= point_count,
            len == values@.len(),
            len > 0,
            point_count * len <= usize::MAX,
            total(values@) <= u64::MAX,
            r@.len() == point,
            forall|p: int|
                0 <= p < point ==> r@[p] == total(
                    values@.subrange(
                        point_start(len as int, point_count as int, p),
                        point_end(len as int, point_count as int, p),
                    ),
                ),
        decreases point_count - point,
    {
        proof {
            lemma_point_bounds(len as int, point_count as int, point as int);
        }
        let start: usize = point * len / point_count;
        let next: usize = (point + 1) * len / point_count;
        let end: usize = if next > start {
            next
        } else {
            start + 1
        };
        r.push(sum_range(values, start, end));
        point += 1;
    }
    assert(numbers(r@) =~= points_of(values@, point_count as int));
    r
}

/// The sum of a list of integers.
pub open spec fn int_total(values: Seq<int>) -> int
    decreases values.len(),
{
    if values.len() == 0 {
        0
    } else {
        int_total(values.drop_last()) + values.last()
    }
}

proof fn lemma_points_add_up(values: Seq<u64>, count: int, n: int)
    requires
        0 < count <= values.len(),
        0 <= n <= count,
    ensures
        0 <= point_start(values.len() as int, count, n) <= values.len(),
        int_total(points_of(values, count).take(n)) == total(
            values.take(point_start(values.len() as int, count, n)),
        ),
    decreases n,
{
    let len = values.len() as int;
    let points = points_of(values, count);
    if n == 0 {
        assert(0 * len / count == 0) by (nonlinear_arith)
            requires
                count > 0,
        ;
        assert(values.take(0) =~= Seq::empty());
        assert(points.take(0) =~= Seq::empty());
    } else {
        lemma_points_add_up(values, count, n - 1);
        lemma_point_bounds(len, count, n - 1);
        let start = point_start(len, count, n - 1);
        let end = point_start(len, count, n);
        assert(start < end) by {
            assert((n - 1) * len + len == n * len) by (nonlinear_arith);
            vstd::arithmetic::div_mod::lemma_div_is_ordered(
                (n - 1) * len + count,
                n * len,
                count,
            );
            vstd::arithmetic::div_mod::lemma_div_plus_one((n - 1) * len, count);
        }
        assert(end == point_end(len, count, n - 1));
        assert(points.take(n).drop_last() =~= points.take(n - 1));
        assert(points.take(n).last() == points[n - 1]);
        lemma_total_split(values.take(end), start);
        assert(values.take(end).take(start) =~= values.take(start));
        assert(values.take(end).skip(start) =~= values.subrange(start, end));
    }
}

/// Drawing a series in fewer points loses nothing: the points sum to the total.
pub proof fn points_sum_to_the_total(values: Seq<u64>, count: int)
    requires
        0 < count <= values.len(),
    ensures
        int_total(points_of(values, count)) == total(values),
        points_of(values, count).len() == count,
{
    let len = values.len() as int;
    lemma_points_add_up(values, count, count);
    vstd::arithmetic::div_mod::lemma_div_multiples_vanish(len, count);
    assert(points_of(values, count).take(count) =~= points_of(values, count));
    assert(values.take(len) =~= values);
}

/// A series that has as many values as points is drawn as it is.
pub proof fn short_series_is_drawn_as_it_is(values: Seq<u64>)
    requires
        values.len() > 0,
    ensures
        points_of(values, values.len() as int) == numbers(values),
{
    let len = values.len() as int;
    let points = points_of(values, len);
    assert forall|p: int| 0 <= p < len implies points[p] == values[p] by {
        vstd::arithmetic::div_mod::lemma_div_multiples_vanish(p, len);
        vstd::arithmetic::div_mod::lemma_div_multiples_vanish(p + 1, len);
        assert(p * len == len * p) by (nonlinear_arith);
        assert((p + 1) * len == len * (p + 1)) by (nonlinear_arith);
        assert(values.subrange(p, p + 1) =~= seq![values[p]]);
        assert(seq![values[p]].drop_last() =~= Seq::empty());
        assert(total(seq![values[p]]) == values[p]) by {
            reveal_with_fuel(total, 2);
        }
    }
    assert(points =~= numbers(values));
}

/// What a dashboard shows.
#[derive(Debug, Clone)]
pub struct DashboardData {
    pub period: Period,
    pub totals: [u64; 5],
    pub points: [Vec<u64>; 5],
    pub queued: i64,
    pub scheduler_last_success: u64,
    pub generated_at: UtcMinute,
}

/// The number of points that series of `len` values are drawn in.
pub open spec fn point_count(len: int) -> int {
    if len < MAX_POINTS {
        len
    } else {
        MAX_POINTS as int
    }
}

/// The totals and points of `data` are those of `series`.
pub open spec fn shows_series(data: DashboardData, series: Seq<Vec<u64>>) -> bool {
    forall|i: int|
        #![trigger data.totals@[i]]
        #![trigger data.points@[i]]
        0 <= i < METRIC_COUNT ==> data.totals@[i] == total(series[i]@) && numbers(data.points@[i]@)
            == points_of(series[i]@, point_count(series[0]@.len() as int))
}

/// Neither a total nor a place in the series outgrows the machine's numbers.
pub open spec fn series_fit(series: Seq<Vec<u64>>) -> bool {
    forall|i: int|
        0 <= i < METRIC_COUNT ==> total(#[trigger] series[i]@) <= u64::MAX && MAX_POINTS
            * series[i]@.len() <= usize::MAX
}

/// The total of a series.
fn sum(values: &Vec<u64>) -> (r: u64)
    requires
        total(values@) <= u64::MAX,
    ensures
        r == total(values@),
{
    let len: usize = values.len();
    assert(values@.subrange(0, len as int) =~= values@);
    sum_range(values, 0, len)
}

impl DashboardData {
    /// The dashboard of five series of bucket counts, in the order of the metrics.
    pub fn from_bucket_values(
        period: Period,
        bucket_values: [Vec<u64>; 5],
        queued: i64,
        scheduler_last_success: u64,
        generated_at: UtcMinute,
    ) -> (r: DashboardData)
        requires
            series_fit(bucket_values@),
        ensures
            shows_series(r, bucket_values@),
            r.period == period,
            r.queued == queued,
            r.scheduler_last_success == scheduler_last_success,
            r.generated_at == generated_at,
    {
        let len: usize = bucket_values[0].len();
        let points: usize = if len < MAX_POINTS {
            len
        } else {
            MAX_POINTS
        };
        proof {
            let series = bucket_values@;
            assert forall|i: int| 0 <= i < METRIC_COUNT implies points * (
            #[trigger] series[i]@.len()) <= usize::MAX by {
                let n = series[i]@.len() as int;
                assert(points * n <= MAX_POINTS * n) by (nonlinear_arith)
                    requires
                        points <= MAX_POINTS,
                        n >= 0,
                ;
            }
        }
        let totals: [u64; 5] = [
            sum(&bucket_values[0]),
            sum(&bucket_values[1]),
            sum(&bucket_values[2]),
            sum(&bucket_values[3]),
            sum(&bucket_values[4]),
        ];
        let points: [Vec<u64>; 5] = [
            aggregate_points(&bucket_values[0], points),
            aggregate_points(&bucket_values[1], points),
            aggregate_points(&bucket_values[2], points),
            aggregate_points(&bucket_values[3], points),
            aggregate_points(&bucket_values[4], points),
        ];
        DashboardData { period, totals, points, queued, scheduler_last_success, generated_at }
    }
}

/// The name of the buckets of `step` seconds.
pub open spec fn kind_of_step(step: int) -> Seq<char> {
    if step == HOUR {
        "hour"@
    } else {
        "minute"@
    }
}

/// The name of the buckets of `step` seconds.
pub fn bucket_kind(step: i64) -> (r: &'static str)
    ensures
        r@ == kind_of_step(step as int),
{
    if step == HOUR {
        "hour"
    } else {
        "minute"
    }
}

/// The key that the count of `metric` in a bucket is stored under.
pub open spec fn key_of(kind: Seq<char>, bucket: int, metric: Metric) -> Seq<char> {
    "schedule:stats:v1:"@ + kind + ":"@ + signed_decimal(bucket) + ":"@ + metric.name()
}

/// The key that the count of `metric` in a bucket is stored under.
pub fn bucket_key(kind: &str, bucket: i64, metric: Metric) -> (r: String)
    ensures
        r@ == key_of(kind@, bucket as int, metric),
{
    let mut r = concat3("schedule:stats:v1:", kind, ":");
    let number = signed_decimal_text(bucket);
    r.append(number.as_str());
    r.append(":");
    r.append(metric.as_str());
    r
}

/// The key that the time of the last successful delivery is stored under.
pub fn scheduler_key() -> (r: &'static str)
    ensures
        r@ == "schedule:stats:v1:scheduler_last_success"@,
{
    "schedule:stats:v1:scheduler_last_success"
}

/// The bucket of `step` seconds that a moment lies in.
pub open spec fn bucket_at(seconds: int, step: int) -> int {
    seconds / step
}

proof fn lemma_bucket_range(seconds: int, step: int)
    requires
        step > 0,
    ensures
        seconds >= 0 ==> 0 <= bucket_at(seconds, step) <= seconds,
        seconds < 0 ==> seconds <= bucket_at(seconds, step) <= 0,
{
    let q = seconds / step;
    vstd::arithmetic::div_mod::lemma_fundamental_div_mod(seconds, step);
    assert(seconds >= 0 ==> 0 <= q <= seconds) by (nonlinear_arith)
        requires
            step > 0,
            seconds == step * q + seconds % step,
            0 <= seconds % step < step,
    ;
    assert(seconds < 0 ==> seconds <= q <= 0) by (nonlinear_arith)
        requires
            step > 0,
            seconds == step * q + seconds % step,
            0 <= seconds % step < step,
    ;
}

/// The bucket of `step` seconds that a moment lies in.
pub fn bucket_number(seconds: i64, step: i64) -> (r: i64)
    requires
        step > 0,
    ensures
        r == bucket_at(seconds as int, step as int),
{
    proof {
        lemma_bucket_range(seconds as int, step as int);
    }
    match seconds.checked_div_euclid(step) {
        Some(bucket) => bucket,
        None => 0,
    }
}

/// The keys to count an event under: the minute's and the hour's.
pub struct RecordKeys {
    pub minute: String,
    pub hour: String,
}

/// Where to count `amount` events of `metric` that happen at `now`: nowhere if there are none,
/// else in the bucket of the minute and in that of the hour.
pub fn record_keys(metric: Metric, amount: u64, now: i64) -> (r: Option<RecordKeys>)
    ensures
        r is Some <==> amount > 0,
        r matches Some(keys) ==> keys.minute@ == key_of(
            "minute"@,
            bucket_at(now as int, MINUTE as int),
            metric,
        ) && keys.hour@ == key_of("hour"@, bucket_at(now as int, HOUR as int), metric),
{
    if amount == 0 {
        return None;
    }
    let minute = bucket_key("minute", bucket_number(now, MINUTE), metric);
    let hour = bucket_key("hour", bucket_number(now, HOUR), metric);
    Some(RecordKeys { minute, hour })
}

/// The first bucket of a dashboard made at `now`.
pub open spec fn first_bucket(period: Period, now: int) -> int {
    bucket_at(now - period.span(), period.bucket_span())
}

/// The last bucket of a dashboard made at `now`.
pub open spec fn last_bucket(period: Period, now: int) -> int {
    bucket_at(now, period.bucket_span())
}

/// The number of buckets of a dashboard.
pub open spec fn buckets_shown(period: Period) -> int {
    period.span() / period.bucket_span() + 1
}

proof fn lemma_spans(period: Period)
    ensures
        period.span() / period.bucket_span() * period.bucket_span() == period.span(),
        0 <= period.span() / period.bucket_span() <= 1_440,
        buckets_shown(period) == match period {
            Period::ThirtyMinutes => 31int,
            Period::Hour => 61,
            Period::Day => 1_441,
            Period::Week => 169,
        },
{
    assert(1_800int / 60 == 30 && 3_600int / 60 == 60 && 86_400int / 60 == 1_440 && 604_800int
        / 3_600 == 168);
    assert(Period::Week.span() == 604_800 && Period::Day.span() == 86_400);
    let span = period.span();
    let step = period.bucket_span();
    let n = span / step;
    assert(n * step == span) by (nonlinear_arith)
        requires
            (n == 30 && step == 60 && span == 1_800) || (n == 60 && step == 60 && span == 3_600)
                || (n == 1_440 && step == 60 && span == 86_400) || (n == 168 && step == 3_600
                && span == 604_800),
    ;
}

proof fn lemma_buckets_shown(period: Period, now: int)
    ensures
        last_bucket(period, now) - first_bucket(period, now) + 1 == buckets_shown(period),
        0 < buckets_shown(period) <= 1_441,
{
    let step = period.bucket_span();
    lemma_spans(period);
    let n = period.span() / step;
    vstd::arithmetic::div_mod::lemma_hoist_over_denominator(now - period.span(), n, step as nat);
}

/// The number of buckets of a dashboard.
pub fn bucket_count(period: Period) -> (r: usize)
    ensures
        r == buckets_shown(period),
{
    proof {
        lemma_spans(period);
    }
    match period {
        Period::ThirtyMinutes => 31,
        Period::Hour => 61,
        Period::Day => 1_441,
        Period::Week => 169,
    }
}

/// The keys of a dashboard made at `now`: bucket by bucket, and in each of them metric by metric.
pub open spec fn keys_shown(period: Period, now: int) -> Seq<Seq<char>> {
    Seq::new(
        (buckets_shown(period) * METRIC_COUNT) as nat,
        |i: int|
            key_of(
                kind_of_step(period.bucket_span()),
                first_bucket(period, now) + i / (METRIC_COUNT as int),
                metric_number(i % (METRIC_COUNT as int)),
            ),
    )
}

/// The keys of a dashboard made at `now`: bucket by bucket, and in each of them metric by metric.
pub fn dashboard_keys(period: Period, now: i64) -> (r: Vec<String>)
    requires
        now >= i64::MIN + 604_800,
    ensures
        texts(r@) == keys_shown(period, now as int),
{
    let step: i64 = period.bucket_seconds();
    let kind = bucket_kind(step);
    let first: i64 = bucket_number(now - period.seconds(), step);
    let count: usize = bucket_count(period);
    proof {
        lemma_buckets_shown(period, now as int);
    }
    let ghost last = last_bucket(period, now as int);
    proof {
        lemma_bucket_range(now as int, step as int);
    }
    let total: usize = count * METRIC_COUNT;
    let mut r: Vec<String> = Vec::new();
    let mut i: usize = 0;
    while i < total
        invariant
            i <= total,
            total == count * METRIC_COUNT,
            count == buckets_shown(period),
            count <= 1_441,
            first == first_bucket(period, now as int),
            first + count - 1 == last,
            last <= i64::MAX,
            kind@ == kind_of_step(period.bucket_span()),
            r@.len() == i,
            forall|j: int| 0 <= j < i ==> #[trigger] r@[j]@ == keys_shown(period, now as int)[j],
        decreases total - i,
    {
        let bucket: i64 = first + (i / METRIC_COUNT) as i64;
        r.push(bucket_key(kind, bucket, metric_at(i % METRIC_COUNT)));
        i += 1;
    }
    assert(texts(r@) =~= keys_shown(period, now as int));
    r
}

/// The count that stands at a place of the stored values, 0 where none does.
pub open spec fn stored_count(values: Seq<Option<u64>>, i: int) -> u64 {
    if 0 <= i < values.len() {
        match values[i] {
            Some(count) => count,
            None => 0,
        }
    } else {
        0
    }
}

/// The series of a metric in the values of a dashboard's keys.
pub open spec fn series_of(values: Seq<Option<u64>>, count: int, metric: int) -> Seq<u64> {
    Seq::new(count as nat, |bucket: int| stored_count(values, bucket * METRIC_COUNT + metric))
}

fn read_series(values: &Vec<Option<u64>>, count: usize, metric: usize) -> (r: Vec<u64>)
    requires
        metric < METRIC_COUNT,
        (count + 1) * METRIC_COUNT <= usize::MAX,
    ensures
        r@ == series_of(values@, count as int, metric as int),
{
    let mut r: Vec<u64> = Vec::new();
    let mut bucket: usize = 0;
    while bucket < count
        invariant
            bucket <= count,
            metric < METRIC_COUNT,
            (count + 1) * METRIC_COUNT <= usize::MAX,
            r@ == series_of(values@, bucket as int, metric as int),
        decreases count - bucket,
    {
        let at: usize = bucket * METRIC_COUNT + metric;
        let found: u64 = if at < values.len() {
            match values[at] {
                Some(found) => found,
                None => 0,
            }
        } else {
            0
        };
        r.push(found);
        bucket += 1;
    }
    r
}

/// The series of all metrics in the values of a dashboard's keys.
pub fn bucket_series(values: &Vec<Option<u64>>, count: usize) -> (r: [Vec<u64>; 5])
    requires
        (count + 1) * METRIC_COUNT <= usize::MAX,
    ensures
        forall|i: int|
            0 <= i < METRIC_COUNT ==> #[trigger] r@[i]@ == series_of(values@, count as int, i),
{
    [
        read_series(values, count, 0),
        read_series(values, count, 1),
        read_series(values, count, 2),
        read_series(values, count, 3),
        read_series(values, count, 4),
    ]
}

/// The dashboard of the values that are stored under the keys of a dashboard; nothing where a
/// total outgrows the machine's numbers.
pub fn dashboard(
    period: Period,
    values: &Vec<Option<u64>>,
    queued: i64,
    scheduler_last_success: u64,
    generated_at: UtcMinute,
) -> (r: Option<DashboardData>)
    ensures
        r is Some <==> forall|i: int|
            0 <= i < METRIC_COUNT ==> total(
                #[trigger] series_of(values@, buckets_shown(period), i),
            ) <= u64::MAX,
        r matches Some(data) ==> {
            &&& forall|i: int|
                0 <= i < METRIC_COUNT ==> {
                    let series = #[trigger] series_of(values@, buckets_shown(period), i);
                    &&& data.totals@[i] == total(series)
                    &&& numbers(data.points@[i]@) == points_of(
                        series,
                        point_count(buckets_shown(period)),
                    )
                }
            &&& data.period == period
            &&& data.queued == queued
            &&& data.scheduler_last_success == scheduler_last_success
            &&& data.generated_at == generated_at
        },
{
    let count: usize = bucket_count(period);
    let series = bucket_series(values, count);
    proof {
        lemma_buckets_shown(period, 0);
    }
    let ghost all = series@;
    let mut i: usize = 0;
    while i < 5
        invariant
            i <= 5,
            all == series@,
            count == buckets_shown(period),
            forall|j: int|
                0 <= j < METRIC_COUNT ==> #[trigger] all[j]@ == series_of(
                    values@,
                    count as int,
                    j,
                ),
            forall|j: int| 0 <= j < i ==> total(#[trigger] all[j]@) <= u64::MAX,
        decreases 5 - i,
    {
        if !sum_fits(&series[i]) {
            assert(total(series_of(values@, buckets_shown(period), i as int)) > u64::MAX);
            return None;
        }
        i += 1;
    }
    assert forall|j: int| 0 <= j < METRIC_COUNT implies total(#[trigger] all[j]@) <= u64::MAX
        && MAX_POINTS * all[j]@.len() <= usize::MAX by {
        assert(all[j]@ == series_of(values@, count as int, j));
    }
    let data = DashboardData::from_bucket_values(
        period,
        series,
        queued,
        scheduler_last_success,
        generated_at,
    );
    proof {
        assert forall|j: int| 0 <= j < METRIC_COUNT implies {
            let part = #[trigger] series_of(values@, buckets_shown(period), j);
            &&& total(part) <= u64::MAX
            &&& data.totals@[j] == total(part)
            &&& numbers(data.points@[j]@) == points_of(part, point_count(buckets_shown(period)))
        } by {
            assert(all[j]@ == series_of(values@, count as int, j));
            assert(all[0]@ == series_of(values@, count as int, 0));
            assert(data.totals@[j] == total(all[j]@));
        }
    }
    Some(data)
}

/// Whether the sum of a series is a machine number.
fn sum_fits(values: &Vec<u64>) -> (r: bool)
    ensures
        r == (total(values@) <= u64::MAX),
{
    let mut sum: u64 = 0;
    let mut i: usize = 0;
    assert(values@.take(0) =~= Seq::empty());
    while i < values.len()
        invariant
            i <= values@.len(),
            sum == total(values@.take(i as int)),
        decreases values@.len() - i,
    {
        proof {
            let longer = values@.take(i + 1);
            assert(longer.drop_last() =~= values@.take(i as int));
            lemma_total_split(values@, i + 1);
        }
        match sum.checked_add(values[i]) {
            Some(more) => {
                sum = more;
            },
            None => {
                return false;
            },
        }
        i += 1;
    }
    assert(values@.take(i as int) =~= values@);
    true
}

/// A place in the series of a metric belongs to the key of that bucket and metric.
pub proof fn series_follow_the_keys(
    period: Period,
    now: int,
    values: Seq<Option<u64>>,
    bucket: int,
    metric: int,
)
    requires
        0 <= bucket < buckets_shown(period),
        0 <= metric < METRIC_COUNT,
        values.len() == keys_shown(period, now).len(),
    ensures
        keys_shown(period, now)[bucket * METRIC_COUNT + metric] == key_of(
            kind_of_step(period.bucket_span()),
            first_bucket(period, now) + bucket,
            metric_number(metric),
        ),
        series_of(values, buckets_shown(period), metric)[bucket] == stored_count(
            values,
            bucket * METRIC_COUNT + metric,
        ),
{
    let i = bucket * METRIC_COUNT + metric;
    assert(i / 5 == bucket && i % 5 == metric);
}

/// The place of a metric in the order of the dashboard.
pub open spec fn place_of(metric: Metric) -> int {
    match metric {
        Metric::Commands => 0,
        Metric::RateLimited => 1,
        Metric::OutboxSent => 2,
        Metric::OutboxFailed => 3,
        Metric::DailyEnqueued => 4,
    }
}

/// A recorded event is shown: a dashboard made within the period after it reads the bucket that
/// the event was counted in.
pub proof fn recorded_event_is_shown(period: Period, metric: Metric, then: int, now: int)
    requires
        then <= now <= then + period.span(),
    ensures
        keys_shown(period, now).contains(
            key_of(
                kind_of_step(period.bucket_span()),
                bucket_at(then, period.bucket_span()),
                metric,
            ),
        ),
{
    lemma_buckets_shown(period, now);
    let step = period.bucket_span();
    vstd::arithmetic::div_mod::lemma_div_is_ordered(then, now, step);
    vstd::arithmetic::div_mod::lemma_div_is_ordered(now - period.span(), then, step);
    let bucket = bucket_at(then, step) - first_bucket(period, now);
    let i = bucket * METRIC_COUNT + place_of(metric);
    assert(i / 5 == bucket && i % 5 == place_of(metric));
    assert(metric_number(place_of(metric)) == metric);
    assert(keys_shown(period, now)[i] == key_of(
        kind_of_step(step),
        bucket_at(then, step),
        metric,
    ));
}

} // verus!
