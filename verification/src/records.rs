//! When things are due, how moments are told, and under which names events are counted.

use crate::clock::{local_in, shown_at, zone_offset, LocalView};
use crate::compound::chains_end;
use crate::date::{
    day_number_names_one_date, lemma_day_number_range, minute_at, DateView, MinuteView,
    UNIX_EPOCH_DAY,
};
use crate::fields::{lemma_decimal, lemma_first_stands, lemma_same_but_case, same_but_case};
use crate::files::{extension, is_default_table, tables_among};
use crate::format::DailyKind;
use crate::identity::{is_bootstrap_token, is_token_char};
use crate::parser::room_name;
use crate::service::{delivery_at, port_of, sending_marked, Mark};
use crate::stats::{
    bucket_at, first_bucket, key_of, keys_shown, kind_of_step, metric_number, point_start,
    points_of, recorded_event_is_shown, total, METRIC_COUNT, Metric, Period,
};
use crate::store::{clipped, column_of, pattern_of};
use crate::text::{ascii_lowered, decimal, is_word, signed_decimal};
use crate::workbook::{book_of, xls_book, xlsb_book, xlsx_book, BookView, Format};
use vstd::prelude::*;

verus! {

/// Daily messages come at seven in the morning, about the same day, and at nine in the evening, about
/// the next one; each is due for a minute, or, where missed ones are made up for, until the next is
/// due or the day ends.
pub proof fn daily_messages_come_at_seven_and_at_nine(
    date: DateView,
    next: DateView,
    hour: int,
    minute: int,
    second: int,
    send_missed: bool,
)
    requires
        0 <= hour < 24,
        0 <= minute < 60,
        0 <= second < 60,
        next.valid(),
        next.day_number() == date.day_number() + 1,
    ensures
        ({
            let due = delivery_at(date, hour * 3_600 + minute * 60 + second, send_missed);
            &&& !send_missed ==> due == if hour == 7 && minute == 0 {
                Some((date, DailyKind::Today))
            } else if hour == 21 && minute == 0 {
                Some((next, DailyKind::Tomorrow))
            } else {
                None
            }
            &&& send_missed ==> due == if hour < 7 {
                None
            } else if hour < 21 {
                Some((date, DailyKind::Today))
            } else {
                Some((next, DailyKind::Tomorrow))
            }
        }),
{
    day_number_names_one_date(next);
}

/// A message that was sent is marked so and counted as sent; one that failed is marked with the
/// beginning of the error, all of it up to five hundred characters, and counted as failed.
pub proof fn sending_is_marked_as_it_went(id: i64, error: Seq<char>)
    ensures
        sending_marked(id, None) == (Metric::OutboxSent, Mark::<Seq<char>>::Sent { id }),
        sending_marked(id, Some(error)).0 == Metric::OutboxFailed,
        sending_marked(id, Some(error)).1 matches Mark::Failed { id: failed, error: kept } && failed
            == id && kept.is_prefix_of(error) && kept.len() == if error.len() <= 500 {
            error.len()
        } else {
            500
        },
{
    let kept = clipped(error);
    assert(kept =~= error.take(kept.len() as int));
}

/// A setting that writes a number up to 65535 names that port; without a setting it is 3000.
pub proof fn port_is_the_one_that_is_set(n: nat)
    ensures
        port_of(None) == Some(3_000int),
        port_of(Some(decimal(n))) == if n <= 65_535 {
            Some(n as int)
        } else {
            None
        },
{
    crate::fields::numbers_are_read_as_written(n, 65_535);
}

/// Clocks show the date and the second of the day that they stand at.
pub proof fn clocks_show_where_they_stand(date: DateView, second: int)
    requires
        date.valid(),
        0 <= second < 86_400,
    ensures
        shown_at((date.day_number() - UNIX_EPOCH_DAY) * 86_400 + second) == Some(
            LocalView { date, second },
        ),
{
    let days = date.day_number() - UNIX_EPOCH_DAY;
    let all = days * 86_400 + second;
    assert(all / 86_400 == days && all % 86_400 == second);
    lemma_day_number_range(date);
    day_number_names_one_date(date);
}

/// In a time zone clocks show what they would show in UTC, moved by how far the zone is ahead.
pub proof fn zones_are_ahead_by_their_offset(
    zone: Seq<char>,
    date: DateView,
    second: int,
    offset: int,
)
    requires
        date.valid(),
        0 <= second < 86_400,
        zone_offset(zone, (date.day_number() - UNIX_EPOCH_DAY) * 86_400 + second - offset) == Some(
            offset,
        ),
    ensures
        local_in(zone, (date.day_number() - UNIX_EPOCH_DAY) * 86_400 + second - offset) == Some(
            LocalView { date, second },
        ),
{
    clocks_show_where_they_stand(date, second);
}

proof fn lemma_parts_of_day(days: int, hour: int, minute: int, second: int)
    requires
        0 <= hour < 24,
        0 <= minute < 60,
        0 <= second < 60,
    ensures
        ({
            let all = days * 86_400 + hour * 3_600 + minute * 60 + second;
            all / 86_400 == days && all % 86_400 / 3_600 == hour && all % 3_600 / 60 == minute
        }),
{
    let rest = hour * 3_600 + minute * 60 + second;
    let all = days * 86_400 + hour * 3_600 + minute * 60 + second;
    assert(all / 86_400 == days && all % 86_400 == rest);
    assert(rest / 3_600 == hour);
    assert(all % 3_600 == minute * 60 + second);
}

/// A moment is told by its date, its hour and its minute.
pub proof fn moments_are_told_by_the_minute(date: DateView, hour: int, minute: int, second: int)
    requires
        date.valid(),
        0 <= hour < 24,
        0 <= minute < 60,
        0 <= second < 60,
    ensures
        minute_at(
            (date.day_number() - UNIX_EPOCH_DAY) * 86_400 + hour * 3_600 + minute * 60 + second,
        ) == Some(MinuteView { date, hour, minute }),
{
    lemma_parts_of_day(date.day_number() - UNIX_EPOCH_DAY, hour, minute, second);
    lemma_day_number_range(date);
    day_number_names_one_date(date);
}

proof fn lemma_number_text(n: int)
    ensures
        forall|i: int| 0 <= i < signed_decimal(n).len() ==> #[trigger] signed_decimal(n)[i] != ':',
        signed_decimal(n).len() > 0,
{
    let digits = decimal(
        if n < 0 {
            (-n) as nat
        } else {
            n as nat
        },
    );
    lemma_decimal(
        if n < 0 {
            (-n) as nat
        } else {
            n as nat
        },
    );
    assert forall|i: int| 0 <= i < signed_decimal(n).len() implies #[trigger] signed_decimal(n)[i]
        != ':' by {
        if n < 0 {
            if i > 0 {
                assert(signed_decimal(n)[i] == digits[i - 1]);
            }
        } else {
            assert(signed_decimal(n)[i] == digits[i]);
        }
    }
}

proof fn lemma_one_number(a: int, b: int)
    requires
        signed_decimal(a) == signed_decimal(b),
    ensures
        a == b,
{
    lemma_decimal(
        if a < 0 {
            (-a) as nat
        } else {
            a as nat
        },
    );
    lemma_decimal(
        if b < 0 {
            (-b) as nat
        } else {
            b as nat
        },
    );
    if a < 0 {
        let digits = decimal((-a) as nat);
        assert(signed_decimal(a)[0] == '-');
        if b >= 0 {
            assert(decimal(b as nat)[0] != '-');
        } else {
            assert(signed_decimal(a).skip(1) =~= digits);
            assert(signed_decimal(b).skip(1) =~= decimal((-b) as nat));
        }
    } else if b < 0 {
        assert(signed_decimal(b)[0] == '-');
        assert(decimal(a as nat)[0] != '-');
    }
}

proof fn lemma_metric_names(a: Metric, b: Metric)
    requires
        a.name() == b.name(),
    ensures
        a == b,
{
    reveal_strlit("commands");
    reveal_strlit("rate_limited");
    reveal_strlit("outbox_sent");
    reveal_strlit("outbox_failed");
    reveal_strlit("daily_enqueued");
    assert("commands"@.len() == 8 && "rate_limited"@.len() == 12 && "outbox_sent"@.len() == 11
        && "outbox_failed"@.len() == 13 && "daily_enqueued"@.len() == 14);
}

/// A key names one count: those of different buckets or metrics differ.
pub proof fn keys_name_one_count(
    kind: Seq<char>,
    bucket: int,
    metric: Metric,
    other_bucket: int,
    other_metric: Metric,
)
    requires
        key_of(kind, bucket, metric) == key_of(kind, other_bucket, other_metric),
    ensures
        bucket == other_bucket,
        metric == other_metric,
{
    let head = "schedule:stats:v1:"@ + kind + ":"@;
    reveal_strlit(":");
    let colon: Seq<char> = seq![':'];
    assert(":"@ =~= colon);
    let a = signed_decimal(bucket);
    let b = signed_decimal(other_bucket);
    let tail = a + colon + metric.name();
    let other = b + colon + other_metric.name();
    let n = head.len() as int;
    assert(key_of(kind, bucket, metric) =~= head + tail);
    assert(key_of(kind, other_bucket, other_metric) =~= head + other);
    assert((head + tail).skip(n) =~= tail);
    assert((head + other).skip(n) =~= other);
    assert(tail == other);
    lemma_number_text(bucket);
    lemma_number_text(other_bucket);
    lemma_first_stands(a, ':', metric.name());
    lemma_first_stands(b, ':', other_metric.name());
    assert(a == b);
    lemma_one_number(bucket, other_bucket);
    lemma_metric_names(metric, other_metric);
}

/// What is counted is read again: an event is counted under its minute and its hour, and a dashboard
/// made within its period after it reads the key of the hour if it shows a week, else that of the
/// minute.
pub proof fn counted_events_are_read_again(period: Period, metric: Metric, then: int, now: int)
    requires
        then <= now <= then + period.span(),
    ensures
        keys_shown(period, now).contains(
            if period == Period::Week {
                key_of("hour"@, then / 3_600, metric)
            } else {
                key_of("minute"@, then / 60, metric)
            },
        ),
{
    recorded_event_is_shown(period, metric, then, now);
}

/// What lies too far back is not shown: a dashboard does not read a bucket that ended before its
/// period began.
pub proof fn old_events_are_not_shown(period: Period, metric: Metric, then: int, now: int)
    requires
        then + period.bucket_span() < now - period.span(),
    ensures
        !keys_shown(period, now).contains(
            key_of(
                kind_of_step(period.bucket_span()),
                bucket_at(then, period.bucket_span()),
                metric,
            ),
        ),
{
    let step = period.bucket_span();
    let kind = kind_of_step(step);
    let key = key_of(kind, bucket_at(then, step), metric);
    let all = keys_shown(period, now);
    assert(step > 0);
    vstd::arithmetic::div_mod::lemma_div_is_ordered(then + step, now - period.span(), step);
    assert((then + step) / step == then / step + 1) by {
        vstd::arithmetic::div_mod::lemma_div_plus_one(then, step);
    }
    if all.contains(key) {
        let i = choose|i: int| 0 <= i < all.len() && all[i] == key;
        keys_name_one_count(
            kind,
            bucket_at(then, step),
            metric,
            first_bucket(period, now) + i / (METRIC_COUNT as int),
            metric_number(i % (METRIC_COUNT as int)),
        );
        assert(i / 5 >= 0);
    }
}

/// A file is a timetable by default if its extension is that of a spreadsheet, whatever its case.
pub proof fn default_tables_are_spreadsheets(path: Seq<char>)
    ensures
        is_default_table(path) <==> (extension(path) matches Some(ext) && (same_but_case(
            ext,
            "xls"@,
        ) || same_but_case(ext, "xlsx"@))),
{
    if let Some(ext) = extension(path) {
        lemma_same_but_case(ext, "xls"@);
        lemma_same_but_case(ext, "xlsx"@);
        reveal_strlit("xls");
        reveal_strlit("xlsx");
        assert(ascii_lowered("xls"@) =~= "xls"@);
        assert(ascii_lowered("xlsx"@) =~= "xlsx"@);
    }
}

/// The secret of the first administrator fits into a link: behind its prefix it has no more than 64
/// characters, all of them letters, digits, underscores and hyphens, and not less than 24 of its own;
/// every such text can be one.
pub proof fn secret_fits_into_a_link(token: Seq<char>)
    ensures
        is_bootstrap_token(token) <==> {
            &&& token.len() >= 24
            &&& ("bootstrap_"@ + token).len() <= 64
            &&& forall|i: int|
                0 <= i < token.len() ==> {
                    let c = #[trigger] token[i];
                    'a' <= c <= 'z' || 'A' <= c <= 'Z' || '0' <= c <= '9' || c == '_' || c == '-'
                }
        },
        is_bootstrap_token(token) ==> is_word(token),
{
    reveal_strlit("bootstrap_");
    if is_bootstrap_token(token) {
        assert forall|i: int| 0 <= i < token.len() implies {
            let c = #[trigger] token[i];
            'a' <= c <= 'z' || 'A' <= c <= 'Z' || '0' <= c <= '9' || c == '_' || c == '-'
        } by {
            assert(is_token_char(token[i]));
        }
    }
}

/// Whether a series is cut into the stretches of the points of its chart: there is neither gap nor
/// overlap, and each stretch begins at that part of the series at which its point stands in the chart,
/// rounded down.
pub open spec fn are_cuts(values: Seq<u64>, count: int, cuts: Seq<int>) -> bool {
    &&& cuts.len() == count + 1
    &&& cuts[0] == 0
    &&& cuts[count] == values.len()
    &&& forall|p: int|
        0 <= p <= count ==> (#[trigger] cuts[p]) * count <= p * values.len() < (cuts[p] + 1) * count
    &&& forall|p: int| 0 <= p < count ==> #[trigger] cuts[p] < cuts[p + 1]
    &&& forall|p: int|
        0 <= p < count ==> #[trigger] points_of(values, count)[p] == total(
            values.subrange(cuts[p], cuts[p + 1]),
        )
}

/// A chart takes neighbouring stretches of its series, one for each point, and shows their totals.
pub proof fn points_follow_the_series(values: Seq<u64>, count: int)
    requires
        0 < count <= values.len(),
    ensures
        points_of(values, count).len() == count,
        exists|cuts: Seq<int>| #[trigger] are_cuts(values, count, cuts),
{
    let len = values.len() as int;
    let cuts = Seq::new((count + 1) as nat, |p: int| point_start(len, count, p));
    assert(cuts[0] == 0);
    assert(cuts[count] == len) by {
        vstd::arithmetic::div_mod::lemma_div_multiples_vanish(len, count);
    }
    assert forall|p: int| 0 <= p <= count implies (#[trigger] cuts[p]) * count <= p * len < (cuts[p]
        + 1) * count by {
        lemma_floor(p * len, count);
    }
    assert forall|p: int| 0 <= p < count implies #[trigger] cuts[p] < cuts[p + 1] by {
        lemma_floor(p * len, count);
        lemma_floor((p + 1) * len, count);
        let a = cuts[p];
        let b = cuts[p + 1];
        assert(a < b) by (nonlinear_arith)
            requires
                a * count <= p * len,
                (p + 1) * len < (b + 1) * count,
                count <= len,
                count > 0,
        ;
    }
    assert forall|p: int| 0 <= p < count implies #[trigger] points_of(values, count)[p] == total(
        values.subrange(cuts[p], cuts[p + 1]),
    ) by {
        assert(cuts[p] < cuts[p + 1]);
    }
    assert(are_cuts(values, count, cuts));
}

proof fn lemma_floor(n: int, d: int)
    requires
        d > 0,
    ensures
        n / d * d <= n < (n / d + 1) * d,
{
    vstd::arithmetic::div_mod::lemma_fundamental_div_mod(n, d);
    assert(d * (n / d) == n / d * d) by (nonlinear_arith);
    assert((n / d + 1) * d == n / d * d + d) by (nonlinear_arith);
    assert(0 <= n % d < d);
}

/// Whether a folder has no timetable, or more than one, is a matter of its files.
pub proof fn tables_are_counted(paths: Seq<String>, n: int)
    requires
        0 <= n <= paths.len(),
    ensures
        tables_among(paths, n) == 0 <==> forall|i: int|
            0 <= i < n ==> !is_default_table(#[trigger] paths[i]@),
        tables_among(paths, n) > 1 <==> exists|i: int, j: int|
            0 <= i < j < n && is_default_table(#[trigger] paths[i]@) && is_default_table(
                #[trigger] paths[j]@,
            ),
    decreases n,
{
    if n > 0 {
        tables_are_counted(paths, n - 1);
        if is_default_table(paths[n - 1]@) && tables_among(paths, n - 1) > 0 {
            let i = choose|i: int| 0 <= i < n - 1 && is_default_table(#[trigger] paths[i]@);
            assert(is_default_table(paths[i]@) && is_default_table(paths[n - 1]@));
        }
        if tables_among(paths, n) <= 1 {
            assert forall|i: int, j: int|
                0 <= i < j < n && is_default_table(#[trigger] paths[i]@) implies !is_default_table(
                #[trigger] paths[j]@,
            ) by {
                if j < n - 1 && is_default_table(paths[j]@) {
                    assert(tables_among(paths, n - 1) > 1);
                }
            }
        }
    }
}

/// A search looks for what was asked anywhere in its column: for a teacher as written, for a room by
/// the name that rooms are shown under.
pub proof fn searches_look_anywhere_in_their_column(query: Seq<char>)
    ensures
        column_of("teacher"@) == "teacher"@,
        column_of("room"@) == "room"@,
        pattern_of("teacher"@, query) == seq!['%'] + query + seq!['%'],
        pattern_of("room"@, query) == seq!['%'] + room_name(query) + seq!['%'],
{
    reveal_strlit("teacher");
    reveal_strlit("room");
    reveal_strlit("%");
    assert("teacher"@.len() == 7 && "room"@.len() == 4);
    assert("%"@ =~= seq!['%']);
}

/// A file whose name promises no format is opened as what it is: as the first format that it can be
/// opened in, and not at all if it can be opened in none.
pub proof fn unnamed_format_is_found_out(contents: Seq<u8>)
    requires
        chains_end(contents),
    ensures
        xls_book(contents) matches Some(Ok(book)) ==> book_of(Format::Unknown, contents) == Some(
            Ok::<BookView, Seq<char>>(book),
        ),
        xls_book(contents) matches Some(Err(_)) ==> {
            &&& xlsx_book(contents) matches Some(Ok(book)) ==> book_of(Format::Unknown, contents)
                == Some(Ok::<BookView, Seq<char>>(book))
            &&& xlsx_book(contents) matches Some(Err(_)) ==> {
                &&& xlsb_book(contents) matches Some(Ok(book)) ==> book_of(
                    Format::Unknown,
                    contents,
                ) == Some(Ok::<BookView, Seq<char>>(book))
                &&& xlsb_book(contents) matches Some(Err(_)) ==> book_of(Format::Unknown, contents)
                    matches Some(Err(_))
            }
        },
{
}

} // verus!
