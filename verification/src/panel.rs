//! What the dashboard, the page of numbers, the menu and the buttons show, and what pressing a button
//! leads to.

use crate::action::{keyboard_view, menu_view, period_data, Keyboard, Query, Reply};
use crate::conversation::{Callback, Config, Request};
use crate::dashboard::{
    card, chart, chart_row, chart_rows, dashboard_picture, footer, header, queue, queued_text,
    signed, success_text,
};
use crate::date::{clock, dotted, dotted_short, minute_at, DateView};
use crate::dialogue::asks;
use crate::draw::DrawView;
use crate::handlers::talk;
use crate::metrics::{counter_of, metric_lines, metrics_page, value_of, wrapped, Counter, Counters};
use crate::phrases;
use crate::printing::{has_text, lemma_text_in_sum};
use crate::private::{names_search, names_today, names_week};
use crate::private_talk::{
    reports, search_buttons_choose_the_kind, waiting_group_is_kept_or_dropped,
};
use crate::showing::{group_shown, shows};
use crate::stats::{metric_number, DashboardData, Metric, Period};
use crate::text::{decimal, signed_decimal};
use vstd::prelude::*;

verus! {

/// The place of a metric among those of a dashboard.
pub open spec fn slot(metric: Metric) -> int {
    match metric {
        Metric::Commands => 0,
        Metric::RateLimited => 1,
        Metric::OutboxSent => 2,
        Metric::OutboxFailed => 3,
        Metric::DailyEnqueued => 4,
    }
}

/// Whether two texts stand in a picture one close below the other.
pub open spec fn stand_together(
    picture: Seq<DrawView>,
    upper: Seq<char>,
    lower: Seq<char>,
) -> bool {
    exists|i: int, j: int|
        {
            &&& 0 <= i < j < picture.len()
            &&& (#[trigger] picture[i]) matches DrawView::Text { x, y, text, .. }
            &&& text == upper
            &&& (#[trigger] picture[j]) matches DrawView::Text { x: x2, y: y2, text: t2, .. }
            &&& t2 == lower
            &&& x == x2
            &&& y < y2 <= y + 40
        }
}

proof fn lemma_together_in_sum(
    a: Seq<DrawView>,
    b: Seq<DrawView>,
    upper: Seq<char>,
    lower: Seq<char>,
)
    ensures
        stand_together(a, upper, lower) || stand_together(b, upper, lower) ==> stand_together(
            a + b,
            upper,
            lower,
        ),
{
    let all = a + b;
    if stand_together(a, upper, lower) {
        let (i, j) = choose|i: int, j: int|
            {
                &&& 0 <= i < j < a.len()
                &&& (#[trigger] a[i]) matches DrawView::Text { x, y, text, .. }
                &&& text == upper
                &&& (#[trigger] a[j]) matches DrawView::Text { x: x2, y: y2, text: t2, .. }
                &&& t2 == lower
                &&& x == x2
                &&& y < y2 <= y + 40
            };
        assert(all[i] == a[i] && all[j] == a[j]);
    }
    if stand_together(b, upper, lower) {
        let (i, j) = choose|i: int, j: int|
            {
                &&& 0 <= i < j < b.len()
                &&& (#[trigger] b[i]) matches DrawView::Text { x, y, text, .. }
                &&& text == upper
                &&& (#[trigger] b[j]) matches DrawView::Text { x: x2, y: y2, text: t2, .. }
                &&& t2 == lower
                &&& x == x2
                &&& y < y2 <= y + 40
            };
        assert(all[a.len() + i] == b[i] && all[a.len() + j] == b[j]);
    }
}

/// Whether a series stands in a picture in a colour.
pub open spec fn has_series(
    picture: Seq<DrawView>,
    line: (u8, u8, u8),
    points: Seq<u64>,
) -> bool {
    exists|k: int|
        0 <= k < picture.len() && ((#[trigger] picture[k]) matches DrawView::Series {
            color,
            values,
            ..
        } && color == line && values == points)
}

proof fn lemma_series_in_sum(
    a: Seq<DrawView>,
    b: Seq<DrawView>,
    line: (u8, u8, u8),
    points: Seq<u64>,
)
    ensures
        has_series(a, line, points) || has_series(b, line, points) ==> has_series(
            a + b,
            line,
            points,
        ),
{
    let all = a + b;
    if has_series(a, line, points) {
        let k = choose|k: int|
            0 <= k < a.len() && ((#[trigger] a[k]) matches DrawView::Series { color, values, .. }
                && color == line && values == points);
        assert(all[k] == a[k]);
    }
    if has_series(b, line, points) {
        let k = choose|k: int|
            0 <= k < b.len() && ((#[trigger] b[k]) matches DrawView::Series { color, values, .. }
                && color == line && values == points);
        assert(all[a.len() + k] == b[k]);
    }
}

proof fn lemma_rows_drawn(data: DashboardData, n: int, i: int)
    requires
        0 <= i < n,
    ensures
        stand_together(
            chart_rows(data, n),
            metric_number(i).title(),
            decimal(data.totals@[i] as nat),
        ),
        has_series(chart_rows(data, n), metric_number(i).rgb(), data.points@[i]@),
    decreases n,
{
    let upper = metric_number(i).title();
    let lower = decimal(data.totals@[i] as nat);
    let before = chart_rows(data, n - 1);
    let own = chart_row(data, n - 1);
    lemma_together_in_sum(before, own, upper, lower);
    lemma_series_in_sum(before, own, metric_number(i).rgb(), data.points@[i]@);
    if i < n - 1 {
        lemma_rows_drawn(data, n - 1, i);
    } else {
        assert(own[0] is Text && own[1] is Text);
        assert(own[3] is Series);
    }
}

/// The dashboard shows every number under its name: in a card of its own for what users did, what was
/// sent, what failed and what was refused, and in a row of the chart, with its series in its colour,
/// for every metric.
pub proof fn dashboard_shows_every_number(data: DashboardData, metric: Metric)
    ensures
        ({
            let picture = dashboard_picture(data);
            let total = decimal(data.totals@[slot(metric)] as nat);
            &&& stand_together(picture, metric.title(), total)
            &&& has_series(picture, metric.rgb(), data.points@[slot(metric)]@)
        }),
{
    let picture = dashboard_picture(data);
    let upper = metric.title();
    let lower = decimal(data.totals@[slot(metric)] as nat);
    let line = metric.rgb();
    let points = data.points@[slot(metric)]@;
    let head = header(data.period) + card(Metric::Commands, data.totals@[0] as int, 56, 208) + card(
        Metric::OutboxSent,
        data.totals@[2] as int,
        548,
        208,
    ) + card(Metric::OutboxFailed, data.totals@[3] as int, 56, 340) + card(
        Metric::RateLimited,
        data.totals@[1] as int,
        548,
        340,
    ) + queue(data.queued as int) + chart();
    assert(picture == head + chart_rows(data, 5) + footer(data));
    assert(metric_number(slot(metric)) == metric);
    lemma_rows_drawn(data, 5, slot(metric));
    lemma_together_in_sum(head, chart_rows(data, 5), upper, lower);
    lemma_together_in_sum(head + chart_rows(data, 5), footer(data), upper, lower);
    lemma_series_in_sum(head, chart_rows(data, 5), line, points);
    lemma_series_in_sum(head + chart_rows(data, 5), footer(data), line, points);
}

/// The cards of the dashboard show the totals of their metrics.
pub proof fn dashboard_cards_show_their_totals(data: DashboardData, metric: Metric)
    requires
        metric != Metric::DailyEnqueued,
    ensures
        ({
            let cards = card(Metric::Commands, data.totals@[0] as int, 56, 208) + card(
                Metric::OutboxSent,
                data.totals@[2] as int,
                548,
                208,
            ) + card(Metric::OutboxFailed, data.totals@[3] as int, 56, 340) + card(
                Metric::RateLimited,
                data.totals@[1] as int,
                548,
                340,
            );
            &&& dashboard_picture(data).subrange(3, 23) == cards
            &&& stand_together(
                dashboard_picture(data).subrange(3, 23),
                metric.title(),
                decimal(data.totals@[slot(metric)] as nat),
            )
        }),
{
    let a = card(Metric::Commands, data.totals@[0] as int, 56, 208);
    let b = card(Metric::OutboxSent, data.totals@[2] as int, 548, 208);
    let c = card(Metric::OutboxFailed, data.totals@[3] as int, 56, 340);
    let d = card(Metric::RateLimited, data.totals@[1] as int, 548, 340);
    let cards = a + b + c + d;
    let upper = metric.title();
    let lower = decimal(data.totals@[slot(metric)] as nat);
    assert(dashboard_picture(data).subrange(3, 23) =~= cards);
    assert(a[3] is Text && a[4] is Text && b[3] is Text && b[4] is Text);
    assert(c[3] is Text && c[4] is Text && d[3] is Text && d[4] is Text);
    assert(stand_together(a, upper, lower) || stand_together(b, upper, lower) || stand_together(
        c,
        upper,
        lower,
    ) || stand_together(d, upper, lower)) by {
        match metric {
            Metric::Commands => {
                assert(stand_together(a, upper, lower));
            },
            Metric::OutboxSent => {
                assert(stand_together(b, upper, lower));
            },
            Metric::OutboxFailed => {
                assert(stand_together(c, upper, lower));
            },
            _ => {
                assert(stand_together(d, upper, lower));
            },
        }
    }
    lemma_together_in_sum(a, b, upper, lower);
    lemma_together_in_sum(a + b, c, upper, lower);
    lemma_together_in_sum(a + b + c, d, upper, lower);
}

/// The dashboard tells its period, how many messages wait, or a dash where that is not known, when it
/// was made, and when the daily messages were last put in the queue.
pub proof fn dashboard_tells_its_circumstances(data: DashboardData)
    ensures
        ({
            let picture = dashboard_picture(data);
            &&& has_text(picture, "Период: "@ + data.period.title())
            &&& has_text(
                picture,
                if data.queued < 0 {
                    "—"@
                } else {
                    decimal(data.queued as nat)
                },
            )
            &&& exists|text: Seq<char>|
                {
                    &&& #[trigger] has_text(picture, text)
                    &&& shows(text, dotted(data.generated_at@.date))
                    &&& shows(text, clock(data.generated_at@))
                    &&& data.scheduler_last_success == 0 ==> shows(
                        text,
                        "последний запуск не записан"@,
                    )
                    &&& 0 < data.scheduler_last_success <= i64::MAX ==> (minute_at(
                        data.scheduler_last_success as int,
                    ) matches Some(moment) ==> shows(text, dotted_short(moment.date)) && shows(
                        text,
                        clock(moment),
                    ))
                }
        }),
{
    broadcast use group_shown;

    let picture = dashboard_picture(data);
    let top = header(data.period);
    let cards = card(Metric::Commands, data.totals@[0] as int, 56, 208) + card(
        Metric::OutboxSent,
        data.totals@[2] as int,
        548,
        208,
    ) + card(Metric::OutboxFailed, data.totals@[3] as int, 56, 340) + card(
        Metric::RateLimited,
        data.totals@[1] as int,
        548,
        340,
    );
    let waiting = queue(data.queued as int);
    let rest = chart() + chart_rows(data, 5);
    let last = footer(data);
    assert(picture =~= top + cards + waiting + rest + last);
    let period = "Период: "@ + data.period.title();
    assert(top[2] is Text);
    assert(has_text(top, period));
    lemma_text_in_sum(top, cards, period);
    lemma_text_in_sum(top + cards, waiting, period);
    lemma_text_in_sum(top + cards + waiting, rest, period);
    lemma_text_in_sum(top + cards + waiting + rest, last, period);
    let count = queued_text(data.queued as int);
    assert(waiting[2] is Text);
    assert(has_text(waiting, count));
    lemma_text_in_sum(top + cards, waiting, count);
    lemma_text_in_sum(top + cards + waiting, rest, count);
    lemma_text_in_sum(top + cards + waiting + rest, last, count);
    let made = data.generated_at@;
    let moment = minute_at(signed(data.scheduler_last_success));
    let success = success_text(data.scheduler_last_success, moment);
    let text = "Обновлено "@ + dotted(made.date) + " "@ + clock(made)
        + " UTC  ·  Планировщик: "@ + success;
    assert(last[0] is Text);
    assert(has_text(last, text));
    lemma_text_in_sum(top + cards + waiting + rest, last, text);
    assert(shows(text, dotted(made.date)) && shows(text, clock(made)) && shows(text, success));
    if data.scheduler_last_success > 0 {
        if let Some(m) = moment {
            assert(shows(success, dotted_short(m.date)) && shows(success, clock(m)));
        }
    }
}

/// Whether a page gives a number under a name, and says of which kind it is.
pub open spec fn page_gives(
    page: Seq<char>,
    name: Seq<char>,
    kind: Seq<char>,
    value: Seq<char>,
) -> bool {
    &&& shows(page, "# TYPE "@ + name + " "@ + kind + "\n"@)
    &&& shows(page, name + " "@ + value + "\n"@)
}

/// The page of numbers gives every counter under its name, and says which numbers only grow.
pub proof fn page_gives_every_counter(counters: Counters, queued: int)
    ensures
        ({
            let page = metrics_page(counters, queued);
            let limited = decimal(counters.rate_limited as nat);
            let sent = decimal(counters.outbox_sent as nat);
            let failed = decimal(counters.outbox_failed as nat);
            let enqueued = decimal(counters.daily_enqueued as nat);
            let success = decimal(counters.scheduler_last_success as nat);
            let last = "schedule_worker_last_success_timestamp_seconds"@;
            &&& page_gives(page, "schedule_rate_limited_total"@, "counter"@, limited)
            &&& page_gives(page, "schedule_outbox_sent_total"@, "counter"@, sent)
            &&& page_gives(page, "schedule_outbox_failed_total"@, "counter"@, failed)
            &&& page_gives(page, "schedule_daily_enqueued_total"@, "counter"@, enqueued)
            &&& page_gives(page, "schedule_outbox_queued"@, "gauge"@, signed_decimal(queued))
            &&& page_gives(page, last, "gauge"@, success)
        }),
{
    broadcast use group_shown;

    lemma_metric_lines(
        "schedule_rate_limited_total"@,
        "counter"@,
        decimal(counters.rate_limited as nat),
    );
    lemma_metric_lines(
        "schedule_outbox_sent_total"@,
        "counter"@,
        decimal(counters.outbox_sent as nat),
    );
    lemma_metric_lines(
        "schedule_outbox_failed_total"@,
        "counter"@,
        decimal(counters.outbox_failed as nat),
    );
    lemma_metric_lines(
        "schedule_daily_enqueued_total"@,
        "counter"@,
        decimal(counters.daily_enqueued as nat),
    );
    lemma_metric_lines("schedule_outbox_queued"@, "gauge"@, signed_decimal(queued));
    lemma_metric_lines(
        "schedule_worker_last_success_timestamp_seconds"@,
        "gauge"@,
        decimal(counters.scheduler_last_success as nat),
    );
}

proof fn lemma_metric_lines(name: Seq<char>, kind: Seq<char>, value: Seq<char>)
    ensures
        shows(metric_lines(name, kind, value), "# TYPE "@ + name + " "@ + kind + "\n"@),
        shows(metric_lines(name, kind, value), name + " "@ + value + "\n"@),
{
    broadcast use group_shown;

    let type_line = "# TYPE "@ + name + " "@ + kind + "\n"@;
    let line = name + " "@ + value + "\n"@;
    assert(metric_lines(name, kind, value) =~= type_line + line);
    assert(shows(type_line + line, line));
    assert(shows(type_line + line, type_line));
}

/// Counts add up; where a number outgrows 64 bits, it begins again at 0.
pub proof fn counts_add_up(a: u64, b: u64)
    ensures
        a + b <= u64::MAX ==> wrapped(a, b) == a + b,
        a + b > u64::MAX ==> wrapped(a, b) == a + b - u64::MAX - 1,
{
}

/// The dashboard tells metrics apart, by their titles and by their colours.
pub proof fn metrics_look_different(a: Metric, b: Metric)
    requires
        a.title() == b.title() || a.rgb() == b.rgb(),
    ensures
        a == b,
{
    reveal_strlit("Действия");
    reveal_strlit("Антиспам");
    reveal_strlit("Отправлено");
    reveal_strlit("Ошибки отправки");
    reveal_strlit("Поставлено в очередь");
    assert("Действия"@.len() == 8 && "Антиспам"@.len() == 8 && "Отправлено"@.len() == 10
        && "Ошибки отправки"@.len() == 15 && "Поставлено в очередь"@.len() == 20
        && "Действия"@[0] == 'Д' && "Антиспам"@[0] == 'А');
}

/// Every metric that the process counts has a counter of its own, and every counter is read where it
/// is kept.
pub proof fn counters_are_kept_apart(counters: Counters)
    ensures
        counter_of(Metric::RateLimited) == Some(Counter::RateLimited),
        counter_of(Metric::OutboxSent) == Some(Counter::OutboxSent),
        counter_of(Metric::OutboxFailed) == Some(Counter::OutboxFailed),
        counter_of(Metric::DailyEnqueued) == Some(Counter::DailyEnqueued),
        value_of(counters, Counter::RateLimited) == counters.rate_limited,
        value_of(counters, Counter::OutboxSent) == counters.outbox_sent,
        value_of(counters, Counter::OutboxFailed) == counters.outbox_failed,
        value_of(counters, Counter::DailyEnqueued) == counters.daily_enqueued,
        value_of(counters, Counter::SchedulerLastSuccess) == counters.scheduler_last_success,
{
}

/// The buttons below a question do what they say: the first answer to whether a group is right keeps
/// it and the second drops it; the choices of a search choose teachers and rooms.
pub proof fn buttons_do_what_they_say(
    config: Config,
    callback: Callback,
    group: String,
    day: DateView,
)
    ensures
        ({
            let request = Request::Callback(callback);
            let pressed = talk(config, request, seq![(day, Reply::Allowed(true))]);
            let user = callback.user;
            let answers = keyboard_view(Keyboard::ConfirmGroup);
            let kinds = keyboard_view(Keyboard::Search);
            &&& answers.len() == 1 && answers[0].len() == 2
            &&& shows(answers[0][0].0, "Да"@) && shows(answers[0][1].0, "Нет"@)
            &&& reports(callback, answers[0][0].1) ==> asks(pressed, Query::ConfirmGroup { user })
            &&& reports(callback, answers[0][1].1) ==> pressed.effects.contains(
                crate::action::Effect::RejectPendingGroup { user },
            )
            &&& kinds.len() == 2 && kinds[0].len() == 1 && kinds[1].len() == 1
            &&& shows(kinds[0][0].0, "Преподаватель"@) && shows(kinds[1][0].0, "Аудитория"@)
            &&& reports(callback, kinds[0][0].1) ==> pressed.effects.contains(
                crate::action::Effect::SetFlowState {
                    user,
                    state: "await_search_text"@,
                    search_kind: Some("teacher"@),
                },
            )
            &&& reports(callback, kinds[1][0].1) ==> pressed.effects.contains(
                crate::action::Effect::SetFlowState {
                    user,
                    state: "await_search_text"@,
                    search_kind: Some("room"@),
                },
            )
        }),
{
    waiting_group_is_kept_or_dropped(config, callback, group, day);
    search_buttons_choose_the_kind(config, callback, day);
    lemma_labels();
}

proof fn lemma_labels()
    ensures
        shows("✅ Да"@, "Да"@),
        shows("❌ Нет"@, "Нет"@),
        shows("👩‍🏫 Преподаватель"@, "Преподаватель"@),
        shows("🏫 Аудитория"@, "Аудитория"@),
{
    reveal(shows);
    reveal_strlit("✅ Да");
    reveal_strlit("Да");
    reveal_strlit("❌ Нет");
    reveal_strlit("Нет");
    reveal_strlit("👩‍🏫 Преподаватель");
    reveal_strlit("Преподаватель");
    reveal_strlit("🏫 Аудитория");
    reveal_strlit("Аудитория");
    let teacher = "👩‍🏫 Преподаватель"@;
    let at = teacher.len() - "Преподаватель"@.len();
    let yes = "✅ Да"@;
    let no = "❌ Нет"@;
    let room = "🏫 Аудитория"@;
    assert(yes.subrange(2, 2 + "Да"@.len() as int) =~= "Да"@);
    assert(no.subrange(2, 2 + "Нет"@.len() as int) =~= "Нет"@);
    assert(teacher.subrange(at, at + "Преподаватель"@.len()) =~= "Преподаватель"@);
    assert(room.subrange(2, 2 + "Аудитория"@.len() as int) =~= "Аудитория"@);
}

/// Every button of the menu is understood where it is pressed.
pub proof fn menu_buttons_are_understood()
    ensures
        menu_view().len() == 3,
        menu_view()[0].len() == 2,
        names_today(menu_view()[0][0]),
        names_week(menu_view()[0][1]),
        names_search(menu_view()[1][0]),
        menu_view()[2][0] == phrases::NOTIFICATIONS_BUTTON@,
{
}

/// The buttons of a dashboard name the four periods, and mark the one that is shown.
pub proof fn dashboard_buttons_name_the_periods(shown: Period, period: Period)
    ensures
        exists|row: int, place: int|
            {
                &&& 0 <= row < keyboard_view(Keyboard::Stats(shown)).len()
                &&& 0 <= place < keyboard_view(Keyboard::Stats(shown))[row].len()
                &&& (#[trigger] keyboard_view(Keyboard::Stats(shown))[row][place]).1 == period_data(
                    period,
                )
                &&& period == shown <==> shows(
                    keyboard_view(Keyboard::Stats(shown))[row][place].0,
                    "✅ "@,
                )
            },
{
    broadcast use group_shown;

    lemma_period_names();
    let rows = keyboard_view(Keyboard::Stats(shown));
    let (row, place): (int, int) = match period {
        Period::ThirtyMinutes => (0, 0),
        Period::Hour => (0, 1),
        Period::Day => (1, 0),
        Period::Week => (1, 1),
    };
    let button = rows[row][place];
    assert(button.1 == period_data(period));
    if period == shown {
        assert(shows(button.0, "✅ "@));
    }
    assert(keyboard_view(Keyboard::Stats(shown))[row][place].1 == period_data(period));
}

proof fn lemma_period_names()
    ensures
        !shows("30 мин"@, "✅ "@),
        !shows("1 час"@, "✅ "@),
        !shows("24 часа"@, "✅ "@),
        !shows("7 дней"@, "✅ "@),
{
    reveal(shows);
    reveal_strlit("30 мин");
    reveal_strlit("1 час");
    reveal_strlit("24 часа");
    reveal_strlit("7 дней");
    reveal_strlit("✅ ");
    lemma_no_mark("30 мин"@);
    lemma_no_mark("1 час"@);
    lemma_no_mark("24 часа"@);
    lemma_no_mark("7 дней"@);
}

proof fn lemma_no_mark(name: Seq<char>)
    requires
        forall|i: int| 0 <= i < name.len() ==> #[trigger] name[i] != '✅',
    ensures
        !shows(name, "✅ "@),
{
    reveal(shows);
    reveal_strlit("✅ ");
    let mark = "✅ "@;
    if shows(name, mark) {
        let at = choose|at: int|
            0 <= at && at + mark.len() <= name.len() && #[trigger] name.subrange(
                at,
                at + mark.len(),
            ) == mark;
        assert(name.subrange(at, at + mark.len())[0] == '✅');
        assert(name[at] == '✅');
    }
}

} // verus!
