//! The picture of the bot's statistics.

use crate::date::{clock, dotted, dotted_short, minute_at, MinuteView, UtcMinute};
use crate::draw::{
    draws, filled, label, outline, push_filled, push_label, push_outline, push_series, Color, Draw,
    DrawView,
};
use crate::stats::{metric_at, metric_number, DashboardData, Metric, Period};
use crate::text::{concat2, concat3, decimal, decimal_text, signed_decimal, signed_decimal_text};
use vstd::prelude::*;

verus! {

/// The width of the picture.
pub const WIDTH: u32 = 1_080;

/// The height of the picture.
pub const HEIGHT: u32 = 1_180;

/// What the picture is filled with at first.
pub open spec fn background() -> Color {
    (15, 22, 35)
}

/// What the picture is filled with at first.
pub fn background_color() -> (r: Color)
    ensures
        r == background(),
{
    (15, 22, 35)
}

/// The colour of the main texts.
pub open spec fn white() -> Color {
    (239, 244, 252)
}

/// The colour of the secondary texts.
pub open spec fn muted() -> Color {
    (147, 162, 183)
}

/// The heading of the picture.
pub open spec fn header(period: Period) -> Seq<DrawView> {
    seq![
        label(56, 42, 24, muted(), "SCHEDULE BOT  /  ОПЕРАЦИОННАЯ СВОДКА"@),
        label(56, 84, 48, white(), "Статистика бота"@),
        label(56, 146, 28, (100, 184, 255), "Период: "@ + period.title()),
    ]
}

/// The card of a metric's total.
pub open spec fn card(metric: Metric, count: int, x: int, y: int) -> Seq<DrawView> {
    seq![
        filled(x, y, 476, 108, (25, 36, 54)),
        outline(x, y, 476, 108, (47, 64, 86)),
        filled(x + 20, y + 24, 8, 60, metric.rgb()),
        label(x + 44, y + 18, 23, muted(), metric.title()),
        label(x + 44, y + 49, 38, white(), decimal(count as nat)),
    ]
}

/// The number of waiting messages; a dash where it is not known.
pub open spec fn queued_text(queued: int) -> Seq<char> {
    if queued < 0 {
        "—"@
    } else {
        signed_decimal(queued)
    }
}

/// The state of the queue.
pub open spec fn queue(queued: int) -> Seq<DrawView> {
    seq![
        label(56, 486, 28, white(), "Состояние очереди"@),
        label(56, 530, 22, muted(), "Уведомлений ожидают отправки"@),
        label(760, 518, 36, (67, 204, 150), queued_text(queued)),
    ]
}

/// The frame of the chart.
pub open spec fn chart() -> Seq<DrawView> {
    seq![
        filled(56, 584, 968, 482, (20, 30, 47)),
        outline(56, 584, 968, 482, (47, 64, 86)),
        label(82, 606, 25, white(), "Динамика событий"@),
    ]
}

/// The row of a metric in the chart.
pub open spec fn chart_row(data: DashboardData, i: int) -> Seq<DrawView> {
    let y = 658 + i * 76;
    let metric = metric_number(i);
    seq![
        label(82, y + 14, 19, muted(), metric.title()),
        label(82, y + 39, 22, white(), decimal(data.totals@[i] as nat)),
        filled(400, y, 584, 62, (25, 36, 54)),
        DrawView::Series {
            x: 405,
            y: y + 5,
            width: 574,
            height: 52,
            color: metric.rgb(),
            values: data.points@[i]@,
        },
    ]
}

/// The first `n` rows of the chart.
pub open spec fn chart_rows(data: DashboardData, n: int) -> Seq<DrawView>
    decreases n,
{
    if n <= 0 {
        seq![]
    } else {
        chart_rows(data, n - 1) + chart_row(data, n - 1)
    }
}

/// A number of seconds as a signed machine number of the same bits.
pub open spec fn signed(seconds: u64) -> int {
    if seconds <= i64::MAX {
        seconds as int
    } else {
        seconds - 0x1_0000_0000_0000_0000
    }
}

/// The time of the last successful delivery in words: `moment` is the minute that it names.
pub open spec fn success_text(last_success: u64, moment: Option<MinuteView>) -> Seq<char> {
    if last_success == 0 {
        "последний запуск не записан"@
    } else {
        match moment {
            Some(m) => "успешный запуск: "@ + dotted_short(m.date) + " "@ + clock(m) + " UTC"@,
            None => "время запуска неизвестно"@,
        }
    }
}

/// The line below the chart.
pub open spec fn footer(data: DashboardData) -> Seq<DrawView> {
    let made = data.generated_at@;
    seq![
        label(
            56,
            1_114,
            18,
            muted(),
            "Обновлено "@ + dotted(made.date) + " "@ + clock(made) + " UTC  ·  Планировщик: "@
                + success_text(
                data.scheduler_last_success,
                minute_at(signed(data.scheduler_last_success)),
            ),
        ),
    ]
}

/// What is drawn on the picture, in order.
pub open spec fn dashboard_picture(data: DashboardData) -> Seq<DrawView> {
    header(data.period) + card(Metric::Commands, data.totals@[0] as int, 56, 208) + card(
        Metric::OutboxSent,
        data.totals@[2] as int,
        548,
        208,
    ) + card(Metric::OutboxFailed, data.totals@[3] as int, 56, 340) + card(
        Metric::RateLimited,
        data.totals@[1] as int,
        548,
        340,
    ) + queue(data.queued as int) + chart() + chart_rows(data, 5) + footer(data)
}

fn push_card(list: &mut Vec<Draw>, metric: Metric, count: u64, x: i32, y: i32)
    requires
        0 <= x <= 10_000,
        0 <= y <= 10_000,
    ensures
        draws(final(list)@) == draws(old(list)@) + card(metric, count as int, x as int, y as int),
{
    push_filled(list, x, y, 476, 108, (25, 36, 54));
    push_outline(list, x, y, 476, 108, (47, 64, 86));
    push_filled(list, x + 20, y + 24, 8, 60, metric.color());
    push_label(list, x + 44, y + 18, 23, (147, 162, 183), metric.label().to_owned());
    push_label(list, x + 44, y + 49, 38, (239, 244, 252), decimal_text(count));
    assert(draws(list@) =~= draws(old(list)@) + card(metric, count as int, x as int, y as int));
}

fn copy_numbers(values: &Vec<u64>) -> (r: Vec<u64>)
    ensures
        r@ == values@,
{
    let mut r: Vec<u64> = Vec::new();
    let mut i: usize = 0;
    while i < values.len()
        invariant
            i <= values@.len(),
            r@ == values@.take(i as int),
        decreases values@.len() - i,
    {
        r.push(values[i]);
        i += 1;
    }
    r
}

fn push_chart_row(list: &mut Vec<Draw>, data: &DashboardData, i: usize)
    requires
        i < 5,
    ensures
        draws(final(list)@) == draws(old(list)@) + chart_row(*data, i as int),
{
    let y: i32 = 658 + (i as i32) * 76;
    let metric = metric_at(i);
    push_label(list, 82, y + 14, 19, (147, 162, 183), metric.label().to_owned());
    push_label(list, 82, y + 39, 22, (239, 244, 252), decimal_text(data.totals[i]));
    push_filled(list, 400, y, 584, 62, (25, 36, 54));
    push_series(list, 405, y + 5, 574, 52, metric.color(), copy_numbers(&data.points[i]));
    assert(draws(list@) =~= draws(old(list)@) + chart_row(*data, i as int));
}

/// The time of the last successful delivery in words: `moment` is the minute that it names.
pub fn scheduler_label(last_success: u64, moment: Option<UtcMinute>) -> (r: String)
    ensures
        r@ == success_text(last_success, crate::date::minute_of(moment)),
{
    if last_success == 0 {
        return "последний запуск не записан".to_owned();
    }
    match moment {
        Some(m) => {
            let day = m.date.dotted_short();
            let mut r = concat3("успешный запуск: ", day.as_str(), " ");
            let time = m.clock_text();
            r.append(time.as_str());
            r.append(" UTC");
            r
        },
        None => "время запуска неизвестно".to_owned(),
    }
}

fn as_signed(seconds: u64) -> (r: i64)
    ensures
        r == signed(seconds),
{
    if seconds <= i64::MAX as u64 {
        seconds as i64
    } else {
        (seconds as i128 - 0x1_0000_0000_0000_0000) as i64
    }
}

/// What is drawn on the picture, in order.
pub fn dashboard_plan(data: &DashboardData) -> (r: Vec<Draw>)
    ensures
        draws(r@) == dashboard_picture(*data),
{
    let mut list: Vec<Draw> = Vec::new();
    assert(draws(list@) =~= seq![]);
    push_label(
        &mut list,
        56,
        42,
        24,
        (147, 162, 183),
        "SCHEDULE BOT  /  ОПЕРАЦИОННАЯ СВОДКА".to_owned(),
    );
    push_label(&mut list, 56, 84, 48, (239, 244, 252), "Статистика бота".to_owned());
    push_label(
        &mut list,
        56,
        146,
        28,
        (100, 184, 255),
        concat2("Период: ", data.period.label()),
    );
    assert(draws(list@) =~= header(data.period));
    push_card(&mut list, Metric::Commands, data.totals[0], 56, 208);
    push_card(&mut list, Metric::OutboxSent, data.totals[2], 548, 208);
    push_card(&mut list, Metric::OutboxFailed, data.totals[3], 56, 340);
    push_card(&mut list, Metric::RateLimited, data.totals[1], 548, 340);
    let ghost before = draws(list@);
    push_label(&mut list, 56, 486, 28, (239, 244, 252), "Состояние очереди".to_owned());
    push_label(&mut list, 56, 530, 22, (147, 162, 183), "Уведомлений ожидают отправки".to_owned());
    let waiting = if data.queued < 0 {
        "—".to_owned()
    } else {
        signed_decimal_text(data.queued)
    };
    push_label(&mut list, 760, 518, 36, (67, 204, 150), waiting);
    assert(draws(list@) =~= before + queue(data.queued as int));
    let ghost before = draws(list@);
    push_filled(&mut list, 56, 584, 968, 482, (20, 30, 47));
    push_outline(&mut list, 56, 584, 968, 482, (47, 64, 86));
    push_label(&mut list, 82, 606, 25, (239, 244, 252), "Динамика событий".to_owned());
    assert(draws(list@) =~= before + chart());
    let ghost before = draws(list@);
    let mut i: usize = 0;
    assert(draws(list@) =~= before + chart_rows(*data, 0));
    while i < 5
        invariant
            i <= 5,
            draws(list@) == before + chart_rows(*data, i as int),
        decreases 5 - i,
    {
        push_chart_row(&mut list, data, i);
        i += 1;
        assert(draws(list@) =~= before + chart_rows(*data, i as int));
    }
    let ghost before = draws(list@);
    let day = data.generated_at.date.dotted();
    let mut line = concat3("Обновлено ", day.as_str(), " ");
    let time = data.generated_at.clock_text();
    line.append(time.as_str());
    line.append(" UTC  ·  Планировщик: ");
    let success = scheduler_label(
        data.scheduler_last_success,
        UtcMinute::from_timestamp(as_signed(data.scheduler_last_success)),
    );
    line.append(success.as_str());
    push_label(&mut list, 56, 1_114, 18, (147, 162, 183), line);
    assert(draws(list@) =~= before + footer(*data));
    list
}

} // verus!
