//! Timetables as chat messages.

use crate::date::{dotted, Date, DateView};
use crate::lesson::{lessons_view, Lesson, LessonView};
use crate::text::{
    concat2, concat3, decimal, decimal_text, has_prefix, join, joined, push_text, texts,
};
use vstd::prelude::*;

verus! {

/// Which day a daily message is about.
#[derive(Clone, Copy, Debug, PartialEq, Eq, Structural)]
pub enum DailyKind {
    Today,
    Tomorrow,
}

impl DailyKind {
    /// The name that the kind is stored under.
    pub open spec fn name(self) -> Seq<char> {
        match self {
            DailyKind::Today => "today"@,
            DailyKind::Tomorrow => "tomorrow"@,
        }
    }

    /// The name that the kind is stored under.
    pub fn as_str(self) -> (r: &'static str)
        ensures
            r@ == self.name(),
    {
        match self {
            DailyKind::Today => "today",
            DailyKind::Tomorrow => "tomorrow",
        }
    }
}

/// An optional part of a line, behind its sign.
pub open spec fn optional_part(sign: Seq<char>, part: Option<Seq<char>>) -> Seq<Seq<char>> {
    match part {
        Some(text) => seq![sign + text],
        None => seq![],
    }
}

/// What else is known of a lesson: its type, its teacher and, where asked for, its room.
pub open spec fn details(lesson: LessonView, show_room: bool) -> Seq<Seq<char>> {
    optional_part("🧩 "@, lesson.lesson_type) + optional_part("👩‍🏫 "@, lesson.teacher) + (
    if show_room {
        optional_part("📍 "@, lesson.room)
    } else {
        seq![]
    })
}

fn push_part(list: &mut Vec<String>, sign: &str, part: &Option<String>)
    ensures
        texts(final(list)@) == texts(old(list)@) + optional_part(
            sign@,
            crate::text::text_of(*part),
        ),
{
    match part {
        Some(text) => {
            push_text(list, concat2(sign, text.as_str()));
        },
        None => {},
    }
    assert(texts(list@) =~= texts(old(list)@) + optional_part(
        sign@,
        crate::text::text_of(*part),
    ));
}

/// What else is known of a lesson: its type, its teacher and, where asked for, its room.
pub fn lesson_details(lesson: &Lesson, show_room: bool) -> (r: Vec<String>)
    ensures
        texts(r@) == details(lesson@, show_room),
{
    let mut list: Vec<String> = Vec::new();
    assert(texts(list@) =~= seq![]);
    push_part(&mut list, "🧩 ", &lesson.lesson_type);
    push_part(&mut list, "👩‍🏫 ", &lesson.teacher);
    if show_room {
        push_part(&mut list, "📍 ", &lesson.room);
    }
    assert(texts(list@) =~= details(lesson@, show_room));
    list
}

/// The times and the number of a lesson.
pub open spec fn time_line(lesson: LessonView) -> Seq<char> {
    "🕒 "@ + lesson.start_time + "–"@ + lesson.end_time + " · пара №"@ + decimal(
        lesson.lesson_number as nat,
    )
}

/// The times and the number of a lesson.
pub fn lesson_time(lesson: &Lesson) -> (r: String)
    ensures
        r@ == time_line(lesson@),
{
    let mut line = concat3("🕒 ", lesson.start_time.as_str(), "–");
    line.append(lesson.end_time.as_str());
    line.append(" · пара №");
    let number = decimal_text(lesson.lesson_number as u64);
    line.append(number.as_str());
    line
}

/// The heading of a day.
pub open spec fn day_line(lesson: LessonView) -> Seq<char> {
    "🗓️ "@ + lesson.weekday + " · "@ + dotted(lesson.date)
}

/// The heading of a day.
pub fn lesson_day(lesson: &Lesson) -> (r: String)
    ensures
        r@ == day_line(lesson@),
{
    let mut line = concat3("🗓️ ", lesson.weekday.as_str(), " · ");
    let date = lesson.date.dotted();
    line.append(date.as_str());
    line
}

/// The lines of a lesson.
pub open spec fn lesson_lines(lesson: LessonView) -> Seq<Seq<char>> {
    seq![
        time_line(lesson),
        "👥 "@ + joined(lesson.groups, ", "@),
        "📖 "@ + lesson.subject,
    ] + (if details(lesson, true).len() > 0 {
        seq![joined(details(lesson, true), " · "@)]
    } else {
        seq![]
    }) + seq![seq![]]
}

/// Whether lesson `i` is the first of its day in the list.
pub open spec fn opens_day(lessons: Seq<LessonView>, i: int) -> bool {
    i == 0 || lessons[i - 1].date != lessons[i].date
}

/// The lines of the first `n` lessons, each day behind its heading where dates are shown.
pub open spec fn lessons_lines(lessons: Seq<LessonView>, n: int, show_dates: bool) -> Seq<Seq<char>>
    decreases n,
{
    if n <= 0 {
        seq![]
    } else {
        lessons_lines(lessons, n - 1, show_dates) + (if show_dates && opens_day(lessons, n - 1) {
            seq![seq![], day_line(lessons[n - 1])]
        } else {
            seq![]
        }) + lesson_lines(lessons[n - 1])
    }
}

/// The lines of a timetable.
pub open spec fn schedule_lines(
    title: Seq<char>,
    lessons: Seq<LessonView>,
    show_dates: bool,
) -> Seq<Seq<char>> {
    seq![title, "━━━━━━━━━━━━━━━━"@] + lessons_lines(lessons, lessons.len() as int, show_dates)
        + seq!["✨ Всего пар: "@ + decimal(lessons.len())]
}

/// A timetable as a message.
pub open spec fn schedule_text(
    title: Seq<char>,
    lessons: Seq<LessonView>,
    show_dates: bool,
) -> Seq<char> {
    joined(schedule_lines(title, lessons, show_dates), "\n"@)
}

fn push_lesson(lines: &mut Vec<String>, lesson: &Lesson)
    ensures
        texts(final(lines)@) == texts(old(lines)@) + lesson_lines(lesson@),
{
    push_text(lines, lesson_time(lesson));
    let groups = join(&lesson.groups, ", ");
    push_text(lines, concat2("👥 ", groups.as_str()));
    push_text(lines, concat2("📖 ", lesson.subject.as_str()));
    let parts = lesson_details(lesson, true);
    assert(parts@.len() == texts(parts@).len());
    if parts.len() > 0 {
        push_text(lines, join(&parts, " · "));
    }
    push_text(lines, String::new());
    assert(texts(lines@) =~= texts(old(lines)@) + lesson_lines(lesson@));
}

/// A timetable as a message.
pub fn format_schedule(title: &str, lessons: &[Lesson], show_dates: bool) -> (r: String)
    ensures
        r@ == schedule_text(title@, lessons_view(lessons@), show_dates),
{
    let mut lines: Vec<String> = Vec::new();
    push_text(&mut lines, title.to_owned());
    push_text(&mut lines, "━━━━━━━━━━━━━━━━".to_owned());
    let ghost head: Seq<Seq<char>> = seq![title@, "━━━━━━━━━━━━━━━━"@];
    let ghost all = lessons_view(lessons@);
    assert(texts(lines@) =~= head + lessons_lines(all, 0, show_dates));
    let total: usize = lessons.len();
    let mut i: usize = 0;
    while i < total
        invariant
            i <= total,
            total == lessons@.len(),
            all == lessons_view(lessons@),
            texts(lines@) == head + lessons_lines(all, i as int, show_dates),
        decreases total - i,
    {
        let ghost before = texts(lines@);
        if show_dates && (i == 0 || !lessons[i - 1].date.same(&lessons[i].date)) {
            push_text(&mut lines, String::new());
            push_text(&mut lines, lesson_day(&lessons[i]));
            assert(texts(lines@) =~= before + seq![seq![], day_line(all[i as int])]);
        } else {
            assert(texts(lines@) =~= before + seq![]);
        }
        push_lesson(&mut lines, &lessons[i]);
        i += 1;
        assert(texts(lines@) =~= head + lessons_lines(all, i as int, show_dates));
    }
    let count = decimal_text(total as u64);
    push_text(&mut lines, concat2("✨ Всего пар: ", count.as_str()));
    assert(texts(lines@) =~= schedule_lines(title@, all, show_dates));
    join(&lines, "\n")
}

/// The Russian name of the day that lies so many days after Monday.
pub open spec fn weekday_name(day: int) -> Seq<char> {
    if day == 0 {
        "понедельник"@
    } else if day == 1 {
        "вторник"@
    } else if day == 2 {
        "среда"@
    } else if day == 3 {
        "четверг"@
    } else if day == 4 {
        "пятница"@
    } else if day == 5 {
        "суббота"@
    } else {
        "воскресенье"@
    }
}

/// The Russian name of the day that lies so many days after Monday.
pub fn weekday_ru(day: u32) -> (r: &'static str)
    ensures
        r@ == weekday_name(day as int),
{
    match day {
        0 => "понедельник",
        1 => "вторник",
        2 => "среда",
        3 => "четверг",
        4 => "пятница",
        5 => "суббота",
        _ => "воскресенье",
    }
}

/// The heading of a daily message.
pub open spec fn delivery_heading(date: DateView, kind: DailyKind) -> Seq<char> {
    (match kind {
        DailyKind::Today => "☀️ Доброе утро! Расписание на сегодня · "@,
        DailyKind::Tomorrow => "🌙 План на завтра · "@,
    }) + weekday_name(date.weekday()) + " · "@ + dotted(date)
}

/// The daily message of a group.
pub open spec fn delivery_text(
    group: Seq<char>,
    date: DateView,
    kind: DailyKind,
    lessons: Seq<LessonView>,
) -> Seq<char> {
    let title = delivery_heading(date, kind) + "\n📚 Группа "@ + group;
    if lessons.len() == 0 {
        title + "\n\n📭 По опубликованному расписанию занятий нет."@
    } else {
        schedule_text(title, lessons, false)
    }
}

/// The daily message of a group.
pub fn format_daily_delivery(group: &str, date: Date, kind: DailyKind, lessons: &[Lesson]) -> (r:
    String)
    ensures
        r@ == delivery_text(group@, date@, kind, lessons_view(lessons@)),
{
    let mut title = match kind {
        DailyKind::Today => "☀️ Доброе утро! Расписание на сегодня · ".to_owned(),
        DailyKind::Tomorrow => "🌙 План на завтра · ".to_owned(),
    };
    title.append(weekday_ru(date.weekday()));
    title.append(" · ");
    let day = date.dotted();
    title.append(day.as_str());
    title.append("\n📚 Группа ");
    title.append(group);
    if lessons.len() == 0 {
        title.append("\n\n📭 По опубликованному расписанию занятий нет.");
        title
    } else {
        format_schedule(title.as_str(), lessons, false)
    }
}

proof fn lemma_joined_begins(list: Seq<Seq<char>>, separator: Seq<char>)
    requires
        list.len() > 0,
    ensures
        has_prefix(joined(list, separator), list[0]),
    decreases list.len(),
{
    if list.len() > 1 {
        lemma_joined_begins(list.drop_last(), separator);
        let head = joined(list.drop_last(), separator);
        assert(joined(list, separator).take(list[0].len() as int) =~= head.take(
            list[0].len() as int,
        ));
    } else {
        assert(list[0].take(list[0].len() as int) =~= list[0]);
    }
}

/// Every timetable begins with its title.
pub proof fn schedule_begins_with_its_title(
    title: Seq<char>,
    lessons: Seq<LessonView>,
    show_dates: bool,
)
    ensures
        has_prefix(schedule_text(title, lessons, show_dates), title),
{
    let lines = schedule_lines(title, lessons, show_dates);
    assert(lines[0] == title);
    lemma_joined_begins(lines, "\n"@);
}

/// Every daily message begins with the heading of its day, whether there are lessons or not.
pub proof fn delivery_begins_with_its_heading(
    group: Seq<char>,
    date: DateView,
    kind: DailyKind,
    lessons: Seq<LessonView>,
)
    ensures
        has_prefix(delivery_text(group, date, kind, lessons), delivery_heading(date, kind)),
{
    let heading = delivery_heading(date, kind);
    let title = heading + "\n📚 Группа "@ + group;
    let text = delivery_text(group, date, kind, lessons);
    if lessons.len() > 0 {
        schedule_begins_with_its_title(title, lessons, false);
        assert(text.take(heading.len() as int) =~= text.take(title.len() as int).take(
            heading.len() as int,
        ));
    }
    assert(title.take(heading.len() as int) =~= heading);
    assert(text.take(heading.len() as int) =~= heading);
}

} // verus!
