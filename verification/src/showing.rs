//! What a text that is sent or printed shows of what it was made from.

use crate::date::{dotted, dotted_short, DateView};
use crate::domain::UpdateKind;
use crate::format::{
    day_line, delivery_heading, delivery_text, details, lesson_lines, lessons_lines, opens_day,
    optional_part, schedule_lines, schedule_text, time_line, weekday_name, DailyKind,
};
use crate::lesson::LessonView;
use crate::store::{
    notice, preview_question, publication_notice, short_dates, week_text, PublicationView,
};
use crate::text::{decimal, joined};
use crate::parser::names_weekday;
use vstd::prelude::*;

verus! {

/// Whether a part stands somewhere in a text.
#[verifier::opaque]
pub open spec fn shows(text: Seq<char>, part: Seq<char>) -> bool {
    exists|at: int|
        0 <= at && at + part.len() <= text.len() && #[trigger] text.subrange(
            at,
            at + part.len(),
        ) == part
}

/// A text shows what one of its halves shows.
pub broadcast proof fn shown_in_a_half(first: Seq<char>, second: Seq<char>, part: Seq<char>)
    ensures
        shows(first, part) || shows(second, part) ==> #[trigger] shows(first + second, part),
{
    reveal(shows);
    let text = first + second;
    if shows(first, part) {
        let at = choose|at: int|
            0 <= at && at + part.len() <= first.len() && #[trigger] first.subrange(
                at,
                at + part.len(),
            ) == part;
        assert(text.subrange(at, at + part.len()) =~= part) by {
            assert forall|i: int| 0 <= i < part.len() implies text.subrange(
                at,
                at + part.len(),
            )[i] == part[i] by {
                assert(first.subrange(at, at + part.len())[i] == part[i]);
            }
        }
    }
    if shows(second, part) {
        let at = choose|at: int|
            0 <= at && at + part.len() <= second.len() && #[trigger] second.subrange(
                at,
                at + part.len(),
            ) == part;
        let from = first.len() + at;
        assert(text.subrange(from, from + part.len()) =~= part) by {
            assert forall|i: int| 0 <= i < part.len() implies text.subrange(
                from,
                from + part.len(),
            )[i] == part[i] by {
                assert(second.subrange(at, at + part.len())[i] == part[i]);
            }
        }
    }
}

/// A text shows itself.
pub broadcast proof fn shown_in_itself(text: Seq<char>)
    ensures
        #[trigger] shows(text, text),
{
    reveal(shows);
    assert(text.subrange(0, 0 + text.len() as int) =~= text);
}

pub broadcast group group_shown {
    shown_in_a_half,
    shown_in_itself,
}

/// A text shows what a part of it shows.
pub proof fn shown_in_a_part(text: Seq<char>, part: Seq<char>, inner: Seq<char>)
    requires
        shows(text, part),
        shows(part, inner),
    ensures
        shows(text, inner),
{
    reveal(shows);
    let at = choose|at: int|
        0 <= at && at + part.len() <= text.len() && #[trigger] text.subrange(
            at,
            at + part.len(),
        ) == part;
    let to = choose|to: int|
        0 <= to && to + inner.len() <= part.len() && #[trigger] part.subrange(
            to,
            to + inner.len(),
        ) == inner;
    let from = at + to;
    assert(text.subrange(from, from + inner.len()) =~= inner) by {
        assert forall|i: int| 0 <= i < inner.len() implies text.subrange(
            from,
            from + inner.len(),
        )[i] == inner[i] by {
            assert(part.subrange(to, to + inner.len())[i] == inner[i]);
            assert(text.subrange(at, at + part.len())[to + i] == part[to + i]);
        }
    }
}

/// A joined list shows each of its members.
pub proof fn shown_in_a_list(list: Seq<Seq<char>>, separator: Seq<char>, i: int)
    requires
        0 <= i < list.len(),
    ensures
        shows(joined(list, separator), list[i]),
    decreases list.len(),
{
    broadcast use group_shown;

    if list.len() > 1 {
        let before = list.drop_last();
        if i < before.len() {
            shown_in_a_list(before, separator, i);
            assert(before[i] == list[i]);
            assert(shows(joined(before, separator), list[i]));
        }
        assert(shows(joined(before, separator) + separator, list[i]) || i == list.len() - 1);
        assert(shows(joined(before, separator) + separator + list.last(), list[i]));
    }
}

/// Where the lines of lesson `i` stand among the lines of a timetable.
proof fn lemma_lesson_lines(lessons: Seq<LessonView>, n: int, show_dates: bool, i: int, k: int) -> (
    at: int)
    requires
        0 <= i < n <= lessons.len(),
        0 <= k < lesson_lines(lessons[i]).len(),
    ensures
        0 <= at < lessons_lines(lessons, n, show_dates).len(),
        lessons_lines(lessons, n, show_dates)[at] == lesson_lines(lessons[i])[k],
    decreases n,
{
    let before = lessons_lines(lessons, n - 1, show_dates);
    let own = lesson_lines(lessons[n - 1]);
    let all = lessons_lines(lessons, n, show_dates);
    if i < n - 1 {
        let at = lemma_lesson_lines(lessons, n - 1, show_dates, i, k);
        assert(all[at] == before[at]);
        at
    } else {
        let at = all.len() - own.len() + k;
        assert(all[at] == own[k]);
        at
    }
}

/// Where the heading of the day of lesson `i` stands among the lines of a timetable.
proof fn lemma_day_line(lessons: Seq<LessonView>, n: int, i: int) -> (at: int)
    requires
        0 <= i < n <= lessons.len(),
        opens_day(lessons, i),
    ensures
        0 <= at < lessons_lines(lessons, n, true).len(),
        lessons_lines(lessons, n, true)[at] == day_line(lessons[i]),
    decreases n,
{
    let before = lessons_lines(lessons, n - 1, true);
    let all = lessons_lines(lessons, n, true);
    if i < n - 1 {
        let at = lemma_day_line(lessons, n - 1, i);
        assert(all[at] == before[at]);
        at
    } else {
        let at = before.len() as int + 1;
        assert(all[at] == day_line(lessons[i]));
        at
    }
}

proof fn lemma_line_shown(
    title: Seq<char>,
    lessons: Seq<LessonView>,
    show_dates: bool,
    at: int,
    part: Seq<char>,
)
    requires
        0 <= at < lessons_lines(lessons, lessons.len() as int, show_dates).len(),
        shows(lessons_lines(lessons, lessons.len() as int, show_dates)[at], part),
    ensures
        shows(schedule_text(title, lessons, show_dates), part),
{
    let lines = schedule_lines(title, lessons, show_dates);
    let inner = lessons_lines(lessons, lessons.len() as int, show_dates);
    assert(lines[at + 2] == inner[at]);
    shown_in_a_list(lines, "\n"@, at + 2);
    shown_in_a_part(schedule_text(title, lessons, show_dates), inner[at], part);
}

proof fn lemma_details_shown(lesson: LessonView, show_room: bool)
    ensures
        lesson.lesson_type matches Some(kind) ==> shows(
            joined(details(lesson, show_room), " · "@),
            "🧩 "@ + kind,
        ) && details(lesson, show_room).len() > 0,
        lesson.teacher matches Some(teacher) ==> shows(
            joined(details(lesson, show_room), " · "@),
            "👩‍🏫 "@ + teacher,
        ) && details(lesson, show_room).len() > 0,
        show_room ==> (lesson.room matches Some(room) ==> shows(
            joined(details(lesson, show_room), " · "@),
            "📍 "@ + room,
        ) && details(lesson, show_room).len() > 0),
{
    let list = details(lesson, show_room);
    let first = optional_part("🧩 "@, lesson.lesson_type);
    let second = optional_part("👩‍🏫 "@, lesson.teacher);
    if lesson.lesson_type is Some {
        assert(list[0] == first[0]);
        shown_in_a_list(list, " · "@, 0);
    }
    if lesson.teacher is Some {
        let at = first.len() as int;
        assert(list[at] == second[0]);
        shown_in_a_list(list, " · "@, at);
    }
    if show_room && lesson.room is Some {
        let at = (first.len() + second.len()) as int;
        assert(list[at] == optional_part("📍 "@, lesson.room)[0]);
        shown_in_a_list(list, " · "@, at);
    }
}

/// What is else known of a lesson is its type, its teacher and, where asked for, its room, each where
/// it is known and once.
pub proof fn details_tell_what_is_known(lesson: LessonView, show_room: bool)
    ensures
        lesson.lesson_type matches Some(kind) ==> details(lesson, show_room).contains(
            "🧩 "@ + kind,
        ),
        lesson.teacher matches Some(teacher) ==> details(lesson, show_room).contains(
            "👩‍🏫 "@ + teacher,
        ),
        show_room ==> (lesson.room matches Some(room) ==> details(lesson, show_room).contains(
            "📍 "@ + room,
        )),
        details(lesson, show_room).len() == (if lesson.lesson_type is Some {
            1int
        } else {
            0
        }) + (if lesson.teacher is Some {
            1int
        } else {
            0
        }) + (if show_room && lesson.room is Some {
            1int
        } else {
            0
        }),
{
    let list = details(lesson, show_room);
    let first = optional_part("🧩 "@, lesson.lesson_type);
    let second = optional_part("👩‍🏫 "@, lesson.teacher);
    if lesson.lesson_type is Some {
        assert(list[0] == first[0]);
    }
    if lesson.teacher is Some {
        assert(list[first.len() as int] == second[0]);
    }
    if show_room && lesson.room is Some {
        assert(list[(first.len() + second.len()) as int] == optional_part(
            "📍 "@,
            lesson.room,
        )[0]);
    }
}

/// A timetable shows every lesson: its times, its number, its groups, its subject, and its type, its
/// teacher and its room where they are known.
pub proof fn timetable_shows_every_lesson(
    title: Seq<char>,
    lessons: Seq<LessonView>,
    show_dates: bool,
    i: int,
)
    requires
        0 <= i < lessons.len(),
    ensures
        ({
            let text = schedule_text(title, lessons, show_dates);
            let lesson = lessons[i];
            &&& shows(text, lesson.start_time + "–"@ + lesson.end_time)
            &&& shows(text, " · пара №"@ + decimal(lesson.lesson_number as nat))
            &&& forall|g: int|
                0 <= g < lesson.groups.len() ==> shows(text, #[trigger] lesson.groups[g])
            &&& shows(text, "📖 "@ + lesson.subject)
            &&& lesson.lesson_type matches Some(kind) ==> shows(text, "🧩 "@ + kind)
            &&& lesson.teacher matches Some(teacher) ==> shows(text, "👩‍🏫 "@ + teacher)
            &&& lesson.room matches Some(room) ==> shows(text, "📍 "@ + room)
        }),
{
    broadcast use group_shown;

    let text = schedule_text(title, lessons, show_dates);
    let lesson = lessons[i];
    let n = lessons.len() as int;
    let lines = lesson_lines(lesson);
    let number = decimal(lesson.lesson_number as nat);
    let at = lemma_lesson_lines(lessons, n, show_dates, i, 0);
    assert(time_line(lesson) =~= "🕒 "@ + (lesson.start_time + "–"@ + lesson.end_time) + (
    " · пара №"@ + number));
    assert(lines[0] == time_line(lesson));
    assert(shows(time_line(lesson), lesson.start_time + "–"@ + lesson.end_time));
    assert(shows(time_line(lesson), " · пара №"@ + number));
    lemma_line_shown(title, lessons, show_dates, at, lesson.start_time + "–"@ + lesson.end_time);
    lemma_line_shown(title, lessons, show_dates, at, " · пара №"@ + number);
    let at = lemma_lesson_lines(lessons, n, show_dates, i, 1);
    let names = joined(lesson.groups, ", "@);
    assert(lines[1] == "👥 "@ + names);
    assert forall|g: int| 0 <= g < lesson.groups.len() implies shows(
        text,
        #[trigger] lesson.groups[g],
    ) by {
        shown_in_a_list(lesson.groups, ", "@, g);
        assert(shows("👥 "@ + names, lesson.groups[g]));
        lemma_line_shown(title, lessons, show_dates, at, lesson.groups[g]);
    }
    let at = lemma_lesson_lines(lessons, n, show_dates, i, 2);
    assert(lines[2] == "📖 "@ + lesson.subject);
    lemma_line_shown(title, lessons, show_dates, at, "📖 "@ + lesson.subject);
    lemma_details_shown(lesson, true);
    if details(lesson, true).len() > 0 {
        let at = lemma_lesson_lines(lessons, n, show_dates, i, 3);
        assert(lines[3] == joined(details(lesson, true), " · "@));
        if let Some(kind) = lesson.lesson_type {
            lemma_line_shown(title, lessons, show_dates, at, "🧩 "@ + kind);
        }
        if let Some(teacher) = lesson.teacher {
            lemma_line_shown(title, lessons, show_dates, at, "👩‍🏫 "@ + teacher);
        }
        if let Some(room) = lesson.room {
            lemma_line_shown(title, lessons, show_dates, at, "📍 "@ + room);
        }
    }
}

proof fn lemma_first_of_day(lessons: Seq<LessonView>, i: int) -> (first: int)
    requires
        0 <= i < lessons.len(),
    ensures
        0 <= first <= i,
        opens_day(lessons, first),
        lessons[first].date == lessons[i].date,
    decreases i,
{
    if opens_day(lessons, i) {
        i
    } else {
        lemma_first_of_day(lessons, i - 1)
    }
}

/// A timetable with dates shows the date of every lesson, and the day of the week of the first lesson
/// of each day.
pub proof fn timetable_shows_its_days(title: Seq<char>, lessons: Seq<LessonView>, i: int)
    requires
        0 <= i < lessons.len(),
    ensures
        shows(schedule_text(title, lessons, true), dotted(lessons[i].date)),
        i == 0 || lessons[i - 1].date != lessons[i].date ==> shows(
            schedule_text(title, lessons, true),
            lessons[i].weekday + " · "@ + dotted(lessons[i].date),
        ),
{
    broadcast use group_shown;

    let n = lessons.len() as int;
    let first = lemma_first_of_day(lessons, i);
    let at = lemma_day_line(lessons, n, first);
    assert(shows(day_line(lessons[first]), dotted(lessons[i].date)));
    lemma_line_shown(title, lessons, true, at, dotted(lessons[i].date));
    if i == 0 || lessons[i - 1].date != lessons[i].date {
        let at = lemma_day_line(lessons, n, i);
        let day = lessons[i].weekday + " · "@ + dotted(lessons[i].date);
        assert(day_line(lessons[i]) =~= "🗓️ "@ + day);
        lemma_line_shown(title, lessons, true, at, day);
    }
}

/// A timetable shows its title and how many lessons it has.
pub proof fn timetable_shows_its_title_and_count(
    title: Seq<char>,
    lessons: Seq<LessonView>,
    show_dates: bool,
)
    ensures
        shows(schedule_text(title, lessons, show_dates), title),
        shows(
            schedule_text(title, lessons, show_dates),
            "✨ Всего пар: "@ + decimal(lessons.len()),
        ),
{
    let lines = schedule_lines(title, lessons, show_dates);
    assert(lines[0] == title);
    shown_in_a_list(lines, "\n"@, 0);
    assert(lines[lines.len() - 1] == "✨ Всего пар: "@ + decimal(lessons.len()));
    shown_in_a_list(lines, "\n"@, lines.len() - 1);
}

/// The days of the week are named in their order.
pub proof fn days_are_named_in_order(date: DateView)
    ensures
        weekday_name(date.weekday()) == seq![
            "понедельник"@,
            "вторник"@,
            "среда"@,
            "четверг"@,
            "пятница"@,
            "суббота"@,
            "воскресенье"@,
        ][(date.day_number() - 1) % 7],
{
}

/// A daily message shows whether it is about today or tomorrow, the day with its name and its date,
/// the group, and every lesson; and says so where there is none.
pub proof fn daily_message_shows_its_day(
    group: Seq<char>,
    date: DateView,
    kind: DailyKind,
    lessons: Seq<LessonView>,
)
    ensures
        ({
            let text = delivery_text(group, date, kind, lessons);
            &&& shows(text, weekday_name(date.weekday()) + " · "@ + dotted(date))
            &&& shows(text, "Группа "@ + group)
            &&& kind == DailyKind::Today ==> shows(text, "на сегодня"@)
            &&& kind == DailyKind::Tomorrow ==> shows(text, "на завтра"@)
            &&& lessons.len() == 0 ==> shows(text, "занятий нет"@)
            &&& forall|i: int|
                0 <= i < lessons.len() ==> shows(text, "📖 "@ + (#[trigger] lessons[i]).subject)
                    && shows(text, lessons[i].start_time + "–"@ + lessons[i].end_time)
        }),
{
    broadcast use group_shown;

    let text = delivery_text(group, date, kind, lessons);
    let day = weekday_name(date.weekday()) + " · "@ + dotted(date);
    let greeting = match kind {
        DailyKind::Today => "☀️ Доброе утро! Расписание на сегодня · "@,
        DailyKind::Tomorrow => "🌙 План на завтра · "@,
    };
    assert(delivery_heading(date, kind) =~= greeting + day);
    reveal_strlit("☀️ Доброе утро! Расписание на сегодня · ");
    reveal_strlit("🌙 План на завтра · ");
    reveal_strlit("на сегодня");
    reveal_strlit("на завтра");
    reveal_strlit("\n📚 Группа ");
    reveal_strlit("Группа ");
    reveal_strlit("занятий нет");
    reveal_strlit("\n\n📭 По опубликованному расписанию занятий нет.");
    let title = delivery_heading(date, kind) + "\n📚 Группа "@ + group;
    let head: Seq<char> = "\n📚 Группа "@.take(3);
    assert("\n📚 Группа "@ =~= head + "Группа "@);
    assert(title =~= greeting + day + head + ("Группа "@ + group));
    assert(shows(title, day) && shows(title, "Группа "@ + group));
    let today = "☀️ Доброе утро! Расписание на сегодня · "@;
    let tomorrow = "🌙 План на завтра · "@;
    assert(shows(today, "на сегодня"@)) by {
        reveal(shows);
        let at = today.len() - 3 - "на сегодня"@.len();
        assert(today.subrange(at, at + "на сегодня"@.len()) =~= "на сегодня"@);
    }
    assert(shows(tomorrow, "на завтра"@)) by {
        reveal(shows);
        let at = tomorrow.len() - 3 - "на завтра"@.len();
        assert(tomorrow.subrange(at, at + "на завтра"@.len()) =~= "на завтра"@);
    }
    if kind == DailyKind::Today {
        assert(shows(title, "на сегодня"@));
    } else {
        assert(shows(title, "на завтра"@));
    }
    if lessons.len() == 0 {
        let nothing = "\n\n📭 По опубликованному расписанию занятий нет."@;
        assert(shows(nothing, "занятий нет"@)) by {
            reveal(shows);
            let at = nothing.len() - 1 - "занятий нет"@.len();
            assert(nothing.subrange(at, at + "занятий нет"@.len()) =~= "занятий нет"@);
        }
        assert(text == title + nothing);
    } else {
        timetable_shows_its_title_and_count(title, lessons, false);
        shown_in_a_part(text, title, day);
        shown_in_a_part(text, title, "Группа "@ + group);
        if kind == DailyKind::Today {
            shown_in_a_part(text, title, "на сегодня"@);
        } else {
            shown_in_a_part(text, title, "на завтра"@);
        }
        assert forall|i: int| 0 <= i < lessons.len() implies shows(
            text,
            "📖 "@ + (#[trigger] lessons[i]).subject,
        ) && shows(text, lessons[i].start_time + "–"@ + lessons[i].end_time) by {
            timetable_shows_every_lesson(title, lessons, false, i);
        }
    }
}

proof fn lemma_dates_shown(dates: Seq<DateView>, i: int)
    requires
        0 <= i < dates.len(),
    ensures
        shows(short_dates(dates), dotted_short(dates[i])),
{
    let list = dates.map_values(|date: DateView| dotted_short(date));
    assert(list[i] == dotted_short(dates[i]));
    shown_in_a_list(list, ", "@, i);
}

/// Whoever is told of a publication is told of its week and, for a correction, of every changed day
/// and of how many lessons came and went.
pub proof fn notice_tells_the_change(update: PublicationView)
    ensures
        shows(notice(update), dotted_short(update.week_start) + "–"@ + dotted(update.week_end)),
        update.kind == UpdateKind::NewWeek ==> shows(notice(update), "новую неделю"@),
        update.kind == UpdateKind::Correction ==> {
            &&& shows(notice(update), "Добавлено пар: "@ + decimal(update.diff.added as nat))
            &&& shows(notice(update), "удалено пар: "@ + decimal(update.diff.removed as nat))
            &&& forall|i: int|
                0 <= i < update.diff.changed_dates.len() ==> shows(
                    notice(update),
                    dotted_short(#[trigger] update.diff.changed_dates[i]),
                )
        },
{
    broadcast use group_shown;

    let text = notice(update);
    let week = week_text(update.week_start, update.week_end);
    let dates = short_dates(update.diff.changed_dates);
    if update.kind == UpdateKind::NewWeek {
        reveal_strlit("🆕 Опубликовано расписание на новую неделю: ");
        reveal_strlit("новую неделю");
        let head = "🆕 Опубликовано расписание на новую неделю: "@;
        assert(shows(head, "новую неделю"@)) by {
            reveal(shows);
            let at = head.len() - 2 - "новую неделю"@.len();
            assert(head.subrange(at, at + "новую неделю"@.len()) =~= "новую неделю"@);
        }
        assert(shows(text, week));
    } else {
        reveal_strlit(". Добавлено пар: ");
        reveal_strlit("Добавлено пар: ");
        reveal_strlit(", удалено пар: ");
        reveal_strlit("удалено пар: ");
        let added = decimal(update.diff.added as nat);
        let removed = decimal(update.diff.removed as nat);
        let head = "🔄 Обновлено расписание на неделю "@ + week + ". Изменены дни: "@ + dates;
        let point: Seq<char> = seq!['.', ' '];
        let comma: Seq<char> = seq![',', ' '];
        assert(text =~= head + point + ("Добавлено пар: "@ + added) + comma + ("удалено пар: "@
            + removed) + "."@) by {
            assert(". Добавлено пар: "@ =~= point + "Добавлено пар: "@);
            assert(", удалено пар: "@ =~= comma + "удалено пар: "@);
        }
        assert(shows(text, week));
        assert forall|i: int| 0 <= i < update.diff.changed_dates.len() implies shows(
            text,
            dotted_short(#[trigger] update.diff.changed_dates[i]),
        ) by {
            lemma_dates_shown(update.diff.changed_dates, i);
            assert(shows(head, dotted_short(update.diff.changed_dates[i])));
        }
    }
}

/// The administrator is told the week of a publication and, for a correction, every changed day.
pub proof fn publication_is_reported(update: PublicationView)
    ensures
        shows(
            publication_notice(update),
            dotted_short(update.week_start) + "–"@ + dotted(update.week_end),
        ),
        update.kind == UpdateKind::NewWeek ==> shows(publication_notice(update), "Новая неделя"@),
        update.kind == UpdateKind::Correction ==> {
            &&& shows(publication_notice(update), "актуализировано"@)
            &&& forall|i: int|
                0 <= i < update.diff.changed_dates.len() ==> shows(
                    publication_notice(update),
                    dotted_short(#[trigger] update.diff.changed_dates[i]),
                )
        },
{
    broadcast use group_shown;

    let text = publication_notice(update);
    let week = week_text(update.week_start, update.week_end);
    assert(shows(text, week));
    if update.kind == UpdateKind::NewWeek {
        reveal_strlit("✅ Новая неделя опубликована: ");
        reveal_strlit("Новая неделя");
        let head = "✅ Новая неделя опубликована: "@;
        assert(shows(head, "Новая неделя"@)) by {
            reveal(shows);
            assert(head.subrange(2, 2 + "Новая неделя"@.len() as int) =~= "Новая неделя"@);
        }
    } else {
        reveal_strlit("✅ Расписание актуализировано на ");
        reveal_strlit("актуализировано");
        let head = "✅ Расписание актуализировано на "@;
        assert(shows(head, "актуализировано"@)) by {
            reveal(shows);
            let at = head.len() - 4 - "актуализировано"@.len();
            assert(head.subrange(at, at + "актуализировано"@.len()) =~= "актуализировано"@);
        }
        assert forall|i: int| 0 <= i < update.diff.changed_dates.len() implies shows(
            text,
            dotted_short(#[trigger] update.diff.changed_dates[i]),
        ) by {
            lemma_dates_shown(update.diff.changed_dates, i);
        }
    }
}

/// Before a publication the administrator sees whether the week is new, which week it is, every group
/// and every day that changes, and how many lessons come and go.
pub proof fn preview_shows_the_change(update: PublicationView)
    ensures
        ({
            let text = preview_question(update);
            &&& update.kind == UpdateKind::NewWeek ==> shows(text, "🆕 Новая неделя"@)
            &&& update.kind == UpdateKind::Correction ==> shows(
                text,
                "🔄 Актуализация существующей недели"@,
            )
            &&& shows(text, dotted(update.week_start) + "–"@ + dotted(update.week_end))
            &&& forall|i: int|
                0 <= i < update.diff.changed_groups.len() ==> shows(
                    text,
                    #[trigger] update.diff.changed_groups[i],
                )
            &&& forall|i: int|
                0 <= i < update.diff.changed_dates.len() && dotted_short(
                    update.diff.changed_dates[i],
                ).len() > 0 ==> shows(text, dotted_short(#[trigger] update.diff.changed_dates[i]))
            &&& shows(text, "\nДобавлено пар: "@ + decimal(update.diff.added as nat))
            &&& shows(text, ", удалено пар: "@ + decimal(update.diff.removed as nat))
        }),
{
    broadcast use group_shown;

    let text = preview_question(update);
    let kind = match update.kind {
        UpdateKind::NewWeek => "🆕 Новая неделя"@,
        UpdateKind::Correction => "🔄 Актуализация существующей недели"@,
    };
    let week = dotted(update.week_start) + "–"@ + dotted(update.week_end);
    let groups = if update.diff.changed_groups.len() == 0 {
        "—"@
    } else {
        joined(update.diff.changed_groups, ", "@)
    };
    let dates = crate::store::or_dash(short_dates(update.diff.changed_dates));
    let added = "\nДобавлено пар: "@ + decimal(update.diff.added as nat);
    let removed = ", удалено пар: "@ + decimal(update.diff.removed as nat);
    assert(text =~= kind + "\nПериод: "@ + week + "\nЗатронутые группы: "@ + groups
        + "\nИзменённые дни: "@ + dates + added + removed + "\n\nОпубликовать это расписание?"@);
    assert(shows(text, kind) && shows(text, week) && shows(text, added) && shows(text, removed));
    assert forall|i: int| 0 <= i < update.diff.changed_groups.len() implies shows(
        text,
        #[trigger] update.diff.changed_groups[i],
    ) by {
        shown_in_a_list(update.diff.changed_groups, ", "@, i);
        assert(shows(groups, update.diff.changed_groups[i]));
    }
    assert forall|i: int|
        0 <= i < update.diff.changed_dates.len() && dotted_short(
            update.diff.changed_dates[i],
        ).len() > 0 implies shows(
        text,
        dotted_short(#[trigger] update.diff.changed_dates[i]),
    ) by {
        let day = dotted_short(update.diff.changed_dates[i]);
        lemma_dates_shown(update.diff.changed_dates, i);
        assert(short_dates(update.diff.changed_dates).len() > 0) by {
            reveal(shows);
        }
        assert(shows(dates, day));
    }
}

proof fn lemma_first_lines(lessons: Seq<LessonView>, lesson: LessonView, n: int, show_dates: bool)
    requires
        0 <= n <= lessons.len(),
    ensures
        lessons_lines(lessons.push(lesson), n, show_dates) == lessons_lines(lessons, n, show_dates),
    decreases n,
{
    if n > 0 {
        lemma_first_lines(lessons, lesson, n - 1, show_dates);
        let all = lessons.push(lesson);
        assert(all[n - 1] == lessons[n - 1]);
        if n > 1 {
            assert(all[n - 2] == lessons[n - 2]);
        }
    }
}

/// Lessons are shown in their order, each once: behind what it shows of the others a timetable shows
/// of one more lesson a line each for its time, its groups and its subject, one for what else is known
/// of it if there is anything, and an empty one; before them, where dates are shown and its day is a
/// new one, an empty line and one for the day.
pub proof fn lessons_are_shown_in_their_order(
    title: Seq<char>,
    lessons: Seq<LessonView>,
    lesson: LessonView,
    show_dates: bool,
)
    ensures
        ({
            let lines = schedule_lines(title, lessons, show_dates).drop_last();
            let more = schedule_lines(title, lessons.push(lesson), show_dates).drop_last();
            let new_day = show_dates && (lessons.len() == 0 || lessons.last().date != lesson.date);
            let known = lesson.lesson_type is Some || lesson.teacher is Some || lesson.room is Some;
            &&& lines.is_prefix_of(more)
            &&& more.len() == lines.len() + 4 + (if known {
                1int
            } else {
                0
            }) + (if new_day {
                2int
            } else {
                0
            })
            &&& more.last() == Seq::<char>::empty()
        }),
{
    let n = lessons.len() as int;
    let all = lessons.push(lesson);
    lemma_first_lines(lessons, lesson, n, show_dates);
    assert(all[n] == lesson);
    if n > 0 {
        assert(all[n - 1] == lessons.last());
    }
    let lines = schedule_lines(title, lessons, show_dates).drop_last();
    let more = schedule_lines(title, all, show_dates).drop_last();
    let head = seq![title, "━━━━━━━━━━━━━━━━"@];
    assert(lines =~= head + lessons_lines(lessons, n, show_dates));
    assert(more =~= head + lessons_lines(all, n + 1, show_dates));
    assert(lines =~= more.take(lines.len() as int));
    details_tell_what_is_known(lesson, true);
    let own = lesson_lines(lesson);
    assert(own.last() =~= seq![]);
    assert(more.last() == own.last());
}

/// Tables and messages name the days of the week alike, tables with a capital letter; they name no
/// other days.
pub proof fn tables_name_the_same_days(name: Seq<char>)
    ensures
        names_weekday(name) <==> exists|day: int|
            0 <= day < 7 && name.len() == (#[trigger] weekday_name(day)).len() && name.skip(1)
                == weekday_name(day).skip(1) && name[0] as int + 32 == weekday_name(day)[0] as int,
{
    lemma_day_names();
    let names = seq![
        "Понедельник"@,
        "Вторник"@,
        "Среда"@,
        "Четверг"@,
        "Пятница"@,
        "Суббота"@,
        "Воскресенье"@,
    ];
    if names_weekday(name) {
        let day = choose|day: int| 0 <= day < 7 && names[day] == name;
        assert(names[0] == "Понедельник"@ && names[1] == "Вторник"@ && names[2] == "Среда"@
            && names[3] == "Четверг"@ && names[4] == "Пятница"@ && names[5] == "Суббота"@ && names[6]
            == "Воскресенье"@);
        assert(name.len() == weekday_name(day).len());
    }
    if exists|day: int|
        0 <= day < 7 && name.len() == (#[trigger] weekday_name(day)).len() && name.skip(1)
            == weekday_name(day).skip(1) && name[0] as int + 32 == weekday_name(day)[0] as int {
        let day = choose|day: int|
            0 <= day < 7 && name.len() == (#[trigger] weekday_name(day)).len() && name.skip(1)
                == weekday_name(day).skip(1) && name[0] as int + 32 == weekday_name(day)[0] as int;
        let capital = names[day];
        assert(name.skip(1) == capital.skip(1) && name.len() == capital.len() && name[0]
            == capital[0]);
        assert(name =~= seq![name[0]] + name.skip(1));
        assert(capital =~= seq![capital[0]] + capital.skip(1));
        assert(name == capital);
    }
}

proof fn lemma_day_name(capital: Seq<char>, small: Seq<char>)
    requires
        capital.len() == small.len() > 0,
        forall|i: int| 1 <= i < capital.len() ==> capital[i] == small[i],
    ensures
        capital.skip(1) == small.skip(1),
{
    assert(capital.skip(1) =~= small.skip(1));
}

spec fn is_capital_of(capital: Seq<char>, small: Seq<char>) -> bool {
    &&& capital.len() == small.len() > 0
    &&& capital.skip(1) == small.skip(1)
    &&& capital[0] as int + 32 == small[0] as int
}

proof fn lemma_day_names()
    ensures
        is_capital_of("Понедельник"@, weekday_name(0)),
        is_capital_of("Вторник"@, weekday_name(1)),
        is_capital_of("Среда"@, weekday_name(2)),
        is_capital_of("Четверг"@, weekday_name(3)),
        is_capital_of("Пятница"@, weekday_name(4)),
        is_capital_of("Суббота"@, weekday_name(5)),
        is_capital_of("Воскресенье"@, weekday_name(6)),
{
    reveal_strlit("Понедельник");
    reveal_strlit("Вторник");
    reveal_strlit("Среда");
    reveal_strlit("Четверг");
    reveal_strlit("Пятница");
    reveal_strlit("Суббота");
    reveal_strlit("Воскресенье");
    reveal_strlit("понедельник");
    reveal_strlit("вторник");
    reveal_strlit("среда");
    reveal_strlit("четверг");
    reveal_strlit("пятница");
    reveal_strlit("суббота");
    reveal_strlit("воскресенье");
    lemma_day_name("Понедельник"@, weekday_name(0));
    lemma_day_name("Вторник"@, weekday_name(1));
    lemma_day_name("Среда"@, weekday_name(2));
    lemma_day_name("Четверг"@, weekday_name(3));
    lemma_day_name("Пятница"@, weekday_name(4));
    lemma_day_name("Суббота"@, weekday_name(5));
    lemma_day_name("Воскресенье"@, weekday_name(6));
}

} // verus!
