//! Timetables on the command line: which lessons a query selects, and how they are printed.

use crate::date::{date_in, date_of, dotted, hyphenated, parse_from_str, Date, DateView};
use crate::format::{
    day_line, details, lesson_day, lesson_details, lesson_time, opens_day, time_line,
};
use crate::lesson::{borrowed_view, lessons_view, Lesson, LessonView};
use crate::parser::{
    display_room_name, for_date, for_group, for_room, is_for_group, is_in_room, room_name,
};
use crate::text::{
    concat2, concat3, decimal, decimal_text, has_prefix, join, joined, same_text, texts,
};
use vstd::prelude::*;

verus! {

/// What is asked for.
#[derive(Debug)]
pub enum Command {
    /// The week of a group.
    Week { group: String },
    /// The lessons in a room.
    Room { room: String },
    /// The lessons of a day.
    Day { date: String },
}

/// The lessons that a query selects and how they are shown.
#[derive(Debug)]
pub struct Selection<'a> {
    pub title: String,
    pub pretty_heading: String,
    pub show_groups: bool,
    pub show_rooms: bool,
    pub show_day_headings: bool,
    pub lessons: Vec<&'a Lesson>,
}

/// The contents of a `Selection`.
pub struct SelectionView {
    pub title: Seq<char>,
    pub pretty_heading: Seq<char>,
    pub show_groups: bool,
    pub show_rooms: bool,
    pub show_day_headings: bool,
    pub lessons: Seq<LessonView>,
}

impl<'a> View for Selection<'a> {
    type V = SelectionView;

    open spec fn view(&self) -> SelectionView {
        SelectionView {
            title: self.title@,
            pretty_heading: self.pretty_heading@,
            show_groups: self.show_groups,
            show_rooms: self.show_rooms,
            show_day_headings: self.show_day_headings,
            lessons: borrowed_view(self.lessons@),
        }
    }
}

/// The contents of a query's outcome.
pub open spec fn outcome(r: Result<Selection<'_>, String>) -> Result<SelectionView, Seq<char>> {
    match r {
        Ok(selection) => Ok(selection@),
        Err(message) => Err(message@),
    }
}

/// The outcome of a query for a group, where `lessons` are the group's.
pub open spec fn week_selected(group: Seq<char>, lessons: Seq<LessonView>) -> Result<
    SelectionView,
    Seq<char>,
> {
    if lessons.len() == 0 {
        Err("группа `"@ + group + "` не найдена или в расписании нет занятий"@)
    } else {
        Ok(
            SelectionView {
                title: "Расписание группы "@ + group,
                pretty_heading: "📚 Расписание группы "@ + group,
                show_groups: false,
                show_rooms: true,
                show_day_headings: true,
                lessons,
            },
        )
    }
}

/// The outcome of a query for a group, where `lessons` are the group's.
pub fn week_selection<'a>(group: &str, lessons: Vec<&'a Lesson>) -> (r: Result<
    Selection<'a>,
    String,
>)
    ensures
        outcome(r) == week_selected(group@, borrowed_view(lessons@)),
{
    assert(lessons@.len() == borrowed_view(lessons@).len());
    if lessons.len() == 0 {
        Err(concat3("группа `", group, "` не найдена или в расписании нет занятий"))
    } else {
        Ok(
            Selection {
                title: concat2("Расписание группы ", group),
                pretty_heading: concat2("📚 Расписание группы ", group),
                show_groups: false,
                show_rooms: true,
                show_day_headings: true,
                lessons,
            },
        )
    }
}

/// The outcome of a query for a room with a displayed name, where `lessons` take place there.
pub open spec fn room_selected(name: Seq<char>, lessons: Seq<LessonView>) -> Result<
    SelectionView,
    Seq<char>,
> {
    if lessons.len() == 0 {
        Err("в аудитории `"@ + name + "` нет занятий"@)
    } else {
        Ok(
            SelectionView {
                title: "Расписание: "@ + name,
                pretty_heading: "🏫 Расписание: "@ + name,
                show_groups: true,
                show_rooms: false,
                show_day_headings: true,
                lessons,
            },
        )
    }
}

/// The outcome of a query for a room with a displayed name, where `lessons` take place there.
pub fn room_selection<'a>(name: &str, lessons: Vec<&'a Lesson>) -> (r: Result<
    Selection<'a>,
    String,
>)
    ensures
        outcome(r) == room_selected(name@, borrowed_view(lessons@)),
{
    assert(lessons@.len() == borrowed_view(lessons@).len());
    if lessons.len() == 0 {
        Err(concat3("в аудитории `", name, "` нет занятий"))
    } else {
        Ok(
            Selection {
                title: concat2("Расписание: ", name),
                pretty_heading: concat2("🏫 Расписание: ", name),
                show_groups: true,
                show_rooms: false,
                show_day_headings: true,
                lessons,
            },
        )
    }
}

/// The outcome of a query for a day, where `lessons` are the day's.
pub open spec fn day_selected(date: DateView, lessons: Seq<LessonView>) -> Result<
    SelectionView,
    Seq<char>,
> {
    if lessons.len() == 0 {
        Err("на "@ + hyphenated(date) + " нет занятий"@)
    } else {
        Ok(
            SelectionView {
                title: "Расписание на "@ + hyphenated(date),
                pretty_heading: "📅 Расписание на "@ + dotted(date) + " · "@ + lessons[0].weekday,
                show_groups: true,
                show_rooms: true,
                show_day_headings: false,
                lessons,
            },
        )
    }
}

/// The outcome of a query for a day, where `lessons` are the day's.
pub fn day_selection<'a>(date: Date, lessons: Vec<&'a Lesson>) -> (r: Result<Selection<'a>, String>)
    ensures
        outcome(r) == day_selected(date@, borrowed_view(lessons@)),
{
    assert(lessons@.len() == borrowed_view(lessons@).len());
    let plain = date.hyphenated();
    if lessons.len() == 0 {
        Err(concat3("на ", plain.as_str(), " нет занятий"))
    } else {
        let day = date.dotted();
        let mut pretty_heading = concat3("📅 Расписание на ", day.as_str(), " · ");
        let first: &Lesson = lessons[0];
        assert(borrowed_view(lessons@)[0] == first@);
        pretty_heading.append(first.weekday.as_str());
        Ok(
            Selection {
                title: concat2("Расписание на ", plain.as_str()),
                pretty_heading,
                show_groups: true,
                show_rooms: true,
                show_day_headings: false,
                lessons,
            },
        )
    }
}

/// The date that a text names, as day, month and year between dots or else as year, month and day
/// between hyphens.
pub open spec fn named_date(value: Seq<char>) -> Option<DateView> {
    match date_in(value, "%d.%m.%Y"@) {
        Some(date) => Some(date),
        None => date_in(value, "%Y-%m-%d"@),
    }
}

/// The date that a text names.
pub fn parse_cli_date(value: &str) -> (r: Option<Date>)
    ensures
        date_of(r) == named_date(value@),
{
    match parse_from_str(value, "%d.%m.%Y") {
        Some(date) => Some(date),
        None => parse_from_str(value, "%Y-%m-%d"),
    }
}

/// The message about a text that names no date.
pub open spec fn bad_date(value: Seq<char>) -> Seq<char> {
    "неверная дата `"@ + value + "`; используйте ДД.ММ.ГГГГ или ГГГГ-ММ-ДД"@
}

/// What a query selects.
pub open spec fn selected(lessons: Seq<LessonView>, command: Command) -> Result<
    SelectionView,
    Seq<char>,
> {
    match command {
        Command::Week { group } => week_selected(
            group@,
            lessons.filter(|lesson: LessonView| is_for_group(lesson, group@)),
        ),
        Command::Room { room } => room_selected(
            room_name(room@),
            lessons.filter(|lesson: LessonView| is_in_room(lesson, room@)),
        ),
        Command::Day { date } => match named_date(date@) {
            None => Err(bad_date(date@)),
            Some(day) => day_selected(
                day,
                lessons.filter(|lesson: LessonView| lesson.date == day),
            ),
        },
    }
}

/// What a query selects, or why it selects nothing.
pub fn select<'a>(lessons: &'a [Lesson], command: &Command) -> (r: Result<Selection<'a>, String>)
    ensures
        outcome(r) == selected(lessons_view(lessons@), *command),
{
    match command {
        Command::Week { group } => week_selection(
            group.as_str(),
            for_group(lessons, group.as_str()),
        ),
        Command::Room { room } => {
            let name = display_room_name(room.as_str());
            room_selection(name.as_str(), for_room(lessons, room.as_str()))
        },
        Command::Day { date } => match parse_cli_date(date.as_str()) {
            None => Err(
                concat3(
                    "неверная дата `",
                    date.as_str(),
                    "`; используйте ДД.ММ.ГГГГ или ГГГГ-ММ-ДД",
                ),
            ),
            Some(day) => day_selection(day, for_date(lessons, day)),
        },
    }
}

/// Two dates, as briefly as they allow.
pub open spec fn range_text(start: DateView, end: DateView) -> Seq<char> {
    if start == end {
        dotted(start)
    } else if start.year == end.year && start.month == end.month {
        decimal(start.day as nat) + "–"@ + decimal(end.day as nat) + "."@ + decimal(
            end.month as nat,
        ) + "."@ + crate::text::signed_decimal(end.year)
    } else {
        dotted(start) + "–"@ + dotted(end)
    }
}

/// Two dates, as briefly as they allow.
pub fn format_date_range(start: Date, end: Date) -> (r: String)
    ensures
        r@ == range_text(start@, end@),
{
    if start.same(&end) {
        return start.dotted();
    }
    if start.year() == end.year() && start.month() == end.month() {
        let first = decimal_text(start.day() as u64);
        let last = decimal_text(end.day() as u64);
        let mut r = concat3(first.as_str(), "–", last.as_str());
        r.append(".");
        let month = decimal_text(end.month() as u64);
        r.append(month.as_str());
        r.append(".");
        let year = crate::text::signed_decimal_text(end.year() as i64);
        r.append(year.as_str());
        r
    } else {
        let first = start.dotted();
        let last = end.dotted();
        concat3(first.as_str(), "–", last.as_str())
    }
}

/// The heading of the day that a lesson opens, if it opens one and headings are shown.
pub open spec fn day_part(lessons: Seq<LessonView>, i: int, show_day_headings: bool) -> Seq<char> {
    if show_day_headings && opens_day(lessons, i) {
        (if i > 0 {
            "\n\n"@
        } else {
            "\n"@
        }) + day_line(lessons[i]) + "\n"@
    } else {
        seq![]
    }
}

/// The line of the groups, where it is shown.
pub open spec fn groups_line(lesson: LessonView, show_groups: bool) -> Seq<char> {
    if show_groups {
        "   👥 "@ + joined(lesson.groups, ", "@) + "\n"@
    } else {
        seq![]
    }
}

/// The line of what else is known, where something is.
pub open spec fn details_line(lesson: LessonView, show_rooms: bool) -> Seq<char> {
    if details(lesson, show_rooms).len() > 0 {
        "   "@ + joined(details(lesson, show_rooms), " · "@) + "\n"@
    } else {
        seq![]
    }
}

/// The lines of a lesson.
pub open spec fn lesson_part(lesson: LessonView, show_groups: bool, show_rooms: bool) -> Seq<char> {
    "\n"@ + time_line(lesson) + "\n"@ + groups_line(lesson, show_groups) + "   📖 "@
        + lesson.subject + "\n"@ + details_line(lesson, show_rooms)
}

/// A text followed by the first `n` lessons, each day behind its heading.
pub open spec fn with_lessons(
    head: Seq<char>,
    lessons: Seq<LessonView>,
    n: int,
    show_groups: bool,
    show_rooms: bool,
    show_day_headings: bool,
) -> Seq<char>
    decreases n,
{
    if n <= 0 {
        head
    } else {
        with_lessons(head, lessons, n - 1, show_groups, show_rooms, show_day_headings) + day_part(
            lessons,
            n - 1,
            show_day_headings,
        ) + lesson_part(lessons[n - 1], show_groups, show_rooms)
    }
}

/// The days that the lessons span, where days are shown.
pub open spec fn span_part(lessons: Seq<LessonView>, show_day_headings: bool) -> Seq<char> {
    if show_day_headings && lessons.len() > 0 {
        " · "@ + range_text(lessons[0].date, lessons.last().date)
    } else {
        seq![]
    }
}

/// The printed timetable.
pub open spec fn pretty_text(
    lessons: Seq<LessonView>,
    heading: Seq<char>,
    show_groups: bool,
    show_rooms: bool,
    show_day_headings: bool,
) -> Seq<char> {
    with_lessons(
        heading + span_part(lessons, show_day_headings)
            + "\n━━━━━━━━━━━━━━━━━━━━━━━━━━━━━━━━━━━━━━━━\n"@,
        lessons,
        lessons.len() as int,
        show_groups,
        show_rooms,
        show_day_headings,
    ) + "\n✨ Всего занятий: "@ + decimal(lessons.len())
}

fn format_groups(lesson: &Lesson, show_groups: bool) -> (r: String)
    ensures
        r@ == groups_line(lesson@, show_groups),
{
    if show_groups {
        let groups = join(&lesson.groups, ", ");
        concat3("   👥 ", groups.as_str(), "\n")
    } else {
        String::new()
    }
}

fn format_details(lesson: &Lesson, show_rooms: bool) -> (r: String)
    ensures
        r@ == details_line(lesson@, show_rooms),
{
    let parts = lesson_details(lesson, show_rooms);
    assert(parts@.len() == texts(parts@).len());
    if parts.len() > 0 {
        let line = join(&parts, " · ");
        concat3("   ", line.as_str(), "\n")
    } else {
        String::new()
    }
}

fn format_lesson(lesson: &Lesson, show_groups: bool, show_rooms: bool) -> (r: String)
    ensures
        r@ == lesson_part(lesson@, show_groups, show_rooms),
{
    let time = lesson_time(lesson);
    let mut r = concat3("\n", time.as_str(), "\n");
    let groups = format_groups(lesson, show_groups);
    r.append(groups.as_str());
    r.append("   📖 ");
    r.append(lesson.subject.as_str());
    r.append("\n");
    let known = format_details(lesson, show_rooms);
    r.append(known.as_str());
    r
}

fn format_day(lessons: &[&Lesson], i: usize, show_day_headings: bool) -> (r: String)
    requires
        i < lessons@.len(),
    ensures
        r@ == day_part(borrowed_view(lessons@), i as int, show_day_headings),
{
    let ghost all = borrowed_view(lessons@);
    let lesson: &Lesson = lessons[i];
    assert(all[i as int] == lesson@);
    let opens = if i == 0 {
        true
    } else {
        let previous: &Lesson = lessons[i - 1];
        assert(all[i - 1] == previous@);
        !previous.date.same(&lesson.date)
    };
    if show_day_headings && opens {
        let day = lesson_day(lesson);
        concat3(
            if i > 0 {
                "\n\n"
            } else {
                "\n"
            },
            day.as_str(),
            "\n",
        )
    } else {
        String::new()
    }
}

fn format_span(lessons: &[&Lesson], show_day_headings: bool) -> (r: String)
    ensures
        r@ == span_part(borrowed_view(lessons@), show_day_headings),
{
    let ghost all = borrowed_view(lessons@);
    let total: usize = lessons.len();
    if show_day_headings && total > 0 {
        let first: &Lesson = lessons[0];
        let last: &Lesson = lessons[total - 1];
        assert(all[0] == first@ && all.last() == last@);
        let range = format_date_range(first.date, last.date);
        concat2(" · ", range.as_str())
    } else {
        String::new()
    }
}

/// The printed timetable.
pub fn format_pretty(
    lessons: &[&Lesson],
    heading: &str,
    show_groups: bool,
    show_rooms: bool,
    show_day_headings: bool,
) -> (r: String)
    ensures
        r@ == pretty_text(
            borrowed_view(lessons@),
            heading@,
            show_groups,
            show_rooms,
            show_day_headings,
        ),
{
    let ghost all = borrowed_view(lessons@);
    let total: usize = lessons.len();
    let span = format_span(lessons, show_day_headings);
    let mut output = concat3(
        heading,
        span.as_str(),
        "\n━━━━━━━━━━━━━━━━━━━━━━━━━━━━━━━━━━━━━━━━\n",
    );
    let ghost head = output@;
    let mut i: usize = 0;
    while i < total
        invariant
            i <= total,
            total == lessons@.len(),
            all == borrowed_view(lessons@),
            output@ == with_lessons(
                head,
                all,
                i as int,
                show_groups,
                show_rooms,
                show_day_headings,
            ),
        decreases total - i,
    {
        let day = format_day(lessons, i, show_day_headings);
        let lesson: &Lesson = lessons[i];
        assert(all[i as int] == lesson@);
        let block = format_lesson(lesson, show_groups, show_rooms);
        output.append(day.as_str());
        output.append(block.as_str());
        i += 1;
    }
    output.append("\n✨ Всего занятий: ");
    let count = decimal_text(total as u64);
    output.append(count.as_str());
    output
}

/// An argument of the program: `-pretty` is accepted for `--pretty`.
pub fn normalize_argument(argument: &str) -> (r: String)
    ensures
        r@ == if argument@ == "-pretty"@ {
            "--pretty"@
        } else {
            argument@
        },
{
    if same_text(argument, "-pretty") {
        "--pretty".to_owned()
    } else {
        argument.to_owned()
    }
}

proof fn lemma_with_lessons_begins(
    head: Seq<char>,
    lessons: Seq<LessonView>,
    n: int,
    show_groups: bool,
    show_rooms: bool,
    show_day_headings: bool,
)
    ensures
        has_prefix(
            with_lessons(head, lessons, n, show_groups, show_rooms, show_day_headings),
            head,
        ),
    decreases n,
{
    let text = with_lessons(head, lessons, n, show_groups, show_rooms, show_day_headings);
    if n <= 0 {
        assert(head.take(head.len() as int) =~= head);
    } else {
        lemma_with_lessons_begins(
            head,
            lessons,
            n - 1,
            show_groups,
            show_rooms,
            show_day_headings,
        );
        let shorter = with_lessons(
            head,
            lessons,
            n - 1,
            show_groups,
            show_rooms,
            show_day_headings,
        );
        let added = day_part(lessons, n - 1, show_day_headings);
        let last = lesson_part(lessons[n - 1], show_groups, show_rooms);
        assert(text == shorter + added + last);
        assert(text.take(head.len() as int) =~= shorter.take(head.len() as int));
    }
}

/// Every printed timetable begins with its heading.
pub proof fn printout_begins_with_its_heading(
    lessons: Seq<LessonView>,
    heading: Seq<char>,
    show_groups: bool,
    show_rooms: bool,
    show_day_headings: bool,
)
    ensures
        has_prefix(
            pretty_text(lessons, heading, show_groups, show_rooms, show_day_headings),
            heading,
        ),
{
    let head = heading + span_part(lessons, show_day_headings)
        + "\n━━━━━━━━━━━━━━━━━━━━━━━━━━━━━━━━━━━━━━━━\n"@;
    let n = lessons.len() as int;
    let text = pretty_text(lessons, heading, show_groups, show_rooms, show_day_headings);
    let body = with_lessons(head, lessons, n, show_groups, show_rooms, show_day_headings);
    lemma_with_lessons_begins(head, lessons, n, show_groups, show_rooms, show_day_headings);
    assert(text == body + "\n✨ Всего занятий: "@ + decimal(lessons.len()));
    assert(body.take(head.len() as int) == head);
    assert(text.take(heading.len() as int) =~= body.take(head.len() as int).take(
        heading.len() as int,
    ));
    assert(head.take(heading.len() as int) =~= heading);
}

} // verus!
