//! What every reading of a timetable keeps: where each lesson stands in its sheet.

use crate::date::{date_in, DateView};
use crate::lesson::LessonView;
use crate::parser::{
    begins_day, cell_in, cell_lessons, columns, columns_from, columns_lessons, day_by,
    description_parts, end_after, goes_on, group_names, header_row, is_timed, is_timetable,
    later_lessons, lesson_at, names_weekday, room_name, row_date, row_lessons, row_number, row_room,
    rows_lessons, sheet_lessons, time_range, ColumnView, DayView, EntryView,
};
use crate::text::{trimmed, unsigned_number};
use vstd::prelude::*;

verus! {

/// The cell of a row in column `col`; empty where the row ends before it.
pub open spec fn cell(row: Seq<Seq<char>>, col: int) -> Seq<char> {
    if col < row.len() {
        row[col]
    } else {
        seq![]
    }
}

/// Whether the first cell of a row names a day of the week.
pub open spec fn names_day(row: Seq<Seq<char>>) -> bool {
    row.len() > 0 && names_weekday(row[0])
}

/// The date in the second cell of a row, in one of its two forms.
pub open spec fn date_told(row: Seq<Seq<char>>) -> Option<DateView> {
    if row.len() <= 1 {
        None
    } else if date_in(trimmed(row[1]), "%d.%m.%Y"@) is Some {
        date_in(trimmed(row[1]), "%d.%m.%Y"@)
    } else {
        date_in(trimmed(row[1]), "%Y-%m-%d"@)
    }
}

/// The room in the cell behind column `col`.
pub open spec fn room_told(row: Seq<Seq<char>>, col: int) -> Option<Seq<char>> {
    if trimmed(cell(row, col + 1)).len() == 0 {
        None
    } else {
        Some(room_name(trimmed(cell(row, col + 1))))
    }
}

/// Whether a row gives a pair: a number from 1 to 255 in its third cell and a time in its fourth.
pub open spec fn gives_pair(row: Seq<Seq<char>>) -> bool {
    &&& unsigned_number(cell(row, 2), 255) matches Some(number) && number > 0
    &&& time_range(cell(row, 3)) is Some
}

/// Whether a row goes on with a lesson in a room: no day and no date stands there, no subject, and
/// the same room.
pub open spec fn keeps_room(row: Seq<Seq<char>>, col: int, room: Option<Seq<char>>) -> bool {
    &&& !names_day(row)
    &&& date_told(row) is None
    &&& trimmed(cell(row, col)).len() == 0
    &&& room is Some
    &&& room_told(row, col) == room
}

/// Whether `name` is the day that row `at` belongs to: the name in the nearest row, at or above it,
/// that names one; empty where none does from row `first` on.
pub open spec fn is_day_above(
    name: Seq<char>,
    rows: Seq<Seq<Seq<char>>>,
    first: int,
    at: int,
) -> bool {
    ||| exists|d: int|
        first <= d <= at && names_day(#[trigger] rows[d]) && rows[d][0] == name && forall|k: int|
            d < k <= at ==> !names_day(#[trigger] rows[k])
    ||| name.len() == 0 && forall|k: int| first <= k <= at ==> !names_day(#[trigger] rows[k])
}

/// Whether `date` is the date that row `at` belongs to: the date in the nearest row, at or above it,
/// that gives one, where no day begins in between.
pub open spec fn is_date_above(
    date: DateView,
    rows: Seq<Seq<Seq<char>>>,
    first: int,
    at: int,
) -> bool {
    exists|e: int|
        {
            &&& first <= e <= at
            &&& date_told(#[trigger] rows[e]) == Some(date)
            &&& names_day(rows[e]) || cell(rows[e], 1).len() > 0
            &&& forall|k: int|
                e < k <= at ==> !names_day(#[trigger] rows[k]) && (date_told(rows[k]) is None
                    || cell(rows[k], 1).len() == 0)
        }
}

/// Whether `end` is the end of the time in row `to`, where the rows behind row `at` up to row `last`
/// go on with its lesson before the next pair, and give no time behind row `to`.
pub open spec fn is_end_at(
    end: Seq<char>,
    rows: Seq<Seq<Seq<char>>>,
    col: int,
    room: Option<Seq<char>>,
    at: int,
    to: int,
    last: int,
) -> bool {
    &&& at <= to <= last < rows.len()
    &&& time_range(cell(rows[to], 3)) matches Some(time) && time.1 == end
    &&& forall|k: int|
        at < k <= last ==> keeps_room(#[trigger] rows[k], col, room) && !gives_pair(rows[k])
    &&& forall|k: int| to < k <= last ==> time_range(cell(#[trigger] rows[k], 3)) is None
    &&& last + 1 == rows.len() || !keeps_room(rows[last + 1], col, room) || gives_pair(
        rows[last + 1],
    )
}

/// Whether `end` is when a lesson of row `at` ends: the end of the last time that stands in its own
/// row or in the rows that go on with it before the next pair.
pub open spec fn is_end_below(
    end: Seq<char>,
    rows: Seq<Seq<Seq<char>>>,
    col: int,
    room: Option<Seq<char>>,
    at: int,
) -> bool {
    exists|to: int, last: int| is_end_at(end, rows, col, room, at, to, last)
}

/// Whether a lesson is told by a sheet whose header is row `header`: its subject stands in row `top`
/// of column `col`, and its pair in row `at`, which is `top` or goes on with it.
pub open spec fn is_told_by(
    lesson: LessonView,
    rows: Seq<Seq<Seq<char>>>,
    header: int,
    col: int,
    top: int,
    at: int,
) -> bool {
    &&& header + 2 <= top <= at < rows.len()
    &&& 4 <= col < rows[header].len() && (col - 4) % 2 == 0
    &&& lesson.groups == group_names(rows[header][col]) && lesson.groups.len() > 0
    &&& lesson.description == cell(rows[top], col) && trimmed(lesson.description).len() > 0
    &&& lesson.subject == description_parts(lesson.description).subject
    &&& lesson.lesson_type == description_parts(lesson.description).kind
    &&& lesson.teacher == description_parts(lesson.description).teacher
    &&& lesson.room == room_told(rows[top], col)
    &&& forall|k: int| top < k <= at ==> keeps_room(#[trigger] rows[k], col, lesson.room)
    &&& gives_pair(rows[top]) && gives_pair(rows[at])
    &&& unsigned_number(cell(rows[at], 2), 255) == Some(lesson.lesson_number)
    &&& time_range(cell(rows[at], 3)) matches Some(time) && time.0 == lesson.start_time
    &&& is_end_below(lesson.end_time, rows, col, lesson.room, at)
    &&& is_day_above(lesson.weekday, rows, header + 2, at)
    &&& is_date_above(lesson.date, rows, header + 2, at)
}

/// Whether a lesson is told by a sheet whose header is row `header`.
pub open spec fn is_told(lesson: LessonView, rows: Seq<Seq<Seq<char>>>, header: int) -> bool {
    exists|col: int, top: int, at: int| is_told_by(lesson, rows, header, col, top, at)
}

/// Whether row `header` is the first that holds the heading of the day column.
pub open spec fn is_header_row(rows: Seq<Seq<Seq<char>>>, header: int) -> bool {
    &&& 0 <= header < rows.len()
    &&& rows[header].contains("День"@)
    &&& forall|k: int| 0 <= k < header ==> !(#[trigger] rows[k]).contains("День"@)
}

proof fn lemma_names(row: Seq<Seq<char>>, col: int, room: Option<Seq<char>>)
    requires
        col >= 0,
    ensures
        cell(row, col) == cell_in(row, col),
        names_day(row) == begins_day(row),
        date_told(row) == row_date(row),
        room_told(row, col) == row_room(row, col),
        gives_pair(row) == is_timed(row),
        keeps_room(row, col, room) == goes_on(row, col, room),
{
    assert(cell(row, col + 1) == cell_in(row, col + 1));
    crate::text::trim_is_idempotent(cell(row, col + 1));
}

proof fn lemma_header(rows: Seq<Seq<Seq<char>>>, from: int)
    requires
        0 <= from <= rows.len(),
        forall|k: int| 0 <= k < from ==> !(#[trigger] rows[k]).contains("День"@),
    ensures
        from <= header_row(rows, from) <= rows.len(),
        header_row(rows, from) < rows.len() ==> is_header_row(rows, header_row(rows, from)),
        header_row(rows, from) == rows.len() ==> forall|k: int|
            0 <= k < rows.len() ==> !(#[trigger] rows[k]).contains("День"@),
    decreases rows.len() - from,
{
    if from < rows.len() && !rows[from].contains("День"@) {
        lemma_header(rows, from + 1);
    }
}

proof fn lemma_one_header(rows: Seq<Seq<Seq<char>>>, header: int)
    requires
        is_header_row(rows, header),
    ensures
        header_row(rows, 0) == header,
{
    lemma_header(rows, 0);
    let found = header_row(rows, 0);
    if found < header {
        assert(!rows[found].contains("День"@));
    }
}

proof fn lemma_columns(header: Seq<Seq<char>>, from: int)
    requires
        from >= 4,
        (from - 4) % 2 == 0,
    ensures
        forall|i: int|
            0 <= i < columns_from(header, from).len() ==> {
                let column = #[trigger] columns_from(header, from)[i];
                &&& from <= column.col < header.len()
                &&& (column.col - 4) % 2 == 0
                &&& column.groups == group_names(header[column.col])
                &&& column.groups.len() > 0
            },
        forall|col: int|
            from <= col < header.len() && (col - 4) % 2 == 0 && (#[trigger] group_names(
                header[col],
            )).len() > 0 ==> columns_from(header, from).contains(
                ColumnView { col, groups: group_names(header[col]) },
            ),
    decreases header.len() + 1 - from,
{
    if from < header.len() {
        lemma_columns(header, from + 2);
        let groups = group_names(header[from]);
        let all = columns_from(header, from);
        let rest = columns_from(header, from + 2);
        assert forall|col: int|
            from <= col < header.len() && (col - 4) % 2 == 0 && (#[trigger] group_names(
                header[col],
            )).len() > 0 implies all.contains(
            ColumnView { col, groups: group_names(header[col]) },
        ) by {
            let column = ColumnView { col, groups: group_names(header[col]) };
            if col == from {
                assert(all[0] == column);
            } else {
                assert(col >= from + 2);
                assert(rest.contains(column));
                let i = choose|i: int| 0 <= i < rest.len() && rest[i] == column;
                if groups.len() == 0 {
                    assert(all[i] == column);
                } else {
                    assert(all[i + 1] == column);
                }
            }
        }
        assert forall|i: int| 0 <= i < all.len() implies {
            let column = #[trigger] all[i];
            &&& from <= column.col < header.len()
            &&& (column.col - 4) % 2 == 0
            &&& column.groups == group_names(header[column.col])
            &&& column.groups.len() > 0
        } by {
            if groups.len() == 0 {
                assert(all[i] == rest[i]);
            } else if i > 0 {
                assert(all[i] == rest[i - 1]);
            }
        }
    }
}

proof fn lemma_day(rows: Seq<Seq<Seq<char>>>, first: int, last: int)
    requires
        0 <= first < last <= rows.len(),
    ensures
        is_day_above(day_by(rows, first, last).name, rows, first, last - 1),
        day_by(rows, first, last).date matches Some(date) ==> is_date_above(
            date,
            rows,
            first,
            last - 1,
        ),
    decreases last - first,
{
    let row = rows[last - 1];
    let day = day_by(rows, first, last);
    let before = day_by(rows, first, last - 1);
    lemma_names(row, 1, None);
    if first < last - 1 {
        lemma_day(rows, first, last - 1);
    }
    if names_day(row) {
        assert(day.name == rows[last - 1][0]);
        if let Some(date) = day.date {
            assert(date_told(rows[last - 1]) == Some(date));
        }
    } else {
        assert(day.name == before.name);
        if first < last - 1 {
            if exists|d: int|
                first <= d <= last - 2 && names_day(#[trigger] rows[d]) && rows[d][0] == before.name
                    && forall|k: int| d < k <= last - 2 ==> !names_day(#[trigger] rows[k]) {
                let d = choose|d: int|
                    first <= d <= last - 2 && names_day(#[trigger] rows[d]) && rows[d][0]
                        == before.name && forall|k: int|
                        d < k <= last - 2 ==> !names_day(#[trigger] rows[k]);
                assert(names_day(rows[d]) && rows[d][0] == day.name);
            }
        }
        if let Some(date) = day.date {
            if cell(row, 1).len() > 0 && date_told(row) is Some {
                assert(date_told(rows[last - 1]) == Some(date));
            } else {
                assert(before.date == Some(date));
                assert(first < last - 1);
                let e = choose|e: int|
                    {
                        &&& first <= e <= last - 2
                        &&& date_told(#[trigger] rows[e]) == Some(date)
                        &&& names_day(rows[e]) || cell(rows[e], 1).len() > 0
                        &&& forall|k: int|
                            e < k <= last - 2 ==> !names_day(#[trigger] rows[k]) && (date_told(
                                rows[k],
                            ) is None || cell(rows[k], 1).len() == 0)
                    };
                assert(date_told(rows[e]) == Some(date));
            }
        }
    }
}

proof fn lemma_date_known(
    rows: Seq<Seq<Seq<char>>>,
    first: int,
    last: int,
    date: DateView,
)
    requires
        0 <= first < last <= rows.len(),
        is_date_above(date, rows, first, last - 1),
    ensures
        day_by(rows, first, last).date == Some(date),
    decreases last - first,
{
    let row = rows[last - 1];
    lemma_names(row, 1, None);
    let e = choose|e: int|
        {
            &&& first <= e <= last - 1
            &&& date_told(#[trigger] rows[e]) == Some(date)
            &&& names_day(rows[e]) || cell(rows[e], 1).len() > 0
            &&& forall|k: int|
                e < k <= last - 1 ==> !names_day(#[trigger] rows[k]) && (date_told(rows[k]) is None
                    || cell(rows[k], 1).len() == 0)
        };
    if e < last - 1 {
        assert(date_told(rows[e]) == Some(date));
        lemma_date_known(rows, first, last - 1, date);
        assert(!names_day(rows[last - 1]));
    }
}

/// Rows that go on with a lesson stay on its day.
proof fn lemma_same_day(
    rows: Seq<Seq<Seq<char>>>,
    first: int,
    top: int,
    at: int,
    col: int,
    room: Option<Seq<char>>,
    name: Seq<char>,
    date: DateView,
)
    requires
        0 <= first <= top <= at < rows.len(),
        forall|k: int| top < k <= at ==> keeps_room(#[trigger] rows[k], col, room),
        is_day_above(name, rows, first, top),
        is_date_above(date, rows, first, top),
    ensures
        is_day_above(name, rows, first, at),
        is_date_above(date, rows, first, at),
{
    if exists|d: int|
        first <= d <= top && names_day(#[trigger] rows[d]) && rows[d][0] == name && forall|k: int|
            d < k <= top ==> !names_day(#[trigger] rows[k]) {
        let d = choose|d: int|
            first <= d <= top && names_day(#[trigger] rows[d]) && rows[d][0] == name
                && forall|k: int| d < k <= top ==> !names_day(#[trigger] rows[k]);
        assert forall|k: int| d < k <= at implies !names_day(#[trigger] rows[k]) by {
            if k > top {
                assert(keeps_room(rows[k], col, room));
            }
        }
        assert(names_day(rows[d]));
    } else {
        assert forall|k: int| first <= k <= at implies !names_day(#[trigger] rows[k]) by {
            if k > top {
                assert(keeps_room(rows[k], col, room));
            }
        }
    }
    let e = choose|e: int|
        {
            &&& first <= e <= top
            &&& date_told(#[trigger] rows[e]) == Some(date)
            &&& names_day(rows[e]) || cell(rows[e], 1).len() > 0
            &&& forall|k: int|
                e < k <= top ==> !names_day(#[trigger] rows[k]) && (date_told(rows[k]) is None
                    || cell(rows[k], 1).len() == 0)
        };
    assert forall|k: int| e < k <= at implies !names_day(#[trigger] rows[k]) && (date_told(
        rows[k],
    ) is None || cell(rows[k], 1).len() == 0) by {
        if k > top {
            assert(keeps_room(rows[k], col, room));
        }
    }
    assert(date_told(rows[e]) == Some(date));
}

proof fn lemma_end(
    rows: Seq<Seq<Seq<char>>>,
    from: int,
    col: int,
    room: Option<Seq<char>>,
    at: int,
    to: int,
)
    requires
        col >= 0,
        0 <= at <= to < from <= rows.len(),
        time_range(cell(rows[to], 3)) is Some,
        forall|k: int|
            at < k < from ==> keeps_room(#[trigger] rows[k], col, room) && !gives_pair(rows[k]),
        forall|k: int| to < k < from ==> time_range(cell(#[trigger] rows[k], 3)) is None,
    ensures
        is_end_below(
            end_after(rows, from, col, room, time_range(cell(rows[to], 3)).unwrap().1),
            rows,
            col,
            room,
            at,
        ),
    decreases rows.len() - from,
{
    if from < rows.len() {
        lemma_names(rows[from], col, room);
        lemma_names(rows[from], 3, room);
    }
    if from >= rows.len() || !goes_on(rows[from], col, room) || is_timed(rows[from]) {
        let end = time_range(cell(rows[to], 3)).unwrap().1;
        assert(is_end_at(end, rows, col, room, at, to, from - 1));
    } else if time_range(cell(rows[from], 3)) is Some {
        lemma_end(rows, from + 1, col, room, at, from);
    } else {
        lemma_end(rows, from + 1, col, room, at, to);
    }
}

/// What is known of an entry whose subject stands in row `top`.
spec fn is_entry(
    entry: EntryView,
    rows: Seq<Seq<Seq<char>>>,
    header: int,
    col: int,
    top: int,
) -> bool {
    &&& 0 <= header
    &&& header + 2 <= top < rows.len()
    &&& 4 <= col < rows[header].len() && (col - 4) % 2 == 0
    &&& entry.groups == group_names(rows[header][col]) && entry.groups.len() > 0
    &&& entry.description == cell(rows[top], col) && trimmed(entry.description).len() > 0
    &&& entry.room == room_told(rows[top], col)
    &&& gives_pair(rows[top])
    &&& is_day_above(entry.weekday, rows, header + 2, top)
    &&& is_date_above(entry.date, rows, header + 2, top)
}

proof fn lemma_lesson_told(
    entry: EntryView,
    rows: Seq<Seq<Seq<char>>>,
    header: int,
    col: int,
    top: int,
    at: int,
)
    requires
        is_entry(entry, rows, header, col, top),
        top <= at < rows.len(),
        gives_pair(rows[at]),
        forall|k: int| top < k <= at ==> keeps_room(#[trigger] rows[k], col, entry.room),
    ensures
        is_told_by(lesson_at(rows, at, col, entry), rows, header, col, top, at),
{
    lemma_names(rows[at], col, entry.room);
    lemma_names(rows[at], 2, entry.room);
    lemma_names(rows[at], 3, entry.room);
    lemma_end(rows, at + 1, col, entry.room, at, at);
    lemma_same_day(
        rows,
        header + 2,
        top,
        at,
        col,
        entry.room,
        entry.weekday,
        entry.date,
    );
    assert(unsigned_number(cell(rows[at], 2), 255) == Some(row_number(rows[at])));
}

proof fn lemma_later_told(
    entry: EntryView,
    rows: Seq<Seq<Seq<char>>>,
    header: int,
    col: int,
    top: int,
    from: int,
    i: int,
)
    requires
        is_entry(entry, rows, header, col, top),
        top < from <= rows.len(),
        forall|k: int| top < k < from ==> keeps_room(#[trigger] rows[k], col, entry.room),
        0 <= i < later_lessons(rows, from, col, entry).len(),
    ensures
        is_told(later_lessons(rows, from, col, entry)[i], rows, header),
    decreases rows.len() - from,
{
    lemma_names(rows[from], col, entry.room);
    if is_timed(rows[from]) {
        if i == 0 {
            lemma_lesson_told(entry, rows, header, col, top, from);
        } else {
            lemma_later_told(entry, rows, header, col, top, from + 1, i - 1);
        }
    } else {
        lemma_later_told(entry, rows, header, col, top, from + 1, i);
    }
}

proof fn lemma_later_has(
    entry: EntryView,
    rows: Seq<Seq<Seq<char>>>,
    col: int,
    from: int,
    at: int,
) -> (i: int)
    requires
        col >= 0,
        0 <= from <= at < rows.len(),
        forall|k: int| from <= k <= at ==> keeps_room(#[trigger] rows[k], col, entry.room),
        gives_pair(rows[at]),
    ensures
        0 <= i < later_lessons(rows, from, col, entry).len(),
        later_lessons(rows, from, col, entry)[i] == lesson_at(rows, at, col, entry),
    decreases at - from,
{
    lemma_names(rows[from], col, entry.room);
    assert(keeps_room(rows[from], col, entry.room));
    if from == at {
        0
    } else {
        let i = lemma_later_has(entry, rows, col, from + 1, at);
        if is_timed(rows[from]) {
            i + 1
        } else {
            i
        }
    }
}

spec fn entry_in(
    rows: Seq<Seq<Seq<char>>>,
    top: int,
    column: ColumnView,
    day: DayView,
) -> EntryView {
    EntryView {
        groups: column.groups,
        date: day.date.unwrap(),
        weekday: day.name,
        description: cell_in(rows[top], column.col),
        room: row_room(rows[top], column.col),
    }
}

proof fn lemma_cell_told(
    rows: Seq<Seq<Seq<char>>>,
    header: int,
    column: ColumnView,
    top: int,
    day: DayView,
)
    requires
        0 <= header,
        header + 2 <= top < rows.len(),
        is_timed(rows[top]),
        day == day_by(rows, header + 2, top + 1),
        day.date is Some,
        4 <= column.col < rows[header].len(),
        (column.col - 4) % 2 == 0,
        column.groups == group_names(rows[header][column.col]),
        column.groups.len() > 0,
    ensures
        forall|i: int|
            0 <= i < cell_lessons(rows, top, column, day).len() ==> is_told(
                #[trigger] cell_lessons(rows, top, column, day)[i],
                rows,
                header,
            ),
        trimmed(cell(rows[top], column.col)).len() > 0 ==> forall|at: int|
            top <= at < rows.len() && (forall|k: int|
                top < k <= at ==> keeps_room(
                    #[trigger] rows[k],
                    column.col,
                    room_told(rows[top], column.col),
                )) && gives_pair(#[trigger] rows[at]) ==> exists|i: int|
                0 <= i < cell_lessons(rows, top, column, day).len() && is_told_by(
                    #[trigger] cell_lessons(rows, top, column, day)[i],
                    rows,
                    header,
                    column.col,
                    top,
                    at,
                ),
{
    let col = column.col;
    let entry = entry_in(rows, top, column, day);
    let all = cell_lessons(rows, top, column, day);
    lemma_names(rows[top], col, None);
    lemma_day(rows, header + 2, top + 1);
    if trimmed(cell(rows[top], col)).len() > 0 {
        let later = later_lessons(rows, top + 1, col, entry);
        assert(is_entry(entry, rows, header, col, top));
        lemma_lesson_told(entry, rows, header, col, top, top);
        assert(all == seq![lesson_at(rows, top, col, entry)] + later);
        assert forall|i: int| 0 <= i < all.len() implies is_told(#[trigger] all[i], rows, header) by {
            if i > 0 {
                lemma_later_told(entry, rows, header, col, top, top + 1, i - 1);
                assert(all[i] == later[i - 1]);
            } else {
                assert(all[i] == lesson_at(rows, top, col, entry));
            }
        }
        assert forall|at: int|
            top <= at < rows.len() && (forall|k: int|
                top < k <= at ==> keeps_room(#[trigger] rows[k], col, room_told(rows[top], col)))
                && gives_pair(#[trigger] rows[at]) implies exists|i: int|
            0 <= i < all.len() && is_told_by(#[trigger] all[i], rows, header, col, top, at) by {
            lemma_lesson_told(entry, rows, header, col, top, at);
            if at == top {
                assert(is_told_by(all[0], rows, header, col, top, at));
            } else {
                let i = lemma_later_has(entry, rows, col, top + 1, at);
                assert(all[i + 1] == later[i]);
                assert(is_told_by(all[i + 1], rows, header, col, top, at));
            }
        }
    }
}

/// Whether a list has a lesson that a sheet tells in a given place.
spec fn has_told(
    list: Seq<LessonView>,
    rows: Seq<Seq<Seq<char>>>,
    header: int,
    col: int,
    top: int,
    at: int,
) -> bool {
    exists|i: int|
        0 <= i < list.len() && is_told_by(#[trigger] list[i], rows, header, col, top, at)
}

proof fn lemma_has_told_in_sum(
    a: Seq<LessonView>,
    b: Seq<LessonView>,
    rows: Seq<Seq<Seq<char>>>,
    header: int,
    col: int,
    top: int,
    at: int,
)
    ensures
        has_told(a, rows, header, col, top, at) || has_told(b, rows, header, col, top, at)
            ==> has_told(a + b, rows, header, col, top, at),
{
    if has_told(a, rows, header, col, top, at) {
        let i = choose|i: int|
            0 <= i < a.len() && is_told_by(#[trigger] a[i], rows, header, col, top, at);
        assert((a + b)[i] == a[i]);
    }
    if has_told(b, rows, header, col, top, at) {
        let i = choose|i: int|
            0 <= i < b.len() && is_told_by(#[trigger] b[i], rows, header, col, top, at);
        assert((a + b)[a.len() + i] == b[i]);
    }
}

proof fn lemma_columns_told(
    rows: Seq<Seq<Seq<char>>>,
    header: int,
    top: int,
    count: int,
    day: DayView,
)
    requires
        0 <= header,
        header + 2 <= top < rows.len(),
        is_timed(rows[top]),
        day == day_by(rows, header + 2, top + 1),
        day.date is Some,
        0 <= count <= columns(rows[header]).len(),
    ensures
        forall|i: int|
            0 <= i < columns_lessons(rows, top, columns(rows[header]), count, day).len()
                ==> is_told(
                #[trigger] columns_lessons(rows, top, columns(rows[header]), count, day)[i],
                rows,
                header,
            ),
        forall|c: int, at: int|
            0 <= c < count && top <= at < rows.len() && trimmed(
                cell(rows[top], (#[trigger] columns(rows[header])[c]).col),
            ).len() > 0 && (forall|k: int|
                top < k <= at ==> keeps_room(
                    #[trigger] rows[k],
                    columns(rows[header])[c].col,
                    room_told(rows[top], columns(rows[header])[c].col),
                )) && gives_pair(#[trigger] rows[at]) ==> has_told(
                columns_lessons(rows, top, columns(rows[header]), count, day),
                rows,
                header,
                columns(rows[header])[c].col,
                top,
                at,
            ),
    decreases count,
{
    if count > 0 {
        let found = columns(rows[header]);
        let before = columns_lessons(rows, top, found, count - 1, day);
        let own = cell_lessons(rows, top, found[count - 1], day);
        let all = columns_lessons(rows, top, found, count, day);
        lemma_columns_told(rows, header, top, count - 1, day);
        lemma_columns(rows[header], 4);
        assert(found[count - 1] == columns_from(rows[header], 4)[count - 1]);
        lemma_cell_told(rows, header, found[count - 1], top, day);
        assert forall|i: int| 0 <= i < all.len() implies is_told(#[trigger] all[i], rows, header) by {
            if i < before.len() {
                assert(all[i] == before[i]);
            } else {
                assert(all[i] == own[i - before.len()]);
            }
        }
        assert forall|c: int, at: int|
            0 <= c < count && top <= at < rows.len() && trimmed(
                cell(rows[top], (#[trigger] found[c]).col),
            ).len() > 0 && (forall|k: int|
                top < k <= at ==> keeps_room(
                    #[trigger] rows[k],
                    found[c].col,
                    room_told(rows[top], found[c].col),
                )) && gives_pair(#[trigger] rows[at]) implies has_told(
            all,
            rows,
            header,
            found[c].col,
            top,
            at,
        ) by {
            lemma_has_told_in_sum(before, own, rows, header, found[c].col, top, at);
            if c == count - 1 {
                assert(exists|i: int|
                    0 <= i < own.len() && is_told_by(
                        #[trigger] own[i],
                        rows,
                        header,
                        found[c].col,
                        top,
                        at,
                    ));
                assert(has_told(own, rows, header, found[c].col, top, at));
            } else {
                assert(has_told(before, rows, header, found[c].col, top, at));
            }
        }
    }
}

proof fn lemma_rows_told(rows: Seq<Seq<Seq<char>>>, header: int, last: int)
    requires
        0 <= header,
        header + 2 <= last <= rows.len(),
    ensures
        forall|i: int|
            0 <= i < rows_lessons(rows, header + 2, last, columns(rows[header])).len() ==> is_told(
                #[trigger] rows_lessons(rows, header + 2, last, columns(rows[header]))[i],
                rows,
                header,
            ),
    decreases last - header,
{
    if header + 2 < last {
        let found = columns(rows[header]);
        let first = header + 2;
        let day = day_by(rows, first, last);
        let before = rows_lessons(rows, first, last - 1, found);
        let own = row_lessons(rows, last - 1, found, day);
        let all = rows_lessons(rows, first, last, found);
        lemma_rows_told(rows, header, last - 1);
        if day.date is Some && is_timed(rows[last - 1]) {
            lemma_columns_told(rows, header, last - 1, found.len() as int, day);
        }
        assert forall|i: int| 0 <= i < all.len() implies is_told(#[trigger] all[i], rows, header) by {
            if i < before.len() {
                assert(all[i] == before[i]);
            } else {
                assert(all[i] == own[i - before.len()]);
            }
        }
    }
}

proof fn lemma_rows_complete(
    rows: Seq<Seq<Seq<char>>>,
    header: int,
    last: int,
    col: int,
    top: int,
    at: int,
    date: DateView,
)
    requires
        0 <= header,
        header + 2 <= top < last <= rows.len(),
        top <= at < rows.len(),
        4 <= col < rows[header].len(),
        (col - 4) % 2 == 0,
        group_names(rows[header][col]).len() > 0,
        trimmed(cell(rows[top], col)).len() > 0,
        gives_pair(rows[top]),
        gives_pair(rows[at]),
        forall|k: int|
            top < k <= at ==> keeps_room(#[trigger] rows[k], col, room_told(rows[top], col)),
        is_date_above(date, rows, header + 2, top),
    ensures
        has_told(
            rows_lessons(rows, header + 2, last, columns(rows[header])),
            rows,
            header,
            col,
            top,
            at,
        ),
    decreases last - top,
{
    let found = columns(rows[header]);
    let first = header + 2;
    let before = rows_lessons(rows, first, last - 1, found);
    let day = day_by(rows, first, last);
    let own = row_lessons(rows, last - 1, found, day);
    lemma_has_told_in_sum(before, own, rows, header, col, top, at);
    if top < last - 1 {
        lemma_rows_complete(rows, header, last - 1, col, top, at, date);
    } else {
        lemma_date_known(rows, first, last, date);
        lemma_names(rows[top], col, None);
        lemma_columns(rows[header], 4);
        let column = ColumnView { col, groups: group_names(rows[header][col]) };
        assert(found.contains(column));
        let c = choose|c: int| 0 <= c < found.len() && found[c] == column;
        lemma_columns_told(rows, header, top, found.len() as int, day);
        assert(has_told(own, rows, header, found[c].col, top, at));
    }
}

/// Every lesson that is read from a sheet stands there: its groups in the header of its column, its
/// description in a row of that column with a room beside it, its number and its times in that row
/// or in one that goes on with it, its day of the week in the nearest row above that names one, and
/// its date in the nearest row above that gives one.
pub proof fn every_lesson_stands_in_the_sheet(rows: Seq<Seq<Seq<char>>>, lesson: LessonView)
    requires
        sheet_lessons(rows).contains(lesson),
    ensures
        exists|header: int| #[trigger]
            is_header_row(rows, header) && is_told(lesson, rows, header),
{
    let header = header_row(rows, 0);
    lemma_header(rows, 0);
    let all = sheet_lessons(rows);
    assert(is_timetable(rows));
    let i = choose|i: int| 0 <= i < all.len() && all[i] == lesson;
    if rows.len() <= header + 2 {
        assert(all =~= seq![]);
    } else {
        lemma_rows_told(rows, header, rows.len() as int);
        assert(is_told(all[i], rows, header));
    }
    assert(is_header_row(rows, header));
}

/// No lesson is lost: where a description stands under groups in a row with a number and a time,
/// below a date, there is a lesson for that row, and one for every later row with a number and a
/// time that goes on with it.
pub proof fn no_lesson_is_lost(
    rows: Seq<Seq<Seq<char>>>,
    header: int,
    col: int,
    top: int,
    at: int,
    date: DateView,
)
    requires
        is_header_row(rows, header),
        header + 2 <= top <= at < rows.len(),
        4 <= col < rows[header].len(),
        (col - 4) % 2 == 0,
        group_names(rows[header][col]).len() > 0,
        trimmed(cell(rows[top], col)).len() > 0,
        gives_pair(rows[top]),
        gives_pair(rows[at]),
        forall|k: int|
            top < k <= at ==> keeps_room(#[trigger] rows[k], col, room_told(rows[top], col)),
        is_date_above(date, rows, header + 2, top),
    ensures
        exists|i: int|
            0 <= i < sheet_lessons(rows).len() && is_told_by(
                #[trigger] sheet_lessons(rows)[i],
                rows,
                header,
                col,
                top,
                at,
            ),
{
    lemma_one_header(rows, header);
    lemma_columns(rows[header], 4);
    let column = ColumnView { col, groups: group_names(rows[header][col]) };
    assert(columns(rows[header]).contains(column));
    lemma_rows_complete(rows, header, rows.len() as int, col, top, at, date);
    let all = sheet_lessons(rows);
    assert(has_told(all, rows, header, col, top, at));
    let i = choose|i: int|
        0 <= i < all.len() && is_told_by(#[trigger] all[i], rows, header, col, top, at);
    assert(is_told_by(all[i], rows, header, col, top, at));
}

/// A sheet holds a timetable if and only if the first row that holds the heading of the day column
/// names a group in its fifth column or every second one behind it.
pub proof fn timetables_have_a_header_with_groups(rows: Seq<Seq<Seq<char>>>)
    ensures
        is_timetable(rows) <==> exists|header: int, col: int|
            #![trigger is_header_row(rows, header), group_names(rows[header][col])]
            is_header_row(rows, header) && 4 <= col < rows[header].len() && (col - 4) % 2 == 0
                && group_names(rows[header][col]).len() > 0,
{
    let header = header_row(rows, 0);
    lemma_header(rows, 0);
    if header < rows.len() {
        lemma_columns(rows[header], 4);
        if is_timetable(rows) {
            let column = columns_from(rows[header], 4)[0];
            assert(is_header_row(rows, header));
            assert(group_names(rows[header][column.col]).len() > 0);
        }
    }
    if exists|header: int, col: int|
        #![trigger is_header_row(rows, header), group_names(rows[header][col])]
        is_header_row(rows, header) && 4 <= col < rows[header].len() && (col - 4) % 2 == 0
            && group_names(rows[header][col]).len() > 0 {
        let (h, col) = choose|header: int, col: int|
            #![trigger is_header_row(rows, header), group_names(rows[header][col])]
            is_header_row(rows, header) && 4 <= col < rows[header].len() && (col - 4) % 2 == 0
                && group_names(rows[header][col]).len() > 0;
        lemma_one_header(rows, h);
        lemma_columns(rows[h], 4);
        assert(columns(rows[h]).contains(ColumnView { col, groups: group_names(rows[h][col]) }));
    }
}

/// Where a sheet tells a lesson: the row and the column of its description, and the row of its pair.
pub struct Place {
    pub top: int,
    pub col: int,
    pub at: int,
}

/// The order of places: by the row of the description, then its column, then the row of the pair.
pub open spec fn place_before(a: Place, b: Place) -> bool {
    ||| a.top < b.top
    ||| a.top == b.top && a.col < b.col
    ||| a.top == b.top && a.col == b.col && a.at < b.at
}

/// Whether a sheet tells lessons in given places, one in each, each place behind the one before.
pub open spec fn are_told_in_order(
    lessons: Seq<LessonView>,
    places: Seq<Place>,
    rows: Seq<Seq<Seq<char>>>,
    header: int,
) -> bool {
    &&& places.len() == lessons.len()
    &&& forall|i: int|
        0 <= i < lessons.len() ==> is_told_by(
            #[trigger] lessons[i],
            rows,
            header,
            places[i].col,
            places[i].top,
            places[i].at,
        )
    &&& forall|i: int, j: int|
        0 <= i < j < places.len() ==> place_before(#[trigger] places[i], #[trigger] places[j])
}

proof fn lemma_told_in_sum(
    a: Seq<LessonView>,
    first: Seq<Place>,
    b: Seq<LessonView>,
    second: Seq<Place>,
    rows: Seq<Seq<Seq<char>>>,
    header: int,
)
    requires
        are_told_in_order(a, first, rows, header),
        are_told_in_order(b, second, rows, header),
        forall|i: int, j: int|
            0 <= i < first.len() && 0 <= j < second.len() ==> place_before(
                #[trigger] first[i],
                #[trigger] second[j],
            ),
    ensures
        are_told_in_order(a + b, first + second, rows, header),
{
    let lessons = a + b;
    let places = first + second;
    assert forall|i: int| 0 <= i < lessons.len() implies is_told_by(
        #[trigger] lessons[i],
        rows,
        header,
        places[i].col,
        places[i].top,
        places[i].at,
    ) by {
        if i < a.len() {
            assert(lessons[i] == a[i] && places[i] == first[i]);
        } else {
            assert(lessons[i] == b[i - a.len()] && places[i] == second[i - a.len()]);
        }
    }
    assert forall|i: int, j: int| 0 <= i < j < places.len() implies place_before(
        #[trigger] places[i],
        #[trigger] places[j],
    ) by {
        if j < first.len() {
            assert(places[i] == first[i] && places[j] == first[j]);
        } else if i < first.len() {
            assert(places[i] == first[i] && places[j] == second[j - first.len()]);
        } else {
            assert(places[i] == second[i - first.len()] && places[j] == second[j - first.len()]);
        }
    }
}

proof fn lemma_later_places(
    entry: EntryView,
    rows: Seq<Seq<Seq<char>>>,
    header: int,
    col: int,
    top: int,
    from: int,
) -> (places: Seq<Place>)
    requires
        is_entry(entry, rows, header, col, top),
        top < from <= rows.len(),
        forall|k: int| top < k < from ==> keeps_room(#[trigger] rows[k], col, entry.room),
    ensures
        are_told_in_order(later_lessons(rows, from, col, entry), places, rows, header),
        forall|i: int|
            0 <= i < places.len() ==> (#[trigger] places[i]).top == top && places[i].col == col
                && places[i].at >= from,
    decreases rows.len() - from,
{
    if from >= rows.len() || !goes_on(rows[from], col, entry.room) {
        seq![]
    } else {
        lemma_names(rows[from], col, entry.room);
        let rest = lemma_later_places(entry, rows, header, col, top, from + 1);
        if is_timed(rows[from]) {
            lemma_lesson_told(entry, rows, header, col, top, from);
            let own = seq![Place { top, col, at: from }];
            lemma_told_in_sum(
                seq![lesson_at(rows, from, col, entry)],
                own,
                later_lessons(rows, from + 1, col, entry),
                rest,
                rows,
                header,
            );
            own + rest
        } else {
            rest
        }
    }
}

proof fn lemma_cell_places(
    rows: Seq<Seq<Seq<char>>>,
    header: int,
    column: ColumnView,
    top: int,
    day: DayView,
) -> (places: Seq<Place>)
    requires
        0 <= header,
        header + 2 <= top < rows.len(),
        is_timed(rows[top]),
        day == day_by(rows, header + 2, top + 1),
        day.date is Some,
        4 <= column.col < rows[header].len(),
        (column.col - 4) % 2 == 0,
        column.groups == group_names(rows[header][column.col]),
        column.groups.len() > 0,
    ensures
        are_told_in_order(cell_lessons(rows, top, column, day), places, rows, header),
        forall|i: int|
            0 <= i < places.len() ==> (#[trigger] places[i]).top == top && places[i].col
                == column.col,
{
    let col = column.col;
    let entry = entry_in(rows, top, column, day);
    lemma_names(rows[top], col, None);
    lemma_day(rows, header + 2, top + 1);
    if trimmed(cell(rows[top], col)).len() > 0 {
        assert(is_entry(entry, rows, header, col, top));
        lemma_lesson_told(entry, rows, header, col, top, top);
        let rest = lemma_later_places(entry, rows, header, col, top, top + 1);
        let own = seq![Place { top, col, at: top }];
        lemma_told_in_sum(
            seq![lesson_at(rows, top, col, entry)],
            own,
            later_lessons(rows, top + 1, col, entry),
            rest,
            rows,
            header,
        );
        own + rest
    } else {
        seq![]
    }
}

proof fn lemma_columns_ordered(header: Seq<Seq<char>>, from: int)
    requires
        from >= 4,
        (from - 4) % 2 == 0,
    ensures
        forall|i: int, j: int|
            0 <= i < j < columns_from(header, from).len() ==> (#[trigger] columns_from(
                header,
                from,
            )[i]).col < (#[trigger] columns_from(header, from)[j]).col,
    decreases header.len() + 1 - from,
{
    if from < header.len() {
        lemma_columns_ordered(header, from + 2);
        lemma_columns(header, from + 2);
        let all = columns_from(header, from);
        let rest = columns_from(header, from + 2);
        assert forall|i: int, j: int| 0 <= i < j < all.len() implies (#[trigger] all[i]).col < (
        #[trigger] all[j]).col by {
            if group_names(header[from]).len() > 0 {
                assert(all[j] == rest[j - 1]);
                if i > 0 {
                    assert(all[i] == rest[i - 1]);
                }
            }
        }
    }
}

proof fn lemma_columns_places(
    rows: Seq<Seq<Seq<char>>>,
    header: int,
    top: int,
    count: int,
    day: DayView,
) -> (places: Seq<Place>)
    requires
        0 <= header,
        header + 2 <= top < rows.len(),
        is_timed(rows[top]),
        day == day_by(rows, header + 2, top + 1),
        day.date is Some,
        0 <= count <= columns(rows[header]).len(),
    ensures
        are_told_in_order(
            columns_lessons(rows, top, columns(rows[header]), count, day),
            places,
            rows,
            header,
        ),
        forall|i: int|
            0 <= i < places.len() ==> (#[trigger] places[i]).top == top && (count
                < columns(rows[header]).len() ==> places[i].col < columns(rows[header])[count].col),
    decreases count,
{
    if count == 0 {
        seq![]
    } else {
        let found = columns(rows[header]);
        lemma_columns(rows[header], 4);
        lemma_columns_ordered(rows[header], 4);
        let column = columns_from(rows[header], 4)[count - 1];
        assert(found[count - 1] == column);
        let before = lemma_columns_places(rows, header, top, count - 1, day);
        let own = lemma_cell_places(rows, header, column, top, day);
        lemma_told_in_sum(
            columns_lessons(rows, top, found, count - 1, day),
            before,
            cell_lessons(rows, top, column, day),
            own,
            rows,
            header,
        );
        if count < found.len() {
            assert(columns_from(rows[header], 4)[count].col > column.col);
        }
        before + own
    }
}

proof fn lemma_rows_places(rows: Seq<Seq<Seq<char>>>, header: int, last: int) -> (places: Seq<
    Place,
>)
    requires
        0 <= header,
        last <= rows.len(),
    ensures
        are_told_in_order(
            rows_lessons(rows, header + 2, last, columns(rows[header])),
            places,
            rows,
            header,
        ),
        forall|i: int| 0 <= i < places.len() ==> (#[trigger] places[i]).top < last,
    decreases last - header,
{
    if last <= header + 2 {
        seq![]
    } else {
        let found = columns(rows[header]);
        let day = day_by(rows, header + 2, last);
        let before = lemma_rows_places(rows, header, last - 1);
        let own = if day.date is Some && is_timed(rows[last - 1]) {
            lemma_columns_places(rows, header, last - 1, found.len() as int, day)
        } else {
            seq![]
        };
        lemma_told_in_sum(
            rows_lessons(rows, header + 2, last - 1, found),
            before,
            row_lessons(rows, last - 1, found, day),
            own,
            rows,
            header,
        );
        before + own
    }
}

/// Lessons are read once and in the order of the sheet: each stands in a place of its own, and their
/// places follow each other by row and column.
pub proof fn lessons_are_read_once_and_in_order(rows: Seq<Seq<Seq<char>>>)
    ensures
        sheet_lessons(rows).len() > 0 ==> exists|header: int, places: Seq<Place>|
            is_header_row(rows, header) && #[trigger] are_told_in_order(
                sheet_lessons(rows),
                places,
                rows,
                header,
            ),
{
    if sheet_lessons(rows).len() > 0 {
        let header = header_row(rows, 0);
        lemma_header(rows, 0);
        let places = lemma_rows_places(rows, header, rows.len() as int);
        assert(is_header_row(rows, header) && are_told_in_order(
            sheet_lessons(rows),
            places,
            rows,
            header,
        ));
    }
}

} // verus!
