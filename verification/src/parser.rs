//! Reading a weekly timetable out of the cells of a workbook, and asking for a part of it.

use crate::date::{date_in, date_of, parse_from_str, Date, DateView};
use crate::domain::is_complete;
use crate::lesson::{
    borrowed_view, copy_text, copy_texts, in_listing_order, lessons_view, listing_sorts,
    same_optional_text, sort_lessons, Lesson, LessonView,
};
use crate::phrases;
use crate::text::{
    ascii_lowered, concat3, contains, eq_ignore_ascii_case, find_char, find_from, holds, is_blank,
    lemma_find_char, lowercase, pair_view, parse_unsigned, same_text, slice_text, split,
    split_at_first, split_on, split_once, str_of, text_of, texts, to_chars, to_lowercase, trim,
    trim_is_idempotent, trimmed, unsigned_number, zero_pad, zero_padded,
};
use crate::workbook::{
    all_sheets, book_of, promised_format, read_workbook, workbook_format, workbook_view, ReadError,
};
use vstd::prelude::*;

verus! {

/// A cell of a sheet: empty, a text, or another value together with how it is displayed.
#[derive(Debug, Clone, PartialEq, Eq)]
pub enum Cell {
    Empty,
    Text(String),
    Value(String),
}

/// The contents of a cell.
pub enum CellView {
    Empty,
    Text(Seq<char>),
    Value(Seq<char>),
}

impl View for Cell {
    type V = CellView;

    open spec fn view(&self) -> CellView {
        match *self {
            Cell::Empty => CellView::Empty,
            Cell::Text(text) => CellView::Text(text@),
            Cell::Value(shown) => CellView::Value(shown@),
        }
    }
}

/// The contents of a row.
pub open spec fn row_view(row: Seq<Cell>) -> Seq<CellView> {
    row.map_values(|cell: Cell| cell@)
}

/// The contents of a sheet.
pub open spec fn sheet_view(sheet: Seq<Vec<Cell>>) -> Seq<Seq<CellView>> {
    sheet.map_values(|row: Vec<Cell>| row_view(row@))
}

/// The contents of a workbook's sheets.
pub open spec fn sheets_view(sheets: Seq<Vec<Vec<Cell>>>) -> Seq<Seq<Seq<CellView>>> {
    sheets.map_values(|sheet: Vec<Vec<Cell>>| sheet_view(sheet@))
}

/// Why a workbook gives no timetable.
#[derive(Debug, Clone, PartialEq, Eq)]
pub enum ParseError {
    /// The workbook could not be read; the text says why.
    Workbook(String),
    /// The reading of the workbook broke off.
    BrokenOff,
    /// No sheet holds a timetable.
    NoScheduleSheets,
}

impl ParseError {
    /// The message that the error is shown with.
    pub open spec fn text(self) -> Seq<char> {
        match self {
            ParseError::Workbook(reason) => "не удалось прочитать расписание: "@ + reason@,
            ParseError::BrokenOff => phrases::PARSING_BROKEN_OFF@,
            ParseError::NoScheduleSheets => "в файле не найдено листов с таблицами расписания"@,
        }
    }

    /// The message that the error is shown with.
    pub fn message(&self) -> (r: String)
        ensures
            r@ == self.text(),
    {
        match self {
            ParseError::Workbook(reason) => crate::text::concat2(
                "не удалось прочитать расписание: ",
                reason.as_str(),
            ),
            ParseError::BrokenOff => phrases::PARSING_BROKEN_OFF.to_owned(),
            ParseError::NoScheduleSheets => "в файле не найдено листов с таблицами расписания".to_owned(),
        }
    }
}

impl CellView {
    /// What the cell says, without the white space around it.
    pub open spec fn text(self) -> Seq<char> {
        match self {
            CellView::Empty => seq![],
            CellView::Text(value) => trimmed(value),
            CellView::Value(shown) => trimmed(shown),
        }
    }
}

/// What a cell says, without the white space around it.
pub fn cell_text(cell: &Cell) -> (r: String)
    ensures
        r@ == cell@.text(),
{
    match cell {
        Cell::Empty => String::new(),
        Cell::Text(value) => trim(value.as_str()),
        Cell::Value(shown) => trim(shown.as_str()),
    }
}

/// The label of the remote teaching mode, or the room without the white space around it.
pub open spec fn room_name(room: Seq<char>) -> Seq<char> {
    if lowercase(trimmed(room)) == "дот"@ {
        "Удалённо"@
    } else {
        trimmed(room)
    }
}

/// The label of a room, given the room without the white space around it and its lower case.
pub fn room_label(room: String, lower: &str) -> (r: String)
    ensures
        r@ == if lower@ == "дот"@ {
            "Удалённо"@
        } else {
            room@
        },
{
    if same_text(lower, "дот") {
        "Удалённо".to_owned()
    } else {
        room
    }
}

/// Gives the remote teaching mode a readable label in normalized data and output.
pub fn display_room_name(room: &str) -> (r: String)
    ensures
        r@ == room_name(room@),
{
    let room = trim(room);
    let lower = to_lowercase(room.as_str());
    room_label(room, lower.as_str())
}

/// A displayed room name is displayed as it is.
pub proof fn room_name_is_idempotent(room: Seq<char>)
    ensures
        room_name(room_name(room)) == room_name(room),
{
    trim_is_idempotent(room);
    reveal_strlit("Удалённо");
    let label = "Удалённо"@;
    assert(crate::text::trim_start(label) == label);
    assert(crate::text::trim_end(label) == label);
}

/// The names of the groups in a header cell: the parts between slashes that are not blank.
pub open spec fn group_names(value: Seq<char>) -> Seq<Seq<char>> {
    split_on(value, '/').map_values(|part: Seq<char>| trimmed(part)).filter(
        |name: Seq<char>| name.len() > 0,
    )
}

/// The names of the groups in a header cell.
pub fn split_groups(value: &str) -> (r: Vec<String>)
    ensures
        texts(r@) == group_names(value@),
{
    let parts = split(value, '/');
    let mut r: Vec<String> = Vec::new();
    let mut i: usize = 0;
    let ghost names = texts(parts@).map_values(|part: Seq<char>| trimmed(part));
    let ghost keep = |name: Seq<char>| name.len() > 0;
    proof {
        reveal(Seq::filter);
        assert(texts(r@) =~= names.take(0).filter(keep));
    }
    while i < parts.len()
        invariant
            i <= parts@.len(),
            names == texts(parts@).map_values(|part: Seq<char>| trimmed(part)),
            keep == (|name: Seq<char>| name.len() > 0),
            texts(r@) == names.take(i as int).filter(keep),
        decreases parts@.len() - i,
    {
        let name = trim(parts[i].as_str());
        let ghost before = texts(r@);
        proof {
            reveal(Seq::filter);
            assert(names.take(i + 1).drop_last() =~= names.take(i as int));
            assert(names.take(i + 1).last() == name@);
        }
        if !name.as_str().is_empty() {
            r.push(name);
            assert(texts(r@) =~= before.push(name@));
        }
        i += 1;
    }
    assert(names.take(i as int) =~= names);
    r
}

/// Whether a text is the name of a day of the week.
pub open spec fn names_weekday(value: Seq<char>) -> bool {
    ||| value == "Понедельник"@
    ||| value == "Вторник"@
    ||| value == "Среда"@
    ||| value == "Четверг"@
    ||| value == "Пятница"@
    ||| value == "Суббота"@
    ||| value == "Воскресенье"@
}

/// Whether a text is the name of a day of the week.
pub fn is_weekday(value: &str) -> (r: bool)
    ensures
        r == names_weekday(value@),
{
    same_text(value, "Понедельник") || same_text(value, "Вторник") || same_text(value, "Среда")
        || same_text(value, "Четверг") || same_text(value, "Пятница") || same_text(
        value,
        "Суббота",
    ) || same_text(value, "Воскресенье")
}

/// The date in a cell: day, month and year between dots, or year, month and day between hyphens.
pub open spec fn cell_date(value: Seq<char>) -> Option<DateView> {
    match date_in(trimmed(value), "%d.%m.%Y"@) {
        Some(date) => Some(date),
        None => date_in(trimmed(value), "%Y-%m-%d"@),
    }
}

/// The date in a cell.
pub fn parse_date(value: &str) -> (r: Option<Date>)
    ensures
        date_of(r) == cell_date(value@),
        r matches Some(date) ==> date@.valid(),
{
    let value = trim(value);
    match parse_from_str(value.as_str(), "%d.%m.%Y") {
        Some(date) => Some(date),
        None => parse_from_str(value.as_str(), "%Y-%m-%d"),
    }
}

/// An hour and a minute with a dot between them, written with a colon and in two digits each.
pub open spec fn clock_time(value: Seq<char>) -> Option<Seq<char>> {
    match split_at_first(trimmed(value), '.') {
        Some((hour, minute)) => Some(zero_padded(hour, 2) + ":"@ + zero_padded(minute, 2)),
        None => None,
    }
}

/// The start and the end of a period: two times with a hyphen between them.
pub open spec fn time_range(value: Seq<char>) -> Option<(Seq<char>, Seq<char>)> {
    match split_at_first(trimmed(value), '-') {
        Some((start, end)) => match (clock_time(start), clock_time(end)) {
            (Some(start), Some(end)) => Some((start, end)),
            _ => None,
        },
        None => None,
    }
}

fn normalize_time(value: &str) -> (r: Option<String>)
    ensures
        text_of(r) == clock_time(value@),
{
    let value = trim(value);
    match split_once(value.as_str(), '.') {
        Some((hour, minute)) => {
            let hour = zero_pad(hour.as_str(), 2);
            let minute = zero_pad(minute.as_str(), 2);
            Some(concat3(hour.as_str(), ":", minute.as_str()))
        },
        None => None,
    }
}

/// The start and the end of a period.
pub fn parse_time(value: &str) -> (r: Option<(String, String)>)
    ensures
        match r {
            Some(range) => time_range(value@) == Some(pair_view(range)),
            None => time_range(value@) is None,
        },
{
    let value = trim(value);
    match split_once(value.as_str(), '-') {
        Some((start, end)) => {
            match (normalize_time(start.as_str()), normalize_time(end.as_str())) {
                (Some(start), Some(end)) => Some((start, end)),
                _ => None,
            }
        },
        None => None,
    }
}

/// A text without the white space around it; nothing where it is blank.
pub open spec fn unless_blank(value: Seq<char>) -> Option<Seq<char>> {
    if trimmed(value).len() == 0 {
        None
    } else {
        Some(trimmed(value))
    }
}

/// A text without the white space around it; nothing where it is blank.
pub fn non_empty(value: &str) -> (r: Option<String>)
    ensures
        text_of(r) == unless_blank(value@),
{
    let value = trim(value);
    if value.as_str().is_empty() {
        None
    } else {
        Some(value)
    }
}

/// Whether a text in lower case holds a word for the kind of a lesson.
pub open spec fn holds_kind(lower: Seq<char>) -> bool {
    ||| holds(lower, "лек"@)
    ||| holds(lower, "пр"@)
    ||| holds(lower, "лаб"@)
    ||| holds(lower, "сем"@)
    ||| holds(lower, "конс"@)
    ||| holds(lower, "экз"@)
    ||| holds(lower, "зач"@)
}

/// Whether a text in lower case holds a word for the kind of a lesson.
pub fn contains_kind(lower: &str) -> (r: bool)
    ensures
        r == holds_kind(lower@),
{
    contains(lower, "лек") || contains(lower, "пр") || contains(lower, "лаб") || contains(
        lower,
        "сем",
    ) || contains(lower, "конс") || contains(lower, "экз") || contains(lower, "зач")
}

/// Whether a text in brackets says what kind of lesson it is.
pub open spec fn names_kind(inside: Seq<char>) -> bool {
    holds_kind(lowercase(inside))
}

/// Where the bracket that opens at `start` closes; the length of `s` where it does not close.
pub open spec fn bracket_end(s: Seq<char>, start: int) -> int {
    start + find_char(s.skip(start), ')')
}

/// Whether the bracket at `start` opens, closes again and holds the kind of a lesson.
pub open spec fn kind_opens(s: Seq<char>, start: int) -> bool {
    &&& s[start] == '('
    &&& bracket_end(s, start) < s.len()
    &&& names_kind(s.subrange(start + 1, bracket_end(s, start)))
}

/// The first position from `from` on where the kind of a lesson stands in brackets; the length
/// of `s` where there is none.
pub open spec fn kind_start(s: Seq<char>, from: int) -> int
    decreases s.len() - from,
{
    if from >= s.len() || kind_opens(s, from) {
        from
    } else {
        kind_start(s, from + 1)
    }
}

/// The parts of a description.
pub struct DescriptionView {
    pub subject: Seq<char>,
    pub kind: Option<Seq<char>>,
    pub teacher: Option<Seq<char>>,
}

/// The parts of a description in which the kind of the lesson stands between the brackets at
/// `start` and `end`: the subject stands before the first bracket and the teacher after the kind.
pub open spec fn bracketed_parts(s: Seq<char>, start: int, end: int) -> DescriptionView {
    let head = s.take(start);
    DescriptionView {
        subject: trimmed(head.take(find_char(head, '('))),
        kind: Some(trimmed(s.subrange(start + 1, end))),
        teacher: unless_blank(s.skip(end + 1)),
    }
}

/// The parts of a description; where no brackets hold a kind, the whole text is the subject.
pub open spec fn description_parts(s: Seq<char>) -> DescriptionView {
    let start = kind_start(s, 0);
    if start >= s.len() {
        DescriptionView { subject: trimmed(s), kind: None, teacher: None }
    } else {
        bracketed_parts(s, start, bracket_end(s, start))
    }
}

/// The subject, the kind and the teacher around the brackets at `start` and `end`.
pub fn split_description(description: &str, start: usize, end: usize) -> (r: (
    String,
    Option<String>,
    Option<String>,
))
    requires
        start < end < description@.len(),
        description@[start as int] == '(',
    ensures
        ({
            let parts = bracketed_parts(description@, start as int, end as int);
            &&& r.0@ == parts.subject
            &&& text_of(r.1) == parts.kind
            &&& text_of(r.2) == parts.teacher
        }),
{
    let chars = to_chars(description);
    let ghost s = description@;
    let bracket = find_from(&chars, 0, '(');
    proof {
        let head = s.take(start as int);
        assert(s.skip(0) =~= s);
        lemma_find_char(s, '(');
        lemma_find_char(head, '(');
        let first = find_char(s, '(');
        let within = find_char(head, '(');
        assert(first <= start);
        if first < start {
            assert(head[first] == s[first]);
        }
        if within < head.len() {
            assert(head[within] == s[within]);
        }
        assert(first == within);
        assert(s.subrange(0, bracket as int) =~= head.take(bracket as int));
        assert(s.subrange(end + 1, s.len() as int) =~= s.skip(end + 1));
    }
    let before = slice_text(&chars, 0, bracket);
    let inside = slice_text(&chars, start + 1, end);
    let total: usize = chars.len();
    let after = slice_text(&chars, end + 1, total);
    (trim(before.as_str()), Some(trim(inside.as_str())), non_empty(after.as_str()))
}

/// The subject, the kind and the teacher that a description gives.
pub fn parse_description(description: &str) -> (r: (String, Option<String>, Option<String>))
    ensures
        ({
            let parts = description_parts(description@);
            &&& r.0@ == parts.subject
            &&& text_of(r.1) == parts.kind
            &&& text_of(r.2) == parts.teacher
        }),
{
    let chars = to_chars(description);
    let ghost s = description@;
    let mut start: usize = 0;
    while start < chars.len()
        invariant
            start <= chars@.len(),
            chars@ == s,
            s == description@,
            kind_start(s, 0) == kind_start(s, start as int),
        decreases chars@.len() - start,
    {
        if chars[start] == '(' {
            let end = find_from(&chars, start, ')');
            if end < chars.len() {
                proof {
                    lemma_find_char(s.skip(start as int), ')');
                    assert(s.skip(start as int)[0] == '(');
                }
                let inside = slice_text(&chars, start + 1, end);
                let lower = to_lowercase(inside.as_str());
                if contains_kind(lower.as_str()) {
                    return split_description(description, start, end);
                }
            }
        }
        start += 1;
    }
    (trim(description), None, None)
}

/// The cell of a row in column `col`; empty where the row ends before it.
pub open spec fn cell_in(row: Seq<Seq<char>>, col: int) -> Seq<char> {
    if 0 <= col < row.len() {
        row[col]
    } else {
        seq![]
    }
}

fn cell_at(row: &Vec<String>, col: usize) -> (r: String)
    ensures
        r@ == cell_in(texts(row@), col as int),
{
    if col < row.len() {
        row[col].clone()
    } else {
        String::new()
    }
}

/// The texts of the rows of a sheet.
pub open spec fn grid(rows: Seq<Vec<String>>) -> Seq<Seq<Seq<char>>> {
    rows.map_values(|row: Vec<String>| texts(row@))
}

/// The texts of a row of cells.
pub open spec fn row_texts(row: Seq<CellView>) -> Seq<Seq<char>> {
    row.map_values(|cell: CellView| cell.text())
}

/// The texts of the cells of a sheet.
pub open spec fn sheet_texts(sheet: Seq<Seq<CellView>>) -> Seq<Seq<Seq<char>>> {
    sheet.map_values(|row: Seq<CellView>| row_texts(row))
}

fn read_row(row: &Vec<Cell>) -> (r: Vec<String>)
    ensures
        texts(r@) == row_texts(row_view(row@)),
{
    let mut r: Vec<String> = Vec::new();
    let mut i: usize = 0;
    while i < row.len()
        invariant
            i <= row@.len(),
            r@.len() == i,
            forall|j: int| 0 <= j < i ==> r@[j]@ == row@[j]@.text(),
        decreases row@.len() - i,
    {
        r.push(cell_text(&row[i]));
        i += 1;
    }
    assert(texts(r@) =~= row_texts(row_view(row@)));
    r
}

fn read_sheet(sheet: &Vec<Vec<Cell>>) -> (r: Vec<Vec<String>>)
    ensures
        grid(r@) == sheet_texts(sheet_view(sheet@)),
{
    let mut r: Vec<Vec<String>> = Vec::new();
    let mut i: usize = 0;
    while i < sheet.len()
        invariant
            i <= sheet@.len(),
            r@.len() == i,
            forall|j: int| 0 <= j < i ==> texts(r@[j]@) == row_texts(row_view(sheet@[j]@)),
        decreases sheet@.len() - i,
    {
        r.push(read_row(&sheet[i]));
        i += 1;
    }
    assert(grid(r@) =~= sheet_texts(sheet_view(sheet@)));
    r
}

/// The first row from `from` on that holds the heading of the day column; the number of rows
/// where none does.
pub open spec fn header_row(rows: Seq<Seq<Seq<char>>>, from: int) -> int
    decreases rows.len() - from,
{
    if from >= rows.len() || rows[from].contains("День"@) {
        from
    } else {
        header_row(rows, from + 1)
    }
}

fn is_header(row: &Vec<String>) -> (r: bool)
    ensures
        r == texts(row@).contains("День"@),
{
    let mut i: usize = 0;
    while i < row.len()
        invariant
            i <= row@.len(),
            forall|j: int| 0 <= j < i ==> texts(row@)[j] != "День"@,
        decreases row@.len() - i,
    {
        if same_text(row[i].as_str(), "День") {
            assert(texts(row@)[i as int] == "День"@);
            return true;
        }
        i += 1;
    }
    false
}

/// A column of subjects together with the groups that the header gives it.
pub struct ColumnView {
    pub col: int,
    pub groups: Seq<Seq<char>>,
}

/// The columns of subjects from `col` on: every second column whose header names a group.
pub open spec fn columns_from(header: Seq<Seq<char>>, col: int) -> Seq<ColumnView>
    decreases header.len() + 1 - col,
{
    if col >= header.len() {
        seq![]
    } else {
        let groups = group_names(header[col]);
        let rest = columns_from(header, col + 2);
        if groups.len() == 0 {
            rest
        } else {
            seq![ColumnView { col, groups }] + rest
        }
    }
}

/// The columns of subjects of a timetable; subjects begin in the fifth column.
pub open spec fn columns(header: Seq<Seq<char>>) -> Seq<ColumnView> {
    columns_from(header, 4)
}

struct Column {
    col: usize,
    groups: Vec<String>,
}

impl View for Column {
    type V = ColumnView;

    closed spec fn view(&self) -> ColumnView {
        ColumnView { col: self.col as int, groups: texts(self.groups@) }
    }
}

spec fn columns_view(list: Seq<Column>) -> Seq<ColumnView> {
    list.map_values(|column: Column| column@)
}

fn read_columns(header: &Vec<String>) -> (r: Vec<Column>)
    ensures
        columns_view(r@) == columns(texts(header@)),
        forall|i: int| 0 <= i < r@.len() ==> (#[trigger] r@[i]).col < header@.len(),
{
    let total: usize = header.len();
    let mut r: Vec<Column> = Vec::new();
    let mut col: usize = 4;
    let ghost cells = texts(header@);
    assert(columns_view(r@) + columns_from(cells, 4) =~= columns(cells));
    while col < total
        invariant
            total == header@.len(),
            cells == texts(header@),
            columns_view(r@) + columns_from(cells, col as int) == columns(cells),
            forall|i: int| 0 <= i < r@.len() ==> (#[trigger] r@[i]).col < header@.len(),
        decreases total - col,
    {
        let groups = split_groups(header[col].as_str());
        let ghost before = columns_view(r@);
        if groups.len() > 0 {
            let ghost view = ColumnView { col: col as int, groups: texts(groups@) };
            r.push(Column { col, groups });
            assert(columns_view(r@) =~= before.push(view));
            assert(columns_view(r@) + columns_from(cells, col + 2) =~= before + columns_from(
                cells,
                col as int,
            ));
        }
        if total - col <= 2 {
            assert(columns_from(cells, col + 2) =~= seq![]);
            assert(columns_view(r@) + columns_from(cells, col + 2) =~= columns_view(r@));
            return r;
        }
        col += 2;
    }
    assert(columns_view(r@) + columns_from(cells, col as int) =~= columns_view(r@));
    r
}

/// The day that the rows of a sheet have come to: its name, and its date where one is known.
pub struct DayView {
    pub name: Seq<char>,
    pub date: Option<DateView>,
}

/// Whether a row begins a day of the week.
pub open spec fn begins_day(row: Seq<Seq<char>>) -> bool {
    row.len() > 0 && names_weekday(row[0])
}

/// The date in the second cell of a row.
pub open spec fn row_date(row: Seq<Seq<char>>) -> Option<DateView> {
    if row.len() > 1 {
        cell_date(row[1])
    } else {
        None
    }
}

/// The day after a row, given the date in the row: a row that begins a day sets both the name
/// and the date, another row sets the date where it gives one.
pub open spec fn day_after(day: DayView, row: Seq<Seq<char>>, date: Option<DateView>) -> DayView {
    if begins_day(row) {
        DayView { name: row[0], date }
    } else if cell_in(row, 1).len() > 0 && date is Some {
        DayView { name: day.name, date }
    } else {
        day
    }
}

/// The day after the rows `first..last`.
pub open spec fn day_by(rows: Seq<Seq<Seq<char>>>, first: int, last: int) -> DayView
    decreases last - first,
{
    if last <= first {
        DayView { name: seq![], date: None }
    } else {
        day_after(day_by(rows, first, last - 1), rows[last - 1], row_date(rows[last - 1]))
    }
}

/// The number of the lesson in a row; 0 where there is none.
pub open spec fn row_number(row: Seq<Seq<char>>) -> int {
    match unsigned_number(cell_in(row, 2), 255) {
        Some(number) => number,
        None => 0,
    }
}

/// Whether a row gives a lesson its time and its number.
pub open spec fn is_timed(row: Seq<Seq<char>>) -> bool {
    time_range(cell_in(row, 3)) is Some && row_number(row) > 0
}

/// The room next to column `col`.
pub open spec fn row_room(row: Seq<Seq<char>>, col: int) -> Option<Seq<char>> {
    match unless_blank(cell_in(row, col + 1)) {
        Some(room) => Some(room_name(room)),
        None => None,
    }
}

/// What the lessons of one subject cell share.
pub struct EntryView {
    pub groups: Seq<Seq<char>>,
    pub date: DateView,
    pub weekday: Seq<char>,
    pub description: Seq<char>,
    pub room: Option<Seq<char>>,
}

/// The lesson of an entry in a row that gives a time and a number, as far as that row tells.
pub open spec fn lesson_in(entry: EntryView, row: Seq<Seq<char>>) -> LessonView {
    let parts = description_parts(entry.description);
    let time = time_range(cell_in(row, 3)).unwrap();
    LessonView {
        groups: entry.groups,
        date: entry.date,
        weekday: entry.weekday,
        lesson_number: row_number(row),
        start_time: time.0,
        end_time: time.1,
        subject: parts.subject,
        lesson_type: parts.kind,
        teacher: parts.teacher,
        room: entry.room,
        description: entry.description,
    }
}

/// Whether a row goes on with the lesson above it, given the date and the room in the row: no day
/// begins, no date and no subject stands there, and the room is the same.
pub open spec fn continues(
    row: Seq<Seq<char>>,
    col: int,
    room: Option<Seq<char>>,
    date: Option<DateView>,
    here: Option<Seq<char>>,
) -> bool {
    &&& !begins_day(row)
    &&& date is None
    &&& trimmed(cell_in(row, col)).len() == 0
    &&& room is Some
    &&& here == room
}

/// Whether a row goes on with the lesson above it.
pub open spec fn goes_on(row: Seq<Seq<char>>, col: int, room: Option<Seq<char>>) -> bool {
    continues(row, col, room, row_date(row), row_room(row, col))
}

/// When a lesson ends that lasts until `end` before row `from`: every row that goes on with it and
/// gives a time, but no number, prolongs it.
pub open spec fn end_after(
    rows: Seq<Seq<Seq<char>>>,
    from: int,
    col: int,
    room: Option<Seq<char>>,
    end: Seq<char>,
) -> Seq<char>
    decreases rows.len() - from,
{
    if from >= rows.len() || !goes_on(rows[from], col, room) || is_timed(rows[from]) {
        end
    } else {
        match time_range(cell_in(rows[from], 3)) {
            Some(time) => end_after(rows, from + 1, col, room, time.1),
            None => end_after(rows, from + 1, col, room, end),
        }
    }
}

/// The lesson of an entry that begins in row `at`, which gives a time and a number.
pub open spec fn lesson_at(
    rows: Seq<Seq<Seq<char>>>,
    at: int,
    col: int,
    entry: EntryView,
) -> LessonView {
    let lesson = lesson_in(entry, rows[at]);
    LessonView { end_time: end_after(rows, at + 1, col, entry.room, lesson.end_time), ..lesson }
}

/// The lessons of an entry in the rows from `from` on that go on with it: one for each row that
/// gives a time and a number.
pub open spec fn later_lessons(
    rows: Seq<Seq<Seq<char>>>,
    from: int,
    col: int,
    entry: EntryView,
) -> Seq<LessonView>
    decreases rows.len() - from,
{
    if from >= rows.len() || !goes_on(rows[from], col, entry.room) {
        seq![]
    } else if is_timed(rows[from]) {
        seq![lesson_at(rows, from, col, entry)] + later_lessons(rows, from + 1, col, entry)
    } else {
        later_lessons(rows, from + 1, col, entry)
    }
}

/// The lessons that begin in row `at` under one column. A lesson that takes several periods has
/// its subject in its first row only, while its room stands in every row; each period with a
/// number is a lesson of its own, and one without prolongs the lesson before it.
pub open spec fn cell_lessons(
    rows: Seq<Seq<Seq<char>>>,
    at: int,
    column: ColumnView,
    day: DayView,
) -> Seq<LessonView> {
    let description = cell_in(rows[at], column.col);
    if trimmed(description).len() == 0 {
        seq![]
    } else {
        let entry = EntryView {
            groups: column.groups,
            date: day.date.unwrap(),
            weekday: day.name,
            description,
            room: row_room(rows[at], column.col),
        };
        seq![lesson_at(rows, at, column.col, entry)] + later_lessons(
            rows,
            at + 1,
            column.col,
            entry,
        )
    }
}

/// The lessons that begin in row `at` under the first `count` columns.
pub open spec fn columns_lessons(
    rows: Seq<Seq<Seq<char>>>,
    at: int,
    columns: Seq<ColumnView>,
    count: int,
    day: DayView,
) -> Seq<LessonView>
    decreases count,
{
    if count <= 0 {
        seq![]
    } else {
        columns_lessons(rows, at, columns, count - 1, day) + cell_lessons(
            rows,
            at,
            columns[count - 1],
            day,
        )
    }
}

/// The lessons that begin in row `at`: none before a date is known or where the row gives no
/// time or no number.
pub open spec fn row_lessons(
    rows: Seq<Seq<Seq<char>>>,
    at: int,
    columns: Seq<ColumnView>,
    day: DayView,
) -> Seq<LessonView> {
    if day.date is Some && is_timed(rows[at]) {
        columns_lessons(rows, at, columns, columns.len() as int, day)
    } else {
        seq![]
    }
}

/// The lessons that begin in the rows `first..last`.
pub open spec fn rows_lessons(
    rows: Seq<Seq<Seq<char>>>,
    first: int,
    last: int,
    columns: Seq<ColumnView>,
) -> Seq<LessonView>
    decreases last - first,
{
    if last <= first {
        seq![]
    } else {
        rows_lessons(rows, first, last - 1, columns) + row_lessons(
            rows,
            last - 1,
            columns,
            day_by(rows, first, last),
        )
    }
}

/// Whether a sheet holds a timetable: a header row that names a group.
pub open spec fn is_timetable(rows: Seq<Seq<Seq<char>>>) -> bool {
    let header = header_row(rows, 0);
    header < rows.len() && columns(rows[header]).len() > 0
}

/// The lessons of a sheet, in the order of its rows and columns. Lessons begin two rows below
/// the header.
pub open spec fn sheet_lessons(rows: Seq<Seq<Seq<char>>>) -> Seq<LessonView> {
    let header = header_row(rows, 0);
    if is_timetable(rows) {
        rows_lessons(rows, header + 2, rows.len() as int, columns(rows[header]))
    } else {
        seq![]
    }
}

/// The lessons of the first `count` sheets.
pub open spec fn workbook_lessons(sheets: Seq<Seq<Seq<CellView>>>, count: int) -> Seq<LessonView>
    decreases count,
{
    if count <= 0 {
        seq![]
    } else {
        workbook_lessons(sheets, count - 1) + sheet_lessons(sheet_texts(sheets[count - 1]))
    }
}

/// Whether one of the first `count` sheets holds a timetable.
pub open spec fn has_timetable(sheets: Seq<Seq<Seq<CellView>>>, count: int) -> bool {
    exists|i: int| 0 <= i < count && is_timetable(sheet_texts(#[trigger] sheets[i]))
}

/// The day that the rows of a sheet have come to.
#[derive(Debug)]
pub struct Day {
    pub name: String,
    pub date: Option<Date>,
}

impl View for Day {
    type V = DayView;

    open spec fn view(&self) -> DayView {
        DayView { name: self.name@, date: date_of(self.date) }
    }
}

/// The day after a row, given the date in the row.
pub fn next_day(day: Day, row: &Vec<String>, date: Option<Date>) -> (r: Day)
    ensures
        r@ == day_after(day@, texts(row@), date_of(date)),
{
    if row.len() > 0 && is_weekday(row[0].as_str()) {
        Day { name: row[0].clone(), date }
    } else if row.len() > 1 && !row[1].as_str().is_empty() && date.is_some() {
        Day { name: day.name, date }
    } else {
        day
    }
}

fn read_date(row: &Vec<String>) -> (r: Option<Date>)
    ensures
        date_of(r) == row_date(texts(row@)),
{
    if row.len() > 1 {
        parse_date(row[1].as_str())
    } else {
        None
    }
}

fn read_number(row: &Vec<String>) -> (r: u8)
    ensures
        r == row_number(texts(row@)),
{
    let cell = cell_at(row, 2);
    match parse_unsigned(cell.as_str(), 255) {
        Some(number) => number as u8,
        None => 0,
    }
}

fn read_room(row: &Vec<String>, col: usize) -> (r: Option<String>)
    requires
        col < usize::MAX,
    ensures
        text_of(r) == row_room(texts(row@), col as int),
{
    let cell = cell_at(row, col + 1);
    match non_empty(cell.as_str()) {
        Some(room) => Some(display_room_name(room.as_str())),
        None => None,
    }
}

struct Entry {
    groups: Vec<String>,
    date: Date,
    weekday: String,
    description: String,
    room: Option<String>,
}

impl View for Entry {
    type V = EntryView;

    closed spec fn view(&self) -> EntryView {
        EntryView {
            groups: texts(self.groups@),
            date: self.date@,
            weekday: self.weekday@,
            description: self.description@,
            room: text_of(self.room),
        }
    }
}

/// The lesson of the entry in a row, where the row gives a time and a number.
fn read_lesson(entry: &Entry, row: &Vec<String>) -> (r: Option<Lesson>)
    ensures
        match r {
            Some(lesson) => is_timed(texts(row@)) && lesson@ == lesson_in(entry@, texts(row@)),
            None => !is_timed(texts(row@)),
        },
{
    let number = read_number(row);
    let cell = cell_at(row, 3);
    if number == 0 {
        return None;
    }
    match parse_time(cell.as_str()) {
        None => None,
        Some((start_time, end_time)) => {
            let (subject, lesson_type, teacher) = parse_description(entry.description.as_str());
            Some(
                Lesson {
                    groups: copy_texts(&entry.groups),
                    date: entry.date,
                    weekday: entry.weekday.clone(),
                    lesson_number: number,
                    start_time,
                    end_time,
                    subject,
                    lesson_type,
                    teacher,
                    room: copy_text(&entry.room),
                    description: entry.description.clone(),
                },
            )
        },
    }
}

/// Whether a row goes on with the lesson above it, given the date and the room in the row.
pub fn continues_lesson(
    row: &Vec<String>,
    col: usize,
    room: &Option<String>,
    date: Option<Date>,
    here: &Option<String>,
) -> (r: bool)
    ensures
        r == continues(texts(row@), col as int, text_of(*room), date_of(date), text_of(*here)),
{
    if row.len() > 0 && is_weekday(row[0].as_str()) {
        return false;
    }
    if date.is_some() || room.is_none() {
        return false;
    }
    let subject = cell_at(row, col);
    is_blank(subject.as_str()) && same_optional_text(here, room)
}

fn row_goes_on(row: &Vec<String>, col: usize, room: &Option<String>) -> (r: bool)
    requires
        col < usize::MAX,
    ensures
        r == goes_on(texts(row@), col as int, text_of(*room)),
{
    let here = read_room(row, col);
    continues_lesson(row, col, room, read_date(row), &here)
}

/// When a lesson ends that lasts until `end` before row `from`.
fn read_end(
    rows: &Vec<Vec<String>>,
    from: usize,
    col: usize,
    room: &Option<String>,
    end: String,
) -> (r: String)
    requires
        from <= rows@.len(),
        col < usize::MAX,
    ensures
        r@ == end_after(grid(rows@), from as int, col as int, text_of(*room), end@),
{
    let total: usize = rows.len();
    let ghost table = grid(rows@);
    let ghost whole = end_after(table, from as int, col as int, text_of(*room), end@);
    let mut last = end;
    let mut next: usize = from;
    while next < total && row_goes_on(&rows[next], col, room)
        invariant
            next <= total == rows@.len(),
            table == grid(rows@),
            col < usize::MAX,
            whole == end_after(table, from as int, col as int, text_of(*room), end@),
            end_after(table, next as int, col as int, text_of(*room), last@) == whole,
        decreases total - next,
    {
        assert(table[next as int] == texts(rows@[next as int]@));
        let cell = cell_at(&rows[next], 3);
        match parse_time(cell.as_str()) {
            Some((_, later)) => {
                if read_number(&rows[next]) > 0 {
                    return last;
                }
                last = later;
            },
            None => {},
        }
        next += 1;
    }
    last
}

/// The lesson of the entry that begins in row `at`, where the row gives a time and a number.
fn read_pair(entry: &Entry, rows: &Vec<Vec<String>>, at: usize, col: usize) -> (r: Option<Lesson>)
    requires
        at < rows@.len(),
        col < usize::MAX,
    ensures
        match r {
            Some(lesson) => is_timed(grid(rows@)[at as int]) && lesson@ == lesson_at(
                grid(rows@),
                at as int,
                col as int,
                entry@,
            ),
            None => !is_timed(grid(rows@)[at as int]),
        },
{
    assert(rows.len() == rows@.len());
    match read_lesson(entry, &rows[at]) {
        None => None,
        Some(lesson) => {
            let mut lesson = lesson;
            lesson.end_time = read_end(rows, at + 1, col, &entry.room, lesson.end_time);
            Some(lesson)
        },
    }
}

proof fn lemma_pushed(before: Seq<Lesson>, lesson: Lesson)
    ensures
        lessons_view(before.push(lesson)) == lessons_view(before).push(lesson@),
{
    assert(lessons_view(before.push(lesson)) =~= lessons_view(before).push(lesson@));
}

/// Appends the lessons that begin in row `at` under one column.
fn read_cell(
    rows: &Vec<Vec<String>>,
    at: usize,
    column: &Column,
    day: &Day,
    lessons: &mut Vec<Lesson>,
)
    requires
        at < rows@.len(),
        column.col < usize::MAX,
        day.date is Some,
        is_timed(grid(rows@)[at as int]),
    ensures
        lessons_view(final(lessons)@) == lessons_view(old(lessons)@) + cell_lessons(
            grid(rows@),
            at as int,
            column@,
            day@,
        ),
{
    let total: usize = rows.len();
    let ghost table = grid(rows@);
    let ghost before = lessons_view(lessons@);
    let description = cell_at(&rows[at], column.col);
    if is_blank(description.as_str()) {
        assert(before + cell_lessons(table, at as int, column@, day@) =~= before);
        return;
    }
    let entry = Entry {
        groups: copy_texts(&column.groups),
        date: day.date.unwrap(),
        weekday: day.name.clone(),
        description,
        room: read_room(&rows[at], column.col),
    };
    let ghost all = cell_lessons(table, at as int, column@, day@);
    match read_pair(&entry, rows, at, column.col) {
        Some(lesson) => {
            proof {
                lemma_pushed(lessons@, lesson);
            }
            lessons.push(lesson);
        },
        None => {},
    }
    let mut next: usize = at + 1;
    assert(lessons_view(lessons@) + later_lessons(table, next as int, column@.col, entry@)
        =~= before + all);
    while next < total && row_goes_on(&rows[next], column.col, &entry.room)
        invariant
            next <= total == rows@.len(),
            table == grid(rows@),
            column.col < usize::MAX,
            lessons_view(lessons@) + later_lessons(table, next as int, column@.col, entry@)
                == before + all,
        decreases rows@.len() - next,
    {
        let ghost so_far = lessons_view(lessons@);
        let ghost rest = later_lessons(table, next as int, column@.col, entry@);
        match read_pair(&entry, rows, next, column.col) {
            Some(lesson) => {
                proof {
                    lemma_pushed(lessons@, lesson);
                }
                lessons.push(lesson);
            },
            None => {},
        }
        assert(lessons_view(lessons@) + later_lessons(table, next + 1, column@.col, entry@)
            =~= so_far + rest);
        next += 1;
    }
    assert(lessons_view(lessons@) + later_lessons(table, next as int, column@.col, entry@)
        =~= lessons_view(lessons@));
}

/// Appends the lessons that begin in row `at`.
fn read_lessons(
    rows: &Vec<Vec<String>>,
    at: usize,
    columns: &Vec<Column>,
    day: &Day,
    lessons: &mut Vec<Lesson>,
)
    requires
        at < rows@.len(),
        forall|i: int| 0 <= i < columns@.len() ==> (#[trigger] columns@[i]).col < usize::MAX,
    ensures
        lessons_view(final(lessons)@) == lessons_view(old(lessons)@) + row_lessons(
            grid(rows@),
            at as int,
            columns_view(columns@),
            day@,
        ),
{
    let ghost table = grid(rows@);
    let ghost before = lessons_view(lessons@);
    let ghost view = columns_view(columns@);
    let number = read_number(&rows[at]);
    let cell = cell_at(&rows[at], 3);
    if day.date.is_none() || number == 0 || parse_time(cell.as_str()).is_none() {
        assert(before + row_lessons(table, at as int, view, day@) =~= before);
        return;
    }
    let mut i: usize = 0;
    assert(before + columns_lessons(table, at as int, view, 0, day@) =~= before);
    while i < columns.len()
        invariant
            i <= columns@.len(),
            at < rows@.len(),
            table == grid(rows@),
            view == columns_view(columns@),
            day.date is Some,
            is_timed(table[at as int]),
            forall|i: int| 0 <= i < columns@.len() ==> (#[trigger] columns@[i]).col < usize::MAX,
            lessons_view(lessons@) == before + columns_lessons(
                table,
                at as int,
                view,
                i as int,
                day@,
            ),
        decreases columns@.len() - i,
    {
        read_cell(rows, at, &columns[i], day, lessons);
        assert(before + columns_lessons(table, at as int, view, i + 1, day@) =~= before
            + columns_lessons(table, at as int, view, i as int, day@) + cell_lessons(
            table,
            at as int,
            view[i as int],
            day@,
        ));
        i += 1;
    }
}

/// Appends the lessons of a sheet; says whether the sheet holds a timetable.
fn read_timetable(sheet: &Vec<Vec<Cell>>, lessons: &mut Vec<Lesson>) -> (r: bool)
    ensures
        r == is_timetable(sheet_texts(sheet_view(sheet@))),
        lessons_view(final(lessons)@) == lessons_view(old(lessons)@) + sheet_lessons(
            sheet_texts(sheet_view(sheet@)),
        ),
{
    let rows = read_sheet(sheet);
    let total: usize = rows.len();
    let ghost table = grid(rows@);
    let ghost before = lessons_view(lessons@);
    let mut header: usize = 0;
    while header < total && !is_header(&rows[header])
        invariant
            header <= total == rows@.len(),
            table == grid(rows@),
            header_row(table, 0) == header_row(table, header as int),
        decreases total - header,
    {
        header += 1;
    }
    if header == total {
        assert(before + sheet_lessons(table) =~= before);
        return false;
    }
    let width: usize = rows[header].len();
    let columns = read_columns(&rows[header]);
    let ghost view = columns_view(columns@);
    if columns.len() == 0 {
        assert(before + sheet_lessons(table) =~= before);
        return false;
    }
    assert forall|i: int| 0 <= i < columns@.len() implies (#[trigger] columns@[i]).col
        < usize::MAX by {
        assert(columns@[i].col < width);
    }
    let ghost first = header + 2;
    let mut day = Day { name: String::new(), date: None };
    assert(before + rows_lessons(table, first, first, view) =~= before);
    if total - header <= 2 {
        assert(before + rows_lessons(table, first, table.len() as int, view) =~= before);
        return true;
    }
    let mut at: usize = header + 2;
    while at < total
        invariant
            first <= at <= total == rows@.len(),
            table == grid(rows@),
            view == columns_view(columns@),
            day@ == day_by(table, first, at as int),
            forall|i: int| 0 <= i < columns@.len() ==> (#[trigger] columns@[i]).col < usize::MAX,
            lessons_view(lessons@) == before + rows_lessons(table, first, at as int, view),
        decreases total - at,
    {
        let date = read_date(&rows[at]);
        day = next_day(day, &rows[at], date);
        read_lessons(&rows, at, &columns, &day, lessons);
        assert(before + rows_lessons(table, first, at + 1, view) =~= before + rows_lessons(
            table,
            first,
            at as int,
            view,
        ) + row_lessons(table, at as int, view, day@));
        at += 1;
    }
    true
}

/// What a workbook gives: the lessons of its timetables in listing order, or why there are none.
pub open spec fn is_parsed(
    r: Result<Vec<Lesson>, ParseError>,
    workbook: Result<Seq<Seq<Seq<CellView>>>, ReadError<Seq<char>>>,
) -> bool {
    match workbook {
        Err(ReadError::BrokenOff) => r matches Err(ParseError::BrokenOff),
        Err(ReadError::Unreadable(reason)) => r matches Err(ParseError::Workbook(why)) && why@
            == reason,
        Ok(sheets) => if has_timetable(sheets, sheets.len() as int) {
            r matches Ok(lessons) && lessons_view(lessons@) == in_listing_order(
                workbook_lessons(sheets, sheets.len() as int),
            )
        } else {
            r matches Err(ParseError::NoScheduleSheets)
        },
    }
}

/// The lessons of a weekly timetable, in listing order, out of the bytes of an Excel workbook
/// (`.xls`, `.xlsx`, or `.xlsb`) that has been read from a file with a given extension.
pub fn parse_file(contents: Vec<u8>, extension: Option<&str>) -> (r: Result<
    Vec<Lesson>,
    ParseError,
>)
    ensures
        is_parsed(r, all_sheets(book_of(promised_format(str_of(extension)), contents@))),
{
    parse_workbook(read_workbook(workbook_format(extension), contents))
}

/// The lessons of a weekly timetable, in listing order, out of the sheets of a workbook or the
/// reason why it could not be read.
pub fn parse_workbook(workbook: Result<Vec<Vec<Vec<Cell>>>, ReadError<String>>) -> (r: Result<
    Vec<Lesson>,
    ParseError,
>)
    ensures
        is_parsed(r, workbook_view(workbook)),
{
    let sheets = match workbook {
        Ok(sheets) => sheets,
        Err(ReadError::BrokenOff) => return Err(ParseError::BrokenOff),
        Err(ReadError::Unreadable(reason)) => return Err(ParseError::Workbook(reason)),
    };
    let ghost all = sheets_view(sheets@);
    let mut lessons: Vec<Lesson> = Vec::new();
    let mut found = false;
    let mut i: usize = 0;
    assert(lessons_view(lessons@) =~= workbook_lessons(all, 0));
    while i < sheets.len()
        invariant
            i <= sheets@.len(),
            all == sheets_view(sheets@),
            found == has_timetable(all, i as int),
            lessons_view(lessons@) == workbook_lessons(all, i as int),
        decreases sheets@.len() - i,
    {
        let here = read_timetable(&sheets[i], &mut lessons);
        proof {
            assert(all[i as int] == sheet_view(sheets@[i as int]@));
            if has_timetable(all, i + 1) {
                let k = choose|k: int|
                    0 <= k < i + 1 && is_timetable(sheet_texts(#[trigger] all[k]));
                assert(k < i ==> has_timetable(all, i as int));
            }
            if found {
                let k = choose|k: int| 0 <= k < i && is_timetable(sheet_texts(#[trigger] all[k]));
                assert(0 <= k < i + 1 && is_timetable(sheet_texts(all[k])));
            }
            if here {
                assert(is_timetable(sheet_texts(all[i as int])));
            }
        }
        found = found || here;
        i += 1;
    }
    if !found {
        return Err(ParseError::NoScheduleSheets);
    }
    Ok(sort_lessons(lessons))
}

/// Whether a lesson is one of a group's, whatever the case of ASCII letters.
pub open spec fn is_for_group(lesson: LessonView, group: Seq<char>) -> bool {
    exists|i: int|
        0 <= i < lesson.groups.len() && ascii_lowered(#[trigger] lesson.groups[i])
            == ascii_lowered(group)
}

/// Whether a lesson takes place in a room, under the displayed name of the room and whatever the
/// case of ASCII letters.
pub open spec fn is_in_room(lesson: LessonView, room: Seq<char>) -> bool {
    match lesson.room {
        Some(own) => ascii_lowered(own) == ascii_lowered(room_name(room)),
        None => false,
    }
}

proof fn lemma_filter_step(all: Seq<LessonView>, i: int, keep: spec_fn(LessonView) -> bool)
    requires
        0 <= i < all.len(),
    ensures
        all.take(i + 1).filter(keep) == if keep(all[i]) {
            all.take(i).filter(keep).push(all[i])
        } else {
            all.take(i).filter(keep)
        },
{
    reveal(Seq::filter);
    assert(all.take(i + 1).drop_last() =~= all.take(i));
    assert(all.take(i + 1).last() == all[i]);
}

proof fn lemma_borrowed(before: Seq<&Lesson>, lesson: &Lesson)
    ensures
        borrowed_view(before.push(lesson)) == borrowed_view(before).push(lesson@),
{
    assert(borrowed_view(before.push(lesson)) =~= borrowed_view(before).push(lesson@));
}

fn has_group(lesson: &Lesson, group: &str) -> (r: bool)
    ensures
        r == is_for_group(lesson@, group@),
{
    let mut i: usize = 0;
    while i < lesson.groups.len()
        invariant
            i <= lesson.groups@.len(),
            forall|j: int|
                0 <= j < i ==> ascii_lowered(#[trigger] lesson@.groups[j]) != ascii_lowered(group@),
        decreases lesson.groups@.len() - i,
    {
        if eq_ignore_ascii_case(lesson.groups[i].as_str(), group) {
            assert(lesson@.groups[i as int] == lesson.groups@[i as int]@);
            return true;
        }
        i += 1;
    }
    false
}

/// The lessons of a group, in their order.
pub fn for_group<'a>(lessons: &'a [Lesson], group: &str) -> (r: Vec<&'a Lesson>)
    ensures
        borrowed_view(r@) == lessons_view(lessons@).filter(
            |lesson: LessonView| is_for_group(lesson, group@),
        ),
{
    let ghost all = lessons_view(lessons@);
    let ghost keep = |lesson: LessonView| is_for_group(lesson, group@);
    let mut r: Vec<&'a Lesson> = Vec::new();
    let mut i: usize = 0;
    proof {
        reveal(Seq::filter);
        assert(borrowed_view(r@) =~= all.take(0).filter(keep));
    }
    while i < lessons.len()
        invariant
            i <= lessons@.len(),
            all == lessons_view(lessons@),
            keep == (|lesson: LessonView| is_for_group(lesson, group@)),
            borrowed_view(r@) == all.take(i as int).filter(keep),
        decreases lessons@.len() - i,
    {
        let lesson = &lessons[i];
        proof {
            lemma_filter_step(all, i as int, keep);
            lemma_borrowed(r@, lesson);
        }
        if has_group(lesson, group) {
            r.push(lesson);
        }
        i += 1;
    }
    assert(all.take(i as int) =~= all);
    r
}

/// The lessons in a room, in their order.
pub fn for_room<'a>(lessons: &'a [Lesson], room: &str) -> (r: Vec<&'a Lesson>)
    ensures
        borrowed_view(r@) == lessons_view(lessons@).filter(
            |lesson: LessonView| is_in_room(lesson, room@),
        ),
{
    let ghost all = lessons_view(lessons@);
    let ghost keep = |lesson: LessonView| is_in_room(lesson, room@);
    let name = display_room_name(room);
    let mut r: Vec<&'a Lesson> = Vec::new();
    let mut i: usize = 0;
    proof {
        reveal(Seq::filter);
        assert(borrowed_view(r@) =~= all.take(0).filter(keep));
    }
    while i < lessons.len()
        invariant
            i <= lessons@.len(),
            name@ == room_name(room@),
            all == lessons_view(lessons@),
            keep == (|lesson: LessonView| is_in_room(lesson, room@)),
            borrowed_view(r@) == all.take(i as int).filter(keep),
        decreases lessons@.len() - i,
    {
        let lesson = &lessons[i];
        proof {
            lemma_filter_step(all, i as int, keep);
            lemma_borrowed(r@, lesson);
        }
        let here = match &lesson.room {
            Some(own) => eq_ignore_ascii_case(own.as_str(), name.as_str()),
            None => false,
        };
        if here {
            r.push(lesson);
        }
        i += 1;
    }
    assert(all.take(i as int) =~= all);
    r
}

/// The lessons of a day, in their order.
pub fn for_date<'a>(lessons: &'a [Lesson], date: Date) -> (r: Vec<&'a Lesson>)
    ensures
        borrowed_view(r@) == lessons_view(lessons@).filter(
            |lesson: LessonView| lesson.date == date@,
        ),
{
    let ghost all = lessons_view(lessons@);
    let ghost keep = |lesson: LessonView| lesson.date == date@;
    let mut r: Vec<&'a Lesson> = Vec::new();
    let mut i: usize = 0;
    proof {
        reveal(Seq::filter);
        assert(borrowed_view(r@) =~= all.take(0).filter(keep));
    }
    while i < lessons.len()
        invariant
            i <= lessons@.len(),
            all == lessons_view(lessons@),
            keep == (|lesson: LessonView| lesson.date == date@),
            borrowed_view(r@) == all.take(i as int).filter(keep),
        decreases lessons@.len() - i,
    {
        let lesson = &lessons[i];
        proof {
            lemma_filter_step(all, i as int, keep);
            lemma_borrowed(r@, lesson);
        }
        if lesson.date.same(&date) {
            r.push(lesson);
        }
        i += 1;
    }
    assert(all.take(i as int) =~= all);
    r
}

/// A remote room is found under each of its names: every spelling that is displayed as the
/// remote label asks for the same lessons as the label itself.
pub proof fn remote_room_has_one_timetable(lesson: LessonView, room: Seq<char>)
    ensures
        is_in_room(lesson, room) == is_in_room(lesson, room_name(room)),
{
    room_name_is_idempotent(room);
}

/// Whether a lesson has groups, none of them blank, and a number.
pub open spec fn is_numbered_for_groups(lesson: LessonView) -> bool {
    &&& lesson.groups.len() > 0
    &&& forall|i: int| 0 <= i < lesson.groups.len() ==> trimmed(#[trigger] lesson.groups[i]).len() > 0
    &&& 1 <= lesson.lesson_number <= 255
}

/// Whether a lesson is the pair of row `at`, until the end of the time in row `to`: it has the number
/// and the start of its own row, and reaches into no other row that gives a time and a number.
pub open spec fn is_pair_of(
    lesson: LessonView,
    rows: Seq<Seq<Seq<char>>>,
    at: int,
    to: int,
) -> bool {
    let start = time_range(cell_in(rows[at], 3));
    let end = time_range(cell_in(rows[to], 3));
    &&& 0 <= at <= to < rows.len()
    &&& is_timed(rows[at])
    &&& lesson.lesson_number == row_number(rows[at])
    &&& start is Some && start.unwrap().0 == lesson.start_time
    &&& end is Some && end.unwrap().1 == lesson.end_time
    &&& forall|k: int| at < k <= to ==> !is_timed(#[trigger] rows[k])
}

/// Whether a lesson is one pair of a sheet.
pub open spec fn is_one_pair(lesson: LessonView, rows: Seq<Seq<Seq<char>>>) -> bool {
    is_numbered_for_groups(lesson) && exists|at: int, to: int| is_pair_of(lesson, rows, at, to)
}

/// Whether every lesson of a list is one pair of a sheet.
pub open spec fn are_pairs(lessons: Seq<LessonView>, rows: Seq<Seq<Seq<char>>>) -> bool {
    forall|i: int| 0 <= i < lessons.len() ==> is_one_pair(#[trigger] lessons[i], rows)
}

/// Whether a column's groups are named.
pub open spec fn is_named(groups: Seq<Seq<char>>) -> bool {
    groups.len() > 0 && forall|i: int|
        0 <= i < groups.len() ==> trimmed(#[trigger] groups[i]).len() > 0
}

proof fn lemma_group_names(value: Seq<char>, i: int)
    requires
        0 <= i < group_names(value).len(),
    ensures
        trimmed(group_names(value)[i]).len() > 0,
{
    let names = split_on(value, '/').map_values(|part: Seq<char>| trimmed(part));
    let keep = |name: Seq<char>| name.len() > 0;
    let name = group_names(value)[i];
    names.lemma_filter_contains_rev(keep, name);
    let k = choose|k: int| 0 <= k < names.len() && names[k] == name;
    trim_is_idempotent(split_on(value, '/')[k]);
    lemma_filter_keeps(names, keep, i);
}

proof fn lemma_filter_keeps<T>(list: Seq<T>, keep: spec_fn(T) -> bool, i: int)
    requires
        0 <= i < list.filter(keep).len(),
    ensures
        keep(list.filter(keep)[i]),
    decreases list.len(),
{
    reveal(Seq::filter);
    let shorter = list.drop_last().filter(keep);
    if i < shorter.len() {
        lemma_filter_keeps(list.drop_last(), keep, i);
    }
}

proof fn lemma_columns_named(header: Seq<Seq<char>>, col: int, i: int)
    requires
        0 <= i < columns_from(header, col).len(),
    ensures
        is_named(columns_from(header, col)[i].groups),
    decreases header.len() + 1 - col,
{
    let groups = group_names(header[col]);
    if groups.len() == 0 {
        lemma_columns_named(header, col + 2, i);
    } else if i == 0 {
        assert forall|k: int| 0 <= k < groups.len() implies trimmed(#[trigger] groups[k]).len()
            > 0 by {
            lemma_group_names(header[col], k);
        }
    } else {
        lemma_columns_named(header, col + 2, i - 1);
    }
}

/// A lesson ends with the time of the row that gave its end, or of a later one before the next pair.
proof fn lemma_end_after(
    rows: Seq<Seq<Seq<char>>>,
    from: int,
    col: int,
    room: Option<Seq<char>>,
    at: int,
    to: int,
) -> (last: int)
    requires
        0 <= at <= to < from,
        to < rows.len(),
        time_range(cell_in(rows[to], 3)) is Some,
        forall|k: int| at < k < from && k < rows.len() ==> !is_timed(#[trigger] rows[k]),
    ensures
        at <= last < rows.len(),
        time_range(cell_in(rows[last], 3)) is Some,
        time_range(cell_in(rows[last], 3)).unwrap().1 == end_after(
            rows,
            from,
            col,
            room,
            time_range(cell_in(rows[to], 3)).unwrap().1,
        ),
        forall|k: int| at < k <= last ==> !is_timed(#[trigger] rows[k]),
    decreases rows.len() - from,
{
    if from >= rows.len() || !goes_on(rows[from], col, room) || is_timed(rows[from]) {
        to
    } else {
        match time_range(cell_in(rows[from], 3)) {
            Some(_) => lemma_end_after(rows, from + 1, col, room, at, from),
            None => lemma_end_after(rows, from + 1, col, room, at, to),
        }
    }
}

proof fn lemma_entry_pair(entry: EntryView, rows: Seq<Seq<Seq<char>>>, at: int, col: int)
    requires
        is_named(entry.groups),
        0 <= at < rows.len(),
        is_timed(rows[at]),
    ensures
        is_one_pair(lesson_at(rows, at, col, entry), rows),
{
    let to = lemma_end_after(rows, at + 1, col, entry.room, at, at);
    assert(is_pair_of(lesson_at(rows, at, col, entry), rows, at, to));
}

proof fn lemma_later_pairs(
    rows: Seq<Seq<Seq<char>>>,
    from: int,
    col: int,
    entry: EntryView,
)
    requires
        0 <= from,
        is_named(entry.groups),
    ensures
        are_pairs(later_lessons(rows, from, col, entry), rows),
    decreases rows.len() - from,
{
    if from < rows.len() && goes_on(rows[from], col, entry.room) {
        lemma_later_pairs(rows, from + 1, col, entry);
        if is_timed(rows[from]) {
            lemma_entry_pair(entry, rows, from, col);
        }
    }
}

proof fn lemma_row_pairs(
    rows: Seq<Seq<Seq<char>>>,
    at: int,
    columns: Seq<ColumnView>,
    count: int,
    day: DayView,
)
    requires
        0 <= at < rows.len(),
        is_timed(rows[at]),
        0 <= count <= columns.len(),
        forall|i: int| 0 <= i < columns.len() ==> is_named((#[trigger] columns[i]).groups),
    ensures
        are_pairs(columns_lessons(rows, at, columns, count, day), rows),
    decreases count,
{
    if count > 0 {
        lemma_row_pairs(rows, at, columns, count - 1, day);
        let column = columns[count - 1];
        let description = cell_in(rows[at], column.col);
        if trimmed(description).len() > 0 {
            let entry = EntryView {
                groups: column.groups,
                date: day.date.unwrap(),
                weekday: day.name,
                description,
                room: row_room(rows[at], column.col),
            };
            lemma_entry_pair(entry, rows, at, column.col);
            lemma_later_pairs(rows, at + 1, column.col, entry);
        }
    }
}

proof fn lemma_rows_pairs(
    rows: Seq<Seq<Seq<char>>>,
    first: int,
    last: int,
    columns: Seq<ColumnView>,
)
    requires
        0 <= first,
        last <= rows.len(),
        forall|i: int| 0 <= i < columns.len() ==> is_named((#[trigger] columns[i]).groups),
    ensures
        are_pairs(rows_lessons(rows, first, last, columns), rows),
    decreases last - first,
{
    if first < last {
        lemma_rows_pairs(rows, first, last - 1, columns);
        let day = day_by(rows, first, last);
        if day.date is Some && is_timed(rows[last - 1]) {
            lemma_row_pairs(rows, last - 1, columns, columns.len() as int, day);
        }
    }
}

proof fn lemma_header_row(rows: Seq<Seq<Seq<char>>>, from: int)
    requires
        0 <= from,
    ensures
        header_row(rows, from) >= from,
    decreases rows.len() - from,
{
    if from < rows.len() && !rows[from].contains("День"@) {
        lemma_header_row(rows, from + 1);
    }
}

/// Consecutive pairs are kept apart: every lesson of a sheet has the number and the start of one
/// row, reaches into no other row with a time and a number, and is of groups that have names.
pub proof fn every_lesson_is_one_pair(rows: Seq<Seq<Seq<char>>>)
    ensures
        are_pairs(sheet_lessons(rows), rows),
{
    let header = header_row(rows, 0);
    lemma_header_row(rows, 0);
    if is_timetable(rows) {
        let found = columns(rows[header]);
        assert forall|i: int| 0 <= i < found.len() implies is_named(
            (#[trigger] found[i]).groups,
        ) by {
            lemma_columns_named(rows[header], 4, i);
        }
        lemma_rows_pairs(rows, header + 2, rows.len() as int, found);
    }
}

proof fn lemma_workbook_pairs(sheets: Seq<Seq<Seq<CellView>>>, count: int)
    requires
        0 <= count <= sheets.len(),
    ensures
        forall|i: int|
            0 <= i < workbook_lessons(sheets, count).len() ==> is_numbered_for_groups(
                #[trigger] workbook_lessons(sheets, count)[i],
            ),
    decreases count,
{
    if count > 0 {
        lemma_workbook_pairs(sheets, count - 1);
        let before = workbook_lessons(sheets, count - 1);
        let rows = sheet_texts(sheets[count - 1]);
        every_lesson_is_one_pair(rows);
        assert forall|i: int| 0 <= i < workbook_lessons(sheets, count).len() implies
            is_numbered_for_groups(#[trigger] workbook_lessons(sheets, count)[i]) by {
            if i >= before.len() {
                assert(is_one_pair(sheet_lessons(rows)[i - before.len()], rows));
            } else {
                assert(workbook_lessons(sheets, count)[i] == before[i]);
            }
        }
    }
}

/// What is read from a workbook lacks neither groups nor numbers: it can fail to be published only
/// for a lesson without a subject, or for its dates.
pub proof fn read_lessons_have_groups_and_numbers(
    sheets: Seq<Seq<Seq<CellView>>>,
    lesson: LessonView,
)
    requires
        in_listing_order(workbook_lessons(sheets, sheets.len() as int)).contains(lesson),
    ensures
        is_numbered_for_groups(lesson),
        trimmed(lesson.subject).len() > 0 ==> is_complete(lesson),
{
    let all = workbook_lessons(sheets, sheets.len() as int);
    let listed = in_listing_order(all);
    lemma_workbook_pairs(sheets, sheets.len() as int);
    listing_sorts(all);
    assert(listed.to_multiset().count(lesson) > 0) by {
        listed.to_multiset_ensures();
    }
    all.to_multiset_ensures();
    assert(all.contains(lesson));
    let i = choose|i: int| 0 <= i < all.len() && all[i] == lesson;
    assert(is_numbered_for_groups(all[i]));
}

} // verus!
