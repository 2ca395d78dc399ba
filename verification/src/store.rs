//! What is kept of users, uploads and messages, and how it is written down.

use crate::date::{dotted, dotted_short, Date, DateView};
use crate::domain::{dates_view, DiffView, ScheduleDiff, UpdateKind};
use crate::parser::{display_room_name, room_name};
use crate::text::{
    concat3, decimal, decimal_text, join, joined, push_text, same_text, slice_text, text_of, texts,
    to_chars,
};
use vstd::prelude::*;

verus! {

/// What is kept of a user.
#[derive(Debug, Clone)]
pub struct User {
    pub telegram_id: i64,
    pub chat_id: i64,
    pub role: String,
    pub group_code: Option<String>,
    pub pending_group: Option<String>,
    pub flow_state: String,
    pub search_kind: Option<String>,
    pub daily_notifications_enabled: bool,
}

/// The contents of a `User`.
pub struct UserView {
    pub telegram_id: i64,
    pub chat_id: i64,
    pub role: Seq<char>,
    pub group_code: Option<Seq<char>>,
    pub pending_group: Option<Seq<char>>,
    pub flow_state: Seq<char>,
    pub search_kind: Option<Seq<char>>,
    pub daily_notifications_enabled: bool,
}

impl View for User {
    type V = UserView;

    open spec fn view(&self) -> UserView {
        UserView {
            telegram_id: self.telegram_id,
            chat_id: self.chat_id,
            role: self.role@,
            group_code: text_of(self.group_code),
            pending_group: text_of(self.pending_group),
            flow_state: self.flow_state@,
            search_kind: text_of(self.search_kind),
            daily_notifications_enabled: self.daily_notifications_enabled,
        }
    }
}

/// What an administrator is shown before a timetable is published.
#[derive(Debug)]
pub struct UploadPreview {
    pub id: u128,
    pub week_start: Date,
    pub week_end: Date,
    pub kind: UpdateKind,
    pub diff: ScheduleDiff,
}

/// What was published.
#[derive(Debug)]
pub struct Publication {
    pub week_start: Date,
    pub week_end: Date,
    pub kind: UpdateKind,
    pub diff: ScheduleDiff,
}

/// The contents of a `Publication`.
pub struct PublicationView {
    pub week_start: DateView,
    pub week_end: DateView,
    pub kind: UpdateKind,
    pub diff: DiffView,
}

impl View for Publication {
    type V = PublicationView;

    open spec fn view(&self) -> PublicationView {
        PublicationView {
            week_start: self.week_start@,
            week_end: self.week_end@,
            kind: self.kind,
            diff: self.diff@,
        }
    }
}

/// The contents of an `UploadPreview`.
pub struct PreviewView {
    pub id: u128,
    pub update: PublicationView,
}

impl View for UploadPreview {
    type V = PreviewView;

    open spec fn view(&self) -> PreviewView {
        PreviewView {
            id: self.id,
            update: PublicationView {
                week_start: self.week_start@,
                week_end: self.week_end@,
                kind: self.kind,
                diff: self.diff@,
            },
        }
    }
}

/// A message that waits to be sent.
#[derive(Debug, Clone)]
pub struct QueuedMessage {
    pub id: i64,
    pub chat_id: i64,
    pub body: String,
}

/// The kind that is stored under a name.
pub open spec fn kind_named(value: Seq<char>) -> Option<UpdateKind> {
    if value == "new_week"@ {
        Some(UpdateKind::NewWeek)
    } else if value == "correction"@ {
        Some(UpdateKind::Correction)
    } else {
        None
    }
}

/// The kind that is stored under a name.
pub fn parse_update_kind(value: &str) -> (r: Option<UpdateKind>)
    ensures
        r == kind_named(value@),
{
    if same_text(value, "new_week") {
        Some(UpdateKind::NewWeek)
    } else if same_text(value, "correction") {
        Some(UpdateKind::Correction)
    } else {
        None
    }
}

/// A stored kind is read back as it was.
pub proof fn kind_round_trips(kind: UpdateKind)
    ensures
        kind_named(kind.name()) == Some(kind),
{
    reveal_strlit("new_week");
    reveal_strlit("correction");
    assert("new_week"@.len() == 8 && "correction"@.len() == 10);
}

/// The number of a lesson as it is stored.
pub fn stored_number(number: u8) -> (r: i16)
    ensures
        r == number,
{
    number as i16
}

/// The lesson number that a stored number stands for: its lowest eight bits.
pub open spec fn read_number(stored: i16) -> int {
    (stored as int) % 256
}

/// The lesson number that a stored number stands for: its lowest eight bits.
pub fn lesson_number(stored: i16) -> (r: u8)
    ensures
        r == read_number(stored),
{
    let positive: i32 = stored as i32 + 32_768;
    assert((stored + 32_768) % 256 == (stored as int) % 256);
    (positive % 256) as u8
}

/// A stored lesson number is read back as it was.
pub proof fn lesson_number_round_trips(number: u8)
    ensures
        read_number(number as i16) == number,
{
}

/// The column that a search of a kind looks at.
pub open spec fn column_of(kind: Seq<char>) -> Seq<char> {
    if kind == "teacher"@ {
        "teacher"@
    } else {
        "room"@
    }
}

/// The column that a search of a kind looks at.
pub fn search_column(kind: &str) -> (r: &'static str)
    ensures
        r@ == column_of(kind@),
{
    if same_text(kind, "teacher") {
        "teacher"
    } else {
        "room"
    }
}

/// The pattern that a search of a kind looks for: the words of the query anywhere in the column,
/// where a room goes by its shown name.
pub open spec fn pattern_of(kind: Seq<char>, query: Seq<char>) -> Seq<char> {
    "%"@ + (if kind == "room"@ {
        room_name(query)
    } else {
        query
    }) + "%"@
}

/// The pattern that a search of a kind looks for.
pub fn search_pattern(kind: &str, query: &str) -> (r: String)
    ensures
        r@ == pattern_of(kind@, query@),
{
    if same_text(kind, "room") {
        let room = display_room_name(query);
        concat3("%", room.as_str(), "%")
    } else {
        concat3("%", query, "%")
    }
}

/// How many characters of an error are kept.
pub const ERROR_LIMIT: usize = 500;

/// What is kept of an error.
pub open spec fn clipped(error: Seq<char>) -> Seq<char> {
    if error.len() <= ERROR_LIMIT {
        error
    } else {
        error.take(ERROR_LIMIT as int)
    }
}

/// What is kept of an error.
pub fn clip_error(error: &str) -> (r: String)
    ensures
        r@ == clipped(error@),
{
    let chars = to_chars(error);
    let end: usize = if chars.len() <= ERROR_LIMIT {
        chars.len()
    } else {
        ERROR_LIMIT
    };
    let r = slice_text(&chars, 0, end);
    assert(r@ =~= clipped(error@));
    r
}

/// Days and months, one after the other.
pub open spec fn short_dates(dates: Seq<DateView>) -> Seq<char> {
    joined(dates.map_values(|date: DateView| dotted_short(date)), ", "@)
}

/// Days and months, one after the other.
pub fn list_dates(dates: &Vec<Date>) -> (r: String)
    ensures
        r@ == short_dates(dates_view(dates@)),
{
    let ghost all = dates_view(dates@).map_values(|date: DateView| dotted_short(date));
    let mut list: Vec<String> = Vec::new();
    let mut i: usize = 0;
    assert(texts(list@) =~= all.take(0));
    while i < dates.len()
        invariant
            i <= dates@.len(),
            all == dates_view(dates@).map_values(|date: DateView| dotted_short(date)),
            texts(list@) == all.take(i as int),
        decreases dates@.len() - i,
    {
        push_text(&mut list, dates[i].dotted_short());
        assert(texts(list@) =~= all.take(i + 1));
        i += 1;
    }
    assert(texts(list@) =~= all);
    join(&list, ", ")
}

/// Two dates of a week, the first without its year.
pub open spec fn week_text(start: DateView, end: DateView) -> Seq<char> {
    dotted_short(start) + "–"@ + dotted(end)
}

/// Two dates of a week, the first without its year.
pub fn format_week(start: Date, end: Date) -> (r: String)
    ensures
        r@ == week_text(start@, end@),
{
    let from = start.dotted_short();
    let to = end.dotted();
    concat3(from.as_str(), "–", to.as_str())
}

/// What those who are concerned by a publication are told.
pub open spec fn notice(update: PublicationView) -> Seq<char> {
    let week = week_text(update.week_start, update.week_end);
    match update.kind {
        UpdateKind::NewWeek => "🆕 Опубликовано расписание на новую неделю: "@ + week
            + ". Нажмите «На неделю», чтобы посмотреть пары."@,
        UpdateKind::Correction => "🔄 Обновлено расписание на неделю "@ + week
            + ". Изменены дни: "@ + short_dates(update.diff.changed_dates) + ". Добавлено пар: "@
            + decimal(update.diff.added as nat) + ", удалено пар: "@ + decimal(
            update.diff.removed as nat,
        ) + "."@,
    }
}

/// What those who are concerned by a publication are told.
pub fn notification_text(
    kind: UpdateKind,
    week_start: Date,
    week_end: Date,
    diff: &ScheduleDiff,
) -> (r: String)
    ensures
        r@ == notice(
            PublicationView { week_start: week_start@, week_end: week_end@, kind, diff: diff@ },
        ),
{
    let week = format_week(week_start, week_end);
    match kind {
        UpdateKind::NewWeek => {
            concat3(
                "🆕 Опубликовано расписание на новую неделю: ",
                week.as_str(),
                ". Нажмите «На неделю», чтобы посмотреть пары.",
            )
        },
        UpdateKind::Correction => {
            let mut r = concat3(
                "🔄 Обновлено расписание на неделю ",
                week.as_str(),
                ". Изменены дни: ",
            );
            let dates = list_dates(&diff.changed_dates);
            r.append(dates.as_str());
            r.append(". Добавлено пар: ");
            let added = decimal_text(diff.added as u64);
            r.append(added.as_str());
            r.append(", удалено пар: ");
            let removed = decimal_text(diff.removed as u64);
            r.append(removed.as_str());
            r.append(".");
            r
        },
    }
}

/// What the administrator is told once a publication is done.
pub open spec fn publication_notice(update: PublicationView) -> Seq<char> {
    let week = week_text(update.week_start, update.week_end);
    match update.kind {
        UpdateKind::NewWeek => "✅ Новая неделя опубликована: "@ + week
            + ". Уведомления студентам поставлены в очередь."@,
        UpdateKind::Correction => "✅ Расписание актуализировано на "@ + week
            + ". Изменены дни: "@ + short_dates(update.diff.changed_dates)
            + ". Уведомления поставлены в очередь."@,
    }
}

/// What the administrator is told once a publication is done.
pub fn publication_message(publication: &Publication) -> (r: String)
    ensures
        r@ == publication_notice(publication@),
{
    let week = format_week(publication.week_start, publication.week_end);
    match publication.kind {
        UpdateKind::NewWeek => {
            concat3(
                "✅ Новая неделя опубликована: ",
                week.as_str(),
                ". Уведомления студентам поставлены в очередь.",
            )
        },
        UpdateKind::Correction => {
            let mut r = concat3(
                "✅ Расписание актуализировано на ",
                week.as_str(),
                ". Изменены дни: ",
            );
            let dates = list_dates(&publication.diff.changed_dates);
            r.append(dates.as_str());
            r.append(". Уведомления поставлены в очередь.");
            r
        },
    }
}

/// A list in words, or a dash where it is empty.
pub open spec fn or_dash(text: Seq<char>) -> Seq<char> {
    if text.len() == 0 {
        "—"@
    } else {
        text
    }
}

/// What an administrator is asked before a timetable is published.
pub open spec fn preview_question(update: PublicationView) -> Seq<char> {
    (match update.kind {
        UpdateKind::NewWeek => "🆕 Новая неделя"@,
        UpdateKind::Correction => "🔄 Актуализация существующей недели"@,
    }) + "\nПериод: "@ + dotted(update.week_start) + "–"@ + dotted(update.week_end)
        + "\nЗатронутые группы: "@ + (if update.diff.changed_groups.len() == 0 {
        "—"@
    } else {
        joined(update.diff.changed_groups, ", "@)
    }) + "\nИзменённые дни: "@ + or_dash(short_dates(update.diff.changed_dates))
        + "\nДобавлено пар: "@ + decimal(update.diff.added as nat) + ", удалено пар: "@ + decimal(
        update.diff.removed as nat,
    ) + "\n\nОпубликовать это расписание?"@
}

/// What an administrator is asked before a timetable is published.
pub fn preview_message(preview: &UploadPreview) -> (r: String)
    ensures
        r@ == preview_question(preview@.update),
{
    let mut r = match preview.kind {
        UpdateKind::NewWeek => "🆕 Новая неделя".to_owned(),
        UpdateKind::Correction => "🔄 Актуализация существующей недели".to_owned(),
    };
    r.append("\nПериод: ");
    let start = preview.week_start.dotted();
    r.append(start.as_str());
    r.append("–");
    let end = preview.week_end.dotted();
    r.append(end.as_str());
    r.append("\nЗатронутые группы: ");
    if preview.diff.changed_groups.len() == 0 {
        r.append("—");
    } else {
        let groups = join(&preview.diff.changed_groups, ", ");
        r.append(groups.as_str());
    }
    r.append("\nИзменённые дни: ");
    let dates = list_dates(&preview.diff.changed_dates);
    let chars = to_chars(dates.as_str());
    if chars.len() == 0 {
        r.append("—");
    } else {
        r.append(dates.as_str());
    }
    r.append("\nДобавлено пар: ");
    let added = decimal_text(preview.diff.added as u64);
    r.append(added.as_str());
    r.append(", удалено пар: ");
    let removed = decimal_text(preview.diff.removed as u64);
    r.append(removed.as_str());
    r.append("\n\nОпубликовать это расписание?");
    r
}

} // verus!
