//! What a timetable must be to be published, and what a new version of it changes.

use crate::date::{
    date_numbered, dates_are_ordered_by_day_number, day_number_names_one_date, first_day_number,
    last_day_number, lemma_before_transitive, lemma_day_number_range, Date, DateView,
};
use crate::lesson::{lessons_view, Lesson, LessonView};
use crate::text::{
    insert_sorted, is_blank, lemma_text_order_total, same_text, strictly_sorted, text_lt, texts,
    trimmed,
};
use vstd::prelude::*;

verus! {

/// Whether an upload brings a week that was not there or changes one that was.
#[derive(Debug, Clone, Copy, PartialEq, Eq, Structural)]
pub enum UpdateKind {
    NewWeek,
    Correction,
}

impl UpdateKind {
    /// The name that the kind is stored under.
    pub open spec fn name(self) -> Seq<char> {
        match self {
            UpdateKind::NewWeek => "new_week"@,
            UpdateKind::Correction => "correction"@,
        }
    }

    /// The name that the kind is stored under.
    pub fn as_str(self) -> (r: &'static str)
        ensures
            r@ == self.name(),
    {
        match self {
            UpdateKind::NewWeek => "new_week",
            UpdateKind::Correction => "correction",
        }
    }
}

/// What a new version of a timetable changes.
#[derive(Debug, Clone, PartialEq, Eq)]
pub struct ScheduleDiff {
    pub changed_groups: Vec<String>,
    pub changed_dates: Vec<Date>,
    pub added: usize,
    pub removed: usize,
}

/// The contents of a `ScheduleDiff`.
pub struct DiffView {
    pub changed_groups: Seq<Seq<char>>,
    pub changed_dates: Seq<DateView>,
    pub added: int,
    pub removed: int,
}

/// The contents of a list of dates.
pub open spec fn dates_view(dates: Seq<Date>) -> Seq<DateView> {
    dates.map_values(|date: Date| date@)
}

impl View for ScheduleDiff {
    type V = DiffView;

    open spec fn view(&self) -> DiffView {
        DiffView {
            changed_groups: texts(self.changed_groups@),
            changed_dates: dates_view(self.changed_dates@),
            added: self.added as int,
            removed: self.removed as int,
        }
    }
}

/// Why a timetable cannot be published.
#[derive(Debug, Clone, Copy, PartialEq, Eq, Structural)]
pub enum ScheduleError {
    /// There is no lesson.
    Empty,
    /// A lesson has no group, a blank group, no subject or no number.
    Incomplete,
    /// The week would begin before the first date.
    WeekStart,
    /// The week would end after the last date.
    WeekEnd,
    /// The lessons lie in more than one calendar week.
    SeveralWeeks,
}

impl ScheduleError {
    /// The message that the error is shown with.
    pub open spec fn text(self) -> Seq<char> {
        match self {
            ScheduleError::Empty => "в файле не найдено ни одной пары"@,
            ScheduleError::Incomplete => "в расписании есть пара без группы, дисциплины или номера"@,
            ScheduleError::WeekStart => "не удалось вычислить начало недели"@,
            ScheduleError::WeekEnd => "не удалось вычислить конец недели"@,
            ScheduleError::SeveralWeeks => "таблица содержит пары из нескольких календарных недель"@,
        }
    }

    /// The message that the error is shown with.
    pub fn message(self) -> (r: &'static str)
        ensures
            r@ == self.text(),
    {
        match self {
            ScheduleError::Empty => "в файле не найдено ни одной пары",
            ScheduleError::Incomplete => "в расписании есть пара без группы, дисциплины или номера",
            ScheduleError::WeekStart => "не удалось вычислить начало недели",
            ScheduleError::WeekEnd => "не удалось вычислить конец недели",
            ScheduleError::SeveralWeeks => "таблица содержит пары из нескольких календарных недель",
        }
    }
}

/// Whether a lesson has groups, none of them blank, a subject and a number.
pub open spec fn is_complete(lesson: LessonView) -> bool {
    &&& lesson.groups.len() > 0
    &&& forall|i: int| 0 <= i < lesson.groups.len() ==> trimmed(#[trigger] lesson.groups[i]).len() > 0
    &&& trimmed(lesson.subject).len() > 0
    &&& lesson.lesson_number != 0
}

/// The earliest date of a list of lessons that is not empty.
pub open spec fn first_date(lessons: Seq<LessonView>) -> DateView
    decreases lessons.len(),
{
    if lessons.len() <= 1 {
        lessons[0].date
    } else {
        let before = first_date(lessons.drop_last());
        if lessons.last().date.before(before) {
            lessons.last().date
        } else {
            before
        }
    }
}

/// The latest date of a list of lessons that is not empty.
pub open spec fn last_date(lessons: Seq<LessonView>) -> DateView
    decreases lessons.len(),
{
    if lessons.len() <= 1 {
        lessons[0].date
    } else {
        let before = last_date(lessons.drop_last());
        if before.before(lessons.last().date) {
            lessons.last().date
        } else {
            before
        }
    }
}

/// The number of the Monday of the week that a timetable fills, or why there is none.
pub open spec fn week_monday(lessons: Seq<LessonView>) -> Result<int, ScheduleError> {
    let monday = first_date(lessons).day_number() - first_date(lessons).weekday();
    if lessons.len() == 0 {
        Err(ScheduleError::Empty)
    } else if exists|i: int| 0 <= i < lessons.len() && !is_complete(#[trigger] lessons[i]) {
        Err(ScheduleError::Incomplete)
    } else if monday < first_day_number() {
        Err(ScheduleError::WeekStart)
    } else if last_day_number() < monday + 6 {
        Err(ScheduleError::WeekEnd)
    } else if monday + 6 < last_date(lessons).day_number() {
        Err(ScheduleError::SeveralWeeks)
    } else {
        Ok(monday)
    }
}

/// The Monday and the Sunday of the week that a timetable fills, or why there are none.
pub open spec fn week_of(lessons: Seq<LessonView>) -> Result<(DateView, DateView), ScheduleError> {
    match week_monday(lessons) {
        Ok(monday) => Ok((date_numbered(monday), date_numbered(monday + 6))),
        Err(error) => Err(error),
    }
}

/// The contents of a week.
pub open spec fn week_view(week: Result<(Date, Date), ScheduleError>) -> Result<
    (DateView, DateView),
    ScheduleError,
> {
    match week {
        Ok((start, end)) => Ok((start@, end@)),
        Err(error) => Err(error),
    }
}

fn lesson_is_complete(lesson: &Lesson) -> (r: bool)
    ensures
        r == is_complete(lesson@),
{
    if lesson.groups.len() == 0 || lesson.lesson_number == 0 || is_blank(lesson.subject.as_str()) {
        return false;
    }
    let mut i: usize = 0;
    while i < lesson.groups.len()
        invariant
            i <= lesson.groups@.len(),
            forall|j: int| 0 <= j < i ==> trimmed(#[trigger] lesson@.groups[j]).len() > 0,
        decreases lesson.groups@.len() - i,
    {
        if is_blank(lesson.groups[i].as_str()) {
            assert(trimmed(lesson@.groups[i as int]).len() == 0);
            return false;
        }
        i += 1;
    }
    true
}

/// The Monday and the Sunday of the calendar week that the lessons lie in.
pub fn validate_schedule(lessons: &[Lesson]) -> (r: Result<(Date, Date), ScheduleError>)
    ensures
        match r {
            Ok((start, end)) => {
                &&& week_monday(lessons_view(lessons@)) == Ok::<int, ScheduleError>(
                    start@.day_number(),
                )
                &&& start@.valid() && end@.valid()
                &&& end@.day_number() == start@.day_number() + 6
                &&& start@.weekday() == 0
                &&& end@.weekday() == 6
                &&& forall|i: int|
                    0 <= i < lessons@.len() ==> start@.day_number() <= (
                    #[trigger] lessons@[i]).date@.day_number() <= end@.day_number()
            },
            Err(error) => week_monday(lessons_view(lessons@)) == Err::<int, ScheduleError>(error),
        },
        week_view(r) == week_of(lessons_view(lessons@)),
{
    let ghost all = lessons_view(lessons@);
    if lessons.len() == 0 {
        return Err(ScheduleError::Empty);
    }
    let mut i: usize = 0;
    while i < lessons.len()
        invariant
            i <= lessons@.len(),
            all == lessons_view(lessons@),
            lessons@.len() > 0,
            forall|j: int| 0 <= j < i ==> is_complete(#[trigger] all[j]),
        decreases lessons@.len() - i,
    {
        if !lesson_is_complete(&lessons[i]) {
            assert(!is_complete(all[i as int]));
            return Err(ScheduleError::Incomplete);
        }
        i += 1;
    }
    let mut first: Date = lessons[0].date;
    let mut last: Date = lessons[0].date;
    first.check();
    let mut i: usize = 1;
    assert(all.take(1)[0] == all[0]);
    while i < lessons.len()
        invariant
            1 <= i <= lessons@.len(),
            all == lessons_view(lessons@),
            first@.valid(),
            last@.valid(),
            first@ == first_date(all.take(i as int)),
            last@ == last_date(all.take(i as int)),
            forall|j: int|
                0 <= j < i ==> first@.day_number() <= (#[trigger] lessons@[j]).date@.day_number()
                    <= last@.day_number(),
        decreases lessons@.len() - i,
    {
        let date = lessons[i].date;
        date.check();
        proof {
            assert(all.take(i + 1).drop_last() =~= all.take(i as int));
            assert(all.take(i + 1).last() == all[i as int]);
            dates_are_ordered_by_day_number(date@, first@);
            dates_are_ordered_by_day_number(last@, date@);
        }
        if date.is_before(&first) {
            first = date;
        }
        if last.is_before(&date) {
            last = date;
        }
        i += 1;
    }
    assert(all.take(i as int) =~= all);
    let offset: u32 = first.weekday();
    let start = match first.checked_add_days(-(offset as i64)) {
        Some(start) => start,
        None => {
            proof {
                lemma_day_number_range(first@);
            }
            return Err(ScheduleError::WeekStart);
        },
    };
    proof {
        lemma_day_number_range(start@);
    }
    let end = match start.checked_add_days(6) {
        Some(end) => end,
        None => return Err(ScheduleError::WeekEnd),
    };
    proof {
        lemma_day_number_range(end@);
        dates_are_ordered_by_day_number(end@, last@);
        day_number_names_one_date(start@);
        day_number_names_one_date(end@);
    }
    if end.is_before(&last) {
        return Err(ScheduleError::SeveralWeeks);
    }
    Ok((start, end))
}

/// Whether the dates of a list stand in strictly increasing order.
pub open spec fn dates_sorted(list: Seq<DateView>) -> bool {
    forall|i: int, j: int| 0 <= i < j < list.len() ==> (#[trigger] list[i]).before(#[trigger] list[j])
}

/// Puts `item` where it belongs in a sorted list that holds nothing twice.
pub fn insert_date(list: &mut Vec<Date>, item: Date)
    requires
        dates_sorted(dates_view(old(list)@)),
    ensures
        dates_sorted(dates_view(final(list)@)),
        forall|d: DateView| #[trigger]
            dates_view(final(list)@).contains(d) <==> (dates_view(old(list)@).contains(d) || d
                == item@),
{
    let ghost before = dates_view(list@);
    let mut i: usize = 0;
    while i < list.len() && list[i].is_before(&item)
        invariant
            i <= list@.len(),
            before == dates_view(list@),
            forall|j: int| 0 <= j < i ==> (#[trigger] before[j]).before(item@),
        decreases list@.len() - i,
    {
        assert(before[i as int] == list@[i as int]@);
        i += 1;
    }
    if i < list.len() && list[i].same(&item) {
        assert(before[i as int] == item@);
        return;
    }
    list.insert(i, item);
    proof {
        let after = dates_view(list@);
        assert(after =~= before.insert(i as int, item@));
        assert forall|p: int, q: int| 0 <= p < q < after.len() implies (
        #[trigger] after[p]).before(#[trigger] after[q]) by {
            if p < i && q > i {
                assert(after[p] == before[p]);
                assert(after[q] == before[q - 1]);
            } else if p == i {
                assert(after[q] == before[q - 1]);
                if q - 1 > i {
                    lemma_before_transitive(item@, before[i as int], before[q - 1]);
                }
            } else if q == i {
                assert(after[p] == before[p]);
            } else if p > i {
                assert(after[p] == before[p - 1]);
                assert(after[q] == before[q - 1]);
            } else {
                assert(after[p] == before[p]);
                assert(after[q] == before[q]);
            }
        }
        assert forall|d: DateView| #[trigger] after.contains(d) <==> (before.contains(d) || d
            == item@) by {
            if before.contains(d) {
                let k = choose|k: int| 0 <= k < before.len() && before[k] == d;
                assert(after[if k < i { k } else { k + 1 }] == d);
            }
            assert(after[i as int] == item@);
            if after.contains(d) {
                let k = choose|k: int| 0 <= k < after.len() && after[k] == d;
                if k < i {
                    assert(before[k] == d);
                } else if k > i {
                    assert(before[k - 1] == d);
                }
            }
        }
    }
}

/// Whether `lesson` stands in `from` and, field for field, nowhere in `other`.
pub open spec fn is_only_in(
    lesson: LessonView,
    from: Seq<LessonView>,
    other: Seq<LessonView>,
) -> bool {
    from.contains(lesson) && !other.contains(lesson)
}

/// The lessons that stand only in `from`, each paired with every one of its groups.
pub open spec fn group_lessons_only_in(from: Seq<LessonView>, other: Seq<LessonView>) -> Set<
    (Seq<char>, LessonView),
> {
    Set::new(
        |pair: (Seq<char>, LessonView)|
            is_only_in(pair.1, from, other) && pair.1.groups.contains(pair.0),
    )
}

/// Whether a group has a lesson that stands only in `from`.
pub open spec fn group_differs(
    group: Seq<char>,
    from: Seq<LessonView>,
    other: Seq<LessonView>,
) -> bool {
    exists|lesson: LessonView| #[trigger]
        is_only_in(lesson, from, other) && lesson.groups.contains(group)
}

/// Whether some group has, on a day, a lesson that stands only in `from`.
pub open spec fn date_differs(
    date: DateView,
    from: Seq<LessonView>,
    other: Seq<LessonView>,
) -> bool {
    exists|lesson: LessonView| #[trigger]
        is_only_in(lesson, from, other) && lesson.groups.len() > 0 && lesson.date == date
}

/// A count as a `usize` holds it.
pub open spec fn counted(n: nat) -> int {
    if n <= usize::MAX {
        n as int
    } else {
        usize::MAX as int
    }
}

/// `diff` is what changes from `previous` to `new`: the groups and the days with a lesson that only
/// one of the two has, in increasing order, and the number of such lessons of `new` and of
/// `previous`, each counted once for every group that has it.
pub open spec fn is_diff(diff: DiffView, previous: Seq<LessonView>, new: Seq<LessonView>) -> bool {
    &&& strictly_sorted(diff.changed_groups)
    &&& forall|group: Seq<char>| #[trigger]
        diff.changed_groups.contains(group) <==> (group_differs(group, previous, new) || group_differs(
            group,
            new,
            previous,
        ))
    &&& dates_sorted(diff.changed_dates)
    &&& forall|date: DateView| #[trigger]
        diff.changed_dates.contains(date) <==> (date_differs(date, previous, new) || date_differs(
            date,
            new,
            previous,
        ))
    &&& diff.added == counted(group_lessons_only_in(new, previous).len())
    &&& diff.removed == counted(group_lessons_only_in(previous, new).len())
}

/// Whether `lesson` stands, field for field, among the first `count` of `list`.
fn stands_in(lesson: &Lesson, list: &[Lesson], count: usize) -> (r: bool)
    requires
        count <= list@.len(),
    ensures
        r == lessons_view(list@).take(count as int).contains(lesson@),
{
    let ghost all = lessons_view(list@);
    let mut i: usize = 0;
    while i < count
        invariant
            i <= count <= list@.len(),
            all == lessons_view(list@),
            forall|j: int| 0 <= j < i ==> all[j] != lesson@,
        decreases count - i,
    {
        if list[i].same(lesson) {
            assert(all.take(count as int)[i as int] == lesson@);
            return true;
        }
        i += 1;
    }
    assert forall|j: int| 0 <= j < count implies all.take(count as int)[j] != lesson@ by {
        assert(all[j] != lesson@);
    }
    false
}

fn stands_among(name: &str, list: &Vec<String>, count: usize) -> (r: bool)
    requires
        count <= list@.len(),
    ensures
        r == texts(list@).take(count as int).contains(name@),
{
    let ghost all = texts(list@);
    let mut i: usize = 0;
    while i < count
        invariant
            i <= count <= list@.len(),
            all == texts(list@),
            forall|j: int| 0 <= j < i ==> all[j] != name@,
        decreases count - i,
    {
        if same_text(list[i].as_str(), name) {
            assert(all.take(count as int)[i as int] == name@);
            return true;
        }
        i += 1;
    }
    assert forall|j: int| 0 <= j < count implies all.take(count as int)[j] != name@ by {
        assert(all[j] != name@);
    }
    false
}

/// Records the groups and the days of the lessons that stand only in `from`, and counts those
/// lessons once for every group that has them.
fn record_only_in(
    from: &[Lesson],
    other: &[Lesson],
    groups: &mut Vec<String>,
    dates: &mut Vec<Date>,
) -> (r: usize)
    requires
        strictly_sorted(texts(old(groups)@)),
        dates_sorted(dates_view(old(dates)@)),
    ensures
        strictly_sorted(texts(final(groups)@)),
        dates_sorted(dates_view(final(dates)@)),
        forall|group: Seq<char>| #[trigger]
            texts(final(groups)@).contains(group) <==> (texts(old(groups)@).contains(group)
                || group_differs(group, lessons_view(from@), lessons_view(other@))),
        forall|date: DateView| #[trigger]
            dates_view(final(dates)@).contains(date) <==> (dates_view(old(dates)@).contains(date)
                || date_differs(date, lessons_view(from@), lessons_view(other@))),
        r == counted(group_lessons_only_in(lessons_view(from@), lessons_view(other@)).len()),
{
    let ghost all = lessons_view(from@);
    let ghost others = lessons_view(other@);
    let ghost groups_before = texts(groups@);
    let ghost dates_before = dates_view(dates@);
    let ghost mut pairs: Set<(Seq<char>, LessonView)> = Set::empty();
    let mut count: usize = 0;
    let mut i: usize = 0;
    while i < from.len()
        invariant
            i <= from@.len(),
            all == lessons_view(from@),
            others == lessons_view(other@),
            strictly_sorted(texts(groups@)),
            dates_sorted(dates_view(dates@)),
            pairs.finite(),
            count == counted(pairs.len()),
            forall|p: (Seq<char>, LessonView)| #[trigger]
                pairs.contains(p) <==> (all.take(i as int).contains(p.1) && !others.contains(p.1)
                    && p.1.groups.contains(p.0)),
            forall|group: Seq<char>| #[trigger]
                texts(groups@).contains(group) <==> (groups_before.contains(group)
                    || group_differs(group, all.take(i as int), others)),
            forall|date: DateView| #[trigger]
                dates_view(dates@).contains(date) <==> (dates_before.contains(date)
                    || date_differs(date, all.take(i as int), others)),
        decreases from@.len() - i,
    {
        let lesson = &from[i];
        let ghost seen = all.take(i as int);
        let ghost next = all.take(i + 1);
        proof {
            assert(next =~= seen.push(lesson@));
            lemma_one_more(seen, lesson@, others);
        }
        let known = stands_in(lesson, from, i);
        let matched = stands_in(lesson, other, other.len());
        assert(others.take(others.len() as int) =~= others);
        if !known && !matched {
            let ghost pairs_before = pairs;
            let ghost groups_then = texts(groups@);
            let mut g: usize = 0;
            while g < lesson.groups.len()
                invariant
                    g <= lesson.groups@.len(),
                    !seen.contains(lesson@),
                    strictly_sorted(texts(groups@)),
                    pairs.finite(),
                    count == counted(pairs.len()),
                    forall|p: (Seq<char>, LessonView)|
                        #[trigger] pairs_before.contains(p) ==> seen.contains(p.1),
                    forall|p: (Seq<char>, LessonView)| #[trigger]
                        pairs.contains(p) <==> (pairs_before.contains(p) || (p.1 == lesson@
                            && lesson@.groups.take(g as int).contains(p.0))),
                    forall|group: Seq<char>| #[trigger]
                        texts(groups@).contains(group) <==> (groups_then.contains(group)
                            || lesson@.groups.take(g as int).contains(group)),
                decreases lesson.groups@.len() - g,
            {
                let ghost taken = lesson@.groups.take(g as int);
                let ghost name = lesson@.groups[g as int];
                let again = stands_among(lesson.groups[g].as_str(), &lesson.groups, g);
                assert(lesson@.groups.take(g + 1) =~= taken.push(name));
                assert forall|t: Seq<char>| #[trigger]
                    lesson@.groups.take(g + 1).contains(t) <==> (taken.contains(t) || t
                        == name) by {
                    lemma_push_contains(taken, name, t);
                }
                insert_sorted(groups, lesson.groups[g].as_str());
                if !again {
                    proof {
                        assert(!pairs.contains((name, lesson@)));
                        pairs = pairs.insert((name, lesson@));
                    }
                    if count < usize::MAX {
                        count += 1;
                    }
                }
                g += 1;
            }
            assert(lesson@.groups.take(g as int) =~= lesson@.groups);
            if lesson.groups.len() > 0 {
                insert_date(dates, lesson.date);
            }
        }
        proof {
            assert forall|p: (Seq<char>, LessonView)| #[trigger]
                pairs.contains(p) <==> (next.contains(p.1) && !others.contains(p.1)
                    && p.1.groups.contains(p.0)) by {
                lemma_push_contains(seen, lesson@, p.1);
            }
        }
        i += 1;
    }
    proof {
        assert(all.take(i as int) =~= all);
        assert(pairs =~= group_lessons_only_in(all, others));
    }
    count
}

proof fn lemma_push_contains<T>(list: Seq<T>, item: T, other: T)
    ensures
        list.push(item).contains(other) <==> (list.contains(other) || other == item),
{
    let longer = list.push(item);
    if list.contains(other) {
        let k = choose|k: int| 0 <= k < list.len() && list[k] == other;
        assert(longer[k] == other);
    }
    assert(longer[list.len() as int] == item);
    if longer.contains(other) {
        let k = choose|k: int| 0 <= k < longer.len() && longer[k] == other;
        if k < list.len() {
            assert(list[k] == other);
        }
    }
}

/// What one more lesson adds to the groups and the days that differ.
proof fn lemma_one_more(seen: Seq<LessonView>, lesson: LessonView, others: Seq<LessonView>)
    ensures
        forall|group: Seq<char>| #[trigger]
            group_differs(group, seen.push(lesson), others) <==> (group_differs(
                group,
                seen,
                others,
            ) || (!others.contains(lesson) && lesson.groups.contains(group))),
        forall|date: DateView| #[trigger]
            date_differs(date, seen.push(lesson), others) <==> (date_differs(date, seen, others)
                || (!others.contains(lesson) && lesson.groups.len() > 0 && lesson.date == date)),
        seen.contains(lesson) && !others.contains(lesson) ==> {
            &&& forall|group: Seq<char>|
                lesson.groups.contains(group) ==> #[trigger] group_differs(group, seen, others)
            &&& lesson.groups.len() > 0 ==> date_differs(lesson.date, seen, others)
        },
{
    let longer = seen.push(lesson);
    lemma_push_contains(seen, lesson, lesson);
    assert forall|group: Seq<char>| #[trigger]
        group_differs(group, longer, others) <==> (group_differs(group, seen, others) || (
        !others.contains(lesson) && lesson.groups.contains(group))) by {
        if group_differs(group, longer, others) {
            let l = choose|l: LessonView| #[trigger]
                is_only_in(l, longer, others) && l.groups.contains(group);
            lemma_push_contains(seen, lesson, l);
            if seen.contains(l) {
                assert(is_only_in(l, seen, others));
            }
        }
        if group_differs(group, seen, others) {
            let l = choose|l: LessonView| #[trigger]
                is_only_in(l, seen, others) && l.groups.contains(group);
            lemma_push_contains(seen, lesson, l);
            assert(is_only_in(l, longer, others));
        }
        if !others.contains(lesson) && lesson.groups.contains(group) {
            assert(is_only_in(lesson, longer, others));
        }
    }
    assert forall|date: DateView| #[trigger]
        date_differs(date, longer, others) <==> (date_differs(date, seen, others) || (
        !others.contains(lesson) && lesson.groups.len() > 0 && lesson.date == date)) by {
        if date_differs(date, longer, others) {
            let l = choose|l: LessonView| #[trigger]
                is_only_in(l, longer, others) && l.groups.len() > 0 && l.date == date;
            lemma_push_contains(seen, lesson, l);
            if seen.contains(l) {
                assert(is_only_in(l, seen, others));
            }
        }
        if date_differs(date, seen, others) {
            let l = choose|l: LessonView| #[trigger]
                is_only_in(l, seen, others) && l.groups.len() > 0 && l.date == date;
            lemma_push_contains(seen, lesson, l);
            assert(is_only_in(l, longer, others));
        }
        if !others.contains(lesson) && lesson.groups.len() > 0 && lesson.date == date {
            assert(is_only_in(lesson, longer, others));
        }
    }
    if seen.contains(lesson) && !others.contains(lesson) {
        assert(is_only_in(lesson, seen, others));
    }
}

/// What changes from `previous` to `new`.
pub open spec fn diff_of(previous: Seq<LessonView>, new: Seq<LessonView>) -> DiffView {
    choose|diff: DiffView| is_diff(diff, previous, new)
}

/// There is one answer to what changes from `previous` to `new`.
pub proof fn difference_is_unique(
    diff: DiffView,
    previous: Seq<LessonView>,
    new: Seq<LessonView>,
)
    requires
        is_diff(diff, previous, new),
    ensures
        diff == diff_of(previous, new),
{
    let other = diff_of(previous, new);
    assert(is_diff(other, previous, new));
    lemma_sorted_texts_equal(diff.changed_groups, other.changed_groups);
    lemma_sorted_dates_equal(diff.changed_dates, other.changed_dates);
}

/// What changes from `previous` to `new`.
pub fn compare_schedules(previous: &[Lesson], new: &[Lesson]) -> (r: ScheduleDiff)
    ensures
        is_diff(r@, lessons_view(previous@), lessons_view(new@)),
        r@ == diff_of(lessons_view(previous@), lessons_view(new@)),
{
    let mut changed_groups: Vec<String> = Vec::new();
    let mut changed_dates: Vec<Date> = Vec::new();
    let removed = record_only_in(previous, new, &mut changed_groups, &mut changed_dates);
    let added = record_only_in(new, previous, &mut changed_groups, &mut changed_dates);
    let diff = ScheduleDiff { changed_groups, changed_dates, added, removed };
    proof {
        difference_is_unique(diff@, lessons_view(previous@), lessons_view(new@));
    }
    diff
}

/// A timetable differs from itself in nothing, and more: two timetables with the same lessons,
/// in whatever order and however often each is written down, do not differ.
pub proof fn same_lessons_make_no_difference(
    diff: DiffView,
    previous: Seq<LessonView>,
    new: Seq<LessonView>,
)
    requires
        is_diff(diff, previous, new),
        forall|lesson: LessonView| #[trigger] previous.contains(lesson) <==> new.contains(lesson),
    ensures
        diff.changed_groups.len() == 0,
        diff.changed_dates.len() == 0,
        diff.added == 0,
        diff.removed == 0,
{
    if diff.changed_groups.len() > 0 {
        assert(diff.changed_groups.contains(diff.changed_groups[0]));
    }
    if diff.changed_dates.len() > 0 {
        assert(diff.changed_dates.contains(diff.changed_dates[0]));
    }
    assert(group_lessons_only_in(new, previous) =~= Set::empty());
    assert(group_lessons_only_in(previous, new) =~= Set::empty());
}

/// A change that touches no group leaves every lesson that has a group as it was.
pub proof fn no_changed_group_means_no_changed_lesson(
    diff: DiffView,
    previous: Seq<LessonView>,
    new: Seq<LessonView>,
    lesson: LessonView,
)
    requires
        is_diff(diff, previous, new),
        diff.changed_groups.len() == 0,
        lesson.groups.len() > 0,
    ensures
        previous.contains(lesson) <==> new.contains(lesson),
{
    let group = lesson.groups[0];
    assert(lesson.groups.contains(group));
    assert(!diff.changed_groups.contains(group));
    if previous.contains(lesson) != new.contains(lesson) {
        if previous.contains(lesson) {
            assert(is_only_in(lesson, previous, new));
            assert(group_differs(group, previous, new));
        } else {
            assert(is_only_in(lesson, new, previous));
            assert(group_differs(group, new, previous));
        }
    }
}

/// Going back undoes a change: it touches the same groups and days, and what one way adds the
/// other removes.
pub proof fn reverse_change_mirrors(
    forth: DiffView,
    back: DiffView,
    previous: Seq<LessonView>,
    new: Seq<LessonView>,
)
    requires
        is_diff(forth, previous, new),
        is_diff(back, new, previous),
    ensures
        forth.changed_groups == back.changed_groups,
        forth.changed_dates == back.changed_dates,
        forth.added == back.removed,
        forth.removed == back.added,
{
    lemma_sorted_texts_equal(forth.changed_groups, back.changed_groups);
    lemma_sorted_dates_equal(forth.changed_dates, back.changed_dates);
}

pub proof fn lemma_sorted_texts_equal(a: Seq<Seq<char>>, b: Seq<Seq<char>>)
    requires
        strictly_sorted(a),
        strictly_sorted(b),
        forall|t: Seq<char>| #[trigger] a.contains(t) <==> b.contains(t),
    ensures
        a == b,
    decreases a.len(),
{
    if a.len() == 0 {
        if b.len() > 0 {
            assert(b.contains(b[0]));
            assert(a.contains(b[0]));
        }
        assert(a =~= b);
    } else {
        assert(a.contains(a.last()));
        assert(b.contains(a.last()));
        assert(b.contains(b.last()));
        assert(a.contains(b.last()));
        let i = choose|i: int| 0 <= i < a.len() && a[i] == b.last();
        let j = choose|j: int| 0 <= j < b.len() && b[j] == a.last();
        if i < a.len() - 1 && j < b.len() - 1 {
            lemma_text_order_total(a[i], a.last());
        } else if i < a.len() - 1 {
            assert(b[j] == b.last());
            lemma_text_order_total(a[i], a.last());
        }
        assert(a.last() == b.last());
        let x = a.drop_last();
        let y = b.drop_last();
        assert forall|t: Seq<char>| #[trigger] x.contains(t) <==> y.contains(t) by {
            lemma_dropped(a, t);
            lemma_dropped(b, t);
        }
        lemma_sorted_texts_equal(x, y);
        assert(a =~= x.push(a.last()));
        assert(b =~= y.push(b.last()));
    }
}

proof fn lemma_dropped(a: Seq<Seq<char>>, t: Seq<char>)
    requires
        a.len() > 0,
        strictly_sorted(a),
    ensures
        a.drop_last().contains(t) <==> (a.contains(t) && t != a.last()),
{
    let x = a.drop_last();
    lemma_push_contains(x, a.last(), t);
    assert(a =~= x.push(a.last()));
    if x.contains(t) {
        let k = choose|k: int| 0 <= k < x.len() && x[k] == t;
        assert(text_lt(a[k], a.last()));
        lemma_text_order_total(a[k], a.last());
    }
}

proof fn lemma_sorted_dates_equal(a: Seq<DateView>, b: Seq<DateView>)
    requires
        dates_sorted(a),
        dates_sorted(b),
        forall|d: DateView| #[trigger] a.contains(d) <==> b.contains(d),
    ensures
        a == b,
    decreases a.len(),
{
    if a.len() == 0 {
        if b.len() > 0 {
            assert(b.contains(b[0]));
            assert(a.contains(b[0]));
        }
        assert(a =~= b);
    } else {
        assert(a.contains(a.last()));
        assert(b.contains(a.last()));
        assert(b.contains(b.last()));
        assert(a.contains(b.last()));
        let i = choose|i: int| 0 <= i < a.len() && a[i] == b.last();
        let j = choose|j: int| 0 <= j < b.len() && b[j] == a.last();
        assert(i < a.len() - 1 ==> a[i].before(a.last()));
        assert(j < b.len() - 1 ==> b[j].before(b.last()));
        assert(a.last() == b.last());
        let x = a.drop_last();
        let y = b.drop_last();
        assert forall|d: DateView| #[trigger] x.contains(d) <==> y.contains(d) by {
            lemma_push_contains(x, a.last(), d);
            lemma_push_contains(y, b.last(), d);
            assert(a =~= x.push(a.last()));
            assert(b =~= y.push(b.last()));
            if x.contains(d) {
                let k = choose|k: int| 0 <= k < x.len() && x[k] == d;
                assert(a[k].before(a.last()));
            }
            if y.contains(d) {
                let k = choose|k: int| 0 <= k < y.len() && y[k] == d;
                assert(b[k].before(b.last()));
            }
        }
        lemma_sorted_dates_equal(x, y);
        assert(a =~= x.push(a.last()));
        assert(b =~= y.push(b.last()));
    }
}

/// The number of the Monday on or before a date.
pub open spec fn monday_before(date: DateView) -> int {
    date.day_number() - date.weekday()
}

/// The first and the last date of a list are dates of the list, and no date lies outside them.
proof fn lemma_first_and_last(lessons: Seq<LessonView>)
    requires
        lessons.len() > 0,
        forall|i: int| 0 <= i < lessons.len() ==> (#[trigger] lessons[i]).date.valid(),
    ensures
        exists|i: int| 0 <= i < lessons.len() && (#[trigger] lessons[i]).date == first_date(lessons),
        exists|i: int| 0 <= i < lessons.len() && (#[trigger] lessons[i]).date == last_date(lessons),
        forall|i: int|
            0 <= i < lessons.len() ==> first_date(lessons).day_number() <= (
            #[trigger] lessons[i]).date.day_number() <= last_date(lessons).day_number(),
    decreases lessons.len(),
{
    if lessons.len() == 1 {
        assert(lessons[0].date == first_date(lessons));
        assert(lessons[0].date == last_date(lessons));
    } else {
        let before = lessons.drop_last();
        let last = lessons.len() - 1;
        assert forall|i: int| 0 <= i < before.len() implies (#[trigger] before[i]).date.valid() by {
            assert(before[i] == lessons[i]);
        }
        lemma_first_and_last(before);
        let f = choose|i: int|
            0 <= i < before.len() && (#[trigger] before[i]).date == first_date(before);
        let l = choose|i: int|
            0 <= i < before.len() && (#[trigger] before[i]).date == last_date(before);
        assert(lessons[f] == before[f] && lessons[l] == before[l]);
        assert(lessons[last].date.valid());
        dates_are_ordered_by_day_number(lessons[last].date, first_date(before));
        dates_are_ordered_by_day_number(last_date(before), lessons[last].date);
        assert forall|i: int| 0 <= i < lessons.len() implies first_date(lessons).day_number() <= (
        #[trigger] lessons[i]).date.day_number() <= last_date(lessons).day_number() by {
            if i < last {
                assert(before[i] == lessons[i]);
            }
        }
    }
}

proof fn lemma_monday(monday: int, day: int)
    requires
        (monday - 1) % 7 == 0,
        monday <= day <= monday + 6,
    ensures
        day - (day - 1) % 7 == monday,
{
}

/// A timetable of one week is accepted: where there are lessons, each with a group and without a
/// blank one, with a subject and with a number, and they all lie between a Monday and the Sunday
/// after it, the timetable fills that week.
#[verifier::spinoff_prover]
#[verifier::rlimit(40)]
pub proof fn one_week_is_accepted(lessons: Seq<LessonView>, monday: DateView, sunday: DateView)
    requires
        lessons.len() > 0,
        monday.valid(),
        monday.weekday() == 0,
        sunday.valid(),
        sunday.day_number() == monday.day_number() + 6,
        forall|i: int|
            0 <= i < lessons.len() ==> {
                let lesson = #[trigger] lessons[i];
                &&& lesson.date.valid()
                &&& monday.day_number() <= lesson.date.day_number() <= sunday.day_number()
                &&& lesson.groups.len() > 0
                &&& forall|k: int|
                    0 <= k < lesson.groups.len() ==> trimmed(#[trigger] lesson.groups[k]).len() > 0
                &&& trimmed(lesson.subject).len() > 0
                &&& lesson.lesson_number != 0
            },
    ensures
        week_of(lessons) == Ok::<(DateView, DateView), ScheduleError>((monday, sunday)),
{
    lemma_first_and_last(lessons);
    assert(!exists|i: int| 0 <= i < lessons.len() && !is_complete(#[trigger] lessons[i]));
    lemma_day_number_range(monday);
    lemma_day_number_range(sunday);
    day_number_names_one_date(monday);
    day_number_names_one_date(sunday);
    let f = choose|i: int|
        0 <= i < lessons.len() && (#[trigger] lessons[i]).date == first_date(lessons);
    let l = choose|i: int|
        0 <= i < lessons.len() && (#[trigger] lessons[i]).date == last_date(lessons);
    assert(monday.day_number() <= lessons[f].date.day_number() <= sunday.day_number());
    assert(lessons[l].date.day_number() <= sunday.day_number());
    lemma_monday(monday.day_number(), lessons[f].date.day_number());
}

/// An accepted timetable has lessons, each with a group and without a blank one, with a subject and
/// with a number, and all in one week.
pub proof fn accepted_timetable_is_complete(lessons: Seq<LessonView>, i: int, j: int)
    requires
        week_of(lessons) is Ok,
        forall|k: int| 0 <= k < lessons.len() ==> (#[trigger] lessons[k]).date.valid(),
        0 <= i < lessons.len(),
        0 <= j < lessons.len(),
    ensures
        lessons[i].groups.len() > 0,
        forall|k: int|
            0 <= k < lessons[i].groups.len() ==> trimmed(
                #[trigger] lessons[i].groups[k],
            ).len() > 0,
        trimmed(lessons[i].subject).len() > 0,
        lessons[i].lesson_number != 0,
        monday_before(lessons[i].date) == monday_before(lessons[j].date),
{
    lemma_first_and_last(lessons);
    assert(is_complete(lessons[i]));
    let first = first_date(lessons);
    let monday = monday_before(first);
    assert(monday <= lessons[i].date.day_number() <= monday + 6);
    assert(monday <= lessons[j].date.day_number() <= monday + 6);
}

/// A refusal says what is wrong: there is no lesson; a lesson has no group, a blank group, no subject
/// or no number; the week of a lesson leaves the calendar; or two lessons lie in different weeks.
pub proof fn refused_timetable_has_the_fault(lessons: Seq<LessonView>)
    requires
        forall|k: int| 0 <= k < lessons.len() ==> (#[trigger] lessons[k]).date.valid(),
    ensures
        lessons.len() == 0 <==> week_of(lessons) == Err::<(DateView, DateView), ScheduleError>(
            ScheduleError::Empty,
        ),
        lessons.len() > 0 ==> (week_of(lessons) == Err::<(DateView, DateView), ScheduleError>(
            ScheduleError::Incomplete,
        ) <==> exists|i: int|
            0 <= i < lessons.len() && ((#[trigger] lessons[i]).groups.len() == 0 || trimmed(
                lessons[i].subject,
            ).len() == 0 || lessons[i].lesson_number == 0 || exists|k: int|
                0 <= k < lessons[i].groups.len() && trimmed(
                    #[trigger] lessons[i].groups[k],
                ).len() == 0)),
        week_of(lessons) == Err::<(DateView, DateView), ScheduleError>(ScheduleError::WeekStart)
            ==> exists|i: int|
            0 <= i < lessons.len() && monday_before((#[trigger] lessons[i]).date)
                < first_day_number(),
        week_of(lessons) == Err::<(DateView, DateView), ScheduleError>(ScheduleError::WeekEnd)
            ==> exists|i: int|
            0 <= i < lessons.len() && last_day_number() < monday_before((#[trigger] lessons[i]).date)
                + 6,
        week_of(lessons) == Err::<(DateView, DateView), ScheduleError>(ScheduleError::SeveralWeeks)
            ==> exists|i: int, j: int|
            0 <= i < lessons.len() && 0 <= j < lessons.len() && monday_before(
                (#[trigger] lessons[i]).date,
            ) != monday_before((#[trigger] lessons[j]).date),
{
    if lessons.len() > 0 {
        lemma_first_and_last(lessons);
        let f = choose|i: int|
            0 <= i < lessons.len() && (#[trigger] lessons[i]).date == first_date(lessons);
        let l = choose|i: int|
            0 <= i < lessons.len() && (#[trigger] lessons[i]).date == last_date(lessons);
        let monday = monday_before(lessons[f].date);
        if monday + 6 < lessons[l].date.day_number() {
            assert(monday_before(lessons[f].date) != monday_before(lessons[l].date));
        }
        if exists|i: int| 0 <= i < lessons.len() && !is_complete(#[trigger] lessons[i]) {
            let i = choose|i: int| 0 <= i < lessons.len() && !is_complete(#[trigger] lessons[i]);
            assert(lessons[i].groups.len() == 0 || trimmed(lessons[i].subject).len() == 0
                || lessons[i].lesson_number == 0 || exists|k: int|
                0 <= k < lessons[i].groups.len() && trimmed(
                    #[trigger] lessons[i].groups[k],
                ).len() == 0);
        }
    }
}

/// Every changed lesson is named: the groups of a lesson that only one of two timetables has are
/// among the changed ones, and so is its day; and every changed group and day has such a lesson.
pub proof fn difference_names_what_changed(
    previous: Seq<LessonView>,
    new: Seq<LessonView>,
    diff: DiffView,
    group: Seq<char>,
    date: DateView,
)
    requires
        is_diff(diff, previous, new),
    ensures
        diff.changed_groups.contains(group) <==> exists|lesson: LessonView|
            {
                &&& lesson.groups.contains(group)
                &&& #[trigger] previous.contains(lesson) != new.contains(lesson)
            },
        diff.changed_dates.contains(date) <==> exists|lesson: LessonView|
            {
                &&& lesson.date == date
                &&& lesson.groups.len() > 0
                &&& #[trigger] previous.contains(lesson) != new.contains(lesson)
            },
{
    if group_differs(group, previous, new) {
        let lesson = choose|lesson: LessonView| #[trigger]
            is_only_in(lesson, previous, new) && lesson.groups.contains(group);
        assert(previous.contains(lesson) != new.contains(lesson));
    }
    if group_differs(group, new, previous) {
        let lesson = choose|lesson: LessonView| #[trigger]
            is_only_in(lesson, new, previous) && lesson.groups.contains(group);
        assert(previous.contains(lesson) != new.contains(lesson));
    }
    if date_differs(date, previous, new) {
        let lesson = choose|lesson: LessonView| #[trigger]
            is_only_in(lesson, previous, new) && lesson.groups.len() > 0 && lesson.date == date;
        assert(previous.contains(lesson) != new.contains(lesson));
    }
    if date_differs(date, new, previous) {
        let lesson = choose|lesson: LessonView| #[trigger]
            is_only_in(lesson, new, previous) && lesson.groups.len() > 0 && lesson.date == date;
        assert(previous.contains(lesson) != new.contains(lesson));
    }
    assert forall|lesson: LessonView| #[trigger] previous.contains(lesson) != new.contains(
        lesson,
    ) implies is_only_in(lesson, previous, new) || is_only_in(lesson, new, previous) by {}
}

/// A new lesson counts once for each of its groups: where a timetable gets one more lesson, which
/// neither it nor the previous one has, what is added grows by the number of its groups, and what is
/// removed stays.
pub proof fn added_lesson_counts_for_each_group(
    previous: Seq<LessonView>,
    new: Seq<LessonView>,
    lesson: LessonView,
    before: DiffView,
    after: DiffView,
)
    requires
        is_diff(before, previous, new),
        is_diff(after, previous, new.push(lesson)),
        !previous.contains(lesson),
        !new.contains(lesson),
        lesson.groups.no_duplicates(),
        before.added + lesson.groups.len() <= usize::MAX,
        group_lessons_only_in(new, previous).finite(),
        group_lessons_only_in(new, previous).len() <= usize::MAX,
    ensures
        after.added == before.added + lesson.groups.len(),
        after.removed == before.removed,
{
    let old_pairs = group_lessons_only_in(new, previous);
    let new_pairs = group_lessons_only_in(new.push(lesson), previous);
    let own = lesson.groups.to_set().map(|group: Seq<char>| (group, lesson));
    assert forall|p: (Seq<char>, LessonView)| #[trigger] new_pairs.contains(p) <==> (
    old_pairs.contains(p) || own.contains(p)) by {
        lemma_push_contains(new, lesson, p.1);
        if p.1 == lesson && lesson.groups.contains(p.0) {
            assert(lesson.groups.to_set().contains(p.0));
            assert(own.contains((p.0, lesson)));
        }
        if own.contains(p) {
            let group = choose|group: Seq<char>|
                lesson.groups.to_set().contains(group) && p == (group, lesson);
            assert(lesson.groups.contains(p.0) && p.1 == lesson);
        }
    }
    assert(new_pairs =~= old_pairs + own);
    lesson.groups.unique_seq_to_set();
    vstd::set_lib::lemma_map_size(
        lesson.groups.to_set(),
        own,
        |group: Seq<char>| (group, lesson),
    );
    assert(old_pairs.disjoint(own));
    vstd::set_lib::lemma_set_disjoint_lens(old_pairs, own);
    assert(group_lessons_only_in(previous, new.push(lesson)) =~= group_lessons_only_in(
        previous,
        new,
    )) by {
        assert forall|p: (Seq<char>, LessonView)| #[trigger] previous.contains(p.1) implies (
        new.push(lesson).contains(p.1) <==> new.contains(p.1)) by {
            lemma_push_contains(new, lesson, p.1);
        }
    }
}

} // verus!
