//! Lessons, what it means for two of them to be the same, and the order they are listed in.

use crate::date::{lemma_before_transitive, Date, DateView};
use crate::text::{
    lemma_text_order_total, lemma_text_order_transitive, same_text, text_before, text_lt, text_of,
    texts,
};
use vstd::prelude::*;

verus! {

/// One lesson of the timetable.
#[derive(Debug, Clone, PartialEq, Eq)]
pub struct Lesson {
    /// Groups that share this lesson (for example, `ОЗМ21В/ОЗЭ21В`).
    pub groups: Vec<String>,
    pub date: Date,
    pub weekday: String,
    pub lesson_number: u8,
    pub start_time: String,
    pub end_time: String,
    pub subject: String,
    pub lesson_type: Option<String>,
    pub teacher: Option<String>,
    pub room: Option<String>,
    /// Original cell contents, retained in case the source contains extra details.
    pub description: String,
}

/// The contents of a lesson.
#[verifier::ext_equal]
pub struct LessonView {
    pub groups: Seq<Seq<char>>,
    pub date: DateView,
    pub weekday: Seq<char>,
    pub lesson_number: int,
    pub start_time: Seq<char>,
    pub end_time: Seq<char>,
    pub subject: Seq<char>,
    pub lesson_type: Option<Seq<char>>,
    pub teacher: Option<Seq<char>>,
    pub room: Option<Seq<char>>,
    pub description: Seq<char>,
}

impl View for Lesson {
    type V = LessonView;

    open spec fn view(&self) -> LessonView {
        LessonView {
            groups: texts(self.groups@),
            date: self.date@,
            weekday: self.weekday@,
            lesson_number: self.lesson_number as int,
            start_time: self.start_time@,
            end_time: self.end_time@,
            subject: self.subject@,
            lesson_type: text_of(self.lesson_type),
            teacher: text_of(self.teacher),
            room: text_of(self.room),
            description: self.description@,
        }
    }
}

/// The contents of a list of lessons.
pub open spec fn lessons_view(lessons: Seq<Lesson>) -> Seq<LessonView> {
    lessons.map_values(|lesson: Lesson| lesson@)
}

/// The contents of a list of borrowed lessons.
pub open spec fn borrowed_view(lessons: Seq<&Lesson>) -> Seq<LessonView> {
    lessons.map_values(|lesson: &Lesson| lesson@)
}

/// A copy of a list of strings.
pub fn copy_texts(list: &Vec<String>) -> (r: Vec<String>)
    ensures
        texts(r@) == texts(list@),
{
    let mut r: Vec<String> = Vec::new();
    let mut i: usize = 0;
    while i < list.len()
        invariant
            i <= list@.len(),
            texts(r@) == texts(list@).take(i as int),
        decreases list@.len() - i,
    {
        let ghost before = texts(r@);
        r.push(list[i].clone());
        assert(texts(r@) =~= before.push(list@[i as int]@));
        assert(texts(list@).take(i + 1) =~= before.push(list@[i as int]@));
        i += 1;
    }
    assert(texts(list@).take(i as int) =~= texts(list@));
    r
}

/// A copy of a string that may be missing.
pub fn copy_text(text: &Option<String>) -> (r: Option<String>)
    ensures
        text_of(r) == text_of(*text),
{
    match text {
        Some(text) => Some(text.clone()),
        None => None,
    }
}

/// Whether two lists of strings are the same.
pub fn same_texts(a: &Vec<String>, b: &Vec<String>) -> (r: bool)
    ensures
        r == (texts(a@) == texts(b@)),
{
    if a.len() != b.len() {
        assert(texts(a@).len() != texts(b@).len());
        return false;
    }
    let mut i: usize = 0;
    while i < a.len()
        invariant
            i <= a@.len(),
            a@.len() == b@.len(),
            forall|j: int| 0 <= j < i ==> a@[j]@ == b@[j]@,
        decreases a@.len() - i,
    {
        if !same_text(a[i].as_str(), b[i].as_str()) {
            assert(texts(a@)[i as int] != texts(b@)[i as int]);
            return false;
        }
        i += 1;
    }
    assert(texts(a@) =~= texts(b@));
    true
}

/// Whether two strings that may be missing are the same.
pub fn same_optional_text(a: &Option<String>, b: &Option<String>) -> (r: bool)
    ensures
        r == (text_of(*a) == text_of(*b)),
{
    match (a, b) {
        (Some(a), Some(b)) => same_text(a.as_str(), b.as_str()),
        (None, None) => true,
        _ => false,
    }
}

impl Lesson {
    /// Whether two lessons agree in every field.
    pub fn same(&self, other: &Lesson) -> (r: bool)
        ensures
            r == (self@ == other@),
    {
        self.date.same(&other.date) && self.lesson_number == other.lesson_number && same_text(
            self.subject.as_str(),
            other.subject.as_str(),
        ) && same_text(self.start_time.as_str(), other.start_time.as_str()) && same_text(
            self.end_time.as_str(),
            other.end_time.as_str(),
        ) && same_text(self.weekday.as_str(), other.weekday.as_str()) && same_texts(
            &self.groups,
            &other.groups,
        ) && same_optional_text(&self.lesson_type, &other.lesson_type) && same_optional_text(
            &self.teacher,
            &other.teacher,
        ) && same_optional_text(&self.room, &other.room) && same_text(
            self.description.as_str(),
            other.description.as_str(),
        )
    }
}

/// The order of lists of texts: member by member.
pub open spec fn texts_lt(a: Seq<Seq<char>>, b: Seq<Seq<char>>) -> bool
    decreases a.len(),
{
    if b.len() == 0 {
        false
    } else if a.len() == 0 {
        true
    } else if a[0] == b[0] {
        texts_lt(a.skip(1), b.skip(1))
    } else {
        text_lt(a[0], b[0])
    }
}

/// Whether one list of texts comes before another.
pub fn texts_before(a: &Vec<String>, b: &Vec<String>) -> (r: bool)
    ensures
        r == texts_lt(texts(a@), texts(b@)),
{
    let mut i: usize = 0;
    let ghost x = texts(a@);
    let ghost y = texts(b@);
    assert(x.skip(0) =~= x);
    assert(y.skip(0) =~= y);
    while i < a.len() && i < b.len()
        invariant
            i <= a@.len(),
            i <= b@.len(),
            x == texts(a@),
            y == texts(b@),
            texts_lt(x, y) == texts_lt(x.skip(i as int), y.skip(i as int)),
        decreases a@.len() - i,
    {
        if !same_text(a[i].as_str(), b[i].as_str()) {
            return text_before(a[i].as_str(), b[i].as_str());
        }
        assert(x.skip(i as int).skip(1) =~= x.skip(i + 1));
        assert(y.skip(i as int).skip(1) =~= y.skip(i + 1));
        i += 1;
    }
    i < b.len()
}

proof fn lemma_texts_order_total(a: Seq<Seq<char>>, b: Seq<Seq<char>>)
    ensures
        texts_lt(a, b) || texts_lt(b, a) || a == b,
        !(texts_lt(a, b) && texts_lt(b, a)),
        a == b ==> !texts_lt(a, b),
    decreases a.len(),
{
    if a.len() > 0 && b.len() > 0 {
        lemma_text_order_total(a[0], b[0]);
        if a[0] == b[0] {
            lemma_texts_order_total(a.skip(1), b.skip(1));
            if a.skip(1) == b.skip(1) {
                assert(a =~= seq![a[0]] + a.skip(1));
                assert(b =~= seq![b[0]] + b.skip(1));
            }
        }
    } else if a.len() == 0 && b.len() == 0 {
        assert(a =~= b);
    }
}

proof fn lemma_texts_order_transitive(a: Seq<Seq<char>>, b: Seq<Seq<char>>, c: Seq<Seq<char>>)
    requires
        texts_lt(a, b),
        texts_lt(b, c),
    ensures
        texts_lt(a, c),
    decreases a.len(),
{
    if a.len() > 0 {
        if a[0] == b[0] && b[0] == c[0] {
            lemma_texts_order_transitive(a.skip(1), b.skip(1), c.skip(1));
        } else if a[0] != b[0] && b[0] != c[0] {
            lemma_text_order_transitive(a[0], b[0], c[0]);
            lemma_text_order_total(a[0], c[0]);
        }
    }
}

/// The order that lessons are listed in: by date, then start time, then groups, then subject.
pub open spec fn listed_before(a: LessonView, b: LessonView) -> bool {
    ||| a.date.before(b.date)
    ||| a.date == b.date && text_lt(a.start_time, b.start_time)
    ||| a.date == b.date && a.start_time == b.start_time && texts_lt(a.groups, b.groups)
    ||| a.date == b.date && a.start_time == b.start_time && a.groups == b.groups && text_lt(
        a.subject,
        b.subject,
    )
}

/// Whether the order leaves two lessons in the same place.
pub open spec fn listed_alike(a: LessonView, b: LessonView) -> bool {
    a.date == b.date && a.start_time == b.start_time && a.groups == b.groups && a.subject
        == b.subject
}

/// Of two lessons exactly one comes first, unless they agree in what the order looks at.
pub proof fn lemma_listing_total(a: LessonView, b: LessonView)
    ensures
        listed_before(a, b) || listed_before(b, a) || listed_alike(a, b),
        !(listed_before(a, b) && listed_before(b, a)),
        listed_alike(a, b) ==> !listed_before(a, b),
{
    lemma_text_order_total(a.start_time, b.start_time);
    lemma_texts_order_total(a.groups, b.groups);
    lemma_text_order_total(a.subject, b.subject);
}

/// The order of lessons is transitive.
pub proof fn lemma_listing_transitive(a: LessonView, b: LessonView, c: LessonView)
    requires
        listed_before(a, b),
        listed_before(b, c),
    ensures
        listed_before(a, c),
{
    if a.date.before(b.date) && b.date.before(c.date) {
        lemma_before_transitive(a.date, b.date, c.date);
    } else if text_lt(a.start_time, b.start_time) && text_lt(b.start_time, c.start_time) {
        lemma_text_order_transitive(a.start_time, b.start_time, c.start_time);
    } else if a.start_time == b.start_time && b.start_time == c.start_time {
        if texts_lt(a.groups, b.groups) && texts_lt(b.groups, c.groups) {
            lemma_texts_order_transitive(a.groups, b.groups, c.groups);
        } else if text_lt(a.subject, b.subject) && text_lt(b.subject, c.subject) {
            lemma_text_order_transitive(a.subject, b.subject, c.subject);
        }
    }
}

/// Whether `a` is listed before `b`.
pub fn is_listed_before(a: &Lesson, b: &Lesson) -> (r: bool)
    ensures
        r == listed_before(a@, b@),
{
    if !a.date.same(&b.date) {
        return a.date.is_before(&b.date);
    }
    if !same_text(a.start_time.as_str(), b.start_time.as_str()) {
        proof {
            lemma_text_order_total(a@.start_time, b@.start_time);
        }
        return text_before(a.start_time.as_str(), b.start_time.as_str());
    }
    proof {
        lemma_text_order_total(a@.start_time, b@.start_time);
        lemma_texts_order_total(a@.groups, b@.groups);
    }
    if !same_texts(&a.groups, &b.groups) {
        return texts_before(&a.groups, &b.groups);
    }
    text_before(a.subject.as_str(), b.subject.as_str())
}

/// `list` with `lesson` put before its first member that is not listed before `lesson`.
pub open spec fn placed(lesson: LessonView, list: Seq<LessonView>) -> Seq<LessonView>
    decreases list.len(),
{
    if list.len() == 0 || !listed_before(list[0], lesson) {
        seq![lesson] + list
    } else {
        seq![list[0]] + placed(lesson, list.skip(1))
    }
}

/// The lessons in listing order; lessons that the order leaves alike keep their places.
pub open spec fn in_listing_order(lessons: Seq<LessonView>) -> Seq<LessonView>
    decreases lessons.len(),
{
    if lessons.len() == 0 {
        seq![]
    } else {
        placed(lessons[0], in_listing_order(lessons.skip(1)))
    }
}

/// Whether no member of a list comes before an earlier one.
pub open spec fn is_listed(lessons: Seq<LessonView>) -> bool {
    forall|i: int, j: int|
        0 <= i < j < lessons.len() ==> !listed_before(#[trigger] lessons[j], #[trigger] lessons[i])
}

proof fn lemma_placed(lesson: LessonView, list: Seq<LessonView>)
    requires
        is_listed(list),
    ensures
        is_listed(placed(lesson, list)),
        placed(lesson, list).to_multiset() == list.to_multiset().insert(lesson),
        placed(lesson, list).len() == list.len() + 1,
        forall|i: int|
            0 <= i < placed(lesson, list).len() ==> (#[trigger] placed(lesson, list)[i] == lesson
                || list.contains(placed(lesson, list)[i])),
    decreases list.len(),
{
    broadcast use vstd::seq_lib::group_to_multiset_ensures;

    let r = placed(lesson, list);
    if list.len() == 0 || !listed_before(list[0], lesson) {
        assert(r.skip(1) =~= list);
        assert(list.insert(0, lesson) =~= r);
        assert(list =~= r.remove(0));
        assert(r.to_multiset() == list.to_multiset().insert(lesson));
        assert forall|i: int, j: int| 0 <= i < j < r.len() implies !listed_before(
            #[trigger] r[j],
            #[trigger] r[i],
        ) by {
            if i == 0 {
                if listed_before(r[j], lesson) {
                    lemma_listing_total(list[0], lesson);
                    lemma_listing_total(list[0], list[j - 1]);
                    if j - 1 > 0 {
                        assert(!listed_before(list[j - 1], list[0]));
                        if listed_before(list[0], list[j - 1]) {
                            lemma_listing_transitive(list[0], list[j - 1], lesson);
                        } else {
                            assert(listed_alike(list[0], list[j - 1]));
                            assert(listed_before(list[0], lesson));
                        }
                    }
                }
            } else {
                assert(r[i] == list[i - 1]);
                assert(r[j] == list[j - 1]);
            }
        }
        assert forall|i: int| 0 <= i < r.len() implies (#[trigger] r[i] == lesson
            || list.contains(r[i])) by {
            if i > 0 {
                assert(r[i] == list[i - 1]);
            }
        }
    } else {
        let tail = list.skip(1);
        assert forall|i: int, j: int| 0 <= i < j < tail.len() implies !listed_before(
            #[trigger] tail[j],
            #[trigger] tail[i],
        ) by {
            assert(tail[i] == list[i + 1]);
            assert(tail[j] == list[j + 1]);
        }
        lemma_placed(lesson, tail);
        let rest = placed(lesson, tail);
        assert(r =~= seq![list[0]] + rest);
        assert(r.remove(0) =~= rest);
        assert(list.remove(0) =~= tail);
        assert(r =~= rest.insert(0, list[0]));
        assert(list =~= tail.insert(0, list[0]));
        assert(r.to_multiset() =~= list.to_multiset().insert(lesson)) by {
            assert(rest.insert(0, list[0]).to_multiset() == rest.to_multiset().insert(list[0]));
            assert(tail.insert(0, list[0]).to_multiset() == tail.to_multiset().insert(list[0]));
        }
        assert forall|i: int, j: int| 0 <= i < j < r.len() implies !listed_before(
            #[trigger] r[j],
            #[trigger] r[i],
        ) by {
            if i == 0 {
                let other = rest[j - 1];
                if other == lesson {
                    lemma_listing_total(list[0], lesson);
                } else {
                    assert(tail.contains(other));
                    let k = choose|k: int| 0 <= k < tail.len() && tail[k] == other;
                    assert(list[k + 1] == other);
                }
            } else {
                assert(r[i] == rest[i - 1]);
                assert(r[j] == rest[j - 1]);
            }
        }
        assert forall|i: int| 0 <= i < r.len() implies (#[trigger] r[i] == lesson
            || list.contains(r[i])) by {
            if i == 0 {
                assert(list.contains(list[0]));
            } else {
                assert(r[i] == rest[i - 1]);
                if rest[i - 1] != lesson {
                    let k = choose|k: int| 0 <= k < tail.len() && tail[k] == rest[i - 1];
                    assert(list[k + 1] == r[i]);
                }
            }
        }
    }
}

/// Listing lessons in order keeps exactly the lessons there were, none before an earlier one.
pub proof fn listing_sorts(lessons: Seq<LessonView>)
    ensures
        is_listed(in_listing_order(lessons)),
        in_listing_order(lessons).to_multiset() == lessons.to_multiset(),
        in_listing_order(lessons).len() == lessons.len(),
    decreases lessons.len(),
{
    broadcast use vstd::seq_lib::group_to_multiset_ensures;

    if lessons.len() > 0 {
        let rest = lessons.skip(1);
        listing_sorts(rest);
        lemma_placed(lessons[0], in_listing_order(rest));
        assert(lessons =~= rest.insert(0, lessons[0]));
        assert(rest.insert(0, lessons[0]).to_multiset() == rest.to_multiset().insert(lessons[0]));
    } else {
        assert(in_listing_order(lessons) =~= lessons);
    }
}

/// The members of a list that the order leaves in the same place as `lesson`, in their order.
pub open spec fn alike_among(list: Seq<LessonView>, lesson: LessonView) -> Seq<LessonView>
    decreases list.len(),
{
    if list.len() == 0 {
        seq![]
    } else if listed_alike(list[0], lesson) {
        seq![list[0]] + alike_among(list.skip(1), lesson)
    } else {
        alike_among(list.skip(1), lesson)
    }
}

proof fn lemma_alike_placed(first: LessonView, list: Seq<LessonView>, lesson: LessonView)
    ensures
        alike_among(placed(first, list), lesson) == alike_among(seq![first] + list, lesson),
    decreases list.len(),
{
    let front = seq![first] + list;
    assert(front.skip(1) =~= list);
    if list.len() > 0 && listed_before(list[0], first) {
        let tail = list.skip(1);
        lemma_alike_placed(first, tail, lesson);
        let r = placed(first, list);
        assert(r.skip(1) =~= placed(first, tail));
        let shorter = seq![first] + tail;
        assert(shorter.skip(1) =~= tail);
        lemma_listing_total(list[0], first);
        assert(front[0] == first && shorter[0] == first && r[0] == list[0]);
        if listed_alike(list[0], lesson) {
            assert(!listed_alike(first, lesson));
            assert(alike_among(shorter, lesson) == alike_among(tail, lesson));
            assert(alike_among(front, lesson) == alike_among(list, lesson));
        } else {
            assert(alike_among(list, lesson) == alike_among(tail, lesson));
            assert(alike_among(r, lesson) == alike_among(shorter, lesson));
        }
    }
}

/// Listing keeps the order of lessons that it leaves in the same place.
pub proof fn listing_is_stable(lessons: Seq<LessonView>, lesson: LessonView)
    ensures
        alike_among(in_listing_order(lessons), lesson) == alike_among(lessons, lesson),
    decreases lessons.len(),
{
    if lessons.len() > 0 {
        let rest = lessons.skip(1);
        listing_is_stable(rest, lesson);
        lemma_alike_placed(lessons[0], in_listing_order(rest), lesson);
        let listed = seq![lessons[0]] + in_listing_order(rest);
        assert(listed.skip(1) =~= in_listing_order(rest));
    }
}

/// The lessons in listing order.
pub fn sort_lessons(lessons: Vec<Lesson>) -> (r: Vec<Lesson>)
    ensures
        lessons_view(r@) == in_listing_order(lessons_view(lessons@)),
{
    let ghost all = lessons_view(lessons@);
    let mut rest = lessons;
    let mut r: Vec<Lesson> = Vec::new();
    assert(lessons_view(r@) =~= in_listing_order(all.skip(rest@.len() as int)));
    while rest.len() > 0
        invariant
            rest@.len() <= all.len(),
            lessons_view(rest@) == all.take(rest@.len() as int),
            lessons_view(r@) == in_listing_order(all.skip(rest@.len() as int)),
        decreases rest@.len(),
    {
        let ghost n = rest@.len() as int;
        let ghost sorted = lessons_view(r@);
        let ghost unsorted = rest@;
        let lesson = rest.pop().unwrap();
        assert(lesson@ == all[n - 1]) by {
            assert(lessons_view(unsorted)[n - 1] == all.take(n)[n - 1]);
        }
        let mut i: usize = 0;
        assert(sorted.skip(0) =~= sorted);
        assert(sorted.take(0) + placed(lesson@, sorted.skip(0)) =~= placed(lesson@, sorted));
        while i < r.len() && is_listed_before(&r[i], &lesson)
            invariant
                i <= r@.len(),
                sorted == lessons_view(r@),
                sorted.take(i as int) + placed(lesson@, sorted.skip(i as int)) == placed(
                    lesson@,
                    sorted,
                ),
            decreases r@.len() - i,
        {
            let ghost tail = sorted.skip(i as int);
            assert(tail[0] == sorted[i as int]);
            assert(tail.skip(1) =~= sorted.skip(i + 1));
            assert(sorted.take(i + 1) + placed(lesson@, sorted.skip(i + 1)) =~= sorted.take(
                i as int,
            ) + placed(lesson@, tail));
            i += 1;
        }
        let ghost item = lesson@;
        r.insert(i, lesson);
        proof {
            assert(lessons_view(r@) =~= sorted.insert(i as int, item));
            assert(sorted.insert(i as int, item) =~= sorted.take(i as int) + (seq![item]
                + sorted.skip(i as int)));
            assert(lessons_view(r@) == placed(item, sorted));
            assert(all.skip(n - 1)[0] == item);
            assert(all.skip(n - 1).skip(1) =~= all.skip(n));
            assert(all.take(n - 1) =~= all.take(n).take(n - 1));
            assert(lessons_view(rest@) =~= lessons_view(unsorted).take(n - 1));
        }
    }
    assert(all.skip(0) =~= all);
    r
}

} // verus!
