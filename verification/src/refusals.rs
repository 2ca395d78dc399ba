//! What is not read: texts that are no times, no numbers and no names of files.

use crate::files::{extension, find_last, last_part};
use crate::lesson::{lessons_view, listing_sorts, Lesson};
use crate::parser::{
    clock_time, holds_kind, is_parsed, sheet_lessons, sheet_texts, time_range, workbook_lessons,
    CellView, ParseError,
};
use crate::text::{
    find_char, has_prefix, holds, is_space, lemma_find_char, split_on, trim_end, trim_start,
    trimmed, unsigned_number,
};
use vstd::prelude::*;

verus! {

proof fn lemma_trimmed_has(s: Seq<char>, c: char)
    requires
        !is_space(c),
    ensures
        trimmed(s).contains(c) <==> s.contains(c),
{
    lemma_start_has(s, c);
    lemma_end_has(trim_start(s), c);
}

proof fn lemma_start_has(s: Seq<char>, c: char)
    requires
        !is_space(c),
    ensures
        trim_start(s).contains(c) <==> s.contains(c),
    decreases s.len(),
{
    if s.len() > 0 && is_space(s[0]) {
        let rest = s.skip(1);
        lemma_start_has(rest, c);
        if s.contains(c) {
            let i = choose|i: int| 0 <= i < s.len() && s[i] == c;
            assert(rest[i - 1] == c);
        }
        if rest.contains(c) {
            let i = choose|i: int| 0 <= i < rest.len() && rest[i] == c;
            assert(s[i + 1] == c);
        }
    }
}

proof fn lemma_end_has(s: Seq<char>, c: char)
    requires
        !is_space(c),
    ensures
        trim_end(s).contains(c) <==> s.contains(c),
    decreases s.len(),
{
    if s.len() > 0 && is_space(s.last()) {
        let rest = s.drop_last();
        lemma_end_has(rest, c);
        if s.contains(c) {
            let i = choose|i: int| 0 <= i < s.len() && s[i] == c;
            assert(rest[i] == c);
        }
        if rest.contains(c) {
            let i = choose|i: int| 0 <= i < rest.len() && rest[i] == c;
            assert(s[i] == c);
        }
    }
}

proof fn lemma_clock_has_dot(s: Seq<char>)
    ensures
        clock_time(s) is Some <==> s.contains('.'),
{
    let t = trimmed(s);
    assert(!is_space('.'));
    lemma_trimmed_has(s, '.');
    lemma_find_char(t, '.');
    if t.contains('.') {
        let i = choose|i: int| 0 <= i < t.len() && t[i] == '.';
        assert(find_char(t, '.') <= i);
    }
}

/// A cell gives a time if and only if a hyphen stands in it, with a dot before the first hyphen and a
/// dot behind it.
pub proof fn times_have_a_hyphen_and_dots(start: Seq<char>, end: Seq<char>, plain: Seq<char>)
    requires
        !start.contains('-'),
        !plain.contains('-'),
    ensures
        time_range(plain) is None,
        time_range(start + seq!['-'] + end) is Some <==> start.contains('.') && end.contains('.'),
{
    assert(!is_space('-') && !is_space('.'));
    lemma_trimmed_has(plain, '-');
    lemma_find_char(trimmed(plain), '-');
    let s = start + seq!['-'] + end;
    let left = trim_start(start);
    let right = trim_end(end);
    lemma_parted_start(start, seq!['-'] + end);
    assert(s =~= start + (seq!['-'] + end));
    lemma_parted_end(left + seq!['-'], end);
    assert(left + (seq!['-'] + end) =~= left + seq!['-'] + end);
    assert(trimmed(s) == left + seq!['-'] + right);
    lemma_start_has(start, '-');
    lemma_start_has(start, '.');
    lemma_end_has(end, '.');
    assert forall|i: int| 0 <= i < left.len() implies #[trigger] left[i] != '-' by {
        if left[i] == '-' {
            assert(left.contains('-'));
        }
    }
    crate::fields::lemma_first_stands(left, '-', right);
    let t = left + seq!['-'] + right;
    assert(t.take(left.len() as int) =~= left);
    assert(t.skip(left.len() as int + 1) =~= right);
    lemma_clock_has_dot(left);
    lemma_clock_has_dot(right);
}

proof fn lemma_parted_start(a: Seq<char>, b: Seq<char>)
    requires
        b.len() > 0,
        !is_space(b[0]),
    ensures
        trim_start(a + b) == trim_start(a) + b,
    decreases a.len(),
{
    if a.len() == 0 {
        assert(a + b =~= b);
        assert(trim_start(a) + b =~= b);
    } else {
        assert((a + b)[0] == a[0]);
        if is_space(a[0]) {
            assert((a + b).skip(1) =~= a.skip(1) + b);
            lemma_parted_start(a.skip(1), b);
        }
    }
}

proof fn lemma_parted_end(a: Seq<char>, b: Seq<char>)
    requires
        a.len() > 0,
        !is_space(a.last()),
    ensures
        trim_end(a + b) == a + trim_end(b),
    decreases b.len(),
{
    if b.len() == 0 {
        assert(a + b =~= a);
        assert(a + trim_end(b) =~= a);
    } else {
        assert((a + b).last() == b.last());
        if is_space(b.last()) {
            assert((a + b).drop_last() =~= a + b.drop_last());
            lemma_parted_end(a, b.drop_last());
        }
    }
}

/// Only digits are read as a number, a plus sign apart that may stand before them, and only up to the
/// limit.
pub proof fn numbers_are_digits(s: Seq<char>, max: int)
    ensures
        unsigned_number(s, max) matches Some(n) ==> {
            &&& n <= max
            &&& s.len() > 0
            &&& '0' <= s.last() <= '9'
            &&& forall|i: int|
                0 <= i < s.len() ==> '0' <= #[trigger] s[i] <= '9' || (i == 0 && s[i] == '+')
        },
{
    let t = crate::text::without_plus(s);
    if unsigned_number(s, max) is Some {
        assert('0' <= t.last() <= '9');
        assert forall|i: int| 0 <= i < s.len() implies '0' <= #[trigger] s[i] <= '9' || (i == 0
            && s[i] == '+') by {
            if s[0] == '+' {
                if i > 0 {
                    assert(t[i - 1] == s[i]);
                }
            } else {
                assert(t[i] == s[i]);
            }
        }
    }
}

/// The beginnings of the words for the kinds of lessons: lecture, practice, laboratory, seminar,
/// consultation, examination and test.
pub open spec fn kind_words() -> Seq<Seq<char>> {
    seq!["лек"@, "пр"@, "лаб"@, "сем"@, "конс"@, "экз"@, "зач"@]
}

/// A text names a kind of lesson if and only if one of the words for the kinds begins somewhere in it.
pub proof fn kinds_are_known_by_their_words(lower: Seq<char>)
    ensures
        holds_kind(lower) <==> exists|i: int, at: int|
            0 <= i < kind_words().len() && 0 <= at && at + kind_words()[i].len() <= lower.len()
                && #[trigger] lower.subrange(at, at + kind_words()[i].len()) == kind_words()[i],
{
    let all = kind_words();
    if holds_kind(lower) {
        assert(all[0] == "лек"@ && all[1] == "пр"@ && all[2] == "лаб"@ && all[3] == "сем"@ && all[4]
            == "конс"@ && all[5] == "экз"@ && all[6] == "зач"@);
        let i = choose|i: int| 0 <= i < 7 && holds(lower, all[i]);
        let at = choose|at: int| 0 <= at <= lower.len() && #[trigger] has_prefix(
            lower.skip(at),
            all[i],
        );
        assert(lower.subrange(at, at + all[i].len()) =~= lower.skip(at).take(all[i].len() as int));
    }
    if exists|i: int, at: int|
        0 <= i < all.len() && 0 <= at && at + all[i].len() <= lower.len() && #[trigger] lower.subrange(
            at,
            at + all[i].len(),
        ) == all[i] {
        let (i, at) = choose|i: int, at: int|
            0 <= i < all.len() && 0 <= at && at + all[i].len() <= lower.len()
                && #[trigger] lower.subrange(at, at + all[i].len()) == all[i];
        assert(lower.skip(at).take(all[i].len() as int) =~= lower.subrange(at, at + all[i].len()));
        assert(has_prefix(lower.skip(at), all[i]));
        assert(holds(lower, all[i]));
    }
}

/// How many lessons the first `count` sheets have.
pub open spec fn lessons_in(sheets: Seq<Seq<Seq<CellView>>>, count: int) -> int
    decreases count,
{
    if count <= 0 {
        0
    } else {
        lessons_in(sheets, count - 1) + sheet_lessons(sheet_texts(sheets[count - 1])).len()
    }
}

proof fn lemma_lessons_in(sheets: Seq<Seq<Seq<CellView>>>, count: int)
    ensures
        workbook_lessons(sheets, count).len() == lessons_in(sheets, count),
    decreases count,
{
    if count > 0 {
        lemma_lessons_in(sheets, count - 1);
    }
}

/// A workbook gives as many lessons as its sheets have together.
pub proof fn no_sheet_is_read_twice(
    r: Result<Vec<Lesson>, ParseError>,
    sheets: Seq<Seq<Seq<CellView>>>,
)
    requires
        is_parsed(r, Ok(sheets)),
    ensures
        r matches Ok(lessons) ==> lessons@.len() == lessons_in(sheets, sheets.len() as int),
{
    lemma_lessons_in(sheets, sheets.len() as int);
    listing_sorts(workbook_lessons(sheets, sheets.len() as int));
    if let Ok(lessons) = r {
        assert(lessons_view(lessons@).len() == lessons@.len());
    }
}

proof fn lemma_split_sum(a: Seq<char>, b: Seq<char>, c: char)
    ensures
        split_on(a + seq![c] + b, c) == split_on(a, c) + split_on(b, c),
    decreases a.len(),
{
    let s = a + seq![c] + b;
    lemma_find_char(a, c);
    lemma_find_char(s, c);
    let i = find_char(a, c);
    if i >= a.len() {
        crate::fields::lemma_first_stands(a, c, b);
        assert(s.take(a.len() as int) =~= a);
        assert(s.skip(a.len() as int + 1) =~= b);
    } else {
        let rest = a.skip(i + 1);
        lemma_split_sum(rest, b, c);
        let k = find_char(s, c);
        assert(s[i] == a[i]);
        assert(k == i) by {
            if k < i {
                assert(s[k] == a[k]);
            }
        }
        assert(s.take(i) =~= a.take(i));
        assert(s.skip(i + 1) =~= rest + seq![c] + b);
        assert(split_on(s, c) =~= split_on(a, c) + split_on(b, c));
    }
}

/// The extension of a path is that of the file it leads to, whatever the folders are called.
pub proof fn folders_have_no_say_in_extensions(folder: Seq<char>, name: Seq<char>)
    requires
        name.len() > 2,
        !name.contains('/'),
    ensures
        extension(folder + seq!['/'] + name) == extension(name),
        !name.contains('.') ==> extension(name) is None,
{
    lemma_split_sum(folder, name, '/');
    lemma_find_char(name, '/');
    assert(split_on(name, '/') =~= seq![name]) by {
        let at = find_char(name, '/');
        if at < name.len() {
            assert(name.contains(name[at]));
        }
    }
    let parts = split_on(folder + seq!['/'] + name, '/');
    assert(parts.last() == name);
    assert(seq![name].last() == name);
    reveal_strlit("");
    reveal_strlit(".");
    reveal_strlit("..");
    assert(last_part(parts) == Some(name));
    assert(last_part(seq![name]) == Some(name));
    lemma_last_is_there(name);
}

proof fn lemma_last_is_there(s: Seq<char>)
    ensures
        !s.contains('.') ==> find_last(s, '.') == -1,
    decreases s.len(),
{
    if s.len() > 0 && !s.contains('.') {
        let rest = s.drop_last();
        assert(s.contains(s.last()));
        assert(!rest.contains('.')) by {
            if rest.contains('.') {
                let i = choose|i: int| 0 <= i < rest.len() && rest[i] == '.';
                assert(s[i] == '.');
            }
        }
        lemma_last_is_there(rest);
    }
}

} // verus!
