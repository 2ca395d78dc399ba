//! What the pieces of a timetable and of a command say: descriptions, groups, times, numbers, names
//! of files.

use crate::files::{extension, file_name, find_last};
use crate::group::{command_in, CommandView};
use crate::lesson::{in_listing_order, lessons_view, listing_sorts, Lesson, LessonView};
use crate::parser::{
    bracket_end, clock_time, description_parts, group_names, holds_kind, is_for_group, is_in_room,
    is_parsed, is_timetable, kind_opens, kind_start, room_name, sheet_lessons, sheet_texts,
    time_range, workbook_lessons, CellView, ParseError,
};
use crate::text::{
    all_digits, ascii_lower, ascii_lowered, decimal, digit, digits_value, find_char, is_space,
    is_word, lemma_find_char, lowercase, split_on, trim_end, trim_start, trimmed,
    two_words_are_read_apart, unsigned_number, zero_padded,
};
use crate::workbook::{first_sheets, BookView, ReadError};
use vstd::prelude::*;

verus! {

/// Whether brackets open at `open`, close at `close` and hold no other closing bracket.
pub open spec fn are_brackets(text: Seq<char>, open: int, close: int) -> bool {
    &&& 0 <= open < close < text.len()
    &&& text[open] == '('
    &&& text[close] == ')'
    &&& forall|k: int| open < k < close ==> #[trigger] text[k] != ')'
}

/// Whether brackets hold a word for the kind of a lesson.
pub open spec fn brackets_tell_kind(text: Seq<char>, open: int, close: int) -> bool {
    are_brackets(text, open, close) && holds_kind(lowercase(text.subrange(open + 1, close)))
}

proof fn lemma_bracket_end(text: Seq<char>, open: int, close: int)
    requires
        are_brackets(text, open, close),
    ensures
        bracket_end(text, open) == close,
{
    let rest = text.skip(open);
    lemma_find_char(rest, ')');
    let found = find_char(rest, ')');
    assert(rest[close - open] == ')');
    if found < rest.len() && found != close - open {
        assert(text[open + found] == ')');
    }
    if found >= rest.len() {
        assert(rest[close - open] != ')');
    }
}

proof fn lemma_kind_start(text: Seq<char>, from: int)
    requires
        0 <= from <= text.len(),
    ensures
        from <= kind_start(text, from) <= text.len(),
        kind_start(text, from) < text.len() ==> brackets_tell_kind(
            text,
            kind_start(text, from),
            bracket_end(text, kind_start(text, from)),
        ),
        forall|open: int, close: int|
            from <= open < kind_start(text, from) ==> !#[trigger] brackets_tell_kind(
                text,
                open,
                close,
            ),
    decreases text.len() - from,
{
    if from < text.len() {
        let rest = text.skip(from);
        lemma_find_char(rest, ')');
        let end = bracket_end(text, from);
        if kind_opens(text, from) {
            assert(text[end] == rest[end - from]);
            assert forall|k: int| from < k < end implies #[trigger] text[k] != ')' by {
                assert(rest[k - from] != ')');
            }
            assert(are_brackets(text, from, end)) by {
                assert(rest[0] == '(');
            }
        } else {
            lemma_kind_start(text, from + 1);
            assert forall|open: int, close: int|
                from <= open < kind_start(text, from) implies !#[trigger] brackets_tell_kind(
                text,
                open,
                close,
            ) by {
                if open == from && brackets_tell_kind(text, open, close) {
                    lemma_bracket_end(text, open, close);
                }
            }
        }
    }
}

/// A description is taken apart at the first brackets that tell its kind: the kind stands in them,
/// the subject before the first bracket of all, and the teacher behind them; where no brackets tell a
/// kind, all of it is the subject.
pub proof fn description_is_taken_apart_at_its_kind(text: Seq<char>)
    ensures
        match description_parts(text).kind {
            None => {
                &&& description_parts(text).subject == trimmed(text)
                &&& description_parts(text).teacher is None
                &&& forall|open: int, close: int| !#[trigger] brackets_tell_kind(text, open, close)
            },
            Some(kind) => exists|open: int, close: int|
                {
                    &&& #[trigger] brackets_tell_kind(text, open, close)
                    &&& forall|before: int, end: int|
                        before < open ==> !#[trigger] brackets_tell_kind(text, before, end)
                    &&& kind == trimmed(text.subrange(open + 1, close))
                    &&& exists|first: int|
                        {
                            &&& 0 <= first <= open
                            &&& text[first] == '('
                            &&& forall|k: int| 0 <= k < first ==> #[trigger] text[k] != '('
                            &&& description_parts(text).subject == trimmed(
                                #[trigger] text.take(first),
                            )
                        }
                    &&& description_parts(text).teacher == if trimmed(text.skip(close + 1)).len()
                        == 0 {
                        None
                    } else {
                        Some(trimmed(text.skip(close + 1)))
                    }
                },
        },
{
    lemma_kind_start(text, 0);
    let open = kind_start(text, 0);
    if open < text.len() {
        let close = bracket_end(text, open);
        assert(brackets_tell_kind(text, open, close));
        let head = text.take(open);
        lemma_find_char(head, '(');
        let first = find_char(head, '(');
        assert(head.take(first) =~= text.take(first));
        if first < head.len() {
            assert(text[first] == head[first]);
        }
        assert forall|k: int| 0 <= k < first implies #[trigger] text[k] != '(' by {
            assert(head[k] != '(');
        }
        assert(description_parts(text).subject == trimmed(text.take(first)));
    } else {
        assert forall|before: int, end: int| !#[trigger] brackets_tell_kind(text, before, end) by {
            if brackets_tell_kind(text, before, end) {
                assert(before < open);
            }
        }
    }
}

pub(crate) proof fn lemma_first_stands(before: Seq<char>, c: char, after: Seq<char>)
    requires
        forall|i: int| 0 <= i < before.len() ==> #[trigger] before[i] != c,
    ensures
        find_char(before + seq![c] + after, c) == before.len(),
        (before + seq![c] + after).take(before.len() as int) == before,
        (before + seq![c] + after).skip(before.len() as int + 1) == after,
{
    let text = before + seq![c] + after;
    lemma_find_char(text, c);
    let at = find_char(text, c);
    assert(text[before.len() as int] == c);
    if at < before.len() {
        assert(text[at] == before[at]);
    }
    assert(text.take(before.len() as int) =~= before);
    assert(text.skip(before.len() as int + 1) =~= after);
}

/// A cell without a slash names one group, which is what it says without the white space around it,
/// or none where it is blank.
pub proof fn cell_without_slash_names_one_group(value: Seq<char>)
    requires
        forall|i: int| 0 <= i < value.len() ==> #[trigger] value[i] != '/',
    ensures
        group_names(value) == if trimmed(value).len() == 0 {
            seq![]
        } else {
            seq![trimmed(value)]
        },
{
    lemma_find_char(value, '/');
    assert(split_on(value, '/') =~= seq![value]);
    reveal(Seq::filter);
    let names = split_on(value, '/').map_values(|part: Seq<char>| trimmed(part));
    let keep = |name: Seq<char>| name.len() > 0;
    let none: Seq<Seq<char>> = seq![];
    assert(names =~= seq![trimmed(value)]);
    assert(names.drop_last() =~= none);
    assert(none.filter(keep) =~= none);
    assert(names.filter(keep) =~= if trimmed(value).len() == 0 {
        none
    } else {
        none.push(trimmed(value))
    });
}

/// A slash separates groups: a cell names the groups before its first slash, then those behind it.
pub proof fn slash_separates_groups(before: Seq<char>, after: Seq<char>)
    requires
        forall|i: int| 0 <= i < before.len() ==> #[trigger] before[i] != '/',
    ensures
        group_names(before + seq!['/'] + after) == group_names(before) + group_names(after),
{
    let value = before + seq!['/'] + after;
    lemma_first_stands(before, '/', after);
    lemma_find_char(before, '/');
    assert(split_on(before, '/') =~= seq![before]);
    assert(split_on(value, '/') =~= seq![before] + split_on(after, '/'));
    let trim = |part: Seq<char>| trimmed(part);
    let keep = |name: Seq<char>| name.len() > 0;
    let first = seq![before].map_values(trim);
    let rest = split_on(after, '/').map_values(trim);
    assert(split_on(value, '/').map_values(trim) =~= first + rest);
    assert(split_on(before, '/').map_values(trim) =~= first);
    Seq::filter_distributes_over_add(first, rest, keep);
}

proof fn lemma_solid(text: Seq<char>)
    requires
        text.len() > 0,
        !is_space(text[0]),
        !is_space(text.last()),
    ensures
        trimmed(text) == text,
{
    assert(trim_start(text) == text);
    assert(trim_end(text) == text);
}

/// A text of digits in two places at least.
pub open spec fn in_two_places(digits: Seq<char>) -> Seq<char> {
    if digits.len() == 1 {
        seq!['0'] + digits
    } else {
        digits
    }
}

proof fn lemma_clock(hour: Seq<char>, minute: Seq<char>)
    requires
        hour.len() > 0,
        minute.len() > 0,
        all_digits(hour),
        all_digits(minute),
    ensures
        clock_time(hour + seq!['.'] + minute) == Some(
            in_two_places(hour) + ":"@ + in_two_places(minute),
        ),
{
    let text = hour + seq!['.'] + minute;
    assert(text[0] == hour[0] && text.last() == minute.last());
    lemma_solid(text);
    assert forall|i: int| 0 <= i < hour.len() implies #[trigger] hour[i] != '.' by {}
    lemma_first_stands(hour, '.', minute);
    assert(zero_padded(hour, 2) =~= in_two_places(hour));
    assert(zero_padded(minute, 2) =~= in_two_places(minute));
}

/// A time is read from two clocks with a hyphen between them, each of which is an hour and a minute
/// with a dot between them; hours and minutes get two places.
pub proof fn times_are_read_as_written(
    hour: Seq<char>,
    minute: Seq<char>,
    later_hour: Seq<char>,
    later_minute: Seq<char>,
)
    requires
        hour.len() > 0 && all_digits(hour),
        minute.len() > 0 && all_digits(minute),
        later_hour.len() > 0 && all_digits(later_hour),
        later_minute.len() > 0 && all_digits(later_minute),
    ensures
        time_range(
            (hour + seq!['.'] + minute) + seq!['-'] + (later_hour + seq!['.'] + later_minute),
        ) == Some(
            (
                in_two_places(hour) + ":"@ + in_two_places(minute),
                in_two_places(later_hour) + ":"@ + in_two_places(later_minute),
            ),
        ),
{
    let start = hour + seq!['.'] + minute;
    let end = later_hour + seq!['.'] + later_minute;
    let text = start + seq!['-'] + end;
    assert(text[0] == hour[0] && text.last() == later_minute.last());
    lemma_solid(text);
    assert forall|i: int| 0 <= i < start.len() implies #[trigger] start[i] != '-' by {
        if i < hour.len() {
            assert(start[i] == hour[i]);
        } else if i > hour.len() {
            assert(start[i] == minute[i - hour.len() - 1]);
        }
    }
    lemma_first_stands(start, '-', end);
    lemma_clock(hour, minute);
    lemma_clock(later_hour, later_minute);
}

pub(crate) proof fn lemma_decimal(n: nat)
    ensures
        decimal(n).len() > 0,
        all_digits(decimal(n)),
        digits_value(decimal(n)) == n,
    decreases n,
{
    if n < 10 {
        let text = seq![digit(n as int)];
        assert(text.drop_last() =~= seq![]);
        assert(digits_value(text.drop_last()) == 0);
        assert(text.last() as int == 48 + n);
    } else {
        lemma_decimal(n / 10);
        let before = decimal(n / 10);
        let text = decimal(n);
        assert(text.drop_last() =~= before);
        assert(text.last() as int == 48 + n % 10);
        assert forall|i: int| 0 <= i < text.len() implies '0' <= #[trigger] text[i] <= '9' by {
            if i < before.len() {
                assert(text[i] == before[i]);
            }
        }
    }
}

/// A number is read as it is written, where it is not above the limit.
pub proof fn numbers_are_read_as_written(n: nat, max: int)
    ensures
        unsigned_number(decimal(n), max) == if n <= max {
            Some(n as int)
        } else {
            None
        },
{
    lemma_decimal(n);
    assert('0' <= decimal(n)[0] <= '9');
}

/// Whether two letters are the same but for the case of an ASCII letter.
pub open spec fn same_letter(a: char, b: char) -> bool {
    ||| a == b
    ||| 'A' <= a <= 'Z' && b as int == a as int + 32
    ||| 'A' <= b <= 'Z' && a as int == b as int + 32
}

/// Whether two texts are the same but for the case of ASCII letters.
pub open spec fn same_but_case(a: Seq<char>, b: Seq<char>) -> bool {
    a.len() == b.len() && forall|i: int|
        0 <= i < a.len() ==> same_letter(#[trigger] a[i], b[i])
}

pub(crate) proof fn lemma_same_but_case(a: Seq<char>, b: Seq<char>)
    ensures
        ascii_lowered(a) == ascii_lowered(b) <==> same_but_case(a, b),
{
    if ascii_lowered(a) == ascii_lowered(b) {
        assert(a.len() == ascii_lowered(a).len() && b.len() == ascii_lowered(b).len());
        assert forall|i: int| 0 <= i < a.len() implies same_letter(#[trigger] a[i], b[i]) by {
            assert(ascii_lowered(a)[i] == ascii_lower(a[i]));
            assert(ascii_lowered(b)[i] == ascii_lower(b[i]));
        }
    }
    if same_but_case(a, b) {
        assert forall|i: int| 0 <= i < a.len() implies ascii_lowered(a)[i] == ascii_lowered(
            b,
        )[i] by {
            assert(same_letter(a[i], b[i]));
        }
        assert(ascii_lowered(a) =~= ascii_lowered(b));
    }
}

/// The lessons of a group are those that name it, whatever the case of ASCII letters; those of a room
/// are those that take place in it, under its shown name.
pub proof fn lessons_are_found_by_group_and_room(
    lesson: LessonView,
    group: Seq<char>,
    room: Seq<char>,
)
    ensures
        is_for_group(lesson, group) <==> exists|i: int|
            0 <= i < lesson.groups.len() && same_but_case(#[trigger] lesson.groups[i], group),
        is_in_room(lesson, room) <==> (lesson.room matches Some(own) && same_but_case(
            own,
            room_name(room),
        )),
{
    if is_for_group(lesson, group) {
        let i = choose|i: int|
            0 <= i < lesson.groups.len() && ascii_lowered(#[trigger] lesson.groups[i])
                == ascii_lowered(group);
        lemma_same_but_case(lesson.groups[i], group);
    }
    if exists|i: int|
        0 <= i < lesson.groups.len() && same_but_case(#[trigger] lesson.groups[i], group) {
        let i = choose|i: int|
            0 <= i < lesson.groups.len() && same_but_case(#[trigger] lesson.groups[i], group);
        lemma_same_but_case(lesson.groups[i], group);
    }
    if let Some(own) = lesson.room {
        lemma_same_but_case(own, room_name(room));
    }
}

/// The remote teaching mode has one label, however it is written; every other room keeps its name but
/// for the white space around it.
pub proof fn rooms_keep_their_names(room: Seq<char>)
    ensures
        lowercase(trimmed(room)) == "дот"@ ==> room_name(room) == "Удалённо"@,
        lowercase(trimmed(room)) != "дот"@ ==> room_name(room) == trimmed(room),
{
}

proof fn lemma_workbook_lessons(sheets: Seq<Seq<Seq<CellView>>>, count: int, lesson: LessonView)
    requires
        0 <= count <= sheets.len(),
    ensures
        workbook_lessons(sheets, count).contains(lesson) <==> exists|i: int|
            0 <= i < count && sheet_lessons(sheet_texts(#[trigger] sheets[i])).contains(lesson),
    decreases count,
{
    if count > 0 {
        lemma_workbook_lessons(sheets, count - 1, lesson);
        let before = workbook_lessons(sheets, count - 1);
        let own = sheet_lessons(sheet_texts(sheets[count - 1]));
        let all = workbook_lessons(sheets, count);
        if all.contains(lesson) {
            let k = choose|k: int| 0 <= k < all.len() && all[k] == lesson;
            if k < before.len() {
                assert(before[k] == lesson);
                assert(before.contains(lesson));
            } else {
                assert(own[k - before.len()] == lesson);
                assert(own.contains(lesson));
            }
        }
        if before.contains(lesson) {
            let k = choose|k: int| 0 <= k < before.len() && before[k] == lesson;
            assert(all[k] == lesson);
        }
        if own.contains(lesson) {
            let k = choose|k: int| 0 <= k < own.len() && own[k] == lesson;
            assert(all[before.len() + k] == lesson);
        }
    }
}

/// A workbook gives the lessons of its sheets and no others, in the order of their listing; it is
/// refused where no sheet holds a timetable, and where it cannot be read.
pub proof fn workbook_gives_the_lessons_of_its_sheets(
    r: Result<Vec<Lesson>, ParseError>,
    sheets: Seq<Seq<Seq<CellView>>>,
    lesson: LessonView,
)
    requires
        is_parsed(r, Ok(sheets)),
    ensures
        r is Ok <==> exists|i: int|
            0 <= i < sheets.len() && is_timetable(sheet_texts(#[trigger] sheets[i])),
        r is Err ==> r == Err::<Vec<Lesson>, ParseError>(ParseError::NoScheduleSheets),
        r matches Ok(lessons) ==> {
            &&& lessons_view(lessons@).contains(lesson) <==> exists|i: int|
                0 <= i < sheets.len() && sheet_lessons(
                    sheet_texts(#[trigger] sheets[i]),
                ).contains(lesson)
            &&& crate::lesson::is_listed(lessons_view(lessons@))
        },
{
    let count = sheets.len() as int;
    let all = workbook_lessons(sheets, count);
    lemma_workbook_lessons(sheets, count, lesson);
    listing_sorts(all);
    let listed = in_listing_order(all);
    listed.to_multiset_ensures();
    all.to_multiset_ensures();
    assert(listed.contains(lesson) <==> all.contains(lesson)) by {
        assert(listed.to_multiset().count(lesson) == all.to_multiset().count(lesson));
    }
}

/// The sheets of a workbook are read by their names, in their order; the first that cannot be read
/// says why none is given.
pub proof fn sheets_are_read_in_their_order(book: BookView, count: int)
    requires
        0 <= count <= book.names.len(),
    ensures
        match first_sheets(book, count) {
            Ok(sheets) => {
                &&& sheets.len() == count
                &&& forall|i: int|
                    0 <= i < count ==> #[trigger] book.sheets[book.names[i]] == Some(
                        Ok::<_, Seq<char>>(sheets[i]),
                    )
            },
            Err(error) => exists|i: int|
                {
                    &&& 0 <= i < count
                    &&& first_sheets(book, i) is Ok
                    &&& #[trigger] book.sheets[book.names[i]] == match error {
                        ReadError::BrokenOff => None,
                        ReadError::Unreadable(reason) => Some(Err::<Seq<Seq<CellView>>, Seq<char>>(reason)),
                    }
                },
        },
    decreases count,
{
    if count > 0 {
        sheets_are_read_in_their_order(book, count - 1);
        match first_sheets(book, count - 1) {
            Err(error) => {
                let i = choose|i: int|
                    {
                        &&& 0 <= i < count - 1
                        &&& first_sheets(book, i) is Ok
                        &&& #[trigger] book.sheets[book.names[i]] == match error {
                            ReadError::BrokenOff => None,
                            ReadError::Unreadable(reason) => Some(Err::<Seq<Seq<CellView>>, Seq<char>>(reason)),
                        }
                    };
                assert(first_sheets(book, count) == first_sheets(book, count - 1));
                assert(book.sheets[book.names[i]] == match error {
                    ReadError::BrokenOff => None,
                    ReadError::Unreadable(reason) => Some(Err::<Seq<Seq<CellView>>, Seq<char>>(reason)),
                });
            },
            Ok(before) => {
                let own = book.sheets[book.names[count - 1]];
                assert(own == book.sheets[book.names[count - 1]]);
            },
        }
    }
}

proof fn lemma_find_last(before: Seq<char>, c: char, after: Seq<char>)
    requires
        forall|i: int| 0 <= i < after.len() ==> #[trigger] after[i] != c,
    ensures
        find_last(before + seq![c] + after, c) == before.len(),
    decreases after.len(),
{
    let text = before + seq![c] + after;
    if after.len() > 0 {
        let shorter = after.drop_last();
        assert(text.last() == after.last());
        assert forall|i: int| 0 <= i < shorter.len() implies #[trigger] shorter[i] != c by {
            assert(after[i] != c);
        }
        lemma_find_last(before, c, shorter);
        assert(text.drop_last() =~= before + seq![c] + shorter);
    } else {
        assert(text.last() == c);
    }
}

/// The extension of a file is what follows the last dot of its name.
pub proof fn extension_follows_the_last_dot(stem: Seq<char>, ext: Seq<char>)
    requires
        stem.len() > 0,
        forall|i: int| 0 <= i < stem.len() ==> #[trigger] stem[i] != '/',
        ext.len() > 0,
        forall|i: int| 0 <= i < ext.len() ==> #[trigger] ext[i] != '/' && ext[i] != '.',
    ensures
        extension(stem + seq!['.'] + ext) == Some(ext),
{
    let name = stem + seq!['.'] + ext;
    lemma_find_char(name, '/');
    let at = find_char(name, '/');
    if at < name.len() {
        if at < stem.len() {
            assert(name[at] == stem[at]);
        } else if at > stem.len() {
            assert(name[at] == ext[at - stem.len() - 1]);
        }
    }
    assert(split_on(name, '/') =~= seq![name]);
    assert(seq![name].last() == name);
    reveal_strlit("");
    reveal_strlit(".");
    reveal_strlit("..");
    assert(name.len() >= 3 && name != ""@ && name != "."@ && name != ".."@);
    assert(file_name(name) == Some(name));
    lemma_find_last(stem, '.', ext);
    assert(name.skip(stem.len() as int + 1) =~= ext);
}

/// A command is read by its name, whatever the case of its letters, with or without the name of the
/// bot behind it; one for another bot is none. What follows is its argument.
pub proof fn commands_are_read_by_their_names(
    name: Seq<char>,
    mention: Seq<char>,
    argument: Seq<char>,
    bot: Seq<char>,
)
    requires
        is_word(name),
        forall|i: int| 0 <= i < name.len() ==> #[trigger] name[i] != '@',
        is_word(mention),
        is_word(argument),
    ensures
        command_in(seq!['/'] + name, bot) == Some(
            CommandView { name: ascii_lowered(name), arguments: seq![] },
        ),
        command_in(seq!['/'] + name + seq![' '] + argument, bot) == Some(
            CommandView { name: ascii_lowered(name), arguments: seq![argument] },
        ),
        same_but_case(mention, bot) ==> command_in(
            seq!['/'] + (name + seq!['@'] + mention) + seq![' '] + argument,
            bot,
        ) == Some(CommandView { name: ascii_lowered(name), arguments: seq![argument] }),
        !same_but_case(mention, bot) ==> command_in(
            seq!['/'] + (name + seq!['@'] + mention) + seq![' '] + argument,
            bot,
        ) is None,
{
    reveal_strlit("/");
    assert("/"@ =~= seq!['/']);
    let slash: Seq<char> = seq!['/'];
    let plain = slash + name;
    assert forall|i: int| 0 <= i < plain.len() implies !is_space(plain[i]) by {
        if i > 0 {
            assert(plain[i] == name[i - 1]);
        }
    }
    crate::text::lemma_word_is_read(plain);
    two_words_are_read_apart(plain, argument);
    assert(plain.take(1) =~= slash && plain.skip(1) =~= name);
    lemma_find_char(name, '@');
    assert(seq![plain].skip(1) =~= seq![]);
    assert(seq![plain, argument].skip(1) =~= seq![argument]);
    let full = name + seq!['@'] + mention;
    let called = slash + full;
    assert forall|i: int| 0 <= i < called.len() implies !is_space(called[i]) by {
        if i > 0 {
            assert(called[i] == full[i - 1]);
            if i - 1 < name.len() {
                assert(full[i - 1] == name[i - 1]);
            } else if i - 1 > name.len() {
                assert(full[i - 1] == mention[i - 2 - name.len()]);
            }
        }
    }
    two_words_are_read_apart(called, argument);
    assert(called.take(1) =~= slash && called.skip(1) =~= full);
    assert(seq![called, argument].skip(1) =~= seq![argument]);
    lemma_first_stands(name, '@', mention);
    lemma_same_but_case(mention, bot);
}

} // verus!
