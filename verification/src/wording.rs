//! How texts are trimmed, split and ordered, and how long ones are cut into messages.

use crate::lesson::{in_listing_order, listing_sorts, texts_lt, LessonView};
use crate::parts::{
    after_line, after_lines, fit_len, lines_of, overflows, parts_of, pieces_of, with_line,
    without_return, PART_LIMIT, PIECE_LIMIT,
};
use crate::parser::CellView;
use crate::text::{
    find_char, is_space, joined, lemma_find_char, lemma_text_order_total, lemma_utf8_size_sum,
    split_on, text_lt, trim_end, trim_start, trimmed, utf8_len, utf8_size,
};
use vstd::prelude::*;

verus! {

/// Whether a text is all white space.
pub open spec fn is_spaces(s: Seq<char>) -> bool {
    forall|i: int| 0 <= i < s.len() ==> is_space(#[trigger] s[i])
}

proof fn lemma_trim_start_spaces(before: Seq<char>, text: Seq<char>)
    requires
        is_spaces(before),
        text.len() > 0 ==> !is_space(text[0]),
    ensures
        trim_start(before + text) == text,
    decreases before.len(),
{
    if before.len() == 0 {
        assert(before + text =~= text);
    } else {
        assert((before + text)[0] == before[0]);
        assert((before + text).skip(1) =~= before.skip(1) + text);
        lemma_trim_start_spaces(before.skip(1), text);
    }
}

proof fn lemma_trim_end_spaces(text: Seq<char>, after: Seq<char>)
    requires
        is_spaces(after),
        text.len() > 0 ==> !is_space(text.last()),
    ensures
        trim_end(text + after) == text,
    decreases after.len(),
{
    if after.len() == 0 {
        assert(text + after =~= text);
    } else {
        assert((text + after).last() == after.last());
        assert((text + after).drop_last() =~= text + after.drop_last());
        lemma_trim_end_spaces(text, after.drop_last());
    }
}

/// Trimming takes the white space around a text, all of it, and nothing else.
pub proof fn trimming_takes_the_space_around(before: Seq<char>, text: Seq<char>, after: Seq<char>)
    requires
        is_spaces(before),
        is_spaces(after),
        text.len() > 0 ==> !is_space(text[0]) && !is_space(text.last()),
    ensures
        trimmed(before + text + after) == text,
{
    if text.len() == 0 {
        let none: Seq<char> = seq![];
        assert(before + text + after =~= before + after + none);
        assert(is_spaces(before + after));
        lemma_trim_start_spaces(before + after, none);
        assert(text =~= none);
    } else {
        assert(before + text + after =~= before + (text + after));
        assert((text + after)[0] == text[0]);
        lemma_trim_start_spaces(before, text + after);
        lemma_trim_end_spaces(text, after);
    }
}

/// A cell says what stands in it, text or value, without the white space around it; an empty cell says
/// nothing.
pub proof fn cells_say_what_stands_in_them(before: Seq<char>, text: Seq<char>, after: Seq<char>)
    requires
        is_spaces(before),
        is_spaces(after),
        text.len() > 0 ==> !is_space(text[0]) && !is_space(text.last()),
    ensures
        CellView::Text(before + text + after).text() == text,
        CellView::Value(before + text + after).text() == text,
        CellView::Empty.text().len() == 0,
{
    trimming_takes_the_space_around(before, text, after);
}

proof fn lemma_joined_first(first: Seq<char>, rest: Seq<Seq<char>>, separator: Seq<char>)
    requires
        rest.len() > 0,
    ensures
        joined(seq![first] + rest, separator) == first + separator + joined(rest, separator),
    decreases rest.len(),
{
    let all = seq![first] + rest;
    if rest.len() == 1 {
        assert(all.drop_last() =~= seq![first]);
        assert(joined(all.drop_last(), separator) == first);
        assert(all.last() == rest[0]);
    } else {
        assert(all.drop_last() =~= seq![first] + rest.drop_last());
        lemma_joined_first(first, rest.drop_last(), separator);
        assert(joined(all, separator) =~= first + separator + joined(rest, separator));
    }
}

/// Splitting a text at a character keeps all of it: the pieces do not hold the character, and with it
/// between them they make the text again.
pub proof fn pieces_make_the_text_again(s: Seq<char>, c: char)
    ensures
        split_on(s, c).len() > 0,
        joined(split_on(s, c), seq![c]) == s,
        forall|i: int| 0 <= i < split_on(s, c).len() ==> !(#[trigger] split_on(s, c)[i]).contains(c),
    decreases s.len(),
{
    let i = find_char(s, c);
    lemma_find_char(s, c);
    if i < s.len() {
        let rest = s.skip(i + 1);
        pieces_make_the_text_again(rest, c);
        lemma_joined_first(s.take(i), split_on(rest, c), seq![c]);
        assert(s.take(i) + seq![c] + rest =~= s);
        assert forall|k: int| 0 <= k < split_on(s, c).len() implies !(
        #[trigger] split_on(s, c)[k]).contains(c) by {
            if k > 0 {
                assert(split_on(s, c)[k] == split_on(rest, c)[k - 1]);
            }
        }
    }
}

/// Texts are ordered by the first character in which they differ; one that another begins with comes
/// before it.
pub proof fn texts_are_ordered_by_their_first_difference(a: Seq<char>, b: Seq<char>, i: int)
    requires
        0 <= i <= a.len(),
        i < b.len(),
        a.take(i) == b.take(i),
        i < a.len() ==> a[i] != b[i],
    ensures
        text_lt(a, b) <==> i == a.len() || a[i] < b[i],
    decreases i,
{
    if i > 0 {
        assert(a[0] == a.take(i)[0] && b[0] == b.take(i)[0]);
        assert(a.skip(1).take(i - 1) =~= a.take(i).skip(1));
        assert(b.skip(1).take(i - 1) =~= b.take(i).skip(1));
        texts_are_ordered_by_their_first_difference(a.skip(1), b.skip(1), i - 1);
    }
}

/// Listed lessons go by date, those of one date by the time they begin, those of one time by their
/// groups, and those of the same groups by their subject.
pub proof fn listing_goes_by_date_and_time(lessons: Seq<LessonView>, i: int, j: int)
    requires
        0 <= i < j < lessons.len(),
    ensures
        ({
            let a = in_listing_order(lessons)[i];
            let b = in_listing_order(lessons)[j];
            &&& a.date == b.date || a.date.before(b.date)
            &&& a.date == b.date ==> a.start_time == b.start_time || text_lt(
                a.start_time,
                b.start_time,
            )
            &&& a.date == b.date && a.start_time == b.start_time ==> a.groups == b.groups
                || texts_lt(a.groups, b.groups)
            &&& a.date == b.date && a.start_time == b.start_time && a.groups == b.groups
                ==> a.subject == b.subject || text_lt(a.subject, b.subject)
        }),
{
    listing_sorts(lessons);
    let a = in_listing_order(lessons)[i];
    let b = in_listing_order(lessons)[j];
    crate::lesson::lemma_listing_total(a, b);
    lemma_text_order_total(a.start_time, b.start_time);
    lemma_text_order_total(a.subject, b.subject);
}

proof fn lemma_lines_plain(text: Seq<char>)
    requires
        text.len() > 0,
        text.last() != '\n',
        !text.contains('\r'),
    ensures
        lines_of(text).len() > 0,
        joined(lines_of(text), seq!['\n']) == text,
    decreases text.len(),
{
    let at = find_char(text, '\n');
    lemma_find_char(text, '\n');
    if at < text.len() {
        let rest = text.skip(at + 1);
        let line = text.take(at);
        if line.len() > 0 {
            assert(text.contains(text[at - 1]));
        }
        assert(without_return(line) == line);
        assert(rest.last() == text.last());
        assert forall|k: int| 0 <= k < rest.len() implies rest[k] != '\r' by {
            assert(text.contains(text[at + 1 + k]));
        }
        lemma_lines_plain(rest);
        lemma_joined_first(line, lines_of(rest), seq!['\n']);
        assert(line + seq!['\n'] + rest =~= text);
    }
}

proof fn lemma_joined_begins(list: Seq<Seq<char>>, n: int, separator: Seq<char>)
    requires
        0 < n <= list.len(),
    ensures
        joined(list.take(n), separator).is_prefix_of(joined(list, separator)),
    decreases list.len(),
{
    if n == list.len() {
        assert(list.take(n) =~= list);
    } else {
        lemma_joined_begins(list.drop_last(), n, separator);
        assert(list.drop_last().take(n) =~= list.take(n));
        let head = joined(list.take(n), separator);
        let all = joined(list, separator);
        assert(head =~= all.take(head.len() as int));
    }
}

proof fn lemma_size_of_prefix(a: Seq<char>, b: Seq<char>)
    requires
        a.is_prefix_of(b),
    ensures
        utf8_size(a) <= utf8_size(b),
{
    lemma_utf8_size_sum(a, b.skip(a.len() as int));
    assert(a + b.skip(a.len() as int) =~= b);
}

proof fn lemma_all_open(lines: Seq<Seq<char>>, n: int)
    requires
        0 < n <= lines.len(),
        lines[0].len() > 0,
        utf8_size(joined(lines, seq!['\n'])) <= PART_LIMIT,
    ensures
        after_lines(lines, n).parts == Seq::<Seq<char>>::empty(),
        after_lines(lines, n).open == joined(lines.take(n), seq!['\n']),
        after_lines(lines, n).open.len() > 0,
    decreases n,
{
    let feed: Seq<char> = seq!['\n'];
    let text = joined(lines.take(n), feed);
    lemma_joined_begins(lines, n, feed);
    lemma_size_of_prefix(text, joined(lines, feed));
    let line = lines[n - 1];
    if n == 1 {
        reveal_with_fuel(after_lines, 2);
        assert(lines.take(1) =~= seq![line]);
    } else {
        lemma_all_open(lines, n - 1);
        let open = after_lines(lines, n - 1).open;
        assert(lines.take(n).drop_last() =~= lines.take(n - 1));
        assert(text == open + feed + line);
        lemma_utf8_size_sum(open + feed, line);
        lemma_utf8_size_sum(open, feed);
        assert(utf8_size(feed) == 1) by {
            assert(feed.drop_last() =~= seq![]);
            reveal_with_fuel(utf8_size, 2);
        }
        assert(!overflows(open, line));
        assert(with_line(open, line) =~= text);
    }
}

/// A text that fits into one message is sent in one, as it is.
pub proof fn short_text_is_one_message(text: Seq<char>)
    requires
        text.len() > 0,
        text[0] != '\n',
        text.last() != '\n',
        !text.contains('\r'),
        utf8_size(text) <= PART_LIMIT,
    ensures
        parts_of(text) == seq![text],
{
    lemma_lines_plain(text);
    let lines = lines_of(text);
    lemma_find_char(text, '\n');
    let at = find_char(text, '\n');
    assert(lines[0].len() > 0) by {
        if at < text.len() {
            assert(at > 0);
            assert(text.contains(text[at - 1]));
            assert(text.take(at).last() == text[at - 1]);
        }
    }
    lemma_all_open(lines, lines.len() as int);
    assert(lines.take(lines.len() as int) =~= lines);
    assert(parts_of(text) =~= seq![text]);
}

proof fn lemma_no_neighbours(lines: Seq<Seq<char>>, n: int)
    requires
        0 <= n <= lines.len(),
        forall|i: int| 0 <= i < lines.len() ==> utf8_size(#[trigger] lines[i]) <= PART_LIMIT,
    ensures
        ({
            let cut = after_lines(lines, n);
            &&& forall|i: int|
                0 <= i < cut.parts.len() - 1 ==> utf8_size(#[trigger] cut.parts[i]) + 1 + utf8_size(
                    cut.parts[i + 1],
                ) > PART_LIMIT
            &&& cut.parts.len() > 0 ==> utf8_size(cut.parts.last()) + 1 + utf8_size(cut.open)
                > PART_LIMIT
        }),
    decreases n,
{
    if n > 0 {
        lemma_no_neighbours(lines, n - 1);
        let cut = after_lines(lines, n - 1);
        let line = lines[n - 1];
        let next = after_line(cut, line);
        if overflows(cut.open, line) {
            assert(with_line(Seq::<char>::empty(), line) == line);
            assert(next.parts == cut.parts.push(cut.open));
        } else if cut.open.len() > 0 {
            lemma_utf8_size_sum(cut.open.push('\n'), line);
            assert(cut.open.push('\n').drop_last() =~= cut.open);
        } else {
            assert(utf8_size(cut.open) == 0);
        }
    }
}

/// Messages are cut only where they are full: of a text without overlong lines no message would fit
/// into one with the message after it.
pub proof fn messages_are_cut_where_they_are_full(text: Seq<char>, i: int)
    requires
        0 <= i < parts_of(text).len() - 1,
        forall|k: int|
            0 <= k < lines_of(text).len() ==> utf8_size(#[trigger] lines_of(text)[k]) <= PART_LIMIT,
    ensures
        utf8_size(parts_of(text)[i]) + 1 + utf8_size(parts_of(text)[i + 1]) > PART_LIMIT,
{
    let lines = lines_of(text);
    lemma_no_neighbours(lines, lines.len() as int);
}

proof fn lemma_fit_len_is_all_that_fits(s: Seq<char>, limit: int)
    requires
        limit >= 0,
    ensures
        0 <= fit_len(s, limit) <= s.len(),
        fit_len(s, limit) < s.len() ==> utf8_size(s.take(fit_len(s, limit))) + utf8_len(
            s[fit_len(s, limit)],
        ) > limit,
    decreases s.len(),
{
    if s.len() == 0 || utf8_len(s[0]) > limit {
        assert(s.take(0) =~= seq![]);
    } else {
        let rest = s.skip(1);
        let left = limit - utf8_len(s[0]);
        lemma_fit_len_is_all_that_fits(rest, left);
        let n = fit_len(rest, left);
        assert(s.take(n + 1) =~= seq![s[0]] + rest.take(n));
        lemma_utf8_size_sum(seq![s[0]], rest.take(n));
        assert(seq![s[0]].drop_last() =~= seq![]);
        assert(utf8_size(seq![s[0]]) == utf8_len(s[0])) by {
            reveal_with_fuel(utf8_size, 2);
        }
    }
}

/// An overlong line is cut as late as its pieces allow: none could take the first character of the
/// next.
pub proof fn long_lines_are_cut_late(line: Seq<char>, i: int)
    requires
        0 <= i < pieces_of(line).len() - 1,
    ensures
        pieces_of(line)[i + 1].len() > 0,
        utf8_size(pieces_of(line)[i]) + utf8_len(pieces_of(line)[i + 1][0]) > PIECE_LIMIT,
    decreases line.len(),
{
    let n = fit_len(line, PIECE_LIMIT as int);
    lemma_fit_len_is_all_that_fits(line, PIECE_LIMIT as int);
    let rest = line.skip(n);
    assert(rest.len() > 0) by {
        if rest.len() == 0 {
            assert(pieces_of(rest).len() == 0);
        }
    }
    if i == 0 {
        let m = fit_len(rest, PIECE_LIMIT as int);
        lemma_fit_len_is_all_that_fits(rest, PIECE_LIMIT as int);
        if m == 0 {
            assert(rest.take(0) =~= seq![]);
        }
        assert(pieces_of(line)[1] == pieces_of(rest)[0]);
        assert(pieces_of(rest)[0] == rest.take(m));
        assert(rest.take(m)[0] == line[n]);
    } else {
        if n == 0 {
            assert(line.take(0) =~= seq![]);
        }
        long_lines_are_cut_late(rest, i - 1);
        assert(pieces_of(line)[i] == pieces_of(rest)[i - 1]);
        assert(pieces_of(line)[i + 1] == pieces_of(rest)[i]);
    }
}

} // verus!
