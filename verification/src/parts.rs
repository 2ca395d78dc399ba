//! Cutting a long text into messages that a chat accepts.

use crate::text::{
    char_size, find_char, find_from, lemma_find_char, lemma_utf8_size_sum, push_text, slice_text,
    texts, to_chars, utf8_len, utf8_size,
};
use vstd::prelude::*;

verus! {

/// How many bytes a message made of whole lines takes at most.
pub const PART_LIMIT: usize = 3_800;

/// How many bytes a message cut out of one long line takes at most.
pub const PIECE_LIMIT: usize = 3_500;

/// A line without the carriage return at its end.
pub open spec fn without_return(line: Seq<char>) -> Seq<char> {
    if line.len() > 0 && line.last() == '\r' {
        line.drop_last()
    } else {
        line
    }
}

/// The lines of a text: each ends at a line feed, or a carriage return and a line feed, and the
/// last one may end with the text.
pub open spec fn lines_of(s: Seq<char>) -> Seq<Seq<char>>
    decreases s.len(),
    via lines_of_decreases
{
    let at = find_char(s, '\n');
    if s.len() == 0 {
        seq![]
    } else if at >= s.len() {
        seq![s]
    } else {
        seq![without_return(s.take(at))] + lines_of(s.skip(at + 1))
    }
}

#[via_fn]
proof fn lines_of_decreases(s: Seq<char>) {
    lemma_find_char(s, '\n');
}

/// The lines of a text.
pub fn lines(s: &str) -> (r: Vec<String>)
    ensures
        texts(r@) == lines_of(s@),
{
    let chars = to_chars(s);
    let total: usize = chars.len();
    let mut r: Vec<String> = Vec::new();
    let mut from: usize = 0;
    assert(chars@.skip(0) =~= chars@);
    assert(texts(r@) + lines_of(chars@.skip(0)) =~= lines_of(s@));
    while from < total
        invariant
            from <= total,
            total == chars@.len(),
            texts(r@) + lines_of(chars@.skip(from as int)) == lines_of(s@),
        decreases total - from,
    {
        let ghost rest = chars@.skip(from as int);
        let ghost before = texts(r@);
        let at = find_from(&chars, from, '\n');
        proof {
            lemma_find_char(rest, '\n');
        }
        if at == total {
            let line = slice_text(&chars, from, at);
            assert(line@ =~= rest);
            push_text(&mut r, line);
            assert(chars@.skip(total as int) =~= seq![]);
            assert(texts(r@) + lines_of(chars@.skip(total as int)) =~= before + lines_of(rest));
            from = total;
        } else {
            let end: usize = if from < at && chars[at - 1] == '\r' {
                at - 1
            } else {
                at
            };
            let line = slice_text(&chars, from, end);
            assert(line@ =~= without_return(rest.take(at - from)));
            push_text(&mut r, line);
            assert(rest.skip(at - from + 1) =~= chars@.skip(at + 1));
            assert(texts(r@) + lines_of(chars@.skip(at + 1)) =~= before + lines_of(rest));
            from = at + 1;
        }
    }
    assert(chars@.skip(from as int) =~= seq![]);
    assert(texts(r@) =~= texts(r@) + lines_of(chars@.skip(from as int)));
    r
}

/// How many characters from the start of a text take no more than `limit` bytes.
pub open spec fn fit_len(s: Seq<char>, limit: int) -> int
    decreases s.len(),
{
    if s.len() == 0 || utf8_len(s[0]) > limit {
        0
    } else {
        1 + fit_len(s.skip(1), limit - utf8_len(s[0]))
    }
}

proof fn lemma_fit_len(s: Seq<char>, limit: int)
    requires
        limit >= 0,
    ensures
        0 <= fit_len(s, limit) <= s.len(),
        utf8_size(s.take(fit_len(s, limit))) <= limit,
        s.len() > 0 && limit >= 4 ==> fit_len(s, limit) > 0,
    decreases s.len(),
{
    if s.len() == 0 || utf8_len(s[0]) > limit {
        assert(s.take(0) =~= seq![]);
    } else {
        let rest = s.skip(1);
        let left = limit - utf8_len(s[0]);
        lemma_fit_len(rest, left);
        let n = fit_len(rest, left);
        assert(s.take(n + 1) =~= seq![s[0]] + rest.take(n));
        lemma_utf8_size_sum(seq![s[0]], rest.take(n));
        assert(seq![s[0]].drop_last() =~= seq![]);
        assert(utf8_size(seq![s[0]]) == utf8_len(s[0])) by {
            reveal_with_fuel(utf8_size, 2);
        }
    }
}

/// A long line, cut into pieces that are as long as the limit allows.
pub open spec fn pieces_of(line: Seq<char>) -> Seq<Seq<char>>
    decreases line.len(),
    via pieces_of_decreases
{
    if line.len() == 0 {
        seq![]
    } else {
        let n = fit_len(line, PIECE_LIMIT as int);
        seq![line.take(n)] + pieces_of(line.skip(n))
    }
}

#[via_fn]
proof fn pieces_of_decreases(line: Seq<char>) {
    lemma_fit_len(line, PIECE_LIMIT as int);
}

fn push_pieces(parts: &mut Vec<String>, line: &Vec<char>)
    ensures
        texts(final(parts)@) == texts(old(parts)@) + pieces_of(line@),
{
    let ghost head = texts(parts@);
    let total: usize = line.len();
    let mut from: usize = 0;
    assert(line@.skip(0) =~= line@);
    while from < total
        invariant
            from <= total,
            total == line@.len(),
            texts(parts@) + pieces_of(line@.skip(from as int)) == head + pieces_of(line@),
        decreases total - from,
    {
        let ghost rest = line@.skip(from as int);
        let ghost before = texts(parts@);
        let mut to: usize = from;
        let mut left: usize = PIECE_LIMIT;
        while to < total && char_size(line[to]) <= left
            invariant
                from <= to <= total,
                total == line@.len(),
                left <= PIECE_LIMIT,
                rest == line@.skip(from as int),
                fit_len(rest, PIECE_LIMIT as int) == to - from + fit_len(
                    line@.skip(to as int),
                    left as int,
                ),
            decreases total - to,
        {
            assert(line@.skip(to as int).skip(1) =~= line@.skip(to + 1));
            left = left - char_size(line[to]);
            to += 1;
        }
        proof {
            lemma_fit_len(rest, PIECE_LIMIT as int);
        }
        let piece = slice_text(line, from, to);
        assert(piece@ =~= rest.take(to - from));
        push_text(parts, piece);
        assert(rest.skip(to - from) =~= line@.skip(to as int));
        assert(texts(parts@) + pieces_of(line@.skip(to as int)) =~= before + pieces_of(rest));
        from = to;
    }
    assert(line@.skip(from as int) =~= seq![]);
    assert(texts(parts@) =~= texts(parts@) + pieces_of(line@.skip(from as int)));
}

/// What has been cut off, and the message that the next line may still join.
#[verifier::ext_equal]
pub struct Cut {
    pub parts: Seq<Seq<char>>,
    pub open: Seq<char>,
}

/// A message with one more line.
pub open spec fn with_line(open: Seq<char>, line: Seq<char>) -> Seq<char> {
    if open.len() == 0 {
        line
    } else {
        open.push('\n') + line
    }
}

/// The cut with the open message closed, if there is one.
pub open spec fn closed(cut: Cut) -> Seq<Seq<char>> {
    if cut.open.len() > 0 {
        cut.parts.push(cut.open)
    } else {
        cut.parts
    }
}

/// Whether a line no longer fits behind the open message.
pub open spec fn overflows(open: Seq<char>, line: Seq<char>) -> bool {
    open.len() > 0 && utf8_size(open) + utf8_size(line) + 1 > PART_LIMIT
}

/// The cut after one more line.
pub open spec fn after_line(cut: Cut, line: Seq<char>) -> Cut {
    let (parts, open) = if overflows(cut.open, line) {
        (cut.parts.push(cut.open), Seq::<char>::empty())
    } else {
        (cut.parts, cut.open)
    };
    if utf8_size(line) > PART_LIMIT {
        Cut { parts: parts + pieces_of(line), open }
    } else {
        Cut { parts, open: with_line(open, line) }
    }
}

/// The cut after the first `n` lines.
pub open spec fn after_lines(lines: Seq<Seq<char>>, n: int) -> Cut
    decreases n,
{
    if n <= 0 {
        Cut { parts: seq![], open: seq![] }
    } else {
        after_line(after_lines(lines, n - 1), lines[n - 1])
    }
}

/// The messages that a text is sent in.
pub open spec fn parts_of(text: Seq<char>) -> Seq<Seq<char>> {
    let lines = lines_of(text);
    closed(after_lines(lines, lines.len() as int))
}

/// The number of bytes of a text, or `PART_LIMIT + 1` if it is larger.
fn size_up_to_limit(chars: &Vec<char>) -> (r: usize)
    ensures
        r == if utf8_size(chars@) > PART_LIMIT {
            (PART_LIMIT + 1) as nat
        } else {
            utf8_size(chars@)
        },
{
    let mut size: usize = 0;
    let mut i: usize = 0;
    assert(chars@.take(0) =~= seq![]);
    while i < chars.len()
        invariant
            i <= chars@.len(),
            size <= PART_LIMIT,
            size == utf8_size(chars@.take(i as int)),
        decreases chars@.len() - i,
    {
        proof {
            assert(chars@.take(i + 1).drop_last() =~= chars@.take(i as int));
            lemma_utf8_size_sum(chars@.take(i + 1), chars@.skip(i + 1));
            assert(chars@.take(i + 1) + chars@.skip(i + 1) =~= chars@);
        }
        size = size + char_size(chars[i]);
        if size > PART_LIMIT {
            return PART_LIMIT + 1;
        }
        i += 1;
    }
    assert(chars@.take(i as int) =~= chars@);
    size
}

/// The messages that a text is sent in.
pub fn message_parts(text: &str) -> (r: Vec<String>)
    ensures
        texts(r@) == parts_of(text@),
{
    let lines = lines(text);
    let ghost all = texts(lines@);
    let mut parts: Vec<String> = Vec::new();
    let mut open = String::new();
    let mut open_size: usize = 0;
    let mut empty = true;
    let mut i: usize = 0;
    assert(texts(parts@) =~= seq![]);
    while i < lines.len()
        invariant
            i <= lines@.len(),
            all == texts(lines@),
            texts(parts@) == after_lines(all, i as int).parts,
            open@ == after_lines(all, i as int).open,
            open_size == utf8_size(open@),
            open_size <= PART_LIMIT,
            empty == (open@.len() == 0),
        decreases lines@.len() - i,
    {
        let ghost cut = after_lines(all, i as int);
        let chars = to_chars(lines[i].as_str());
        let size: usize = size_up_to_limit(&chars);
        assert(chars@ == all[i as int]);
        assert(!empty ==> open_size > 0) by {
            if !empty {
                assert(utf8_size(open@) == utf8_size(open@.drop_last()) + utf8_len(open@.last()));
            }
        }
        if !empty && open_size + size + 1 > PART_LIMIT {
            push_text(&mut parts, open);
            open = String::new();
            open_size = 0;
            empty = true;
        }
        assert(open@ == if overflows(cut.open, chars@) {
            Seq::<char>::empty()
        } else {
            cut.open
        });
        if size > PART_LIMIT {
            push_pieces(&mut parts, &chars);
        } else {
            let ghost before = open@;
            if !empty {
                open.push('\n');
                open_size = open_size + 1;
                proof {
                    assert(before.push('\n').drop_last() =~= before);
                }
            } else {
                assert(before =~= seq![]);
            }
            let ghost joint = open@;
            open.append(lines[i].as_str());
            proof {
                lemma_utf8_size_sum(joint, chars@);
                assert(open@ =~= with_line(before, chars@));
            }
            open_size = open_size + size;
            empty = empty && chars.len() == 0;
        }
        i += 1;
    }
    if !empty {
        push_text(&mut parts, open);
    }
    parts
}

/// The texts of a list, one after the other.
pub open spec fn concatenated(list: Seq<Seq<char>>) -> Seq<char>
    decreases list.len(),
{
    if list.len() == 0 {
        seq![]
    } else {
        concatenated(list.drop_last()) + list.last()
    }
}

proof fn lemma_concatenated_sum(a: Seq<Seq<char>>, b: Seq<Seq<char>>)
    ensures
        concatenated(a + b) == concatenated(a) + concatenated(b),
    decreases b.len(),
{
    if b.len() == 0 {
        assert(a + b =~= a);
        assert(concatenated(a) + concatenated(b) =~= concatenated(a));
    } else {
        assert((a + b).drop_last() =~= a + b.drop_last());
        lemma_concatenated_sum(a, b.drop_last());
        assert(concatenated(a + b) =~= concatenated(a) + concatenated(b));
    }
}

/// A text without its line feeds.
pub open spec fn letters(s: Seq<char>) -> Seq<char>
    decreases s.len(),
{
    if s.len() == 0 {
        seq![]
    } else if s.last() == '\n' {
        letters(s.drop_last())
    } else {
        letters(s.drop_last()).push(s.last())
    }
}

proof fn lemma_letters_sum(a: Seq<char>, b: Seq<char>)
    ensures
        letters(a + b) == letters(a) + letters(b),
    decreases b.len(),
{
    if b.len() == 0 {
        assert(a + b =~= a);
        assert(letters(a) + letters(b) =~= letters(a));
    } else {
        assert((a + b).drop_last() =~= a + b.drop_last());
        lemma_letters_sum(a, b.drop_last());
        assert(letters(a + b) =~= letters(a) + letters(b));
    }
}

proof fn lemma_letters_of_line(s: Seq<char>)
    requires
        forall|i: int| 0 <= i < s.len() ==> s[i] != '\n',
    ensures
        letters(s) == s,
    decreases s.len(),
{
    if s.len() > 0 {
        lemma_letters_of_line(s.drop_last());
        assert(letters(s) =~= s);
    }
}

proof fn lemma_line_has_no_feed(s: Seq<char>, i: int)
    requires
        0 <= i < lines_of(s).len(),
    ensures
        letters(lines_of(s)[i]) == lines_of(s)[i],
    decreases s.len(),
{
    let at = find_char(s, '\n');
    lemma_find_char(s, '\n');
    if at >= s.len() {
        lemma_letters_of_line(s);
    } else if i == 0 {
        lemma_letters_of_line(without_return(s.take(at)));
    } else {
        lemma_line_has_no_feed(s.skip(at + 1), i - 1);
    }
}

pub(crate) proof fn lemma_pieces(line: Seq<char>)
    ensures
        concatenated(pieces_of(line)) == line,
        forall|i: int|
            0 <= i < pieces_of(line).len() ==> 0 < (#[trigger] pieces_of(line)[i]).len()
                && utf8_size(pieces_of(line)[i]) <= PIECE_LIMIT,
    decreases line.len(),
{
    if line.len() == 0 {
        assert(concatenated(pieces_of(line)) =~= line);
    } else {
        let n = fit_len(line, PIECE_LIMIT as int);
        lemma_fit_len(line, PIECE_LIMIT as int);
        let rest = line.skip(n);
        lemma_pieces(rest);
        let first: Seq<Seq<char>> = seq![line.take(n)];
        lemma_concatenated_sum(first, pieces_of(rest));
        assert(first.drop_last() =~= seq![]);
        assert(concatenated(first) =~= line.take(n)) by {
            reveal_with_fuel(concatenated, 2);
        }
        assert(line.take(n) + rest =~= line);
        assert forall|i: int| 0 <= i < pieces_of(line).len() implies 0 < (
        #[trigger] pieces_of(line)[i]).len() && utf8_size(pieces_of(line)[i]) <= PIECE_LIMIT by {
            if i > 0 {
                assert(pieces_of(line)[i] == pieces_of(rest)[i - 1]);
            }
        }
    }
}

/// Whether a message has some text and keeps within the limit.
pub open spec fn is_short(part: Seq<char>) -> bool {
    0 < part.len() && utf8_size(part) <= PART_LIMIT
}

proof fn lemma_cut(lines: Seq<Seq<char>>, n: int)
    requires
        0 <= n <= lines.len(),
        forall|i: int| 0 <= i < lines.len() ==> letters(#[trigger] lines[i]) == lines[i],
    ensures
        forall|i: int|
            0 <= i < after_lines(lines, n).parts.len() ==> is_short(
                #[trigger] after_lines(lines, n).parts[i],
            ),
        utf8_size(after_lines(lines, n).open) <= PART_LIMIT,
        letters(concatenated(after_lines(lines, n).parts) + after_lines(lines, n).open)
            == concatenated(lines.take(n)),
    decreases n,
{
    if n == 0 {
        assert(lines.take(0) =~= seq![]);
        assert(concatenated(after_lines(lines, 0).parts) + after_lines(lines, 0).open =~= seq![]);
    } else {
        lemma_cut(lines, n - 1);
        let cut = after_lines(lines, n - 1);
        let next = after_lines(lines, n);
        let line = lines[n - 1];
        assert(lines.take(n).drop_last() =~= lines.take(n - 1));
        assert(concatenated(lines.take(n)) == concatenated(lines.take(n - 1)) + line);
        lemma_pieces(line);
        let (parts, open) = if overflows(cut.open, line) {
            (cut.parts.push(cut.open), Seq::<char>::empty())
        } else {
            (cut.parts, cut.open)
        };
        assert(concatenated(parts) + open =~= concatenated(cut.parts) + cut.open) by {
            assert(cut.parts.push(cut.open).drop_last() =~= cut.parts);
        }
        let held = concatenated(parts) + open;
        if utf8_size(line) > PART_LIMIT {
            assert(open =~= seq![]);
            lemma_concatenated_sum(parts, pieces_of(line));
            assert(concatenated(next.parts) + next.open =~= held + line);
            lemma_letters_sum(held, line);
        } else {
            let feed: Seq<char> = seq!['\n'];
            if open.len() == 0 {
                assert(concatenated(next.parts) + next.open =~= held + line);
                lemma_letters_sum(held, line);
            } else {
                assert(concatenated(next.parts) + next.open =~= held + (feed + line));
                lemma_letters_sum(held, feed + line);
                lemma_letters_sum(feed, line);
                assert(feed.drop_last() =~= seq![]);
                assert(letters(feed) =~= seq![]) by {
                    reveal_with_fuel(letters, 2);
                }
                assert(letters(feed) + letters(line) =~= letters(line));
                assert(open.push('\n').drop_last() =~= open);
                lemma_utf8_size_sum(open.push('\n'), line);
            }
        }
    }
}

/// Every message has some text and keeps within the limit.
pub proof fn parts_are_short(text: Seq<char>)
    ensures
        forall|i: int| 0 <= i < parts_of(text).len() ==> is_short(#[trigger] parts_of(text)[i]),
{
    let lines = lines_of(text);
    assert forall|i: int| 0 <= i < lines.len() implies letters(#[trigger] lines[i])
        == lines[i] by {
        lemma_line_has_no_feed(text, i);
    }
    lemma_cut(lines, lines.len() as int);
}

/// Nothing but line breaks is lost: the messages one after the other hold the characters of the
/// text's lines, in order.
pub proof fn parts_keep_the_text(text: Seq<char>)
    ensures
        letters(concatenated(parts_of(text))) == concatenated(lines_of(text)),
{
    let lines = lines_of(text);
    assert forall|i: int| 0 <= i < lines.len() implies letters(#[trigger] lines[i])
        == lines[i] by {
        lemma_line_has_no_feed(text, i);
    }
    lemma_cut(lines, lines.len() as int);
    let cut = after_lines(lines, lines.len() as int);
    assert(cut.parts.push(cut.open).drop_last() =~= cut.parts);
    assert(concatenated(cut.parts) + cut.open =~= concatenated(closed(cut)));
    assert(lines.take(lines.len() as int) =~= lines);
}

} // verus!
