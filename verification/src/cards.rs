//! The picture of a timetable: a card for each lesson under the heading of its day.

use crate::date::dotted;
use crate::draw::{
    disc, draws, filled, label, outline, push_disc, push_filled, push_label, push_outline, Color,
    Draw, DrawView,
};
use crate::format::opens_day;
use crate::lesson::{borrowed_view, Lesson, LessonView};
use crate::text::{concat2, concat3, decimal, decimal_text, join, joined, push_text, text_of, texts};
use vstd::prelude::*;

verus! {

/// The width of the picture.
pub const WIDTH: u32 = 1_400;

/// The space on both sides of the cards.
pub const PADDING: u32 = 48;

/// The width of what is written on a card.
pub const TEXT_WIDTH: u32 = 1_268;

/// The size of the texts.
pub const TEXT_SIZE: u32 = 22;

/// The size of the texts on chips.
pub const CHIP_SIZE: u32 = 17;

/// What the picture is filled with at first.
pub fn background_color() -> (r: Color)
    ensures
        r == (247u8, 249u8, 252u8),
{
    (247, 249, 252)
}

/// A coloured label on a card.
#[derive(Debug)]
pub struct Chip {
    pub label: String,
    pub background: Color,
    pub foreground: Color,
}

/// The contents of a `Chip`.
pub struct ChipView {
    pub label: Seq<char>,
    pub background: Color,
    pub foreground: Color,
}

impl View for Chip {
    type V = ChipView;

    open spec fn view(&self) -> ChipView {
        ChipView {
            label: self.label@,
            background: self.background,
            foreground: self.foreground,
        }
    }
}

/// The contents of a list of chips.
pub open spec fn chips_view(chips: Seq<Chip>) -> Seq<ChipView> {
    chips.map_values(|chip: Chip| chip@)
}

/// The chip of an optional part of a lesson.
pub open spec fn optional_chip(
    name: Seq<char>,
    part: Option<Seq<char>>,
    background: Color,
    foreground: Color,
) -> Seq<ChipView> {
    match part {
        Some(text) => seq![ChipView { label: name + text, background, foreground }],
        None => seq![],
    }
}

/// The chips of a lesson: its type, its teacher and its room.
pub open spec fn chips_of(lesson: LessonView) -> Seq<ChipView> {
    optional_chip("Вид: "@, lesson.lesson_type, (237, 233, 254), (91, 55, 145)) + optional_chip(
        "Преподаватель: "@,
        lesson.teacher,
        (220, 245, 235),
        (35, 111, 81),
    ) + optional_chip("Аудитория: "@, lesson.room, (255, 237, 213), (148, 78, 24))
}

fn push_chip(
    chips: &mut Vec<Chip>,
    name: &str,
    part: &Option<String>,
    background: Color,
    foreground: Color,
)
    ensures
        chips_view(final(chips)@) == chips_view(old(chips)@) + optional_chip(
            name@,
            text_of(*part),
            background,
            foreground,
        ),
{
    let ghost before = chips@;
    match part {
        Some(text) => {
            chips.push(Chip { label: concat2(name, text.as_str()), background, foreground });
        },
        None => {},
    }
    assert(chips_view(chips@) =~= chips_view(before) + optional_chip(
        name@,
        text_of(*part),
        background,
        foreground,
    ));
}

/// The chips of a lesson: its type, its teacher and its room.
pub fn lesson_chips(lesson: &Lesson) -> (r: Vec<Chip>)
    ensures
        chips_view(r@) == chips_of(lesson@),
{
    let mut chips: Vec<Chip> = Vec::new();
    assert(chips_view(chips@) =~= seq![]);
    push_chip(&mut chips, "Вид: ", &lesson.lesson_type, (237, 233, 254), (91, 55, 145));
    push_chip(&mut chips, "Преподаватель: ", &lesson.teacher, (220, 245, 235), (35, 111, 81));
    push_chip(&mut chips, "Аудитория: ", &lesson.room, (255, 237, 213), (148, 78, 24));
    assert(chips_view(chips@) =~= chips_of(lesson@));
    chips
}

/// How far the placing of things in rows has come: the number of things in each full row, and the
/// number and the width of those in the open one.
#[verifier::ext_equal]
pub struct Rows {
    pub full: Seq<int>,
    pub open: int,
    pub used: int,
}

/// The rows after one more thing of a width.
pub open spec fn after_thing(rows: Rows, width: int, gap: int, max_width: int) -> Rows {
    let next = if rows.open == 0 {
        width
    } else {
        rows.used + gap + width
    };
    if rows.open > 0 && next > max_width {
        Rows { full: rows.full.push(rows.open), open: 1, used: width }
    } else {
        Rows { full: rows.full, open: rows.open + 1, used: next }
    }
}

/// The rows after the first `n` things.
pub open spec fn after_things(widths: Seq<int>, n: int, gap: int, max_width: int) -> Rows
    decreases n,
{
    if n <= 0 {
        Rows { full: seq![], open: 0, used: 0 }
    } else {
        after_thing(after_things(widths, n - 1, gap, max_width), widths[n - 1], gap, max_width)
    }
}

/// How many things stand in each row.
pub open spec fn row_lengths(widths: Seq<int>, gap: int, max_width: int) -> Seq<int> {
    let rows = after_things(widths, widths.len() as int, gap, max_width);
    if rows.open > 0 {
        rows.full.push(rows.open)
    } else {
        rows.full
    }
}

/// The space between two chips.
pub const CHIP_GAP: u32 = 10;

/// What a chip is wider than its label.
pub const CHIP_MARGIN: u32 = 28;

/// The widths of chips with labels of given widths.
pub open spec fn chip_widths(labels: Seq<u32>) -> Seq<int> {
    labels.map_values(|width: u32| width + CHIP_MARGIN)
}

/// How many chips stand in each row, where the labels have given widths.
pub open spec fn chip_rows(labels: Seq<u32>, max_width: int) -> Seq<int> {
    row_lengths(chip_widths(labels), CHIP_GAP as int, max_width)
}

/// A list of numbers.
pub open spec fn counts(list: Seq<usize>) -> Seq<int> {
    list.map_values(|n: usize| n as int)
}

/// How many chips stand in each row, where the labels have given widths.
pub fn wrap_chips(labels: &Vec<u32>, max_width: u32) -> (r: Vec<usize>)
    ensures
        counts(r@) == chip_rows(labels@, max_width as int),
{
    let ghost widths = chip_widths(labels@);
    let mut full: Vec<usize> = Vec::new();
    let mut open: usize = 0;
    let mut used: u64 = 0;
    let mut i: usize = 0;
    assert(counts(full@) =~= seq![]);
    while i < labels.len()
        invariant
            i <= labels@.len(),
            widths == chip_widths(labels@),
            counts(full@) == after_things(
                widths,
                i as int,
                CHIP_GAP as int,
                max_width as int,
            ).full,
            open == after_things(widths, i as int, CHIP_GAP as int, max_width as int).open,
            used == after_things(widths, i as int, CHIP_GAP as int, max_width as int).used,
            open <= i,
            used <= 0x2_0000_0000,
        decreases labels@.len() - i,
    {
        let width: u64 = labels[i] as u64 + CHIP_MARGIN as u64;
        assert(width == widths[i as int]);
        let next: u64 = if open == 0 {
            width
        } else {
            used + CHIP_GAP as u64 + width
        };
        if open > 0 && next > max_width as u64 {
            let ghost before = full@;
            full.push(open);
            assert(counts(full@) =~= counts(before).push(open as int));
            used = width;
            open = 1;
        } else {
            used = next;
            open = open + 1;
        }
        i += 1;
    }
    if open > 0 {
        let ghost before = full@;
        full.push(open);
        assert(counts(full@) =~= counts(before).push(open as int));
    }
    full
}

/// The sum of a list.
pub open spec fn sum_of(list: Seq<int>) -> int
    decreases list.len(),
{
    if list.len() == 0 {
        0
    } else {
        sum_of(list.drop_last()) + list.last()
    }
}

/// The width that neighbouring things take, with the gaps between them.
pub open spec fn width_of(widths: Seq<int>, gap: int) -> int
    decreases widths.len(),
{
    if widths.len() == 0 {
        0
    } else if widths.len() == 1 {
        widths[0]
    } else {
        width_of(widths.drop_last(), gap) + gap + widths.last()
    }
}

proof fn lemma_rows(widths: Seq<int>, n: int, gap: int, max_width: int)
    requires
        0 <= n <= widths.len(),
    ensures
        ({
            let rows = after_things(widths, n, gap, max_width);
            &&& sum_of(rows.full) + rows.open == n
            &&& 0 <= rows.open <= n
            &&& n > 0 ==> rows.open > 0
            &&& forall|i: int| 0 <= i < rows.full.len() ==> #[trigger] rows.full[i] > 0
            &&& rows.used == width_of(widths.subrange(n - rows.open, n), gap)
            &&& rows.open > 1 ==> rows.used <= max_width
        }),
    decreases n,
{
    if n > 0 {
        lemma_rows(widths, n - 1, gap, max_width);
        let before = after_things(widths, n - 1, gap, max_width);
        let rows = after_things(widths, n, gap, max_width);
        assert(before.full.push(before.open).drop_last() =~= before.full);
        let own = widths.subrange(n - rows.open, n);
        if rows.open == 1 {
            assert(own =~= seq![widths[n - 1]]);
        } else {
            assert(own.drop_last() =~= widths.subrange(n - 1 - before.open, n - 1));
        }
    } else {
        assert(widths.subrange(0, 0) =~= seq![]);
    }
}

proof fn lemma_full_rows_fit(widths: Seq<int>, n: int, gap: int, max_width: int, row: int)
    requires
        0 <= n <= widths.len(),
        0 <= row < after_things(widths, n, gap, max_width).full.len(),
    ensures
        ({
            let full = after_things(widths, n, gap, max_width).full;
            let from = sum_of(full.take(row));
            &&& 0 <= from <= from + full[row] <= n
            &&& full[row] > 1 ==> width_of(widths.subrange(from, from + full[row]), gap)
                <= max_width
        }),
    decreases n,
{
    if n > 0 {
        let before = after_things(widths, n - 1, gap, max_width);
        let full = after_things(widths, n, gap, max_width).full;
        lemma_rows(widths, n - 1, gap, max_width);
        if row < before.full.len() {
            lemma_full_rows_fit(widths, n - 1, gap, max_width, row);
            assert(full.take(row) =~= before.full.take(row));
        } else {
            assert(full.take(row) =~= before.full);
        }
    }
}

/// Chips are placed without loss and without overlap: the rows hold all of them in order, none is
/// empty, and a row with more than one chip fits the width.
pub proof fn chip_rows_hold_all_and_fit(labels: Seq<u32>, max_width: int, row: int)
    requires
        0 <= row < chip_rows(labels, max_width).len(),
    ensures
        sum_of(chip_rows(labels, max_width)) == labels.len(),
        chip_rows(labels, max_width)[row] > 0,
        chip_rows(labels, max_width)[row] > 1 ==> width_of(
            chip_widths(labels).subrange(
                sum_of(chip_rows(labels, max_width).take(row)),
                sum_of(chip_rows(labels, max_width).take(row)) + chip_rows(labels, max_width)[row],
            ),
            CHIP_GAP as int,
        ) <= max_width,
{
    let widths = chip_widths(labels);
    let n = widths.len() as int;
    let gap = CHIP_GAP as int;
    let rows = after_things(widths, n, gap, max_width);
    let all = chip_rows(labels, max_width);
    lemma_rows(widths, n, gap, max_width);
    assert(rows.full.push(rows.open).drop_last() =~= rows.full);
    if row < rows.full.len() {
        lemma_full_rows_fit(widths, n, gap, max_width, row);
        assert(all.take(row) =~= rows.full.take(row));
    } else {
        assert(all.take(row) =~= rows.full);
    }
}

proof fn lemma_full_rows_are_full(widths: Seq<int>, n: int, gap: int, max_width: int, row: int)
    requires
        0 <= n <= widths.len(),
        0 <= row < after_things(widths, n, gap, max_width).full.len(),
    ensures
        ({
            let full = after_things(widths, n, gap, max_width).full;
            let from = sum_of(full.take(row));
            &&& 0 <= from <= from + full[row] < n
            &&& width_of(widths.subrange(from, from + full[row] + 1), gap) > max_width
        }),
    decreases n,
{
    if n > 0 {
        let before = after_things(widths, n - 1, gap, max_width);
        let full = after_things(widths, n, gap, max_width).full;
        lemma_rows(widths, n - 1, gap, max_width);
        if row < before.full.len() {
            lemma_full_rows_are_full(widths, n - 1, gap, max_width, row);
            assert(full.take(row) =~= before.full.take(row));
        } else {
            assert(full.take(row) =~= before.full);
            let own = widths.subrange(n - 1 - before.open, n);
            assert(own.drop_last() =~= widths.subrange(n - 1 - before.open, n - 1));
            assert(own.last() == widths[n - 1]);
        }
    }
}

/// A new row begins only where the row before it is full: it has no space for the chip that begins
/// the new one.
pub proof fn chip_rows_are_full(labels: Seq<u32>, max_width: int, row: int)
    requires
        0 <= row < chip_rows(labels, max_width).len() - 1,
    ensures
        width_of(
            chip_widths(labels).subrange(
                sum_of(chip_rows(labels, max_width).take(row)),
                sum_of(chip_rows(labels, max_width).take(row)) + chip_rows(labels, max_width)[row]
                    + 1,
            ),
            CHIP_GAP as int,
        ) > max_width,
{
    let widths = chip_widths(labels);
    let n = widths.len() as int;
    let rows = after_things(widths, n, CHIP_GAP as int, max_width);
    lemma_full_rows_are_full(widths, n, CHIP_GAP as int, max_width, row);
    assert(chip_rows(labels, max_width).take(row) =~= rows.full.take(row));
}

/// The lines that are full, and the words of the open one.
#[derive(Debug)]
pub struct LineWrapper {
    pub lines: Vec<String>,
    pub current: String,
}

/// The contents of a `LineWrapper`.
#[verifier::ext_equal]
pub struct WrapperView {
    pub lines: Seq<Seq<char>>,
    pub current: Seq<char>,
}

impl View for LineWrapper {
    type V = WrapperView;

    open spec fn view(&self) -> WrapperView {
        WrapperView { lines: texts(self.lines@), current: self.current@ }
    }
}

/// The open line with one more word.
pub open spec fn with_word(current: Seq<char>, word: Seq<char>) -> Seq<char> {
    if current.len() == 0 {
        word
    } else {
        current + " "@ + word
    }
}

/// The wrapper after one more word; `width` is that of the open line with the word.
pub open spec fn after_word(wrapper: WrapperView, word: Seq<char>, width: int) -> WrapperView {
    if wrapper.current.len() > 0 && width > TEXT_WIDTH {
        WrapperView { lines: wrapper.lines.push(wrapper.current), current: word }
    } else {
        WrapperView { lines: wrapper.lines, current: with_word(wrapper.current, word) }
    }
}

/// The lines of a wrapper, the open one among them.
pub open spec fn all_lines(wrapper: WrapperView) -> Seq<Seq<char>> {
    if wrapper.current.len() > 0 {
        wrapper.lines.push(wrapper.current)
    } else {
        wrapper.lines
    }
}

fn is_empty(text: &String) -> (r: bool)
    ensures
        r == (text@.len() == 0),
{
    let chars = crate::text::to_chars(text.as_str());
    chars.len() == 0
}

impl LineWrapper {
    /// A wrapper without words.
    pub fn new() -> (r: LineWrapper)
        ensures
            r@ == (WrapperView { lines: seq![], current: seq![] }),
    {
        let r = LineWrapper { lines: Vec::new(), current: String::new() };
        assert(r@ =~= WrapperView { lines: seq![], current: seq![] });
        r
    }

    /// The open line with one more word, to be measured.
    pub fn candidate(&self, word: &str) -> (r: String)
        ensures
            r@ == with_word(self@.current, word@),
    {
        if is_empty(&self.current) {
            word.to_owned()
        } else {
            concat3(self.current.as_str(), " ", word)
        }
    }

    /// Takes a word; `width` is that of the candidate.
    pub fn push(self, word: &str, width: u32) -> (r: LineWrapper)
        ensures
            r@ == after_word(self@, word@, width as int),
    {
        let candidate = self.candidate(word);
        if !is_empty(&self.current) && width > TEXT_WIDTH {
            let mut lines = self.lines;
            push_text(&mut lines, self.current);
            LineWrapper { lines, current: word.to_owned() }
        } else {
            LineWrapper { lines: self.lines, current: candidate }
        }
    }

    /// The lines, the open one among them.
    pub fn finish(self) -> (r: Vec<String>)
        ensures
            texts(r@) == all_lines(self@),
    {
        let mut lines = self.lines;
        if !is_empty(&self.current) {
            push_text(&mut lines, self.current);
        }
        lines
    }
}

/// The wrapper after the first `n` words, where a text is as wide as `measure` says.
pub open spec fn after_words(
    words: Seq<Seq<char>>,
    measure: spec_fn(Seq<char>) -> int,
    n: int,
) -> WrapperView
    decreases n,
{
    if n <= 0 {
        WrapperView { lines: seq![], current: seq![] }
    } else {
        let before = after_words(words, measure, n - 1);
        after_word(before, words[n - 1], measure(with_word(before.current, words[n - 1])))
    }
}

proof fn lemma_joined_push(list: Seq<Seq<char>>, last: Seq<char>, separator: Seq<char>)
    requires
        list.len() > 0,
    ensures
        joined(list.push(last), separator) == joined(list, separator) + separator + last,
{
    assert(list.push(last).drop_last() =~= list);
}

/// Wrapping loses no word: however wide texts are, the lines with spaces between them are the words
/// with spaces between them.
pub proof fn wrapping_keeps_the_words(
    words: Seq<Seq<char>>,
    measure: spec_fn(Seq<char>) -> int,
    n: int,
)
    requires
        0 <= n <= words.len(),
        forall|i: int| 0 <= i < words.len() ==> (#[trigger] words[i]).len() > 0,
    ensures
        joined(all_lines(after_words(words, measure, n)), " "@) == joined(words.take(n), " "@),
        n > 0 ==> after_words(words, measure, n).current.len() > 0,
        n == 0 ==> after_words(words, measure, n).lines.len() == 0,
    decreases n,
{
    let separator = " "@;
    if n == 0 {
        assert(words.take(0) =~= seq![]);
    } else {
        wrapping_keeps_the_words(words, measure, n - 1);
        let before = after_words(words, measure, n - 1);
        let after = after_words(words, measure, n);
        let word = words[n - 1];
        assert(words.take(n) =~= words.take(n - 1).push(word));
        if n == 1 {
            assert(words.take(1) =~= seq![word]);
            assert(all_lines(after) =~= seq![word]);
        } else {
            lemma_joined_push(words.take(n - 1), word, separator);
            if measure(with_word(before.current, word)) > TEXT_WIDTH {
                lemma_joined_push(all_lines(before), word, separator);
                assert(all_lines(after) =~= all_lines(before).push(word));
            } else {
                assert(all_lines(before) =~= before.lines.push(before.current));
                assert(all_lines(after) =~= before.lines.push(
                    before.current + separator + word,
                ));
                if before.lines.len() == 0 {
                    assert(all_lines(before) =~= seq![before.current]);
                    assert(all_lines(after) =~= seq![before.current + separator + word]);
                } else {
                    lemma_joined_push(before.lines, before.current, separator);
                    lemma_joined_push(
                        before.lines,
                        before.current + separator + word,
                        separator,
                    );
                    assert(joined(before.lines, separator) + separator + (before.current
                        + separator + word) =~= joined(before.lines, separator) + separator
                        + before.current + separator + word);
                }
            }
        }
    }
}

/// Whether the line behind line `i` starts with a word that would not have fit on line `i`.
pub open spec fn is_full(
    lines: Seq<Seq<char>>,
    i: int,
    words: Seq<Seq<char>>,
    measure: spec_fn(Seq<char>) -> int,
) -> bool {
    exists|k: int|
        0 <= k < words.len() && (#[trigger] words[k]).is_prefix_of(lines[i + 1]) && measure(
            with_word(lines[i], words[k]),
        ) > TEXT_WIDTH
}

/// Wrapped lines fit and are full: a line is no wider than there is room unless it is a single
/// word, and the word that starts the line behind it would not have fit on it.
pub proof fn wrapped_lines_fit_and_are_full(
    words: Seq<Seq<char>>,
    measure: spec_fn(Seq<char>) -> int,
    n: int,
)
    requires
        0 <= n <= words.len(),
        forall|i: int| 0 <= i < words.len() ==> (#[trigger] words[i]).len() > 0,
    ensures
        ({
            let lines = all_lines(after_words(words, measure, n));
            &&& forall|i: int|
                0 <= i < lines.len() ==> words.contains(#[trigger] lines[i]) || measure(lines[i])
                    <= TEXT_WIDTH
            &&& forall|i: int|
                0 <= i < lines.len() - 1 ==> #[trigger] is_full(lines, i, words, measure)
        }),
    decreases n,
{
    if n > 0 {
        wrapped_lines_fit_and_are_full(words, measure, n - 1);
        wrapping_keeps_the_words(words, measure, n - 1);
        wrapping_keeps_the_words(words, measure, n);
        let before = after_words(words, measure, n - 1);
        let after = after_words(words, measure, n);
        let old_lines = all_lines(before);
        let lines = all_lines(after);
        let word = words[n - 1];
        let width = measure(with_word(before.current, word));
        assert(words.contains(word));
        assert forall|i: int| 0 <= i < lines.len() implies words.contains(#[trigger] lines[i])
            || measure(lines[i]) <= TEXT_WIDTH by {
            if i < lines.len() - 1 {
                assert(lines[i] == old_lines[i]);
            } else if before.current.len() == 0 || width > TEXT_WIDTH {
                assert(lines[i] == word);
            } else {
                assert(lines[i] == with_word(before.current, word));
            }
        }
        assert forall|i: int| 0 <= i < lines.len() - 1 implies #[trigger] is_full(
            lines,
            i,
            words,
            measure,
        ) by {
            assert(lines[i] == old_lines[i]);
            if i + 1 < old_lines.len() {
                assert(is_full(old_lines, i, words, measure));
                let k = choose|k: int|
                    0 <= k < words.len() && (#[trigger] words[k]).is_prefix_of(old_lines[i + 1])
                        && measure(with_word(old_lines[i], words[k])) > TEXT_WIDTH;
                assert(words[k].is_prefix_of(lines[i + 1]));
            } else {
                assert(lines[i] == before.current);
                assert(lines[i + 1] == word);
                assert(words[n - 1].is_prefix_of(lines[i + 1]));
            }
        }
    }
}

/// What is known of a lesson's card once its texts are measured: the lines of the subject, and the
/// widths of the labels of its chips.
#[derive(Debug)]
pub struct Card {
    pub lines: Vec<String>,
    pub label_widths: Vec<u32>,
}

/// The rows of chips of a card.
pub open spec fn card_rows(card: Card) -> Seq<int> {
    chip_rows(card.label_widths@, TEXT_WIDTH as int)
}

/// The height of a card.
pub open spec fn card_height(card: Card) -> int {
    50int + 31 * card.lines@.len() + 38 * card_rows(card).len()
}

/// The space that the heading of a day takes before lesson `i`.
pub open spec fn day_space(lessons: Seq<LessonView>, i: int) -> int {
    if opens_day(lessons, i) {
        50
    } else {
        0
    }
}

/// Where the next thing is drawn after the first `n` lessons.
pub open spec fn bottom(lessons: Seq<LessonView>, cards: Seq<Card>, n: int) -> int
    decreases n,
{
    if n <= 0 {
        140
    } else {
        bottom(lessons, cards, n - 1) + day_space(lessons, n - 1) + card_height(cards[n - 1]) + 14
    }
}

/// The height that the title and the first `n` lessons take.
pub open spec fn height_with(lessons: Seq<LessonView>, cards: Seq<Card>, n: int) -> int
    decreases n,
{
    if n <= 0 {
        160
    } else {
        height_with(lessons, cards, n - 1) + (if opens_day(lessons, n - 1) {
            54int
        } else {
            0
        }) + card_height(cards[n - 1]) + 16
    }
}

/// The height of the picture.
pub open spec fn picture_height(lessons: Seq<LessonView>, cards: Seq<Card>) -> int {
    height_with(lessons, cards, lessons.len() as int) + PADDING
}

/// The picture is high enough for everything that is drawn on it.
pub proof fn picture_is_high_enough(lessons: Seq<LessonView>, cards: Seq<Card>, n: int)
    requires
        0 <= n <= lessons.len(),
    ensures
        bottom(lessons, cards, n) <= height_with(lessons, cards, n) <= picture_height(
            lessons,
            cards,
        ),
{
    lemma_bottom(lessons, cards, n);
    lemma_height_grows(lessons, cards, n, lessons.len() as int);
}

proof fn lemma_bottom(lessons: Seq<LessonView>, cards: Seq<Card>, n: int)
    ensures
        140 <= bottom(lessons, cards, n) <= height_with(lessons, cards, n),
    decreases n,
{
    if n > 0 {
        lemma_bottom(lessons, cards, n - 1);
    }
}

proof fn lemma_height_grows(lessons: Seq<LessonView>, cards: Seq<Card>, m: int, n: int)
    requires
        m <= n,
    ensures
        height_with(lessons, cards, m) <= height_with(lessons, cards, n),
    decreases n - m,
{
    if m < n {
        lemma_height_grows(lessons, cards, m, n - 1);
    }
}

/// The height that a card's contents take, from its top.
pub open spec fn contents_height(card: Card) -> int {
    42int + 30 * card.lines@.len() + 36 * card_rows(card).len()
}

/// A card is high enough for its contents.
pub proof fn card_is_high_enough(card: Card)
    ensures
        contents_height(card) <= card_height(card),
{
}

/// The heading of a day.
pub open spec fn day_heading(lesson: LessonView, y: int) -> Seq<DrawView> {
    seq![
        filled(48, y, 1_304, 42, (225, 235, 247)),
        label(64, y + 9, 22, (25, 54, 91), lesson.weekday + " · "@ + dotted(lesson.date)),
    ]
}

/// The heading of a card.
pub open spec fn card_heading(lesson: LessonView) -> Seq<char> {
    lesson.start_time + "–"@ + lesson.end_time + " · пара №"@ + decimal(
        lesson.lesson_number as nat,
    ) + " · "@ + joined(lesson.groups, ", "@)
}

/// The first `k` lines of a subject.
pub open spec fn subject_lines(lines: Seq<Seq<char>>, k: int, y: int) -> Seq<DrawView>
    decreases k,
{
    if k <= 0 {
        seq![]
    } else {
        subject_lines(lines, k - 1, y).push(
            label(64, y + 30 * (k - 1), 22, (29, 37, 48), lines[k - 1]),
        )
    }
}

/// A chip whose label has a given width: a bar with round ends, and the label.
pub open spec fn chip_draws(chip: ChipView, width: int, x: int, y: int) -> Seq<DrawView> {
    seq![
        filled(x + 15, y, width - 2, 30, chip.background),
        disc(x + 15, y + 15, 15, chip.background),
        disc(x + width + 13, y + 15, 15, chip.background),
        label(x + 14, y + 6, 17, chip.foreground, chip.label),
    ]
}

/// Where chip `k` of a row begins.
pub open spec fn chip_x(labels: Seq<u32>, from: int, k: int) -> int
    decreases k,
{
    if k <= 0 {
        64
    } else {
        chip_x(labels, from, k - 1) + labels[from + k - 1] + 38
    }
}

/// The first `k` chips of the row that begins with chip `from`.
pub open spec fn row_draws(
    chips: Seq<ChipView>,
    labels: Seq<u32>,
    from: int,
    k: int,
    y: int,
) -> Seq<DrawView>
    decreases k,
{
    if k <= 0 {
        seq![]
    } else {
        row_draws(chips, labels, from, k - 1, y) + chip_draws(
            chips[from + k - 1],
            labels[from + k - 1] as int,
            chip_x(labels, from, k - 1),
            y,
        )
    }
}

/// The first `r` rows of chips.
pub open spec fn rows_draws(
    chips: Seq<ChipView>,
    labels: Seq<u32>,
    rows: Seq<int>,
    r: int,
    y: int,
) -> Seq<DrawView>
    decreases r,
{
    if r <= 0 {
        seq![]
    } else {
        rows_draws(chips, labels, rows, r - 1, y) + row_draws(
            chips,
            labels,
            sum_of(rows.take(r - 1)),
            rows[r - 1],
            y + 36 * (r - 1),
        )
    }
}

/// The card of a lesson.
pub open spec fn card_draws(lesson: LessonView, card: Card, y: int) -> Seq<DrawView> {
    let lines = card.lines@.len() as int;
    seq![
        filled(48, y, 1_304, card_height(card), (255, 255, 255)),
        outline(48, y, 1_304, card_height(card), (218, 225, 234)),
        label(64, y + 10, 22, (38, 92, 150), card_heading(lesson)),
    ] + subject_lines(texts(card.lines@), lines, y + 38) + rows_draws(
        chips_of(lesson),
        card.label_widths@,
        card_rows(card),
        card_rows(card).len() as int,
        y + 42 + 30 * lines,
    )
}

/// The first `n` lessons.
pub open spec fn lessons_draws(lessons: Seq<LessonView>, cards: Seq<Card>, n: int) -> Seq<DrawView>
    decreases n,
{
    if n <= 0 {
        seq![]
    } else {
        let y = bottom(lessons, cards, n - 1);
        lessons_draws(lessons, cards, n - 1) + (if opens_day(lessons, n - 1) {
            day_heading(lessons[n - 1], y)
        } else {
            seq![]
        }) + card_draws(lessons[n - 1], cards[n - 1], y + day_space(lessons, n - 1))
    }
}

/// What is drawn on the picture, in order.
pub open spec fn timetable_picture(
    lessons: Seq<LessonView>,
    title: Seq<char>,
    cards: Seq<Card>,
) -> Seq<DrawView> {
    seq![
        filled(0, 0, 1_400, 114, (25, 54, 91)),
        label(48, 35, 34, (255, 255, 255), title),
    ] + lessons_draws(lessons, cards, lessons.len() as int)
}

/// Whether a label can be drawn as a chip: there is something between its round ends, and where it
/// begins a row its right end can be told in the coordinates of the picture.
pub open spec fn label_fits(width: u32) -> bool {
    3 <= width && 64 + width + CHIP_MARGIN <= i32::MAX
}

/// Whether the widths of a card belong to its lesson's chips and can be drawn.
pub open spec fn card_fits(lesson: LessonView, card: Card) -> bool {
    &&& card.label_widths@.len() == chips_of(lesson).len()
    &&& forall|i: int|
        0 <= i < card.label_widths@.len() ==> label_fits(#[trigger] card.label_widths@[i])
}

/// Whether every lesson has a card that can be drawn, and the picture is not too high.
pub open spec fn cards_fit(lessons: Seq<LessonView>, cards: Seq<Card>) -> bool {
    &&& cards.len() == lessons.len()
    &&& forall|i: int| 0 <= i < lessons.len() ==> card_fits(lessons[i], #[trigger] cards[i])
    &&& picture_height(lessons, cards) <= i32::MAX
}

fn push_day_heading(list: &mut Vec<Draw>, lesson: &Lesson, y: i32)
    requires
        0 <= y < i32::MAX - 100,
    ensures
        draws(final(list)@) == draws(old(list)@) + day_heading(lesson@, y as int),
{
    let ghost before = draws(list@);
    push_filled(list, 48, y, 1_304, 42, (225, 235, 247));
    let date = lesson.date.dotted();
    let text = concat3(lesson.weekday.as_str(), " · ", date.as_str());
    push_label(list, 64, y + 9, 22, (25, 54, 91), text);
    assert(draws(list@) =~= before + day_heading(lesson@, y as int));
}

fn heading_text(lesson: &Lesson) -> (r: String)
    ensures
        r@ == card_heading(lesson@),
{
    let mut r = concat3(lesson.start_time.as_str(), "–", lesson.end_time.as_str());
    r.append(" · пара №");
    let number = decimal_text(lesson.lesson_number as u64);
    r.append(number.as_str());
    r.append(" · ");
    let groups = join(&lesson.groups, ", ");
    r.append(groups.as_str());
    r
}

fn push_lines(list: &mut Vec<Draw>, lines: &Vec<String>, y: i32)
    requires
        0 <= y,
        y + 30 * lines@.len() <= i32::MAX,
    ensures
        draws(final(list)@) == draws(old(list)@) + subject_lines(
            texts(lines@),
            lines@.len() as int,
            y as int,
        ),
{
    let ghost before = draws(list@);
    let ghost all = texts(lines@);
    let mut at: i32 = y;
    let mut k: usize = 0;
    assert(draws(list@) =~= before + subject_lines(all, 0, y as int));
    while k < lines.len()
        invariant
            k <= lines@.len(),
            all == texts(lines@),
            0 <= y,
            y + 30 * lines@.len() <= i32::MAX,
            at == y + 30 * k,
            draws(list@) == before + subject_lines(all, k as int, y as int),
        decreases lines@.len() - k,
    {
        push_label(list, 64, at, 22, (29, 37, 48), lines[k].clone());
        k += 1;
        at = at + 30;
        assert(draws(list@) =~= before + subject_lines(all, k as int, y as int));
    }
}

fn push_chip_draws(list: &mut Vec<Draw>, chip: &Chip, width: u32, x: i32, y: i32)
    requires
        3 <= width,
        0 <= x,
        x + width + 28 <= i32::MAX,
        0 <= y <= i32::MAX - 30,
    ensures
        draws(final(list)@) == draws(old(list)@) + chip_draws(
            chip@,
            width as int,
            x as int,
            y as int,
        ),
{
    let ghost before = draws(list@);
    push_filled(list, x + 15, y, width - 2, 30, chip.background);
    push_disc(list, x + 15, y + 15, 15, chip.background);
    push_disc(list, x + width as i32 + 13, y + 15, 15, chip.background);
    push_label(list, x + 14, y + 6, 17, chip.foreground, chip.label.clone());
    assert(draws(list@) =~= before + chip_draws(chip@, width as int, x as int, y as int));
}

fn push_row(
    list: &mut Vec<Draw>,
    chips: &Vec<Chip>,
    labels: &Vec<u32>,
    from: usize,
    count: usize,
    y: i32,
)
    requires
        from + count <= chips@.len(),
        chips@.len() == labels@.len(),
        chips@.len() <= 3,
        forall|i: int| 0 <= i < labels@.len() ==> label_fits(#[trigger] labels@[i]),
        forall|k: int|
            0 <= k < count ==> #[trigger] chip_x(labels@, from as int, k) + labels@[from + k] + 28
                <= i32::MAX,
        0 <= y <= i32::MAX - 30,
    ensures
        draws(final(list)@) == draws(old(list)@) + row_draws(
            chips_view(chips@),
            labels@,
            from as int,
            count as int,
            y as int,
        ),
{
    let ghost before = draws(list@);
    let ghost views = chips_view(chips@);
    let mut x: i64 = 64;
    let mut k: usize = 0;
    assert(draws(list@) =~= before + row_draws(views, labels@, from as int, 0, y as int));
    while k < count
        invariant
            k <= count,
            from + count <= chips@.len(),
            chips@.len() == labels@.len(),
            chips@.len() <= 3,
            views == chips_view(chips@),
            forall|i: int| 0 <= i < labels@.len() ==> label_fits(#[trigger] labels@[i]),
            forall|k: int|
                0 <= k < count ==> #[trigger] chip_x(labels@, from as int, k) + labels@[from + k]
                    + 28 <= i32::MAX,
            0 <= y <= i32::MAX - 30,
            x == chip_x(labels@, from as int, k as int),
            0 <= x <= 64 + k * 0x1_0000_0000,
            draws(list@) == before + row_draws(views, labels@, from as int, k as int, y as int),
        decreases count - k,
    {
        let width: u32 = labels[from + k];
        assert(views[from + k] == chips@[from + k]@);
        assert(label_fits(labels@[from + k]));
        push_chip_draws(list, &chips[from + k], width, x as i32, y);
        x = x + width as i64 + 38;
        k += 1;
        assert(draws(list@) =~= before + row_draws(
            views,
            labels@,
            from as int,
            k as int,
            y as int,
        ));
    }
}

proof fn lemma_sum_take(rows: Seq<int>, r: int)
    requires
        0 <= r < rows.len(),
    ensures
        sum_of(rows.take(r + 1)) == sum_of(rows.take(r)) + rows[r],
{
    assert(rows.take(r + 1).drop_last() =~= rows.take(r));
}

proof fn lemma_sum_part(rows: Seq<int>, r: int)
    requires
        0 <= r <= rows.len(),
        forall|i: int| 0 <= i < rows.len() ==> #[trigger] rows[i] > 0,
    ensures
        r <= sum_of(rows.take(r)) <= sum_of(rows) - (rows.len() - r),
    decreases rows.len() - r,
{
    if r == rows.len() {
        assert(rows.take(r) =~= rows);
        lemma_sum_positive(rows);
    } else {
        lemma_sum_part(rows, r + 1);
        lemma_sum_take(rows, r);
        lemma_sum_positive(rows.take(r));
    }
}

proof fn lemma_sum_positive(rows: Seq<int>)
    requires
        forall|i: int| 0 <= i < rows.len() ==> #[trigger] rows[i] > 0,
    ensures
        sum_of(rows) >= rows.len(),
    decreases rows.len(),
{
    if rows.len() > 0 {
        assert(rows.last() > 0);
        assert forall|i: int| 0 <= i < rows.drop_last().len() implies #[trigger] rows.drop_last()[i]
            > 0 by {
            assert(rows.drop_last()[i] == rows[i]);
        }
        lemma_sum_positive(rows.drop_last());
    }
}

pub proof fn lemma_card_rows(labels: Seq<u32>, max_width: int)
    ensures
        sum_of(chip_rows(labels, max_width)) == labels.len(),
        forall|i: int|
            0 <= i < chip_rows(labels, max_width).len() ==> #[trigger] chip_rows(
                labels,
                max_width,
            )[i] > 0,
        chip_rows(labels, max_width).len() <= labels.len(),
{
    let rows = chip_rows(labels, max_width);
    if rows.len() > 0 {
        chip_rows_hold_all_and_fit(labels, max_width, 0);
        assert forall|i: int| 0 <= i < rows.len() implies #[trigger] rows[i] > 0 by {
            chip_rows_hold_all_and_fit(labels, max_width, i);
        }
        lemma_sum_positive(rows);
    } else {
        lemma_rows(
            chip_widths(labels),
            labels.len() as int,
            CHIP_GAP as int,
            max_width,
        );
    }
}

/// Where a chip of a row ends, told by the width of the row as far as the chip.
proof fn lemma_chip_end(labels: Seq<u32>, from: int, k: int)
    requires
        0 <= from,
        0 <= k,
        from + k < labels.len(),
    ensures
        chip_x(labels, from, k) + labels[from + k] + 28 == 64 + width_of(
            chip_widths(labels).subrange(from, from + k + 1),
            CHIP_GAP as int,
        ),
    decreases k,
{
    let part = chip_widths(labels).subrange(from, from + k + 1);
    assert(part.drop_last() =~= chip_widths(labels).subrange(from, from + k));
    assert(part.last() == labels[from + k] + 28);
    if k > 0 {
        lemma_chip_end(labels, from, k - 1);
    } else {
        assert(part.drop_last().len() == 0);
    }
}

/// Every chip ends where its row can be drawn.
proof fn lemma_row_ends(labels: Seq<u32>, row: int, k: int)
    requires
        0 <= row < chip_rows(labels, TEXT_WIDTH as int).len(),
        0 <= k < chip_rows(labels, TEXT_WIDTH as int)[row],
        forall|i: int| 0 <= i < labels.len() ==> label_fits(#[trigger] labels[i]),
        0 <= sum_of(chip_rows(labels, TEXT_WIDTH as int).take(row)),
        sum_of(chip_rows(labels, TEXT_WIDTH as int).take(row)) + chip_rows(
            labels,
            TEXT_WIDTH as int,
        )[row] <= labels.len(),
    ensures
        chip_x(labels, sum_of(chip_rows(labels, TEXT_WIDTH as int).take(row)), k) + labels[sum_of(
            chip_rows(labels, TEXT_WIDTH as int).take(row),
        ) + k] + 28 <= i32::MAX,
{
    let from = sum_of(chip_rows(labels, TEXT_WIDTH as int).take(row));
    let count = chip_rows(labels, TEXT_WIDTH as int)[row];
    assert(label_fits(labels[from + k]));
    if count > 1 {
        chip_rows_hold_all_and_fit(labels, TEXT_WIDTH as int, row);
        lemma_chip_end(labels, from, count - 1);
        lemma_chips_go_right(labels, from, k, count - 1);
    }
}

proof fn lemma_chips_go_right(labels: Seq<u32>, from: int, k: int, last: int)
    requires
        0 <= from,
        0 <= k <= last,
        from + last < labels.len(),
    ensures
        chip_x(labels, from, k) + labels[from + k] <= chip_x(labels, from, last) + labels[from
            + last],
    decreases last - k,
{
    if k < last {
        lemma_chips_go_right(labels, from, k, last - 1);
    }
}

fn push_rows(
    list: &mut Vec<Draw>,
    chips: &Vec<Chip>,
    labels: &Vec<u32>,
    rows: &Vec<usize>,
    y: i32,
)
    requires
        chips@.len() == labels@.len(),
        chips@.len() <= 3,
        forall|i: int| 0 <= i < labels@.len() ==> label_fits(#[trigger] labels@[i]),
        counts(rows@) == chip_rows(labels@, TEXT_WIDTH as int),
        0 <= y,
        y + 36 * rows@.len() <= i32::MAX,
    ensures
        draws(final(list)@) == draws(old(list)@) + rows_draws(
            chips_view(chips@),
            labels@,
            counts(rows@),
            rows@.len() as int,
            y as int,
        ),
{
    let ghost before = draws(list@);
    let ghost views = chips_view(chips@);
    let ghost lengths = counts(rows@);
    proof {
        lemma_card_rows(labels@, TEXT_WIDTH as int);
    }
    let mut from: usize = 0;
    let mut at: i32 = y;
    let mut r: usize = 0;
    assert(lengths.take(0) =~= seq![]);
    assert(draws(list@) =~= before + rows_draws(views, labels@, lengths, 0, y as int));
    while r < rows.len()
        invariant
            r <= rows@.len(),
            chips@.len() == labels@.len(),
            chips@.len() <= 3,
            views == chips_view(chips@),
            lengths == counts(rows@),
            sum_of(lengths) == labels@.len(),
            forall|i: int| 0 <= i < lengths.len() ==> #[trigger] lengths[i] > 0,
            forall|i: int| 0 <= i < labels@.len() ==> label_fits(#[trigger] labels@[i]),
            from == sum_of(lengths.take(r as int)),
            lengths == chip_rows(labels@, TEXT_WIDTH as int),
            0 <= y,
            y + 36 * rows@.len() <= i32::MAX,
            at == y + 36 * r,
            draws(list@) == before + rows_draws(views, labels@, lengths, r as int, y as int),
        decreases rows@.len() - r,
    {
        proof {
            lemma_sum_take(lengths, r as int);
            lemma_sum_part(lengths, r + 1);
            assert(lengths[r as int] == rows@[r as int]);
            lemma_sum_part(lengths, r as int);
            assert forall|k: int| 0 <= k < lengths[r as int] implies #[trigger] chip_x(
                labels@,
                from as int,
                k,
            ) + labels@[from + k] + 28 <= i32::MAX by {
                lemma_row_ends(labels@, r as int, k);
            }
        }
        push_row(list, chips, labels, from, rows[r], at);
        from = from + rows[r];
        at = at + 36;
        r += 1;
        assert(draws(list@) =~= before + rows_draws(views, labels@, lengths, r as int, y as int));
    }
}

fn push_card(list: &mut Vec<Draw>, lesson: &Lesson, card: &Card, y: i32)
    requires
        card_fits(lesson@, *card),
        0 <= y,
        y + card_height(*card) <= i32::MAX,
    ensures
        draws(final(list)@) == draws(old(list)@) + card_draws(lesson@, *card, y as int),
{
    let ghost before = draws(list@);
    let rows = wrap_chips(&card.label_widths, TEXT_WIDTH);
    assert(rows@.len() == counts(rows@).len());
    let chips = lesson_chips(lesson);
    assert(chips@.len() == chips_view(chips@).len());
    proof {
        lemma_card_rows(card.label_widths@, TEXT_WIDTH as int);
    }
    let count: i32 = card.lines.len() as i32;
    let height: u32 = (50 + 31 * count + 38 * (rows.len() as i32)) as u32;
    push_filled(list, 48, y, 1_304, height, (255, 255, 255));
    push_outline(list, 48, y, 1_304, height, (218, 225, 234));
    push_label(list, 64, y + 10, 22, (38, 92, 150), heading_text(lesson));
    let ghost head: Seq<DrawView> = seq![
        filled(48, y as int, 1_304, card_height(*card), (255, 255, 255)),
        outline(48, y as int, 1_304, card_height(*card), (218, 225, 234)),
        label(64, y + 10, 22, (38, 92, 150), card_heading(lesson@)),
    ];
    assert(draws(list@) =~= before + head);
    push_lines(list, &card.lines, y + 38);
    push_rows(list, &chips, &card.label_widths, &rows, y + 42 + 30 * count);
    assert(draws(list@) =~= before + card_draws(lesson@, *card, y as int));
}

/// What is drawn on the picture, in order.
pub fn draw_timetable(lessons: &[&Lesson], title: &str, cards: &Vec<Card>) -> (r: Vec<Draw>)
    requires
        cards_fit(borrowed_view(lessons@), cards@),
    ensures
        draws(r@) == timetable_picture(borrowed_view(lessons@), title@, cards@),
{
    let ghost all = borrowed_view(lessons@);
    let mut list: Vec<Draw> = Vec::new();
    assert(draws(list@) =~= seq![]);
    push_filled(&mut list, 0, 0, 1_400, 114, (25, 54, 91));
    push_label(&mut list, 48, 35, 34, (255, 255, 255), title.to_owned());
    let ghost head = draws(list@);
    assert(head =~= seq![
        filled(0, 0, 1_400, 114, (25, 54, 91)),
        label(48, 35, 34, (255, 255, 255), title@),
    ]);
    let mut y: i32 = 140;
    let mut i: usize = 0;
    assert(draws(list@) =~= head + lessons_draws(all, cards@, 0));
    while i < lessons.len()
        invariant
            i <= lessons@.len(),
            all == borrowed_view(lessons@),
            cards_fit(all, cards@),
            y == bottom(all, cards@, i as int),
            draws(list@) == head + lessons_draws(all, cards@, i as int),
        decreases lessons@.len() - i,
    {
        let lesson: &Lesson = lessons[i];
        assert(all[i as int] == lesson@);
        assert(card_fits(all[i as int], cards@[i as int]));
        proof {
            picture_is_high_enough(all, cards@, i as int);
            picture_is_high_enough(all, cards@, i + 1);
            lemma_bottom(all, cards@, i as int);
        }
        let opens = if i == 0 {
            true
        } else {
            let previous: &Lesson = lessons[i - 1];
            assert(all[i - 1] == previous@);
            !previous.date.same(&lesson.date)
        };
        let ghost before = draws(list@);
        if opens {
            push_day_heading(&mut list, lesson, y);
            y = y + 50;
        } else {
            assert(draws(list@) =~= before + seq![]);
        }
        push_card(&mut list, lesson, &cards[i], y);
        let rows = wrap_chips(&cards[i].label_widths, TEXT_WIDTH);
        assert(rows@.len() == counts(rows@).len());
        let height: i32 = 50 + 31 * (cards[i].lines.len() as i32) + 38 * (rows.len() as i32);
        y = y + height + 14;
        i += 1;
        assert(draws(list@) =~= head + lessons_draws(all, cards@, i as int));
    }
    list
}

/// The height of the picture and what is drawn on it, where every lesson has a card that can be
/// drawn and the picture is not too high.
pub fn card_picture(lessons: &[&Lesson], title: &str, cards: &Vec<Card>) -> (r: Option<
    (u32, Vec<Draw>),
>)
    ensures
        r is Some <==> cards_fit(borrowed_view(lessons@), cards@),
        r matches Some(picture) ==> {
            &&& picture.0 == picture_height(borrowed_view(lessons@), cards@)
            &&& draws(picture.1@) == timetable_picture(borrowed_view(lessons@), title@, cards@)
        },
{
    match measure(lessons, cards) {
        Some(height) => Some((height, draw_timetable(lessons, title, cards))),
        None => None,
    }
}

fn usable_card(lesson: &Lesson, card: &Card) -> (r: bool)
    ensures
        r == card_fits(lesson@, *card),
{
    let chips = lesson_chips(lesson);
    assert(chips@.len() == chips_view(chips@).len());
    if card.label_widths.len() != chips.len() {
        return false;
    }
    let mut i: usize = 0;
    while i < card.label_widths.len()
        invariant
            i <= card.label_widths@.len(),
            forall|j: int| 0 <= j < i ==> label_fits(#[trigger] card.label_widths@[j]),
        decreases card.label_widths@.len() - i,
    {
        let width: u32 = card.label_widths[i];
        if width < 3 || 64 + width as u64 + CHIP_MARGIN as u64 > i32::MAX as u64 {
            assert(!label_fits(card.label_widths@[i as int]));
            return false;
        }
        i += 1;
    }
    true
}

fn measure(lessons: &[&Lesson], cards: &Vec<Card>) -> (r: Option<u32>)
    ensures
        r is Some <==> cards_fit(borrowed_view(lessons@), cards@),
        r matches Some(height) ==> height == picture_height(borrowed_view(lessons@), cards@),
{
    let ghost all = borrowed_view(lessons@);
    let total: usize = lessons.len();
    if cards.len() != total {
        return None;
    }
    let mut height: u64 = 160;
    let mut i: usize = 0;
    while i < total
        invariant
            i <= total,
            total == lessons@.len(),
            total == cards@.len(),
            all == borrowed_view(lessons@),
            height == height_with(all, cards@, i as int),
            height <= i32::MAX,
            forall|j: int| 0 <= j < i ==> card_fits(all[j], #[trigger] cards@[j]),
        decreases total - i,
    {
        let lesson: &Lesson = lessons[i];
        assert(all[i as int] == lesson@);
        if !usable_card(lesson, &cards[i]) {
            assert(!card_fits(all[i as int], cards@[i as int]));
            return None;
        }
        let opens = if i == 0 {
            true
        } else {
            let previous: &Lesson = lessons[i - 1];
            assert(all[i - 1] == previous@);
            !previous.date.same(&lesson.date)
        };
        let rows = wrap_chips(&cards[i].label_widths, TEXT_WIDTH);
        assert(rows@.len() == counts(rows@).len());
        proof {
            lemma_card_rows(cards@[i as int].label_widths@, TEXT_WIDTH as int);
            lemma_height_grows(all, cards@, i + 1, total as int);
        }
        let lines: usize = cards[i].lines.len();
        if lines > 0x7fff_ffff {
            return None;
        }
        height = height + (if opens {
            54
        } else {
            0
        }) + 50 + 31 * (lines as u64) + 38 * (rows.len() as u64) + 16;
        if height > 0x7fff_ffff {
            return None;
        }
        i += 1;
    }
    height = height + 48;
    if height > 0x7fff_ffff {
        return None;
    }
    Some(height as u32)
}

} // verus!
