//! What printed timetables, pictures and pages show of what they were made from.

use crate::cards::{
    card_draws, card_fits, card_heading, card_rows, chip_draws, chip_rows_hold_all_and_fit, chip_x,
    chips_of, day_heading, day_space, lessons_draws, optional_chip, row_draws, rows_draws,
    subject_lines, sum_of, timetable_picture, Card, ChipView, TEXT_WIDTH,
};
use crate::date::dotted;
use crate::draw::{label, DrawView};
use crate::fields::{lessons_are_found_by_group_and_room, same_but_case};
use crate::format::{day_line, details, opens_day, time_line};
use crate::lesson::LessonView;
use crate::parser::{is_for_group, is_in_room, room_name};
use crate::pretty::{
    day_part, details_line, groups_line, lesson_part, named_date, pretty_text, selected,
    with_lessons, Command,
};
use crate::showing::{details_tell_what_is_known, group_shown, shown_in_a_list, shows};
use crate::text::{decimal, joined, texts};
use vstd::prelude::*;

verus! {

proof fn lemma_part_printed(
    head: Seq<char>,
    lessons: Seq<LessonView>,
    n: int,
    show_groups: bool,
    show_rooms: bool,
    show_day_headings: bool,
    i: int,
    part: Seq<char>,
)
    requires
        0 <= i < n <= lessons.len(),
        shows(lesson_part(lessons[i], show_groups, show_rooms), part) || shows(
            day_part(lessons, i, show_day_headings),
            part,
        ),
    ensures
        shows(
            with_lessons(head, lessons, n, show_groups, show_rooms, show_day_headings),
            part,
        ),
    decreases n,
{
    broadcast use group_shown;

    let before = with_lessons(head, lessons, n - 1, show_groups, show_rooms, show_day_headings);
    let day = day_part(lessons, n - 1, show_day_headings);
    let own = lesson_part(lessons[n - 1], show_groups, show_rooms);
    if i < n - 1 {
        lemma_part_printed(
            head,
            lessons,
            n - 1,
            show_groups,
            show_rooms,
            show_day_headings,
            i,
            part,
        );
        assert(shows(before, part));
    }
    assert(shows(before + day, part) || shows(own, part));
    assert(shows(before + day + own, part));
}

/// A printed timetable shows every lesson: its times, its number, its subject, its type and its
/// teacher where they are known, its groups and its room where they are asked for, and, where days
/// are, the day of the first lesson of each.
pub proof fn printout_shows_every_lesson(
    lessons: Seq<LessonView>,
    heading: Seq<char>,
    show_groups: bool,
    show_rooms: bool,
    show_day_headings: bool,
    i: int,
)
    requires
        0 <= i < lessons.len(),
    ensures
        ({
            let text = pretty_text(lessons, heading, show_groups, show_rooms, show_day_headings);
            let lesson = lessons[i];
            &&& shows(text, lesson.start_time + "–"@ + lesson.end_time)
            &&& shows(text, " · пара №"@ + decimal(lesson.lesson_number as nat))
            &&& shows(text, "📖 "@ + lesson.subject)
            &&& lesson.lesson_type matches Some(kind) ==> shows(text, "🧩 "@ + kind)
            &&& lesson.teacher matches Some(teacher) ==> shows(text, "👩‍🏫 "@ + teacher)
            &&& show_rooms ==> (lesson.room matches Some(room) ==> shows(text, "📍 "@ + room))
            &&& show_groups ==> forall|g: int|
                0 <= g < lesson.groups.len() ==> shows(text, #[trigger] lesson.groups[g])
            &&& show_day_headings && (i == 0 || lessons[i - 1].date != lesson.date) ==> shows(
                text,
                lesson.weekday + " · "@ + dotted(lesson.date),
            )
            &&& shows(text, heading)
            &&& shows(text, "✨ Всего занятий: "@ + decimal(lessons.len()))
        }),
{
    broadcast use group_shown;

    let text = pretty_text(lessons, heading, show_groups, show_rooms, show_day_headings);
    let lesson = lessons[i];
    let n = lessons.len() as int;
    let number = decimal(lesson.lesson_number as nat);
    let own = lesson_part(lesson, show_groups, show_rooms);
    let line = "\n━━━━━━━━━━━━━━━━━━━━━━━━━━━━━━━━━━━━━━━━\n"@;
    let head = heading + crate::pretty::span_part(lessons, show_day_headings) + line;
    let body = with_lessons(head, lessons, n, show_groups, show_rooms, show_day_headings);
    let times = lesson.start_time + "–"@ + lesson.end_time;
    assert(time_line(lesson) =~= "🕒 "@ + times + (" · пара №"@ + number));
    assert(shows(time_line(lesson), times) && shows(time_line(lesson), " · пара №"@ + number));
    reveal_strlit("   📖 ");
    reveal_strlit("📖 ");
    let gap: Seq<char> = seq![' ', ' ', ' '];
    let book = "📖 "@ + lesson.subject;
    assert("   📖 "@ =~= gap + "📖 "@);
    let start = "\n"@ + time_line(lesson) + "\n"@ + groups_line(lesson, show_groups);
    assert(own =~= start + gap + book + "\n"@ + details_line(lesson, show_rooms));
    assert(shows(own, times) && shows(own, " · пара №"@ + number) && shows(own, book));
    lemma_body(lessons, head, show_groups, show_rooms, show_day_headings, i, times);
    lemma_body(
        lessons,
        head,
        show_groups,
        show_rooms,
        show_day_headings,
        i,
        " · пара №"@ + number,
    );
    lemma_body(lessons, head, show_groups, show_rooms, show_day_headings, i, book);
    let known = details(lesson, show_rooms);
    details_tell_what_is_known(lesson, show_rooms);
    assert forall|part: Seq<char>| #[trigger] known.contains(part) implies shows(text, part) by {
        let k = choose|k: int| 0 <= k < known.len() && known[k] == part;
        shown_in_a_list(known, " · "@, k);
        assert(shows(details_line(lesson, show_rooms), part));
        assert(shows(own, part));
        lemma_body(lessons, head, show_groups, show_rooms, show_day_headings, i, part);
    }
    if show_groups {
        assert forall|g: int| 0 <= g < lesson.groups.len() implies shows(
            text,
            #[trigger] lesson.groups[g],
        ) by {
            shown_in_a_list(lesson.groups, ", "@, g);
            assert(shows(groups_line(lesson, show_groups), lesson.groups[g]));
            assert(shows(start, lesson.groups[g]));
            assert(shows(own, lesson.groups[g]));
            lemma_body(
                lessons,
                head,
                show_groups,
                show_rooms,
                show_day_headings,
                i,
                lesson.groups[g],
            );
        }
    }
    if show_day_headings && (i == 0 || lessons[i - 1].date != lesson.date) {
        let day = lesson.weekday + " · "@ + dotted(lesson.date);
        assert(day_line(lesson) =~= "🗓️ "@ + day);
        assert(shows(day_line(lesson), day));
        assert(shows(day_part(lessons, i, show_day_headings), day));
        lemma_body(lessons, head, show_groups, show_rooms, show_day_headings, i, day);
    }
    lemma_head_printed(head, lessons, n, show_groups, show_rooms, show_day_headings, heading);
    reveal_strlit("\n✨ Всего занятий: ");
    reveal_strlit("✨ Всего занятий: ");
    let feed: Seq<char> = seq!['\n'];
    let count = "✨ Всего занятий: "@ + decimal(lessons.len());
    assert("\n✨ Всего занятий: "@ =~= feed + "✨ Всего занятий: "@);
    assert(text =~= body + feed + count);
    assert(shows(text, count));
    assert(shows(body, heading));
    assert(shows(body + feed + count, heading));
}

proof fn lemma_head_printed(
    head: Seq<char>,
    lessons: Seq<LessonView>,
    n: int,
    show_groups: bool,
    show_rooms: bool,
    show_day_headings: bool,
    part: Seq<char>,
)
    requires
        shows(head, part),
    ensures
        shows(
            with_lessons(head, lessons, n, show_groups, show_rooms, show_day_headings),
            part,
        ),
    decreases n,
{
    broadcast use group_shown;

    if n > 0 {
        lemma_head_printed(
            head,
            lessons,
            n - 1,
            show_groups,
            show_rooms,
            show_day_headings,
            part,
        );
        let before = with_lessons(
            head,
            lessons,
            n - 1,
            show_groups,
            show_rooms,
            show_day_headings,
        );
        let day = day_part(lessons, n - 1, show_day_headings);
        assert(shows(before + day, part));
        assert(shows(before + day + lesson_part(lessons[n - 1], show_groups, show_rooms), part));
    }
}

proof fn lemma_body(
    lessons: Seq<LessonView>,
    head: Seq<char>,
    show_groups: bool,
    show_rooms: bool,
    show_day_headings: bool,
    i: int,
    part: Seq<char>,
)
    requires
        0 <= i < lessons.len(),
        shows(lesson_part(lessons[i], show_groups, show_rooms), part) || shows(
            day_part(lessons, i, show_day_headings),
            part,
        ),
    ensures
        shows(
            with_lessons(
                head,
                lessons,
                lessons.len() as int,
                show_groups,
                show_rooms,
                show_day_headings,
            ) + "\n✨ Всего занятий: "@ + decimal(lessons.len()),
            part,
        ),
{
    broadcast use group_shown;

    let n = lessons.len() as int;
    lemma_part_printed(
        head,
        lessons,
        n,
        show_groups,
        show_rooms,
        show_day_headings,
        i,
        part,
    );
    let body = with_lessons(head, lessons, n, show_groups, show_rooms, show_day_headings);
    assert(shows(body + "\n✨ Всего занятий: "@, part));
}

/// A query selects what it asks for and nothing else: the lessons of a group with their rooms and
/// days, those in a room with their groups and days, or those of a day with both; it fails, with a
/// message that names what was asked for, if there are none.
pub proof fn query_selects_what_it_asks_for(
    lessons: Seq<LessonView>,
    command: Command,
    lesson: LessonView,
)
    ensures
        selected(lessons, command) matches Ok(selection) ==> {
            &&& selection.lessons.len() > 0
            &&& command matches Command::Week { group } ==> {
                &&& selection.lessons.contains(lesson) <==> (lessons.contains(lesson)
                    && exists|i: int|
                    0 <= i < lesson.groups.len() && same_but_case(
                        #[trigger] lesson.groups[i],
                        group@,
                    ))
                &&& selection.show_rooms && selection.show_day_headings
                &&& shows(selection.title, group@) && shows(selection.pretty_heading, group@)
            }
            &&& command matches Command::Room { room } ==> {
                &&& selection.lessons.contains(lesson) <==> (lessons.contains(lesson) && (
                lesson.room matches Some(own) && same_but_case(own, room_name(room@))))
                &&& selection.show_groups && selection.show_day_headings
                &&& shows(selection.title, room_name(room@)) && shows(
                    selection.pretty_heading,
                    room_name(room@),
                )
            }
            &&& command matches Command::Day { date } ==> {
                &&& named_date(date@) is Some
                &&& selection.lessons.contains(lesson) <==> (lessons.contains(lesson)
                    && Some(lesson.date) == named_date(date@))
                &&& selection.show_groups && selection.show_rooms
                &&& shows(selection.pretty_heading, dotted(named_date(date@).unwrap()))
            }
        },
        selected(lessons, command) matches Err(message) ==> {
            &&& command matches Command::Week { group } ==> shows(message, group@) && (
            lessons.contains(lesson) ==> forall|i: int|
                0 <= i < lesson.groups.len() ==> !same_but_case(
                    #[trigger] lesson.groups[i],
                    group@,
                ))
            &&& command matches Command::Room { room } ==> shows(message, room_name(room@)) && (
            lessons.contains(lesson) ==> !(lesson.room matches Some(own) && same_but_case(
                own,
                room_name(room@),
            )))
            &&& command matches Command::Day { date } ==> (named_date(date@) is None ==> shows(
                message,
                date@,
            )) && (named_date(date@) matches Some(day) ==> lessons.contains(lesson) ==> lesson.date
                != day)
        },
{
    broadcast use group_shown;

    match command {
        Command::Week { group } => {
            lemma_filtered(lessons, |l: LessonView| is_for_group(l, group@), lesson);
            lessons_are_found_by_group_and_room(lesson, group@, seq![]);
            assert(shows("группа `"@ + group@ + "` не найдена или в расписании нет занятий"@, group@));
            assert(shows("Расписание группы "@ + group@, group@));
            assert(shows("📚 Расписание группы "@ + group@, group@));
        },
        Command::Room { room } => {
            lemma_filtered(lessons, |l: LessonView| is_in_room(l, room@), lesson);
            lessons_are_found_by_group_and_room(lesson, seq![], room@);
            let name = room_name(room@);
            assert(shows("в аудитории `"@ + name + "` нет занятий"@, name));
            assert(shows("Расписание: "@ + name, name));
            assert(shows("🏫 Расписание: "@ + name, name));
        },
        Command::Day { date } => {
            match named_date(date@) {
                None => {
                    assert(shows(
                        "неверная дата `"@ + date@ + "`; используйте ДД.ММ.ГГГГ или ГГГГ-ММ-ДД"@,
                        date@,
                    ));
                },
                Some(day) => {
                    let keep = |l: LessonView| l.date == day;
                    lemma_filtered(lessons, keep, lesson);
                    let found = lessons.filter(keep);
                    assert(shows(
                        "📅 Расписание на "@ + dotted(day) + " · "@ + found[0].weekday,
                        dotted(day),
                    ));
                },
            }
        },
    }
}

proof fn lemma_filtered(
    lessons: Seq<LessonView>,
    keep: spec_fn(LessonView) -> bool,
    lesson: LessonView,
)
    ensures
        lessons.filter(keep).contains(lesson) <==> lessons.contains(lesson) && keep(lesson),
        lessons.filter(keep).len() == 0 ==> !(lessons.contains(lesson) && keep(lesson)),
{
    reveal(Seq::filter);
    if lessons.filter(keep).contains(lesson) {
        let i = choose|i: int|
            0 <= i < lessons.filter(keep).len() && lessons.filter(keep)[i] == lesson;
        lessons.lemma_filter_pred(keep, i);
        lessons.lemma_filter_contains_rev(keep, lesson);
    }
    if lessons.contains(lesson) && keep(lesson) {
        let i = choose|i: int| 0 <= i < lessons.len() && lessons[i] == lesson;
        lessons.lemma_filter_contains(keep, i);
        assert(lessons.filter(keep).contains(lesson));
    }
}

/// Whether a list of things to draw has a text.
pub open spec fn has_text(list: Seq<DrawView>, text: Seq<char>) -> bool {
    exists|k: int|
        0 <= k < list.len() && ((#[trigger] list[k]) matches DrawView::Text { text: t, .. } && t
            == text)
}

pub(crate) proof fn lemma_text_in_sum(a: Seq<DrawView>, b: Seq<DrawView>, text: Seq<char>)
    ensures
        has_text(a, text) || has_text(b, text) ==> has_text(a + b, text),
{
    if has_text(a, text) {
        let k = choose|k: int|
            0 <= k < a.len() && ((#[trigger] a[k]) matches DrawView::Text { text: t, .. } && t
                == text);
        assert((a + b)[k] == a[k]);
    }
    if has_text(b, text) {
        let k = choose|k: int|
            0 <= k < b.len() && ((#[trigger] b[k]) matches DrawView::Text { text: t, .. } && t
                == text);
        assert((a + b)[a.len() + k] == b[k]);
    }
}

proof fn lemma_line_drawn(lines: Seq<Seq<char>>, k: int, y: int, i: int)
    requires
        0 <= i < k <= lines.len(),
    ensures
        has_text(subject_lines(lines, k, y), lines[i]),
    decreases k,
{
    let before = subject_lines(lines, k - 1, y);
    let all = subject_lines(lines, k, y);
    if i < k - 1 {
        lemma_line_drawn(lines, k - 1, y, i);
        let at = choose|at: int|
            0 <= at < before.len() && ((#[trigger] before[at]) matches DrawView::Text {
                text: t,
                ..
            } && t == lines[i]);
        assert(all[at] == before[at]);
    } else {
        assert(all[before.len() as int] == label(
            64,
            y + 30 * (k - 1),
            22,
            (29, 37, 48),
            lines[k - 1],
        ));
    }
}

proof fn lemma_chip_in_row(
    chips: Seq<ChipView>,
    labels: Seq<u32>,
    from: int,
    k: int,
    y: int,
    i: int,
)
    requires
        0 <= i < k,
    ensures
        has_text(row_draws(chips, labels, from, k, y), chips[from + i].label),
    decreases k,
{
    let before = row_draws(chips, labels, from, k - 1, y);
    let own = chip_draws(
        chips[from + k - 1],
        labels[from + k - 1] as int,
        chip_x(labels, from, k - 1),
        y,
    );
    lemma_text_in_sum(before, own, chips[from + i].label);
    if i < k - 1 {
        lemma_chip_in_row(chips, labels, from, k - 1, y, i);
    } else {
        assert(own[3] is Text);
        assert(has_text(own, chips[from + i].label));
    }
}

proof fn lemma_chip_drawn(
    chips: Seq<ChipView>,
    labels: Seq<u32>,
    rows: Seq<int>,
    r: int,
    y: int,
    c: int,
)
    requires
        0 <= r <= rows.len(),
        0 <= c < sum_of(rows.take(r)),
    ensures
        has_text(rows_draws(chips, labels, rows, r, y), chips[c].label),
    decreases r,
{
    if r == 0 {
        assert(rows.take(0) =~= seq![]);
    } else {
        assert(rows.take(r).drop_last() =~= rows.take(r - 1));
        let from = sum_of(rows.take(r - 1));
        let before = rows_draws(chips, labels, rows, r - 1, y);
        let own = row_draws(chips, labels, from, rows[r - 1], y + 36 * (r - 1));
        lemma_text_in_sum(before, own, chips[c].label);
        if c < from {
            lemma_chip_drawn(chips, labels, rows, r - 1, y, c);
        } else {
            lemma_chip_in_row(chips, labels, from, rows[r - 1], y + 36 * (r - 1), c - from);
        }
    }
}

proof fn lemma_card_drawn(lesson: LessonView, card: Card, y: int, text: Seq<char>)
    requires
        card_fits(lesson, card),
        text == card_heading(lesson) || texts(card.lines@).contains(text) || exists|c: int|
            0 <= c < chips_of(lesson).len() && (#[trigger] chips_of(lesson)[c]).label == text,
    ensures
        has_text(card_draws(lesson, card, y), text),
{
    let lines = texts(card.lines@);
    let count = card.lines@.len() as int;
    let chips = chips_of(lesson);
    let rows = card_rows(card);
    let head = seq![
        crate::draw::filled(48, y, 1_304, crate::cards::card_height(card), (255, 255, 255)),
        crate::draw::outline(48, y, 1_304, crate::cards::card_height(card), (218, 225, 234)),
        label(64, y + 10, 22, (38, 92, 150), card_heading(lesson)),
    ];
    let middle = subject_lines(lines, count, y + 38);
    let tail = rows_draws(
        chips,
        card.label_widths@,
        rows,
        rows.len() as int,
        y + 42 + 30 * count,
    );
    lemma_text_in_sum(head, middle, text);
    lemma_text_in_sum(head + middle, tail, text);
    if text == card_heading(lesson) {
        assert(head[2] is Text);
        assert(has_text(head, text));
    } else if lines.contains(text) {
        let i = choose|i: int| 0 <= i < lines.len() && lines[i] == text;
        lemma_line_drawn(lines, count, y + 38, i);
    } else {
        let c = choose|c: int| 0 <= c < chips.len() && (#[trigger] chips[c]).label == text;
        let labels = card.label_widths@;
        assert(rows.take(rows.len() as int) =~= rows);
        if rows.len() > 0 {
            chip_rows_hold_all_and_fit(labels, TEXT_WIDTH as int, 0);
        } else {
            crate::cards::lemma_card_rows(labels, TEXT_WIDTH as int);
        }
        assert(sum_of(rows) == labels.len());
        lemma_chip_drawn(chips, labels, rows, rows.len() as int, y + 42 + 30 * count, c);
    }
}

proof fn lemma_lesson_drawn(
    lessons: Seq<LessonView>,
    cards: Seq<Card>,
    n: int,
    i: int,
    text: Seq<char>,
)
    requires
        0 <= i < n <= lessons.len(),
        forall|y: int| #[trigger] has_text(card_draws(lessons[i], cards[i], y), text) || (opens_day(
            lessons,
            i,
        ) && has_text(day_heading(lessons[i], y), text)),
    ensures
        has_text(lessons_draws(lessons, cards, n), text),
    decreases n,
{
    let y = crate::cards::bottom(lessons, cards, n - 1);
    let before = lessons_draws(lessons, cards, n - 1);
    let day = if opens_day(lessons, n - 1) {
        day_heading(lessons[n - 1], y)
    } else {
        seq![]
    };
    let low = y + day_space(lessons, n - 1);
    let own = card_draws(lessons[n - 1], cards[n - 1], low);
    lemma_text_in_sum(before, day, text);
    lemma_text_in_sum(before + day, own, text);
    if i < n - 1 {
        lemma_lesson_drawn(lessons, cards, n - 1, i, text);
    } else {
        assert(has_text(card_draws(lessons[i], cards[i], low), text) || opens_day(lessons, i));
        assert(has_text(card_draws(lessons[i], cards[i], y), text) || has_text(
            day_heading(lessons[i], y),
            text,
        ));
        if !has_text(own, text) {
            if !has_text(day_heading(lessons[i], y), text) {
                lemma_card_text_is_anywhere(lessons[i], cards[i], y, low, text);
            }
        }
    }
}

/// What is written on a card does not depend on where it lies.
proof fn lemma_card_text_is_anywhere(
    lesson: LessonView,
    card: Card,
    y: int,
    z: int,
    text: Seq<char>,
)
    requires
        has_text(card_draws(lesson, card, y), text),
    ensures
        has_text(card_draws(lesson, card, z), text),
{
    let a = card_draws(lesson, card, y);
    let b = card_draws(lesson, card, z);
    let k = choose|k: int|
        0 <= k < a.len() && ((#[trigger] a[k]) matches DrawView::Text { text: t, .. } && t == text);
    let lines = texts(card.lines@);
    let count = card.lines@.len() as int;
    lemma_lines_len(lines, count, y + 38, z + 38);
    lemma_rows_len(
        chips_of(lesson),
        card.label_widths@,
        card_rows(card),
        card_rows(card).len() as int,
        y + 42 + 30 * count,
        z + 42 + 30 * count,
    );
    let middle = subject_lines(lines, count, y + 38);
    let shifted = subject_lines(lines, count, z + 38);
    let tail = rows_draws(
        chips_of(lesson),
        card.label_widths@,
        card_rows(card),
        card_rows(card).len() as int,
        y + 42 + 30 * count,
    );
    let moved = rows_draws(
        chips_of(lesson),
        card.label_widths@,
        card_rows(card),
        card_rows(card).len() as int,
        z + 42 + 30 * count,
    );
    if k < 3 {
        assert(b[k] is Text);
    } else if k < 3 + middle.len() {
        assert(a[k] == middle[k - 3] && b[k] == shifted[k - 3]);
    } else {
        let at = k - 3 - middle.len();
        assert(a[k] == tail[at] && b[k] == moved[at]);
    }
}

/// Whether two things to draw say the same.
spec fn says_the_same(a: DrawView, b: DrawView) -> bool {
    match a {
        DrawView::Text { text, .. } => b matches DrawView::Text { text: other, .. } && other == text,
        _ => true,
    }
}

proof fn lemma_lines_len(lines: Seq<Seq<char>>, k: int, y: int, z: int)
    ensures
        subject_lines(lines, k, y).len() == subject_lines(lines, k, z).len(),
        forall|i: int|
            0 <= i < subject_lines(lines, k, y).len() ==> says_the_same(
                #[trigger] subject_lines(lines, k, y)[i],
                subject_lines(lines, k, z)[i],
            ),
    decreases k,
{
    if k > 0 {
        lemma_lines_len(lines, k - 1, y, z);
        let before = subject_lines(lines, k - 1, y);
        let other = subject_lines(lines, k - 1, z);
        assert forall|i: int| 0 <= i < subject_lines(lines, k, y).len() implies says_the_same(
            #[trigger] subject_lines(lines, k, y)[i],
            subject_lines(lines, k, z)[i],
        ) by {
            if i < before.len() {
                assert(subject_lines(lines, k, y)[i] == before[i]);
                assert(subject_lines(lines, k, z)[i] == other[i]);
            }
        }
    }
}

proof fn lemma_row_len(
    chips: Seq<ChipView>,
    labels: Seq<u32>,
    from: int,
    k: int,
    y: int,
    z: int,
)
    ensures
        row_draws(chips, labels, from, k, y).len() == row_draws(chips, labels, from, k, z).len(),
        forall|i: int|
            0 <= i < row_draws(chips, labels, from, k, y).len() ==> says_the_same(
                #[trigger] row_draws(chips, labels, from, k, y)[i],
                row_draws(chips, labels, from, k, z)[i],
            ),
    decreases k,
{
    if k > 0 {
        lemma_row_len(chips, labels, from, k - 1, y, z);
        let before = row_draws(chips, labels, from, k - 1, y);
        let other = row_draws(chips, labels, from, k - 1, z);
        assert forall|i: int|
            0 <= i < row_draws(chips, labels, from, k, y).len() implies says_the_same(
            #[trigger] row_draws(chips, labels, from, k, y)[i],
            row_draws(chips, labels, from, k, z)[i],
        ) by {
            if i < before.len() {
                assert(row_draws(chips, labels, from, k, y)[i] == before[i]);
                assert(row_draws(chips, labels, from, k, z)[i] == other[i]);
            }
        }
    }
}

proof fn lemma_rows_len(
    chips: Seq<ChipView>,
    labels: Seq<u32>,
    rows: Seq<int>,
    r: int,
    y: int,
    z: int,
)
    ensures
        rows_draws(chips, labels, rows, r, y).len() == rows_draws(chips, labels, rows, r, z).len(),
        forall|i: int|
            0 <= i < rows_draws(chips, labels, rows, r, y).len() ==> says_the_same(
                #[trigger] rows_draws(chips, labels, rows, r, y)[i],
                rows_draws(chips, labels, rows, r, z)[i],
            ),
    decreases r,
{
    if r > 0 {
        lemma_rows_len(chips, labels, rows, r - 1, y, z);
        let from = sum_of(rows.take(r - 1));
        lemma_row_len(
            chips,
            labels,
            from,
            rows[r - 1],
            y + 36 * (r - 1),
            z + 36 * (r - 1),
        );
        let before = rows_draws(chips, labels, rows, r - 1, y);
        let other = rows_draws(chips, labels, rows, r - 1, z);
        let own = row_draws(chips, labels, from, rows[r - 1], y + 36 * (r - 1));
        let moved = row_draws(chips, labels, from, rows[r - 1], z + 36 * (r - 1));
        assert forall|i: int|
            0 <= i < rows_draws(chips, labels, rows, r, y).len() implies says_the_same(
            #[trigger] rows_draws(chips, labels, rows, r, y)[i],
            rows_draws(chips, labels, rows, r, z)[i],
        ) by {
            if i < before.len() {
                assert(rows_draws(chips, labels, rows, r, y)[i] == before[i]);
                assert(rows_draws(chips, labels, rows, r, z)[i] == other[i]);
            } else {
                let at = i - before.len();
                assert(rows_draws(chips, labels, rows, r, y)[i] == own[at]);
                assert(rows_draws(chips, labels, rows, r, z)[i] == moved[at]);
            }
        }
    }
}

/// The picture of a timetable shows its title and every lesson: a heading with its times, its number
/// and its groups, the lines of its subject, and a chip for its type, its teacher and its room where
/// they are known; and the day of the first lesson of each day.
pub proof fn picture_shows_every_lesson(
    lessons: Seq<LessonView>,
    title: Seq<char>,
    cards: Seq<Card>,
    i: int,
)
    requires
        0 <= i < lessons.len(),
        cards.len() == lessons.len(),
        card_fits(lessons[i], cards[i]),
    ensures
        ({
            let picture = timetable_picture(lessons, title, cards);
            let lesson = lessons[i];
            &&& has_text(picture, title)
            &&& has_text(
                picture,
                lesson.start_time + "–"@ + lesson.end_time + " · пара №"@ + decimal(
                    lesson.lesson_number as nat,
                ) + " · "@ + joined(lesson.groups, ", "@),
            )
            &&& forall|k: int|
                0 <= k < cards[i].lines@.len() ==> has_text(
                    picture,
                    (#[trigger] cards[i].lines@[k])@,
                )
            &&& lesson.lesson_type matches Some(kind) ==> has_text(picture, "Вид: "@ + kind)
            &&& lesson.teacher matches Some(teacher) ==> has_text(
                picture,
                "Преподаватель: "@ + teacher,
            )
            &&& lesson.room matches Some(room) ==> has_text(picture, "Аудитория: "@ + room)
            &&& i == 0 || lessons[i - 1].date != lesson.date ==> has_text(
                picture,
                lesson.weekday + " · "@ + dotted(lesson.date),
            )
        }),
{
    let picture = timetable_picture(lessons, title, cards);
    let lesson = lessons[i];
    let n = lessons.len() as int;
    let head = seq![
        crate::draw::filled(0, 0, 1_400, 114, (25, 54, 91)),
        label(48, 35, 34, (255, 255, 255), title),
    ];
    let all = lessons_draws(lessons, cards, n);
    assert(head[1] is Text);
    assert(has_text(head, title));
    lemma_text_in_sum(head, all, title);
    lemma_shown_on_card(lessons, title, cards, i, card_heading(lesson));
    assert forall|k: int| 0 <= k < cards[i].lines@.len() implies has_text(
        picture,
        (#[trigger] cards[i].lines@[k])@,
    ) by {
        assert(texts(cards[i].lines@)[k] == cards[i].lines@[k]@);
        assert(texts(cards[i].lines@).contains(cards[i].lines@[k]@));
        lemma_shown_on_card(lessons, title, cards, i, cards[i].lines@[k]@);
    }
    let chips = chips_of(lesson);
    let first = optional_chip("Вид: "@, lesson.lesson_type, (237, 233, 254), (91, 55, 145));
    let second = optional_chip("Преподаватель: "@, lesson.teacher, (220, 245, 235), (35, 111, 81));
    let third = optional_chip("Аудитория: "@, lesson.room, (255, 237, 213), (148, 78, 24));
    if let Some(kind) = lesson.lesson_type {
        assert(chips[0] == first[0]);
        lemma_shown_on_card(lessons, title, cards, i, "Вид: "@ + kind);
    }
    if let Some(teacher) = lesson.teacher {
        assert(chips[first.len() as int] == second[0]);
        lemma_shown_on_card(lessons, title, cards, i, "Преподаватель: "@ + teacher);
    }
    if let Some(room) = lesson.room {
        assert(chips[(first.len() + second.len()) as int] == third[0]);
        lemma_shown_on_card(lessons, title, cards, i, "Аудитория: "@ + room);
    }
    if i == 0 || lessons[i - 1].date != lesson.date {
        let day = lesson.weekday + " · "@ + dotted(lesson.date);
        assert forall|y: int| #[trigger] has_text(card_draws(lessons[i], cards[i], y), day) || (
        opens_day(lessons, i) && has_text(day_heading(lessons[i], y), day)) by {
            assert(day_heading(lessons[i], y)[1] is Text);
        }
        lemma_lesson_drawn(lessons, cards, n, i, day);
        lemma_text_in_sum(head, all, day);
    }
}

proof fn lemma_shown_on_card(
    lessons: Seq<LessonView>,
    title: Seq<char>,
    cards: Seq<Card>,
    i: int,
    text: Seq<char>,
)
    requires
        0 <= i < lessons.len(),
        card_fits(lessons[i], cards[i]),
        text == card_heading(lessons[i]) || texts(cards[i].lines@).contains(text) || exists|c: int|
            0 <= c < chips_of(lessons[i]).len() && (#[trigger] chips_of(lessons[i])[c]).label
                == text,
    ensures
        has_text(timetable_picture(lessons, title, cards), text),
{
    let n = lessons.len() as int;
    let head = seq![
        crate::draw::filled(0, 0, 1_400, 114, (25, 54, 91)),
        label(48, 35, 34, (255, 255, 255), title),
    ];
    assert forall|y: int| #[trigger] has_text(card_draws(lessons[i], cards[i], y), text) || (
    opens_day(lessons, i) && has_text(day_heading(lessons[i], y), text)) by {
        lemma_card_drawn(lessons[i], cards[i], y, text);
    }
    lemma_lesson_drawn(lessons, cards, n, i, text);
    lemma_text_in_sum(head, lessons_draws(lessons, cards, n), text);
}

} // verus!
