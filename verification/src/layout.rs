//! In which order lessons are selected, printed and drawn, and where.

use crate::cards::{
    bottom, card_draws, card_heading, card_height, day_heading, day_space, lessons_draws,
    picture_height, picture_is_high_enough, timetable_picture, Card,
};
use crate::date::{dotted, DateView};
use crate::draw::{filled, label, DrawView};
use crate::fields::same_but_case;
use crate::format::opens_day;
use crate::lesson::LessonView;
use crate::parser::{is_for_group, is_in_room, room_name};
use crate::pretty::{
    named_date, pretty_text, range_text, selected, span_part, with_lessons, Command,
};
use crate::text::{decimal, has_prefix, signed_decimal};
use vstd::prelude::*;

verus! {

/// The lessons that a query finds; none where it is refused.
pub open spec fn found_by(lessons: Seq<LessonView>, command: Command) -> Seq<LessonView> {
    match selected(lessons, command) {
        Ok(selection) => selection.lessons,
        Err(_) => seq![],
    }
}

/// Whether a query asks for a lesson: for one of its groups, for its room, or for its date.
pub open spec fn is_asked_for(lesson: LessonView, command: Command) -> bool {
    match command {
        Command::Week { group } => exists|i: int|
            0 <= i < lesson.groups.len() && same_but_case(#[trigger] lesson.groups[i], group@),
        Command::Room { room } => lesson.room matches Some(own) && same_but_case(
            own,
            room_name(room@),
        ),
        Command::Day { date } => named_date(date@) == Some(lesson.date),
    }
}

proof fn lemma_filter_push(
    lessons: Seq<LessonView>,
    lesson: LessonView,
    keep: spec_fn(LessonView) -> bool,
)
    ensures
        lessons.push(lesson).filter(keep) == if keep(lesson) {
            lessons.filter(keep).push(lesson)
        } else {
            lessons.filter(keep)
        },
{
    reveal(Seq::filter);
    assert(lessons.push(lesson).drop_last() =~= lessons);
}

/// A query finds lessons in the order of the timetable, each as often as it stands there: one lesson
/// more at its end is found behind the others if it is asked for, and changes nothing if it is not.
pub proof fn lessons_are_found_in_their_order(
    lessons: Seq<LessonView>,
    lesson: LessonView,
    command: Command,
)
    ensures
        found_by(seq![], command) == Seq::<LessonView>::empty(),
        found_by(lessons.push(lesson), command) == if is_asked_for(lesson, command) {
            found_by(lessons, command).push(lesson)
        } else {
            found_by(lessons, command)
        },
{
    let none = Seq::<LessonView>::empty();
    let all = lessons.push(lesson);
    match command {
        Command::Week { group } => {
            let keep = |l: LessonView| is_for_group(l, group@);
            lemma_filter_push(lessons, lesson, keep);
            crate::fields::lessons_are_found_by_group_and_room(lesson, group@, seq![]);
            assert(none.filter(keep) =~= none) by {
                reveal(Seq::filter);
            }
            assert(lessons.filter(keep).len() == 0 ==> lessons.filter(keep) =~= none);
        },
        Command::Room { room } => {
            let keep = |l: LessonView| is_in_room(l, room@);
            lemma_filter_push(lessons, lesson, keep);
            crate::fields::lessons_are_found_by_group_and_room(lesson, seq![], room@);
            assert(none.filter(keep) =~= none) by {
                reveal(Seq::filter);
            }
            assert(lessons.filter(keep).len() == 0 ==> lessons.filter(keep) =~= none);
        },
        Command::Day { date } => {
            if let Some(day) = named_date(date@) {
                let keep = |l: LessonView| l.date == day;
                lemma_filter_push(lessons, lesson, keep);
                assert(none.filter(keep) =~= none) by {
                    reveal(Seq::filter);
                }
                assert(lessons.filter(keep).len() == 0 ==> lessons.filter(keep) =~= none);
            }
        },
    }
}

/// A printout leaves out what its query has told already: the group of a timetable of a group, the
/// room of one of a room, and the day of one of a day.
pub proof fn printouts_do_not_repeat_the_query(lessons: Seq<LessonView>, command: Command)
    ensures
        selected(lessons, command) matches Ok(selection) ==> {
            &&& selection.show_groups <==> !(command is Week)
            &&& selection.show_rooms <==> !(command is Room)
            &&& selection.show_day_headings <==> !(command is Day)
        },
{
}

/// A printout with days tells which days it spans: the whole dates of the first and the last, or one
/// date where they are the same, or the days once, the month and the year where these are shared.
pub proof fn printout_tells_its_span(
    lessons: Seq<LessonView>,
    heading: Seq<char>,
    show_groups: bool,
    show_rooms: bool,
)
    requires
        lessons.len() > 0,
    ensures
        ({
            let text = pretty_text(lessons, heading, show_groups, show_rooms, true);
            let first = lessons[0].date;
            let last = lessons.last().date;
            &&& first == last ==> has_prefix(text, heading + " · "@ + dotted(first))
            &&& first.year != last.year || first.month != last.month ==> has_prefix(
                text,
                heading + " · "@ + dotted(first) + "–"@ + dotted(last),
            )
            &&& first.year == last.year && first.month == last.month && first.day != last.day
                ==> has_prefix(
                text,
                heading + " · "@ + decimal(first.day as nat) + "–"@ + decimal(last.day as nat)
                    + "."@ + decimal(last.month as nat) + "."@ + signed_decimal(last.year),
            )
        }),
{
    let text = pretty_text(lessons, heading, show_groups, show_rooms, true);
    let first = lessons[0].date;
    let last = lessons.last().date;
    let line = "\n━━━━━━━━━━━━━━━━━━━━━━━━━━━━━━━━━━━━━━━━\n"@;
    let told = heading + span_part(lessons, true);
    let n = lessons.len() as int;
    lemma_begins(told + line, lessons, n, show_groups, show_rooms);
    let body = with_lessons(told + line, lessons, n, show_groups, show_rooms, true);
    assert(text.take(told.len() as int) =~= body.take((told + line).len() as int).take(
        told.len() as int,
    ));
    assert(text.take(told.len() as int) =~= told);
    assert(told == heading + (" · "@ + range_text(first, last)));
    lemma_span(heading, first, last);
}

proof fn lemma_span(heading: Seq<char>, first: DateView, last: DateView)
    ensures
        first == last ==> heading + (" · "@ + range_text(first, last)) == heading + " · "@ + dotted(
            first,
        ),
        first.year != last.year || first.month != last.month ==> heading + (" · "@ + range_text(
            first,
            last,
        )) == heading + " · "@ + dotted(first) + "–"@ + dotted(last),
        first.year == last.year && first.month == last.month && first.day != last.day ==> heading + (
        " · "@ + range_text(first, last)) == heading + " · "@ + decimal(first.day as nat) + "–"@
            + decimal(last.day as nat) + "."@ + decimal(last.month as nat) + "."@ + signed_decimal(
            last.year,
        ),
{
    let told = heading + (" · "@ + range_text(first, last));
    if first == last {
        assert(told =~= heading + " · "@ + dotted(first));
    } else if first.year != last.year || first.month != last.month {
        assert(told =~= heading + " · "@ + dotted(first) + "–"@ + dotted(last));
    } else {
        assert(told =~= heading + " · "@ + decimal(first.day as nat) + "–"@ + decimal(
            last.day as nat,
        ) + "."@ + decimal(last.month as nat) + "."@ + signed_decimal(last.year));
    }
}

proof fn lemma_begins(
    head: Seq<char>,
    lessons: Seq<LessonView>,
    n: int,
    show_groups: bool,
    show_rooms: bool,
)
    ensures
        ({
            let text = with_lessons(head, lessons, n, show_groups, show_rooms, true);
            text.len() >= head.len() && text.take(head.len() as int) == head
        }),
    decreases n,
{
    if n <= 0 {
        assert(head.take(head.len() as int) =~= head);
    } else {
        lemma_begins(head, lessons, n - 1, show_groups, show_rooms);
        let before = with_lessons(head, lessons, n - 1, show_groups, show_rooms, true);
        let text = with_lessons(head, lessons, n, show_groups, show_rooms, true);
        assert(text.take(head.len() as int) =~= before.take(head.len() as int));
    }
}

/// Whether the card of a lesson stands at a height: its frame, and its heading within it.
pub open spec fn card_stands_at(
    picture: Seq<DrawView>,
    lesson: LessonView,
    card: Card,
    y: int,
) -> bool {
    &&& picture.contains(filled(48, y, 1_304, card_height(card), (255, 255, 255)))
    &&& picture.contains(label(64, y + 10, 22, (38, 92, 150), card_heading(lesson)))
}

/// Whether the cards of lessons stand one below the other, from the title to the end of the picture,
/// with room for the heading of a day above the first lesson of each.
pub open spec fn cards_stand_at(
    lessons: Seq<LessonView>,
    title: Seq<char>,
    cards: Seq<Card>,
    heights: Seq<int>,
) -> bool {
    &&& heights.len() == lessons.len()
    &&& forall|i: int|
        0 <= i < heights.len() ==> {
            let y = #[trigger] heights[i];
            let above: int = if i == 0 {
                114
            } else {
                heights[i - 1] + card_height(cards[i - 1])
            };
            let day: int = if i == 0 || lessons[i - 1].date != lessons[i].date {
                42
            } else {
                0
            };
            &&& card_stands_at(
                timetable_picture(lessons, title, cards),
                lessons[i],
                cards[i],
                y,
            )
            &&& above + day < y
            &&& y + card_height(cards[i]) < picture_height(lessons, cards)
        }
}

proof fn lemma_drawn(lessons: Seq<LessonView>, cards: Seq<Card>, n: int, i: int, draw: DrawView)
    requires
        0 <= i < n <= lessons.len(),
        card_draws(
            lessons[i],
            cards[i],
            bottom(lessons, cards, i) + day_space(lessons, i),
        ).contains(draw),
    ensures
        lessons_draws(lessons, cards, n).contains(draw),
    decreases n,
{
    let before = lessons_draws(lessons, cards, n - 1);
    let y = bottom(lessons, cards, n - 1);
    let day = if opens_day(lessons, n - 1) {
        day_heading(lessons[n - 1], y)
    } else {
        seq![]
    };
    let own = card_draws(lessons[n - 1], cards[n - 1], y + day_space(lessons, n - 1));
    let all = lessons_draws(lessons, cards, n);
    assert(all == before + day + own);
    if i < n - 1 {
        lemma_drawn(lessons, cards, n - 1, i, draw);
        let k = choose|k: int| 0 <= k < before.len() && before[k] == draw;
        assert(all[k] == draw);
    } else {
        let k = choose|k: int| 0 <= k < own.len() && own[k] == draw;
        assert(all[before.len() + day.len() + k] == draw);
    }
}

/// The cards of a picture stand one below the other, each with its own heading, none over another, over
/// the title or beyond the end of the picture.
pub proof fn cards_stand_below_each_other(
    lessons: Seq<LessonView>,
    title: Seq<char>,
    cards: Seq<Card>,
)
    requires
        cards.len() == lessons.len(),
    ensures
        exists|heights: Seq<int>| #[trigger] cards_stand_at(lessons, title, cards, heights),
{
    let n = lessons.len() as int;
    let heights = Seq::new(
        lessons.len(),
        |i: int| bottom(lessons, cards, i) + day_space(lessons, i),
    );
    let picture = timetable_picture(lessons, title, cards);
    let all = lessons_draws(lessons, cards, n);
    assert forall|i: int| 0 <= i < heights.len() implies {
        let y = #[trigger] heights[i];
        let above: int = if i == 0 {
            114
        } else {
            heights[i - 1] + card_height(cards[i - 1])
        };
        let day: int = if i == 0 || lessons[i - 1].date != lessons[i].date {
            42
        } else {
            0
        };
        &&& card_stands_at(picture, lessons[i], cards[i], y)
        &&& above + day < y
        &&& y + card_height(cards[i]) < picture_height(lessons, cards)
    } by {
        let y = heights[i];
        let own = card_draws(lessons[i], cards[i], y);
        let frame = filled(48, y, 1_304, card_height(cards[i]), (255, 255, 255));
        let heading = label(64, y + 10, 22, (38, 92, 150), card_heading(lessons[i]));
        assert(own[0] == frame);
        assert(own[2] == heading);
        lemma_drawn(lessons, cards, n, i, frame);
        lemma_drawn(lessons, cards, n, i, heading);
        let k = choose|k: int| 0 <= k < all.len() && all[k] == frame;
        assert(picture[2 + k] == frame);
        let k = choose|k: int| 0 <= k < all.len() && all[k] == heading;
        assert(picture[2 + k] == heading);
        assert(bottom(lessons, cards, i + 1) == y + card_height(cards[i]) + 14);
        picture_is_high_enough(lessons, cards, i + 1);
        if i > 0 {
            assert(bottom(lessons, cards, i) == heights[i - 1] + card_height(cards[i - 1]) + 14);
        } else {
            assert(bottom(lessons, cards, 0) == 140);
        }
    }
    assert(cards_stand_at(lessons, title, cards, heights));
}

} // verus!
