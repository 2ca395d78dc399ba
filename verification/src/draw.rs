//! Pictures as lists of things to draw, in the order in which they are drawn.

use vstd::prelude::*;

verus! {

/// Red, green and blue.
pub type Color = (u8, u8, u8);

/// One thing to draw. Places are those of the upper left corner, or of a circle's centre.
#[derive(Debug, PartialEq, Eq)]
pub enum Draw {
    FilledRect { x: i32, y: i32, width: u32, height: u32, color: Color },
    HollowRect { x: i32, y: i32, width: u32, height: u32, color: Color },
    FilledCircle { x: i32, y: i32, radius: i32, color: Color },
    Text { x: i32, y: i32, size: u32, color: Color, text: String },
    Series { x: i32, y: i32, width: u32, height: u32, color: Color, values: Vec<u64> },
}

/// One thing to draw.
pub enum DrawView {
    FilledRect { x: int, y: int, width: int, height: int, color: Color },
    HollowRect { x: int, y: int, width: int, height: int, color: Color },
    FilledCircle { x: int, y: int, radius: int, color: Color },
    Text { x: int, y: int, size: int, color: Color, text: Seq<char> },
    Series { x: int, y: int, width: int, height: int, color: Color, values: Seq<u64> },
}

impl View for Draw {
    type V = DrawView;

    open spec fn view(&self) -> DrawView {
        match *self {
            Draw::FilledRect { x, y, width, height, color } => DrawView::FilledRect {
                x: x as int,
                y: y as int,
                width: width as int,
                height: height as int,
                color,
            },
            Draw::HollowRect { x, y, width, height, color } => DrawView::HollowRect {
                x: x as int,
                y: y as int,
                width: width as int,
                height: height as int,
                color,
            },
            Draw::FilledCircle { x, y, radius, color } => DrawView::FilledCircle {
                x: x as int,
                y: y as int,
                radius: radius as int,
                color,
            },
            Draw::Text { x, y, size, color, text } => DrawView::Text {
                x: x as int,
                y: y as int,
                size: size as int,
                color,
                text: text@,
            },
            Draw::Series { x, y, width, height, color, values } => DrawView::Series {
                x: x as int,
                y: y as int,
                width: width as int,
                height: height as int,
                color,
                values: values@,
            },
        }
    }
}

/// The contents of a list of things to draw.
pub open spec fn draws(list: Seq<Draw>) -> Seq<DrawView> {
    list.map_values(|draw: Draw| draw@)
}

/// A filled rectangle.
pub open spec fn filled(x: int, y: int, width: int, height: int, color: Color) -> DrawView {
    DrawView::FilledRect { x, y, width, height, color }
}

/// The outline of a rectangle.
pub open spec fn outline(x: int, y: int, width: int, height: int, color: Color) -> DrawView {
    DrawView::HollowRect { x, y, width, height, color }
}

/// A filled circle.
pub open spec fn disc(x: int, y: int, radius: int, color: Color) -> DrawView {
    DrawView::FilledCircle { x, y, radius, color }
}

/// A line of text.
pub open spec fn label(x: int, y: int, size: int, color: Color, text: Seq<char>) -> DrawView {
    DrawView::Text { x, y, size, color, text }
}

fn push_draw(list: &mut Vec<Draw>, draw: Draw)
    ensures
        draws(final(list)@) == draws(old(list)@).push(draw@),
{
    let ghost before = list@;
    list.push(draw);
    assert(draws(list@) =~= draws(before).push(draw@));
}

/// Adds a filled rectangle.
pub fn push_filled(list: &mut Vec<Draw>, x: i32, y: i32, width: u32, height: u32, color: Color)
    ensures
        draws(final(list)@) == draws(old(list)@).push(
            filled(x as int, y as int, width as int, height as int, color),
        ),
{
    push_draw(list, Draw::FilledRect { x, y, width, height, color });
}

/// Adds the outline of a rectangle.
pub fn push_outline(list: &mut Vec<Draw>, x: i32, y: i32, width: u32, height: u32, color: Color)
    ensures
        draws(final(list)@) == draws(old(list)@).push(
            outline(x as int, y as int, width as int, height as int, color),
        ),
{
    push_draw(list, Draw::HollowRect { x, y, width, height, color });
}

/// Adds a filled circle.
pub fn push_disc(list: &mut Vec<Draw>, x: i32, y: i32, radius: i32, color: Color)
    ensures
        draws(final(list)@) == draws(old(list)@).push(
            disc(x as int, y as int, radius as int, color),
        ),
{
    push_draw(list, Draw::FilledCircle { x, y, radius, color });
}

/// Adds a line of text.
pub fn push_label(list: &mut Vec<Draw>, x: i32, y: i32, size: u32, color: Color, text: String)
    ensures
        draws(final(list)@) == draws(old(list)@).push(
            label(x as int, y as int, size as int, color, text@),
        ),
{
    push_draw(list, Draw::Text { x, y, size, color, text });
}

/// Adds the line of a series.
pub fn push_series(
    list: &mut Vec<Draw>,
    x: i32,
    y: i32,
    width: u32,
    height: u32,
    color: Color,
    values: Vec<u64>,
)
    ensures
        draws(final(list)@) == draws(old(list)@).push(
            DrawView::Series {
                x: x as int,
                y: y as int,
                width: width as int,
                height: height as int,
                color,
                values: values@,
            },
        ),
{
    push_draw(list, Draw::Series { x, y, width, height, color, values });
}

} // verus!
