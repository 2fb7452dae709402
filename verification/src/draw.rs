//! What is drawn on the display: a list of commands.

use vstd::prelude::*;
use vstd::string::*;

verus! {

/// The display's resolution.
pub const WIDTH: u32 = 800;

pub const HEIGHT: u32 = 480;

pub const WHITE: u8 = 255;

pub const BLACK: u8 = 0;

pub const LIGHT_GRAY: u8 = 200;

pub const DARK_GRAY: u8 = 80;

/// One step of a drawing. Coordinates are pixels from the top left corner, and `shade` is
/// a grey level.
pub enum DrawCmd {
    /// A text whose top left corner is at `(x, y)`, `size` pixels high.
    Text { shade: u8, x: i32, y: i32, size: u32, bold: bool, text: String },
    /// A straight line between two points.
    Line { shade: u8, x0: i32, y0: i32, x1: i32, y1: i32 },
    /// A filled rectangle whose top left corner is at `(x, y)`.
    Fill { shade: u8, x: i32, y: i32, width: u32, height: u32 },
}

/// A command, with its text as characters.
pub enum DrawView {
    Text { shade: u8, x: int, y: int, size: int, bold: bool, text: Seq<char> },
    Line { shade: u8, x0: int, y0: int, x1: int, y1: int },
    Fill { shade: u8, x: int, y: int, width: int, height: int },
}

impl View for DrawCmd {
    type V = DrawView;

    open spec fn view(&self) -> DrawView {
        match self {
            DrawCmd::Text { shade, x, y, size, bold, text } => DrawView::Text {
                shade: *shade,
                x: *x as int,
                y: *y as int,
                size: *size as int,
                bold: *bold,
                text: text@,
            },
            DrawCmd::Line { shade, x0, y0, x1, y1 } => DrawView::Line {
                shade: *shade,
                x0: *x0 as int,
                y0: *y0 as int,
                x1: *x1 as int,
                y1: *y1 as int,
            },
            DrawCmd::Fill { shade, x, y, width, height } => DrawView::Fill {
                shade: *shade,
                x: *x as int,
                y: *y as int,
                width: *width as int,
                height: *height as int,
            },
        }
    }
}

/// The commands of a drawing, with their texts as characters.
pub open spec fn drawing(cmds: Seq<DrawCmd>) -> Seq<DrawView> {
    cmds.map_values(|c: DrawCmd| c@)
}

pub(crate) fn push_text(
    cmds: &mut Vec<DrawCmd>,
    shade: u8,
    x: i32,
    y: i32,
    size: u32,
    bold: bool,
    text: String,
)
    ensures
        drawing(final(cmds)@) == drawing(old(cmds)@).push(
            DrawView::Text {
                shade,
                x: x as int,
                y: y as int,
                size: size as int,
                bold,
                text: text@,
            },
        ),
{
    let cmd = DrawCmd::Text { shade, x, y, size, bold, text };
    let ghost view = cmd@;
    cmds.push(cmd);
    assert(drawing(cmds@) =~= drawing(old(cmds)@).push(view));
}

pub(crate) fn push_line(cmds: &mut Vec<DrawCmd>, shade: u8, x0: i32, y0: i32, x1: i32, y1: i32)
    ensures
        drawing(final(cmds)@) == drawing(old(cmds)@).push(
            DrawView::Line {
                shade,
                x0: x0 as int,
                y0: y0 as int,
                x1: x1 as int,
                y1: y1 as int,
            },
        ),
{
    let cmd = DrawCmd::Line { shade, x0, y0, x1, y1 };
    let ghost view = cmd@;
    cmds.push(cmd);
    assert(drawing(cmds@) =~= drawing(old(cmds)@).push(view));
}

pub(crate) fn push_fill(
    cmds: &mut Vec<DrawCmd>,
    shade: u8,
    x: i32,
    y: i32,
    width: u32,
    height: u32,
)
    ensures
        drawing(final(cmds)@) == drawing(old(cmds)@).push(
            DrawView::Fill {
                shade,
                x: x as int,
                y: y as int,
                width: width as int,
                height: height as int,
            },
        ),
{
    let cmd = DrawCmd::Fill { shade, x, y, width, height };
    let ghost view = cmd@;
    cmds.push(cmd);
    assert(drawing(cmds@) =~= drawing(old(cmds)@).push(view));
}

/// The command stays on the display.
pub open spec fn on_display(c: DrawView) -> bool {
    match c {
        DrawView::Text { x, y, size, .. } => 0 <= x < WIDTH && 0 <= y && y + size <= HEIGHT,
        DrawView::Line { x0, y0, x1, y1, .. } => 0 <= x0 <= WIDTH && 0 <= x1 <= WIDTH && 0 <= y0
            < HEIGHT && 0 <= y1 < HEIGHT,
        DrawView::Fill { x, y, width, height, .. } => 0 <= x && x + width <= WIDTH && 0 <= y && y
            + height <= HEIGHT && width > 0 && height > 0,
    }
}

/// Nothing of a command is left out of its view, and nothing of a drawing.
pub proof fn law_views_are_whole(cmds: Seq<DrawCmd>, i: int)
    requires
        0 <= i < cmds.len(),
    ensures
        drawing(cmds).len() == cmds.len(),
        cmds[i] matches DrawCmd::Text { shade, x, y, size, bold, text } ==> drawing(cmds)[i] == (
        DrawView::Text {
            shade,
            x: x as int,
            y: y as int,
            size: size as int,
            bold,
            text: text@,
        }),
        cmds[i] matches DrawCmd::Line { shade, x0, y0, x1, y1 } ==> drawing(cmds)[i] == (
        DrawView::Line { shade, x0: x0 as int, y0: y0 as int, x1: x1 as int, y1: y1 as int }),
        cmds[i] matches DrawCmd::Fill { shade, x, y, width, height } ==> drawing(cmds)[i] == (
        DrawView::Fill {
            shade,
            x: x as int,
            y: y as int,
            width: width as int,
            height: height as int,
        }),
{
}

/// The display is 800 pixels wide and 480 high. On it stand a text that starts on it and ends
/// above its lower edge, a line between points on it or at its right edge, and a rectangle that
/// lies on it.
pub proof fn law_on_display(shade: u8, a: int, b: int, c: int, d: int, bold: bool, text: Seq<char>)
    ensures
        on_display(DrawView::Text { shade, x: a, y: b, size: c, bold, text }) <==> 0 <= a < 800
            && 0 <= b && b + c <= 480,
        on_display(DrawView::Line { shade, x0: a, y0: b, x1: c, y1: d }) <==> 0 <= a <= 800 && 0
            <= b < 480 && 0 <= c <= 800 && 0 <= d < 480,
        on_display(DrawView::Fill { shade, x: a, y: b, width: c, height: d }) <==> 0 <= a && 0 <= b
            && 0 < c && 0 < d && a + c <= 800 && b + d <= 480,
        WIDTH == 800,
        HEIGHT == 480,
{
}

} // verus!
