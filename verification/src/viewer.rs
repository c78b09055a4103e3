//! What a viewer of a document shows: the line segments that the pen draws.
//!
//! A viewer follows the parsed commands themselves. It tracks the pen, where
//! it is, whether it is down and which one it is, and shows a segment for each
//! move made with a pen other than pen 0 down.

use vstd::prelude::*;
use crate::command::{view_commands, Command, CommandView, Point};
use crate::text::same_text;

verus! {

/// A visible line.
#[derive(Copy, Clone, Debug, PartialEq, Eq)]
pub struct Segment {
    pub start: Point,
    pub end: Point,
    pub color: u8,
}

/// The pen as a viewer tracks it.
#[derive(Copy, Clone, Debug, PartialEq, Eq)]
pub struct Pen {
    pub color: u8,
    pub position: Point,
    pub down: bool,
}

/// The pen before the first command: no pen, lifted, at the origin.
pub open spec fn start_pen() -> Pen {
    Pen { color: 0, position: Point { x: 0, y: 0 }, down: false }
}

/// What a move of `pen` to `to` shows: a segment if the pen is down and is
/// not pen 0, else nothing.
pub open spec fn stroke(pen: Pen, to: Point) -> Seq<Segment> {
    if pen.down && pen.color != 0 {
        seq![Segment { start: pen.position, end: to, color: pen.color }]
    } else {
        Seq::empty()
    }
}

/// The pen after it has moved through `points`, and what that shows. Where
/// `lowering` is set the pen is down from the first point on.
pub open spec fn moves(pen: Pen, points: Seq<Point>, lowering: bool) -> (Pen, Seq<Segment>)
    decreases points.len(),
{
    if points.len() == 0 {
        (pen, Seq::empty())
    } else {
        let (before, shown) = moves(pen, points.drop_last(), lowering);
        (
            Pen { position: points.last(), down: before.down || lowering, ..before },
            shown + stroke(before, points.last()),
        )
    }
}

/// Whether `v` is a coordinate.
pub open spec fn in_range(v: int) -> bool {
    i32::MIN <= v <= i32::MAX
}

/// The pen after it has moved by each of `offsets` in turn, and what that
/// shows; nothing where a move leaves the coordinate range.
pub open spec fn relative_moves(pen: Pen, offsets: Seq<Point>) -> Option<(Pen, Seq<Segment>)>
    decreases offsets.len(),
{
    if offsets.len() == 0 {
        Some((pen, Seq::empty()))
    } else {
        match relative_moves(pen, offsets.drop_last()) {
            None => None,
            Some((before, shown)) => {
                let x = before.position.x + offsets.last().x;
                let y = before.position.y + offsets.last().y;
                if in_range(x) && in_range(y) {
                    let to = Point { x: x as i32, y: y as i32 };
                    Some((Pen { position: to, ..before }, shown + stroke(before, to)))
                } else {
                    None
                }
            },
        }
    }
}

/// The pen after `cmd`, and what the command shows.
///
/// A pen-up lifts the pen and takes it to the last of its points. A pen-down
/// moves through its points, lowered from the first of them on, and leaves
/// the pen down. A plot moves through its points, a relative plot by its
/// offsets.
pub open spec fn trace_step(pen: Pen, cmd: CommandView) -> Option<(Pen, Seq<Segment>)> {
    match cmd {
        CommandView::PenUp(points) => Some(
            (
                Pen {
                    down: false,
                    position: if points.len() > 0 {
                        points.last()
                    } else {
                        pen.position
                    },
                    ..pen
                },
                Seq::empty(),
            ),
        ),
        CommandView::PenDown(points) => Some(
            (Pen { down: true, ..moves(pen, points, true).0 }, moves(pen, points, true).1),
        ),
        CommandView::PlotAbsolute(points) => Some(moves(pen, points, false)),
        CommandView::PlotRelative(offsets) => relative_moves(pen, offsets),
        CommandView::SelectPen(color) => Some((Pen { color, ..pen }, Seq::empty())),
        CommandView::Initialize => Some((pen, Seq::empty())),
    }
}

/// The pen after `cmds`, and all that they show, in order; nothing where a
/// relative move leaves the coordinate range.
pub open spec fn trace(pen: Pen, cmds: Seq<CommandView>) -> Option<(Pen, Seq<Segment>)>
    decreases cmds.len(),
{
    if cmds.len() == 0 {
        Some((pen, Seq::empty()))
    } else {
        match trace(pen, cmds.drop_last()) {
            None => None,
            Some((before, shown)) => match trace_step(before, cmds.last()) {
                None => None,
                Some((after, more)) => Some((after, shown + more)),
            },
        }
    }
}

/// What a document shows.
pub open spec fn segments(cmds: Seq<CommandView>) -> Option<Seq<Segment>> {
    match trace(start_pen(), cmds) {
        None => None,
        Some((_, shown)) => Some(shown),
    }
}

/// Appends what a move of `pen` to `to` shows.
fn push_stroke(out: &mut Vec<Segment>, pen: &Pen, to: Point)
    ensures
        final(out)@ == old(out)@ + stroke(*pen, to),
{
    if pen.down && pen.color != 0 {
        out.push(Segment { start: pen.position, end: to, color: pen.color });
        assert(out@ =~= old(out)@ + stroke(*pen, to));
    } else {
        assert(out@ =~= old(out)@ + stroke(*pen, to));
    }
}

/// Moves the pen through `points` and appends what that shows.
fn push_moves(out: &mut Vec<Segment>, from: Pen, points: &Vec<Point>, lowering: bool) -> (after:
    Pen)
    ensures
        after == moves(from, points@, lowering).0,
        final(out)@ == old(out)@ + moves(from, points@, lowering).1,
{
    let mut pen = from;
    let mut i: usize = 0;
    assert(out@ =~= old(out)@ + moves(from, points@.take(0), lowering).1);
    while i < points.len()
        invariant
            i <= points.len(),
            pen == moves(from, points@.take(i as int), lowering).0,
            out@ == old(out)@ + moves(from, points@.take(i as int), lowering).1,
        decreases points.len() - i,
    {
        assert(points@.take(i + 1).drop_last() =~= points@.take(i as int));
        push_stroke(out, &pen, points[i]);
        pen.position = points[i];
        pen.down = pen.down || lowering;
        i += 1;
        assert(out@ =~= old(out)@ + moves(from, points@.take(i as int), lowering).1);
    }
    assert(points@.take(i as int) =~= points@);
    pen
}

/// Moves the pen by each of `offsets` and appends what that shows, unless a
/// move leaves the coordinate range.
fn push_relative_moves(out: &mut Vec<Segment>, from: Pen, offsets: &Vec<Point>) -> (after: Option<
    Pen,
>)
    ensures
        match after {
            Some(pen_after) => relative_moves(from, offsets@) == Some(
                (pen_after, final(out)@.skip(old(out)@.len() as int)),
            ) && final(out)@.take(old(out)@.len() as int) == old(out)@ && final(out)@.len() >= old(
                out,
            )@.len(),
            None => relative_moves(from, offsets@) is None,
        },
{
    let mut pen = from;
    let ghost start = out@.len() as int;
    let mut i: usize = 0;
    assert(out@.skip(start) =~= Seq::empty());
    assert(out@.take(start) =~= old(out)@);
    while i < offsets.len()
        invariant
            i <= offsets.len(),
            start == old(out)@.len(),
            out@.len() >= start,
            out@.take(start) == old(out)@,
            relative_moves(from, offsets@.take(i as int)) == Some((pen, out@.skip(start))),
        decreases offsets.len() - i,
    {
        assert(offsets@.take(i + 1).drop_last() =~= offsets@.take(i as int));
        let x: i64 = pen.position.x as i64 + offsets[i].x as i64;
        let y: i64 = pen.position.y as i64 + offsets[i].y as i64;
        if x < -0x8000_0000 || x > 0x7fff_ffff || y < -0x8000_0000 || y > 0x7fff_ffff {
            proof {
                lemma_relative_moves_fail(from, offsets@, i + 1);
            }
            return None;
        }
        let to = Point { x: x as i32, y: y as i32 };
        let ghost before = out@;
        let ghost pen_before = pen;
        push_stroke(out, &pen, to);
        pen.position = to;
        i += 1;
        assert(out@.skip(start) =~= before.skip(start) + stroke(pen_before, to));
        assert(out@.take(start) =~= old(out)@);
    }
    assert(offsets@.take(i as int) =~= offsets@);
    Some(pen)
}

/// Relative moves that leave the range somewhere leave it for good.
pub proof fn lemma_relative_moves_fail(pen: Pen, offsets: Seq<Point>, n: int)
    requires
        0 <= n <= offsets.len(),
        relative_moves(pen, offsets.take(n)) is None,
    ensures
        relative_moves(pen, offsets) is None,
    decreases offsets.len() - n,
{
    if n < offsets.len() {
        assert(offsets.take(n + 1).drop_last() =~= offsets.take(n));
        lemma_relative_moves_fail(pen, offsets, n + 1);
    } else {
        assert(offsets.take(n) =~= offsets);
    }
}

/// A failure to trace some commands is a failure to trace any sequence that
/// starts with them.
pub proof fn lemma_trace_fail(pen: Pen, cmds: Seq<CommandView>, n: int)
    requires
        0 <= n <= cmds.len(),
        trace(pen, cmds.take(n)) is None,
    ensures
        trace(pen, cmds) is None,
    decreases cmds.len() - n,
{
    if n < cmds.len() {
        assert(cmds.take(n + 1).drop_last() =~= cmds.take(n));
        lemma_trace_fail(pen, cmds, n + 1);
    } else {
        assert(cmds.take(n) =~= cmds);
    }
}

/// The segments that `cmds` show, in the order they are drawn; nothing where
/// a relative move leaves the coordinate range.
pub fn visible_segments(cmds: &Vec<Command>) -> (shown: Option<Vec<Segment>>)
    ensures
        match shown {
            Some(list) => segments(view_commands(cmds@)) == Some(list@),
            None => segments(view_commands(cmds@)) is None,
        },
{
    let ghost all = view_commands(cmds@);
    let mut out: Vec<Segment> = Vec::new();
    let mut pen = Pen { color: 0, position: Point { x: 0, y: 0 }, down: false };
    let mut i: usize = 0;
    assert(all.take(0) =~= Seq::empty());
    while i < cmds.len()
        invariant
            i <= cmds.len(),
            all == view_commands(cmds@),
            trace(start_pen(), all.take(i as int)) == Some((pen, out@)),
        decreases cmds.len() - i,
    {
        proof {
            assert(all.take(i + 1).drop_last() =~= all.take(i as int));
            assert(all.take(i + 1).last() == cmds@[i as int]@);
        }
        let ghost before = out@;
        match &cmds[i] {
            Command::PenUp(points) => {
                pen.down = false;
                if points.len() > 0 {
                    pen.position = points[points.len() - 1];
                }
                assert(out@ =~= before + Seq::empty());
            },
            Command::PenDown(points) => {
                pen = push_moves(&mut out, pen, points, true);
                pen.down = true;
            },
            Command::PlotAbsolute(points) => {
                pen = push_moves(&mut out, pen, points, false);
            },
            Command::PlotRelative(offsets) => {
                match push_relative_moves(&mut out, pen, offsets) {
                    Some(after) => {
                        assert(out@ =~= before + out@.skip(before.len() as int));
                        pen = after;
                    },
                    None => {
                        proof {
                            lemma_trace_fail(start_pen(), all, i + 1);
                        }
                        return None;
                    },
                }
            },
            Command::SelectPen(color) => {
                pen.color = *color;
                assert(out@ =~= before + Seq::empty());
            },
            Command::Initialize => {
                assert(out@ =~= before + Seq::empty());
            },
        }
        i += 1;
    }
    assert(all.take(i as int) =~= all);
    Some(out)
}

/// How a page is shown.
#[derive(Copy, Clone, Debug, PartialEq, Eq)]
pub enum Orientation {
    Portrait,
    Landscape,
}

/// A plotter model.
#[derive(Copy, Clone, Debug, PartialEq, Eq)]
pub enum Model {
    Hp7440,
    Hp7475A3,
    Hp7475A4,
}

/// The model that `name` names.
pub open spec fn model_named(name: Seq<char>) -> Option<Model> {
    if name == "7440"@ {
        Some(Model::Hp7440)
    } else if name == "7475a3"@ {
        Some(Model::Hp7475A3)
    } else if name == "7475a4"@ {
        Some(Model::Hp7475A4)
    } else {
        None
    }
}

/// The orientation that `name` names.
pub open spec fn orientation_named(name: Seq<char>) -> Option<Orientation> {
    if name == "portrait"@ {
        Some(Orientation::Portrait)
    } else if name == "landscape"@ {
        Some(Orientation::Landscape)
    } else {
        None
    }
}

/// The width and the height of the page of `model`, in plotter units.
pub open spec fn page(model: Model) -> (i32, i32) {
    match model {
        Model::Hp7440 => (7650i32, 10300i32),
        Model::Hp7475A3 => (10365i32, 16640i32),
        Model::Hp7475A4 => (7962i32, 10365i32),
    }
}

/// The ends of a line on the screen, as `(x1, y1, x2, y2)`: in portrait the
/// two axes change places, in landscape the second axis is turned over at
/// `max_y`.
pub open spec fn screen_line(start: Point, end: Point, orientation: Orientation, max_y: int) -> (
    int,
    int,
    int,
    int,
) {
    match orientation {
        Orientation::Portrait => (start.y as int, start.x as int, end.y as int, end.x as int),
        Orientation::Landscape => (
            start.x as int,
            max_y - start.y,
            end.x as int,
            max_y - end.y,
        ),
    }
}

/// The name of the stroke color of pen `color`; only the pens up to 8 have
/// one.
pub open spec fn stroke_name(color: u8) -> Option<Seq<char>> {
    if color == 0 {
        Some(""@)
    } else if color == 1 {
        Some("black"@)
    } else if color == 2 {
        Some("red"@)
    } else if color == 3 {
        Some("blue"@)
    } else if color == 4 {
        Some("green"@)
    } else if color == 5 {
        Some("yellow"@)
    } else if color == 6 {
        Some("orange"@)
    } else if color == 7 {
        Some("brown"@)
    } else if color == 8 {
        Some("pink"@)
    } else {
        None
    }
}

impl Model {
    /// Reads the name of a model.
    pub fn parse(name: &str) -> (r: Result<Model, String>)
        ensures
            match r {
                Ok(model) => model_named(name@) == Some(model),
                Err(message) => model_named(name@) is None && message@
                    == "Could not parse model"@,
            },
    {
        if same_text(name, "7440") {
            Ok(Model::Hp7440)
        } else if same_text(name, "7475a3") {
            Ok(Model::Hp7475A3)
        } else if same_text(name, "7475a4") {
            Ok(Model::Hp7475A4)
        } else {
            Err("Could not parse model".to_string())
        }
    }

    /// The width and the height of the page, in plotter units.
    pub fn page_size(self) -> (size: (i32, i32))
        ensures
            size == page(self),
    {
        match self {
            Model::Hp7440 => (7650, 10300),
            Model::Hp7475A3 => (10365, 16640),
            Model::Hp7475A4 => (7962, 10365),
        }
    }
}

impl core::str::FromStr for Model {
    type Err = String;

    /// Reads the name of a model: `7440`, `7475a3` or `7475a4` give their
    /// model, and any other text gives the message that it could not be read.
    fn from_str(model: &str) -> (r: Result<Self, Self::Err>)
        ensures
            match r {
                Ok(found) => model_named(model@) == Some(found),
                Err(message) => model_named(model@) is None && message@
                    == "Could not parse model"@,
            },
    {
        Model::parse(model)
    }
}

impl Orientation {
    /// Reads the name of an orientation.
    pub fn parse(name: &str) -> (r: Result<Orientation, String>)
        ensures
            match r {
                Ok(orientation) => orientation_named(name@) == Some(orientation),
                Err(message) => orientation_named(name@) is None && message@
                    == "Could not parse orientation"@,
            },
    {
        if same_text(name, "portrait") {
            Ok(Orientation::Portrait)
        } else if same_text(name, "landscape") {
            Ok(Orientation::Landscape)
        } else {
            Err("Could not parse orientation".to_string())
        }
    }
}

impl core::str::FromStr for Orientation {
    type Err = String;

    /// Reads the name of an orientation: `portrait` or `landscape` give their
    /// orientation, and any other text gives the message that it could not be
    /// read.
    fn from_str(model: &str) -> (r: Result<Self, Self::Err>)
        ensures
            match r {
                Ok(found) => orientation_named(model@) == Some(found),
                Err(message) => orientation_named(model@) is None && message@
                    == "Could not parse orientation"@,
            },
    {
        Orientation::parse(model)
    }
}

/// The ends of the line from `start` to `end` on the screen.
pub fn line_ends(start: Point, end: Point, orientation: Orientation, max_y: i32) -> (r: (
    i64,
    i64,
    i64,
    i64,
))
    ensures
        (r.0 as int, r.1 as int, r.2 as int, r.3 as int) == screen_line(
            start,
            end,
            orientation,
            max_y as int,
        ),
{
    match orientation {
        Orientation::Portrait => (start.y as i64, start.x as i64, end.y as i64, end.x as i64),
        Orientation::Landscape => (
            start.x as i64,
            max_y as i64 - start.y as i64,
            end.x as i64,
            max_y as i64 - end.y as i64,
        ),
    }
}

/// The name of the stroke color of a pen, if it has one.
pub fn stroke_color(color: u8) -> (r: Option<&'static str>)
    ensures
        match r {
            Some(name) => stroke_name(color) == Some(name@),
            None => stroke_name(color) is None,
        },
{
    if color == 0 {
        Some("")
    } else if color == 1 {
        Some("black")
    } else if color == 2 {
        Some("red")
    } else if color == 3 {
        Some("blue")
    } else if color == 4 {
        Some("green")
    } else if color == 5 {
        Some("yellow")
    } else if color == 6 {
        Some("orange")
    } else if color == 7 {
        Some("brown")
    } else if color == 8 {
        Some("pink")
    } else {
        None
    }
}

} // verus!
