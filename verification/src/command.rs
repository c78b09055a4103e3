//! The drawing commands, in parsed and in canonical form.

use vstd::prelude::*;

verus! {

/// A position in plotter units.
#[derive(Copy, Clone, Debug, PartialEq, Eq)]
pub struct Point {
    pub x: i32,
    pub y: i32,
}

/// A command as it is written in a document: pen and plot commands may carry
/// any number of points, none included.
#[derive(Debug, PartialEq, Eq, Clone)]
pub enum Command {
    PenUp(Vec<Point>),
    PenDown(Vec<Point>),
    PlotAbsolute(Vec<Point>),
    PlotRelative(Vec<Point>),
    SelectPen(u8),
    Initialize,
}

/// The mathematical value of a [`Command`].
pub enum CommandView {
    PenUp(Seq<Point>),
    PenDown(Seq<Point>),
    PlotAbsolute(Seq<Point>),
    PlotRelative(Seq<Point>),
    SelectPen(u8),
    Initialize,
}

impl View for Command {
    type V = CommandView;

    open spec fn view(&self) -> CommandView {
        match *self {
            Command::PenUp(points) => CommandView::PenUp(points@),
            Command::PenDown(points) => CommandView::PenDown(points@),
            Command::PlotAbsolute(points) => CommandView::PlotAbsolute(points@),
            Command::PlotRelative(points) => CommandView::PlotRelative(points@),
            Command::SelectPen(pen) => CommandView::SelectPen(pen),
            Command::Initialize => CommandView::Initialize,
        }
    }
}

/// A command of the canonical instruction set: pen commands carry no
/// coordinates and every move names exactly one absolute point.
#[derive(Debug, PartialEq, Eq, Clone)]
pub enum CanonicalCommand {
    PenUp,
    PenDown,
    PlotAbsolute(Point),
    SelectPen(u8),
    Initialize,
}

/// The values of a sequence of commands, in order.
pub open spec fn view_commands(cmds: Seq<Command>) -> Seq<CommandView> {
    Seq::new(cmds.len(), |i: int| cmds[i]@)
}

} // verus!
