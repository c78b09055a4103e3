//! The shape extractor: from canonical commands to the polylines that each
//! pen draws.
//!
//! A shape is the run of points visited between two interruptions, a pen-up
//! or a change of pen. The extractor is an accumulator that is fed one command
//! at a time, so a scan can be started, stopped and inspected anywhere.

use std::collections::HashMap;
use vstd::prelude::*;
use crate::command::{CanonicalCommand, Point};

verus! {

/// One continuous polyline.
pub type Shape = Vec<Point>;

/// The polylines of each pen, by pen number.
pub type Plot = Map<u8, Seq<Seq<Point>>>;

/// The point sequences of a sequence of shapes, in order.
pub open spec fn view_shapes(shapes: Seq<Shape>) -> Seq<Seq<Point>> {
    Seq::new(shapes.len(), |i: int| shapes[i]@)
}

/// The function that gives the point sequences of a vector of shapes.
pub open spec fn shapes_viewed() -> spec_fn(Vec<Shape>) -> Seq<Seq<Point>> {
    |shapes: Vec<Shape>| view_shapes(shapes@)
}

/// The mathematical value of a map from pens to shapes.
pub open spec fn view_plot(m: Map<u8, Vec<Shape>>) -> Plot {
    m.map_values(shapes_viewed())
}

/// The state of a scan.
pub struct Extraction {
    /// The pen selected last; 0 before any was.
    pub active: u8,
    /// The points visited since the last interruption.
    pub current: Seq<Point>,
    /// Whether the pen is down.
    pub pen_down: bool,
    /// The shapes closed so far.
    pub plot: Plot,
}

/// The state before the first command.
pub open spec fn initial() -> Extraction {
    Extraction { active: 0, current: Seq::empty(), pen_down: false, plot: Map::empty() }
}

/// `plot` with an entry for `color`, and `shape` at the end of that entry
/// unless it is empty.
pub open spec fn close(plot: Plot, color: u8, shape: Seq<Point>) -> Plot {
    let shapes = if plot.contains_key(color) {
        plot[color]
    } else {
        Seq::empty()
    };
    plot.insert(
        color,
        if shape.len() > 0 {
            shapes.push(shape)
        } else {
            shapes
        },
    )
}

/// The state after `cmd`.
///
/// A move is recorded whether the pen is up or down. A pen-up closes the
/// shape in progress under the active pen. A change of pen closes it under
/// the pen that drew it, and gives the new pen an entry. An initialize
/// command has no place in a scan and leaves the state as it is.
pub open spec fn step(st: Extraction, cmd: CanonicalCommand) -> Extraction {
    match cmd {
        CanonicalCommand::PlotAbsolute(point) => Extraction {
            current: st.current.push(point),
            ..st
        },
        CanonicalCommand::PenDown => Extraction { pen_down: true, ..st },
        CanonicalCommand::PenUp => Extraction {
            pen_down: false,
            current: Seq::empty(),
            plot: close(st.plot, st.active, st.current),
            ..st
        },
        CanonicalCommand::SelectPen(color) => {
            let closed = if st.current.len() > 0 {
                close(st.plot, st.active, st.current)
            } else {
                st.plot
            };
            Extraction {
                active: color,
                current: Seq::empty(),
                plot: close(closed, color, Seq::empty()),
                ..st
            }
        },
        CanonicalCommand::Initialize => st,
    }
}

/// The state after each of `cmds` in turn, from `st`.
pub open spec fn scan(st: Extraction, cmds: Seq<CanonicalCommand>) -> Extraction
    decreases cmds.len(),
{
    if cmds.len() == 0 {
        st
    } else {
        step(scan(st, cmds.drop_last()), cmds.last())
    }
}

/// The shapes of a command sequence: those closed when it has been scanned
/// from the start. Points visited after the last interruption belong to none.
pub open spec fn extract(cmds: Seq<CanonicalCommand>) -> Plot {
    scan(initial(), cmds).plot
}

/// Whether `cmds` holds no initialize command.
pub open spec fn no_initialize(cmds: Seq<CanonicalCommand>) -> bool {
    forall|i: int| 0 <= i < cmds.len() ==> !((#[trigger] cmds[i]) is Initialize)
}

/// Whether every shape of `plot` has a point.
pub open spec fn no_empty_shape(plot: Plot) -> bool {
    forall|color: u8, i: int|
        plot.contains_key(color) && 0 <= i < plot[color].len() ==> (#[trigger] plot[color][i]).len()
            > 0
}

/// A step never closes an empty shape.
pub proof fn lemma_step_no_empty_shape(st: Extraction, cmd: CanonicalCommand)
    requires
        no_empty_shape(st.plot),
    ensures
        no_empty_shape(step(st, cmd).plot),
{
    let next = step(st, cmd).plot;
    assert forall|color: u8, i: int|
        next.contains_key(color) && 0 <= i < next[color].len() implies (#[trigger] next[color][i]).len()
        > 0 by {
        match cmd {
            CanonicalCommand::PenUp => {
                if color == st.active && st.plot.contains_key(color) && i < st.plot[color].len() {
                    assert(next[color][i] == st.plot[color][i]);
                } else if color != st.active {
                    assert(next[color][i] == st.plot[color][i]);
                }
            },
            CanonicalCommand::SelectPen(selected) => {
                let closed = if st.current.len() > 0 {
                    close(st.plot, st.active, st.current)
                } else {
                    st.plot
                };
                assert forall|c: u8, j: int|
                    closed.contains_key(c) && 0 <= j < closed[c].len() implies (
                    #[trigger] closed[c][j]).len() > 0 by {
                    if st.plot.contains_key(c) && j < st.plot[c].len() {
                        assert(closed[c][j] == st.plot[c][j]);
                    }
                }
                if closed.contains_key(color) {
                    assert(next[color][i] == closed[color][i]);
                }
            },
            _ => {},
        }
    }
}

/// No scan that starts without an empty shape ends with one.
pub proof fn lemma_scan_no_empty_shape(st: Extraction, cmds: Seq<CanonicalCommand>)
    requires
        no_empty_shape(st.plot),
    ensures
        no_empty_shape(scan(st, cmds).plot),
    decreases cmds.len(),
{
    if cmds.len() > 0 {
        lemma_scan_no_empty_shape(st, cmds.drop_last());
        lemma_step_no_empty_shape(scan(st, cmds.drop_last()), cmds.last());
    }
}

/// The extractor never produces an empty shape, whatever the commands.
pub proof fn lemma_extract_no_empty_shape(cmds: Seq<CanonicalCommand>)
    ensures
        no_empty_shape(extract(cmds)),
{
    lemma_scan_no_empty_shape(initial(), cmds);
}

/// The accumulator of a scan.
pub struct Extractor {
    pub active_color: u8,
    pub current_shape: Shape,
    pub is_pen_down: bool,
    pub color_to_shapes: HashMap<u8, Vec<Shape>>,
}

impl View for Extractor {
    type V = Extraction;

    open spec fn view(&self) -> Extraction {
        Extraction {
            active: self.active_color,
            current: self.current_shape@,
            pen_down: self.is_pen_down,
            plot: view_plot(self.color_to_shapes@),
        }
    }
}

/// Gives `color` an entry in `plot`, and puts `shape` at its end unless it is
/// empty.
fn close_shape(plot: &mut HashMap<u8, Vec<Shape>>, color: u8, shape: Shape)
    ensures
        view_plot(final(plot)@) == close(view_plot(old(plot)@), color, shape@),
{
    broadcast use vstd::std_specs::hash::group_hash_axioms;

    let mut shapes: Vec<Shape> = match plot.remove(&color) {
        Some(shapes) => shapes,
        None => Vec::new(),
    };
    let ghost before = view_shapes(shapes@);
    assert(old(plot)@.contains_key(color) ==> before == view_plot(old(plot)@)[color]);
    assert(!old(plot)@.contains_key(color) ==> before =~= Seq::empty());
    assert(plot@ == old(plot)@.remove(color));
    if shape.len() > 0 {
        shapes.push(shape);
        assert(view_shapes(shapes@) =~= before.push(shape@));
    }
    plot.insert(color, shapes);
    assert(plot@ == old(plot)@.remove(color).insert(color, shapes));
    assert(view_plot(plot@) =~= close(view_plot(old(plot)@), color, shape@));
}

impl Extractor {
    /// The accumulator before the first command.
    pub fn new() -> (e: Extractor)
        ensures
            e@ == initial(),
    {
        let e = Extractor {
            active_color: 0,
            current_shape: Vec::new(),
            is_pen_down: false,
            color_to_shapes: HashMap::new(),
        };
        assert(view_plot(e.color_to_shapes@) =~= Map::empty());
        e
    }

    /// Feeds one command, which may not be an initialize command.
    pub fn feed(self, cmd: &CanonicalCommand) -> (e: Extractor)
        requires
            !(*cmd is Initialize),
        ensures
            e@ == step(self@, *cmd),
    {
        let Extractor { active_color, current_shape, is_pen_down, color_to_shapes } = self;
        let mut active_color = active_color;
        let mut current_shape = current_shape;
        let mut is_pen_down = is_pen_down;
        let mut color_to_shapes = color_to_shapes;
        match cmd {
            CanonicalCommand::PlotAbsolute(point) => {
                current_shape.push(*point);
            },
            CanonicalCommand::PenDown => {
                is_pen_down = true;
            },
            CanonicalCommand::PenUp => {
                is_pen_down = false;
                close_shape(&mut color_to_shapes, active_color, current_shape);
                current_shape = Vec::new();
            },
            CanonicalCommand::SelectPen(color) => {
                if current_shape.len() > 0 {
                    close_shape(&mut color_to_shapes, active_color, current_shape);
                }
                close_shape(&mut color_to_shapes, *color, Vec::new());
                active_color = *color;
                current_shape = Vec::new();
            },
            CanonicalCommand::Initialize => {},
        }
        Extractor { active_color, current_shape, is_pen_down, color_to_shapes }
    }

    /// The shapes closed so far.
    pub fn finish(self) -> (plot: HashMap<u8, Vec<Shape>>)
        ensures
            view_plot(plot@) == self@.plot,
    {
        self.color_to_shapes
    }
}

/// Whether `cmds` can be scanned for shapes: whether it holds no initialize
/// command.
pub fn has_no_initialize(cmds: &Vec<CanonicalCommand>) -> (b: bool)
    ensures
        b == no_initialize(cmds@),
{
    let mut i: usize = 0;
    while i < cmds.len()
        invariant
            i <= cmds.len(),
            forall|j: int| 0 <= j < i ==> !((#[trigger] cmds@[j]) is Initialize),
        decreases cmds.len() - i,
    {
        match &cmds[i] {
            CanonicalCommand::Initialize => {
                return false;
            },
            _ => {},
        }
        i += 1;
    }
    true
}

/// Partitions canonical commands into the shapes of each pen.
///
/// Every pen that was selected has an entry, and so has every pen under which
/// the pen was lifted; no shape is empty. An initialize command is not
/// accepted here.
pub fn canonical_commands_to_shapes(cmds: Vec<CanonicalCommand>) -> (plot: HashMap<u8, Vec<Shape>>)
    requires
        no_initialize(cmds@),
    ensures
        view_plot(plot@) == extract(cmds@),
        no_empty_shape(view_plot(plot@)),
{
    let mut state = Extractor::new();
    let mut i: usize = 0;
    assert(cmds@.take(0) =~= Seq::empty());
    while i < cmds.len()
        invariant
            i <= cmds.len(),
            no_initialize(cmds@),
            state@ == scan(initial(), cmds@.take(i as int)),
        decreases cmds.len() - i,
    {
        assert(cmds@.take(i + 1).drop_last() =~= cmds@.take(i as int));
        state = state.feed(&cmds[i]);
        i += 1;
    }
    proof {
        assert(cmds@.take(i as int) =~= cmds@);
        lemma_extract_no_empty_shape(cmds@);
    }
    state.finish()
}

} // verus!
