//! The command re-emitter: from the shapes of each pen back to canonical
//! commands.

use std::collections::HashMap;
use vstd::prelude::*;
use crate::canonical::plots;
use crate::command::{CanonicalCommand, Point};
use crate::shapes::{view_plot, view_shapes, Plot, Shape};

verus! {

/// The commands that draw one shape: the pen is lifted, moved to the first
/// point and lowered there, then moved through the other points.
pub open spec fn shape_commands(shape: Seq<Point>) -> Seq<CanonicalCommand> {
    if shape.len() == 0 {
        seq![CanonicalCommand::PenUp]
    } else {
        seq![
            CanonicalCommand::PenUp,
            CanonicalCommand::PlotAbsolute(shape[0]),
            CanonicalCommand::PenDown,
        ] + plots(shape.skip(1))
    }
}

/// The commands that draw `shapes`, one shape after the other.
pub open spec fn shapes_commands(shapes: Seq<Seq<Point>>) -> Seq<CanonicalCommand>
    decreases shapes.len(),
{
    if shapes.len() == 0 {
        Seq::empty()
    } else {
        shapes_commands(shapes.drop_last()) + shape_commands(shapes.last())
    }
}

/// The commands for the pen `color`: it is selected and its shapes are
/// drawn. Pen 0 and a pen without an entry get no command.
pub open spec fn pen_commands(plot: Plot, color: u8) -> Seq<CanonicalCommand> {
    if color != 0 && plot.contains_key(color) {
        seq![CanonicalCommand::SelectPen(color)] + shapes_commands(plot[color])
    } else {
        Seq::empty()
    }
}

/// The commands for the pens below `n`, in the order of their numbers.
pub open spec fn pens_commands(plot: Plot, n: nat) -> Seq<CanonicalCommand>
    decreases n,
{
    if n == 0 {
        Seq::empty()
    } else {
        pens_commands(plot, (n - 1) as nat) + pen_commands(plot, (n - 1) as u8)
    }
}

/// The commands that draw a plot: those of every pen in the order of the pen
/// numbers, then the pen is lifted and put away.
pub open spec fn emit(plot: Plot) -> Seq<CanonicalCommand> {
    pens_commands(plot, 256) + seq![CanonicalCommand::PenUp, CanonicalCommand::SelectPen(0)]
}

/// Appends the commands that draw `shape`.
fn push_shape(out: &mut Vec<CanonicalCommand>, shape: &Shape)
    ensures
        final(out)@ == old(out)@ + shape_commands(shape@),
{
    out.push(CanonicalCommand::PenUp);
    let mut i: usize = 0;
    while i < shape.len()
        invariant
            i <= shape.len(),
            out@ == old(out)@ + shape_commands(shape@.take(i as int)),
        decreases shape.len() - i,
    {
        out.push(CanonicalCommand::PlotAbsolute(shape[i]));
        if i == 0 {
            out.push(CanonicalCommand::PenDown);
        }
        i += 1;
        proof {
            let before = shape@.take(i - 1);
            let now = shape@.take(i as int);
            if i > 1 {
                assert(plots(now.skip(1)) =~= plots(before.skip(1)).push(
                    CanonicalCommand::PlotAbsolute(shape@[i - 1]),
                ));
            }
            assert(out@ =~= old(out)@ + shape_commands(now));
        }
    }
    assert(shape@.take(i as int) =~= shape@);
}

/// Appends the commands that draw `shapes`, one shape after the other.
fn push_shapes(out: &mut Vec<CanonicalCommand>, shapes: &Vec<Shape>)
    ensures
        final(out)@ == old(out)@ + shapes_commands(view_shapes(shapes@)),
{
    let ghost all = view_shapes(shapes@);
    let mut i: usize = 0;
    assert(out@ =~= old(out)@ + shapes_commands(all.take(0)));
    while i < shapes.len()
        invariant
            i <= shapes.len(),
            all == view_shapes(shapes@),
            out@ == old(out)@ + shapes_commands(all.take(i as int)),
        decreases shapes.len() - i,
    {
        push_shape(out, &shapes[i]);
        i += 1;
        proof {
            assert(all.take(i as int).drop_last() =~= all.take(i - 1));
            assert(out@ =~= old(out)@ + shapes_commands(all.take(i as int)));
        }
    }
    assert(all.take(i as int) =~= all);
}

/// Writes a plot as canonical commands.
///
/// The pens come in the order of their numbers, each selected once and its
/// shapes drawn in the order they stand in. Pen 0 is left out. The last two
/// commands lift the pen and select pen 0.
pub fn shapes_to_commands(color_to_shapes: HashMap<u8, Vec<Shape>>) -> (out: Vec<CanonicalCommand>)
    ensures
        out@ == emit(view_plot(color_to_shapes@)),
{
    broadcast use vstd::std_specs::hash::group_hash_axioms;

    let ghost plot = view_plot(color_to_shapes@);
    let mut out: Vec<CanonicalCommand> = Vec::new();
    let mut n: u16 = 1;
    assert(out@ =~= pens_commands(plot, 1)) by {
        assert(pens_commands(plot, 0) =~= Seq::empty());
    }
    while n < 256
        invariant
            1 <= n <= 256,
            plot == view_plot(color_to_shapes@),
            out@ == pens_commands(plot, n as nat),
        decreases 256 - n,
    {
        let color: u8 = n as u8;
        let ghost before = out@;
        match color_to_shapes.get(&color) {
            Some(shapes) => {
                out.push(CanonicalCommand::SelectPen(color));
                push_shapes(&mut out, shapes);
                assert(out@ =~= before + pen_commands(plot, color));
            },
            None => {
                assert(out@ =~= before + pen_commands(plot, color));
            },
        }
        n += 1;
    }
    out.push(CanonicalCommand::PenUp);
    out.push(CanonicalCommand::SelectPen(0));
    assert(out@ =~= emit(plot));
    out
}

} // verus!
