//! The canonicalizer: from parsed commands to the canonical instruction set,
//! in which a pen command carries no coordinates and a move names one point.

use vstd::prelude::*;
use crate::command::{view_commands, CanonicalCommand, Command, CommandView, Point};

verus! {

/// One move for each of `points`, in order.
pub open spec fn plots(points: Seq<Point>) -> Seq<CanonicalCommand> {
    Seq::new(points.len(), |i: int| CanonicalCommand::PlotAbsolute(points[i]))
}

/// The canonical commands that stand for one parsed command.
///
/// A pen-up keeps only the last of its points: the pen is lifted once it has
/// arrived. A pen-down and a plot keep every point. A relative plot has no
/// canonical form and stands for nothing.
pub open spec fn expand(cmd: CommandView) -> Seq<CanonicalCommand> {
    match cmd {
        CommandView::PenUp(points) => if points.len() > 0 {
            seq![CanonicalCommand::PenUp, CanonicalCommand::PlotAbsolute(points.last())]
        } else {
            seq![CanonicalCommand::PenUp]
        },
        CommandView::PenDown(points) => seq![CanonicalCommand::PenDown] + plots(points),
        CommandView::PlotAbsolute(points) => plots(points),
        CommandView::PlotRelative(_) => Seq::empty(),
        CommandView::SelectPen(pen) => seq![CanonicalCommand::SelectPen(pen)],
        CommandView::Initialize => seq![CanonicalCommand::Initialize],
    }
}

/// The canonical form of a command sequence: the forms of its commands, one
/// after the other.
pub open spec fn canonical(cmds: Seq<CommandView>) -> Seq<CanonicalCommand>
    decreases cmds.len(),
{
    if cmds.len() == 0 {
        Seq::empty()
    } else {
        canonical(cmds.drop_last()) + expand(cmds.last())
    }
}

/// Whether no command of `cmds` plots in relative coordinates.
pub open spec fn absolute_only(cmds: Seq<CommandView>) -> bool {
    forall|i: int| 0 <= i < cmds.len() ==> !((#[trigger] cmds[i]) is PlotRelative)
}

/// How many commands of `cmds` are plots without a point, which have nothing
/// to stand for them in canonical form.
pub open spec fn empty_plots(cmds: Seq<CommandView>) -> nat
    decreases cmds.len(),
{
    if cmds.len() == 0 {
        0
    } else {
        empty_plots(cmds.drop_last()) + if cmds.last() matches CommandView::PlotAbsolute(points)
            && points.len() == 0 {
            1nat
        } else {
            0nat
        }
    }
}

/// How many canonical commands `cmd` stands for beyond the first: the move of
/// a pen-up with points, each move of a pen-down, each move of a plot but one.
pub open spec fn surplus_of(cmd: CommandView) -> nat {
    match cmd {
        CommandView::PenUp(points) => if points.len() > 0 {
            1
        } else {
            0
        },
        CommandView::PenDown(points) => points.len(),
        CommandView::PlotAbsolute(points) => if points.len() > 0 {
            (points.len() - 1) as nat
        } else {
            0
        },
        _ => 0,
    }
}

/// How many canonical commands the commands of `cmds` stand for beyond one
/// each.
pub open spec fn surplus(cmds: Seq<CommandView>) -> nat
    decreases cmds.len(),
{
    if cmds.len() == 0 {
        0
    } else {
        surplus(cmds.drop_last()) + surplus_of(cmds.last())
    }
}

/// The length of canonical form: one canonical command for each command but
/// the plots without a point, and the surplus.
pub proof fn lemma_canonical_len(cmds: Seq<CommandView>)
    requires
        absolute_only(cmds),
    ensures
        canonical(cmds).len() + empty_plots(cmds) == cmds.len() + surplus(cmds),
    decreases cmds.len(),
{
    if cmds.len() > 0 {
        assert(!(cmds[cmds.len() - 1] is PlotRelative));
        lemma_canonical_len(cmds.drop_last());
    }
}

/// Canonical form is no shorter than the sequence it came from, unless that
/// holds more plots without a point than the other commands make up for.
pub proof fn lemma_canonical_no_shorter(cmds: Seq<CommandView>)
    requires
        absolute_only(cmds),
        empty_plots(cmds) <= surplus(cmds),
    ensures
        canonical(cmds).len() >= cmds.len(),
{
    lemma_canonical_len(cmds);
}

/// Canonical form goes command by command: that of two sequences joined is
/// the two forms joined.
pub proof fn lemma_canonical_concat(a: Seq<CommandView>, b: Seq<CommandView>)
    ensures
        canonical(a + b) == canonical(a) + canonical(b),
    decreases b.len(),
{
    if b.len() == 0 {
        assert(a + b =~= a);
        assert(canonical(a) + canonical(b) =~= canonical(a));
    } else {
        assert((a + b).drop_last() =~= a + b.drop_last());
        lemma_canonical_concat(a, b.drop_last());
        assert(canonical(a + b) =~= canonical(a) + canonical(b));
    }
}

/// Whether `cmds` can be canonicalized: whether none of its commands plots in
/// relative coordinates.
pub fn uses_absolute_coordinates(cmds: &Vec<Command>) -> (b: bool)
    ensures
        b == absolute_only(view_commands(cmds@)),
{
    let mut i: usize = 0;
    while i < cmds.len()
        invariant
            i <= cmds.len(),
            forall|j: int| 0 <= j < i ==> !((#[trigger] view_commands(cmds@)[j]) is PlotRelative),
        decreases cmds.len() - i,
    {
        match &cmds[i] {
            Command::PlotRelative(_) => {
                assert(view_commands(cmds@)[i as int] is PlotRelative);
                return false;
            },
            _ => {},
        }
        assert(!(view_commands(cmds@)[i as int] is PlotRelative));
        i += 1;
    }
    true
}

/// Appends one move for each of `points`.
fn push_plots(out: &mut Vec<CanonicalCommand>, points: &Vec<Point>)
    ensures
        final(out)@ == old(out)@ + plots(points@),
{
    let mut j: usize = 0;
    assert(out@ =~= old(out)@ + plots(points@.take(0)));
    while j < points.len()
        invariant
            j <= points.len(),
            out@ == old(out)@ + plots(points@.take(j as int)),
        decreases points.len() - j,
    {
        out.push(CanonicalCommand::PlotAbsolute(points[j]));
        j += 1;
        assert(out@ =~= old(out)@ + plots(points@.take(j as int)));
    }
    assert(points@.take(j as int) =~= points@);
}

/// Rewrites `cmds` into canonical form, keeping their order.
///
/// Relative coordinates are not supported: the commands must all be in
/// absolute coordinates.
pub fn canonicalize(cmds: Vec<Command>) -> (out: Vec<CanonicalCommand>)
    requires
        absolute_only(view_commands(cmds@)),
    ensures
        out@ == canonical(view_commands(cmds@)),
        out.len() + empty_plots(view_commands(cmds@)) == cmds.len() + surplus(
            view_commands(cmds@),
        ),
        empty_plots(view_commands(cmds@)) <= surplus(view_commands(cmds@)) ==> out.len()
            >= cmds.len(),
{
    let mut out: Vec<CanonicalCommand> = Vec::new();
    let ghost all = view_commands(cmds@);
    let mut i: usize = 0;
    assert(all.take(0) =~= Seq::empty());
    while i < cmds.len()
        invariant
            i <= cmds.len(),
            all == view_commands(cmds@),
            absolute_only(all),
            out@ == canonical(all.take(i as int)),
        decreases cmds.len() - i,
    {
        let ghost before = out@;
        proof {
            assert(all.take(i + 1).drop_last() =~= all.take(i as int));
            assert(all.take(i + 1).last() == cmds@[i as int]@);
            assert(!(all[i as int] is PlotRelative));
        }
        match &cmds[i] {
            Command::PenUp(points) => {
                out.push(CanonicalCommand::PenUp);
                if points.len() > 0 {
                    out.push(CanonicalCommand::PlotAbsolute(points[points.len() - 1]));
                }
                assert(out@ =~= before + expand(all[i as int]));
            },
            Command::PenDown(points) => {
                out.push(CanonicalCommand::PenDown);
                push_plots(&mut out, points);
                assert(out@ =~= before + expand(all[i as int]));
            },
            Command::PlotAbsolute(points) => {
                push_plots(&mut out, points);
            },
            Command::PlotRelative(_) => {},
            Command::SelectPen(pen) => {
                out.push(CanonicalCommand::SelectPen(*pen));
                assert(out@ =~= before + expand(all[i as int]));
            },
            Command::Initialize => {
                out.push(CanonicalCommand::Initialize);
                assert(out@ =~= before + expand(all[i as int]));
            },
        }
        i += 1;
    }
    proof {
        assert(all.take(i as int) =~= all);
        lemma_canonical_len(all);
    }
    out
}

} // verus!
