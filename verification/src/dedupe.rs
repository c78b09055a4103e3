//! Collapsing runs of pen commands.
//!
//! Of several pen-up and pen-down commands in a row only the last has an
//! effect that lasts until the pen moves or changes. This pass, which may be
//! run on parsed commands before they are canonicalized, keeps that one.

use vstd::prelude::*;
use crate::command::{view_commands, Command, CommandView};

verus! {

/// Whether `cmd` lifts or lowers the pen.
pub open spec fn is_pen_command(cmd: CommandView) -> bool {
    cmd is PenUp || cmd is PenDown
}

/// Whether `cmds[i]` is a pen command with another pen command right behind
/// it.
pub open spec fn is_superseded(cmds: Seq<CommandView>, i: int) -> bool {
    0 <= i && i + 1 < cmds.len() && is_pen_command(cmds[i]) && is_pen_command(cmds[i + 1])
}

/// `cmds` without the commands that are superseded.
pub open spec fn collapse(cmds: Seq<CommandView>) -> Seq<CommandView>
    decreases cmds.len(),
{
    if cmds.len() == 0 {
        Seq::empty()
    } else if is_superseded(cmds, 0) {
        collapse(cmds.drop_first())
    } else {
        seq![cmds[0]] + collapse(cmds.drop_first())
    }
}

/// What one more command does to the collapsed sequence: it takes the place
/// of the last command if both are pen commands, and else comes behind it.
/// The last command of a sequence always survives.
pub proof fn lemma_collapse_push(cmds: Seq<CommandView>, cmd: CommandView)
    ensures
        cmds.len() > 0 ==> collapse(cmds).len() > 0 && collapse(cmds).last() == cmds.last(),
        collapse(cmds.push(cmd)) == if cmds.len() > 0 && is_pen_command(cmds.last())
            && is_pen_command(cmd) {
            collapse(cmds).drop_last().push(cmd)
        } else {
            collapse(cmds).push(cmd)
        },
    decreases cmds.len(),
{
    if cmds.len() == 0 {
        let one = cmds.push(cmd);
        assert(one.drop_first() =~= Seq::empty());
        assert(collapse(one.drop_first()) =~= Seq::empty());
        assert(!is_superseded(one, 0));
        assert(collapse(cmds) =~= Seq::empty());
        assert(collapse(one) =~= collapse(cmds).push(cmd));
    } else {
        let rest = cmds.drop_first();
        lemma_collapse_push(rest, cmd);
        assert(cmds.push(cmd).drop_first() =~= rest.push(cmd));
        if rest.len() == 0 {
            assert(collapse(rest) =~= Seq::empty());
            assert(collapse(rest.push(cmd)) =~= seq![cmd]);
            assert(collapse(cmds) =~= seq![cmds[0]]);
            if is_pen_command(cmds[0]) && is_pen_command(cmd) {
                assert(collapse(cmds.push(cmd)) =~= collapse(cmds).drop_last().push(cmd));
            } else {
                assert(collapse(cmds.push(cmd)) =~= collapse(cmds).push(cmd));
            }
        } else {
            assert(rest.last() == cmds.last());
            assert(is_superseded(cmds.push(cmd), 0) == is_superseded(cmds, 0));
            if is_superseded(cmds, 0) {
            } else if is_pen_command(cmds.last()) && is_pen_command(cmd) {
                assert(collapse(cmds.push(cmd)) =~= collapse(cmds).drop_last().push(cmd));
            } else {
                assert(collapse(cmds.push(cmd)) =~= collapse(cmds).push(cmd));
            }
        }
    }
}

/// Collapsing a second time changes nothing.
pub proof fn lemma_collapse_idempotent(cmds: Seq<CommandView>)
    ensures
        collapse(collapse(cmds)) == collapse(cmds),
    decreases cmds.len(),
{
    if cmds.len() > 0 {
        let front = cmds.drop_last();
        assert(front.push(cmds.last()) =~= cmds);
        lemma_collapse_idempotent(front);
        lemma_collapse_push(front, cmds.last());
        if front.len() > 0 && is_pen_command(front.last()) && is_pen_command(cmds.last()) {
            let kept = collapse(front).drop_last();
            assert(kept.push(front.last()) =~= collapse(front));
            lemma_collapse_push(kept, front.last());
            lemma_collapse_push(kept, cmds.last());
            if kept.len() > 0 && is_pen_command(kept.last()) {
                assert(collapse(kept).drop_last().push(front.last()) == kept.push(front.last()));
                assert(collapse(kept).drop_last() =~= kept.push(front.last()).drop_last());
            } else {
                assert(collapse(kept) =~= kept.push(front.last()).drop_last());
            }
        } else {
            lemma_collapse_push(collapse(front), cmds.last());
        }
    }
}

/// Whether `cmd` lifts or lowers the pen.
fn is_pen(cmd: &Command) -> (b: bool)
    ensures
        b == is_pen_command(cmd@),
{
    match cmd {
        Command::PenUp(_) => true,
        Command::PenDown(_) => true,
        _ => false,
    }
}

/// Removes every pen command that is followed at once by another pen
/// command: of each run of pen commands the last is kept.
pub fn remove_duplicate_pen_commands(cmds: Vec<Command>) -> (out: Vec<Command>)
    ensures
        view_commands(out@) == collapse(view_commands(cmds@)),
        out.len() <= cmds.len(),
{
    let ghost all = view_commands(cmds@);
    let mut out: Vec<Command> = Vec::new();
    assert(view_commands(out@) =~= collapse(all.take(0)));
    for cmd in it: cmds
        invariant
            all == view_commands(it.seq()),
            it.seq() == cmds@,
            view_commands(out@) == collapse(all.take(it.index() as int)),
            out.len() <= it.index(),
    {
        let ghost seen = all.take(it.index() as int);
        let ghost kept = view_commands(out@);
        proof {
            lemma_collapse_push(seen, cmd@);
            assert(all.take(it.index() + 1) =~= seen.push(cmd@));
        }
        if out.len() > 0 && is_pen(&cmd) && is_pen(&out[out.len() - 1]) {
            assert(kept.last() == out@[out.len() - 1]@);
            out.pop();
            assert(view_commands(out@) =~= kept.drop_last());
        }
        let ghost kept = view_commands(out@);
        out.push(cmd);
        assert(view_commands(out@) =~= kept.push(cmd@));
    }
    assert(all.take(cmds@.len() as int) =~= all);
    out
}

} // verus!
