//! The text of canonical commands: one instruction to a line, each ended by
//! a semicolon.

use vstd::prelude::*;
use crate::command::CanonicalCommand;
use crate::text::{decimal, push_decimal};

verus! {

/// The instruction that `cmd` is written as, without what ends it.
pub open spec fn instruction(cmd: CanonicalCommand) -> Seq<char> {
    match cmd {
        CanonicalCommand::PenUp => seq!['P', 'U'],
        CanonicalCommand::PenDown => seq!['P', 'D'],
        CanonicalCommand::PlotAbsolute(point) => seq!['P', 'A'] + decimal(point.x as int)
            + seq![','] + decimal(point.y as int),
        CanonicalCommand::SelectPen(pen) => seq!['S', 'P'] + decimal(pen as int),
        CanonicalCommand::Initialize => seq!['I', 'N'],
    }
}

/// The line that `cmd` is written as: the instruction, a semicolon, a newline.
pub open spec fn line(cmd: CanonicalCommand) -> Seq<char> {
    instruction(cmd) + seq![';', '\n']
}

/// The text of a sequence of canonical commands: their lines, in order.
pub open spec fn render(cmds: Seq<CanonicalCommand>) -> Seq<char>
    decreases cmds.len(),
{
    if cmds.len() == 0 {
        Seq::empty()
    } else {
        render(cmds.drop_last()) + line(cmds.last())
    }
}

/// Appends the line of `cmd`.
fn push_line(out: &mut String, cmd: &CanonicalCommand)
    ensures
        final(out)@ == old(out)@ + line(*cmd),
{
    match cmd {
        CanonicalCommand::PenUp => {
            out.push('P');
            out.push('U');
        },
        CanonicalCommand::PenDown => {
            out.push('P');
            out.push('D');
        },
        CanonicalCommand::PlotAbsolute(point) => {
            out.push('P');
            out.push('A');
            push_decimal(out, point.x);
            out.push(',');
            push_decimal(out, point.y);
        },
        CanonicalCommand::SelectPen(pen) => {
            out.push('S');
            out.push('P');
            push_decimal(out, *pen as i32);
        },
        CanonicalCommand::Initialize => {
            out.push('I');
            out.push('N');
        },
    }
    out.push(';');
    out.push('\n');
    assert(out@ =~= old(out)@ + line(*cmd));
}

/// Writes canonical commands as text.
pub fn canonical_commands_to_string(cmds: Vec<CanonicalCommand>) -> (out: String)
    ensures
        out@ == render(cmds@),
{
    let mut out = String::new();
    let mut i: usize = 0;
    assert(cmds@.take(0) =~= Seq::empty());
    while i < cmds.len()
        invariant
            i <= cmds.len(),
            out@ == render(cmds@.take(i as int)),
        decreases cmds.len() - i,
    {
        assert(cmds@.take(i + 1).drop_last() =~= cmds@.take(i as int));
        push_line(&mut out, &cmds[i]);
        i += 1;
    }
    assert(cmds@.take(i as int) =~= cmds@);
    out
}

} // verus!
