//! Machine motion code: the words that go before the moves of a command.

use vstd::prelude::*;
use crate::command::{Command, CommandView};

verus! {

/// The words that set a machine up for the moves of `cmd`: the positioning
/// mode, absolute or relative, and for a pen command the tool, off for pen up
/// and on for pen down, with a short dwell. Pen selection and initialization
/// have no counterpart.
pub open spec fn motion_words(cmd: CommandView) -> Seq<Seq<char>> {
    match cmd {
        CommandView::PenUp(_) => seq!["G90"@, "M107"@, "G4 P100"@],
        CommandView::PenDown(_) => seq!["G90"@, "M106"@, "G4 P100"@],
        CommandView::PlotAbsolute(_) => seq!["G90"@],
        CommandView::PlotRelative(_) => seq!["G91"@],
        CommandView::SelectPen(_) => Seq::empty(),
        CommandView::Initialize => Seq::empty(),
    }
}

/// The character sequences of a sequence of words.
pub open spec fn view_words(words: Seq<&'static str>) -> Seq<Seq<char>> {
    Seq::new(words.len(), |i: int| words[i]@)
}

/// The words that go before the moves of `cmd`.
pub fn gcode_words(cmd: &Command) -> (words: Vec<&'static str>)
    ensures
        view_words(words@) == motion_words(cmd@),
{
    let mut words: Vec<&'static str> = Vec::new();
    match cmd {
        Command::PenUp(_) => {
            words.push("G90");
            words.push("M107");
            words.push("G4 P100");
        },
        Command::PenDown(_) => {
            words.push("G90");
            words.push("M106");
            words.push("G4 P100");
        },
        Command::PlotAbsolute(_) => {
            words.push("G90");
        },
        Command::PlotRelative(_) => {
            words.push("G91");
        },
        Command::SelectPen(_) => {},
        Command::Initialize => {},
    }
    assert(view_words(words@) =~= motion_words(cmd@));
    words
}

} // verus!
