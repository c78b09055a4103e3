//! Whole documents: from text to text, with a reason where a document cannot
//! be processed.

use vstd::prelude::*;
use crate::canonical::{absolute_only, canonical, canonicalize, uses_absolute_coordinates};
use crate::command::CommandView;
use crate::emit::{emit, shapes_to_commands};
use crate::parse::{parse_commands, parse_text, view_strings};
use crate::render::{canonical_commands_to_string, render};
use crate::shapes::{canonical_commands_to_shapes, extract, has_no_initialize, no_initialize};
use crate::tour::{optimize_all_colors, optimized};

verus! {

/// Why a document could not be processed.
#[derive(Debug, PartialEq, Eq, Clone)]
pub enum DocumentError {
    /// Some fragments denote no command: these, in order.
    Rejected(Vec<String>),
    /// A command plots in relative coordinates, which are not supported.
    RelativeCoordinates,
    /// The document holds an initialize command, which has no place among
    /// shapes.
    UnexpectedInitialize,
}

/// The canonical text of parsed commands.
pub open spec fn canonical_text(cmds: Seq<CommandView>) -> Seq<char> {
    render(canonical(cmds))
}

/// The text of parsed commands with the shapes of each pen in tour order.
pub open spec fn optimized_text(cmds: Seq<CommandView>) -> Seq<char> {
    render(emit(optimized(extract(canonical(cmds)))))
}

/// Rewrites a document in canonical form.
///
/// A fragment that denotes no command is reported before a command in
/// relative coordinates is.
pub fn canonicalize_document(text: String) -> (r: Result<String, DocumentError>)
    ensures
        match r {
            Ok(out) => {
                &&& parse_text(text@) is Ok
                &&& absolute_only(parse_text(text@)->Ok_0)
                &&& out@ == canonical_text(parse_text(text@)->Ok_0)
            },
            Err(DocumentError::Rejected(bad)) => parse_text(text@) == Err::<
                Seq<CommandView>,
                Seq<Seq<char>>,
            >(view_strings(bad@)),
            Err(_) => parse_text(text@) is Ok && !absolute_only(parse_text(text@)->Ok_0),
        },
        !(r matches Err(DocumentError::UnexpectedInitialize)),
{
    let cmds = match parse_commands(text) {
        Ok(cmds) => cmds,
        Err(bad) => {
            return Err(DocumentError::Rejected(bad));
        },
    };
    if !uses_absolute_coordinates(&cmds) {
        return Err(DocumentError::RelativeCoordinates);
    }
    Ok(canonical_commands_to_string(canonicalize(cmds)))
}

/// Rewrites a document so that each pen draws its shapes in tour order.
///
/// A fragment that denotes no command is reported first, then a command in
/// relative coordinates, then an initialize command.
pub fn optimize_document(text: String) -> (r: Result<String, DocumentError>)
    ensures
        match r {
            Ok(out) => {
                &&& parse_text(text@) is Ok
                &&& absolute_only(parse_text(text@)->Ok_0)
                &&& no_initialize(canonical(parse_text(text@)->Ok_0))
                &&& out@ == optimized_text(parse_text(text@)->Ok_0)
            },
            Err(DocumentError::Rejected(bad)) => parse_text(text@) == Err::<
                Seq<CommandView>,
                Seq<Seq<char>>,
            >(view_strings(bad@)),
            Err(DocumentError::RelativeCoordinates) => parse_text(text@) is Ok && !absolute_only(
                parse_text(text@)->Ok_0,
            ),
            Err(DocumentError::UnexpectedInitialize) => {
                &&& parse_text(text@) is Ok
                &&& absolute_only(parse_text(text@)->Ok_0)
                &&& !no_initialize(canonical(parse_text(text@)->Ok_0))
            },
        },
{
    let cmds = match parse_commands(text) {
        Ok(cmds) => cmds,
        Err(bad) => {
            return Err(DocumentError::Rejected(bad));
        },
    };
    if !uses_absolute_coordinates(&cmds) {
        return Err(DocumentError::RelativeCoordinates);
    }
    let canonical_cmds = canonicalize(cmds);
    if !has_no_initialize(&canonical_cmds) {
        return Err(DocumentError::UnexpectedInitialize);
    }
    let shapes = canonical_commands_to_shapes(canonical_cmds);
    let ordered = optimize_all_colors(shapes);
    Ok(canonical_commands_to_string(shapes_to_commands(ordered)))
}

} // verus!
