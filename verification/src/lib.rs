//! Plotter command streams.
//!
//! The heart of the crate is a pipeline of five stages, each a function with
//! a contract over the mathematical value of what it takes and gives:
//!
//! 1. [`parse`]: the text of a document becomes parsed commands;
//! 2. [`canonical`]: parsed commands become canonical commands, in which a
//!    pen command carries no coordinates and a move names one point;
//! 3. [`shapes`]: canonical commands become the polylines that each pen draws;
//! 4. [`tour`]: the polylines of each pen are put in a greedy order that
//!    shortens the travel with the pen up;
//! 5. [`emit`] and [`render`]: the polylines become canonical commands again,
//!    and those become text.
//!
//! [`pipeline`] runs the stages on a whole document. [`roundtrip`] proves
//! that canonical text survives being parsed, canonicalized and written again.
//! [`dedupe`] is an optional pass that collapses runs of pen commands.
//!
//! Around the pipeline stand the parts of the tools that use it which can be
//! stated over plain values: [`chunker`] groups instructions for a device with
//! a small buffer, [`viewer`] finds the line segments that a document shows,
//! [`gcode`] names the machine words of a command, [`glyph`] cleans the
//! outlines of glyphs, and [`mapdata`] reads the ways of a map. [`text`] holds
//! the character-level building blocks.

pub mod canonical;
pub mod chunker;
pub mod command;
pub mod dedupe;
pub mod emit;
pub mod gcode;
pub mod glyph;
pub mod mapdata;
pub mod parse;
pub mod pipeline;
pub mod render;
pub mod roundtrip;
pub mod shapes;
pub mod text;
pub mod tour;
pub mod viewer;

pub use canonical::{canonicalize, uses_absolute_coordinates};
pub use chunker::{chunk_commands, Chunk};
pub use command::{CanonicalCommand, Command, CommandView, Point};
pub use dedupe::remove_duplicate_pen_commands;
pub use emit::shapes_to_commands;
pub use gcode::gcode_words;
pub use glyph::{is_on_page, remove_repeats, rescale_points, GlyphPoint};
pub use mapdata::{
    attr, drawn_nodes, get_id, get_tags, parse_relation, parse_way, tag, way_pen, Relation, Tags,
    Way, XmlElement,
};
pub use parse::{parse_command, parse_commands};
pub use pipeline::{canonicalize_document, optimize_document, DocumentError};
pub use render::canonical_commands_to_string;
pub use shapes::{canonical_commands_to_shapes, has_no_initialize, Extractor, Shape};
pub use tour::{find_closest, optimize_all_colors, order_shapes};
pub use viewer::{line_ends, stroke_color, visible_segments, Model, Orientation, Pen, Segment};
