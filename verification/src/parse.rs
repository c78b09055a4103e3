//! The command parser: from the text of a document to its commands.
//!
//! A document is a run of fragments, each ended by `;`. A fragment is trimmed
//! of surrounding white space; what is then empty is passed over. The first two
//! characters of a fragment name the command, the rest holds its operands.

use vstd::prelude::*;
use crate::command::{view_commands, Command, CommandView, Point};
use crate::text::{
    collect_string, parse_i32, parse_u8, pieces, read_i32, read_u8, split, split_range, to_chars,
    trim, trim_range,
};

verus! {

/// The predicate "is not empty", on fragments.
pub open spec fn nonempty() -> spec_fn(Seq<char>) -> bool {
    |f: Seq<char>| f.len() > 0
}

/// The function that trims a piece of text.
pub open spec fn trimmed() -> spec_fn(Seq<char>) -> Seq<char> {
    |p: Seq<char>| trim(p)
}

/// The fragments of a document: its pieces between semicolons, each trimmed,
/// the empty ones left out.
pub open spec fn fragments(text: Seq<char>) -> Seq<Seq<char>> {
    split(text, ';').map_values(trimmed()).filter(nonempty())
}

/// The points that a non-empty operand text denotes: its fields between commas
/// are trimmed, each must be a coordinate, and their number must be even; they
/// are paired in order.
pub open spec fn parse_points(s: Seq<char>) -> Option<Seq<Point>> {
    let fields = split(s, ',');
    if fields.len() % 2 == 0 && (forall|i: int|
        0 <= i < fields.len() ==> parse_i32(trim(#[trigger] fields[i])) is Some) {
        Some(
            Seq::new(
                fields.len() / 2,
                |i: int|
                    Point {
                        x: parse_i32(trim(fields[2 * i])).unwrap(),
                        y: parse_i32(trim(fields[2 * i + 1])).unwrap(),
                    },
            ),
        )
    } else {
        None
    }
}

/// The command that a fragment denotes, if it denotes one.
///
/// `SP` takes a pen number. Every other command takes points, none if nothing
/// follows its name; `IN` has its operands read and then leaves them out.
pub open spec fn parse_fragment(s: Seq<char>) -> Option<CommandView> {
    if s.len() < 2 {
        None
    } else if s[0] == 'S' && s[1] == 'P' {
        match parse_u8(trim(s.skip(2))) {
            Some(pen) => Some(CommandView::SelectPen(pen)),
            None => None,
        }
    } else {
        let operands = if s.len() == 2 {
            Some(Seq::<Point>::empty())
        } else {
            parse_points(s.skip(2))
        };
        match operands {
            None => None,
            Some(points) => if s[0] == 'P' && s[1] == 'U' {
                Some(CommandView::PenUp(points))
            } else if s[0] == 'P' && s[1] == 'D' {
                Some(CommandView::PenDown(points))
            } else if s[0] == 'P' && s[1] == 'A' {
                Some(CommandView::PlotAbsolute(points))
            } else if s[0] == 'P' && s[1] == 'R' {
                Some(CommandView::PlotRelative(points))
            } else if s[0] == 'I' && s[1] == 'N' {
                Some(CommandView::Initialize)
            } else {
                None
            },
        }
    }
}

/// The predicate "denotes no command", on fragments.
pub open spec fn rejected() -> spec_fn(Seq<char>) -> bool {
    |f: Seq<char>| parse_fragment(f) is None
}

/// The function that gives the command of a fragment that denotes one.
pub open spec fn parsed() -> spec_fn(Seq<char>) -> CommandView {
    |f: Seq<char>| parse_fragment(f).unwrap()
}

/// What a document parses to: the commands of its fragments, in order, if every
/// fragment denotes one; otherwise the fragments that denote none, in order.
pub open spec fn parse_text(text: Seq<char>) -> Result<Seq<CommandView>, Seq<Seq<char>>> {
    let bad = fragments(text).filter(rejected());
    if bad.len() == 0 {
        Ok(fragments(text).map_values(parsed()))
    } else {
        Err(bad)
    }
}

/// The character sequences of a sequence of strings, in order.
pub open spec fn view_strings(strings: Seq<String>) -> Seq<Seq<char>> {
    Seq::new(strings.len(), |i: int| strings[i]@)
}

/// Reads the operand text `v[from..to]` as points.
fn read_points(v: &Vec<char>, from: usize, to: usize) -> (r: Option<Vec<Point>>)
    requires
        from <= to <= v.len(),
    ensures
        match r {
            Some(points) => parse_points(v@.subrange(from as int, to as int)) == Some(points@),
            None => parse_points(v@.subrange(from as int, to as int)) is None,
        },
{
    let fields = split_range(v, from, to, ',');
    let ghost texts = split(v@.subrange(from as int, to as int), ',');
    assert(texts.len() == fields.len());
    assert forall|j: int| 0 <= j < fields.len() implies #[trigger] texts[j] == v@.subrange(
        fields[j].0 as int,
        fields[j].1 as int,
    ) by {
        assert(pieces(v@, fields@)[j] == texts[j]);
    }
    if fields.len() % 2 != 0 {
        return None;
    }
    let n: usize = fields.len() / 2;
    let mut points: Vec<Point> = Vec::new();
    let mut i: usize = 0;
    while i < n
        invariant
            i <= n,
            fields.len() == 2 * n,
            texts.len() == fields.len(),
            texts == split(v@.subrange(from as int, to as int), ','),
            forall|j: int|
                0 <= j < fields.len() ==> from <= (#[trigger] fields[j]).0 <= fields[j].1 <= to,
            to <= v.len(),
            forall|j: int|
                0 <= j < fields.len() ==> #[trigger] texts[j] == v@.subrange(
                    fields[j].0 as int,
                    fields[j].1 as int,
                ),
            points.len() == i,
            forall|j: int| 0 <= j < 2 * i ==> parse_i32(trim(#[trigger] texts[j])) is Some,
            forall|j: int|
                0 <= j < i ==> #[trigger] points[j] == (Point {
                    x: parse_i32(trim(texts[2 * j])).unwrap(),
                    y: parse_i32(trim(texts[2 * j + 1])).unwrap(),
                }),
        decreases n - i,
    {
        let fx = fields[2 * i];
        let fy = fields[2 * i + 1];
        let (xa, xb) = trim_range(v, fx.0, fx.1);
        let (ya, yb) = trim_range(v, fy.0, fy.1);
        assert(texts[2 * i as int] == v@.subrange(fx.0 as int, fx.1 as int));
        assert(texts[2 * i + 1] == v@.subrange(fy.0 as int, fy.1 as int));
        let x = match read_i32(v, xa, xb) {
            Some(x) => x,
            None => {
                return None;
            },
        };
        let y = match read_i32(v, ya, yb) {
            Some(y) => y,
            None => {
                return None;
            },
        };
        points.push(Point { x, y });
        i += 1;
    }
    assert(points@ =~= parse_points(v@.subrange(from as int, to as int)).unwrap());
    Some(points)
}

/// Reads the fragment `v[from..to]` as a command.
fn read_command(v: &Vec<char>, from: usize, to: usize) -> (r: Option<Command>)
    requires
        from <= to <= v.len(),
    ensures
        match r {
            Some(cmd) => parse_fragment(v@.subrange(from as int, to as int)) == Some(cmd@),
            None => parse_fragment(v@.subrange(from as int, to as int)) is None,
        },
{
    let ghost s = v@.subrange(from as int, to as int);
    if to - from < 2 {
        return None;
    }
    let c0 = v[from];
    let c1 = v[from + 1];
    assert(s[0] == c0 && s[1] == c1);
    assert(s.skip(2) =~= v@.subrange(from + 2, to as int));
    if c0 == 'S' && c1 == 'P' {
        let (a, b) = trim_range(v, from + 2, to);
        return match read_u8(v, a, b) {
            Some(pen) => Some(Command::SelectPen(pen)),
            None => None,
        };
    }
    let points = if to - from == 2 {
        Vec::new()
    } else {
        match read_points(v, from + 2, to) {
            Some(points) => points,
            None => {
                return None;
            },
        }
    };
    if c0 == 'P' && c1 == 'U' {
        Some(Command::PenUp(points))
    } else if c0 == 'P' && c1 == 'D' {
        Some(Command::PenDown(points))
    } else if c0 == 'P' && c1 == 'A' {
        Some(Command::PlotAbsolute(points))
    } else if c0 == 'P' && c1 == 'R' {
        Some(Command::PlotRelative(points))
    } else if c0 == 'I' && c1 == 'N' {
        Some(Command::Initialize)
    } else {
        None
    }
}

/// Parses one fragment as it stands, white space and all: the command it
/// denotes, or the fragment itself where it denotes none.
pub fn parse_command(cmd: String) -> (r: Result<Command, String>)
    ensures
        match r {
            Ok(c) => parse_fragment(cmd@) == Some(c@),
            Err(e) => parse_fragment(cmd@) is None && e@ == cmd@,
        },
{
    let v = to_chars(cmd.as_str());
    assert(v@.subrange(0, v.len() as int) =~= v@);
    match read_command(&v, 0, v.len()) {
        Some(c) => Ok(c),
        None => Err(cmd),
    }
}

/// Parses a document: all of its commands in order, or, if any fragment
/// denotes no command, those fragments in order and no command at all.
pub fn parse_commands(cmd_str: String) -> (r: Result<Vec<Command>, Vec<String>>)
    ensures
        match r {
            Ok(cmds) => parse_text(cmd_str@) == Ok::<Seq<CommandView>, Seq<Seq<char>>>(
                view_commands(cmds@),
            ),
            Err(bad) => parse_text(cmd_str@) == Err::<Seq<CommandView>, Seq<Seq<char>>>(
                view_strings(bad@),
            ),
        },
{
    let v = to_chars(cmd_str.as_str());
    assert(v@.subrange(0, v.len() as int) =~= v@);
    let ranges = split_range(&v, 0, v.len(), ';');
    let ghost parts = split(v@, ';');
    assert(parts.len() == ranges.len());
    assert forall|j: int| 0 <= j < ranges.len() implies #[trigger] parts[j] == v@.subrange(
        ranges[j].0 as int,
        ranges[j].1 as int,
    ) by {
        assert(pieces(v@, ranges@)[j] == parts[j]);
    }
    let mut cmds: Vec<Command> = Vec::new();
    let mut bad: Vec<String> = Vec::new();
    let mut k: usize = 0;
    assert(parts.take(0) =~= Seq::empty());
    proof {
        reveal(Seq::filter);
    }
    assert(parts.take(0).map_values(trimmed()) =~= Seq::empty());
    assert(view_strings(bad@) =~= Seq::empty());
    assert(view_commands(cmds@) =~= Seq::<Seq<char>>::empty().map_values(parsed()));
    while k < ranges.len()
        invariant
            k <= ranges.len(),
            parts.len() == ranges.len(),
            forall|j: int|
                0 <= j < ranges.len() ==> (#[trigger] ranges[j]).0 <= ranges[j].1 <= v.len(),
            forall|j: int|
                0 <= j < ranges.len() ==> #[trigger] parts[j] == v@.subrange(
                    ranges[j].0 as int,
                    ranges[j].1 as int,
                ),
            view_strings(bad@) == parts.take(k as int).map_values(trimmed()).filter(
                nonempty(),
            ).filter(rejected()),
            bad.len() == 0 ==> view_commands(cmds@) == parts.take(k as int).map_values(
                trimmed(),
            ).filter(nonempty()).map_values(parsed()),
        decreases ranges.len() - k,
    {
        let range = ranges[k];
        let (a, b) = trim_range(&v, range.0, range.1);
        let ghost before = parts.take(k as int).map_values(trimmed());
        let ghost frag = trim(parts[k as int]);
        proof {
            assert(parts.take(k + 1) =~= parts.take(k as int).push(parts[k as int]));
            assert(parts.take(k + 1).map_values(trimmed()) =~= before.push(frag));
            before.lemma_filter_push(frag, nonempty());
            before.filter(nonempty()).lemma_filter_push(frag, rejected());
            assert(frag == v@.subrange(a as int, b as int));
        }
        if a < b {
            match read_command(&v, a, b) {
                Some(cmd) => {
                    proof {
                        assert(before.filter(nonempty()).push(frag).map_values(parsed())
                            =~= before.filter(nonempty()).map_values(parsed()).push(cmd@));
                        assert(view_commands(cmds@.push(cmd)) =~= view_commands(cmds@).push(cmd@));
                    }
                    cmds.push(cmd);
                },
                None => {
                    let text = collect_string(&v, a, b);
                    proof {
                        assert(view_strings(bad@.push(text)) =~= view_strings(bad@).push(frag));
                    }
                    bad.push(text);
                },
            }
        }
        k += 1;
    }
    assert(parts.take(k as int) =~= parts);
    if bad.len() == 0 {
        Ok(cmds)
    } else {
        Err(bad)
    }
}

} // verus!
