//! Canonical text survives a round trip: parsed, canonicalized and written
//! again, it is the text it was.

use vstd::prelude::*;
use crate::canonical::{absolute_only, canonical, expand};
use crate::command::{CanonicalCommand, CommandView};
use crate::parse::{
    fragments, nonempty, parse_fragment, parse_points, parse_text, parsed, rejected, trimmed,
};
use crate::render::{instruction, line, render};
use crate::text::{
    decimal, is_space, lemma_decimal_chars, lemma_parse_decimal, lemma_split_first,
    lemma_split_one, lemma_trim_exact, parse_i32, split, trim, trim_start,
};

verus! {

/// The parsed command that is written as the canonical command `cmd` is: a
/// pen command without points, a plot of one point.
pub open spec fn lift(cmd: CanonicalCommand) -> CommandView {
    match cmd {
        CanonicalCommand::PenUp => CommandView::PenUp(Seq::empty()),
        CanonicalCommand::PenDown => CommandView::PenDown(Seq::empty()),
        CanonicalCommand::PlotAbsolute(point) => CommandView::PlotAbsolute(seq![point]),
        CanonicalCommand::SelectPen(pen) => CommandView::SelectPen(pen),
        CanonicalCommand::Initialize => CommandView::Initialize,
    }
}

/// The parsed commands that are written as `cmds` are.
pub open spec fn lifted(cmds: Seq<CanonicalCommand>) -> Seq<CommandView> {
    Seq::new(cmds.len(), |i: int| lift(cmds[i]))
}

/// The instructions of `cmds`, in order.
pub open spec fn instructions(cmds: Seq<CanonicalCommand>) -> Seq<Seq<char>> {
    Seq::new(cmds.len(), |i: int| instruction(cmds[i]))
}

/// Whether `text` is in canonical form: whether it is the text of some
/// sequence of canonical commands.
pub open spec fn is_canonical_text(text: Seq<char>) -> bool {
    exists|cmds: Seq<CanonicalCommand>| text == render(cmds)
}

/// The text of two sequences joined is the two texts joined.
pub proof fn lemma_render_concat(a: Seq<CanonicalCommand>, b: Seq<CanonicalCommand>)
    ensures
        render(a + b) == render(a) + render(b),
    decreases b.len(),
{
    if b.len() == 0 {
        assert(a + b =~= a);
        assert(render(a) + render(b) =~= render(a));
    } else {
        assert((a + b).drop_last() =~= a + b.drop_last());
        lemma_render_concat(a, b.drop_last());
        assert(render(a + b) =~= render(a) + render(b));
    }
}

/// An instruction holds no semicolon, and neither begins nor ends with white
/// space.
pub proof fn lemma_instruction_chars(cmd: CanonicalCommand)
    ensures
        instruction(cmd).len() >= 2,
        forall|i: int| 0 <= i < instruction(cmd).len() ==> instruction(cmd)[i] != ';',
        !is_space(instruction(cmd)[0]),
        !is_space(instruction(cmd).last()),
{
    let s = instruction(cmd);
    match cmd {
        CanonicalCommand::PlotAbsolute(point) => {
            let dx = decimal(point.x as int);
            let dy = decimal(point.y as int);
            lemma_decimal_chars(point.x as int);
            lemma_decimal_chars(point.y as int);
            assert(s.last() == dy.last());
            assert forall|i: int| 0 <= i < s.len() implies s[i] != ';' by {
                if 2 <= i < 2 + dx.len() {
                    assert(s[i] == dx[i - 2]);
                } else if i > 2 + dx.len() {
                    assert(s[i] == dy[i - 3 - dx.len()]);
                }
            }
        },
        CanonicalCommand::SelectPen(pen) => {
            let d = decimal(pen as int);
            lemma_decimal_chars(pen as int);
            assert(s.last() == d.last());
            assert forall|i: int| 0 <= i < s.len() implies s[i] != ';' by {
                if 2 <= i {
                    assert(s[i] == d[i - 2]);
                }
            }
        },
        _ => {},
    }
}

/// Decimal text of a coordinate reads as that coordinate, trimmed or not.
proof fn lemma_coordinate(v: i32)
    ensures
        parse_i32(trim(decimal(v as int))) == Some(v),
        forall|i: int| 0 <= i < decimal(v as int).len() ==> decimal(v as int)[i] != ',',
{
    let d = decimal(v as int);
    lemma_decimal_chars(v as int);
    lemma_parse_decimal(v as int);
    assert(!is_space(d[0]));
    lemma_trim_exact(d);
}

/// An instruction parses to the command it was written for.
pub proof fn lemma_parse_instruction(cmd: CanonicalCommand)
    ensures
        parse_fragment(instruction(cmd)) == Some(lift(cmd)),
{
    let s = instruction(cmd);
    match cmd {
        CanonicalCommand::PlotAbsolute(point) => {
            let dx = decimal(point.x as int);
            let dy = decimal(point.y as int);
            lemma_coordinate(point.x);
            lemma_coordinate(point.y);
            assert(s.skip(2) =~= dx + seq![','] + dy);
            lemma_split_first(dx, ',', dy);
            lemma_split_one(dy, ',');
            let fields = split(s.skip(2), ',');
            assert(fields =~= seq![dx, dy]);
            assert(parse_points(s.skip(2)).unwrap() =~= seq![point]);
        },
        CanonicalCommand::SelectPen(pen) => {
            let d = decimal(pen as int);
            lemma_decimal_chars(pen as int);
            lemma_parse_decimal(pen as int);
            assert(s.skip(2) =~= d);
            assert(!is_space(d[0]));
            lemma_trim_exact(d);
        },
        _ => {
            assert(s.len() == 2);
        },
    }
}

/// The fragments of canonical text are its instructions. This holds behind a
/// line break too, which is how each line but the first reaches the parser.
proof fn lemma_fragments_render(lead: Seq<char>, cmds: Seq<CanonicalCommand>)
    requires
        lead == Seq::<char>::empty() || lead == seq!['\n'],
    ensures
        fragments(lead + render(cmds)) == instructions(cmds),
    decreases cmds.len(),
{
    reveal(Seq::filter);
    if cmds.len() == 0 {
        assert(lead + render(cmds) =~= lead);
        lemma_split_one(lead, ';');
        assert(is_space('\n'));
        assert(lead.len() > 0 ==> lead.drop_first() =~= Seq::<char>::empty());
        assert(trim_start(Seq::<char>::empty()) =~= Seq::<char>::empty());
        assert(trim_start(lead) =~= Seq::<char>::empty());
        assert(trim(lead) =~= Seq::<char>::empty());
        let pieces = seq![lead];
        assert(pieces.map_values(trimmed()) =~= seq![trim(lead)]);
        Seq::<Seq<char>>::empty().lemma_filter_push(trim(lead), nonempty());
        assert(seq![trim(lead)] =~= Seq::<Seq<char>>::empty().push(trim(lead)));
        assert(Seq::<Seq<char>>::empty().filter(nonempty()) =~= Seq::empty());
        assert(fragments(lead + render(cmds)) =~= instructions(cmds));
    } else {
        let first = cmds[0];
        let rest = cmds.drop_first();
        let head = instruction(first);
        let tail = seq!['\n'] + render(rest);
        assert(cmds =~= seq![first] + rest);
        lemma_render_concat(seq![first], rest);
        assert(seq![first].drop_last() =~= Seq::<CanonicalCommand>::empty());
        assert(render(seq![first].drop_last()) =~= Seq::<char>::empty());
        assert(render(seq![first]) =~= line(first));
        assert(lead + render(cmds) =~= (lead + head) + seq![';'] + tail);
        lemma_instruction_chars(first);
        assert forall|i: int| 0 <= i < (lead + head).len() implies (lead + head)[i] != ';' by {
            if i >= lead.len() {
                assert((lead + head)[i] == head[i - lead.len()]);
            }
        }
        lemma_split_first(lead + head, ';', tail);
        lemma_trim_exact(head);
        assert(lead + head =~= if lead.len() == 0 {
            head
        } else {
            seq!['\n'] + head
        });
        assert(trim(lead + head) == head);
        lemma_fragments_render(seq!['\n'], rest);
        let others = split(tail, ';');
        assert((seq![lead + head] + others).map_values(trimmed()) =~= seq![head]
            + others.map_values(trimmed()));
        others.map_values(trimmed()).lemma_filter_prepend(head, nonempty());
        assert(fragments(lead + render(cmds)) =~= instructions(cmds));
    }
}

/// A sequence without an element of which `pred` holds is filtered to nothing.
proof fn lemma_filter_none<A>(s: Seq<A>, pred: spec_fn(A) -> bool)
    requires
        forall|i: int| 0 <= i < s.len() ==> !pred(s[i]),
    ensures
        s.filter(pred).len() == 0,
    decreases s.len(),
{
    reveal(Seq::filter);
    if s.len() > 0 {
        lemma_filter_none(s.drop_last(), pred);
    }
}

/// The text of canonical commands parses to the commands it was written for.
pub proof fn lemma_parse_render(cmds: Seq<CanonicalCommand>)
    ensures
        parse_text(render(cmds)) == Ok::<Seq<CommandView>, Seq<Seq<char>>>(lifted(cmds)),
{
    let text = render(cmds);
    lemma_fragments_render(Seq::empty(), cmds);
    assert(Seq::<char>::empty() + text =~= text);
    let frags = fragments(text);
    assert forall|i: int| 0 <= i < frags.len() implies !rejected()(frags[i]) by {
        lemma_parse_instruction(cmds[i]);
    }
    lemma_filter_none(frags, rejected());
    assert forall|i: int| 0 <= i < frags.len() implies frags.map_values(parsed())[i] == lifted(
        cmds,
    )[i] by {
        lemma_parse_instruction(cmds[i]);
    }
    assert(frags.map_values(parsed()) =~= lifted(cmds));
}

/// Canonical commands are the canonical form of the parsed commands they are
/// written as, and none of those is in relative coordinates.
pub proof fn lemma_canonical_lifted(cmds: Seq<CanonicalCommand>)
    ensures
        absolute_only(lifted(cmds)),
        canonical(lifted(cmds)) == cmds,
    decreases cmds.len(),
{
    if cmds.len() == 0 {
        assert(canonical(lifted(cmds)) =~= cmds);
    } else {
        lemma_canonical_lifted(cmds.drop_last());
        assert(lifted(cmds).drop_last() =~= lifted(cmds.drop_last()));
        assert(expand(lift(cmds.last())) =~= seq![cmds.last()]);
        assert(canonical(lifted(cmds)) =~= cmds);
    }
}

/// The round trip: text in canonical form parses without a rejected fragment,
/// to commands in absolute coordinates, and the canonical form of those is
/// written as the same text.
pub proof fn lemma_round_trip(text: Seq<char>)
    requires
        is_canonical_text(text),
    ensures
        parse_text(text) is Ok,
        absolute_only(parse_text(text)->Ok_0),
        render(canonical(parse_text(text)->Ok_0)) == text,
{
    let cmds = choose|cmds: Seq<CanonicalCommand>| text == render(cmds);
    lemma_parse_render(cmds);
    lemma_canonical_lifted(cmds);
}

} // verus!
