//! Map data: the ways and relations of a map as they stand in a document of
//! nested elements, which pen a way is drawn with, and which of its nodes are
//! drawn.

use vstd::prelude::*;
use crate::text::{parse_u64, read_u64, same_text};

verus! {

/// An element of a document: a name, attributes, and the elements inside it.
#[derive(Debug, PartialEq, Eq)]
pub struct XmlElement {
    pub name: String,
    pub attributes: Vec<(String, String)>,
    pub children: Vec<XmlElement>,
}

/// Tags: pairs of a key and a value, in the order they were given. Where a
/// key occurs more than once its last value counts.
pub type Tags = Vec<(String, String)>;

/// A way: a line through nodes.
#[derive(Debug, PartialEq, Eq, Clone)]
pub struct Way {
    pub nodes: Vec<u64>,
    pub tags: Tags,
}

/// A relation between members.
#[derive(Debug, PartialEq, Eq, Clone)]
pub struct Relation {
    pub members: Vec<u64>,
    pub tags: Tags,
}

/// The character sequences of pairs of strings.
pub open spec fn view_pairs(pairs: Seq<(String, String)>) -> Seq<(Seq<char>, Seq<char>)> {
    Seq::new(pairs.len(), |i: int| (pairs[i].0@, pairs[i].1@))
}

/// The value that `pairs` give to `key` where the first pair with a key
/// counts.
pub open spec fn first_value(pairs: Seq<(Seq<char>, Seq<char>)>, key: Seq<char>) -> Option<
    Seq<char>,
>
    decreases pairs.len(),
{
    if pairs.len() == 0 {
        None
    } else if pairs[0].0 == key {
        Some(pairs[0].1)
    } else {
        first_value(pairs.drop_first(), key)
    }
}

/// The value that `pairs` give to `key` where the last pair with a key
/// counts.
pub open spec fn last_value(pairs: Seq<(Seq<char>, Seq<char>)>, key: Seq<char>) -> Option<
    Seq<char>,
>
    decreases pairs.len(),
{
    if pairs.len() == 0 {
        None
    } else if pairs.last().0 == key {
        Some(pairs.last().1)
    } else {
        last_value(pairs.drop_last(), key)
    }
}

/// The value of the attribute `name` of `e`.
pub open spec fn attribute(e: XmlElement, name: Seq<char>) -> Option<Seq<char>> {
    first_value(view_pairs(e.attributes@), name)
}

/// The tag that the child `c` of an element gives: a child named `tag` with
/// the attributes `k` and `v` gives the pair of their values.
pub open spec fn tag_of(c: XmlElement) -> Option<(Seq<char>, Seq<char>)> {
    if c.name@ == "tag"@ && attribute(c, "k"@) is Some && attribute(c, "v"@) is Some {
        Some((attribute(c, "k"@).unwrap(), attribute(c, "v"@).unwrap()))
    } else {
        None
    }
}

/// The tags that `children` give, in order.
pub open spec fn tags_of(children: Seq<XmlElement>) -> Seq<(Seq<char>, Seq<char>)>
    decreases children.len(),
{
    if children.len() == 0 {
        Seq::empty()
    } else {
        match tag_of(children.last()) {
            Some(pair) => tags_of(children.drop_last()).push(pair),
            None => tags_of(children.drop_last()),
        }
    }
}

/// The numbers that the children named `kind` refer to by their attribute
/// `ref`, in order; nothing where one of them has no such attribute or its
/// value is no number of 64 bits.
pub open spec fn refs_of(children: Seq<XmlElement>, kind: Seq<char>) -> Option<Seq<u64>>
    decreases children.len(),
{
    if children.len() == 0 {
        Some(Seq::empty())
    } else {
        match refs_of(children.drop_last(), kind) {
            None => None,
            Some(before) => if children.last().name@ != kind {
                Some(before)
            } else {
                match attribute(children.last(), "ref"@) {
                    None => None,
                    Some(text) => match parse_u64(text) {
                        None => None,
                        Some(n) => Some(before.push(n)),
                    },
                }
            },
        }
    }
}

/// The number that the attribute `id` of `e` gives it.
pub open spec fn id_of(e: XmlElement) -> Option<u64> {
    match attribute(e, "id"@) {
        None => None,
        Some(text) => parse_u64(text),
    }
}

/// Looks up the attribute `name` of `e`.
pub fn attr<'a>(e: &'a XmlElement, name: &str) -> (value: Option<&'a str>)
    ensures
        match value {
            Some(text) => attribute(*e, name@) == Some(text@),
            None => attribute(*e, name@) is None,
        },
{
    let ghost pairs = view_pairs(e.attributes@);
    let mut i: usize = 0;
    assert(pairs.skip(0) =~= pairs);
    while i < e.attributes.len()
        invariant
            i <= e.attributes.len(),
            pairs == view_pairs(e.attributes@),
            first_value(pairs, name@) == first_value(pairs.skip(i as int), name@),
        decreases e.attributes.len() - i,
    {
        assert(pairs.skip(i as int).drop_first() =~= pairs.skip(i + 1));
        assert(pairs.skip(i as int)[0] == pairs[i as int]);
        if same_text(e.attributes[i].0.as_str(), name) {
            return Some(e.attributes[i].1.as_str());
        }
        i += 1;
    }
    None
}

/// Looks up the value that `tags` give to `key`.
pub fn tag<'a>(tags: &'a Tags, key: &str) -> (value: Option<&'a str>)
    ensures
        match value {
            Some(text) => last_value(view_pairs(tags@), key@) == Some(text@),
            None => last_value(view_pairs(tags@), key@) is None,
        },
{
    let ghost pairs = view_pairs(tags@);
    let mut i: usize = tags.len();
    assert(pairs.take(i as int) =~= pairs);
    while i > 0
        invariant
            i <= tags.len(),
            pairs == view_pairs(tags@),
            last_value(pairs, key@) == last_value(pairs.take(i as int), key@),
        decreases i,
    {
        assert(pairs.take(i as int).drop_last() =~= pairs.take(i - 1));
        assert(pairs.take(i as int).last() == pairs[i - 1]);
        if same_text(tags[i - 1].0.as_str(), key) {
            return Some(tags[i - 1].1.as_str());
        }
        i -= 1;
    }
    None
}

/// Collects the tags of `e`: one for each child named `tag` that has the
/// attributes `k` and `v`.
pub fn get_tags(e: &XmlElement) -> (tags: Tags)
    ensures
        view_pairs(tags@) == tags_of(e.children@),
{
    let mut tags: Tags = Vec::new();
    let mut i: usize = 0;
    assert(e.children@.take(0) =~= Seq::empty());
    assert(view_pairs(tags@) =~= Seq::empty());
    while i < e.children.len()
        invariant
            i <= e.children.len(),
            view_pairs(tags@) == tags_of(e.children@.take(i as int)),
        decreases e.children.len() - i,
    {
        let node = &e.children[i];
        assert(e.children@.take(i + 1).drop_last() =~= e.children@.take(i as int));
        if same_text(node.name.as_str(), "tag") {
            match (attr(node, "k"), attr(node, "v")) {
                (Some(k), Some(v)) => {
                    let ghost before = view_pairs(tags@);
                    tags.push((k.to_string(), v.to_string()));
                    assert(view_pairs(tags@) =~= before.push((k@, v@)));
                },
                _ => {},
            }
        }
        i += 1;
    }
    assert(e.children@.take(i as int) =~= e.children@);
    tags
}

/// Reads the number that the attribute `id` gives `e`.
pub fn get_id(e: &XmlElement) -> (id: Option<u64>)
    ensures
        id == id_of(*e),
{
    match attr(e, "id") {
        Some(text) => read_u64(text),
        None => None,
    }
}

/// Collects the numbers that the children of `e` named `kind` refer to.
fn get_refs(e: &XmlElement, kind: &str) -> (refs: Option<Vec<u64>>)
    ensures
        match refs {
            Some(list) => refs_of(e.children@, kind@) == Some(list@),
            None => refs_of(e.children@, kind@) is None,
        },
{
    let mut refs: Vec<u64> = Vec::new();
    let mut i: usize = 0;
    assert(e.children@.take(0) =~= Seq::empty());
    while i < e.children.len()
        invariant
            i <= e.children.len(),
            refs_of(e.children@.take(i as int), kind@) == Some(refs@),
        decreases e.children.len() - i,
    {
        let c = &e.children[i];
        assert(e.children@.take(i + 1).drop_last() =~= e.children@.take(i as int));
        if same_text(c.name.as_str(), kind) {
            let number = match attr(c, "ref") {
                Some(text) => read_u64(text),
                None => None,
            };
            match number {
                Some(n) => {
                    refs.push(n);
                },
                None => {
                    proof {
                        lemma_refs_fail(e.children@, kind@, i + 1);
                    }
                    return None;
                },
            }
        }
        i += 1;
    }
    assert(e.children@.take(i as int) =~= e.children@);
    Some(refs)
}

/// Children that fail to give their numbers fail with whatever follows them.
pub proof fn lemma_refs_fail(children: Seq<XmlElement>, kind: Seq<char>, n: int)
    requires
        0 <= n <= children.len(),
        refs_of(children.take(n), kind) is None,
    ensures
        refs_of(children, kind) is None,
    decreases children.len() - n,
{
    if n < children.len() {
        assert(children.take(n + 1).drop_last() =~= children.take(n));
        lemma_refs_fail(children, kind, n + 1);
    } else {
        assert(children.take(n) =~= children);
    }
}

/// Reads a way: the nodes that its children named `nd` refer to, and its
/// tags. Nothing where one of those children refers to no node.
pub fn parse_way(e: &XmlElement) -> (way: Option<Way>)
    ensures
        match way {
            Some(w) => refs_of(e.children@, "nd"@) == Some(w.nodes@) && view_pairs(w.tags@)
                == tags_of(e.children@),
            None => refs_of(e.children@, "nd"@) is None,
        },
{
    match get_refs(e, "nd") {
        Some(nodes) => Some(Way { nodes, tags: get_tags(e) }),
        None => None,
    }
}

/// Reads a relation: the members that its children named `member` refer to,
/// and its tags. Nothing where one of those children refers to no member.
pub fn parse_relation(e: &XmlElement) -> (relation: Option<Relation>)
    ensures
        match relation {
            Some(r) => refs_of(e.children@, "member"@) == Some(r.members@) && view_pairs(r.tags@)
                == tags_of(e.children@),
            None => refs_of(e.children@, "member"@) is None,
        },
{
    match get_refs(e, "member") {
        Some(members) => Some(Relation { members, tags: get_tags(e) }),
        None => None,
    }
}

/// The pen for a way with `tags`: 1 for a building; else 2 for a park or a
/// playground; else 3 for a highway; else pen 0, which draws nothing.
pub open spec fn pen_of_way(tags: Seq<(Seq<char>, Seq<char>)>) -> u8 {
    if last_value(tags, "building"@) is Some {
        1
    } else if last_value(tags, "leisure"@) == Some("park"@) || last_value(tags, "leisure"@)
        == Some("playground"@) {
        2
    } else if last_value(tags, "highway"@) is Some {
        3
    } else {
        0
    }
}

/// Chooses the pen for a way from its tags.
pub fn way_pen(tags: &Tags) -> (pen: u8)
    ensures
        pen == pen_of_way(view_pairs(tags@)),
{
    if tag(tags, "building").is_some() {
        return 1;
    }
    match tag(tags, "leisure") {
        Some(value) => {
            if same_text(value, "park") || same_text(value, "playground") {
                return 2;
            }
        },
        None => {},
    }
    if tag(tags, "highway").is_some() {
        3
    } else {
        0
    }
}

/// Whether the `i`th entry of `inside` is a node in bounds.
pub open spec fn is_inside(inside: Seq<Option<bool>>, i: int) -> bool {
    0 <= i < inside.len() && inside[i] == Some(true)
}

/// Whether the `i`th member of a way is drawn: it is a node, and it or one
/// of the two members next to it is a node in bounds. `inside` says of each
/// member whether it lies in bounds, and nothing of one that is no node.
pub open spec fn is_drawn(inside: Seq<Option<bool>>, i: int) -> bool {
    &&& 0 <= i < inside.len()
    &&& inside[i] is Some
    &&& is_inside(inside, i) || is_inside(inside, i - 1) || is_inside(inside, i + 1)
}

/// Says of each member of a way whether it is drawn.
pub fn drawn_nodes(inside: &Vec<Option<bool>>) -> (drawn: Vec<bool>)
    ensures
        drawn.len() == inside.len(),
        forall|i: int| 0 <= i < inside.len() ==> drawn[i] == is_drawn(inside@, i),
{
    let mut drawn: Vec<bool> = Vec::new();
    let mut i: usize = 0;
    while i < inside.len()
        invariant
            i <= inside.len(),
            drawn.len() == i,
            forall|j: int| 0 <= j < i ==> drawn[j] == is_drawn(inside@, j),
        decreases inside.len() - i,
    {
        let here = match inside[i] {
            Some(b) => b,
            None => false,
        };
        let before = i > 0 && match inside[i - 1] {
            Some(b) => b,
            None => false,
        };
        let after = i + 1 < inside.len() && match inside[i + 1] {
            Some(b) => b,
            None => false,
        };
        let is_node = match inside[i] {
            Some(_) => true,
            None => false,
        };
        drawn.push(is_node && (here || before || after));
        i += 1;
    }
    drawn
}

} // verus!
