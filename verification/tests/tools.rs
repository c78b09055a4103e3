use hpgl::chunker::RESERVE;
use hpgl::text::same_text;
use hpgl::{
    attr, chunk_commands, drawn_nodes, gcode_words, get_id, get_tags, is_on_page, line_ends,
    parse_relation, parse_way, remove_repeats, rescale_points, stroke_color, tag,
    visible_segments, way_pen, Chunk, Command, GlyphPoint, Model, Orientation, Point, Relation,
    Segment, Way, XmlElement,
};

fn at(x: i32, y: i32) -> Point {
    Point { x, y }
}

fn dot(x: i64, y: i64) -> GlyphPoint {
    GlyphPoint { x, y }
}

fn lines(text: &[&str]) -> Vec<Vec<u8>> {
    text.iter().map(|line| line.as_bytes().to_vec()).collect()
}

fn chunk(bytes: &str, commands: usize) -> Chunk {
    Chunk { bytes: bytes.as_bytes().to_vec(), commands }
}

#[test]
fn instructions_fill_a_chunk_up_to_the_reserve() {
    // With a buffer of 13 a chunk stays below 10 bytes.
    let cmds = lines(&["PU;", "PD;", "PA1,2;", "SP1;", "IN;", "PU;", "PA10,10;"]);
    assert_eq!(
        chunk_commands(&cmds, 13),
        vec![chunk("PU;PD;", 2), chunk("PA1,2;", 1), chunk("SP1;IN;", 2), chunk("PU;", 1), chunk("PA10,10;", 1)]
    );
}

#[test]
fn a_chunk_must_stay_below_the_budget_not_reach_it() {
    let cmds = lines(&["PU;", "PD;"]);
    assert_eq!(chunk_commands(&cmds, 9), vec![chunk("PU;", 1), chunk("PD;", 1)]);
    assert_eq!(chunk_commands(&cmds, 10), vec![chunk("PU;PD;", 2)]);
}

#[test]
fn a_long_instruction_is_sent_whole_behind_an_empty_chunk() {
    let cmds = lines(&["PA1000,1000,2000,2000;", "PU;"]);
    assert_eq!(
        chunk_commands(&cmds, 8),
        vec![chunk("", 0), chunk("PA1000,1000,2000,2000;", 1), chunk("PU;", 1)]
    );
}

#[test]
fn no_instructions_make_one_empty_chunk() {
    assert_eq!(chunk_commands(&vec![], 60), vec![chunk("", 0)]);
    assert_eq!(chunk_commands(&vec![], RESERVE), vec![chunk("", 0)]);
}

#[test]
fn the_smallest_buffer_sends_each_instruction_alone() {
    let cmds = lines(&["PU;", "", "PD;"]);
    assert_eq!(
        chunk_commands(&cmds, 3),
        vec![chunk("", 0), chunk("PU;", 1), chunk("", 1), chunk("PD;", 1)]
    );
}

#[test]
fn chunks_hold_every_instruction_in_order() {
    let cmds = lines(&["SP1;", "PU;", "PA0,0;", "PD;", "PA100,100;", "PU;", "SP0;"]);
    for size in 3..40 {
        let chunks = chunk_commands(&cmds, size);
        let sent: Vec<u8> = chunks.iter().flat_map(|c| c.bytes.clone()).collect();
        assert_eq!(sent, "SP1;PU;PA0,0;PD;PA100,100;PU;SP0;".as_bytes().to_vec());
        let count: usize = chunks.iter().map(|c| c.commands).sum();
        assert_eq!(count, 7);
        for c in chunks.iter() {
            assert!(c.commands <= 1 || c.bytes.len() < size - RESERVE);
        }
    }
}

#[test]
fn a_line_is_shown_for_each_move_with_a_pen_down() {
    let cmds = vec![
        Command::SelectPen(2),
        Command::PenUp(vec![at(5, 5), at(10, 10)]),
        Command::PenDown(vec![at(20, 10), at(20, 20)]),
        Command::PlotAbsolute(vec![at(10, 20)]),
        Command::PenUp(vec![]),
        Command::PlotAbsolute(vec![at(0, 0)]),
        Command::PenDown(vec![]),
        Command::PlotRelative(vec![at(1, 2), at(-3, 4)]),
    ];
    assert_eq!(
        visible_segments(&cmds),
        Some(vec![
            Segment { start: at(20, 10), end: at(20, 20), color: 2 },
            Segment { start: at(20, 20), end: at(10, 20), color: 2 },
            Segment { start: at(0, 0), end: at(1, 2), color: 2 },
            Segment { start: at(1, 2), end: at(-2, 6), color: 2 },
        ])
    );
}

#[test]
fn the_first_point_of_a_pen_down_is_reached_with_the_pen_as_it_was() {
    let up_before = vec![Command::SelectPen(1), Command::PenDown(vec![at(1, 1), at(2, 2)])];
    assert_eq!(
        visible_segments(&up_before),
        Some(vec![Segment { start: at(1, 1), end: at(2, 2), color: 1 }])
    );
    let down_before = vec![
        Command::SelectPen(1),
        Command::PenDown(vec![]),
        Command::PenDown(vec![at(1, 1), at(2, 2)]),
    ];
    assert_eq!(
        visible_segments(&down_before),
        Some(vec![
            Segment { start: at(0, 0), end: at(1, 1), color: 1 },
            Segment { start: at(1, 1), end: at(2, 2), color: 1 },
        ])
    );
}

#[test]
fn pen_zero_shows_nothing() {
    let cmds = vec![
        Command::PenDown(vec![at(1, 1), at(2, 2)]),
        Command::SelectPen(3),
        Command::PlotAbsolute(vec![at(3, 3)]),
        Command::SelectPen(0),
        Command::PlotAbsolute(vec![at(4, 4)]),
        Command::Initialize,
    ];
    assert_eq!(
        visible_segments(&cmds),
        Some(vec![Segment { start: at(2, 2), end: at(3, 3), color: 3 }])
    );
    assert_eq!(visible_segments(&vec![]), Some(vec![]));
}

#[test]
fn a_relative_move_out_of_range_shows_nothing_at_all() {
    let cmds = vec![
        Command::SelectPen(1),
        Command::PenDown(vec![at(i32::MAX, 0)]),
        Command::PlotRelative(vec![at(-1, 0), at(2, 0)]),
    ];
    assert_eq!(visible_segments(&cmds), None);
    let cmds = vec![Command::PlotRelative(vec![at(0, i32::MIN), at(0, -1)]), Command::PenUp(vec![])];
    assert_eq!(visible_segments(&cmds), None);
    let cmds = vec![
        Command::PenUp(vec![at(i32::MAX, i32::MIN)]),
        Command::PlotRelative(vec![at(0, 0), at(-1, 1)]),
    ];
    assert_eq!(visible_segments(&cmds), Some(vec![]));
}

#[test]
fn models_and_orientations_have_names() {
    assert_eq!(Model::parse("7440"), Ok(Model::Hp7440));
    assert_eq!(Model::parse("7475a3"), Ok(Model::Hp7475A3));
    assert_eq!(Model::parse("7475a4"), Ok(Model::Hp7475A4));
    assert_eq!(Model::parse("7475A4"), Err("Could not parse model".to_string()));
    assert_eq!(Model::parse(""), Err("Could not parse model".to_string()));
    assert_eq!("7475a3".parse::<Model>(), Ok(Model::Hp7475A3));
    assert_eq!("744".parse::<Model>(), Err("Could not parse model".to_string()));
    assert_eq!(Orientation::parse("portrait"), Ok(Orientation::Portrait));
    assert_eq!(Orientation::parse("landscape"), Ok(Orientation::Landscape));
    assert_eq!(Orientation::parse("upside down"), Err("Could not parse orientation".to_string()));
    assert_eq!("landscape".parse::<Orientation>(), Ok(Orientation::Landscape));
    assert_eq!("".parse::<Orientation>(), Err("Could not parse orientation".to_string()));
}

#[test]
fn each_model_has_its_page() {
    assert_eq!(Model::Hp7440.page_size(), (7650, 10300));
    assert_eq!(Model::Hp7475A3.page_size(), (10365, 16640));
    assert_eq!(Model::Hp7475A4.page_size(), (7962, 10365));
}

#[test]
fn lines_on_the_screen() {
    assert_eq!(line_ends(at(1, 2), at(3, 4), Orientation::Portrait, 100), (2, 1, 4, 3));
    assert_eq!(line_ends(at(1, 2), at(3, 4), Orientation::Landscape, 100), (1, 98, 3, 96));
    assert_eq!(
        line_ends(at(0, i32::MIN), at(0, i32::MAX), Orientation::Landscape, i32::MAX),
        (0, 4294967295, 0, 0)
    );
}

#[test]
fn pens_up_to_eight_have_a_stroke_color() {
    assert_eq!(stroke_color(0), Some(""));
    assert_eq!(stroke_color(1), Some("black"));
    assert_eq!(stroke_color(2), Some("red"));
    assert_eq!(stroke_color(3), Some("blue"));
    assert_eq!(stroke_color(4), Some("green"));
    assert_eq!(stroke_color(5), Some("yellow"));
    assert_eq!(stroke_color(6), Some("orange"));
    assert_eq!(stroke_color(7), Some("brown"));
    assert_eq!(stroke_color(8), Some("pink"));
    assert_eq!(stroke_color(9), None);
    assert_eq!(stroke_color(255), None);
}

#[test]
fn the_words_before_the_moves_of_each_command() {
    assert_eq!(gcode_words(&Command::PenUp(vec![])), vec!["G90", "M107", "G4 P100"]);
    assert_eq!(gcode_words(&Command::PenDown(vec![at(1, 1)])), vec!["G90", "M106", "G4 P100"]);
    assert_eq!(gcode_words(&Command::PlotAbsolute(vec![])), vec!["G90"]);
    assert_eq!(gcode_words(&Command::PlotRelative(vec![])), vec!["G91"]);
    assert_eq!(gcode_words(&Command::SelectPen(1)), Vec::<&str>::new());
    assert_eq!(gcode_words(&Command::Initialize), Vec::<&str>::new());
}

fn pairs(list: &[(&str, &str)]) -> Vec<(String, String)> {
    list.iter().map(|(k, v)| (k.to_string(), v.to_string())).collect()
}

fn element(name: &str, attributes: &[(&str, &str)], children: Vec<XmlElement>) -> XmlElement {
    XmlElement { name: name.to_string(), attributes: pairs(attributes), children }
}

#[test]
fn the_pen_of_a_way() {
    assert_eq!(way_pen(&pairs(&[("building", "yes"), ("leisure", "park"), ("highway", "x")])), 1);
    assert_eq!(way_pen(&pairs(&[("building", "")])), 1);
    assert_eq!(way_pen(&pairs(&[("leisure", "park"), ("highway", "x")])), 2);
    assert_eq!(way_pen(&pairs(&[("leisure", "playground")])), 2);
    assert_eq!(way_pen(&pairs(&[("leisure", "pitch"), ("highway", "x")])), 3);
    assert_eq!(way_pen(&pairs(&[("highway", "residential")])), 3);
    assert_eq!(way_pen(&pairs(&[("leisure", "Park")])), 0);
    assert_eq!(way_pen(&pairs(&[("name", "building")])), 0);
    assert_eq!(way_pen(&pairs(&[])), 0);
}

#[test]
fn the_last_value_of_a_tag_counts() {
    let tags = pairs(&[("leisure", "park"), ("name", "a"), ("leisure", "pitch"), ("name", "b")]);
    assert_eq!(tag(&tags, "leisure"), Some("pitch"));
    assert_eq!(tag(&tags, "name"), Some("b"));
    assert_eq!(tag(&tags, "highway"), None);
    assert_eq!(way_pen(&tags), 0);
    let tags = pairs(&[("leisure", "pitch"), ("leisure", "park")]);
    assert_eq!(way_pen(&tags), 2);
}

#[test]
fn attributes_are_found_by_name() {
    let e = element("node", &[("id", "17"), ("lat", "1.5"), ("id", "18")], vec![]);
    assert_eq!(attr(&e, "id"), Some("17"));
    assert_eq!(attr(&e, "lat"), Some("1.5"));
    assert_eq!(attr(&e, "lon"), None);
    assert_eq!(attr(&e, ""), None);
}

#[test]
fn the_id_of_an_element() {
    assert_eq!(get_id(&element("way", &[("id", "17")], vec![])), Some(17));
    assert_eq!(get_id(&element("way", &[("id", "+17")], vec![])), Some(17));
    assert_eq!(get_id(&element("way", &[("id", "18446744073709551615")], vec![])), Some(u64::MAX));
    assert_eq!(get_id(&element("way", &[("id", "18446744073709551616")], vec![])), None);
    assert_eq!(get_id(&element("way", &[("id", "-1")], vec![])), None);
    assert_eq!(get_id(&element("way", &[("id", " 1")], vec![])), None);
    assert_eq!(get_id(&element("way", &[("id", "")], vec![])), None);
    assert_eq!(get_id(&element("way", &[("ref", "1")], vec![])), None);
}

#[test]
fn the_tags_of_an_element() {
    let e = element(
        "way",
        &[("id", "1")],
        vec![
            element("tag", &[("k", "building"), ("v", "yes")], vec![]),
            element("nd", &[("ref", "5")], vec![]),
            element("tag", &[("k", "only a key")], vec![]),
            element("tag", &[("v", "only a value")], vec![]),
            element("note", &[("k", "a"), ("v", "b")], vec![]),
            element("tag", &[("v", "x"), ("k", "name")], vec![]),
        ],
    );
    assert_eq!(get_tags(&e), pairs(&[("building", "yes"), ("name", "x")]));
    assert_eq!(get_tags(&element("way", &[], vec![])), pairs(&[]));
}

#[test]
fn a_way_is_its_nodes_and_its_tags() {
    let e = element(
        "way",
        &[("id", "1")],
        vec![
            element("nd", &[("ref", "5")], vec![]),
            element("tag", &[("k", "highway"), ("v", "path")], vec![]),
            element("nd", &[("ref", "7")], vec![]),
            element("member", &[("ref", "9")], vec![]),
            element("nd", &[("ref", "5")], vec![]),
        ],
    );
    assert_eq!(
        parse_way(&e),
        Some(Way { nodes: vec![5, 7, 5], tags: pairs(&[("highway", "path")]) })
    );
    assert_eq!(
        parse_relation(&e),
        Some(Relation { members: vec![9], tags: pairs(&[("highway", "path")]) })
    );
    assert_eq!(
        parse_way(&element("way", &[], vec![])),
        Some(Way { nodes: vec![], tags: pairs(&[]) })
    );
}

#[test]
fn a_way_with_a_broken_reference_is_no_way() {
    let missing = element(
        "way",
        &[],
        vec![element("nd", &[("ref", "5")], vec![]), element("nd", &[], vec![])],
    );
    assert_eq!(parse_way(&missing), None);
    assert_eq!(parse_relation(&missing), Some(Relation { members: vec![], tags: pairs(&[]) }));
    let malformed = element(
        "relation",
        &[],
        vec![
            element("member", &[("ref", "x")], vec![]),
            element("member", &[("ref", "5")], vec![]),
        ],
    );
    assert_eq!(parse_relation(&malformed), None);
    assert_eq!(parse_way(&malformed), Some(Way { nodes: vec![], tags: pairs(&[]) }));
}

#[test]
fn a_node_is_drawn_if_it_or_a_neighbor_is_in_bounds() {
    let inside = vec![
        Some(false),
        Some(false),
        Some(true),
        Some(false),
        Some(false),
        None,
        Some(false),
        Some(true),
    ];
    assert_eq!(
        drawn_nodes(&inside),
        vec![false, true, true, true, false, false, true, true]
    );
    assert_eq!(drawn_nodes(&vec![None, Some(true), None]), vec![false, true, false]);
    assert_eq!(drawn_nodes(&vec![Some(false)]), vec![false]);
    assert_eq!(drawn_nodes(&vec![]), Vec::<bool>::new());
}

#[test]
fn points_on_and_off_the_page() {
    assert!(is_on_page(&dot(0, 0)));
    assert!(is_on_page(&dot(10300, 7650)));
    assert!(!is_on_page(&dot(10301, 0)));
    assert!(!is_on_page(&dot(0, 7651)));
    assert!(!is_on_page(&dot(-1, 0)));
    assert!(!is_on_page(&dot(0, -1)));
}

#[test]
fn repeats_are_removed_where_they_follow_each_other() {
    let points = vec![dot(1, 1), dot(1, 1), dot(2, 2), dot(1, 1), dot(1, 1), dot(1, 1), dot(1, 2)];
    assert_eq!(remove_repeats(&points), vec![dot(1, 1), dot(2, 2), dot(1, 1), dot(1, 2)]);
    assert_eq!(remove_repeats(&vec![]), vec![]);
}

#[test]
fn points_are_put_on_a_grid() {
    let points =
        vec![dot(0, 1), dot(9, 10), dot(11, 20), dot(-1, -9), dot(-10, -11), dot(-20, -21)];
    assert_eq!(
        rescale_points(&points, 10),
        Some(vec![dot(0, 10), dot(10, 10), dot(20, 20), dot(0, 0), dot(-10, -10)])
    );
    assert_eq!(rescale_points(&vec![dot(5, -5), dot(7, 3)], 1), Some(vec![dot(5, -5), dot(7, 3)]));
    assert_eq!(rescale_points(&vec![dot(1, 2), dot(3, 4)], 4), Some(vec![dot(4, 4)]));
    assert_eq!(rescale_points(&vec![dot(7, -7)], -2), Some(vec![dot(4, -10)]));
}

#[test]
fn a_grid_needs_a_step_and_room() {
    assert_eq!(rescale_points(&vec![dot(1, 1)], 0), None);
    assert_eq!(rescale_points(&vec![dot(i64::MAX, 0)], 2), None);
    assert_eq!(rescale_points(&vec![dot(0, i64::MIN)], 0 - 1), None);
    assert_eq!(rescale_points(&vec![], 0), Some(vec![]));
    assert_eq!(rescale_points(&vec![], 5), Some(vec![]));
    assert_eq!(rescale_points(&vec![dot(i64::MAX, i64::MIN)], 1), Some(vec![dot(i64::MAX, i64::MIN)]));
}

#[test]
fn texts_are_compared_character_by_character() {
    assert!(same_text("", ""));
    assert!(same_text("park", "park"));
    assert!(!same_text("park", "parks"));
    assert!(!same_text("park", "Park"));
    assert!(same_text("\u{e9}t\u{e9}", "\u{e9}t\u{e9}"));
}
