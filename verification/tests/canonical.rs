use hpgl::{
    canonical_commands_to_string, canonicalize, parse_commands, uses_absolute_coordinates,
    CanonicalCommand, Command, Point,
};

fn at(x: i32, y: i32) -> Point {
    Point { x, y }
}

#[test]
fn test_canonicalize() {
    let document =
        "SP1;PA1000,1000;PD;PA1000,2000,2000,2000,2000,1000,1000,1000;PU;PA0,0;PD;PA5000,5000;PU;";
    let cmds = canonicalize(parse_commands(document.to_string()).unwrap());
    assert_eq!(
        cmds,
        vec![
            CanonicalCommand::SelectPen(1),
            CanonicalCommand::PlotAbsolute(Point { x: 1000, y: 1000 }),
            CanonicalCommand::PenDown,
            CanonicalCommand::PlotAbsolute(Point { x: 1000, y: 2000 }),
            CanonicalCommand::PlotAbsolute(Point { x: 2000, y: 2000 }),
            CanonicalCommand::PlotAbsolute(Point { x: 2000, y: 1000 }),
            CanonicalCommand::PlotAbsolute(Point { x: 1000, y: 1000 }),
            CanonicalCommand::PenUp,
            CanonicalCommand::PlotAbsolute(Point { x: 0, y: 0 }),
            CanonicalCommand::PenDown,
            CanonicalCommand::PlotAbsolute(Point { x: 5000, y: 5000 }),
            CanonicalCommand::PenUp,
        ]
    );
}

#[test]
fn pen_up_keeps_its_last_point_only() {
    let cmds = vec![Command::PenUp(vec![at(1, 1), at(2, 2), at(3, 3)])];
    assert_eq!(
        canonicalize(cmds),
        vec![CanonicalCommand::PenUp, CanonicalCommand::PlotAbsolute(at(3, 3))]
    );
    assert_eq!(canonicalize(vec![Command::PenUp(vec![])]), vec![CanonicalCommand::PenUp]);
}

#[test]
fn pen_down_keeps_every_point() {
    let cmds = vec![Command::PenDown(vec![at(1, 1), at(2, 2), at(3, 3)])];
    assert_eq!(
        canonicalize(cmds),
        vec![
            CanonicalCommand::PenDown,
            CanonicalCommand::PlotAbsolute(at(1, 1)),
            CanonicalCommand::PlotAbsolute(at(2, 2)),
            CanonicalCommand::PlotAbsolute(at(3, 3)),
        ]
    );
}

#[test]
fn plot_has_no_pen_command() {
    let cmds = vec![Command::PlotAbsolute(vec![at(4, 5), at(6, 7)])];
    assert_eq!(
        canonicalize(cmds),
        vec![CanonicalCommand::PlotAbsolute(at(4, 5)), CanonicalCommand::PlotAbsolute(at(6, 7))]
    );
}

#[test]
fn select_and_initialize_pass_through() {
    let cmds = vec![Command::Initialize, Command::SelectPen(9), Command::SelectPen(0)];
    assert_eq!(
        canonicalize(cmds),
        vec![
            CanonicalCommand::Initialize,
            CanonicalCommand::SelectPen(9),
            CanonicalCommand::SelectPen(0),
        ]
    );
}

#[test]
fn canonical_form_of_nothing_is_nothing() {
    assert_eq!(canonicalize(vec![]), vec![]);
}

#[test]
fn canonical_form_is_no_shorter_without_empty_plots() {
    let cmds = vec![
        Command::Initialize,
        Command::SelectPen(1),
        Command::PenUp(vec![at(0, 0), at(1, 1)]),
        Command::PenDown(vec![]),
        Command::PlotAbsolute(vec![at(2, 2)]),
        Command::PenUp(vec![]),
    ];
    let n = cmds.len();
    let out = canonicalize(cmds);
    assert_eq!(out.len(), 7);
    assert!(out.len() >= n);
}

#[test]
fn a_plot_without_points_stands_for_nothing() {
    let cmds = vec![Command::PlotAbsolute(vec![]), Command::PenUp(vec![])];
    assert_eq!(canonicalize(cmds), vec![CanonicalCommand::PenUp]);
    assert_eq!(canonicalize(parse_commands("PA;".to_string()).unwrap()), vec![]);
}

#[test]
fn the_length_of_canonical_form() {
    // Six commands, one of them a plot without a point, and a surplus of 1 + 2 + 1.
    let cmds = vec![
        Command::PenUp(vec![at(1, 1), at(2, 2)]),
        Command::PlotAbsolute(vec![]),
        Command::PenDown(vec![at(3, 3), at(4, 4)]),
        Command::PlotAbsolute(vec![at(5, 5), at(6, 6)]),
        Command::SelectPen(1),
        Command::PenDown(vec![]),
    ];
    assert_eq!(canonicalize(cmds).len(), 6 - 1 + 4);
}

#[test]
fn relative_coordinates_are_detected() {
    assert!(uses_absolute_coordinates(&vec![]));
    assert!(uses_absolute_coordinates(&vec![
        Command::PenUp(vec![at(1, 2)]),
        Command::PlotAbsolute(vec![])
    ]));
    assert!(!uses_absolute_coordinates(&vec![
        Command::PenUp(vec![]),
        Command::PlotRelative(vec![]),
        Command::PenDown(vec![])
    ]));
    assert!(!uses_absolute_coordinates(&vec![Command::PlotRelative(vec![at(1, 1)])]));
}

#[test]
fn each_canonical_command_has_its_line() {
    let cmds = vec![
        CanonicalCommand::PenUp,
        CanonicalCommand::PenDown,
        CanonicalCommand::PlotAbsolute(at(-5, 10)),
        CanonicalCommand::SelectPen(255),
        CanonicalCommand::Initialize,
    ];
    assert_eq!(canonical_commands_to_string(cmds), "PU;\nPD;\nPA-5,10;\nSP255;\nIN;\n");
}

#[test]
fn no_commands_make_no_text() {
    assert_eq!(canonical_commands_to_string(vec![]), "");
}

#[test]
fn numbers_are_written_in_full() {
    let cmds = vec![
        CanonicalCommand::PlotAbsolute(at(i32::MAX, i32::MIN)),
        CanonicalCommand::PlotAbsolute(at(0, -1)),
        CanonicalCommand::PlotAbsolute(at(10, 100)),
        CanonicalCommand::PlotAbsolute(at(1000000009, -90)),
        CanonicalCommand::SelectPen(0),
        CanonicalCommand::SelectPen(10),
    ];
    assert_eq!(
        canonical_commands_to_string(cmds),
        "PA2147483647,-2147483648;\nPA0,-1;\nPA10,100;\nPA1000000009,-90;\nSP0;\nSP10;\n"
    );
}

#[test]
fn canonical_text_survives_the_round_trip() {
    let text = "IN;\nSP1;\nPU;\nPA0,0;\nPD;\nPA-17,2147483647;\nPA-2147483648,5;\nPU;\nSP0;\n";
    let cmds = parse_commands(text.to_string()).unwrap();
    assert!(uses_absolute_coordinates(&cmds));
    assert_eq!(canonical_commands_to_string(canonicalize(cmds)), text);
}

#[test]
fn written_commands_parse_to_themselves() {
    let cmds = vec![
        CanonicalCommand::SelectPen(200),
        CanonicalCommand::PenUp,
        CanonicalCommand::PlotAbsolute(at(-1, 1)),
        CanonicalCommand::PenDown,
        CanonicalCommand::PlotAbsolute(at(123456, -654321)),
        CanonicalCommand::Initialize,
    ];
    let text = canonical_commands_to_string(cmds.clone());
    assert_eq!(canonicalize(parse_commands(text).unwrap()), cmds);
}
