use hpgl::{parse_command, parse_commands, Command, Point};

fn check_parse_command(cmd: &str, expected: Option<Command>) {
    let parsed = parse_command(cmd.to_string());
    match expected {
        Some(cmd) => assert_eq!(parsed, Ok(cmd)),
        None => assert_eq!(parsed, Err(cmd.to_string())),
    }
}

fn pt(x: i32, y: i32) -> Point {
    Point { x, y }
}

#[test]
fn test_parse_multiple_commands() {
    assert_eq!(
        parse_commands("  PU  ; PD  ; ".to_string()),
        Ok(vec![Command::PenUp(vec![]), Command::PenDown(vec![])])
    );
    assert_eq!(parse_commands("".to_string()), Ok(vec![]));
    assert_eq!(parse_commands("\n".to_string()), Ok(vec![]));
    assert_eq!(parse_commands("  ".to_string()), Ok(vec![]));
    assert_eq!(
        parse_commands("  PU  ; command_not_valid ; PD  ; ".to_string()),
        Err(vec!["command_not_valid".to_string()])
    );
}

#[test]
fn test_parser() {
    check_parse_command("", None);
    check_parse_command("a", None);
    check_parse_command("command_not_valid", None);
    check_parse_command("PU ", None);
    check_parse_command(" PU", None);
    check_parse_command("PA foo, bar", None);
    check_parse_command("PU", Some(Command::PenUp(vec![])));
}

#[test]
fn empty_documents_hold_no_command() {
    assert_eq!(parse_commands("".to_string()), Ok(vec![]));
    assert_eq!(parse_commands(";".to_string()), Ok(vec![]));
    assert_eq!(parse_commands("  ".to_string()), Ok(vec![]));
    assert_eq!(parse_commands(" ; ;\n;\t".to_string()), Ok(vec![]));
}

#[test]
fn bare_pen_commands() {
    assert_eq!(
        parse_commands("PU;PD;".to_string()),
        Ok(vec![Command::PenUp(vec![]), Command::PenDown(vec![])])
    );
}

#[test]
fn each_command_kind() {
    check_parse_command("PU1,2", Some(Command::PenUp(vec![pt(1, 2)])));
    check_parse_command("PD1,2,3,4", Some(Command::PenDown(vec![pt(1, 2), pt(3, 4)])));
    check_parse_command("PA10,20", Some(Command::PlotAbsolute(vec![pt(10, 20)])));
    check_parse_command("PR-1,-2", Some(Command::PlotRelative(vec![pt(-1, -2)])));
    check_parse_command("SP3", Some(Command::SelectPen(3)));
    check_parse_command("IN", Some(Command::Initialize));
    check_parse_command("PD", Some(Command::PenDown(vec![])));
    check_parse_command("PA", Some(Command::PlotAbsolute(vec![])));
    check_parse_command("PR", Some(Command::PlotRelative(vec![])));
}

#[test]
fn coordinates_are_trimmed_and_signed() {
    check_parse_command("PA 1 , 2 ", Some(Command::PlotAbsolute(vec![pt(1, 2)])));
    check_parse_command("PA-5,+7", Some(Command::PlotAbsolute(vec![pt(-5, 7)])));
    check_parse_command("PA007,-0", Some(Command::PlotAbsolute(vec![pt(7, 0)])));
    check_parse_command("PA\t8,\n9", Some(Command::PlotAbsolute(vec![pt(8, 9)])));
}

#[test]
fn coordinates_at_the_limits() {
    check_parse_command(
        "PA2147483647,-2147483648",
        Some(Command::PlotAbsolute(vec![pt(i32::MAX, i32::MIN)])),
    );
    check_parse_command("PA2147483648,0", None);
    check_parse_command("PA0,-2147483649", None);
    check_parse_command("PA99999999999999999999999999,0", None);
    check_parse_command(
        "PA00000000000000000000000000001,0",
        Some(Command::PlotAbsolute(vec![pt(1, 0)])),
    );
}

#[test]
fn malformed_coordinates_are_rejected() {
    check_parse_command("PA1", None);
    check_parse_command("PA1,2,3", None);
    check_parse_command("PA1,,2", None);
    check_parse_command("PA,", None);
    check_parse_command("PA1,", None);
    check_parse_command("PA+,1", None);
    check_parse_command("PA-,1", None);
    check_parse_command("PA1 2,3", None);
    check_parse_command("PA--1,3", None);
    check_parse_command("PA1.5,3", None);
    check_parse_command("PAx,y", None);
}

#[test]
fn pen_numbers() {
    check_parse_command("SP0", Some(Command::SelectPen(0)));
    check_parse_command("SP255", Some(Command::SelectPen(255)));
    check_parse_command("SP 7 ", Some(Command::SelectPen(7)));
    check_parse_command("SP+7", Some(Command::SelectPen(7)));
    check_parse_command("SP007", Some(Command::SelectPen(7)));
    check_parse_command("SP256", None);
    check_parse_command("SP-1", None);
    check_parse_command("SP-0", None);
    check_parse_command("SP", None);
    check_parse_command("SPx", None);
    check_parse_command("SP1,2", None);
}

#[test]
fn initialize_reads_its_operands_and_drops_them() {
    check_parse_command("IN1,2", Some(Command::Initialize));
    check_parse_command("IN1", None);
    check_parse_command("INx,y", None);
}

#[test]
fn unknown_names_are_rejected() {
    check_parse_command("XX", None);
    check_parse_command("XX1,2", None);
    check_parse_command("pu", None);
    check_parse_command("P", None);
    check_parse_command("PX", None);
}

#[test]
fn text_outside_ascii_is_rejected_not_fatal() {
    check_parse_command("\u{e9}", None);
    check_parse_command("a\u{e9}", None);
    check_parse_command("PU\u{e9}", None);
    check_parse_command("SP\u{e9}", None);
    check_parse_command("PA1,\u{663}", None);
}

#[test]
fn unicode_white_space_is_trimmed() {
    assert_eq!(
        parse_commands("\u{a0}PU\u{2003};\u{3000}PD\u{85}".to_string()),
        Ok(vec![Command::PenUp(vec![]), Command::PenDown(vec![])])
    );
    check_parse_command("PA\u{2009}1\u{2009},\u{a0}2", Some(Command::PlotAbsolute(vec![pt(1, 2)])));
}

#[test]
fn every_rejected_fragment_is_reported_in_order() {
    assert_eq!(
        parse_commands("PU; bad one ;PA1,2; ; PA3 ;SP300;IN".to_string()),
        Err(vec!["bad one".to_string(), "PA3".to_string(), "SP300".to_string()])
    );
}

#[test]
fn a_document_without_a_final_semicolon() {
    assert_eq!(
        parse_commands("SP1;PA1,2".to_string()),
        Ok(vec![Command::SelectPen(1), Command::PlotAbsolute(vec![pt(1, 2)])])
    );
}

#[test]
fn a_fragment_comes_back_as_it_was_given() {
    assert_eq!(parse_command("  PU".to_string()), Err("  PU".to_string()));
    assert_eq!(parse_command("PA 1".to_string()), Err("PA 1".to_string()));
}
