use hpgl::text::{
    collect_string, is_whitespace, push_decimal, read_i32, read_u64, read_u8, split_range,
    to_chars, trim_range,
};
use hpgl::{canonical_commands_to_string, parse_command, CanonicalCommand, Command, Point};

fn samples() -> Vec<&'static str> {
    vec![
        "",
        " ",
        "a",
        " a",
        "a ",
        "  a b  ",
        "\t\n x;y,z \r\n",
        "\u{a0}\u{2003}x\u{3000}\u{85}",
        "\u{200b}x\u{200b}",
        ";",
        ";;",
        "a;b",
        ";a;;b;",
        ",",
        "1,2,3",
        ",1,,2,",
        "\u{e9};\u{e9},\u{e9}",
    ]
}

fn numbers() -> Vec<&'static str> {
    vec![
        "",
        "0",
        "-0",
        "+0",
        "7",
        "+7",
        "-7",
        "007",
        "-007",
        "+-7",
        "-+7",
        "++7",
        "--7",
        "+",
        "-",
        " 7",
        "7 ",
        "7a",
        "a7",
        "1.5",
        "1e3",
        "0x10",
        "255",
        "256",
        "-1",
        "2147483647",
        "2147483648",
        "+2147483647",
        "-2147483648",
        "-2147483649",
        "4294967296",
        "18446744073709551615",
        "18446744073709551616",
        "+18446744073709551615",
        "-18446744073709551615",
        "99999999999999999999999999999999999999999",
        "00000000000000000000000000000000000000001",
        "\u{661}",
        "1\u{661}",
        "\u{ff11}",
    ]
}

#[test]
fn white_space_is_what_the_standard_library_says() {
    let mut code: u32 = 0;
    while code <= 0x10ffff {
        if let Some(c) = char::from_u32(code) {
            assert_eq!(is_whitespace(c), c.is_whitespace(), "U+{:04X}", code);
        }
        code += 1;
    }
}

#[test]
fn trimming_is_what_the_standard_library_does() {
    for text in samples() {
        let v = to_chars(text);
        let (a, b) = trim_range(&v, 0, v.len());
        assert_eq!(collect_string(&v, a, b), text.trim(), "{:?}", text);
    }
}

#[test]
fn trimming_a_part_leaves_the_rest_alone() {
    let v = to_chars("ab  cd  ef");
    assert_eq!(trim_range(&v, 2, 8), (4, 6));
    assert_eq!(trim_range(&v, 2, 4), (4, 4));
    assert_eq!(trim_range(&v, 0, 10), (0, 10));
    assert_eq!(trim_range(&v, 3, 3), (3, 3));
}

#[test]
fn splitting_is_what_the_standard_library_does() {
    for text in samples() {
        for sep in [';', ','] {
            let v = to_chars(text);
            let pieces: Vec<String> = split_range(&v, 0, v.len(), sep)
                .iter()
                .map(|(a, b)| collect_string(&v, *a, *b))
                .collect();
            let expected: Vec<String> = text.split(sep).map(|p| p.to_string()).collect();
            assert_eq!(pieces, expected, "{:?}", text);
        }
    }
}

#[test]
fn splitting_gives_one_piece_more_than_separators() {
    let v = to_chars("a;;b;");
    assert_eq!(split_range(&v, 0, 5, ';'), vec![(0, 1), (2, 2), (3, 4), (5, 5)]);
    assert_eq!(split_range(&v, 1, 3, ';'), vec![(1, 1), (2, 2), (3, 3)]);
    assert_eq!(split_range(&v, 0, 0, ';'), vec![(0, 0)]);
}

#[test]
fn characters_and_strings_convert_both_ways() {
    for text in samples() {
        let v = to_chars(text);
        let expected: Vec<char> = text.chars().collect();
        assert_eq!(v, expected);
        assert_eq!(collect_string(&v, 0, v.len()), text);
    }
    let v = to_chars("h\u{e9}llo");
    assert_eq!(collect_string(&v, 1, 3), "\u{e9}l");
    assert_eq!(collect_string(&v, 2, 2), "");
}

#[test]
fn numbers_read_as_the_standard_library_reads_them() {
    for text in numbers() {
        let v = to_chars(text);
        assert_eq!(read_i32(&v, 0, v.len()), text.parse::<i32>().ok(), "{:?}", text);
        assert_eq!(read_u8(&v, 0, v.len()), text.parse::<u8>().ok(), "{:?}", text);
        assert_eq!(read_u64(text), text.parse::<u64>().ok(), "{:?}", text);
    }
}

#[test]
fn numbers_are_read_in_place() {
    let v = to_chars("ab-12cd");
    assert_eq!(read_i32(&v, 2, 5), Some(-12));
    assert_eq!(read_i32(&v, 3, 5), Some(12));
    assert_eq!(read_i32(&v, 2, 3), None);
    assert_eq!(read_i32(&v, 2, 6), None);
    assert_eq!(read_u8(&v, 3, 4), Some(1));
    assert_eq!(read_u8(&v, 2, 5), None);
}

#[test]
fn numbers_are_written_as_the_standard_library_writes_them() {
    let values = [
        0,
        1,
        -1,
        9,
        10,
        -10,
        99,
        100,
        12345,
        -12345,
        1000000000,
        1999999999,
        i32::MAX,
        i32::MIN,
        i32::MIN + 1,
    ];
    for v in values {
        let mut out = String::from("x=");
        push_decimal(&mut out, v);
        assert_eq!(out, format!("x={}", v));
    }
}

#[test]
fn every_written_number_reads_back() {
    let mut v: i64 = i32::MIN as i64;
    while v <= i32::MAX as i64 {
        let x = v as i32;
        let text = canonical_commands_to_string(vec![CanonicalCommand::PlotAbsolute(Point {
            x,
            y: -1 - x,
        })]);
        assert_eq!(text, format!("PA{},{};\n", x, -1 - x));
        assert_eq!(
            parse_command(text[..text.len() - 2].to_string()),
            Ok(Command::PlotAbsolute(vec![Point { x, y: -1 - x }]))
        );
        v += 7919 * 331;
    }
}

#[test]
fn every_pen_number_is_written_and_read_back() {
    for pen in 0..=255u8 {
        let text = canonical_commands_to_string(vec![CanonicalCommand::SelectPen(pen)]);
        assert_eq!(text, format!("SP{};\n", pen));
        assert_eq!(parse_command(format!("SP{}", pen)), Ok(Command::SelectPen(pen)));
    }
}
