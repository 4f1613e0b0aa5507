use iboardbot::gcode::{parse_gcode, white_space, GcodeCommand};

fn mv(x: Option<&str>, y: Option<&str>) -> GcodeCommand {
    GcodeCommand::Move { x: x.map(|s| s.to_string()), y: y.map(|s| s.to_string()) }
}

fn same(a: &[GcodeCommand], b: &[GcodeCommand]) -> bool {
    a.len() == b.len()
        && a.iter().zip(b.iter()).all(|(p, q)| match (p, q) {
            (GcodeCommand::Move { x: x1, y: y1 }, GcodeCommand::Move { x: x2, y: y2 }) => x1 == x2 && y1 == y2,
            (GcodeCommand::PenUp, GcodeCommand::PenUp) => true,
            (GcodeCommand::PenDown, GcodeCommand::PenDown) => true,
            _ => false,
        })
}

#[test]
fn parses_moves_and_pen_commands() {
    let text = "; svg2gcode\nG21\nG0 X10.5 Y-3\nM5\nG1 X1 Y2 F300\nM4\n";
    let cmds = parse_gcode(text);
    assert!(same(&cmds, &[
        mv(Some("10.5"), Some("-3")),
        GcodeCommand::PenDown,
        mv(Some("1"), Some("2")),
        GcodeCommand::PenUp,
    ]));
}

#[test]
fn comment_lines_are_skipped() {
    assert!(parse_gcode("; G0 X1 Y1\n;M4").is_empty());
}

#[test]
fn last_coordinate_word_wins() {
    let cmds = parse_gcode("G1 X1 X2 Y3\r\n");
    assert!(same(&cmds, &[mv(Some("2"), Some("3"))]));
}

#[test]
fn move_without_coordinates() {
    let cmds = parse_gcode("G0\n");
    assert!(same(&cmds, &[mv(None, None)]));
}

#[test]
fn first_word_must_be_the_move() {
    assert!(parse_gcode("X1 G0 Y2\n").is_empty());
}

#[test]
fn pen_words_anywhere_in_the_line() {
    let cmds = parse_gcode("G1 X5 M4 M5");
    assert!(same(&cmds, &[mv(Some("5"), None), GcodeCommand::PenUp, GcodeCommand::PenDown]));
}

#[test]
fn words_split_on_any_white_space() {
    let cmds = parse_gcode("\tG0\u{3000}X7\u{A0}Y8 \n");
    assert!(same(&cmds, &[mv(Some("7"), Some("8"))]));
}

#[test]
fn empty_text_has_no_commands() {
    assert!(parse_gcode("").is_empty());
    assert!(parse_gcode("\n\n").is_empty());
}

#[test]
fn white_space_matches_std() {
    for c in ['\t', '\n', '\u{0B}', '\u{0C}', '\r', ' ', '\u{85}', '\u{A0}', '\u{1680}', '\u{2000}', '\u{2005}',
        '\u{200A}', '\u{2028}', '\u{2029}', '\u{202F}', '\u{205F}', '\u{3000}', 'a', 'X', '\u{200B}', '\u{1F600}']
    {
        assert_eq!(white_space(c), c.is_whitespace(), "{:?}", c);
    }
    for u in 0u32..0x3100 {
        if let Some(c) = char::from_u32(u) {
            assert_eq!(white_space(c), c.is_whitespace(), "{:?}", c);
        }
    }
}

#[test]
fn lines_are_read_alone() {
    let line = "G0 X4 Y5 M5";
    let rest = "G1 X7\nM4\n";
    let mut expected = parse_gcode(line);
    expected.extend(parse_gcode(rest));
    let joined = format!("{}\n{}", line, rest);
    assert!(same(&parse_gcode(&joined), &expected));
    assert!(same(&expected, &[mv(Some("4"), Some("5")), GcodeCommand::PenDown, mv(Some("7"), None), GcodeCommand::PenUp]));
}
