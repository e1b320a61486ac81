//! Parser behaviour: one minimally valid line per keyword, diagnostics
//! for malformed lines, comment handling and the trailing options region.

use yaml_cv::command::{BoxCommand, Command};
use yaml_cv::error::Error;
use yaml_cv::geom::{Point, Size};
use yaml_cv::num::parse_mm;
use yaml_cv::options::{parse_option, FontOptions, LineOptions, LineStyle};
use yaml_cv::parse::{parse_box, read};

fn no_font() -> FontOptions {
    FontOptions { font_size: None, font_face: None }
}

fn no_line() -> LineOptions {
    LineOptions { line_width: None, line_style: None }
}

#[test]
fn string_minimal_line_parses() {
    let cmds = read("string,10,20,hello").unwrap();
    assert_eq!(cmds.len(), 1);
    match &cmds[0] {
        Command::Text(t) => {
            assert_eq!(t.position, Point { x: 10_000, y: 20_000 });
            assert_eq!(t.value, "hello");
            assert_eq!(t.font_options, no_font());
        }
        other => panic!("wrong variant: {:?}", other),
    }
}

#[test]
fn line_minimal_line_parses() {
    let cmds = read("line,0,0,10,10").unwrap();
    match &cmds[0] {
        Command::Line(l) => {
            assert_eq!(l.start_position, Point { x: 0, y: 0 });
            assert_eq!(l.end_position, Point { x: 10_000, y: 10_000 });
            assert_eq!(l.line_options, no_line());
        }
        other => panic!("wrong variant: {:?}", other),
    }
}

#[test]
fn box_minimal_line_parses() {
    let cmds = read("box,1,2,3,4").unwrap();
    match &cmds[0] {
        Command::BoxCommand(b) => {
            assert_eq!(b.position, Point { x: 1_000, y: 2_000 });
            assert_eq!(b.size, Size { width: 3_000, height: 4_000 });
            assert_eq!(b.line_options, no_line());
        }
        other => panic!("wrong variant: {:?}", other),
    }
}

#[test]
fn photo_minimal_line_parses() {
    let cmds = read("photo,1,2,3,4").unwrap();
    match &cmds[0] {
        Command::Photo(p) => {
            assert_eq!(p.position, Point { x: 1_000, y: 2_000 });
            assert_eq!(p.size, Size { width: 3_000, height: 4_000 });
        }
        other => panic!("wrong variant: {:?}", other),
    }
}

#[test]
fn new_page_line_parses() {
    let cmds = read("new_page").unwrap();
    assert_eq!(cmds[0], Command::NewPage);
}

#[test]
fn textbox_minimal_line_parses() {
    let cmds = read("textbox,1,2,3,4,txt").unwrap();
    match &cmds[0] {
        Command::TextBox(t) => {
            assert_eq!(t.position, Point { x: 1_000, y: 2_000 });
            assert_eq!(t.size, Size { width: 3_000, height: 4_000 });
            assert_eq!(t.value, "txt");
            assert_eq!(t.font_options, no_font());
        }
        other => panic!("wrong variant: {:?}", other),
    }
}

#[test]
fn multi_lines_minimal_line_parses() {
    let cmds = read("multi_lines,0,0,10,0,3,0,5").unwrap();
    match &cmds[0] {
        Command::MultiLines(m) => {
            assert_eq!(m.start_position, Point { x: 0, y: 0 });
            assert_eq!(m.direction, Point { x: 10_000, y: 0 });
            assert_eq!(m.stroke_number, 3);
            assert_eq!(m.position_offset, Point { x: 0, y: 5_000 });
        }
        other => panic!("wrong variant: {:?}", other),
    }
}

#[test]
fn ymbox_minimal_line_parses() {
    let cmds = read("ymbox,license,5,3,val").unwrap();
    match &cmds[0] {
        Command::YMBox(b) => {
            assert_eq!(b.title, "license");
            assert_eq!(b.height, 5_000);
            assert_eq!(b.num, 3);
            assert_eq!(b.value, "val");
        }
        other => panic!("wrong variant: {:?}", other),
    }
}

#[test]
fn miscbox_minimal_line_parses() {
    let cmds = read("miscbox,hobby,1,2,val").unwrap();
    match &cmds[0] {
        Command::MiscBox(b) => {
            assert_eq!(b.title, "hobby");
            assert_eq!(b.y, 1_000);
            assert_eq!(b.height, 2_000);
            assert_eq!(b.value, "val");
        }
        other => panic!("wrong variant: {:?}", other),
    }
}

#[test]
fn history_minimal_line_parses() {
    let cmds = read("history,100,10,20,30,5,$education").unwrap();
    match &cmds[0] {
        Command::History(h) => {
            assert_eq!(h.y, 100_000);
            assert_eq!(h.year_x, 10_000);
            assert_eq!(h.month_x, 20_000);
            assert_eq!(h.value_x, 30_000);
            assert_eq!(h.padding, 5_000);
            assert_eq!(h.value, "$education");
            assert_eq!(h.font_options, no_font());
        }
        other => panic!("wrong variant: {:?}", other),
    }
}

#[test]
fn education_experience_minimal_line_parses() {
    let cmds = read("education_experience,100,10,20,30,5,40,50").unwrap();
    match &cmds[0] {
        Command::EducationExperience(c) => {
            assert_eq!(c.y, 100_000);
            assert_eq!(c.year_x, 10_000);
            assert_eq!(c.month_x, 20_000);
            assert_eq!(c.value_x, 30_000);
            assert_eq!(c.padding, 5_000);
            assert_eq!(c.caption_x, 40_000);
            assert_eq!(c.ijo_x, 50_000);
        }
        other => panic!("wrong variant: {:?}", other),
    }
}

#[test]
fn lines_minimal_line_parses() {
    let cmds = read("lines,3,0,0,10,0,0,10").unwrap();
    match &cmds[0] {
        Command::Lines(l) => {
            assert_eq!(l.stroke_number, 3);
            assert_eq!(
                l.positions,
                vec![
                    Point { x: 0, y: 0 },
                    Point { x: 10_000, y: 0 },
                    Point { x: 0, y: 10_000 },
                ]
            );
            assert_eq!(l.line_options, no_line());
            assert_eq!(l.close, None);
        }
        other => panic!("wrong variant: {:?}", other),
    }
}

#[test]
fn missing_field_names_field_command_and_line() {
    let err = read("box,1,2").unwrap_err();
    assert_eq!(
        err,
        Error::MissingValue {
            value_name: "width".to_string(),
            command_name: "box".to_string(),
            line_number: 0,
        }
    );
}

#[test]
fn missing_field_on_later_line_reports_its_number() {
    let err = read("# heading\n\nstring,5").unwrap_err();
    assert_eq!(
        err,
        Error::MissingValue {
            value_name: "y".to_string(),
            command_name: "string".to_string(),
            line_number: 2,
        }
    );
}

#[test]
fn unknown_keyword_is_named() {
    let err = read("bogus,1,2").unwrap_err();
    assert_eq!(
        err,
        Error::UnknownCommand { keyword: "bogus".to_string(), line_number: 0 }
    );
}

#[test]
fn comments_and_blanks_give_empty_sequence() {
    let cmds = read("# only a comment\n\n# another\n").unwrap();
    assert!(cmds.is_empty());
}

#[test]
fn commands_keep_file_order() {
    let cmds = read("box,1,2,3,4\n# note\nnew_page\nstring,1,2,a").unwrap();
    assert_eq!(cmds.len(), 3);
    assert!(matches!(cmds[0], Command::BoxCommand(_)));
    assert_eq!(cmds[1], Command::NewPage);
    assert!(matches!(cmds[2], Command::Text(_)));
}

#[test]
fn font_options_parse_with_last_assignment_winning() {
    let cmds = read("string,1,2,v,font_size=10,font_face=gothic,font_size=14.5").unwrap();
    match &cmds[0] {
        Command::Text(t) => {
            assert_eq!(t.font_options.font_size, Some(14_500));
            assert_eq!(t.font_options.font_face.as_deref(), Some("gothic"));
        }
        other => panic!("wrong variant: {:?}", other),
    }
}

#[test]
fn malformed_font_size_is_an_option_error() {
    let err = read("string,1,2,v,font_size=abc").unwrap_err();
    assert_eq!(
        err,
        Error::BadOption {
            key: "font_size".to_string(),
            text: "abc".to_string(),
            line_number: 0,
        }
    );
}

#[test]
fn unrecognized_option_keys_are_ignored() {
    let cmds = read("box,1,2,3,4,future_key=whatever").unwrap();
    match &cmds[0] {
        Command::BoxCommand(b) => assert_eq!(b.line_options, no_line()),
        other => panic!("wrong variant: {:?}", other),
    }
}

#[test]
fn line_options_parse_width_and_style() {
    let cmds = read("box,1,2,3,4,line_width=2,line_style=dashed").unwrap();
    match &cmds[0] {
        Command::BoxCommand(b) => {
            assert_eq!(b.line_options.line_width, Some(2_000));
            assert_eq!(b.line_options.line_style, Some(LineStyle::Dashed));
        }
        other => panic!("wrong variant: {:?}", other),
    }
}

#[test]
fn unknown_line_style_token_is_an_option_error() {
    let err = read("line,0,0,1,1,line_style=dotted").unwrap_err();
    assert_eq!(
        err,
        Error::BadOption {
            key: "line_style".to_string(),
            text: "dotted".to_string(),
            line_number: 0,
        }
    );
}

#[test]
fn non_numeric_positional_field_is_a_value_error() {
    let err = read("box,abc,2,3,4").unwrap_err();
    assert_eq!(err, Error::BadValue { text: "abc".to_string(), line_number: 0 });
}

#[test]
fn lines_close_option_parses() {
    let cmds = read("lines,3,0,0,10,0,0,10,close=false").unwrap();
    match &cmds[0] {
        Command::Lines(l) => {
            assert_eq!(l.close, Some(false));
            assert_eq!(l.positions.len(), 3);
        }
        other => panic!("wrong variant: {:?}", other),
    }
}

#[test]
fn lines_bad_close_token_is_an_option_error() {
    let err = read("lines,1,0,0,close=maybe").unwrap_err();
    assert_eq!(
        err,
        Error::BadOption {
            key: "close".to_string(),
            text: "maybe".to_string(),
            line_number: 0,
        }
    );
}

#[test]
fn oversized_stroke_count_is_a_value_error() {
    let err = read("multi_lines,0,0,1,1,99999999999,1,1").unwrap_err();
    assert_eq!(
        err,
        Error::BadValue { text: "99999999999".to_string(), line_number: 0 }
    );
}

#[test]
fn parse_mm_reads_unit_suffix_and_fractions() {
    assert_eq!(parse_mm("12.7mm", 0).unwrap(), 12_700);
    assert_eq!(parse_mm("5", 0).unwrap(), 5_000);
    assert_eq!(parse_mm("-3.25", 0).unwrap(), -3_250);
    assert_eq!(parse_mm("+2mm", 0).unwrap(), 2_000);
    assert_eq!(parse_mm("0.0005", 0).unwrap(), 0);
    assert_eq!(parse_mm("999999.999", 0).unwrap(), 999_999_999);
}

#[test]
fn parse_mm_rejects_junk_and_out_of_range() {
    assert!(parse_mm("", 0).is_err());
    assert!(parse_mm("mm", 0).is_err());
    assert!(parse_mm("1e3", 0).is_err());
    assert!(parse_mm("1.2.3", 0).is_err());
    assert_eq!(
        parse_mm("1000000", 7).unwrap_err(),
        Error::BadValue { text: "1000000".to_string(), line_number: 7 }
    );
}

#[test]
fn parse_option_strips_its_key_prefix() {
    assert_eq!(parse_option("close", "close=true", 0).unwrap(), true);
    assert_eq!(parse_option("close", "false", 0).unwrap(), false);
    assert!(parse_option("close", "close=banana", 0).is_err());
}

#[test]
fn parse_box_is_callable_directly() {
    let fields: Vec<String> = vec![
        "box".to_string(),
        "1".to_string(),
        "2".to_string(),
        "3".to_string(),
        "4".to_string(),
    ];
    let b: BoxCommand = parse_box(&fields, 9).unwrap();
    assert_eq!(b.position, Point { x: 1_000, y: 2_000 });
    let short: Vec<String> = vec!["box".to_string()];
    assert_eq!(
        parse_box(&short, 9).unwrap_err(),
        Error::MissingValue {
            value_name: "x".to_string(),
            command_name: "box".to_string(),
            line_number: 9,
        }
    );
}

#[test]
fn crlf_line_endings_are_accepted() {
    let cmds = read("box,1,2,3,4\r\nnew_page\r\n").unwrap();
    assert_eq!(cmds.len(), 2);
}
