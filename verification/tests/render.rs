//! Layout engine behaviour: geometry round trips, delta semantics, line
//! fans, cumulative polylines, table stepping and page isolation.

use yaml_cv::command::{
    BoxCommand, Command, EducationExperience, History, Line, Lines, MultiLines, Photo, Text,
    TextBox,
};
use yaml_cv::error::Error;
use yaml_cv::geom::{Point, Size};
use yaml_cv::options::{FontOptions, LineOptions};
use yaml_cv::record::{Entry, Record};
use yaml_cv::render::{
    draw_lines, draw_multilines, draw_photo, make, size_to_scale, FontId, SinkOp,
};

// The fixed page inset and the default 12pt font size, in thousandths.
const M: i64 = 12_700;
const FSM: i64 = 4_233;

fn no_font() -> FontOptions {
    FontOptions { font_size: None, font_face: None }
}

fn no_line() -> LineOptions {
    LineOptions { line_width: None, line_style: None }
}

fn entry(year: &str, month: u8, value: &str) -> Entry {
    Entry { year: Some(year.to_string()), month: Some(month), value: value.to_string() }
}

fn sample_record() -> Record {
    Record {
        date: "date-v".to_string(),
        name_kana: "name_kana-v".to_string(),
        name: "name-v".to_string(),
        birth_day: "birth_day-v".to_string(),
        gender: "gender-v".to_string(),
        cell_phone: "cell_phone-v".to_string(),
        email: "email-v".to_string(),
        photo: "photo.jpg".to_string(),
        address_kana: "address_kana-v".to_string(),
        address: "address-v".to_string(),
        address_zip: "address_zip-v".to_string(),
        tel: "tel-v".to_string(),
        fax: "fax-v".to_string(),
        address_kana2: "address_kana2-v".to_string(),
        address2: "address2-v".to_string(),
        address_zip2: "address_zip2-v".to_string(),
        tel2: "tel2-v".to_string(),
        fax2: "fax2-v".to_string(),
        degree: "degree-v".to_string(),
        degree_year: "degree_year-v".to_string(),
        degree_affiliation: "degree_affiliation-v".to_string(),
        thesis_title: "thesis_title-v".to_string(),
        education: vec![
            entry("2015", 4, "enrolled"),
            entry("2019", 3, "graduated"),
            entry("2019", 10, "enrolled again"),
        ],
        experience: vec![entry("2021", 4, "hired")],
        licences: vec![entry("2020", 10, "licence")],
        awards: vec![entry("2021", 1, "award")],
        teaching: "teaching-v".to_string(),
        affiliated_society: "affiliated_society-v".to_string(),
        notices: "notices-v".to_string(),
        commuting_time: "commuting_time-v".to_string(),
        dependents: "dependents-v".to_string(),
        spouse: "spouse-v".to_string(),
        supporting_spouse: "supporting_spouse-v".to_string(),
        hobby: "hobby-v".to_string(),
        motivation: "motivation-v".to_string(),
        request: "request-v".to_string(),
    }
}

fn text_runs(ops: &[SinkOp]) -> Vec<(Point, String)> {
    let mut out = Vec::new();
    for op in ops {
        if let SinkOp::TextRun { position, text, .. } = op {
            out.push((*position, text.clone()));
        }
    }
    out
}

#[test]
fn point_add_then_sub_round_trips() {
    let a = Point { x: 12_345, y: -6_789 };
    let b = Point { x: -555, y: 777 };
    assert_eq!(a.add(b).sub(b), a);
    assert_eq!(a.add(b), Point { x: 11_790, y: -6_012 });
}

#[test]
fn multilines_strokes_step_by_the_offset() {
    let m = MultiLines {
        start_position: Point { x: 0, y: 0 },
        direction: Point { x: 10_000, y: 0 },
        stroke_number: 3,
        position_offset: Point { x: 0, y: 5_000 },
    };
    let ops = draw_multilines(&m);
    assert_eq!(ops.len(), 3);
    for (k, op) in ops.iter().enumerate() {
        let dy = 5_000 * k as i64;
        match op {
            SinkOp::Polyline { points, closed, .. } => {
                assert_eq!(points[0], Point { x: M, y: dy + M });
                assert_eq!(points[1], Point { x: 10_000 + M, y: dy + M });
                assert!(!closed);
            }
            other => panic!("wrong op: {:?}", other),
        }
    }
}

#[test]
fn lines_vertices_accumulate_and_close_by_default() {
    let l = Lines {
        stroke_number: 3,
        positions: vec![
            Point { x: 0, y: 0 },
            Point { x: 10_000, y: 0 },
            Point { x: 0, y: 10_000 },
        ],
        line_options: no_line(),
        close: None,
    };
    let ops = draw_lines(&l).unwrap();
    match &ops[0] {
        SinkOp::Polyline { points, closed, .. } => {
            assert_eq!(
                points,
                &vec![
                    Point { x: M, y: M },
                    Point { x: 10_000 + M, y: M },
                    Point { x: 10_000 + M, y: 10_000 + M },
                ]
            );
            assert!(*closed);
        }
        other => panic!("wrong op: {:?}", other),
    }
}

#[test]
fn lines_with_close_false_stay_open() {
    let l = Lines {
        stroke_number: 2,
        positions: vec![Point { x: 0, y: 0 }, Point { x: 1_000, y: 0 }],
        line_options: no_line(),
        close: Some(false),
    };
    match &draw_lines(&l).unwrap()[0] {
        SinkOp::Polyline { closed, .. } => assert!(!closed),
        other => panic!("wrong op: {:?}", other),
    }
}

#[test]
fn lines_without_vertices_are_malformed_geometry() {
    let l = Lines {
        stroke_number: 0,
        positions: vec![],
        line_options: no_line(),
        close: None,
    };
    assert_eq!(draw_lines(&l).unwrap_err(), Error::NoPositions);
}

#[test]
fn lines_stroke_count_must_match_vertices() {
    let l = Lines {
        stroke_number: 5,
        positions: vec![Point { x: 0, y: 0 }],
        line_options: no_line(),
        close: None,
    };
    assert_eq!(draw_lines(&l).unwrap_err(), Error::StrokeMismatch);
}

#[test]
fn line_second_point_is_a_relative_delta() {
    let cmds = vec![Command::Line(Line {
        start_position: Point { x: 10_000, y: 10_000 },
        end_position: Point { x: 5_000, y: -2_000 },
        line_options: no_line(),
    })];
    let ops = make(&cmds, &sample_record()).unwrap();
    match &ops[0] {
        SinkOp::Polyline { points, .. } => {
            assert_eq!(points[0], Point { x: 22_700, y: 22_700 });
            assert_eq!(points[1], Point { x: 27_700, y: 20_700 });
        }
        other => panic!("wrong op: {:?}", other),
    }
}

#[test]
fn box_outline_has_margin_adjusted_corners() {
    let cmds = vec![Command::BoxCommand(BoxCommand {
        position: Point { x: 1_000, y: 2_000 },
        size: Size { width: 3_000, height: 4_000 },
        line_options: no_line(),
    })];
    let ops = make(&cmds, &sample_record()).unwrap();
    match &ops[0] {
        SinkOp::Polyline { points, closed, line_width, dashed } => {
            assert_eq!(
                points,
                &vec![
                    Point { x: 16_700, y: 14_700 },
                    Point { x: 16_700, y: 18_700 },
                    Point { x: 13_700, y: 18_700 },
                    Point { x: 13_700, y: 14_700 },
                ]
            );
            assert!(*closed);
            assert_eq!(*line_width, 500);
            assert!(!dashed);
        }
        other => panic!("wrong op: {:?}", other),
    }
}

#[test]
fn text_lines_wrap_downward_one_font_step_each() {
    let cmds = vec![Command::Text(Text {
        position: Point { x: 10_000, y: 100_000 },
        value: "first\nsecond".to_string(),
        font_options: no_font(),
    })];
    let ops = make(&cmds, &sample_record()).unwrap();
    let runs = text_runs(&ops);
    assert_eq!(runs.len(), 2);
    assert_eq!(runs[0], (Point { x: 22_700, y: 100_000 + M - FSM }, "first".to_string()));
    assert_eq!(runs[1], (Point { x: 22_700, y: 100_000 + M - 2 * FSM }, "second".to_string()));
}

#[test]
fn text_resolves_variables_against_the_record() {
    let cmds = vec![Command::Text(Text {
        position: Point { x: 0, y: 0 },
        value: "$name".to_string(),
        font_options: no_font(),
    })];
    let ops = make(&cmds, &sample_record()).unwrap();
    assert_eq!(text_runs(&ops)[0].1, "name-v");
    match &ops[0] {
        SinkOp::TextRun { font, font_size, .. } => {
            // The defaults: the serif face at 12pt.
            assert_eq!(*font, FontId::Mincho);
            assert_eq!(*font_size, 12_000);
        }
        other => panic!("wrong op: {:?}", other),
    }
}

#[test]
fn unknown_variable_aborts_the_render() {
    let cmds = vec![Command::Text(Text {
        position: Point { x: 0, y: 0 },
        value: "$nope".to_string(),
        font_options: no_font(),
    })];
    assert_eq!(
        make(&cmds, &sample_record()).unwrap_err(),
        Error::UnknownVariable { name: "$nope".to_string() }
    );
}

#[test]
fn unregistered_font_face_aborts_the_render() {
    let cmds = vec![Command::Text(Text {
        position: Point { x: 0, y: 0 },
        value: "v".to_string(),
        font_options: FontOptions { font_size: None, font_face: Some("nope".to_string()) },
    })];
    assert_eq!(
        make(&cmds, &sample_record()).unwrap_err(),
        Error::UnknownFont { name: "nope".to_string() }
    );
}

#[test]
fn named_font_faces_reach_the_registry() {
    let cmds = vec![Command::Text(Text {
        position: Point { x: 0, y: 0 },
        value: "v".to_string(),
        font_options: FontOptions { font_size: None, font_face: Some("gothic".to_string()) },
    })];
    let ops = make(&cmds, &sample_record()).unwrap();
    match &ops[0] {
        SinkOp::TextRun { font, font_size, .. } => {
            assert_eq!(*font, FontId::Gothic);
            assert_eq!(*font_size, 12_000);
        }
        other => panic!("wrong op: {:?}", other),
    }
}

#[test]
fn history_rows_step_down_by_the_padding() {
    let cmds = vec![Command::History(History {
        y: 100_000,
        year_x: 10_000,
        month_x: 20_000,
        value_x: 30_000,
        padding: 5_000,
        value: "$education".to_string(),
        font_options: no_font(),
    })];
    let ops = make(&cmds, &sample_record()).unwrap();
    let runs = text_runs(&ops);
    // Three rows of three columns; the year column sits at x = 22,700.
    let year_ys: Vec<i64> = runs
        .iter()
        .filter(|(p, _)| p.x == 10_000 + M)
        .map(|(p, _)| p.y)
        .collect();
    // Rows start one padding above the given y and step down by it.
    assert_eq!(
        year_ys,
        vec![105_000 + M - FSM, 100_000 + M - FSM, 95_000 + M - FSM]
    );
    // The row texts come out in list order.
    assert_eq!(runs[0].1, "2015");
    assert_eq!(runs[1].1, "4");
    assert_eq!(runs[2].1, "enrolled");
}

#[test]
fn two_digit_months_are_nudged_left() {
    let cmds = vec![Command::History(History {
        y: 100_000,
        year_x: 10_000,
        month_x: 20_000,
        value_x: 30_000,
        padding: 5_000,
        value: "$licences".to_string(),
        font_options: no_font(),
    })];
    let ops = make(&cmds, &sample_record()).unwrap();
    let runs = text_runs(&ops);
    // The single licence row has month 10: two digits, so the month
    // column moves left by a third of the font step.
    assert_eq!(runs[1].1, "10");
    assert_eq!(runs[1].0.x, 20_000 - FSM / 3 + M);
}

#[test]
fn education_experience_stacks_two_captioned_tables() {
    let cmds = vec![Command::EducationExperience(EducationExperience {
        y: 200_000,
        year_x: 10_000,
        month_x: 20_000,
        value_x: 30_000,
        padding: 5_000,
        caption_x: 8_000,
        ijo_x: 40_000,
        font_options: no_font(),
    })];
    let rec = sample_record();
    let ops = make(&cmds, &rec).unwrap();
    let runs = text_runs(&ops);
    // First caption at the given y, rows one padding below it.
    assert_eq!(runs[0], (Point { x: 8_000 + M, y: 200_000 + M - FSM }, "学歴".to_string()));
    // Three education rows use y 195,000 / 190,000 / 185,000; the second
    // caption starts at the first table's final y, 180,000.
    let second_caption = runs
        .iter()
        .find(|(_, t)| t == "職歴")
        .expect("second caption missing");
    assert_eq!(second_caption.0, Point { x: 8_000 + M, y: 180_000 + M - FSM });
    // The experience row follows one padding below the second caption.
    let hired = runs.iter().find(|(_, t)| t == "hired").expect("experience row missing");
    assert_eq!(hired.0.y, 175_000 + M - FSM);
}

#[test]
fn photo_scale_is_span_over_reference() {
    let p = Photo {
        position: Point { x: 10_000, y: 20_000 },
        size: Size { width: 5_000, height: 8_000 },
    };
    let ops = draw_photo(&p).unwrap();
    match &ops[0] {
        SinkOp::Image { position, scale_x, scale_y } => {
            assert_eq!(*position, Point { x: 22_700, y: 32_700 });
            assert_eq!(*scale_x, 1_500_000);
            assert_eq!(*scale_y, 1_400_000);
        }
        other => panic!("wrong op: {:?}", other),
    }
    assert_eq!(size_to_scale(5_000, 10_000).unwrap(), 1_500_000);
    assert_eq!(size_to_scale(5_000, 0).unwrap_err(), Error::ZeroScaleBase);
}

#[test]
fn textbox_draws_outline_and_centred_value() {
    let cmds = vec![Command::TextBox(TextBox {
        position: Point { x: 10_000, y: 20_000 },
        size: Size { width: 4_000, height: 6_000 },
        value: "hi".to_string(),
        font_options: no_font(),
    })];
    let ops = make(&cmds, &sample_record()).unwrap();
    match &ops[0] {
        SinkOp::Polyline { points, closed, .. } => {
            assert_eq!(
                points,
                &vec![
                    Point { x: 26_700, y: 26_700 },
                    Point { x: 26_700, y: 32_700 },
                    Point { x: 22_700, y: 32_700 },
                    Point { x: 22_700, y: 26_700 },
                ]
            );
            assert!(*closed);
        }
        other => panic!("wrong op: {:?}", other),
    }
    match &ops[1] {
        SinkOp::TextRun { position, text, .. } => {
            assert_eq!(*position, Point { x: 12_000 + M, y: 17_000 + M - FSM });
            assert_eq!(text, "hi");
        }
        other => panic!("wrong op: {:?}", other),
    }
}

#[test]
fn ymbox_and_miscbox_are_forwarded_without_drawing() {
    let cmds = read_script("ymbox,t,5,3,v\nmiscbox,t,1,2,v");
    let ops = make(&cmds, &sample_record()).unwrap();
    assert!(ops.is_empty());
}

fn read_script(text: &str) -> Vec<Command> {
    yaml_cv::parse::read(text).unwrap()
}

#[test]
fn commands_after_new_page_land_on_the_new_page() {
    let cmds = read_script("string,0,0,before\nnew_page\nstring,0,0,after");
    let ops = make(&cmds, &sample_record()).unwrap();
    assert_eq!(ops.len(), 3);
    let break_at = ops
        .iter()
        .position(|op| matches!(op, SinkOp::NextPage))
        .expect("page break missing");
    assert_eq!(break_at, 1);
    match &ops[0] {
        SinkOp::TextRun { text, .. } => assert_eq!(text, "before"),
        other => panic!("wrong op: {:?}", other),
    }
    match &ops[2] {
        SinkOp::TextRun { text, .. } => assert_eq!(text, "after"),
        other => panic!("wrong op: {:?}", other),
    }
}

#[test]
fn table_header_shifts_the_first_row() {
    let rec = sample_record();
    let header = Text {
        position: Point { x: 8_000, y: 100_000 },
        value: "awards".to_string(),
        font_options: no_font(),
    };
    let (ops, final_y) = yaml_cv::render::draw_table(
        Some(&header),
        &rec.awards,
        0,
        10_000,
        20_000,
        30_000,
        5_000,
        &no_font(),
        &rec,
    )
    .unwrap();
    let runs = text_runs(&ops);
    // The header comes first; the single row starts one padding below
    // the header's y, and the returned y is one padding below the row.
    assert_eq!(runs[0].1, "awards");
    assert_eq!(runs[1].0.y, 95_000 + M - FSM);
    assert_eq!(final_y, 90_000);
}

#[test]
fn wf_check_accepts_parsed_commands_and_rejects_extremes() {
    let cmds = yaml_cv::parse::read("box,1,2,3,4").unwrap();
    assert!(cmds[0].wf_check());
    let extreme = Command::Line(Line {
        start_position: Point { x: i64::MAX, y: 0 },
        end_position: Point { x: 0, y: 0 },
        line_options: no_line(),
    });
    assert!(!extreme.wf_check());
}

#[test]
fn whole_pipeline_renders_a_small_script() {
    let script = "# layout\nstring,10,250,$name\nbox,5,5,200,287\nnew_page\nhistory,250,10,30,50,8,$awards";
    let cmds = read_script(script);
    let ops = make(&cmds, &sample_record()).unwrap();
    let runs = text_runs(&ops);
    assert_eq!(runs[0].1, "name-v");
    assert!(runs.iter().any(|(_, t)| t == "award"));
    assert!(ops.iter().any(|op| matches!(op, SinkOp::NextPage)));
}
