use mesh_normalize::off::{parse, to_obj, Fault, ParseError, Parser, State};
use mesh_normalize::vertex::Vertex;

fn text(lines: &[&str]) -> Vec<String> {
    lines.iter().map(|l| l.to_string()).collect()
}

fn vertex(x: &str, y: &str, z: &str) -> Vertex {
    Vertex { x: x.to_string(), y: y.to_string(), z: z.to_string() }
}

/// Each coordinate read as a number and written again in its shortest form.
fn reformat(verts: &[Vertex]) -> Vec<Vertex> {
    let f = |t: &String| format!("{}", t.parse::<f64>().unwrap());
    verts.iter().map(|v| Vertex { x: f(&v.x), y: f(&v.y), z: f(&v.z) }).collect()
}

#[test]
fn unit_square_converts_with_shifted_indices() {
    let lines = text(&["4 2 0", "0 0 0", "1 0 0", "1 1 0", "0 1 0", "3 0 1 2", "3 0 2 3"]);
    let (verts, faces) = parse(&lines).unwrap();
    assert_eq!(verts.len(), 4);
    assert_eq!(faces, vec![vec![0, 1, 2], vec![0, 2, 3]]);
    let out = to_obj(reformat(&verts), faces);
    assert_eq!(
        out,
        vec!["v 0 0 0", "v 1 0 0", "v 1 1 0", "v 0 1 0", "f 1// 2// 3// ", "f 1// 3// 4// "]
    );
}

#[test]
fn parse_keeps_coordinate_texts_and_order() {
    let lines = text(&["OFF", "# a comment", "2 1 7", " 0.5 -1e3 +.25 ", "1. inf NaN", "2 1 0"]);
    let (verts, faces) = parse(&lines).unwrap();
    assert_eq!(verts, vec![vertex("0.5", "-1e3", "+.25"), vertex("1.", "inf", "NaN")]);
    assert_eq!(faces, vec![vec![1, 0]]);
}

#[test]
fn format_tag_is_optional_and_case_insensitive() {
    let body = ["1 0 0", "1 2 3"];
    let expected = Ok((vec![vertex("1", "2", "3")], vec![]));
    assert_eq!(parse(&text(&body)), expected);
    for tag in ["OFF", "off", "Off", "oFf"] {
        let mut lines = vec![tag];
        lines.extend_from_slice(&body);
        assert_eq!(parse(&text(&lines)), expected);
    }
    assert_eq!(parse(&text(&["OFFF", "1 0 0", "1 2 3"])), Err(ParseError::Malformed { line: 0 }));
    assert_eq!(parse(&text(&["OFF", "OFF", "1 0 0"])), Err(ParseError::Malformed { line: 1 }));
}

#[test]
fn comments_are_skipped_in_every_state() {
    let lines = text(&[
        "#0", "OFF", "# 1", "1 1 0", "#2 2 2", "0 0 0", " #3", "1 0", "#4", "# trailing remark",
    ]);
    assert_eq!(parse(&lines), Ok((vec![vertex("0", "0", "0")], vec![vec![0]])));
}

#[test]
fn face_with_fewer_indices_than_its_degree_is_malformed() {
    let lines = text(&["OFF", "3 1 0", "0 0 0", "1 0 0", "0 1 0", "3 0 1"]);
    assert_eq!(parse(&lines), Err(ParseError::Malformed { line: 5 }));
}

#[test]
fn face_with_more_indices_than_its_degree_is_malformed() {
    let lines = text(&["3 1 0", "0 0 0", "1 0 0", "0 1 0", "2 0 1 2"]);
    assert_eq!(parse(&lines), Err(ParseError::Malformed { line: 4 }));
}

#[test]
fn face_indices_are_not_held_against_the_vertex_count() {
    let lines = text(&["1 2 0", "0 0 0", "3 7 8 9", "0"]);
    assert_eq!(parse(&lines), Ok((vec![vertex("0", "0", "0")], vec![vec![7, 8, 9], vec![]])));
}

#[test]
fn line_after_the_last_face_is_trailing() {
    let lines = text(&["1 1 0", "0 0 0", "1 0", "1 0"]);
    assert_eq!(parse(&lines), Err(ParseError::Trailing { line: 3 }));
    let blank = text(&["1 1 0", "0 0 0", "1 0", "# fine", ""]);
    assert_eq!(parse(&blank), Err(ParseError::Trailing { line: 4 }));
}

#[test]
fn malformed_lines_are_refused_where_they_stand() {
    assert_eq!(parse(&text(&["1 1"])), Err(ParseError::Malformed { line: 0 }));
    assert_eq!(parse(&text(&["1 -1 0"])), Err(ParseError::Malformed { line: 0 }));
    assert_eq!(parse(&text(&["1 1 0", "0 0"])), Err(ParseError::Malformed { line: 1 }));
    assert_eq!(parse(&text(&["1 1 0", "0 0 x"])), Err(ParseError::Malformed { line: 1 }));
    assert_eq!(parse(&text(&["1 1 0", "", "0 0 0"])), Err(ParseError::Malformed { line: 1 }));
    assert_eq!(parse(&text(&["1 1 0", "0 0 0", "1 a"])), Err(ParseError::Malformed { line: 2 }));
    assert_eq!(parse(&text(&["1 1 0", "0 0 0", "x 0"])), Err(ParseError::Malformed { line: 2 }));
    assert_eq!(parse(&text(&["1 1 0", "0 0 0", ""])), Err(ParseError::Malformed { line: 2 }));
}

#[test]
fn text_that_ends_early_is_a_count_mismatch() {
    assert_eq!(parse(&text(&["OFF", "2 1 0", "0 0 0"])), Err(ParseError::CountMismatch));
    assert_eq!(parse(&text(&["2 1 0", "0 0 0", "1 1 1"])), Err(ParseError::CountMismatch));
    assert_eq!(parse(&text(&["1 0 0", "0 0 0", "0"])), Err(ParseError::CountMismatch));
}

#[test]
fn text_without_counts_is_an_empty_mesh() {
    assert_eq!(parse(&text(&[])), Ok((vec![], vec![])));
    assert_eq!(parse(&text(&["# only this", "OFF"])), Ok((vec![], vec![])));
    assert_eq!(parse(&text(&["0 0 0"])), Ok((vec![], vec![])));
}

#[test]
fn parser_passes_its_states_in_order() {
    let mut p = Parser::new();
    assert_eq!(p.state(), State::Header);
    assert_eq!(p.feed("# c"), Ok(()));
    assert_eq!(p.state(), State::Header);
    assert_eq!(p.feed("off"), Ok(()));
    assert_eq!(p.state(), State::Counts);
    assert_eq!(p.feed("2 1 0"), Ok(()));
    assert_eq!(p.state(), State::Verts);
    assert_eq!(p.feed("0 0 0"), Ok(()));
    assert_eq!(p.state(), State::Verts);
    assert_eq!(p.feed("3 0 1 2"), Err(Fault::Malformed));
    assert_eq!(p.state(), State::Verts);
    assert_eq!(p.feed("1 1 1"), Ok(()));
    assert_eq!(p.state(), State::Faces);
    assert_eq!(p.feed("2 0 1"), Ok(()));
    assert_eq!(p.state(), State::Done);
    assert_eq!(p.feed("2 0 1"), Err(Fault::Trailing));
    assert_eq!(p.feed("#"), Ok(()));
    assert_eq!(p.state(), State::Done);
    let (verts, faces) = p.finish().unwrap();
    assert_eq!(verts, vec![vertex("0", "0", "0"), vertex("1", "1", "1")]);
    assert_eq!(faces, vec![vec![0, 1]]);
}

#[test]
fn to_obj_writes_vertices_then_faces() {
    let out = to_obj(
        vec![vertex("0.5", "-2", "1e21"), vertex("NaN", "inf", "-0")],
        vec![vec![], vec![9], vec![0, 99, 100]],
    );
    assert_eq!(out, vec!["v 0.5 -2 1e21", "v NaN inf -0", "f ", "f 10// ", "f 1// 100// 101// "]);
    assert!(to_obj(vec![], vec![]).is_empty());
}

#[test]
fn to_obj_counts_the_largest_index_from_one() {
    let out = to_obj(vec![], vec![vec![usize::MAX]]);
    assert_eq!(out, vec![format!("f {}// ", usize::MAX as u128 + 1)]);
}

fn is_tag(token: &str) -> bool {
    let mut p = Parser::new();
    p.feed(token) == Ok(()) && p.state() == State::Counts
}

#[test]
fn format_tag_is_what_lowercases_to_it() {
    for c in '\0'..=char::MAX {
        for token in [format!("{c}ff"), format!("o{c}f"), format!("of{c}"), format!("{c}f"), format!("o{c}"), format!("{c}")] {
            let expected = token.to_lowercase() == "off";
            if c.is_ascii() {
                assert_eq!(is_tag(&token), expected, "token {:?}", token);
            } else {
                assert!(!expected, "token {:?}", token);
            }
        }
    }
    assert!(!is_tag("\u{212a}ff"));
    assert!(!is_tag("o\u{fb00}"));
    assert!(!is_tag("ｏｆｆ"));
}

#[test]
fn converted_mesh_scans_to_its_vertices() {
    let lines = text(&["OFF", "3 2 0", "0 0 0", "1.5 -2e3 .5", "+1 1. 1e-7", "3 0 1 2", "0"]);
    let (verts, faces) = parse(&lines).unwrap();
    let out = to_obj(verts.clone(), faces);
    assert_eq!(out.len(), 5);
    let (ledger, scanned) = mesh_normalize::ledger::scan(&out).unwrap();
    assert_eq!(scanned, verts);
    assert_eq!(ledger.pending(), 3);
    assert_eq!(ledger.fill(&scanned), Ok(out));
}
