use mesh_normalize::ledger::{read_vertices, replace_positions, scan, FillError, VertexError};
use mesh_normalize::vertex::Vertex;

fn text(lines: &[&str]) -> Vec<String> {
    lines.iter().map(|l| l.to_string()).collect()
}

fn vertex(x: &str, y: &str, z: &str) -> Vertex {
    Vertex { x: x.to_string(), y: y.to_string(), z: z.to_string() }
}

fn numbers(verts: &[Vertex]) -> Vec<[f64; 3]> {
    let f = |t: &String| t.parse::<f64>().unwrap();
    verts.iter().map(|v| [f(&v.x), f(&v.y), f(&v.z)]).collect()
}

fn vertices(points: &[[f64; 3]]) -> Vec<Vertex> {
    points
        .iter()
        .map(|[x, y, z]| Vertex { x: format!("{:?}", x), y: format!("{:?}", y), z: format!("{:?}", z) })
        .collect()
}

/// Centers the box around the points at the origin and scales it to the unit box.
fn fit_to_unit_box(points: &mut [[f64; 3]]) -> ([f64; 3], [f64; 3]) {
    let mut lo = [f64::INFINITY; 3];
    let mut hi = [f64::NEG_INFINITY; 3];
    for p in points.iter() {
        for a in 0..3 {
            lo[a] = lo[a].min(p[a]);
            hi[a] = hi[a].max(p[a]);
        }
    }
    let mut center = [0.0; 3];
    let mut half = [0.0; 3];
    for a in 0..3 {
        half[a] = (hi[a] - lo[a]) / 2.0;
        center[a] = lo[a] + half[a];
    }
    for p in points.iter_mut() {
        for a in 0..3 {
            p[a] = (p[a] - center[a]) / half[a];
        }
    }
    (center, half)
}

#[test]
fn scan_marks_vertex_lines_and_keeps_the_rest() {
    let lines = text(&["# cube", "v 0 0 0", "vn 0 0 1", "  v  1.5\t-2e3 .5 ", "", "f 1// 2// ", "vt 0 0"]);
    let (ledger, verts) = scan(&lines).unwrap();
    assert_eq!(ledger.len(), 7);
    assert_eq!(ledger.pending(), 2);
    assert_eq!(verts, vec![vertex("0", "0", "0"), vertex("1.5", "-2e3", ".5")]);
}

#[test]
fn rewrite_keeps_every_other_line_in_place() {
    let lines = text(&["# cube", "v 0 0 0", "vn 0 0 1", "  v  1.5\t-2e3 .5 ", "", "f 1// 2// ", " odd  line "]);
    let (ledger, verts) = scan(&lines).unwrap();
    assert_eq!(verts.len(), 2);
    let out = ledger.fill(&vec![vertex("9", "8", "7"), vertex("-1.0", "+.5", "1e-7")]).unwrap();
    assert_eq!(out.len(), lines.len());
    assert_eq!(
        out,
        vec!["# cube", "v 9 8 7", "vn 0 0 1", "v -1.0 +.5 1e-7", "", "f 1// 2// ", " odd  line "]
    );
}

#[test]
fn rewrite_of_a_text_without_vertices_is_the_text() {
    let lines = text(&["o mesh", "", "f 1 2 3", "V 1 2 3", "vertex 1 2 3"]);
    let (ledger, verts) = scan(&lines).unwrap();
    assert!(verts.is_empty());
    assert_eq!(ledger.pending(), 0);
    assert_eq!(ledger.fill(&vec![]), Ok(lines));
    let (empty, none) = scan(&vec![]).unwrap();
    assert!(none.is_empty());
    assert_eq!(empty.len(), 0);
    assert_eq!(empty.fill(&vec![]), Ok(vec![]));
}

#[test]
fn rewritten_text_scans_alike_and_rewrites_to_itself() {
    let lines = text(&["#", "v 1 2 3", "g", "v 4 5 6", "v 7 8 9"]);
    let fresh = vec![vertex("0.5", "0.25", "1e-7"), vertex("-0.0", "2.0", "3"), vertex("1", "1", "1")];
    let (ledger, _) = scan(&lines).unwrap();
    let out = ledger.fill(&fresh).unwrap();
    let (again, verts) = scan(&out).unwrap();
    assert_eq!(verts, fresh);
    assert_eq!(again.pending(), 3);
    assert_eq!(again.fill(&fresh), Ok(out));
}

#[test]
fn fill_wants_one_vertex_for_each_pending_slot() {
    let lines = text(&["v 1 2 3", "v 4 5 6"]);
    let one = vec![vertex("0", "0", "0")];
    let three = vec![vertex("0", "0", "0"), vertex("1", "1", "1"), vertex("2", "2", "2")];
    assert_eq!(scan(&lines).unwrap().0.fill(&one), Err(FillError::Count));
    assert_eq!(scan(&lines).unwrap().0.fill(&three), Err(FillError::Count));
    assert_eq!(scan(&lines).unwrap().0.fill(&vec![]), Err(FillError::Count));
}

#[test]
fn fill_writes_no_coordinate_that_is_not_finite() {
    let lines = text(&["v 1 2 3", "#", "v 4 5 6", "v inf 0 NaN"]);
    let fine = vertex("0", "0", "0");
    for bad in ["inf", "-inf", "NaN", "nan", "Infinity", "", "1 2", "x", "1e"] {
        let verts = vec![fine.clone(), vertex("1", bad, "1"), vertex(bad, bad, bad)];
        let (ledger, _) = scan(&lines).unwrap();
        assert_eq!(ledger.fill(&verts), Err(FillError::NotFinite { vertex: 1 }));
    }
    let (ledger, verts) = scan(&lines).unwrap();
    assert_eq!(ledger.fill(&verts), Err(FillError::NotFinite { vertex: 2 }));
    let (ledger, _) = scan(&lines).unwrap();
    assert_eq!(ledger.fill(&vec![vertex("inf", "0", "0")]), Err(FillError::Count));
}

#[test]
fn flat_box_cannot_be_fitted() {
    let lines = text(&["v 0 0 0", "v 1 0 0", "v 1 1 0", "v 0 1 0"]);
    let (ledger, verts) = scan(&lines).unwrap();
    let mut points = numbers(&verts);
    fit_to_unit_box(&mut points);
    assert!(points[0][2].is_nan());
    assert_eq!(ledger.fill(&vertices(&points)), Err(FillError::NotFinite { vertex: 0 }));
}

#[test]
fn vertex_tag_without_three_tokens_is_an_arity_error() {
    assert_eq!(scan(&text(&["v 1 2"])).err(), Some(VertexError::Arity { line: 0 }));
    assert_eq!(scan(&text(&["#", "v"])).err(), Some(VertexError::Arity { line: 1 }));
    assert_eq!(scan(&text(&["v 1 2 3", "", "v 1 2 3 4"])).err(), Some(VertexError::Arity { line: 2 }));
}

#[test]
fn vertex_tag_with_a_token_that_is_no_number_is_a_number_error() {
    assert_eq!(scan(&text(&["v 1 2 x"])).err(), Some(VertexError::Number { line: 0 }));
    assert_eq!(scan(&text(&["v 1 2 3", "v 1 2, 3"])).err(), Some(VertexError::Number { line: 1 }));
    assert_eq!(scan(&text(&["v 1 2", "v a b c"])).err(), Some(VertexError::Arity { line: 0 }));
}

#[test]
fn read_vertices_keeps_the_vertices_and_nothing_else() {
    let lines = text(&["# t", "v 1 2 3", "vn 0 0 1", "", "f 1 2 3", "V 7 8 9", " v -1 -2 -3"]);
    assert_eq!(read_vertices(&lines), Ok(vec![vertex("1", "2", "3"), vertex("-1", "-2", "-3")]));
    assert_eq!(read_vertices(&vec![]), Ok(vec![]));
}

#[test]
fn read_vertices_reads_what_scan_reads() {
    let texts = [
        text(&["v 1 2 3", "# c", "v 4 5 6"]),
        text(&["o mesh", "f 1 2 3"]),
        text(&["v 1 2 3", "v 4 5"]),
        text(&["v", "v 1 2 3"]),
        text(&["v 1 2 3 4"]),
        text(&["v 1 2 3", "v one 2 3"]),
    ];
    for lines in &texts {
        assert_eq!(read_vertices(lines), scan(lines).map(|(_, verts)| verts));
    }
}

#[test]
fn read_vertices_refuses_a_vertex_tag_without_three_tokens() {
    assert_eq!(read_vertices(&text(&["v 1 2 3", "v 4 5"])), Err(VertexError::Arity { line: 1 }));
    assert_eq!(read_vertices(&text(&["# t", "f 1", "v"])), Err(VertexError::Arity { line: 2 }));
    assert_eq!(read_vertices(&text(&["v 4 5 6 7"])), Err(VertexError::Arity { line: 0 }));
}

#[test]
fn read_vertices_refuses_a_token_that_is_no_number() {
    let lines = text(&["v 1 2 3", "v one 2 3", "v 1 2"]);
    assert_eq!(read_vertices(&lines), Err(VertexError::Number { line: 1 }));
    let arity_first = text(&["v 1 2", "v 1 2 3", "v one 2 3"]);
    assert_eq!(read_vertices(&arity_first), Err(VertexError::Arity { line: 0 }));
}

#[test]
fn replace_positions_takes_the_target_of_equal_length() {
    let computed = vec![[0.5, 0.5, 0.5], [-1.0, 1.0, 0.0]];
    let target = vec![[7.0, 8.0, 9.0], [10.0, 11.0, 12.0]];
    assert_eq!(replace_positions(computed.clone(), Some(target.clone()), true), target);
    assert_eq!(replace_positions(computed.clone(), Some(target), false), computed);
    assert_eq!(replace_positions(computed.clone(), None, true), computed);
    assert_eq!(replace_positions(computed.clone(), None, false), computed);
}

#[test]
fn replace_positions_falls_back_on_another_length() {
    let computed = vec![1, 2, 3];
    assert_eq!(replace_positions(computed.clone(), Some(vec![9, 9]), true), computed);
    assert_eq!(replace_positions(computed.clone(), Some(vec![9, 9, 9, 9]), true), computed);
    assert_eq!(replace_positions(computed.clone(), Some(vec![]), true), computed);
    assert_eq!(replace_positions(Vec::<u8>::new(), Some(vec![]), true), vec![]);
}

#[test]
fn box_of_two_corners_is_fitted_to_the_unit_box() {
    let lines = text(&["# two corners", "v 0 0 0", "v 2 2 2", "l 1 2"]);
    let (ledger, verts) = scan(&lines).unwrap();
    let mut points = numbers(&verts);
    let (center, half) = fit_to_unit_box(&mut points);
    assert_eq!(center, [1.0, 1.0, 1.0]);
    assert_eq!(half, [1.0, 1.0, 1.0]);
    assert_eq!(points, vec![[-1.0, -1.0, -1.0], [1.0, 1.0, 1.0]]);
    let out = ledger.fill(&vertices(&points)).unwrap();
    assert_eq!(out, vec!["# two corners", "v -1.0 -1.0 -1.0", "v 1.0 1.0 1.0", "l 1 2"]);
}

#[test]
fn fitting_a_fitted_text_again_changes_nothing() {
    let lines = text(&["v 0 0 0", "v 2 4 8", "v 1 1 1"]);
    let (ledger, verts) = scan(&lines).unwrap();
    let mut points = numbers(&verts);
    fit_to_unit_box(&mut points);
    let once = ledger.fill(&vertices(&points)).unwrap();
    let (ledger, verts) = scan(&once).unwrap();
    let mut points = numbers(&verts);
    fit_to_unit_box(&mut points);
    for p in &points {
        for a in 0..3 {
            assert!(-1.0 <= p[a] && p[a] <= 1.0);
        }
    }
    assert_eq!(ledger.fill(&vertices(&points)).unwrap(), once);
}

#[test]
fn replaced_positions_are_written_as_the_target_has_them() {
    let source = text(&["v 0 0 0", "# keep", "v 2 2 2"]);
    let target = text(&["v 0.125 1e3 -7", "vn 0 0 1", "v 3.5 0 1e-3"]);
    let (ledger, verts) = scan(&source).unwrap();
    let goal = numbers(&read_vertices(&target).unwrap());
    let mut points = numbers(&verts);
    fit_to_unit_box(&mut points);
    let points = replace_positions(points, Some(goal.clone()), true);
    assert_eq!(points, goal);
    let out = ledger.fill(&vertices(&points)).unwrap();
    assert_eq!(out, vec!["v 0.125 1000.0 -7.0", "# keep", "v 3.5 0.0 0.001"]);
}

#[test]
fn vertex_with_an_infinity_is_valid_and_not_finite() {
    assert!(vertex("1", "-2.5e3", "+.5").is_finite());
    assert!(vertex("1", "-2.5e3", "+.5").is_valid());
    for bad in ["inf", "-inf", "NaN", "+infinity"] {
        assert!(vertex("0", bad, "0").is_valid());
        assert!(!vertex("0", bad, "0").is_finite());
    }
    assert!(!vertex("0", "zero", "0").is_valid());
    assert!(!vertex("0", "", "0").is_finite());
    for p in [[0.0, -0.0, 1e300], [f64::MIN_POSITIVE, f64::MAX, f64::EPSILON], [1e21, 1e-7, 123456789.125]] {
        assert!(vertices(&[p])[0].is_finite());
    }
    for p in [[0.0, f64::INFINITY, 0.0], [f64::NAN, 0.0, 0.0], [0.0, 0.0, f64::NEG_INFINITY]] {
        assert!(vertices(&[p])[0].is_valid());
        assert!(!vertices(&[p])[0].is_finite());
    }
}

#[test]
fn vertex_line_joins_the_tag_and_the_coordinates() {
    assert_eq!(vertex("1", "2.5", "-3e2").line(), "v 1 2.5 -3e2");
}

/// Moves the mean of the points to the origin and scales the farthest point to distance one.
fn fit_to_unit_ball(points: &mut [[f64; 3]]) {
    let n = points.len() as f64;
    let mut center = [0.0; 3];
    for p in points.iter() {
        for a in 0..3 {
            center[a] += p[a] / n;
        }
    }
    let dist = |p: &[f64; 3]| {
        ((p[0] - center[0]).powi(2) + (p[1] - center[1]).powi(2) + (p[2] - center[2]).powi(2)).sqrt()
    };
    let scale = points.iter().map(dist).fold(0.0, f64::max);
    for p in points.iter_mut() {
        for a in 0..3 {
            p[a] = (p[a] - center[a]) / scale;
        }
    }
}

#[test]
fn farthest_vertex_is_fitted_to_distance_one() {
    let lines = text(&["v 0 0 0", "g far", "v 4 0 0", "v 2 1 0", "v 2 -1 0"]);
    let (ledger, verts) = scan(&lines).unwrap();
    let mut points = numbers(&verts);
    fit_to_unit_ball(&mut points);
    let out = ledger.fill(&vertices(&points)).unwrap();
    assert_eq!(out, vec!["v -1.0 0.0 0.0", "g far", "v 1.0 0.0 0.0", "v 0.0 0.5 0.0", "v 0.0 -0.5 0.0"]);
    let (_, verts) = scan(&out).unwrap();
    let far = numbers(&verts)
        .iter()
        .map(|p| (p[0] * p[0] + p[1] * p[1] + p[2] * p[2]).sqrt())
        .fold(0.0, f64::max);
    assert_eq!(far, 1.0);
}
