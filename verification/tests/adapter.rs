use glyph_mesh::error::Error;
use glyph_mesh::geometry::Point;
use glyph_mesh::outline::{Outline, OutlineBuilder};
use glyph_mesh::quality::QualitySettings;
use glyph_mesh::triangulation::{find_defect, triangulation_edges};

fn points(count: usize) -> Vec<Point> {
    (0..count).map(|i| Point { x: i as i128, y: (i * i) as i128 }).collect()
}

fn outline(count: usize, contours: Vec<Vec<usize>>) -> Outline {
    Outline::new(points(count), contours, Vec::new(), 1, 2).unwrap()
}

fn with_open(count: usize, contours: Vec<Vec<usize>>, open: Vec<Vec<usize>>) -> Outline {
    Outline::new(points(count), contours, open, 1, 2).unwrap()
}

#[test]
fn edges_follow_each_contour_and_return_to_its_start() {
    let edges = triangulation_edges(&outline(4, vec![vec![0, 1, 2, 3]]));
    assert_eq!(edges, Ok(vec![(0, 1), (1, 2), (2, 3), (3, 0)]));
    assert_eq!(find_defect(&outline(4, vec![vec![0, 1, 2, 3]])), None);
}

#[test]
fn edges_of_all_contours_come_one_after_another() {
    let edges = triangulation_edges(&outline(7, vec![vec![0, 1, 2, 3], vec![4, 5, 6]]));
    assert_eq!(
        edges,
        Ok(vec![(0, 1), (1, 2), (2, 3), (3, 0), (4, 5), (5, 6), (6, 4)])
    );
}

#[test]
fn an_outline_without_contours_has_no_edges() {
    assert_eq!(triangulation_edges(&outline(0, Vec::new())), Ok(Vec::new()));
    assert_eq!(triangulation_edges(&outline(5, Vec::new())), Ok(Vec::new()));
}

#[test]
fn a_chain_that_was_not_closed_is_refused() {
    let open = with_open(4, Vec::new(), vec![vec![0, 1, 2, 3]]);
    assert_eq!(triangulation_edges(&open), Err(Error::OpenContour));
    assert_eq!(find_defect(&open), Some(Error::OpenContour));
    // beside contours that are sound
    let open = with_open(7, vec![vec![0, 1, 2, 3]], vec![vec![4, 5, 6]]);
    assert_eq!(triangulation_edges(&open), Err(Error::OpenContour));
}

#[test]
fn a_contour_of_two_points_is_refused() {
    let edges = triangulation_edges(&outline(4, vec![vec![0, 1]]));
    assert_eq!(edges, Err(Error::MalformedOutline));
    assert_eq!(find_defect(&outline(4, vec![vec![0, 1]])), Some(Error::MalformedOutline));
}

#[test]
fn a_contour_of_three_points_is_taken() {
    let edges = triangulation_edges(&outline(3, vec![vec![0, 1, 2]]));
    assert_eq!(edges, Ok(vec![(0, 1), (1, 2), (2, 0)]));
}

#[test]
fn a_contour_without_points_is_refused() {
    let edges = triangulation_edges(&outline(4, vec![vec![]]));
    assert_eq!(edges, Err(Error::MalformedOutline));
}

#[test]
fn a_contour_that_names_a_missing_point_is_refused() {
    let edges = triangulation_edges(&outline(4, vec![vec![0, 1, 4]]));
    assert_eq!(edges, Err(Error::MalformedOutline));
    let edges = triangulation_edges(&outline(4, vec![vec![0, 1, 2, 3], vec![1, 2, 7, 3]]));
    assert_eq!(edges, Err(Error::MalformedOutline));
}

#[test]
fn an_open_chain_decides_before_the_contours() {
    let both = with_open(8, vec![vec![0, 1, 2], vec![6, 7]], vec![vec![3, 4, 5]]);
    assert_eq!(triangulation_edges(&both), Err(Error::OpenContour));
    let short = outline(8, vec![vec![0, 1, 2], vec![6, 7]]);
    assert_eq!(triangulation_edges(&short), Err(Error::MalformedOutline));
}

#[test]
fn a_built_outline_passes() {
    let mut builder = OutlineBuilder::new(1000, QualitySettings::default());
    builder.move_to(0, 0);
    builder.quad_to(50, 0, 50, 50);
    builder.line_to(0, 0);
    builder.close();
    let outline = builder.into_outline();
    let edges = triangulation_edges(&outline).unwrap();
    assert_eq!(edges.len(), 6);
    assert_eq!(edges[0], (0, 1));
    assert_eq!(edges[4], (4, 5));
    assert_eq!(edges[5], (5, 0));
}

#[test]
fn a_built_outline_that_was_not_closed_is_open() {
    let mut builder = OutlineBuilder::new(1000, QualitySettings::default());
    builder.move_to(0, 0);
    builder.line_to(50, 0);
    builder.line_to(50, 50);
    let outline = builder.into_outline();
    assert_eq!(triangulation_edges(&outline), Err(Error::OpenContour));
}

#[test]
fn close_without_a_move_is_malformed() {
    let mut builder = OutlineBuilder::new(1000, QualitySettings::default());
    builder.close();
    let outline = builder.into_outline();
    assert_eq!(triangulation_edges(&outline), Err(Error::MalformedOutline));
}

#[test]
fn errors_say_what_they_are() {
    assert_eq!(Error::OpenContour.message(), "The glyph outline has an open contour");
    assert_eq!(Error::MalformedOutline.message(), "The glyph outline is malformed");
    let inner = lyon_tessellation::TessellationError::Internal(
        lyon_tessellation::InternalError::InsufficientNumberOfEdges,
    );
    let text = format!("The glyph outline could not be tesselated: {}", inner);
    assert_eq!(Error::Tessellation(inner).message(), text);
}
