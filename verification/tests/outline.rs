use glyph_mesh::geometry::Point;
use glyph_mesh::outline::{Command, FontPoint, Outline, OutlineBuilder};
use glyph_mesh::quality::QualitySettings;

fn quality(quad: u16, cubic: u16) -> QualitySettings {
    QualitySettings::new(quad, cubic).unwrap()
}

fn at(x: i32, y: i32) -> FontPoint {
    FontPoint { x, y }
}

#[test]
fn no_command_gives_an_empty_outline() {
    let outline = OutlineBuilder::new(1000, quality(5, 3)).into_outline();
    assert_eq!(outline.points().len(), 0);
    assert_eq!(outline.contours().len(), 0);
    assert_eq!(outline.open_chains().len(), 0);
    assert_eq!(outline.font_height(), 1000);
    assert_eq!(outline.grid(), 2 * 25 * 27);
    assert_eq!(outline.denominator(), 1000 * 1350);
}

#[test]
fn lines_are_put_on_the_grid() {
    let mut builder = OutlineBuilder::new(1000, quality(1, 1));
    builder.move_to(0, 0);
    builder.line_to(10, 0);
    builder.line_to(10, -10);
    builder.close();
    let outline = builder.into_outline();
    assert_eq!(outline.grid(), 2);
    assert_eq!(
        outline.points(),
        &vec![Point { x: 0, y: 0 }, Point { x: 20, y: 0 }, Point { x: 20, y: -20 }]
    );
    assert_eq!(outline.contours(), &vec![vec![0, 1, 2]]);
    assert_eq!(outline.open_chains().len(), 0);
}

#[test]
fn the_unit_square_is_one_contour_of_four_points() {
    let mut builder = OutlineBuilder::new(1, quality(1, 1));
    builder.move_to(0, 0);
    builder.line_to(1, 0);
    builder.line_to(1, 1);
    builder.line_to(0, 1);
    builder.close();
    let outline = builder.into_outline();
    // over the denominator two: (0,0), (1,0), (1,1), (0,1)
    assert_eq!(outline.denominator(), 2);
    assert_eq!(
        outline.points(),
        &vec![
            Point { x: 0, y: 0 },
            Point { x: 2, y: 0 },
            Point { x: 2, y: 2 },
            Point { x: 0, y: 2 },
        ]
    );
    assert_eq!(outline.contours(), &vec![vec![0, 1, 2, 3]]);
}

#[test]
fn the_unit_square_with_its_first_point_again_is_the_same() {
    let mut builder = OutlineBuilder::new(1, quality(1, 1));
    builder.move_to(0, 0);
    builder.line_to(1, 0);
    builder.line_to(1, 1);
    builder.line_to(0, 1);
    builder.line_to(0, 0);
    builder.close();
    let outline = builder.into_outline();
    assert_eq!(
        outline.points(),
        &vec![
            Point { x: 0, y: 0 },
            Point { x: 2, y: 0 },
            Point { x: 2, y: 2 },
            Point { x: 0, y: 2 },
        ]
    );
    assert_eq!(outline.contours(), &vec![vec![0, 1, 2, 3]]);
}

#[test]
fn a_point_is_divided_by_the_height_of_the_font() {
    let mut builder = OutlineBuilder::new(2048, quality(1, 1));
    builder.line_to(1024, 512);
    let outline = builder.into_outline();
    assert_eq!(outline.points(), &vec![Point { x: 2048, y: 1024 }]);
    let d = outline.denominator() as f64;
    assert_eq!(outline.points()[0].x as f64 / d, 0.5);
    assert_eq!(outline.points()[0].y as f64 / d, 0.25);
    // nothing was closed
    assert_eq!(outline.contours().len(), 0);
    assert_eq!(outline.open_chains(), &vec![vec![0]]);
}

#[test]
fn close_drops_a_last_point_that_repeats_the_first() {
    let mut builder = OutlineBuilder::new(1000, quality(1, 1));
    builder.move_to(0, 0);
    builder.line_to(10, 0);
    builder.line_to(10, 10);
    builder.line_to(0, 10);
    builder.line_to(0, 0);
    builder.close();
    let outline = builder.into_outline();
    assert_eq!(outline.points().len(), 4);
    assert_eq!(outline.contours(), &vec![vec![0, 1, 2, 3]]);
}

#[test]
fn close_keeps_a_last_point_that_lies_elsewhere() {
    let mut builder = OutlineBuilder::new(1000, quality(1, 1));
    builder.move_to(0, 0);
    builder.line_to(10, 0);
    builder.line_to(10, 10);
    builder.line_to(0, 10);
    builder.close();
    let outline = builder.into_outline();
    assert_eq!(outline.points().len(), 4);
    assert_eq!(outline.contours(), &vec![vec![0, 1, 2, 3]]);
}

#[test]
fn the_second_contour_goes_on_where_the_first_ended() {
    let mut builder = OutlineBuilder::new(1000, quality(1, 1));
    builder.move_to(0, 0);
    builder.line_to(10, 0);
    builder.line_to(10, 10);
    builder.line_to(0, 0);
    builder.close();
    builder.move_to(2, 1);
    builder.line_to(8, 1);
    builder.line_to(8, 7);
    builder.line_to(2, 1);
    builder.close();
    let outline = builder.into_outline();
    assert_eq!(outline.points().len(), 6);
    assert_eq!(outline.contours(), &vec![vec![0, 1, 2], vec![3, 4, 5]]);
    assert_eq!(outline.points()[3], Point { x: 4, y: 2 });
}

#[test]
fn quadratic_curve_is_flattened_on_the_curve() {
    let mut builder = OutlineBuilder::new(1000, quality(2, 1));
    builder.move_to(0, 0);
    builder.quad_to(10, 20, 20, 0);
    let outline = builder.into_outline();
    assert_eq!(outline.grid(), 8);
    assert_eq!(
        outline.points(),
        &vec![Point { x: 0, y: 0 }, Point { x: 80, y: 80 }, Point { x: 160, y: 0 }]
    );
    // the middle point is the curve's point at one half: (10, 10) in font units
    assert_eq!(80.0_f64 / 8.0, 0.25 * 0.0 + 0.5 * 10.0 + 0.25 * 20.0);
    assert_eq!(80.0_f64 / 8.0, 0.5 * 20.0);
}

#[test]
fn every_step_of_a_quadratic_curve_starts_from_the_same_point() {
    let mut builder = OutlineBuilder::new(1000, quality(4, 1));
    builder.move_to(0, 0);
    builder.quad_to(0, 16, 16, 16);
    let outline = builder.into_outline();
    // grid 32, numerators over sixteen times two
    assert_eq!(
        outline.points(),
        &vec![
            Point { x: 0, y: 0 },
            Point { x: 32, y: 224 },
            Point { x: 128, y: 384 },
            Point { x: 288, y: 480 },
            Point { x: 512, y: 512 },
        ]
    );
}

#[test]
fn cubic_curve_is_flattened_on_the_curve() {
    let mut builder = OutlineBuilder::new(1000, quality(1, 2));
    builder.move_to(0, 0);
    builder.curve_to(0, 8, 8, 8, 8, 0);
    let outline = builder.into_outline();
    assert_eq!(outline.grid(), 16);
    assert_eq!(
        outline.points(),
        &vec![Point { x: 0, y: 0 }, Point { x: 64, y: 96 }, Point { x: 128, y: 0 }]
    );
}

#[test]
fn a_line_after_a_curve_starts_at_the_curve_end() {
    let mut builder = OutlineBuilder::new(1000, quality(2, 2));
    builder.move_to(0, 0);
    builder.quad_to(4, 0, 4, 4);
    builder.quad_to(4, 8, 0, 8);
    let outline = builder.into_outline();
    let grid = outline.grid();
    assert_eq!(grid, 2 * 4 * 8);
    assert_eq!(outline.points().len(), 5);
    assert_eq!(outline.points()[2], Point { x: 4 * grid, y: 4 * grid });
    // the middle of the second curve: (3, 7) in font units
    assert_eq!(outline.points()[3], Point { x: 3 * grid, y: 7 * grid });
    assert_eq!(outline.points()[4], Point { x: 0, y: 8 * grid });
}

#[test]
fn a_contour_that_is_not_closed_is_no_contour() {
    let mut builder = OutlineBuilder::new(1000, quality(1, 1));
    builder.move_to(0, 0);
    builder.line_to(10, 0);
    builder.line_to(10, 10);
    let outline = builder.into_outline();
    assert_eq!(outline.points().len(), 3);
    assert_eq!(outline.contours().len(), 0);
    assert_eq!(outline.open_chains(), &vec![vec![0, 1, 2]]);
}

#[test]
fn a_move_leaves_an_open_contour_behind() {
    let mut builder = OutlineBuilder::new(1000, quality(1, 1));
    builder.move_to(0, 0);
    builder.line_to(10, 0);
    builder.move_to(5, 5);
    builder.line_to(6, 5);
    builder.line_to(6, 6);
    builder.close();
    let outline = builder.into_outline();
    assert_eq!(outline.contours(), &vec![vec![2, 3, 4]]);
    assert_eq!(outline.open_chains(), &vec![vec![0, 1]]);
}

#[test]
fn close_without_a_move_records_a_contour_without_points() {
    let mut builder = OutlineBuilder::new(1000, quality(1, 1));
    builder.close();
    let outline = builder.into_outline();
    assert_eq!(outline.points().len(), 0);
    assert_eq!(outline.contours(), &vec![Vec::<usize>::new()]);
    assert_eq!(outline.open_chains().len(), 0);
}

#[test]
fn a_contour_of_one_point_keeps_its_point() {
    let mut builder = OutlineBuilder::new(1000, quality(1, 1));
    builder.move_to(3, 4);
    builder.close();
    let outline = builder.into_outline();
    assert_eq!(outline.points(), &vec![Point { x: 6, y: 8 }]);
    assert_eq!(outline.contours(), &vec![vec![0]]);
}

fn letter() -> Vec<Command> {
    vec![
        Command::MoveTo(at(0, 0)),
        Command::LineTo(at(100, 0)),
        Command::QuadTo(at(150, 50), at(100, 100)),
        Command::CurveTo(at(80, 120), at(20, 120), at(0, 100)),
        Command::LineTo(at(0, 0)),
        Command::Close,
        Command::MoveTo(at(40, 40)),
        Command::QuadTo(at(50, 60), at(60, 40)),
        Command::LineTo(at(40, 40)),
        Command::Close,
    ]
}

#[test]
fn commands_give_what_the_calls_give() {
    let q = quality(3, 2);
    let mut builder = OutlineBuilder::new(900, q);
    builder.move_to(0, 0);
    builder.line_to(100, 0);
    builder.quad_to(150, 50, 100, 100);
    builder.curve_to(80, 120, 20, 120, 0, 100);
    builder.line_to(0, 0);
    builder.close();
    builder.move_to(40, 40);
    builder.quad_to(50, 60, 60, 40);
    builder.line_to(40, 40);
    builder.close();
    assert_eq!(builder.into_outline(), Outline::from_commands(&letter(), 900, q));
}

#[test]
fn building_twice_gives_the_same_outline() {
    let q = quality(5, 3);
    assert_eq!(
        Outline::from_commands(&letter(), 1000, q),
        Outline::from_commands(&letter(), 1000, q)
    );
}

#[test]
fn point_count_is_the_sum_of_the_steps() {
    // two moves, three lines of which two return to a start, two quadratic
    // curves and a cubic one
    let outline = Outline::from_commands(&letter(), 1000, quality(3, 2));
    assert_eq!(outline.points().len(), 2 + 3 - 2 + 2 * 3 + 2);
    assert_eq!(outline.contours().len(), 2);
}

#[test]
fn finer_quality_never_gives_fewer_points() {
    let mut last = 0;
    for steps in 1..8u16 {
        let count = Outline::from_commands(&letter(), 1000, quality(steps, 1)).points().len();
        assert!(count >= last);
        assert_eq!(count, 2 + 1 + 2 * steps as usize + 1);
        last = count;
    }
    let mut last = 0;
    for steps in 1..8u16 {
        let count = Outline::from_commands(&letter(), 1000, quality(2, steps)).points().len();
        assert!(count >= last);
        assert_eq!(count, 2 + 1 + 4 + steps as usize);
        last = count;
    }
}

#[test]
fn finer_quality_makes_up_for_a_dropped_point() {
    // a curve without a move before it: with one step its contour has one
    // point, with two its last point repeats nothing, with a flat curve it does
    let flat = vec![Command::QuadTo(at(0, 0), at(0, 0)), Command::Close];
    let one = Outline::from_commands(&flat, 1000, quality(1, 1));
    let two = Outline::from_commands(&flat, 1000, quality(2, 1));
    let three = Outline::from_commands(&flat, 1000, quality(3, 1));
    assert_eq!(one.points().len(), 1);
    assert_eq!(two.points().len(), 1);
    assert_eq!(three.points().len(), 2);
}

#[test]
fn outline_needs_an_even_grid() {
    assert!(Outline::new(Vec::new(), Vec::new(), Vec::new(), 1000, 0).is_none());
    assert!(Outline::new(Vec::new(), Vec::new(), Vec::new(), 1000, -2).is_none());
    assert!(Outline::new(Vec::new(), Vec::new(), Vec::new(), 1000, 3).is_none());
    assert!(Outline::new(Vec::new(), Vec::new(), Vec::new(), 1000, (1i128 << 81) + 2).is_none());
    let points = vec![Point { x: 1, y: 2 }, Point { x: 3, y: 4 }];
    let outline = Outline::new(points.clone(), vec![vec![0]], vec![vec![1]], -7, 2).unwrap();
    assert_eq!(outline.points(), &points);
    assert_eq!(outline.contours(), &vec![vec![0]]);
    assert_eq!(outline.open_chains(), &vec![vec![1]]);
    assert_eq!(outline.font_height(), -7);
    assert_eq!(outline.grid(), 2);
    assert_eq!(outline.denominator(), -14);
    assert!(Outline::new(Vec::new(), Vec::new(), Vec::new(), 1000, 1i128 << 81).is_some());
}

#[test]
fn contours_name_each_point_once_and_lie_apart() {
    let outline = Outline::from_commands(&letter(), 1000, quality(3, 2));
    let mut seen = vec![false; outline.points().len()];
    for contour in outline.contours() {
        assert!(contour.len() >= 3);
        for (i, index) in contour.iter().enumerate() {
            assert_eq!(*index, contour[0] + i);
            assert!(!seen[*index]);
            seen[*index] = true;
        }
    }
    assert!(seen.iter().all(|s| *s));
}

#[test]
fn quality_needs_steps() {
    assert!(QualitySettings::new(0, 1).is_none());
    assert!(QualitySettings::new(1, 0).is_none());
    assert!(QualitySettings::new(0, 0).is_none());
    let q = QualitySettings::new(7, 9).unwrap();
    assert_eq!(q.quad_interpolation_steps, 7);
    assert_eq!(q.cubic_interpolation_steps, 9);
    assert!(q.is_valid());
    assert!(!QualitySettings { quad_interpolation_steps: 0, cubic_interpolation_steps: 4 }.is_valid());
    assert_eq!(QualitySettings::default(), QualitySettings::new(5, 3).unwrap());
}

#[test]
fn the_largest_inputs_do_not_overflow() {
    let q = quality(u16::MAX, u16::MAX);
    let mut builder = OutlineBuilder::new(i32::MAX, q);
    builder.move_to(i32::MIN, i32::MAX);
    builder.line_to(i32::MAX, i32::MIN);
    let outline = builder.into_outline();
    let n = u16::MAX as i128;
    let grid = 2 * n * n * n * n * n;
    assert_eq!(outline.grid(), grid);
    assert_eq!(
        outline.points(),
        &vec![
            Point { x: i32::MIN as i128 * grid, y: i32::MAX as i128 * grid },
            Point { x: i32::MAX as i128 * grid, y: i32::MIN as i128 * grid },
        ]
    );
    assert_eq!(outline.denominator(), i32::MAX as i128 * grid);
}
