//! What holds of every outline that the builder makes.

use vstd::prelude::*;
use crate::curve::cubic_at;
use crate::curve::lemma_cubic_between;
use crate::curve::lemma_cubic_end;
use crate::curve::lemma_quad_between;
use crate::curve::lemma_quad_end;
use crate::curve::quad_at;
use crate::geometry::Point;
use crate::geometry::Rect;
use crate::outline::cubic_factor_of;
use crate::outline::cubic_point;
use crate::outline::cubic_points;
use crate::outline::grid_of;
use crate::outline::grid_point;
use crate::outline::lemma_grid_bounds;
use crate::outline::quad_factor_of;
use crate::outline::quad_point;
use crate::outline::quad_points;
use crate::outline::Command;
use crate::outline::FontPoint;
use crate::outline::OutlineModel;
use crate::outline::GRID_LIMIT;
use crate::quality::QualitySettings;

verus! {

/// Whether a point in font units lies in a rectangle.
pub open spec fn in_rect(p: FontPoint, rect: Rect) -> bool {
    rect.x_min <= p.x <= rect.x_max && rect.y_min <= p.y <= rect.y_max
}

/// Whether every point that a command names lies in a rectangle.
pub open spec fn command_in_rect(command: Command, rect: Rect) -> bool {
    match command {
        Command::MoveTo(p) => in_rect(p, rect),
        Command::LineTo(p) => in_rect(p, rect),
        Command::QuadTo(p1, p2) => in_rect(p1, rect) && in_rect(p2, rect),
        Command::CurveTo(p1, p2, p3) => in_rect(p1, rect) && in_rect(p2, rect) && in_rect(
            p3,
            rect,
        ),
        Command::Close => true,
    }
}

/// Whether a point on the grid lies in a rectangle of font units.
pub open spec fn on_grid_in_rect(p: Point, rect: Rect, grid: int) -> bool {
    rect.x_min * grid <= p.x <= rect.x_max * grid && rect.y_min * grid <= p.y <= rect.y_max
        * grid
}

/// Whether every point of a list lies in a rectangle of font units.
pub open spec fn all_in_rect(points: Seq<Point>, rect: Rect, grid: int) -> bool {
    forall|i: int| 0 <= i < points.len() ==> on_grid_in_rect(#[trigger] points[i], rect, grid)
}

/// A point in font units is on the grid what it is in font units, times the
/// grid.
pub proof fn lemma_grid_point_exact(p: FontPoint, quality: QualitySettings)
    requires
        quality.valid(),
    ensures
        grid_point(p, quality).x == p.x * grid_of(quality),
        grid_point(p, quality).y == p.y * grid_of(quality),
{
    lemma_grid_bounds(quality);
    let grid = grid_of(quality);
    assert(-0x8000_0000 * GRID_LIMIT <= p.x * grid <= 0x8000_0000 * GRID_LIMIT)
        by (nonlinear_arith)
        requires
            -0x8000_0000 <= p.x <= 0x8000_0000,
            0 < grid <= GRID_LIMIT,
    ;
    assert(-0x8000_0000 * GRID_LIMIT <= p.y * grid <= 0x8000_0000 * GRID_LIMIT)
        by (nonlinear_arith)
        requires
            -0x8000_0000 <= p.y <= 0x8000_0000,
            0 < grid <= GRID_LIMIT,
    ;
}

/// One coordinate of a curve point on the grid: if the control points lie
/// between `low` and `high`, so does the point, and it is the numerator
/// times its factor.
proof fn lemma_scaled_between(
    numerator: int,
    power: int,
    factor: int,
    grid: int,
    low: int,
    high: int,
)
    requires
        power * factor == grid,
        0 < factor,
        0 < grid <= GRID_LIMIT,
        -0x8000_0000 <= low <= high <= 0x8000_0000,
        power * low <= numerator <= power * high,
    ensures
        low * grid <= numerator * factor <= high * grid,
        (numerator * factor) as i128 == numerator * factor,
{
    assert(power * low * factor <= numerator * factor <= power * high * factor)
        by (nonlinear_arith)
        requires
            0 < factor,
            power * low <= numerator <= power * high,
    ;
    assert(power * low * factor == low * grid && power * high * factor == high * grid)
        by (nonlinear_arith)
        requires
            power * factor == grid,
    ;
    assert(-0x8000_0000 * GRID_LIMIT <= low * grid && high * grid <= 0x8000_0000 * GRID_LIMIT)
        by (nonlinear_arith)
        requires
            -0x8000_0000 <= low <= high <= 0x8000_0000,
            0 < grid <= GRID_LIMIT,
    ;
}

/// A point of a flattened quadratic curve lies, on the grid, between the
/// least and the greatest of the curve's control points.
pub proof fn lemma_quad_point_between(
    p0: FontPoint,
    p1: FontPoint,
    p2: FontPoint,
    step: int,
    quality: QualitySettings,
    low: FontPoint,
    high: FontPoint,
)
    requires
        quality.valid(),
        0 <= step <= quality.quad_interpolation_steps,
        low.x <= p0.x <= high.x && low.x <= p1.x <= high.x && low.x <= p2.x <= high.x,
        low.y <= p0.y <= high.y && low.y <= p1.y <= high.y && low.y <= p2.y <= high.y,
    ensures
        ({
            let p = quad_point(p0, p1, p2, step, quality);
            let steps = quality.quad_interpolation_steps as int;
            &&& p.x == quad_at(p0.x as int, p1.x as int, p2.x as int, step, steps)
                * quad_factor_of(quality)
            &&& p.y == quad_at(p0.y as int, p1.y as int, p2.y as int, step, steps)
                * quad_factor_of(quality)
            &&& low.x * grid_of(quality) <= p.x <= high.x * grid_of(quality)
            &&& low.y * grid_of(quality) <= p.y <= high.y * grid_of(quality)
        }),
{
    lemma_grid_bounds(quality);
    let steps = quality.quad_interpolation_steps as int;
    let factor = quad_factor_of(quality);
    let grid = grid_of(quality);
    lemma_quad_between(p0.x as int, p1.x as int, p2.x as int, step, steps, low.x as int, high.x as int);
    lemma_quad_between(p0.y as int, p1.y as int, p2.y as int, step, steps, low.y as int, high.y as int);
    lemma_scaled_between(
        quad_at(p0.x as int, p1.x as int, p2.x as int, step, steps),
        steps * steps,
        factor,
        grid,
        low.x as int,
        high.x as int,
    );
    lemma_scaled_between(
        quad_at(p0.y as int, p1.y as int, p2.y as int, step, steps),
        steps * steps,
        factor,
        grid,
        low.y as int,
        high.y as int,
    );
}

/// A point of a flattened cubic curve lies, on the grid, between the least
/// and the greatest of the curve's control points.
pub proof fn lemma_cubic_point_between(
    p0: FontPoint,
    p1: FontPoint,
    p2: FontPoint,
    p3: FontPoint,
    step: int,
    quality: QualitySettings,
    low: FontPoint,
    high: FontPoint,
)
    requires
        quality.valid(),
        0 <= step <= quality.cubic_interpolation_steps,
        low.x <= p0.x <= high.x && low.x <= p1.x <= high.x && low.x <= p2.x <= high.x && low.x
            <= p3.x <= high.x,
        low.y <= p0.y <= high.y && low.y <= p1.y <= high.y && low.y <= p2.y <= high.y && low.y
            <= p3.y <= high.y,
    ensures
        ({
            let p = cubic_point(p0, p1, p2, p3, step, quality);
            let steps = quality.cubic_interpolation_steps as int;
            &&& p.x == cubic_at(p0.x as int, p1.x as int, p2.x as int, p3.x as int, step, steps)
                * cubic_factor_of(quality)
            &&& p.y == cubic_at(p0.y as int, p1.y as int, p2.y as int, p3.y as int, step, steps)
                * cubic_factor_of(quality)
            &&& low.x * grid_of(quality) <= p.x <= high.x * grid_of(quality)
            &&& low.y * grid_of(quality) <= p.y <= high.y * grid_of(quality)
        }),
{
    lemma_grid_bounds(quality);
    let steps = quality.cubic_interpolation_steps as int;
    let factor = cubic_factor_of(quality);
    let grid = grid_of(quality);
    lemma_cubic_between(
        p0.x as int,
        p1.x as int,
        p2.x as int,
        p3.x as int,
        step,
        steps,
        low.x as int,
        high.x as int,
    );
    lemma_cubic_between(
        p0.y as int,
        p1.y as int,
        p2.y as int,
        p3.y as int,
        step,
        steps,
        low.y as int,
        high.y as int,
    );
    lemma_scaled_between(
        cubic_at(p0.x as int, p1.x as int, p2.x as int, p3.x as int, step, steps),
        steps * steps * steps,
        factor,
        grid,
        low.x as int,
        high.x as int,
    );
    lemma_scaled_between(
        cubic_at(p0.y as int, p1.y as int, p2.y as int, p3.y as int, step, steps),
        steps * steps * steps,
        factor,
        grid,
        low.y as int,
        high.y as int,
    );
}

/// The least corner of a rectangle, as a point in font units.
pub open spec fn low_corner(rect: Rect) -> FontPoint {
    FontPoint { x: rect.x_min as i32, y: rect.y_min as i32 }
}

/// The greatest corner of a rectangle, as a point in font units.
pub open spec fn high_corner(rect: Rect) -> FontPoint {
    FontPoint { x: rect.x_max as i32, y: rect.y_max as i32 }
}

/// Every command keeps the builder well formed, and leaves its settings as
/// they are.
pub proof fn lemma_apply_wf(model: OutlineModel, command: Command)
    requires
        model.wf(),
    ensures
        model.apply(command).wf(),
        model.apply(command).quality == model.quality,
        model.apply(command).font_height == model.font_height,
{
}

/// Every sequence of commands keeps the builder well formed, and leaves its
/// settings as they are.
pub proof fn lemma_apply_all_wf(model: OutlineModel, commands: Seq<Command>)
    requires
        model.wf(),
    ensures
        model.apply_all(commands).wf(),
        model.apply_all(commands).quality == model.quality,
        model.apply_all(commands).font_height == model.font_height,
    decreases commands.len(),
{
    if commands.len() > 0 {
        lemma_apply_all_wf(model, commands.drop_last());
        lemma_apply_wf(model.apply_all(commands.drop_last()), commands.last());
    }
}

/// A command whose points lie in a rectangle leaves the pen and all points
/// in the rectangle, if they were in it.
pub proof fn lemma_apply_in_rect(model: OutlineModel, command: Command, rect: Rect)
    requires
        model.wf(),
        in_rect(model.pen, rect),
        all_in_rect(model.points, rect, grid_of(model.quality)),
        command_in_rect(command, rect),
    ensures
        model.apply(command).quality == model.quality,
        in_rect(model.apply(command).pen, rect),
        all_in_rect(model.apply(command).points, rect, grid_of(model.quality)),
{
    let quality = model.quality;
    let grid = grid_of(quality);
    let after = model.apply(command);
    match command {
        Command::MoveTo(p) => {
            lemma_grid_point_exact(p, quality);
            lemma_in_rect_on_grid(p, rect, quality);
            assert forall|i: int| 0 <= i < after.points.len() implies on_grid_in_rect(
                #[trigger] after.points[i],
                rect,
                grid,
            ) by {
                if i < model.points.len() {
                    assert(after.points[i] == model.points[i]);
                }
            }
        },
        Command::LineTo(p) => {
            lemma_grid_point_exact(p, quality);
            lemma_in_rect_on_grid(p, rect, quality);
            assert forall|i: int| 0 <= i < after.points.len() implies on_grid_in_rect(
                #[trigger] after.points[i],
                rect,
                grid,
            ) by {
                if i < model.points.len() {
                    assert(after.points[i] == model.points[i]);
                }
            }
        },
        Command::QuadTo(p1, p2) => {
            assert forall|i: int| 0 <= i < after.points.len() implies on_grid_in_rect(
                #[trigger] after.points[i],
                rect,
                grid,
            ) by {
                if i < model.points.len() {
                    assert(after.points[i] == model.points[i]);
                } else {
                    let j = i - model.points.len();
                    assert(after.points[i] == quad_points(model.pen, p1, p2, quality)[j]);
                    lemma_quad_point_between(
                        model.pen,
                        p1,
                        p2,
                        j + 1,
                        quality,
                        low_corner(rect),
                        high_corner(rect),
                    );
                }
            }
        },
        Command::CurveTo(p1, p2, p3) => {
            assert forall|i: int| 0 <= i < after.points.len() implies on_grid_in_rect(
                #[trigger] after.points[i],
                rect,
                grid,
            ) by {
                if i < model.points.len() {
                    assert(after.points[i] == model.points[i]);
                } else {
                    let j = i - model.points.len();
                    assert(after.points[i] == cubic_points(model.pen, p1, p2, p3, quality)[j]);
                    lemma_cubic_point_between(
                        model.pen,
                        p1,
                        p2,
                        p3,
                        j + 1,
                        quality,
                        low_corner(rect),
                        high_corner(rect),
                    );
                }
            }
        },
        Command::Close => {
            assert forall|i: int| 0 <= i < after.points.len() implies on_grid_in_rect(
                #[trigger] after.points[i],
                rect,
                grid,
            ) by {
                assert(after.points[i] == model.points[i]);
            }
        },
    }
}

/// A point in a rectangle is in it on the grid too.
proof fn lemma_in_rect_on_grid(p: FontPoint, rect: Rect, quality: QualitySettings)
    requires
        quality.valid(),
        in_rect(p, rect),
    ensures
        on_grid_in_rect(grid_point(p, quality), rect, grid_of(quality)),
{
    lemma_grid_point_exact(p, quality);
    lemma_grid_bounds(quality);
    let grid = grid_of(quality);
    assert(rect.x_min * grid <= p.x * grid <= rect.x_max * grid) by (nonlinear_arith)
        requires
            rect.x_min <= p.x <= rect.x_max,
            0 < grid,
    ;
    assert(rect.y_min * grid <= p.y * grid <= rect.y_max * grid) by (nonlinear_arith)
        requires
            rect.y_min <= p.y <= rect.y_max,
            0 < grid,
    ;
}

/// If a glyph's commands begin with a move and name only points of a
/// rectangle, every point of the outline lies in the rectangle: no step
/// along a curve leaves the span of the curve's control points.
pub proof fn lemma_outline_in_rect(
    commands: Seq<Command>,
    font_height: i32,
    quality: QualitySettings,
    rect: Rect,
)
    requires
        quality.valid(),
        commands.len() > 0 ==> commands[0] is MoveTo,
        forall|i: int| 0 <= i < commands.len() ==> command_in_rect(#[trigger] commands[i], rect),
    ensures
        OutlineModel::start(font_height, quality).apply_all(commands).quality == quality,
        all_in_rect(
            OutlineModel::start(font_height, quality).apply_all(commands).points,
            rect,
            grid_of(quality),
        ),
        commands.len() > 0 ==> in_rect(
            OutlineModel::start(font_height, quality).apply_all(commands).pen,
            rect,
        ),
    decreases commands.len(),
{
    let start = OutlineModel::start(font_height, quality);
    if commands.len() == 0 {
    } else if commands.len() == 1 {
        assert(commands.drop_last().len() == 0);
        assert(start.apply_all(commands.drop_last()) == start);
        let p = commands[0]->MoveTo_0;
        lemma_in_rect_on_grid(p, rect, quality);
        assert(start.apply(commands[0]).points =~= seq![grid_point(p, quality)]);
    } else {
        lemma_outline_in_rect(commands.drop_last(), font_height, quality, rect);
        lemma_apply_all_wf(start, commands.drop_last());
        lemma_apply_in_rect(start.apply_all(commands.drop_last()), commands.last(), rect);
    }
}

/// The point below and to the left of every point in font units.
pub open spec fn least_point() -> FontPoint {
    FontPoint { x: i32::MIN, y: i32::MIN }
}

/// The point above and to the right of every point in font units.
pub open spec fn greatest_point() -> FontPoint {
    FontPoint { x: i32::MAX, y: i32::MAX }
}

/// Whether a point on the grid stands where a point in font units stands.
pub open spec fn stands_at(on_grid: Point, p: FontPoint, quality: QualitySettings) -> bool {
    on_grid.x == p.x * grid_of(quality) && on_grid.y == p.y * grid_of(quality)
}

/// Whether two points on two grids stand in the same place.
pub open spec fn same_place(a: Point, grid_a: int, b: Point, grid_b: int) -> bool {
    a.x * grid_b == b.x * grid_a && a.y * grid_b == b.y * grid_a
}

/// Whether the last point of the contour that is being drawn, if there is
/// one, stands where the pen is.
pub open spec fn pen_on_last(model: OutlineModel) -> bool {
    model.current.len() > 0 ==> stands_at(model.points.last(), model.pen, model.quality)
}

/// The last point of a flattened quadratic curve is the curve's end.
pub proof fn lemma_quad_reaches_end(
    p0: FontPoint,
    p1: FontPoint,
    p2: FontPoint,
    quality: QualitySettings,
)
    requires
        quality.valid(),
    ensures
        stands_at(quad_points(p0, p1, p2, quality).last(), p2, quality),
{
    let n = quality.quad_interpolation_steps as int;
    lemma_grid_bounds(quality);
    lemma_quad_point_between(p0, p1, p2, n, quality, least_point(), greatest_point());
    lemma_quad_end(p0.x as int, p1.x as int, p2.x as int, n);
    lemma_quad_end(p0.y as int, p1.y as int, p2.y as int, n);
    let f = quad_factor_of(quality);
    let g = grid_of(quality);
    assert(n * n * p2.x * f == p2.x * g) by (nonlinear_arith)
        requires
            n * n * f == g,
    ;
    assert(n * n * p2.y * f == p2.y * g) by (nonlinear_arith)
        requires
            n * n * f == g,
    ;
}

/// The last point of a flattened cubic curve is the curve's end.
pub proof fn lemma_cubic_reaches_end(
    p0: FontPoint,
    p1: FontPoint,
    p2: FontPoint,
    p3: FontPoint,
    quality: QualitySettings,
)
    requires
        quality.valid(),
    ensures
        stands_at(cubic_points(p0, p1, p2, p3, quality).last(), p3, quality),
{
    let n = quality.cubic_interpolation_steps as int;
    lemma_grid_bounds(quality);
    lemma_cubic_point_between(p0, p1, p2, p3, n, quality, least_point(), greatest_point());
    lemma_cubic_end(p0.x as int, p1.x as int, p2.x as int, p3.x as int, n);
    lemma_cubic_end(p0.y as int, p1.y as int, p2.y as int, p3.y as int, n);
    let f = cubic_factor_of(quality);
    let g = grid_of(quality);
    assert(n * n * n * p3.x * f == p3.x * g) by (nonlinear_arith)
        requires
            n * n * n * f == g,
    ;
    assert(n * n * n * p3.y * f == p3.y * g) by (nonlinear_arith)
        requires
            n * n * n * f == g,
    ;
}

/// After every command the last point of the contour that is being drawn
/// stands where the pen is.
pub proof fn lemma_apply_pen_on_last(model: OutlineModel, command: Command)
    requires
        model.wf(),
        pen_on_last(model),
    ensures
        pen_on_last(model.apply(command)),
{
    let quality = model.quality;
    match command {
        Command::MoveTo(p) => {
            lemma_grid_point_exact(p, quality);
        },
        Command::LineTo(p) => {
            lemma_grid_point_exact(p, quality);
        },
        Command::QuadTo(p1, p2) => {
            lemma_quad_reaches_end(model.pen, p1, p2, quality);
            assert(model.apply(command).points.last() == quad_points(
                model.pen,
                p1,
                p2,
                quality,
            ).last());
        },
        Command::CurveTo(p1, p2, p3) => {
            lemma_cubic_reaches_end(model.pen, p1, p2, p3, quality);
            assert(model.apply(command).points.last() == cubic_points(
                model.pen,
                p1,
                p2,
                p3,
                quality,
            ).last());
        },
        Command::Close => {},
    }
}

/// Whether `fine` flattens every curve in at least as many steps as
/// `coarse`.
pub open spec fn at_least_as_fine(fine: QualitySettings, coarse: QualitySettings) -> bool {
    &&& coarse.quad_interpolation_steps <= fine.quad_interpolation_steps
    &&& coarse.cubic_interpolation_steps <= fine.cubic_interpolation_steps
}

/// The first point of the contour that is being drawn.
pub open spec fn first_of_current(model: OutlineModel) -> Point {
    model.points[model.points.len() - model.current.len()]
}

/// How many points lie in contours that are done.
pub open spec fn settled(model: OutlineModel) -> int {
    model.points.len() - model.current.len()
}

/// What holds of two builders that have taken the same commands, the second
/// with a quality at least as fine as the first: the second has at least as
/// many points, among the contours that are done and in the contour that is
/// being drawn, and where the two contours are of one length, they begin in
/// the same place.
pub open spec fn keeps_up(coarse: OutlineModel, fine: OutlineModel) -> bool {
    &&& coarse.wf() && fine.wf()
    &&& pen_on_last(coarse) && pen_on_last(fine)
    &&& coarse.pen == fine.pen
    &&& at_least_as_fine(fine.quality, coarse.quality)
    &&& coarse.current.len() <= fine.current.len()
    &&& coarse.current.len() == 0 <==> fine.current.len() == 0
    &&& settled(coarse) <= settled(fine)
    &&& coarse.current.len() == fine.current.len() && coarse.current.len() > 0 ==> same_place(
        first_of_current(coarse),
        grid_of(coarse.quality),
        first_of_current(fine),
        grid_of(fine.quality),
    )
}

/// A point in font units stands in the same place on every grid.
proof fn lemma_grid_points_same_place(p: FontPoint, a: QualitySettings, b: QualitySettings)
    requires
        a.valid(),
        b.valid(),
    ensures
        same_place(grid_point(p, a), grid_of(a), grid_point(p, b), grid_of(b)),
{
    lemma_grid_point_exact(p, a);
    lemma_grid_point_exact(p, b);
    let ga = grid_of(a);
    let gb = grid_of(b);
    assert(p.x * ga * gb == p.x * gb * ga) by (nonlinear_arith);
    assert(p.y * ga * gb == p.y * gb * ga) by (nonlinear_arith);
}

/// A numerator over one power stands in the same place on two grids.
proof fn lemma_scaled_same_place(
    numerator: int,
    power: int,
    factor_a: int,
    grid_a: int,
    factor_b: int,
    grid_b: int,
)
    requires
        power * factor_a == grid_a,
        power * factor_b == grid_b,
    ensures
        numerator * factor_a * grid_b == numerator * factor_b * grid_a,
{
    assert(numerator * factor_a * (power * factor_b) == numerator * factor_b * (power
        * factor_a)) by (nonlinear_arith);
}

/// Of two points on two grids that stand in the same place: where the
/// second stands where the pen is, so does the first.
proof fn lemma_same_place_as_pen(
    first_a: Point,
    first_b: Point,
    pen: FontPoint,
    a: QualitySettings,
    b: QualitySettings,
)
    requires
        a.valid(),
        b.valid(),
        same_place(first_a, grid_of(a), first_b, grid_of(b)),
    ensures
        stands_at(first_b, pen, b) ==> stands_at(first_a, pen, a),
{
    lemma_grid_bounds(a);
    lemma_grid_bounds(b);
    let ga = grid_of(a);
    let gb = grid_of(b);
    if stands_at(first_b, pen, b) {
        assert(first_a.x == pen.x * ga) by (nonlinear_arith)
            requires
                first_a.x * gb == first_b.x * ga,
                first_b.x == pen.x * gb,
                gb > 0,
        ;
        assert(first_a.y == pen.y * ga) by (nonlinear_arith)
            requires
                first_a.y * gb == first_b.y * ga,
                first_b.y == pen.y * gb,
                gb > 0,
        ;
    }
}

/// One more command leaves the finer builder ahead.
pub proof fn lemma_apply_keeps_up(coarse: OutlineModel, fine: OutlineModel, command: Command)
    requires
        keeps_up(coarse, fine),
    ensures
        keeps_up(coarse.apply(command), fine.apply(command)),
{
    let a = coarse;
    let b = fine;
    let a2 = coarse.apply(command);
    let b2 = fine.apply(command);
    lemma_apply_wf(a, command);
    lemma_apply_wf(b, command);
    lemma_apply_pen_on_last(a, command);
    lemma_apply_pen_on_last(b, command);
    lemma_grid_bounds(a.quality);
    lemma_grid_bounds(b.quality);
    match command {
        Command::MoveTo(p) => {
            lemma_grid_points_same_place(p, a.quality, b.quality);
            assert(first_of_current(a2) == grid_point(p, a.quality));
            assert(first_of_current(b2) == grid_point(p, b.quality));
        },
        Command::LineTo(p) => {
            lemma_grid_points_same_place(p, a.quality, b.quality);
            if a.current.len() == 0 {
                assert(first_of_current(a2) == grid_point(p, a.quality));
                assert(first_of_current(b2) == grid_point(p, b.quality));
            } else {
                assert(first_of_current(a2) == first_of_current(a));
                assert(first_of_current(b2) == first_of_current(b));
            }
        },
        Command::QuadTo(p1, p2) => {
            if a2.current.len() == b2.current.len() {
                let n = a.quality.quad_interpolation_steps as int;
                assert(n == b.quality.quad_interpolation_steps);
                if a.current.len() == 0 {
                    let fa = quad_point(a.pen, p1, p2, 1, a.quality);
                    let fb = quad_point(a.pen, p1, p2, 1, b.quality);
                    assert(first_of_current(a2) == quad_points(a.pen, p1, p2, a.quality)[0]);
                    assert(first_of_current(b2) == quad_points(b.pen, p1, p2, b.quality)[0]);
                    lemma_quad_point_between(
                        a.pen,
                        p1,
                        p2,
                        1,
                        a.quality,
                        least_point(),
                        greatest_point(),
                    );
                    lemma_quad_point_between(
                        a.pen,
                        p1,
                        p2,
                        1,
                        b.quality,
                        least_point(),
                        greatest_point(),
                    );
                    lemma_scaled_same_place(
                        quad_at(a.pen.x as int, p1.x as int, p2.x as int, 1, n),
                        n * n,
                        quad_factor_of(a.quality),
                        grid_of(a.quality),
                        quad_factor_of(b.quality),
                        grid_of(b.quality),
                    );
                    lemma_scaled_same_place(
                        quad_at(a.pen.y as int, p1.y as int, p2.y as int, 1, n),
                        n * n,
                        quad_factor_of(a.quality),
                        grid_of(a.quality),
                        quad_factor_of(b.quality),
                        grid_of(b.quality),
                    );
                } else {
                    assert(first_of_current(a2) == first_of_current(a));
                    assert(first_of_current(b2) == first_of_current(b));
                }
            }
        },
        Command::CurveTo(p1, p2, p3) => {
            if a2.current.len() == b2.current.len() {
                let n = a.quality.cubic_interpolation_steps as int;
                assert(n == b.quality.cubic_interpolation_steps);
                if a.current.len() == 0 {
                    assert(first_of_current(a2) == cubic_points(a.pen, p1, p2, p3, a.quality)[0]);
                    assert(first_of_current(b2) == cubic_points(b.pen, p1, p2, p3, b.quality)[0]);
                    lemma_cubic_point_between(
                        a.pen,
                        p1,
                        p2,
                        p3,
                        1,
                        a.quality,
                        least_point(),
                        greatest_point(),
                    );
                    lemma_cubic_point_between(
                        a.pen,
                        p1,
                        p2,
                        p3,
                        1,
                        b.quality,
                        least_point(),
                        greatest_point(),
                    );
                    lemma_scaled_same_place(
                        cubic_at(a.pen.x as int, p1.x as int, p2.x as int, p3.x as int, 1, n),
                        n * n * n,
                        cubic_factor_of(a.quality),
                        grid_of(a.quality),
                        cubic_factor_of(b.quality),
                        grid_of(b.quality),
                    );
                    lemma_scaled_same_place(
                        cubic_at(a.pen.y as int, p1.y as int, p2.y as int, p3.y as int, 1, n),
                        n * n * n,
                        cubic_factor_of(a.quality),
                        grid_of(a.quality),
                        cubic_factor_of(b.quality),
                        grid_of(b.quality),
                    );
                } else {
                    assert(first_of_current(a2) == first_of_current(a));
                    assert(first_of_current(b2) == first_of_current(b));
                }
            }
        },
        Command::Close => {
            if a.current.len() > 0 {
                assert(a.current[0] == a.points.len() - a.current.len());
                assert(b.current[0] == b.points.len() - b.current.len());
                assert(a.current.last() == a.points.len() - 1);
                assert(b.current.last() == b.points.len() - 1);
                if a.current.len() == b.current.len() && b.ends_where_it_began() {
                    lemma_same_place_as_pen(
                        first_of_current(a),
                        first_of_current(b),
                        a.pen,
                        a.quality,
                        b.quality,
                    );
                    assert(a.ends_where_it_began());
                }
            }
        },
    }
}

/// The same commands leave the finer of two builders ahead.
pub proof fn lemma_apply_all_keeps_up(
    coarse: OutlineModel,
    fine: OutlineModel,
    commands: Seq<Command>,
)
    requires
        keeps_up(coarse, fine),
    ensures
        keeps_up(coarse.apply_all(commands), fine.apply_all(commands)),
    decreases commands.len(),
{
    if commands.len() > 0 {
        lemma_apply_all_keeps_up(coarse, fine, commands.drop_last());
        lemma_apply_keeps_up(
            coarse.apply_all(commands.drop_last()),
            fine.apply_all(commands.drop_last()),
            commands.last(),
        );
    }
}

/// A finer quality never gives fewer points: if every curve is flattened in
/// at least as many steps, the outline of the same commands has at least as
/// many points.
pub proof fn lemma_finer_quality_has_no_fewer_points(
    commands: Seq<Command>,
    font_height: i32,
    coarse: QualitySettings,
    fine: QualitySettings,
)
    requires
        coarse.valid(),
        at_least_as_fine(fine, coarse),
    ensures
        OutlineModel::start(font_height, coarse).apply_all(commands).finish().points.len()
            <= OutlineModel::start(font_height, fine).apply_all(commands).finish().points.len(),
{
    lemma_apply_all_keeps_up(
        OutlineModel::start(font_height, coarse),
        OutlineModel::start(font_height, fine),
        commands,
    );
}


/// Whether a chain of indices counts up from `start`, one by one.
pub open spec fn counts_up(chain: Seq<int>, start: int) -> bool {
    forall|i: int| 0 <= i < chain.len() ==> chain[i] == start + i
}

/// Whether a chain is as the builder makes them: it names points that
/// follow one another, each once and all below `count`.
pub open spec fn is_built_chain(chain: Seq<int>, count: int) -> bool {
    chain.len() > 0 ==> {
        &&& 0 <= chain[0]
        &&& chain[0] + chain.len() <= count
        &&& counts_up(chain, chain[0])
    }
}

/// Whether every chain of a list is as the builder makes them.
pub open spec fn chains_are_built(chains: Seq<Seq<int>>, count: int) -> bool {
    forall|k: int| 0 <= k < chains.len() ==> is_built_chain(#[trigger] chains[k], count)
}

/// Whether the chains of a list lie apart: each one names only points
/// behind those of the chains before it.
pub open spec fn chains_lie_apart(chains: Seq<Seq<int>>) -> bool {
    forall|k: int, l: int|
        0 <= k < l < chains.len() && (#[trigger] chains[k]).len() > 0 && (#[trigger] chains[l]).len()
            > 0 ==> chains[k][0] + chains[k].len() <= chains[l][0]
}

/// Whether the contours that are done and the chains that were left open
/// are as the builder makes them, over the points that lie in them.
pub open spec fn contours_are_built(model: OutlineModel) -> bool {
    &&& chains_are_built(model.contours, settled(model))
    &&& chains_are_built(model.open, settled(model))
    &&& chains_lie_apart(model.contours)
}

/// Chains over fewer points are chains over more.
proof fn lemma_built_chains_grow(chains: Seq<Seq<int>>, count: int, more: int)
    requires
        chains_are_built(chains, count),
        count <= more,
    ensures
        chains_are_built(chains, more),
{
    assert forall|k: int| 0 <= k < chains.len() implies is_built_chain(
        #[trigger] chains[k],
        more,
    ) by {
        assert(is_built_chain(chains[k], count));
    }
}

/// One more chain behind chains that are as the builder makes them, which
/// begins where their points end.
proof fn lemma_built_chains_push(chains: Seq<Seq<int>>, chain: Seq<int>, count: int, more: int)
    requires
        chains_are_built(chains, count),
        chains_lie_apart(chains),
        count <= more,
        is_built_chain(chain, more),
        chain.len() > 0 ==> count <= chain[0],
    ensures
        chains_are_built(chains.push(chain), more),
        chains_lie_apart(chains.push(chain)),
{
    let all = chains.push(chain);
    assert forall|k: int| 0 <= k < all.len() implies is_built_chain(#[trigger] all[k], more) by {
        if k < chains.len() {
            assert(all[k] == chains[k]);
            assert(is_built_chain(chains[k], count));
        }
    }
    assert forall|k: int, l: int|
        0 <= k < l < all.len() && (#[trigger] all[k]).len() > 0 && (#[trigger] all[l]).len()
            > 0 implies all[k][0] + all[k].len() <= all[l][0] by {
        assert(all[k] == chains[k]);
        assert(is_built_chain(chains[k], count));
        if l < chains.len() {
            assert(all[l] == chains[l]);
        }
    }
}

/// One more command leaves the contours and the open chains as the builder
/// makes them.
pub proof fn lemma_apply_builds_contours(model: OutlineModel, command: Command)
    requires
        model.wf(),
        contours_are_built(model),
    ensures
        contours_are_built(model.apply(command)),
{
    let after = model.apply(command);
    lemma_apply_wf(model, command);
    match command {
        Command::MoveTo(p) => {
            if model.current.len() > 0 {
                lemma_built_chains_grow(model.contours, settled(model), settled(after));
                assert(chains_are_built(model.open.push(model.current), settled(after))) by {
                    let all = model.open.push(model.current);
                    assert forall|k: int| 0 <= k < all.len() implies is_built_chain(
                        #[trigger] all[k],
                        settled(after),
                    ) by {
                        if k < model.open.len() {
                            assert(all[k] == model.open[k]);
                            assert(is_built_chain(model.open[k], settled(model)));
                        }
                    }
                }
            }
        },
        Command::Close => {
            let chain = if model.current.len() > 0 && model.ends_where_it_began() {
                model.current.drop_last()
            } else {
                model.current
            };
            lemma_built_chains_grow(model.open, settled(model), settled(after));
            lemma_built_chains_push(model.contours, chain, settled(model), settled(after));
        },
        _ => {},
    }
}

/// Every contour of an outline that the builder makes names points of the
/// outline that follow one another, each once, so that no contour names a
/// point twice or a point that the outline does not have; and the contours
/// lie apart, so that no two of them name the same point. The same holds of
/// the chains that were left open.
pub proof fn lemma_contours_are_built(
    commands: Seq<Command>,
    font_height: i32,
    quality: QualitySettings,
)
    requires
        quality.valid(),
    ensures
        contours_are_built(OutlineModel::start(font_height, quality).apply_all(commands)),
        ({
            let outline = OutlineModel::start(font_height, quality).apply_all(commands).finish();
            &&& chains_are_built(outline.contours, outline.points.len() as int)
            &&& chains_are_built(outline.open, outline.points.len() as int)
            &&& chains_lie_apart(outline.contours)
        }),
    decreases commands.len(),
{
    let start = OutlineModel::start(font_height, quality);
    let model = start.apply_all(commands);
    lemma_apply_all_wf(start, commands);
    if commands.len() > 0 {
        lemma_contours_are_built(commands.drop_last(), font_height, quality);
        lemma_apply_all_wf(start, commands.drop_last());
        lemma_apply_builds_contours(start.apply_all(commands.drop_last()), commands.last());
    }
    let outline = model.finish();
    let count = outline.points.len() as int;
    lemma_built_chains_grow(model.contours, settled(model), count);
    assert forall|k: int| 0 <= k < outline.open.len() implies is_built_chain(
        #[trigger] outline.open[k],
        count,
    ) by {
        if k < model.open.len() {
            assert(outline.open[k] == model.open[k]);
            assert(is_built_chain(model.open[k], settled(model)));
        }
    }
}

/// What `close` adds to the contours: the chain that was being drawn,
/// without a last point that repeats the first. So a contour of three or
/// more points that do not repeat is put among the contours as it was
/// drawn.
pub proof fn lemma_close_seals_the_chain(model: OutlineModel)
    requires
        model.wf(),
    ensures
        model.close().contours.len() == model.contours.len() + 1,
        model.close().contours.last() == if model.ends_where_it_began() {
            model.current.drop_last()
        } else {
            model.current
        },
        model.close().current.len() == 0,
        model.close().open == model.open,
        forall|k: int|
            0 <= k < model.contours.len() ==> model.close().contours[k] == model.contours[k],
{
}

} // verus!
