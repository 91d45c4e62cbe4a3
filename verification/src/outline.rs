//! Outlines, and the builder that flattens drawing commands into them.
//!
//! A glyph arrives as drawing commands in whole font units. The builder
//! keeps one point for each end of a line and one for each step along a
//! curve, and gathers the points of each loop into a contour. A contour
//! names each of its points once; its last point is joined to its first,
//! and that closing edge is not stored.
//!
//! A point of an outline is a pair of numerators over the outline's
//! denominator, which is the font's height times the grid: the number of
//! grid steps that make one font unit. The grid is twice the square of the
//! steps of a quadratic curve times the cube of the steps of a cubic one, so
//! that every curve point, and half a unit of depth, is a whole number.

use vstd::prelude::*;
use crate::curve::cubic_at;
use crate::curve::lemma_cubic_between;
use crate::curve::lemma_quad_between;
use crate::curve::point_on_cubic;
use crate::curve::point_on_quad;
use crate::curve::quad_at;
use crate::geometry::Point;
use crate::quality::QualitySettings;

verus! {

/// The largest grid of an outline.
pub const GRID_LIMIT: i128 = 0x2_0000_0000_0000_0000_0000;

/// A point in whole font units.
#[derive(Clone, Copy, Debug, PartialEq, Eq, Structural)]
pub struct FontPoint {
    pub x: i32,
    pub y: i32,
}

/// One drawing command of a glyph's outline.
#[derive(Clone, Copy, Debug, PartialEq, Eq, Structural)]
pub enum Command {
    /// Starts a new contour at a point.
    MoveTo(FontPoint),
    /// Draws a line to a point.
    LineTo(FontPoint),
    /// Draws a quadratic curve past a control point to an end point.
    QuadTo(FontPoint, FontPoint),
    /// Draws a cubic curve past two control points to an end point.
    CurveTo(FontPoint, FontPoint, FontPoint),
    /// Ends the current contour.
    Close,
}

/// The grid of the outlines that are flattened with `quality`.
pub open spec fn grid_of(quality: QualitySettings) -> int {
    2 * (quality.quad_interpolation_steps * quality.quad_interpolation_steps) * (
    quality.cubic_interpolation_steps * quality.cubic_interpolation_steps
        * quality.cubic_interpolation_steps)
}

/// What a numerator over the square of the quadratic steps is multiplied by
/// on the grid.
pub open spec fn quad_factor_of(quality: QualitySettings) -> int {
    2 * (quality.cubic_interpolation_steps * quality.cubic_interpolation_steps
        * quality.cubic_interpolation_steps)
}

/// What a numerator over the cube of the cubic steps is multiplied by on the
/// grid.
pub open spec fn cubic_factor_of(quality: QualitySettings) -> int {
    2 * (quality.quad_interpolation_steps * quality.quad_interpolation_steps)
}

/// A point in font units, on the grid.
pub open spec fn grid_point(p: FontPoint, quality: QualitySettings) -> Point {
    Point { x: (p.x * grid_of(quality)) as i128, y: (p.y * grid_of(quality)) as i128 }
}

/// The point at the parameter `step / steps` on a quadratic curve, on the
/// grid, where `steps` is the number of steps of a quadratic curve.
pub open spec fn quad_point(
    p0: FontPoint,
    p1: FontPoint,
    p2: FontPoint,
    step: int,
    quality: QualitySettings,
) -> Point {
    let steps = quality.quad_interpolation_steps as int;
    Point {
        x: (quad_at(p0.x as int, p1.x as int, p2.x as int, step, steps) * quad_factor_of(
            quality,
        )) as i128,
        y: (quad_at(p0.y as int, p1.y as int, p2.y as int, step, steps) * quad_factor_of(
            quality,
        )) as i128,
    }
}

/// The point at the parameter `step / steps` on a cubic curve, on the grid,
/// where `steps` is the number of steps of a cubic curve.
pub open spec fn cubic_point(
    p0: FontPoint,
    p1: FontPoint,
    p2: FontPoint,
    p3: FontPoint,
    step: int,
    quality: QualitySettings,
) -> Point {
    let steps = quality.cubic_interpolation_steps as int;
    Point {
        x: (cubic_at(p0.x as int, p1.x as int, p2.x as int, p3.x as int, step, steps)
            * cubic_factor_of(quality)) as i128,
        y: (cubic_at(p0.y as int, p1.y as int, p2.y as int, p3.y as int, step, steps)
            * cubic_factor_of(quality)) as i128,
    }
}

/// The points that stand for a quadratic curve: one for each step from the
/// first to the last. The start of the curve is not among them.
pub open spec fn quad_points(
    p0: FontPoint,
    p1: FontPoint,
    p2: FontPoint,
    quality: QualitySettings,
) -> Seq<Point> {
    Seq::new(
        quality.quad_interpolation_steps as nat,
        |i: int| quad_point(p0, p1, p2, i + 1, quality),
    )
}

/// The points that stand for a cubic curve: one for each step from the first
/// to the last. The start of the curve is not among them.
pub open spec fn cubic_points(
    p0: FontPoint,
    p1: FontPoint,
    p2: FontPoint,
    p3: FontPoint,
    quality: QualitySettings,
) -> Seq<Point> {
    Seq::new(
        quality.cubic_interpolation_steps as nat,
        |i: int| cubic_point(p0, p1, p2, p3, i + 1, quality),
    )
}

/// What an outline builder holds.
pub struct OutlineModel {
    /// The quality that curves are flattened with.
    pub quality: QualitySettings,
    /// The font's height, in font units.
    pub font_height: i32,
    /// All points so far, on the grid.
    pub points: Seq<Point>,
    /// The contours that are done: the closed loops.
    pub contours: Seq<Seq<int>>,
    /// The chains that were left behind without being closed.
    pub open: Seq<Seq<int>>,
    /// The indices of the points of the contour that is being drawn.
    pub current: Seq<int>,
    /// Where the last command ended, in font units.
    pub pen: FontPoint,
}

impl OutlineModel {
    /// A builder that has taken no command.
    pub open spec fn start(font_height: i32, quality: QualitySettings) -> OutlineModel {
        OutlineModel {
            quality,
            font_height,
            points: Seq::empty(),
            contours: Seq::empty(),
            open: Seq::empty(),
            current: Seq::empty(),
            pen: FontPoint { x: 0, y: 0 },
        }
    }

    /// The contour that is being drawn holds the last points, in their order.
    pub open spec fn wf(self) -> bool {
        &&& self.quality.valid()
        &&& self.current.len() <= self.points.len()
        &&& forall|i: int|
            0 <= i < self.current.len() ==> self.current[i] == self.points.len()
                - self.current.len() + i
    }

    /// Adds points to the contour that is being drawn, and moves the pen.
    pub open spec fn add(self, points: Seq<Point>, pen: FontPoint) -> OutlineModel {
        OutlineModel {
            points: self.points + points,
            current: self.current + Seq::new(points.len(), |i: int| self.points.len() + i),
            pen,
            ..self
        }
    }

    /// Puts the contour that is being drawn, if it has a point, among the
    /// chains that were left open. It is no contour of the outline.
    pub open spec fn flush(self) -> OutlineModel {
        if self.current.len() == 0 {
            self
        } else {
            OutlineModel { open: self.open.push(self.current), current: Seq::empty(), ..self }
        }
    }

    /// Starts a new contour at `p`. A contour that was being drawn is left
    /// open.
    pub open spec fn move_to(self, p: FontPoint) -> OutlineModel {
        self.flush().add(seq![grid_point(p, self.quality)], p)
    }

    /// Adds `p` to the contour that is being drawn.
    pub open spec fn line_to(self, p: FontPoint) -> OutlineModel {
        self.add(seq![grid_point(p, self.quality)], p)
    }

    /// Adds the points of the quadratic curve from the pen past `p1` to `p2`.
    pub open spec fn quad_to(self, p1: FontPoint, p2: FontPoint) -> OutlineModel {
        self.add(quad_points(self.pen, p1, p2, self.quality), p2)
    }

    /// Adds the points of the cubic curve from the pen past `p1` and `p2` to
    /// `p3`.
    pub open spec fn curve_to(self, p1: FontPoint, p2: FontPoint, p3: FontPoint) -> OutlineModel {
        self.add(cubic_points(self.pen, p1, p2, p3, self.quality), p3)
    }

    /// Whether the contour that is being drawn ends in a second point that
    /// lies where its first point lies.
    pub open spec fn ends_where_it_began(self) -> bool {
        &&& self.current.len() >= 2
        &&& self.points[self.current.last()] == self.points[self.current[0]]
    }

    /// Ends the contour that is being drawn. A last point that lies where
    /// the first one lies is dropped. The chain is then put among the
    /// contours as it is: each of its points once, the edge from the last to
    /// the first left unsaid. Where nothing was being drawn, a contour
    /// without a point is put among the contours.
    pub open spec fn close(self) -> OutlineModel {
        if self.current.len() == 0 {
            OutlineModel { contours: self.contours.push(Seq::empty()), ..self }
        } else if self.ends_where_it_began() {
            OutlineModel {
                points: self.points.drop_last(),
                contours: self.contours.push(self.current.drop_last()),
                current: Seq::empty(),
                ..self
            }
        } else {
            OutlineModel {
                contours: self.contours.push(self.current),
                current: Seq::empty(),
                ..self
            }
        }
    }

    /// What one command makes of the builder.
    pub open spec fn apply(self, command: Command) -> OutlineModel {
        match command {
            Command::MoveTo(p) => self.move_to(p),
            Command::LineTo(p) => self.line_to(p),
            Command::QuadTo(p1, p2) => self.quad_to(p1, p2),
            Command::CurveTo(p1, p2, p3) => self.curve_to(p1, p2, p3),
            Command::Close => self.close(),
        }
    }

    /// What a sequence of commands makes of the builder.
    pub open spec fn apply_all(self, commands: Seq<Command>) -> OutlineModel
        decreases commands.len(),
    {
        if commands.len() == 0 {
            self
        } else {
            self.apply_all(commands.drop_last()).apply(commands.last())
        }
    }

    /// The outline that the builder gives. A contour that was still being
    /// drawn is among the chains that were left open, not among the
    /// contours.
    pub open spec fn finish(self) -> OutlineView {
        OutlineView {
            points: self.points,
            contours: self.contours,
            open: self.flush().open,
            font_height: self.font_height as int,
            grid: grid_of(self.quality),
        }
    }
}

/// What an outline holds.
pub struct OutlineView {
    /// The points, as numerators over the font's height times the grid.
    pub points: Seq<Point>,
    /// The contours: closed loops of indices into the points. The edge
    /// from the last index of a contour to its first is not stored.
    pub contours: Seq<Seq<int>>,
    /// The chains of indices that were drawn and not closed.
    pub open: Seq<Seq<int>>,
    /// The font's height, in font units.
    pub font_height: int,
    /// The number of grid steps that make one font unit.
    pub grid: int,
}

/// The indices of a contour as numbers.
pub open spec fn indices_view(indices: Seq<usize>) -> Seq<int> {
    Seq::new(indices.len(), |i: int| indices[i] as int)
}

/// The contours of an outline as sequences of numbers.
pub open spec fn contours_view(contours: Seq<Vec<usize>>) -> Seq<Seq<int>> {
    Seq::new(contours.len(), |i: int| indices_view(contours[i]@))
}

/// The outline of a glyph: a point list and the contours over it.
#[derive(Debug, PartialEq, Eq)]
pub struct Outline {
    /// The indices that form contours of points.
    contours: Vec<Vec<usize>>,
    /// The indices of the chains that were drawn and not closed.
    open_chains: Vec<Vec<usize>>,
    /// A point cloud that contains one or more contours.
    points: Vec<Point>,
    /// The font's height, in font units.
    font_height: i32,
    /// The number of grid steps that make one font unit.
    grid: i128,
}

impl View for Outline {
    type V = OutlineView;

    closed spec fn view(&self) -> OutlineView {
        OutlineView {
            points: self.points@,
            contours: contours_view(self.contours@),
            open: contours_view(self.open_chains@),
            font_height: self.font_height as int,
            grid: self.grid as int,
        }
    }
}

impl OutlineView {
    /// The grid is even, at least two and at most the limit.
    pub open spec fn wf(self) -> bool {
        0 < self.grid <= GRID_LIMIT && self.grid % 2 == 0
    }
}

impl Outline {
    #[verifier::type_invariant]
    closed spec fn inv(&self) -> bool {
        self@.wf()
    }

    /// Creates an outline from its parts, unless the grid is odd, less than
    /// two or above the limit. `contours` are the closed loops, and
    /// `open_chains` the chains that were drawn and not closed.
    pub fn new(
        points: Vec<Point>,
        contours: Vec<Vec<usize>>,
        open_chains: Vec<Vec<usize>>,
        font_height: i32,
        grid: i128,
    ) -> (outline: Option<Outline>)
        ensures
            outline is Some <==> 0 < grid <= GRID_LIMIT && grid % 2 == 0,
            outline matches Some(o) ==> o@ == (OutlineView {
                points: points@,
                contours: contours_view(contours@),
                open: contours_view(open_chains@),
                font_height: font_height as int,
                grid: grid as int,
            }),
    {
        if 0 < grid && grid <= GRID_LIMIT && grid % 2 == 0 {
            Some(Outline { contours, open_chains, points, font_height, grid })
        } else {
            None
        }
    }

    /// The points of the outline.
    pub fn points(&self) -> (points: &Vec<Point>)
        ensures
            points@ == self@.points,
    {
        &self.points
    }

    /// The contours of the outline.
    pub fn contours(&self) -> (contours: &Vec<Vec<usize>>)
        ensures
            contours_view(contours@) == self@.contours,
    {
        &self.contours
    }

    /// The chains of the outline that were drawn and not closed.
    pub fn open_chains(&self) -> (chains: &Vec<Vec<usize>>)
        ensures
            contours_view(chains@) == self@.open,
    {
        &self.open_chains
    }

    /// The font's height, in font units.
    pub fn font_height(&self) -> (font_height: i32)
        ensures
            font_height == self@.font_height,
    {
        self.font_height
    }

    /// The number of grid steps that make one font unit.
    pub fn grid(&self) -> (grid: i128)
        ensures
            grid == self@.grid,
            self@.wf(),
    {
        proof {
            use_type_invariant(self);
        }
        self.grid
    }

    /// What the coordinates of the points are divided by: the font's height
    /// times the grid.
    pub fn denominator(&self) -> (denominator: i128)
        ensures
            denominator == self@.font_height * self@.grid,
    {
        proof {
            use_type_invariant(self);
        }
        assert(-0x8000_0000 * GRID_LIMIT <= self.font_height * self.grid <= 0x8000_0000
            * GRID_LIMIT) by (nonlinear_arith)
            requires
                -0x8000_0000 <= self.font_height <= 0x8000_0000,
                0 < self.grid <= GRID_LIMIT,
        ;
        self.font_height as i128 * self.grid
    }
}

/// The grid and the two factors are positive and below their limits, and
/// each factor makes the grid out of its own denominator.
pub proof fn lemma_grid_bounds(quality: QualitySettings)
    requires
        quality.valid(),
    ensures
        2 <= grid_of(quality) <= GRID_LIMIT,
        grid_of(quality) % 2 == 0,
        2 <= quad_factor_of(quality) <= 0x2_0000_0000_0000,
        2 <= cubic_factor_of(quality) <= 0x2_0000_0000,
        quality.quad_interpolation_steps * quality.quad_interpolation_steps * quad_factor_of(
            quality,
        ) == grid_of(quality),
        quality.cubic_interpolation_steps * quality.cubic_interpolation_steps
            * quality.cubic_interpolation_steps * cubic_factor_of(quality) == grid_of(quality),
{
    let q = quality.quad_interpolation_steps as int;
    let c = quality.cubic_interpolation_steps as int;
    let qq = q * q;
    let cc = c * c;
    let ccc = c * c * c;
    assert(1 <= qq <= 0x1_0000_0000) by (nonlinear_arith)
        requires
            1 <= q <= 0xffff,
            qq == q * q,
    ;
    assert(1 <= cc <= 0x1_0000_0000) by (nonlinear_arith)
        requires
            1 <= c <= 0xffff,
            cc == c * c,
    ;
    assert(1 <= ccc <= 0x1_0000_0000_0000) by (nonlinear_arith)
        requires
            1 <= c <= 0xffff,
            1 <= cc <= 0x1_0000_0000,
            ccc == cc * c,
    ;
    assert(1 <= qq * ccc <= 0x1_0000_0000_0000_0000_0000) by (nonlinear_arith)
        requires
            1 <= qq <= 0x1_0000_0000,
            1 <= ccc <= 0x1_0000_0000_0000,
    ;
    assert(2 * qq * ccc == 2 * (qq * ccc)) by (nonlinear_arith);
    assert(qq * (2 * ccc) == 2 * (qq * ccc)) by (nonlinear_arith);
    assert(ccc * (2 * qq) == 2 * (qq * ccc)) by (nonlinear_arith);
}

/// One more index behind a contour.
proof fn lemma_indices_push(indices: Seq<usize>, index: usize)
    ensures
        indices_view(indices.push(index)) == indices_view(indices).push(index as int),
{
    assert(indices_view(indices.push(index)) =~= indices_view(indices).push(index as int));
}

/// One index less behind a contour.
proof fn lemma_indices_drop_last(indices: Seq<usize>)
    requires
        indices.len() > 0,
    ensures
        indices_view(indices.drop_last()) == indices_view(indices).drop_last(),
{
    assert(indices_view(indices.drop_last()) =~= indices_view(indices).drop_last());
}

/// One more contour behind the others.
proof fn lemma_contours_push(contours: Seq<Vec<usize>>, chain: Vec<usize>)
    ensures
        contours_view(contours.push(chain)) == contours_view(contours).push(indices_view(chain@)),
{
    assert(contours_view(contours.push(chain)) =~= contours_view(contours).push(
        indices_view(chain@),
    ));
}

/// Builds the outline of one glyph from its drawing commands.
#[derive(Debug)]
pub struct OutlineBuilder {
    font_height: i32,
    quality: QualitySettings,
    grid: i128,
    quad_factor: i128,
    cubic_factor: i128,
    contours: Vec<Vec<usize>>,
    open_chains: Vec<Vec<usize>>,
    current_contour: Vec<usize>,
    points: Vec<Point>,
    current_point: FontPoint,
}

impl View for OutlineBuilder {
    type V = OutlineModel;

    closed spec fn view(&self) -> OutlineModel {
        OutlineModel {
            quality: self.quality,
            font_height: self.font_height,
            points: self.points@,
            contours: contours_view(self.contours@),
            open: contours_view(self.open_chains@),
            current: indices_view(self.current_contour@),
            pen: self.current_point,
        }
    }
}

/// A font point as a point with wide coordinates.
fn widen(p: FontPoint) -> (r: Point)
    ensures
        r.x == p.x,
        r.y == p.y,
{
    Point { x: p.x as i128, y: p.y as i128 }
}

impl OutlineBuilder {
    /// The builder's own numbers agree with its quality, and its model is
    /// well formed.
    pub closed spec fn wf(&self) -> bool {
        &&& self@.wf()
        &&& self.grid == grid_of(self.quality)
        &&& self.quad_factor == quad_factor_of(self.quality)
        &&& self.cubic_factor == cubic_factor_of(self.quality)
    }

    /// Creates a builder for the glyphs of a font of the height
    /// `font_height`, which flattens curves with `quality`.
    pub fn new(font_height: i32, quality: QualitySettings) -> (builder: OutlineBuilder)
        requires
            quality.valid(),
        ensures
            builder.wf(),
            builder@ == OutlineModel::start(font_height, quality),
    {
        let q: i128 = quality.quad_interpolation_steps as i128;
        let c: i128 = quality.cubic_interpolation_steps as i128;
        proof {
            lemma_grid_bounds(quality);
            assert(1 <= q * q <= 0x1_0000_0000) by (nonlinear_arith)
                requires
                    1 <= q <= 0xffff,
            ;
            assert(1 <= c * c <= 0x1_0000_0000) by (nonlinear_arith)
                requires
                    1 <= c <= 0xffff,
            ;
            assert(1 <= c * c * c <= 0x1_0000_0000_0000) by (nonlinear_arith)
                requires
                    1 <= c <= 0xffff,
                    1 <= c * c <= 0x1_0000_0000,
            ;
        }
        let quad_square: i128 = q * q;
        let cubic_cube: i128 = c * c * c;
        let quad_factor: i128 = 2 * cubic_cube;
        let cubic_factor: i128 = 2 * quad_square;
        let grid: i128 = 2 * quad_square * cubic_cube;
        let builder = OutlineBuilder {
            font_height,
            quality,
            grid,
            quad_factor,
            cubic_factor,
            contours: Vec::new(),
            open_chains: Vec::new(),
            current_contour: Vec::new(),
            points: Vec::new(),
            current_point: FontPoint { x: 0, y: 0 },
        };
        proof {
            assert(contours_view(builder.contours@) =~= Seq::<Seq<int>>::empty());
            assert(contours_view(builder.open_chains@) =~= Seq::<Seq<int>>::empty());
            assert(indices_view(builder.current_contour@) =~= Seq::<int>::empty());
        }
        builder
    }

    /// Adds one point, which is already on the grid, to the contour that is
    /// being drawn.
    fn add_point(&mut self, p: Point)
        requires
            old(self).wf(),
        ensures
            final(self).wf(),
            final(self)@ == old(self)@.add(seq![p], old(self)@.pen),
    {
        self.current_contour.push(self.points.len());
        self.points.push(p);
        proof {
            let before = old(self)@;
            let after = before.add(seq![p], before.pen);
            lemma_indices_push(old(self).current_contour@, old(self).points.len());
            assert(self@.points =~= after.points);
            assert(self@.current =~= after.current);
        }
    }

    /// Adds the end of a line segment to the contour that is being drawn.
    fn add_segment(&mut self, x: i32, y: i32)
        requires
            old(self).wf(),
        ensures
            final(self).wf(),
            final(self)@ == old(self)@.line_to(FontPoint { x, y }),
    {
        proof {
            lemma_grid_bounds(self.quality);
        }
        let grid = self.grid;
        assert(-0x8000_0000 * GRID_LIMIT <= x * grid <= 0x8000_0000 * GRID_LIMIT)
            by (nonlinear_arith)
            requires
                -0x8000_0000 <= x <= 0x8000_0000,
                0 < grid <= GRID_LIMIT,
        ;
        assert(-0x8000_0000 * GRID_LIMIT <= y * grid <= 0x8000_0000 * GRID_LIMIT)
            by (nonlinear_arith)
            requires
                -0x8000_0000 <= y <= 0x8000_0000,
                0 < grid <= GRID_LIMIT,
        ;
        self.add_point(Point { x: x as i128 * grid, y: y as i128 * grid });
        self.current_point = FontPoint { x, y };
    }

    /// Puts the contour that is being drawn, if it has a point, among the
    /// chains that were left open.
    fn flush(&mut self)
        requires
            old(self).wf(),
        ensures
            final(self).wf(),
            final(self)@ == old(self)@.flush(),
    {
        if self.current_contour.len() > 0 {
            let mut chain: Vec<usize> = Vec::new();
            std::mem::swap(&mut self.current_contour, &mut chain);
            proof {
                lemma_contours_push(self.open_chains@, chain);
                assert(indices_view(self.current_contour@) =~= Seq::<int>::empty());
            }
            self.open_chains.push(chain);
        }
    }

    /// Starts a new contour at a point, which becomes the contour's first
    /// point. A contour that was being drawn and was not closed is left
    /// open: it is kept apart from the contours of the outline.
    pub fn move_to(&mut self, x: i32, y: i32)
        requires
            old(self).wf(),
        ensures
            final(self).wf(),
            final(self)@ == old(self)@.move_to(FontPoint { x, y }),
    {
        self.flush();
        self.add_segment(x, y);
    }

    /// Appends a point to the current contour.
    pub fn line_to(&mut self, x: i32, y: i32)
        requires
            old(self).wf(),
        ensures
            final(self).wf(),
            final(self)@ == old(self)@.line_to(FontPoint { x, y }),
    {
        self.add_segment(x, y);
    }

    /// Appends a quadratic curve from the current point past the control
    /// point `(x1, y1)` to `(x2, y2)`: one point for each step, each exactly
    /// on the curve. The curve's start is the current point and is not
    /// appended again.
    pub fn quad_to(&mut self, x1: i32, y1: i32, x2: i32, y2: i32)
        requires
            old(self).wf(),
        ensures
            final(self).wf(),
            final(self)@ == old(self)@.quad_to(FontPoint { x: x1, y: y1 }, FontPoint { x: x2, y: y2 }),
    {
        let start = self.current_point;
        let steps = self.quality.quad_interpolation_steps;
        let factor = self.quad_factor;
        let ghost before = self@;
        let ghost all = quad_points(
            start,
            FontPoint { x: x1, y: y1 },
            FontPoint { x: x2, y: y2 },
            self.quality,
        );
        let p0 = widen(start);
        let p1 = widen(FontPoint { x: x1, y: y1 });
        let p2 = widen(FontPoint { x: x2, y: y2 });
        proof {
            lemma_grid_bounds(self.quality);
            assert(self@ =~= before.add(all.take(0), before.pen)) by {
                assert(before.add(all.take(0), before.pen).points =~= before.points);
                assert(before.add(all.take(0), before.pen).current =~= before.current);
            }
        }
        let mut step: u16 = 0;
        while step < steps
            invariant
                step <= steps,
                steps == before.quality.quad_interpolation_steps,
                factor == quad_factor_of(before.quality),
                2 <= factor <= 0x2_0000_0000_0000,
                p0.x == start.x && p0.y == start.y,
                p1.x == x1 && p1.y == y1,
                p2.x == x2 && p2.y == y2,
                start == before.pen,
                all == quad_points(
                    start,
                    FontPoint { x: x1, y: y1 },
                    FontPoint { x: x2, y: y2 },
                    before.quality,
                ),
                self.wf(),
                self@ == before.add(all.take(step as int), before.pen),
            decreases steps - step,
        {
            step = step + 1;
            let on_curve = point_on_quad(p0, p1, p2, step, steps);
            proof {
                let n = steps as int;
                let k = step as int;
                lemma_quad_between(p0.x as int, p1.x as int, p2.x as int, k, n, -0x8000_0000, 0x8000_0000);
                lemma_quad_between(p0.y as int, p1.y as int, p2.y as int, k, n, -0x8000_0000, 0x8000_0000);
                assert(n * n <= 0x1_0000_0000) by (nonlinear_arith)
                    requires
                        0 <= n <= 0xffff,
                ;
                assert(n * n * 0x8000_0000 <= 0x8000_0000_0000_0000 && n * n * (-0x8000_0000)
                    >= -0x8000_0000_0000_0000) by (nonlinear_arith)
                    requires
                        0 <= n * n <= 0x1_0000_0000,
                ;
                assert(-0x8000_0000_0000_0000 * 0x2_0000_0000_0000 <= on_curve.x * factor
                    <= 0x8000_0000_0000_0000 * 0x2_0000_0000_0000) by (nonlinear_arith)
                    requires
                        -0x8000_0000_0000_0000 <= on_curve.x <= 0x8000_0000_0000_0000,
                        2 <= factor <= 0x2_0000_0000_0000,
                ;
                assert(-0x8000_0000_0000_0000 * 0x2_0000_0000_0000 <= on_curve.y * factor
                    <= 0x8000_0000_0000_0000 * 0x2_0000_0000_0000) by (nonlinear_arith)
                    requires
                        -0x8000_0000_0000_0000 <= on_curve.y <= 0x8000_0000_0000_0000,
                        2 <= factor <= 0x2_0000_0000_0000,
                ;
            }
            let p = Point { x: on_curve.x * factor, y: on_curve.y * factor };
            self.add_point(p);
            proof {
                assert(p == all[step - 1]);
                let next = before.add(all.take(step as int), before.pen);
                assert(all.take(step as int) =~= all.take(step - 1).push(p));
                assert(self@.points =~= next.points);
                assert(self@.current =~= next.current);
            }
        }
        self.current_point = FontPoint { x: x2, y: y2 };
        proof {
            assert(all.take(steps as int) =~= all);
        }
    }

    /// Appends a cubic curve from the current point past the control points
    /// `(x1, y1)` and `(x2, y2)` to `(x3, y3)`: one point for each step, each
    /// exactly on the curve. The curve's start is the current point and is
    /// not appended again.
    pub fn curve_to(&mut self, x1: i32, y1: i32, x2: i32, y2: i32, x3: i32, y3: i32)
        requires
            old(self).wf(),
        ensures
            final(self).wf(),
            final(self)@ == old(self)@.curve_to(
                FontPoint { x: x1, y: y1 },
                FontPoint { x: x2, y: y2 },
                FontPoint { x: x3, y: y3 },
            ),
    {
        let start = self.current_point;
        let steps = self.quality.cubic_interpolation_steps;
        let factor = self.cubic_factor;
        let ghost before = self@;
        let ghost all = cubic_points(
            start,
            FontPoint { x: x1, y: y1 },
            FontPoint { x: x2, y: y2 },
            FontPoint { x: x3, y: y3 },
            self.quality,
        );
        let p0 = widen(start);
        let p1 = widen(FontPoint { x: x1, y: y1 });
        let p2 = widen(FontPoint { x: x2, y: y2 });
        let p3 = widen(FontPoint { x: x3, y: y3 });
        proof {
            lemma_grid_bounds(self.quality);
            assert(self@ =~= before.add(all.take(0), before.pen)) by {
                assert(before.add(all.take(0), before.pen).points =~= before.points);
                assert(before.add(all.take(0), before.pen).current =~= before.current);
            }
        }
        let mut step: u16 = 0;
        while step < steps
            invariant
                step <= steps,
                steps == before.quality.cubic_interpolation_steps,
                factor == cubic_factor_of(before.quality),
                2 <= factor <= 0x2_0000_0000,
                p0.x == start.x && p0.y == start.y,
                p1.x == x1 && p1.y == y1,
                p2.x == x2 && p2.y == y2,
                p3.x == x3 && p3.y == y3,
                start == before.pen,
                all == cubic_points(
                    start,
                    FontPoint { x: x1, y: y1 },
                    FontPoint { x: x2, y: y2 },
                    FontPoint { x: x3, y: y3 },
                    before.quality,
                ),
                self.wf(),
                self@ == before.add(all.take(step as int), before.pen),
            decreases steps - step,
        {
            step = step + 1;
            let on_curve = point_on_cubic(p0, p1, p2, p3, step, steps);
            proof {
                let n = steps as int;
                let k = step as int;
                lemma_cubic_between(
                    p0.x as int,
                    p1.x as int,
                    p2.x as int,
                    p3.x as int,
                    k,
                    n,
                    -0x8000_0000,
                    0x8000_0000,
                );
                lemma_cubic_between(
                    p0.y as int,
                    p1.y as int,
                    p2.y as int,
                    p3.y as int,
                    k,
                    n,
                    -0x8000_0000,
                    0x8000_0000,
                );
                assert(n * n <= 0x1_0000_0000) by (nonlinear_arith)
                    requires
                        0 <= n <= 0xffff,
                ;
                assert(0 <= n * n * n <= 0x1_0000_0000_0000) by (nonlinear_arith)
                    requires
                        0 <= n <= 0xffff,
                        0 <= n * n <= 0x1_0000_0000,
                ;
                assert(n * n * n * 0x8000_0000 <= 0x8000_0000_0000_0000_0000 && n * n * n * (
                -0x8000_0000) >= -0x8000_0000_0000_0000_0000) by (nonlinear_arith)
                    requires
                        0 <= n * n * n <= 0x1_0000_0000_0000,
                ;
                assert(-0x8000_0000_0000_0000_0000 * 0x2_0000_0000 <= on_curve.x * factor
                    <= 0x8000_0000_0000_0000_0000 * 0x2_0000_0000) by (nonlinear_arith)
                    requires
                        -0x8000_0000_0000_0000_0000 <= on_curve.x <= 0x8000_0000_0000_0000_0000,
                        2 <= factor <= 0x2_0000_0000,
                ;
                assert(-0x8000_0000_0000_0000_0000 * 0x2_0000_0000 <= on_curve.y * factor
                    <= 0x8000_0000_0000_0000_0000 * 0x2_0000_0000) by (nonlinear_arith)
                    requires
                        -0x8000_0000_0000_0000_0000 <= on_curve.y <= 0x8000_0000_0000_0000_0000,
                        2 <= factor <= 0x2_0000_0000,
                ;
            }
            let p = Point { x: on_curve.x * factor, y: on_curve.y * factor };
            self.add_point(p);
            proof {
                assert(p == all[step - 1]);
                let next = before.add(all.take(step as int), before.pen);
                assert(all.take(step as int) =~= all.take(step - 1).push(p));
                assert(self@.points =~= next.points);
                assert(self@.current =~= next.current);
            }
        }
        self.current_point = FontPoint { x: x3, y: y3 };
        proof {
            assert(all.take(steps as int) =~= all);
        }
    }

    /// Ends the current contour. If the last point lies where the contour's
    /// first point lies, that second copy is dropped. The contour is then
    /// put among the outline's contours, each of its points named once; the
    /// edge that returns from its last point to its first is not stored. The
    /// next contour starts empty.
    pub fn close(&mut self)
        requires
            old(self).wf(),
        ensures
            final(self).wf(),
            final(self)@ == old(self)@.close(),
    {
        let n = self.current_contour.len();
        if n >= 2 {
            let first = self.current_contour[0];
            let last = self.current_contour[n - 1];
            proof {
                let current = indices_view(self.current_contour@);
                assert(current[0] == first);
                assert(current[n - 1] == last);
            }
            if self.points[last] == self.points[first] {
                proof {
                    lemma_indices_drop_last(self.current_contour@);
                }
                self.points.pop();
                self.current_contour.pop();
            }
        }
        let mut chain: Vec<usize> = Vec::new();
        std::mem::swap(&mut self.current_contour, &mut chain);
        proof {
            lemma_contours_push(self.contours@, chain);
            assert(indices_view(self.current_contour@) =~= Seq::<int>::empty());
            assert(n == 0 ==> indices_view(chain@) =~= Seq::<int>::empty());
        }
        self.contours.push(chain);
    }

    /// Takes one drawing command.
    pub fn apply(&mut self, command: &Command)
        requires
            old(self).wf(),
        ensures
            final(self).wf(),
            final(self)@ == old(self)@.apply(*command),
    {
        match *command {
            Command::MoveTo(p) => self.move_to(p.x, p.y),
            Command::LineTo(p) => self.line_to(p.x, p.y),
            Command::QuadTo(p1, p2) => self.quad_to(p1.x, p1.y, p2.x, p2.y),
            Command::CurveTo(p1, p2, p3) => self.curve_to(p1.x, p1.y, p2.x, p2.y, p3.x, p3.y),
            Command::Close => self.close(),
        }
    }

    /// Gives the outline and ends the builder. A contour that was still
    /// being drawn is no contour of the outline: it is among the chains that
    /// were left open.
    pub fn into_outline(self) -> (outline: Outline)
        requires
            self.wf(),
        ensures
            outline@ == self@.finish(),
            outline@.wf(),
    {
        let mut builder = self;
        builder.flush();
        proof {
            lemma_grid_bounds(builder.quality);
        }
        Outline {
            contours: builder.contours,
            open_chains: builder.open_chains,
            points: builder.points,
            font_height: builder.font_height,
            grid: builder.grid,
        }
    }
}

impl Outline {
    /// Builds the outline that a sequence of drawing commands describes.
    pub fn from_commands(commands: &Vec<Command>, font_height: i32, quality: QualitySettings) -> (outline:
        Outline)
        requires
            quality.valid(),
        ensures
            outline@ == OutlineModel::start(font_height, quality).apply_all(commands@).finish(),
            outline@.wf(),
    {
        let mut builder = OutlineBuilder::new(font_height, quality);
        let mut i: usize = 0;
        while i < commands.len()
            invariant
                i <= commands.len(),
                builder.wf(),
                builder@ == OutlineModel::start(font_height, quality).apply_all(
                    commands@.take(i as int),
                ),
            decreases commands.len() - i,
        {
            proof {
                assert(commands@.take(i + 1).drop_last() =~= commands@.take(i as int));
            }
            builder.apply(&commands[i]);
            i = i + 1;
        }
        proof {
            assert(commands@.take(commands.len() as int) =~= commands@);
        }
        builder.into_outline()
    }
}

} // verus!
