//! The mesh of one glyph, from what the font and the triangulation engine
//! say of it.
//!
//! The generator itself reads no font, draws no outline and triangulates
//! nothing. Its caller hands in the height of the face, asks the font for
//! the glyph's outline with a builder of the generator, has the outline
//! checked and triangulated, and hands outline and triangulation to
//! `generate_mesh`.

use vstd::prelude::*;
use crate::error::Error;
use crate::font::FaceRef;
use crate::geometry::BoundingBox;
use crate::geometry::Rect;
use crate::geometry::Vec3;
use crate::mesh::triangles_in_range;
use crate::mesh::Mesh;
use crate::mesh::MeshView;
use crate::mesh::Triangle;
use crate::outline::Command;
use crate::outline::Outline;
use crate::outline::OutlineBuilder;
use crate::outline::OutlineModel;
use crate::outline::OutlineView;
use crate::outline::GRID_LIMIT;
use crate::outline_laws::all_in_rect;
use crate::outline_laws::command_in_rect;
use crate::outline_laws::lemma_apply_all_wf;
use crate::outline_laws::lemma_outline_in_rect;
use crate::outline::lemma_grid_bounds;
use crate::quality::QualitySettings;
use crate::triangulation::find_defect;

verus! {

/// The most points that the outline of a solid can have: the vertices of
/// the solid, twice as many, are named by 32-bit indices.
pub const EXTRUDED_POINT_LIMIT: usize = 0x8000_0000;

/// How the meshes of a generator are made.
#[derive(Clone, Copy, Debug, PartialEq, Eq, Structural)]
pub struct Config {
    /// How finely curves are flattened.
    pub quality: QualitySettings,
    /// Whether the mesh is a solid of unit depth, not a flat face.
    pub extrude: bool,
}

impl Config {
    /// The configuration that `default` returns.
    pub open spec fn spec_default() -> Config {
        Config { quality: QualitySettings::spec_default(), extrude: true }
    }
}

impl Default for Config {
    /// Solid meshes, at the default quality.
    fn default() -> (config: Config)
        ensures
            config == Config::spec_default(),
    {
        Config { quality: QualitySettings::default(), extrude: true }
    }
}

/// What a font gives for a glyph that has an outline.
#[derive(Debug, PartialEq, Eq)]
pub struct GlyphOutline {
    /// The outline, as a builder of the generator made it.
    pub outline: Outline,
    /// The rectangle that the font reports for the glyph, in font units.
    pub rect: Rect,
}

/// Half the depth of a solid over `outline`, on the outline's grid: half of
/// what stands for one unit.
pub open spec fn half_depth_of(outline: OutlineView) -> int {
    outline.font_height * (outline.grid / 2)
}

/// The bounding box of a glyph's mesh: the font's rectangle on the grid of
/// the outline, from the depth `-half_depth` to the depth `half_depth`.
pub open spec fn bounding_box_of(rect: Rect, grid: int, half_depth: int) -> BoundingBox {
    BoundingBox {
        min: Vec3 {
            x: (rect.x_min * grid) as i128,
            y: (rect.y_min * grid) as i128,
            z: (-half_depth) as i128,
        },
        max: Vec3 {
            x: (rect.x_max * grid) as i128,
            y: (rect.y_max * grid) as i128,
            z: half_depth as i128,
        },
    }
}

/// The mesh of a glyph with a sound outline and a triangulation.
///
/// The vertices are the points of the outline as they are; in a solid they
/// stand at half a unit of depth and, once more, at minus half a unit. The
/// box comes from the font's rectangle, not from the vertices.
pub open spec fn glyph_mesh(
    outline: OutlineView,
    rect: Rect,
    triangles: Seq<Triangle>,
    extrude: bool,
) -> MeshView {
    if extrude {
        MeshView::extruded(
            outline.points,
            triangles,
            bounding_box_of(rect, outline.grid, half_depth_of(outline)),
            outline.font_height * outline.grid,
            half_depth_of(outline),
        )
    } else {
        MeshView::flat(
            outline.points,
            triangles,
            bounding_box_of(rect, outline.grid, 0),
            outline.font_height * outline.grid,
        )
    }
}

/// What a font gave for a glyph, as plain values.
pub open spec fn glyph_view(glyph: Option<&GlyphOutline>) -> Option<(OutlineView, Rect)> {
    match glyph {
        Some(g) => Some((g.outline@, g.rect)),
        None => None,
    }
}

/// What the triangulation engine gave, as plain values.
pub open spec fn triangulation_view(
    triangulation: Result<Vec<Triangle>, lyon_tessellation::TessellationError>,
) -> Result<Seq<Triangle>, lyon_tessellation::TessellationError> {
    match triangulation {
        Ok(triangles) => Ok(triangles@),
        Err(e) => Err(e),
    }
}

/// The mesh of a glyph, or the error, from what the font and the
/// triangulation engine gave.
///
/// A glyph without an outline has the empty mesh. An outline with a defect
/// gives that defect, whatever the engine said. An error of the engine is
/// handed on as it is. Otherwise the mesh is that of `glyph_mesh`.
pub open spec fn generated(
    glyph: Option<(OutlineView, Rect)>,
    triangulation: Result<Seq<Triangle>, lyon_tessellation::TessellationError>,
    extrude: bool,
) -> Result<MeshView, Error> {
    match glyph {
        None => Ok(MeshView::empty()),
        Some((outline, rect)) => match outline.defect() {
            Some(e) => Err(e),
            None => match triangulation {
                Err(e) => Err(Error::Tessellation(e)),
                Ok(triangles) => Ok(glyph_mesh(outline, rect, triangles, extrude)),
            },
        },
    }
}

/// Whether `generate_mesh` can take what the font and the triangulation
/// engine gave. It cannot where the triangulation is read and a corner of a
/// triangle names no point of the outline, or where a solid is asked for
/// and the outline has more points than the limit.
pub open spec fn can_generate(
    glyph: Option<(OutlineView, Rect)>,
    triangulation: Result<Seq<Triangle>, lyon_tessellation::TessellationError>,
    extrude: bool,
) -> bool {
    match (glyph, triangulation) {
        (Some((outline, rect)), Ok(triangles)) => outline.defect() is None ==> {
            &&& triangles_in_range(triangles, outline.points.len() as int)
            &&& extrude ==> outline.points.len() <= EXTRUDED_POINT_LIMIT
        },
        _ => true,
    }
}

/// The result of `generate_mesh` as plain values.
pub open spec fn result_view(mesh: Result<Mesh, Error>) -> Result<MeshView, Error> {
    match mesh {
        Ok(m) => Ok(m@),
        Err(e) => Err(e),
    }
}

/// A coordinate of the font's rectangle, on the grid, is a whole number of
/// the machine.
proof fn lemma_rect_on_grid(grid: int)
    requires
        0 < grid <= GRID_LIMIT,
    ensures
        forall|v: i16| -0x8000 * GRID_LIMIT <= #[trigger] (v * grid) <= 0x8000 * GRID_LIMIT,
{
    assert forall|v: i16| -0x8000 * GRID_LIMIT <= #[trigger] (v * grid) <= 0x8000 * GRID_LIMIT by {
        assert(-0x8000 * GRID_LIMIT <= v * grid <= 0x8000 * GRID_LIMIT) by (nonlinear_arith)
            requires
                -0x8000 <= v <= 0x8000,
                0 < grid <= GRID_LIMIT,
        ;
    }
}

/// Computes the bounding box of a glyph's mesh.
fn bounding_box(rect: Rect, grid: i128, half_depth: i128) -> (bbox: BoundingBox)
    requires
        0 < grid <= GRID_LIMIT,
        half_depth > i128::MIN,
    ensures
        bbox == bounding_box_of(rect, grid as int, half_depth as int),
{
    proof {
        lemma_rect_on_grid(grid as int);
    }
    BoundingBox {
        min: Vec3 { x: rect.x_min as i128 * grid, y: rect.y_min as i128 * grid, z: -half_depth },
        max: Vec3 { x: rect.x_max as i128 * grid, y: rect.y_max as i128 * grid, z: half_depth },
    }
}

/// Whether every corner of every triangle names one of `count` points.
pub fn triangles_fit(triangles: &Vec<Triangle>, count: usize) -> (fit: bool)
    ensures
        fit == triangles_in_range(triangles@, count as int),
{
    let mut i: usize = 0;
    while i < triangles.len()
        invariant
            i <= triangles.len(),
            triangles_in_range(triangles@.take(i as int), count as int),
        decreases triangles.len() - i,
    {
        let t = triangles[i];
        if t.a as usize >= count || t.b as usize >= count || t.c as usize >= count {
            proof {
                assert(!(triangles@[i as int].a < count && triangles@[i as int].b < count
                    && triangles@[i as int].c < count));
            }
            return false;
        }
        proof {
            assert forall|j: int| 0 <= j < i + 1 implies (#[trigger] triangles@.take(i + 1)[j]).a
                < count && triangles@.take(i + 1)[j].b < count && triangles@.take(i + 1)[j].c
                < count by {
                if j < i {
                    assert(triangles@.take(i as int)[j] == triangles@.take(i + 1)[j]);
                }
            }
        }
        i = i + 1;
    }
    proof {
        assert(triangles@.take(triangles.len() as int) =~= triangles@);
    }
    true
}

/// Generates glyph meshes for a font.
pub struct MeshGenerator<'face> {
    face: FaceRef<'face>,
    config: Config,
    font_height: i32,
}

impl<'face> MeshGenerator<'face> {
    #[verifier::type_invariant]
    closed spec fn inv(&self) -> bool {
        self.config.quality.valid()
    }

    /// The face that the generator was made for.
    pub closed spec fn spec_face(&self) -> FaceRef<'face> {
        self.face
    }

    /// How the generator makes its meshes.
    pub closed spec fn spec_config(&self) -> Config {
        self.config
    }

    /// The height of the face, in font units, as it was handed in when the
    /// generator was made.
    pub closed spec fn spec_font_height(&self) -> i32 {
        self.font_height
    }

    /// Creates a generator with the default configuration, for a face of
    /// the height `font_height`.
    pub fn new(face: FaceRef<'face>, font_height: i32) -> (generator: MeshGenerator<'face>)
        ensures
            generator.spec_face() == face,
            generator.spec_font_height() == font_height,
            generator.spec_config() == Config::spec_default(),
    {
        MeshGenerator::new_with_config(face, font_height, Config::default())
    }

    /// Creates a generator with a configuration of the caller's, for a face
    /// of the height `font_height`: the face's ascender less its descender,
    /// in font units. Every coordinate of every mesh of the generator is
    /// divided by that height.
    pub fn new_with_config(face: FaceRef<'face>, font_height: i32, config: Config) -> (generator:
        MeshGenerator<'face>)
        requires
            config.quality.valid(),
        ensures
            generator.spec_face() == face,
            generator.spec_font_height() == font_height,
            generator.spec_config() == config,
    {
        MeshGenerator { face, config, font_height }
    }

    /// Creates a generator of solid meshes with a quality of the caller's,
    /// for a face of the height `font_height`.
    pub fn new_with_quality(
        face: FaceRef<'face>,
        font_height: i32,
        quality: QualitySettings,
    ) -> (generator: MeshGenerator<'face>)
        requires
            quality.valid(),
        ensures
            generator.spec_face() == face,
            generator.spec_font_height() == font_height,
            generator.spec_config() == (Config { quality, extrude: true }),
    {
        MeshGenerator::new_with_config(face, font_height, Config { quality, extrude: true })
    }

    /// The face used by this generator.
    pub fn face(&self) -> (face: FaceRef<'face>)
        ensures
            face == self.spec_face(),
    {
        self.face
    }

    /// The configuration of this generator.
    pub fn config(&self) -> (config: Config)
        ensures
            config == self.spec_config(),
            config.quality.valid(),
    {
        proof {
            use_type_invariant(self);
        }
        self.config
    }

    /// The height of the face, in font units.
    pub fn font_height(&self) -> (font_height: i32)
        ensures
            font_height == self.spec_font_height(),
    {
        self.font_height
    }

    /// Creates the builder that takes the drawing commands of one glyph of
    /// this generator's face.
    pub fn outline_builder(&self) -> (builder: OutlineBuilder)
        ensures
            builder.wf(),
            builder@ == OutlineModel::start(self.spec_font_height(), self.spec_config().quality),
    {
        proof {
            use_type_invariant(self);
        }
        OutlineBuilder::new(self.font_height, self.config.quality)
    }

    /// Generates the mesh of a glyph.
    ///
    /// `glyph` is what the font gave for the glyph: `None` where it has no
    /// outline, as for a space. `triangulation` is what the triangulation
    /// engine gave for the outline's points and boundary edges; it is read
    /// only where the glyph has an outline without a defect.
    ///
    /// A glyph without an outline has the empty mesh. An outline with a
    /// defect gives that defect as the error, whatever the engine said. An
    /// error of the engine is handed on as it is. Otherwise the mesh is flat
    /// or a solid, as the configuration says.
    pub fn generate_mesh(
        &self,
        glyph: Option<&GlyphOutline>,
        triangulation: Result<Vec<Triangle>, lyon_tessellation::TessellationError>,
    ) -> (mesh: Result<Mesh, Error>)
        requires
            can_generate(
                glyph_view(glyph),
                triangulation_view(triangulation),
                self.spec_config().extrude,
            ),
        ensures
            result_view(mesh) == generated(
                glyph_view(glyph),
                triangulation_view(triangulation),
                self.spec_config().extrude,
            ),
    {
        let g = match glyph {
            None => {
                return Ok(Mesh::empty());
            },
            Some(g) => g,
        };
        match find_defect(&g.outline) {
            Some(e) => {
                return Err(e);
            },
            None => {},
        }
        let triangles = match triangulation {
            Err(e) => {
                return Err(Error::Tessellation(e));
            },
            Ok(triangles) => triangles,
        };
        let grid = g.outline.grid();
        let denominator = g.outline.denominator();
        if self.config.extrude {
            let height = g.outline.font_height();
            let half_grid = grid / 2;
            assert(-0x8000_0000 * GRID_LIMIT <= height * half_grid <= 0x8000_0000 * GRID_LIMIT)
                by (nonlinear_arith)
                requires
                    -0x8000_0000 <= height <= 0x8000_0000,
                    0 <= half_grid <= GRID_LIMIT,
            ;
            let half_depth = height as i128 * half_grid;
            let bbox = bounding_box(g.rect, grid, half_depth);
            Ok(Mesh::extruded(g.outline.points(), &triangles, bbox, denominator, half_depth))
        } else {
            let bbox = bounding_box(g.rect, grid, 0);
            Ok(Mesh::flat(g.outline.points(), &triangles, bbox, denominator))
        }
    }

    /// Generates the mesh of a glyph as `generate_mesh` does, after testing
    /// that the triangulation fits the outline. `None` where it does not:
    /// where the triangulation would be read and a corner of a triangle
    /// names no point of the outline, or where a solid is asked for and the
    /// outline has more points than the limit.
    pub fn try_generate_mesh(
        &self,
        glyph: Option<&GlyphOutline>,
        triangulation: Result<Vec<Triangle>, lyon_tessellation::TessellationError>,
    ) -> (mesh: Option<Result<Mesh, Error>>)
        ensures
            mesh is Some <==> can_generate(
                glyph_view(glyph),
                triangulation_view(triangulation),
                self.spec_config().extrude,
            ),
            mesh matches Some(m) ==> result_view(m) == generated(
                glyph_view(glyph),
                triangulation_view(triangulation),
                self.spec_config().extrude,
            ),
    {
        let fits = match (glyph, &triangulation) {
            (Some(g), Ok(triangles)) => {
                let count = g.outline.points().len();
                match find_defect(&g.outline) {
                    Some(_) => true,
                    None => triangles_fit(triangles, count) && (!self.config.extrude || count
                        <= EXTRUDED_POINT_LIMIT),
                }
            },
            _ => true,
        };
        if fits {
            Some(self.generate_mesh(glyph, triangulation))
        } else {
            None
        }
    }
}

/// Whether the first two coordinates of a vertex lie in a box.
pub open spec fn in_box(v: Vec3, bbox: BoundingBox) -> bool {
    bbox.min.x <= v.x <= bbox.max.x && bbox.min.y <= v.y <= bbox.max.y
}

/// A glyph without an outline has the empty mesh, flat or not and whatever
/// the triangulation engine said: no vertices, no indices, and a box whose
/// corners are both the origin.
pub proof fn lemma_no_outline_gives_empty_mesh(
    triangulation: Result<Seq<Triangle>, lyon_tessellation::TessellationError>,
    extrude: bool,
)
    ensures
        generated(None, triangulation, extrude) == Ok::<MeshView, Error>(MeshView::empty()),
        MeshView::empty().vertices.len() == 0,
        MeshView::empty().indices.len() == 0,
        MeshView::empty().bbox.min == Vec3::spec_zero(),
        MeshView::empty().bbox.max == Vec3::spec_zero(),
{
}

/// If every point of an outline lies in the font's rectangle, every vertex
/// of the glyph's mesh lies in the bounding box of the mesh, flat or not.
pub proof fn lemma_vertices_in_bounding_box(
    outline: OutlineView,
    rect: Rect,
    triangles: Seq<Triangle>,
    extrude: bool,
)
    requires
        outline.wf(),
        all_in_rect(outline.points, rect, outline.grid),
    ensures
        forall|i: int|
            0 <= i < glyph_mesh(outline, rect, triangles, extrude).vertices.len() ==> in_box(
                #[trigger] glyph_mesh(outline, rect, triangles, extrude).vertices[i],
                glyph_mesh(outline, rect, triangles, extrude).bbox,
            ),
{
    let mesh = glyph_mesh(outline, rect, triangles, extrude);
    let grid = outline.grid;
    lemma_rect_on_grid(grid);
    assert(mesh.bbox.min.x == rect.x_min * grid);
    assert(mesh.bbox.max.x == rect.x_max * grid);
    assert(mesh.bbox.min.y == rect.y_min * grid);
    assert(mesh.bbox.max.y == rect.y_max * grid);
    let n = outline.points.len();
    assert forall|i: int| 0 <= i < mesh.vertices.len() implies in_box(
        #[trigger] mesh.vertices[i],
        mesh.bbox,
    ) by {
        let j = if i < n {
            i
        } else {
            i - n
        };
        assert(mesh.vertices[i].x == outline.points[j].x);
        assert(mesh.vertices[i].y == outline.points[j].y);
    }
}

/// The bounding box holds the mesh: if a glyph's commands begin with a move
/// and name only points of the rectangle that the font reports, every
/// vertex of the glyph's mesh lies in the bounding box of the mesh, flat or
/// not.
pub proof fn lemma_glyph_in_bounding_box(
    commands: Seq<Command>,
    font_height: i32,
    quality: QualitySettings,
    rect: Rect,
    triangles: Seq<Triangle>,
    extrude: bool,
)
    requires
        quality.valid(),
        commands.len() > 0 ==> commands[0] is MoveTo,
        forall|i: int| 0 <= i < commands.len() ==> command_in_rect(#[trigger] commands[i], rect),
    ensures
        ({
            let outline = OutlineModel::start(font_height, quality).apply_all(commands).finish();
            let mesh = glyph_mesh(outline, rect, triangles, extrude);
            forall|i: int| 0 <= i < mesh.vertices.len() ==> in_box(#[trigger] mesh.vertices[i], mesh.bbox)
        }),
{
    let outline = OutlineModel::start(font_height, quality).apply_all(commands).finish();
    lemma_outline_in_rect(commands, font_height, quality, rect);
    lemma_apply_all_wf(OutlineModel::start(font_height, quality), commands);
    lemma_grid_bounds(quality);
    lemma_vertices_in_bounding_box(outline, rect, triangles, extrude);
}

} // verus!
