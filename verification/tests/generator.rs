use glyph_mesh::error::Error;
use glyph_mesh::generator::{triangles_fit, Config, GlyphOutline, MeshGenerator};
use glyph_mesh::geometry::{BoundingBox, Point, Rect, Vec3};
use glyph_mesh::mesh::{Mesh, Triangle};
use glyph_mesh::outline::Outline;
use glyph_mesh::quality::QualitySettings;
use glyph_mesh::font::{glyph_or_fallback, height_of};
use glyph_mesh::triangulation::triangulation_edges;

fn table_record(tag: &[u8; 4], offset: usize, length: usize) -> Vec<u8> {
    let mut record = tag.to_vec();
    record.extend_from_slice(&[0, 0, 0, 0]);
    record.extend_from_slice(&(offset as u32).to_be_bytes());
    record.extend_from_slice(&(length as u32).to_be_bytes());
    record
}

/// A font with the four tables that a face needs, in which the letter A has
/// the glyph `glyph_of_a` and no other character has a glyph.
fn font(ascender: i16, descender: i16, glyph_of_a: u8) -> Vec<u8> {
    let mut cmap = vec![0, 0, 0, 1, 0, 0, 0, 3, 0, 0, 0, 12, 0, 0, 1, 6, 0, 0];
    let mut glyphs = [0u8; 256];
    glyphs[65] = glyph_of_a;
    cmap.extend_from_slice(&glyphs);

    let mut head = vec![0u8; 54];
    head[18..20].copy_from_slice(&1000u16.to_be_bytes());

    let mut hhea = vec![0u8; 36];
    hhea[4..6].copy_from_slice(&ascender.to_be_bytes());
    hhea[6..8].copy_from_slice(&descender.to_be_bytes());

    let maxp = vec![0, 0, 0x50, 0, 0, 9];

    let mut data = vec![0, 1, 0, 0, 0, 4, 0, 0, 0, 0, 0, 0];
    let mut offset = 12 + 4 * 16;
    for (tag, table) in [(b"cmap", &cmap), (b"head", &head), (b"hhea", &hhea), (b"maxp", &maxp)] {
        data.extend_from_slice(&table_record(tag, offset, table.len()));
        offset += table.len();
    }
    data.extend_from_slice(&cmap);
    data.extend_from_slice(&head);
    data.extend_from_slice(&hhea);
    data.extend_from_slice(&maxp);
    data
}

fn square() -> GlyphOutline {
    let points = vec![
        Point { x: 0, y: 0 },
        Point { x: 2, y: 0 },
        Point { x: 2, y: 2 },
        Point { x: 0, y: 2 },
    ];
    GlyphOutline {
        outline: Outline::new(points, vec![vec![0, 1, 2, 3]], Vec::new(), 1, 2).unwrap(),
        rect: Rect { x_min: 0, y_min: 0, x_max: 1, y_max: 1 },
    }
}

fn square_triangles() -> Vec<Triangle> {
    vec![Triangle { a: 0, b: 1, c: 2 }, Triangle { a: 0, b: 2, c: 3 }]
}

/// The height of a face as its generator is given it.
fn height(face: &ttf_parser::Face) -> i32 {
    height_of(face.ascender(), face.descender())
}

fn flat_config() -> Config {
    Config { quality: QualitySettings::default(), extrude: false }
}

fn engine_error() -> lyon_tessellation::TessellationError {
    lyon_tessellation::TessellationError::Internal(lyon_tessellation::InternalError::ErrorCode(7))
}

#[test]
fn generator_keeps_the_height_that_it_is_given() {
    let data = font(800, -200, 3);
    let face = ttf_parser::Face::parse(&data, 0).unwrap();
    let generator = MeshGenerator::new(&face, height(&face));
    assert_eq!(generator.font_height(), 1000);
    assert_eq!(generator.font_height(), face.height() as i32);
    assert_eq!(generator.config(), Config::default());
    assert!(std::ptr::eq(generator.face(), &face));
    assert_eq!(MeshGenerator::new(&face, 2048).font_height(), 2048);
    assert_eq!(MeshGenerator::new(&face, -3).font_height(), -3);
    // the height is what every point is divided by
    let mut builder = MeshGenerator::new(&face, 2048).outline_builder();
    builder.move_to(1024, 512);
    let outline = builder.into_outline();
    assert_eq!(outline.font_height(), 2048);
    assert_eq!(outline.points()[0].x as f64 / outline.denominator() as f64, 0.5);
}

#[test]
fn height_is_not_cut_short() {
    let data = font(i16::MAX, i16::MIN, 3);
    let face = ttf_parser::Face::parse(&data, 0).unwrap();
    let generator = MeshGenerator::new(&face, height(&face));
    assert_eq!(generator.font_height(), 65535);
}

#[test]
fn default_configuration_extrudes() {
    let config = Config::default();
    assert!(config.extrude);
    assert_eq!(config.quality, QualitySettings::default());
}

#[test]
fn generator_keeps_its_configuration() {
    let data = font(800, -200, 3);
    let face = ttf_parser::Face::parse(&data, 0).unwrap();
    let quality = QualitySettings::new(9, 4).unwrap();
    let generator = MeshGenerator::new_with_config(&face, height(&face), Config { quality, extrude: false });
    assert_eq!(generator.config(), Config { quality, extrude: false });
    let generator = MeshGenerator::new_with_quality(&face, height(&face), quality);
    assert_eq!(generator.config(), Config { quality, extrude: true });
}

#[test]
fn a_character_has_the_glyph_of_the_character_map() {
    let data = font(800, -200, 3);
    let face = ttf_parser::Face::parse(&data, 0).unwrap();
    assert_eq!(face.glyph_index('A'), Some(ttf_parser::GlyphId(3)));
    assert_eq!(glyph_or_fallback(face.glyph_index('A').map(|id| id.0)), 3);
}

#[test]
fn a_character_without_a_glyph_has_the_glyph_zero() {
    let data = font(800, -200, 3);
    let face = ttf_parser::Face::parse(&data, 0).unwrap();
    assert_eq!(face.glyph_index('B'), None);
    assert_eq!(glyph_or_fallback(face.glyph_index('B').map(|id| id.0)), 0);
    assert_eq!(glyph_or_fallback(face.glyph_index('\u{20ac}').map(|id| id.0)), 0);
}

#[test]
fn the_builder_of_a_generator_has_its_height_and_quality() {
    let data = font(700, -300, 3);
    let face = ttf_parser::Face::parse(&data, 0).unwrap();
    let quality = QualitySettings::new(2, 3).unwrap();
    let generator = MeshGenerator::new_with_quality(&face, height(&face), quality);
    let mut builder = generator.outline_builder();
    builder.move_to(1, 1);
    let outline = builder.into_outline();
    assert_eq!(outline.font_height(), 1000);
    assert_eq!(outline.grid(), 2 * 4 * 27);
    assert_eq!(outline.points(), &vec![Point { x: 216, y: 216 }]);
}

#[test]
fn a_glyph_without_an_outline_has_the_empty_mesh() {
    let data = font(800, -200, 3);
    let face = ttf_parser::Face::parse(&data, 0).unwrap();
    for config in [Config::default(), flat_config()] {
        let generator = MeshGenerator::new_with_config(&face, height(&face), config);
        let mesh = generator.generate_mesh(None, Ok(Vec::new())).unwrap();
        assert_eq!(mesh.vertices.len(), 0);
        assert_eq!(mesh.indices.len(), 0);
        assert_eq!(mesh.bbox.min, Vec3 { x: 0, y: 0, z: 0 });
        assert_eq!(mesh.bbox.max, Vec3 { x: 0, y: 0, z: 0 });
        assert_eq!(mesh, Mesh::default());
        // whatever the engine said
        assert_eq!(generator.generate_mesh(None, Err(engine_error())), Ok(Mesh::empty()));
        assert_eq!(generator.generate_mesh(None, Ok(square_triangles())), Ok(Mesh::empty()));
    }
}

#[test]
fn a_square_becomes_a_box_of_twelve_triangles() {
    let data = font(800, -200, 3);
    let face = ttf_parser::Face::parse(&data, 0).unwrap();
    let generator = MeshGenerator::new(&face, height(&face));
    let glyph = square();
    let mesh = generator.generate_mesh(Some(&glyph), Ok(square_triangles())).unwrap();
    assert_eq!(mesh.denominator, 2);
    assert_eq!(
        mesh.vertices,
        vec![
            Vec3 { x: 0, y: 0, z: 1 },
            Vec3 { x: 2, y: 0, z: 1 },
            Vec3 { x: 2, y: 2, z: 1 },
            Vec3 { x: 0, y: 2, z: 1 },
            Vec3 { x: 0, y: 0, z: -1 },
            Vec3 { x: 2, y: 0, z: -1 },
            Vec3 { x: 2, y: 2, z: -1 },
            Vec3 { x: 0, y: 2, z: -1 },
        ]
    );
    let depth: Vec<f64> =
        mesh.vertices.iter().map(|v| v.z as f64 / mesh.denominator as f64).collect();
    assert_eq!(depth, vec![0.5, 0.5, 0.5, 0.5, -0.5, -0.5, -0.5, -0.5]);
    assert_eq!(mesh.indices.len(), 36);
    assert_eq!(mesh.indices.len() / 3, 2 + 2 + 4 * 2);
    assert_eq!(&mesh.indices[0..6], &[0, 1, 2, 0, 2, 3]);
    assert_eq!(&mesh.indices[6..12], &[6, 5, 4, 7, 6, 4]);
    assert_eq!(
        mesh.bbox,
        BoundingBox::new(Vec3 { x: 0, y: 0, z: -1 }, Vec3 { x: 2, y: 2, z: 1 })
    );
}

#[test]
fn a_flat_mesh_has_the_points_at_depth_zero() {
    let data = font(800, -200, 3);
    let face = ttf_parser::Face::parse(&data, 0).unwrap();
    let generator = MeshGenerator::new_with_config(&face, height(&face), flat_config());
    let glyph = square();
    let mesh = generator.generate_mesh(Some(&glyph), Ok(square_triangles())).unwrap();
    assert_eq!(
        mesh.vertices,
        vec![
            Vec3 { x: 0, y: 0, z: 0 },
            Vec3 { x: 2, y: 0, z: 0 },
            Vec3 { x: 2, y: 2, z: 0 },
            Vec3 { x: 0, y: 2, z: 0 },
        ]
    );
    assert_eq!(mesh.indices, vec![0, 1, 2, 0, 2, 3]);
    assert_eq!(
        mesh.bbox,
        BoundingBox::new(Vec3 { x: 0, y: 0, z: 0 }, Vec3 { x: 2, y: 2, z: 0 })
    );
    assert_eq!(mesh.denominator, 2);
}

#[test]
fn the_box_comes_from_the_rectangle_of_the_font() {
    let data = font(800, -200, 3);
    let face = ttf_parser::Face::parse(&data, 0).unwrap();
    let generator = MeshGenerator::new(&face, height(&face));
    let mut builder = generator.outline_builder();
    builder.move_to(100, 0);
    builder.line_to(300, 0);
    builder.line_to(300, 400);
    builder.line_to(100, 0);
    builder.close();
    let glyph = GlyphOutline {
        outline: builder.into_outline(),
        rect: Rect { x_min: 90, y_min: -20, x_max: 310, y_max: 410 },
    };
    let triangles = vec![Triangle { a: 0, b: 1, c: 2 }];
    let mesh = generator.generate_mesh(Some(&glyph), Ok(triangles)).unwrap();
    let grid: i128 = 1350;
    assert_eq!(mesh.denominator, 1000 * grid);
    assert_eq!(mesh.bbox.min, Vec3 { x: 90 * grid, y: -20 * grid, z: -500 * grid });
    assert_eq!(mesh.bbox.max, Vec3 { x: 310 * grid, y: 410 * grid, z: 500 * grid });
    assert_eq!(mesh.bbox.min.x as f64 / mesh.denominator as f64, 0.09);
    assert_eq!(mesh.bbox.max.z as f64 / mesh.denominator as f64, 0.5);
    assert_eq!(mesh.vertices[2], Vec3 { x: 300 * grid, y: 400 * grid, z: 500 * grid });
    assert_eq!(mesh.vertices[5], Vec3 { x: 300 * grid, y: 400 * grid, z: -500 * grid });
}

#[test]
fn every_vertex_lies_in_the_box() {
    let data = font(800, -200, 3);
    let face = ttf_parser::Face::parse(&data, 0).unwrap();
    for config in [Config::default(), flat_config()] {
        let generator = MeshGenerator::new_with_config(&face, height(&face), config);
        let mut builder = generator.outline_builder();
        builder.move_to(0, 0);
        builder.quad_to(500, 0, 500, 500);
        builder.curve_to(500, 700, 0, 700, 0, 500);
        builder.line_to(0, 0);
        builder.close();
        let outline = builder.into_outline();
        let count = outline.points().len() as u32;
        let triangles: Vec<Triangle> =
            (1..count - 1).map(|i| Triangle { a: 0, b: i, c: i + 1 }).collect();
        let glyph =
            GlyphOutline { outline, rect: Rect { x_min: 0, y_min: 0, x_max: 500, y_max: 700 } };
        let mesh = generator.generate_mesh(Some(&glyph), Ok(triangles)).unwrap();
        assert!(mesh.vertices.len() >= 9);
        for v in &mesh.vertices {
            assert!(mesh.bbox.min.x <= v.x && v.x <= mesh.bbox.max.x);
            assert!(mesh.bbox.min.y <= v.y && v.y <= mesh.bbox.max.y);
            assert!(mesh.bbox.min.z <= v.z && v.z <= mesh.bbox.max.z);
        }
    }
}

#[test]
fn a_defect_of_the_outline_is_the_error() {
    let data = font(800, -200, 3);
    let face = ttf_parser::Face::parse(&data, 0).unwrap();
    let generator = MeshGenerator::new(&face, height(&face));
    let points = vec![Point { x: 0, y: 0 }, Point { x: 2, y: 0 }, Point { x: 2, y: 2 }];
    let rect = Rect { x_min: 0, y_min: 0, x_max: 1, y_max: 1 };
    let open = GlyphOutline {
        outline: Outline::new(points.clone(), Vec::new(), vec![vec![0, 1, 2]], 1, 2).unwrap(),
        rect,
    };
    assert_eq!(triangulation_edges(&open.outline), Err(Error::OpenContour));
    assert_eq!(generator.generate_mesh(Some(&open), Ok(Vec::new())), Err(Error::OpenContour));
    // whatever the engine said
    assert_eq!(generator.generate_mesh(Some(&open), Err(engine_error())), Err(Error::OpenContour));
    let short = GlyphOutline {
        outline: Outline::new(points, vec![vec![0, 1]], Vec::new(), 1, 2).unwrap(),
        rect,
    };
    assert_eq!(generator.generate_mesh(Some(&short), Ok(Vec::new())), Err(Error::MalformedOutline));
}

#[test]
fn an_error_of_the_engine_is_handed_on() {
    let data = font(800, -200, 3);
    let face = ttf_parser::Face::parse(&data, 0).unwrap();
    for config in [Config::default(), flat_config()] {
        let generator = MeshGenerator::new_with_config(&face, height(&face), config);
        let glyph = square();
        assert_eq!(
            generator.generate_mesh(Some(&glyph), Err(engine_error())),
            Err(Error::Tessellation(engine_error()))
        );
    }
}

#[test]
fn the_same_input_gives_the_same_mesh() {
    let data = font(800, -200, 3);
    let face = ttf_parser::Face::parse(&data, 0).unwrap();
    for config in [Config::default(), flat_config()] {
        let generator = MeshGenerator::new_with_config(&face, height(&face), config);
        let first = generator.generate_mesh(Some(&square()), Ok(square_triangles())).unwrap();
        let second = generator.generate_mesh(Some(&square()), Ok(square_triangles())).unwrap();
        assert_eq!(first.vertices, second.vertices);
        assert_eq!(first.indices, second.indices);
        assert_eq!(first, second);
    }
}

#[test]
fn triangles_fit_where_every_corner_names_a_point() {
    assert!(triangles_fit(&square_triangles(), 4));
    assert!(!triangles_fit(&square_triangles(), 3));
    assert!(triangles_fit(&Vec::new(), 0));
    assert!(!triangles_fit(&vec![Triangle { a: 0, b: 0, c: 0 }], 0));
    assert!(!triangles_fit(&vec![Triangle { a: 0, b: 5, c: 1 }], 5));
    assert!(!triangles_fit(&vec![Triangle { a: 5, b: 0, c: 1 }], 5));
    assert!(!triangles_fit(&vec![Triangle { a: 0, b: 1, c: 5 }], 5));
}

#[test]
fn a_triangulation_that_does_not_fit_is_not_taken() {
    let data = font(800, -200, 3);
    let face = ttf_parser::Face::parse(&data, 0).unwrap();
    for config in [Config::default(), flat_config()] {
        let generator = MeshGenerator::new_with_config(&face, height(&face), config);
        let glyph = square();
        let beyond = vec![Triangle { a: 0, b: 1, c: 4 }];
        assert_eq!(generator.try_generate_mesh(Some(&glyph), Ok(beyond)), None);
        let fitting = generator.try_generate_mesh(Some(&glyph), Ok(square_triangles()));
        assert_eq!(fitting, Some(generator.generate_mesh(Some(&glyph), Ok(square_triangles()))));
        assert!(fitting.unwrap().is_ok());
    }
}

#[test]
fn a_triangulation_that_is_not_read_need_not_fit() {
    let data = font(800, -200, 3);
    let face = ttf_parser::Face::parse(&data, 0).unwrap();
    let generator = MeshGenerator::new(&face, height(&face));
    let beyond = vec![Triangle { a: 0, b: 1, c: 4 }];
    assert_eq!(generator.try_generate_mesh(None, Ok(beyond.clone())), Some(Ok(Mesh::empty())));
    let points = vec![Point { x: 0, y: 0 }, Point { x: 2, y: 0 }, Point { x: 2, y: 2 }];
    let open = GlyphOutline {
        outline: Outline::new(points, Vec::new(), vec![vec![0, 1, 2]], 1, 2).unwrap(),
        rect: Rect { x_min: 0, y_min: 0, x_max: 1, y_max: 1 },
    };
    assert_eq!(
        generator.try_generate_mesh(Some(&open), Ok(beyond)),
        Some(Err(Error::OpenContour))
    );
    assert_eq!(
        generator.try_generate_mesh(Some(&square()), Err(engine_error())),
        Some(Err(Error::Tessellation(engine_error())))
    );
}
