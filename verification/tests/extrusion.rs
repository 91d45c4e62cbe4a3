use glyph_mesh::geometry::{BoundingBox, Point, Vec3};
use glyph_mesh::mesh::{boundary_edges, Edge, Mesh, Triangle};

fn square_points() -> Vec<Point> {
    vec![
        Point { x: 0, y: 0 },
        Point { x: 2, y: 0 },
        Point { x: 2, y: 2 },
        Point { x: 0, y: 2 },
    ]
}

fn square_triangles() -> Vec<Triangle> {
    vec![Triangle { a: 0, b: 1, c: 2 }, Triangle { a: 0, b: 2, c: 3 }]
}

#[test]
fn square_boundary_is_its_four_sides() {
    let boundary = boundary_edges(&square_triangles());
    assert_eq!(
        boundary,
        vec![
            Edge { from: 0, to: 1 },
            Edge { from: 1, to: 2 },
            Edge { from: 2, to: 3 },
            Edge { from: 3, to: 0 },
        ]
    );
}

#[test]
fn square_extrudes_to_twelve_triangles() {
    let bbox = BoundingBox::new(Vec3 { x: 0, y: 0, z: -1 }, Vec3 { x: 2, y: 2, z: 1 });
    let mesh = Mesh::extruded(&square_points(), &square_triangles(), bbox, 2, 1);
    assert_eq!(mesh.vertices.len(), 8);
    for i in 0..4 {
        assert_eq!(mesh.vertices[i].z, 1);
        assert_eq!(mesh.vertices[i + 4].z, -1);
        assert_eq!(mesh.vertices[i].x, mesh.vertices[i + 4].x);
        assert_eq!(mesh.vertices[i].y, mesh.vertices[i + 4].y);
    }
    assert_eq!(mesh.denominator, 2);
    assert_eq!(mesh.indices.len(), 36);
    assert_eq!(
        mesh.indices,
        vec![
            0, 1, 2, 0, 2, 3, // front
            6, 5, 4, 7, 6, 4, // back
            1, 0, 4, 4, 5, 1, // wall over 0 -> 1
            2, 1, 5, 5, 6, 2, // wall over 1 -> 2
            3, 2, 6, 6, 7, 3, // wall over 2 -> 3
            0, 3, 7, 7, 4, 0, // wall over 3 -> 0
        ]
    );
}
