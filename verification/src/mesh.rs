//! Mesh assembly: the flat face, and the solid made of a front cap, a
//! mirrored back cap and side walls along the silhouette.

use std::collections::HashSet;
use vstd::prelude::*;
use crate::geometry::BoundingBox;
use crate::geometry::Point;
use crate::geometry::Vec3;

verus! {

broadcast use vstd::std_specs::hash::group_hash_axioms;

/// A triangle, as three indices into a vertex sequence.
#[derive(Clone, Copy, Debug, PartialEq, Eq, Structural)]
pub struct Triangle {
    pub a: u32,
    pub b: u32,
    pub c: u32,
}

/// A directed edge between two vertices.
#[derive(Clone, Copy, Debug, PartialEq, Eq, Structural)]
pub struct Edge {
    pub from: u32,
    pub to: u32,
}

/// The generated mesh of one glyph. The triangles use indexed vertices, and
/// every coordinate is a numerator over `denominator`.
#[derive(Clone, Debug, PartialEq, Eq)]
pub struct Mesh {
    /// The bounding box of this mesh.
    pub bbox: BoundingBox,
    /// The indices of this mesh, three for each triangle.
    pub indices: Vec<u32>,
    /// The vertices of this mesh.
    pub vertices: Vec<Vec3>,
    /// What the coordinates of the vertices and of the box are divided by.
    pub denominator: i128,
}

/// What a mesh holds.
pub struct MeshView {
    /// The bounding box.
    pub bbox: BoundingBox,
    /// The indices, three for each triangle.
    pub indices: Seq<u32>,
    /// The vertices.
    pub vertices: Seq<Vec3>,
    /// What the coordinates are divided by.
    pub denominator: int,
}

impl View for Mesh {
    type V = MeshView;

    open spec fn view(&self) -> MeshView {
        MeshView {
            bbox: self.bbox,
            indices: self.indices@,
            vertices: self.vertices@,
            denominator: self.denominator as int,
        }
    }
}

impl MeshView {
    /// The mesh of a glyph without an outline: no vertices, no indices, and
    /// a box whose corners are both the origin.
    pub open spec fn empty() -> MeshView {
        MeshView {
            bbox: BoundingBox::spec_empty(),
            indices: Seq::empty(),
            vertices: Seq::empty(),
            denominator: 1,
        }
    }

    /// The flat mesh over `points`.
    pub open spec fn flat(
        points: Seq<Point>,
        triangles: Seq<Triangle>,
        bbox: BoundingBox,
        denominator: int,
    ) -> MeshView {
        MeshView {
            bbox,
            indices: indices_of(triangles),
            vertices: promote(points, 0),
            denominator,
        }
    }

    /// The solid over `points`, which reaches from the depth `half_depth` to
    /// the depth `-half_depth`.
    pub open spec fn extruded(
        points: Seq<Point>,
        triangles: Seq<Triangle>,
        bbox: BoundingBox,
        denominator: int,
        half_depth: int,
    ) -> MeshView {
        MeshView {
            bbox,
            indices: indices_of(extruded_triangles(triangles, points.len() as int)),
            vertices: promote(points, half_depth) + promote(points, -half_depth),
            denominator,
        }
    }

    /// Whether every index names a vertex.
    pub open spec fn indices_in_range(self) -> bool {
        forall|i: int| 0 <= i < self.indices.len() ==> self.indices[i] < self.vertices.len()
    }

    /// The vertices that the indices name, one for each index.
    pub open spec fn unindexed(self) -> Seq<Vec3> {
        Seq::new(self.indices.len(), |i: int| self.vertices[self.indices[i] as int])
    }

    /// The vertices without their depth.
    pub open spec fn projected(self) -> Seq<Point> {
        without_depth(self.vertices)
    }
}

/// The positions of a list without their depth.
pub open spec fn without_depth(vertices: Seq<Vec3>) -> Seq<Point> {
    Seq::new(vertices.len(), |i: int| Point { x: vertices[i].x, y: vertices[i].y })
}

impl Default for Mesh {
    /// The mesh of a glyph without an outline.
    fn default() -> (mesh: Mesh)
        ensures
            mesh@ == MeshView::empty(),
    {
        Mesh::empty()
    }
}

/// The three directed edges of each triangle, triangle after triangle.
pub open spec fn directed_edges(triangles: Seq<Triangle>) -> Seq<Edge> {
    Seq::new(
        3 * triangles.len(),
        |i: int|
            {
                let t = triangles[i / 3];
                if i % 3 == 0 {
                    Edge { from: t.a, to: t.b }
                } else if i % 3 == 1 {
                    Edge { from: t.b, to: t.c }
                } else {
                    Edge { from: t.c, to: t.a }
                }
            },
    )
}

/// The key of an edge without its direction: the smaller end, then the larger.
pub open spec fn edge_key(e: Edge) -> int {
    if e.from <= e.to {
        e.from * 0x1_0000_0000 + e.to
    } else {
        e.to * 0x1_0000_0000 + e.from
    }
}

/// How many of `edges` have the key `key`.
pub open spec fn key_count(edges: Seq<Edge>, key: int) -> nat
    decreases edges.len(),
{
    if edges.len() == 0 {
        0
    } else {
        key_count(edges.drop_last(), key) + if edge_key(edges.last()) == key {
            1nat
        } else {
            0nat
        }
    }
}

/// Whether position `i` of `edges` holds a silhouette edge for the first
/// time: its key occurs an odd number of times in all, and not before `i`.
pub open spec fn is_first_boundary(edges: Seq<Edge>, i: int) -> bool {
    &&& key_count(edges, edge_key(edges[i])) % 2 == 1
    &&& key_count(edges.take(i), edge_key(edges[i])) == 0
}

/// The silhouette edges among the first `n` of `edges`, each once, in the
/// order and direction of its first occurrence.
pub open spec fn boundary_prefix(edges: Seq<Edge>, n: nat) -> Seq<Edge>
    decreases n,
{
    if n == 0 {
        Seq::empty()
    } else {
        let before = boundary_prefix(edges, (n - 1) as nat);
        if is_first_boundary(edges, n - 1) {
            before.push(edges[n - 1])
        } else {
            before
        }
    }
}

/// The silhouette of a triangulation: the edges that an odd number of
/// triangle sides share, each once, in the order and direction in which the
/// triangles first name them.
pub open spec fn boundary_of(triangles: Seq<Triangle>) -> Seq<Edge> {
    boundary_prefix(directed_edges(triangles), directed_edges(triangles).len())
}

/// The key of an edge without its direction.
fn key_of(e: Edge) -> (k: u64)
    ensures
        k == edge_key(e),
{
    let from: u64 = e.from as u64;
    let to: u64 = e.to as u64;
    if from <= to {
        from * 0x1_0000_0000 + to
    } else {
        to * 0x1_0000_0000 + from
    }
}

/// Lists the three directed edges of each triangle.
fn list_edges(triangles: &Vec<Triangle>) -> (edges: Vec<Edge>)
    ensures
        edges@ == directed_edges(triangles@),
{
    let mut edges: Vec<Edge> = Vec::new();
    let mut i: usize = 0;
    while i < triangles.len()
        invariant
            i <= triangles.len(),
            edges@ == directed_edges(triangles@.take(i as int)),
        decreases triangles.len() - i,
    {
        let t = triangles[i];
        let ghost before = edges@;
        edges.push(Edge { from: t.a, to: t.b });
        edges.push(Edge { from: t.b, to: t.c });
        edges.push(Edge { from: t.c, to: t.a });
        proof {
            let next = directed_edges(triangles@.take(i + 1));
            assert(edges@.len() == next.len());
            assert forall|j: int| 0 <= j < next.len() implies edges@[j] == next[j] by {
                if j < 3 * i {
                    assert(before[j] == directed_edges(triangles@.take(i as int))[j]);
                    assert(triangles@.take(i as int)[j / 3] == triangles@.take(i + 1)[j / 3]);
                } else {
                    assert(j / 3 == i);
                }
            }
            assert(edges@ =~= next);
        }
        i = i + 1;
    }
    proof {
        assert(triangles@.take(triangles.len() as int) =~= triangles@);
    }
    edges
}

/// A key that ends `edges` is counted once more than before it.
proof fn lemma_count_step(edges: Seq<Edge>, j: int, key: int)
    requires
        0 <= j < edges.len(),
    ensures
        key_count(edges.take(j + 1), key) == key_count(edges.take(j), key) + if edge_key(edges[j])
            == key {
            1nat
        } else {
            0nat
        },
{
    assert(edges.take(j + 1).drop_last() =~= edges.take(j));
}

/// Finds the silhouette of a triangulation by parity: a key that is seen
/// for the first time is recorded, one that is seen again is removed, and
/// what stays recorded lies on the silhouette. The edges come out in the
/// order and direction in which the triangles first name them.
pub fn boundary_edges(triangles: &Vec<Triangle>) -> (boundary: Vec<Edge>)
    ensures
        boundary@ == boundary_of(triangles@),
{
    let edges = list_edges(triangles);
    let mut odd: HashSet<u64> = HashSet::new();
    let mut i: usize = 0;
    while i < edges.len()
        invariant
            i <= edges.len(),
            forall|k: u64| odd@.contains(k) <==> key_count(edges@.take(i as int), k as int) % 2 == 1,
        decreases edges.len() - i,
    {
        let key = key_of(edges[i]);
        proof {
            assert forall|k: u64|
                key_count(edges@.take(i + 1), k as int) == key_count(edges@.take(i as int), k as int)
                    + if k == key {
                    1nat
                } else {
                    0nat
                } by {
                lemma_count_step(edges@, i as int, k as int);
            }
        }
        if odd.contains(&key) {
            odd.remove(&key);
        } else {
            odd.insert(key);
        }
        i = i + 1;
    }
    proof {
        assert(edges@.take(edges.len() as int) =~= edges@);
    }
    let mut boundary: Vec<Edge> = Vec::new();
    let mut j: usize = 0;
    while j < edges.len()
        invariant
            j <= edges.len(),
            boundary@ == boundary_prefix(edges@, j as nat),
            forall|k: u64|
                odd@.contains(k) <==> key_count(edges@, k as int) % 2 == 1 && key_count(
                    edges@.take(j as int),
                    k as int,
                ) == 0,
        decreases edges.len() - j,
    {
        let e = edges[j];
        let key = key_of(e);
        proof {
            assert forall|k: u64|
                key_count(edges@.take(j + 1), k as int) == key_count(edges@.take(j as int), k as int)
                    + if k == key {
                    1nat
                } else {
                    0nat
                } by {
                lemma_count_step(edges@, j as int, k as int);
            }
        }
        if odd.contains(&key) {
            odd.remove(&key);
            boundary.push(e);
        }
        j = j + 1;
    }
    boundary
}

/// The index buffer of a triangle list: three indices for each triangle.
pub open spec fn indices_of(triangles: Seq<Triangle>) -> Seq<u32> {
    Seq::new(
        3 * triangles.len(),
        |i: int|
            {
                let t = triangles[i / 3];
                if i % 3 == 0 {
                    t.a
                } else if i % 3 == 1 {
                    t.b
                } else {
                    t.c
                }
            },
    )
}

/// The points of an outline as vertices at the depth `z`.
pub open spec fn promote(points: Seq<Point>, z: int) -> Seq<Vec3> {
    Seq::new(points.len(), |i: int| Vec3 { x: points[i].x, y: points[i].y, z: z as i128 })
}

/// Whether every corner of every triangle is below `count`.
pub open spec fn triangles_in_range(triangles: Seq<Triangle>, count: int) -> bool {
    forall|i: int|
        0 <= i < triangles.len() ==> (#[trigger] triangles[i]).a < count && triangles[i].b < count
            && triangles[i].c < count
}

/// Whether both ends of every edge are below `count`.
pub open spec fn edges_in_range(edges: Seq<Edge>, count: int) -> bool {
    forall|i: int| 0 <= i < edges.len() ==> (#[trigger] edges[i]).from < count && edges[i].to < count
}

/// The back cap: each front triangle moved by `offset` to the mirrored
/// vertices, with its corners in reverse order.
pub open spec fn back_cap(front: Seq<Triangle>, offset: int) -> Seq<Triangle> {
    Seq::new(
        front.len(),
        |i: int|
            Triangle {
                a: (front[i].c + offset) as u32,
                b: (front[i].b + offset) as u32,
                c: (front[i].a + offset) as u32,
            },
    )
}

/// The first of the two wall triangles over a silhouette edge.
pub open spec fn wall_upper(e: Edge, offset: int) -> Triangle {
    Triangle { a: e.to, b: e.from, c: (e.from + offset) as u32 }
}

/// The second of the two wall triangles over a silhouette edge.
pub open spec fn wall_lower(e: Edge, offset: int) -> Triangle {
    Triangle { a: (e.from + offset) as u32, b: (e.to + offset) as u32, c: e.to }
}

/// The side walls: two triangles over each silhouette edge, which together
/// join the edge to its mirror image. They run against the direction in
/// which the front cap names the edge, so that they face away from the solid.
pub open spec fn side_walls(boundary: Seq<Edge>, offset: int) -> Seq<Triangle> {
    Seq::new(
        2 * boundary.len(),
        |i: int|
            if i % 2 == 0 {
                wall_upper(boundary[i / 2], offset)
            } else {
                wall_lower(boundary[i / 2], offset)
            },
    )
}

/// The triangles of the solid over a front cap of `offset` vertices: the
/// front cap, then the back cap, then the side walls.
pub open spec fn extruded_triangles(front: Seq<Triangle>, offset: int) -> Seq<Triangle> {
    front + back_cap(front, offset) + side_walls(boundary_of(front), offset)
}

/// One more triangle adds its three corners to the index buffer.
proof fn lemma_indices_push(triangles: Seq<Triangle>, t: Triangle)
    ensures
        indices_of(triangles.push(t)) == indices_of(triangles) + seq![t.a, t.b, t.c],
{
    let left = indices_of(triangles.push(t));
    let right = indices_of(triangles) + seq![t.a, t.b, t.c];
    assert(left.len() == right.len());
    assert forall|i: int| 0 <= i < left.len() implies left[i] == right[i] by {
        if i < 3 * triangles.len() {
            assert(triangles.push(t)[i / 3] == triangles[i / 3]);
        } else {
            assert(i / 3 == triangles.len());
        }
    }
    assert(left =~= right);
}

/// Every silhouette edge is one of the edges it was chosen from.
proof fn lemma_boundary_in_range(edges: Seq<Edge>, n: nat, count: int)
    requires
        n <= edges.len(),
        edges_in_range(edges, count),
    ensures
        edges_in_range(boundary_prefix(edges, n), count),
        boundary_prefix(edges, n).len() <= n,
    decreases n,
{
    if n > 0 {
        lemma_boundary_in_range(edges, (n - 1) as nat, count);
    }
}

/// Appends the three corners of a triangle to an index buffer.
fn push_triangle(indices: &mut Vec<u32>, a: u32, b: u32, c: u32)
    ensures
        final(indices)@ == old(indices)@ + seq![a, b, c],
{
    indices.push(a);
    indices.push(b);
    indices.push(c);
    assert(indices@ =~= old(indices)@ + seq![a, b, c]);
}

/// Appends the corners of the triangles of a list to an index buffer.
fn push_triangles(indices: &mut Vec<u32>, triangles: &Vec<Triangle>)
    ensures
        final(indices)@ == old(indices)@ + indices_of(triangles@),
{
    let mut i: usize = 0;
    proof {
        assert(indices_of(triangles@.take(0)) =~= Seq::<u32>::empty());
        assert(indices@ =~= old(indices)@ + indices_of(triangles@.take(0)));
    }
    while i < triangles.len()
        invariant
            i <= triangles.len(),
            indices@ == old(indices)@ + indices_of(triangles@.take(i as int)),
        decreases triangles.len() - i,
    {
        let t = triangles[i];
        let ghost held = indices@;
        proof {
            lemma_indices_push(triangles@.take(i as int), t);
            assert(triangles@.take(i + 1) =~= triangles@.take(i as int).push(t));
        }
        push_triangle(indices, t.a, t.b, t.c);
        proof {
            assert(indices@ =~= old(indices)@ + indices_of(triangles@.take(i + 1)));
        }
        i = i + 1;
    }
    proof {
        assert(triangles@.take(triangles.len() as int) =~= triangles@);
    }
}

/// Appends the points to a vertex buffer, at the depth `z`.
fn push_vertices(vertices: &mut Vec<Vec3>, points: &Vec<Point>, z: i128)
    ensures
        final(vertices)@ == old(vertices)@ + promote(points@, z as int),
{
    let mut i: usize = 0;
    while i < points.len()
        invariant
            i <= points.len(),
            vertices@ == old(vertices)@ + promote(points@.take(i as int), z as int),
        decreases points.len() - i,
    {
        let p = points[i];
        vertices.push(Vec3 { x: p.x, y: p.y, z });
        assert(vertices@ =~= old(vertices)@ + promote(points@.take(i + 1), z as int));
        i = i + 1;
    }
    assert(points@.take(points.len() as int) =~= points@);
}

impl Mesh {
    /// Creates the mesh of a glyph without an outline: no vertices, no
    /// indices, and a box whose corners are both the origin.
    pub fn empty() -> (mesh: Mesh)
        ensures
            mesh@ == MeshView::empty(),
    {
        Mesh { bbox: BoundingBox::empty(), indices: Vec::new(), vertices: Vec::new(), denominator: 1 }
    }

    /// Assembles the flat mesh: the points at depth zero, and the triangles
    /// of the triangulation as they are.
    pub fn flat(
        points: &Vec<Point>,
        triangles: &Vec<Triangle>,
        bbox: BoundingBox,
        denominator: i128,
    ) -> (mesh: Mesh)
        ensures
            mesh@ == MeshView::flat(points@, triangles@, bbox, denominator as int),
    {
        let mut vertices: Vec<Vec3> = Vec::new();
        push_vertices(&mut vertices, points, 0);
        let mut indices: Vec<u32> = Vec::new();
        push_triangles(&mut indices, triangles);
        proof {
            assert(indices@ =~= indices_of(triangles@));
            assert(vertices@ =~= promote(points@, 0));
        }
        Mesh { bbox, indices, vertices, denominator }
    }

    /// Assembles the solid over a front cap. The points stand at the depth
    /// `half_depth` and once more, mirrored, at the depth `-half_depth`; the
    /// mirror image of the vertex `i` is the vertex `i + points.len()`. The
    /// index buffer holds the front cap as it is, then the back cap with
    /// each triangle reversed, then two wall triangles over each silhouette
    /// edge.
    pub fn extruded(
        points: &Vec<Point>,
        triangles: &Vec<Triangle>,
        bbox: BoundingBox,
        denominator: i128,
        half_depth: i128,
    ) -> (mesh: Mesh)
        requires
            points.len() <= 0x8000_0000,
            triangles_in_range(triangles@, points.len() as int),
            half_depth > i128::MIN,
        ensures
            mesh@ == MeshView::extruded(
                points@,
                triangles@,
                bbox,
                denominator as int,
                half_depth as int,
            ),
    {
        let mut vertices: Vec<Vec3> = Vec::new();
        push_vertices(&mut vertices, points, half_depth);
        push_vertices(&mut vertices, points, -half_depth);

        let offset: u32 = points.len() as u32;
        let ghost r = points.len() as int;
        let mut indices: Vec<u32> = Vec::new();
        push_triangles(&mut indices, triangles);
        proof {
            assert(indices@ =~= indices_of(triangles@));
            assert(back_cap(triangles@, r).take(0) =~= Seq::<Triangle>::empty());
            assert(triangles@ + back_cap(triangles@, r).take(0) =~= triangles@);
        }
        let mut k: usize = 0;
        while k < triangles.len()
            invariant
                k <= triangles.len(),
                offset == r,
                r == points.len(),
                r <= 0x8000_0000,
                triangles_in_range(triangles@, r),
                indices@ == indices_of(triangles@ + back_cap(triangles@, r).take(k as int)),
            decreases triangles.len() - k,
        {
            let t = triangles[k];
            let ghost done = triangles@ + back_cap(triangles@, r).take(k as int);
            let ghost mirrored = back_cap(triangles@, r)[k as int];
            proof {
                lemma_indices_push(done, mirrored);
                assert(triangles@ + back_cap(triangles@, r).take(k + 1) =~= done.push(mirrored));
            }
            push_triangle(&mut indices, t.c + offset, t.b + offset, t.a + offset);
            k = k + 1;
        }
        let boundary = boundary_edges(triangles);
        let ghost caps = triangles@ + back_cap(triangles@, r);
        proof {
            assert(back_cap(triangles@, r).take(triangles.len() as int) =~= back_cap(triangles@, r));
            let edges = directed_edges(triangles@);
            assert(edges_in_range(edges, r)) by {
                assert forall|j: int| 0 <= j < edges.len() implies (#[trigger] edges[j]).from < r
                    && edges[j].to < r by {
                    assert(triangles@[j / 3].a < r);
                }
            }
            lemma_boundary_in_range(edges, edges.len(), r);
            assert(side_walls(boundary@, r).take(0) =~= Seq::<Triangle>::empty());
            assert(caps + side_walls(boundary@, r).take(0) =~= caps);
        }
        let mut w: usize = 0;
        while w < boundary.len()
            invariant
                w <= boundary.len(),
                offset == r,
                r <= 0x8000_0000,
                edges_in_range(boundary@, r),
                indices@ == indices_of(caps + side_walls(boundary@, r).take(2 * w)),
            decreases boundary.len() - w,
        {
            let e = boundary[w];
            let ghost walls = side_walls(boundary@, r);
            let ghost done = caps + walls.take(2 * w);
            proof {
                assert(walls[2 * w] == wall_upper(e, r));
                assert(walls[2 * w + 1] == wall_lower(e, r));
                lemma_indices_push(done, wall_upper(e, r));
                lemma_indices_push(done.push(wall_upper(e, r)), wall_lower(e, r));
                assert(caps + walls.take(2 * (w + 1)) =~= done.push(wall_upper(e, r)).push(
                    wall_lower(e, r),
                ));
            }
            push_triangle(&mut indices, e.to, e.from, e.from + offset);
            push_triangle(&mut indices, e.from + offset, e.to + offset, e.to);
            w = w + 1;
        }
        proof {
            let walls = side_walls(boundary@, r);
            assert(walls.take(2 * boundary.len()) =~= walls);
            assert(caps + walls =~= extruded_triangles(triangles@, r));
            assert(vertices@ =~= promote(points@, half_depth as int) + promote(
                points@,
                -(half_depth as int),
            ));
        }
        Mesh { bbox, indices, vertices, denominator }
    }

    /// The mesh without indices: for each index the vertex that it names,
    /// three vertices for each triangle, in the order of the indices.
    /// `None` where an index names no vertex.
    pub fn unindexed(&self) -> (vertices: Option<Vec<Vec3>>)
        ensures
            vertices is Some <==> self@.indices_in_range(),
            vertices matches Some(list) ==> list@ == self@.unindexed(),
    {
        let mut list: Vec<Vec3> = Vec::new();
        let mut i: usize = 0;
        while i < self.indices.len()
            invariant
                i <= self.indices.len(),
                forall|j: int| 0 <= j < i ==> self.indices@[j] < self.vertices@.len(),
                list@ == self@.unindexed().take(i as int),
            decreases self.indices.len() - i,
        {
            let index = self.indices[i] as usize;
            if index >= self.vertices.len() {
                return None;
            }
            list.push(self.vertices[index]);
            proof {
                assert(list@ =~= self@.unindexed().take(i + 1));
            }
            i = i + 1;
        }
        proof {
            assert(self@.unindexed().take(self.indices.len() as int) =~= self@.unindexed());
        }
        Some(list)
    }

    /// The vertices of the mesh without their depth.
    pub fn projected(&self) -> (points: Vec<Point>)
        ensures
            points@ == self@.projected(),
    {
        project(&self.vertices)
    }
}

/// Drops the depth of every position of a list: the flat picture of a
/// mesh, or of its vertices without indices.
pub fn project(vertices: &Vec<Vec3>) -> (points: Vec<Point>)
    ensures
        points@ == without_depth(vertices@),
{
    let mut points: Vec<Point> = Vec::new();
    let mut i: usize = 0;
    while i < vertices.len()
        invariant
            i <= vertices.len(),
            points@ == without_depth(vertices@).take(i as int),
        decreases vertices.len() - i,
    {
        let v = vertices[i];
        points.push(Point { x: v.x, y: v.y });
        proof {
            assert(points@ =~= without_depth(vertices@).take(i + 1));
        }
        i = i + 1;
    }
    proof {
        assert(without_depth(vertices@).take(vertices.len() as int) =~= without_depth(vertices@));
    }
    points
}

} // verus!
