//! What holds of every solid that the assembler makes: over a front cap
//! that is a surface with a border, the solid is closed.

use vstd::prelude::*;
use crate::mesh::back_cap;
use crate::mesh::boundary_of;
use crate::mesh::boundary_prefix;
use crate::mesh::directed_edges;
use crate::mesh::edge_key;
use crate::mesh::edges_in_range;
use crate::mesh::extruded_triangles;
use crate::mesh::indices_of;
use crate::mesh::is_first_boundary;
use crate::mesh::key_count;
use crate::mesh::side_walls;
use crate::mesh::triangles_in_range;
use crate::mesh::wall_lower;
use crate::mesh::wall_upper;
use crate::mesh::Edge;
use crate::mesh::Triangle;

verus! {

/// Whether an edge joins the vertices `x` and `y`, in either direction.
pub open spec fn joins(e: Edge, x: int, y: int) -> bool {
    (e.from == x && e.to == y) || (e.from == y && e.to == x)
}

/// Two edges have one key where they join the same two vertices.
pub proof fn lemma_key_joins(e: Edge, f: Edge)
    ensures
        edge_key(e) == edge_key(f) <==> joins(e, f.from as int, f.to as int),
{
}

/// The edges of two lists behind one another are counted list by list.
pub proof fn lemma_count_add(s: Seq<Edge>, t: Seq<Edge>, key: int)
    ensures
        key_count(s + t, key) == key_count(s, key) + key_count(t, key),
    decreases t.len(),
{
    if t.len() == 0 {
        assert(s + t =~= s);
    } else {
        assert((s + t).drop_last() =~= s + t.drop_last());
        lemma_count_add(s, t.drop_last(), key);
    }
}

/// The edges of two triangle lists behind one another are the edges of the
/// first list and then those of the second.
pub proof fn lemma_edges_add(s: Seq<Triangle>, t: Seq<Triangle>)
    ensures
        directed_edges(s + t) == directed_edges(s) + directed_edges(t),
{
    let left = directed_edges(s + t);
    let right = directed_edges(s) + directed_edges(t);
    assert(left.len() == right.len());
    assert forall|i: int| 0 <= i < left.len() implies left[i] == right[i] by {
        if i < 3 * s.len() {
            assert((s + t)[i / 3] == s[i / 3]);
        } else {
            let j = i - 3 * s.len();
            assert(j / 3 == i / 3 - s.len());
            assert(j % 3 == i % 3);
            assert((s + t)[i / 3] == t[j / 3]);
            assert(right[i] == directed_edges(t)[j]);
        }
    }
    assert(left =~= right);
}

/// How many sides of a triangle have the key `key`.
pub open spec fn sides_with_key(t: Triangle, key: int) -> nat {
    (if edge_key(Edge { from: t.a, to: t.b }) == key {
        1nat
    } else {
        0nat
    }) + (if edge_key(Edge { from: t.b, to: t.c }) == key {
        1nat
    } else {
        0nat
    }) + (if edge_key(Edge { from: t.c, to: t.a }) == key {
        1nat
    } else {
        0nat
    })
}

/// How many sides of the triangles of a list have the key `key`.
pub open spec fn sides_count(triangles: Seq<Triangle>, key: int) -> nat
    decreases triangles.len(),
{
    if triangles.len() == 0 {
        0
    } else {
        sides_count(triangles.drop_last(), key) + sides_with_key(triangles.last(), key)
    }
}

/// The edges of a triangle list are counted triangle by triangle.
pub proof fn lemma_edges_by_sides(triangles: Seq<Triangle>, key: int)
    ensures
        key_count(directed_edges(triangles), key) == sides_count(triangles, key),
    decreases triangles.len(),
{
    if triangles.len() == 0 {
        assert(directed_edges(triangles) =~= Seq::<Edge>::empty());
    } else {
        let t = triangles.last();
        let rest = triangles.drop_last();
        lemma_edges_by_sides(rest, key);
        assert(triangles =~= rest + seq![t]);
        lemma_edges_add(rest, seq![t]);
        lemma_count_add(directed_edges(rest), directed_edges(seq![t]), key);
        let three = directed_edges(seq![t]);
        assert(three.len() == 3);
        assert(three[0] == Edge { from: t.a, to: t.b });
        assert(three[1] == Edge { from: t.b, to: t.c });
        assert(three[2] == Edge { from: t.c, to: t.a });
        let two = three.drop_last();
        let one = two.drop_last();
        assert(one.drop_last().len() == 0);
        assert(key_count(one.drop_last(), key) == 0);
        assert(one.last() == three[0]);
        assert(two.last() == three[1]);
        assert(three.last() == three[2]);
        assert(key_count(one, key) == if edge_key(three[0]) == key {
            1nat
        } else {
            0nat
        });
        assert(key_count(two, key) == key_count(one, key) + if edge_key(three[1]) == key {
            1nat
        } else {
            0nat
        });
        assert(key_count(three, key) == sides_with_key(t, key));
    }
}

/// The sides of two triangle lists behind one another are counted list by
/// list.
pub proof fn lemma_sides_add(s: Seq<Triangle>, t: Seq<Triangle>, key: int)
    ensures
        sides_count(s + t, key) == sides_count(s, key) + sides_count(t, key),
    decreases t.len(),
{
    if t.len() == 0 {
        assert(s + t =~= s);
    } else {
        assert((s + t).drop_last() =~= s + t.drop_last());
        lemma_sides_add(s, t.drop_last(), key);
    }
}

/// An edge moved back by `offset` vertices, from the back cap to the front.
pub open spec fn lowered(e: Edge, offset: int) -> Edge {
    Edge { from: (e.from - offset) as u32, to: (e.to - offset) as u32 }
}

/// No side of the front cap reaches a vertex of the back cap.
pub proof fn lemma_front_stays_in_front(front: Seq<Triangle>, count: int, f: Edge)
    requires
        triangles_in_range(front, count),
        f.from >= count || f.to >= count,
    ensures
        sides_count(front, edge_key(f)) == 0,
    decreases front.len(),
{
    if front.len() > 0 {
        let t = front.last();
        assert(front[front.len() - 1] == t);
        assert(triangles_in_range(front.drop_last(), count)) by {
            assert forall|i: int| 0 <= i < front.drop_last().len() implies (
            #[trigger] front.drop_last()[i]).a < count && front.drop_last()[i].b < count
                && front.drop_last()[i].c < count by {
                assert(front.drop_last()[i] == front[i]);
            }
        }
        lemma_front_stays_in_front(front.drop_last(), count, f);
        lemma_key_joins(Edge { from: t.a, to: t.b }, f);
        lemma_key_joins(Edge { from: t.b, to: t.c }, f);
        lemma_key_joins(Edge { from: t.c, to: t.a }, f);
    }
}

/// The back cap has, between two of its vertices, the sides that the front
/// cap has between their images in front; and no side of the back cap
/// reaches a vertex of the front cap.
pub proof fn lemma_back_mirrors_front(front: Seq<Triangle>, count: int, f: Edge)
    requires
        count <= 0x8000_0000,
        triangles_in_range(front, count),
    ensures
        f.from >= count && f.to >= count ==> sides_count(back_cap(front, count), edge_key(f))
            == sides_count(front, edge_key(lowered(f, count))),
        f.from < count || f.to < count ==> sides_count(back_cap(front, count), edge_key(f)) == 0,
    decreases front.len(),
{
    if front.len() == 0 {
        assert(back_cap(front, count) =~= Seq::<Triangle>::empty());
    } else {
        let t = front.last();
        let rest = front.drop_last();
        assert(front[front.len() - 1] == t);
        assert(triangles_in_range(rest, count)) by {
            assert forall|i: int| 0 <= i < rest.len() implies (#[trigger] rest[i]).a < count
                && rest[i].b < count && rest[i].c < count by {
                assert(rest[i] == front[i]);
            }
        }
        lemma_back_mirrors_front(rest, count, f);
        let back = back_cap(front, count);
        assert(back.drop_last() =~= back_cap(rest, count));
        let m = back.last();
        assert(m == back[front.len() - 1]);
        assert(m.a == t.c + count && m.b == t.b + count && m.c == t.a + count);
        lemma_key_joins(Edge { from: m.a, to: m.b }, f);
        lemma_key_joins(Edge { from: m.b, to: m.c }, f);
        lemma_key_joins(Edge { from: m.c, to: m.a }, f);
        if f.from >= count && f.to >= count {
            let g = lowered(f, count);
            lemma_key_joins(Edge { from: t.a, to: t.b }, g);
            lemma_key_joins(Edge { from: t.b, to: t.c }, g);
            lemma_key_joins(Edge { from: t.c, to: t.a }, g);
        }
    }
}

/// How many sides of the two wall triangles over an edge have the key
/// `key`.
pub open spec fn wall_sides(e: Edge, offset: int, key: int) -> nat {
    sides_with_key(wall_upper(e, offset), key) + sides_with_key(wall_lower(e, offset), key)
}

/// How many sides of the walls over a list of edges have the key `key`.
pub open spec fn walls_count(boundary: Seq<Edge>, offset: int, key: int) -> nat
    decreases boundary.len(),
{
    if boundary.len() == 0 {
        0
    } else {
        walls_count(boundary.drop_last(), offset, key) + wall_sides(boundary.last(), offset, key)
    }
}

/// The sides of the walls are counted edge by edge.
pub proof fn lemma_walls_by_edge(boundary: Seq<Edge>, offset: int, key: int)
    ensures
        sides_count(side_walls(boundary, offset), key) == walls_count(boundary, offset, key),
    decreases boundary.len(),
{
    let walls = side_walls(boundary, offset);
    if boundary.len() == 0 {
        assert(walls =~= Seq::<Triangle>::empty());
    } else {
        let e = boundary.last();
        lemma_walls_by_edge(boundary.drop_last(), offset, key);
        assert(walls.drop_last().drop_last() =~= side_walls(boundary.drop_last(), offset));
        assert(walls.last() == wall_lower(e, offset));
        assert(walls.drop_last().last() == wall_upper(e, offset));
        assert(sides_count(walls.drop_last(), key) == sides_count(
            walls.drop_last().drop_last(),
            key,
        ) + sides_with_key(wall_upper(e, offset), key));
    }
}

/// How many edges of a list have the vertex `v` at one end.
pub open spec fn touching(edges: Seq<Edge>, v: int) -> nat
    decreases edges.len(),
{
    if edges.len() == 0 {
        0
    } else {
        touching(edges.drop_last(), v) + if edges.last().from == v || edges.last().to == v {
            1nat
        } else {
            0nat
        }
    }
}

/// How many edges of a list run from `from` to `to`.
pub open spec fn directed_count(edges: Seq<Edge>, from: int, to: int) -> nat
    decreases edges.len(),
{
    if edges.len() == 0 {
        0
    } else {
        directed_count(edges.drop_last(), from, to) + if edges.last().from == from
            && edges.last().to == to {
            1nat
        } else {
            0nat
        }
    }
}

/// Whether the two ends of every edge differ.
pub open spec fn edges_have_two_ends(edges: Seq<Edge>) -> bool {
    forall|i: int| 0 <= i < edges.len() ==> (#[trigger] edges[i]).from != edges[i].to
}

/// What holds of a list of edges holds of the list without its last edge.
proof fn lemma_drop_last_edges(edges: Seq<Edge>, count: int)
    requires
        edges.len() > 0,
    ensures
        edges_in_range(edges, count) ==> edges_in_range(edges.drop_last(), count),
        edges_have_two_ends(edges) ==> edges_have_two_ends(edges.drop_last()),
{
    let rest = edges.drop_last();
    if edges_in_range(edges, count) {
        assert forall|i: int| 0 <= i < rest.len() implies (#[trigger] rest[i]).from < count
            && rest[i].to < count by {
            assert(rest[i] == edges[i]);
        }
    }
    if edges_have_two_ends(edges) {
        assert forall|i: int| 0 <= i < rest.len() implies (#[trigger] rest[i]).from
            != rest[i].to by {
            assert(rest[i] == edges[i]);
        }
    }
}

/// The six sides of the two wall triangles over an edge.
proof fn lemma_wall_sides(e: Edge, offset: int, f: Edge)
    requires
        offset <= 0x8000_0000,
        e.from < offset,
        e.to < offset,
    ensures
        wall_sides(e, offset, edge_key(f)) == (if joins(e, f.from as int, f.to as int) {
            1nat
        } else {
            0nat
        }) + (if joins(f, e.from as int, e.from + offset) {
            1nat
        } else {
            0nat
        }) + (if joins(f, e.to as int, e.to + offset) {
            1nat
        } else {
            0nat
        }) + (if joins(f, e.from + offset, e.to + offset) {
            1nat
        } else {
            0nat
        }) + (if joins(f, e.to as int, e.from + offset) {
            2nat
        } else {
            0nat
        }),
{
    let up = wall_upper(e, offset);
    let low = wall_lower(e, offset);
    assert(up.a == e.to && up.b == e.from && up.c == e.from + offset);
    assert(low.a == e.from + offset && low.b == e.to + offset && low.c == e.to);
    lemma_key_joins(Edge { from: up.a, to: up.b }, f);
    lemma_key_joins(Edge { from: up.b, to: up.c }, f);
    lemma_key_joins(Edge { from: up.c, to: up.a }, f);
    lemma_key_joins(Edge { from: low.a, to: low.b }, f);
    lemma_key_joins(Edge { from: low.b, to: low.c }, f);
    lemma_key_joins(Edge { from: low.c, to: low.a }, f);
}

/// Between two vertices of the front cap the walls have one side for each
/// silhouette edge between them.
pub proof fn lemma_walls_in_front(boundary: Seq<Edge>, offset: int, f: Edge)
    requires
        offset <= 0x8000_0000,
        edges_in_range(boundary, offset),
        f.from < offset && f.to < offset,
    ensures
        walls_count(boundary, offset, edge_key(f)) == key_count(boundary, edge_key(f)),
    decreases boundary.len(),
{
    if boundary.len() > 0 {
        let e = boundary.last();
        assert(boundary[boundary.len() - 1] == e);
        lemma_drop_last_edges(boundary, offset);
        lemma_walls_in_front(boundary.drop_last(), offset, f);
        lemma_wall_sides(e, offset, f);
        lemma_key_joins(e, f);
    }
}

/// Between two vertices of the back cap the walls have one side for each
/// silhouette edge between their images in front.
pub proof fn lemma_walls_in_back(boundary: Seq<Edge>, offset: int, f: Edge)
    requires
        offset <= 0x8000_0000,
        edges_in_range(boundary, offset),
        f.from >= offset && f.to >= offset,
    ensures
        walls_count(boundary, offset, edge_key(f)) == key_count(
            boundary,
            edge_key(lowered(f, offset)),
        ),
    decreases boundary.len(),
{
    if boundary.len() > 0 {
        let e = boundary.last();
        assert(boundary[boundary.len() - 1] == e);
        lemma_drop_last_edges(boundary, offset);
        lemma_walls_in_back(boundary.drop_last(), offset, f);
        lemma_wall_sides(e, offset, f);
        lemma_key_joins(e, lowered(f, offset));
    }
}

/// Between a vertex and its mirror image the walls have one side for each
/// silhouette edge that touches the vertex.
pub proof fn lemma_walls_upright(boundary: Seq<Edge>, offset: int, f: Edge)
    requires
        offset <= 0x8000_0000,
        edges_in_range(boundary, offset),
        edges_have_two_ends(boundary),
        f.from < offset,
        f.to == f.from + offset,
    ensures
        walls_count(boundary, offset, edge_key(f)) == touching(boundary, f.from as int),
    decreases boundary.len(),
{
    if boundary.len() > 0 {
        let e = boundary.last();
        assert(boundary[boundary.len() - 1] == e);
        lemma_drop_last_edges(boundary, offset);
        lemma_walls_upright(boundary.drop_last(), offset, f);
        lemma_wall_sides(e, offset, f);
    }
}

/// Between a vertex in front and another vertex's mirror image the walls
/// have two sides for each silhouette edge that runs from the other vertex
/// to this one: the diagonal of its wall, once in each of the two
/// triangles.
pub proof fn lemma_walls_slanted(boundary: Seq<Edge>, offset: int, f: Edge)
    requires
        offset <= 0x8000_0000,
        edges_in_range(boundary, offset),
        f.from < offset,
        f.to >= offset,
        f.to != f.from + offset,
    ensures
        walls_count(boundary, offset, edge_key(f)) == 2 * directed_count(
            boundary,
            f.to - offset,
            f.from as int,
        ),
    decreases boundary.len(),
{
    if boundary.len() > 0 {
        let e = boundary.last();
        assert(boundary[boundary.len() - 1] == e);
        lemma_drop_last_edges(boundary, offset);
        lemma_walls_slanted(boundary.drop_last(), offset, f);
        lemma_wall_sides(e, offset, f);
    }
}

/// No more edges run from one vertex to another than join the two.
pub proof fn lemma_directed_below_key(edges: Seq<Edge>, e: Edge)
    ensures
        directed_count(edges, e.from as int, e.to as int) <= key_count(edges, edge_key(e)),
    decreases edges.len(),
{
    if edges.len() > 0 {
        lemma_directed_below_key(edges.drop_last(), e);
        lemma_key_joins(edges.last(), e);
    }
}

/// The silhouette has each key at most once: once where an odd number of
/// the edges have the key and one of them is among the first `n`.
pub proof fn lemma_boundary_has_odd_keys_once(edges: Seq<Edge>, n: nat, key: int)
    requires
        n <= edges.len(),
    ensures
        key_count(boundary_prefix(edges, n), key) == if key_count(edges, key) % 2 == 1
            && key_count(edges.take(n as int), key) > 0 {
            1nat
        } else {
            0nat
        },
    decreases n,
{
    if n == 0 {
        assert(edges.take(0).len() == 0);
    } else {
        let before = boundary_prefix(edges, (n - 1) as nat);
        let e = edges[n - 1];
        lemma_boundary_has_odd_keys_once(edges, (n - 1) as nat, key);
        assert(edges.take(n as int).drop_last() =~= edges.take(n - 1));
        assert(edges.take(n as int).last() == e);
        if is_first_boundary(edges, n - 1) {
            assert(before.push(e).drop_last() =~= before);
        }
    }
}

/// The silhouette is made of the pairs of vertices that an odd number of
/// triangle sides join, each pair once. So it does not depend on the order
/// in which the triangles come, but for the order and the direction of its
/// edges.
pub proof fn lemma_boundary_is_the_odd_keys(triangles: Seq<Triangle>, key: int)
    ensures
        key_count(boundary_of(triangles), key) == if key_count(directed_edges(triangles), key) % 2
            == 1 {
            1nat
        } else {
            0nat
        },
{
    let edges = directed_edges(triangles);
    lemma_boundary_has_odd_keys_once(edges, edges.len(), key);
    assert(edges.take(edges.len() as int) =~= edges);
}

/// What holds of every edge holds of every silhouette edge.
pub proof fn lemma_boundary_keeps(edges: Seq<Edge>, n: nat, holds: spec_fn(Edge) -> bool)
    requires
        n <= edges.len(),
        forall|i: int| 0 <= i < edges.len() ==> holds(#[trigger] edges[i]),
    ensures
        forall|i: int|
            0 <= i < boundary_prefix(edges, n).len() ==> holds(
                #[trigger] boundary_prefix(edges, n)[i],
            ),
    decreases n,
{
    if n > 0 {
        lemma_boundary_keeps(edges, (n - 1) as nat, holds);
        let before = boundary_prefix(edges, (n - 1) as nat);
        let now = boundary_prefix(edges, n);
        assert forall|i: int| 0 <= i < now.len() implies holds(#[trigger] now[i]) by {
            if i < before.len() {
                assert(now[i] == before[i]);
            } else {
                assert(now[i] == edges[n - 1]);
            }
        }
    }
}

/// Whether the three corners of a triangle differ.
pub open spec fn has_three_corners(t: Triangle) -> bool {
    t.a != t.b && t.b != t.c && t.c != t.a
}

/// Whether a triangulation over `count` vertices is a surface with a
/// border: every triangle has three corners among the vertices, no two
/// vertices are joined by more than two triangle sides, and every vertex
/// lies on no silhouette edge or on exactly two.
pub open spec fn is_surface_with_border(front: Seq<Triangle>, count: int) -> bool {
    &&& count <= 0x8000_0000
    &&& triangles_in_range(front, count)
    &&& forall|i: int| 0 <= i < front.len() ==> has_three_corners(#[trigger] front[i])
    &&& forall|e: Edge| #[trigger] key_count(directed_edges(front), edge_key(e)) <= 2
    &&& forall|v: int|
        touching(boundary_of(front), v) == 0 || #[trigger] touching(boundary_of(front), v) == 2
}

/// Whether a triangle list is closed: any two vertices are joined by no
/// triangle side or by exactly two.
pub open spec fn is_closed(triangles: Seq<Triangle>) -> bool {
    forall|e: Edge|
        key_count(directed_edges(triangles), edge_key(e)) == 0 || #[trigger] key_count(
            directed_edges(triangles),
            edge_key(e),
        ) == 2
}

/// The solid over a surface with a border is watertight. It has two
/// triangles for each triangle of the front cap and two for each silhouette
/// edge, and every side of a triangle is shared by exactly two triangles.
pub proof fn lemma_extrusion_is_watertight(front: Seq<Triangle>, count: int)
    requires
        is_surface_with_border(front, count),
    ensures
        extruded_triangles(front, count).len() == 2 * front.len() + 2 * boundary_of(front).len(),
        indices_of(extruded_triangles(front, count)).len() == 6 * front.len() + 6 * boundary_of(
            front,
        ).len(),
        is_closed(extruded_triangles(front, count)),
{
    let solid = extruded_triangles(front, count);
    let back = back_cap(front, count);
    let edges = directed_edges(front);
    let boundary = boundary_of(front);
    let walls = side_walls(boundary, count);
    assert(edges.take(edges.len() as int) =~= edges);
    assert(edges_in_range(edges, count) && edges_have_two_ends(edges)) by {
        assert forall|j: int| 0 <= j < edges.len() implies (#[trigger] edges[j]).from < count
            && edges[j].to < count && edges[j].from != edges[j].to by {
            assert(has_three_corners(front[j / 3]));
            assert(front[j / 3].a < count);
        }
    }
    lemma_boundary_keeps(
        edges,
        edges.len(),
        |e: Edge| e.from < count && e.to < count && e.from != e.to,
    );
    assert(edges_in_range(boundary, count));
    assert(edges_have_two_ends(boundary));
    assert forall|e: Edge|
        key_count(directed_edges(solid), edge_key(e)) == 0 || #[trigger] key_count(
            directed_edges(solid),
            edge_key(e),
        ) == 2 by {
        let key = edge_key(e);
        lemma_edges_by_sides(solid, key);
        lemma_sides_add(front + back, walls, key);
        lemma_sides_add(front, back, key);
        lemma_walls_by_edge(boundary, count, key);
        lemma_back_mirrors_front(front, count, e);
        if e.from < count && e.to < count {
            lemma_edges_by_sides(front, key);
            lemma_walls_in_front(boundary, count, e);
            lemma_boundary_has_odd_keys_once(edges, edges.len(), key);
            assert(key_count(edges, edge_key(e)) <= 2);
        } else if e.from >= count && e.to >= count {
            let g = lowered(e, count);
            lemma_front_stays_in_front(front, count, e);
            lemma_edges_by_sides(front, edge_key(g));
            lemma_walls_in_back(boundary, count, e);
            lemma_boundary_has_odd_keys_once(edges, edges.len(), edge_key(g));
            assert(key_count(edges, edge_key(g)) <= 2);
        } else {
            lemma_front_stays_in_front(front, count, e);
            let g = if e.from < count {
                e
            } else {
                Edge { from: e.to, to: e.from }
            };
            lemma_key_joins(g, e);
            if g.to == g.from + count {
                lemma_walls_upright(boundary, count, g);
                assert(touching(boundary, g.from as int) == 0 || touching(
                    boundary,
                    g.from as int,
                ) == 2);
            } else {
                lemma_walls_slanted(boundary, count, g);
                let d = Edge { from: (g.to - count) as u32, to: g.from };
                lemma_directed_below_key(boundary, d);
                lemma_boundary_has_odd_keys_once(edges, edges.len(), edge_key(d));
            }
        }
    }
}


/// The edges of two lists behind one another that run from one vertex to
/// another are counted list by list.
pub proof fn lemma_directed_add(s: Seq<Edge>, t: Seq<Edge>, from: int, to: int)
    ensures
        directed_count(s + t, from, to) == directed_count(s, from, to) + directed_count(
            t,
            from,
            to,
        ),
    decreases t.len(),
{
    if t.len() == 0 {
        assert(s + t =~= s);
    } else {
        assert((s + t).drop_last() =~= s + t.drop_last());
        lemma_directed_add(s, t.drop_last(), from, to);
    }
}

/// How many sides of a triangle run from `from` to `to`.
pub open spec fn runs_of(t: Triangle, from: int, to: int) -> nat {
    (if t.a == from && t.b == to {
        1nat
    } else {
        0nat
    }) + (if t.b == from && t.c == to {
        1nat
    } else {
        0nat
    }) + (if t.c == from && t.a == to {
        1nat
    } else {
        0nat
    })
}

/// How many sides of the triangles of a list run from `from` to `to`.
pub open spec fn runs_count(triangles: Seq<Triangle>, from: int, to: int) -> nat
    decreases triangles.len(),
{
    if triangles.len() == 0 {
        0
    } else {
        runs_count(triangles.drop_last(), from, to) + runs_of(triangles.last(), from, to)
    }
}

/// The edges of a triangle list that run from one vertex to another are
/// counted triangle by triangle.
pub proof fn lemma_edges_by_runs(triangles: Seq<Triangle>, from: int, to: int)
    ensures
        directed_count(directed_edges(triangles), from, to) == runs_count(triangles, from, to),
    decreases triangles.len(),
{
    if triangles.len() == 0 {
        assert(directed_edges(triangles) =~= Seq::<Edge>::empty());
    } else {
        let t = triangles.last();
        let rest = triangles.drop_last();
        lemma_edges_by_runs(rest, from, to);
        assert(triangles =~= rest + seq![t]);
        lemma_edges_add(rest, seq![t]);
        lemma_directed_add(directed_edges(rest), directed_edges(seq![t]), from, to);
        let three = directed_edges(seq![t]);
        assert(three.len() == 3);
        assert(three[0] == Edge { from: t.a, to: t.b });
        assert(three[1] == Edge { from: t.b, to: t.c });
        assert(three[2] == Edge { from: t.c, to: t.a });
        let two = three.drop_last();
        let one = two.drop_last();
        assert(one.drop_last().len() == 0);
        assert(directed_count(one.drop_last(), from, to) == 0);
        assert(one.last() == three[0]);
        assert(two.last() == three[1]);
        assert(three.last() == three[2]);
        assert(directed_count(one, from, to) == if t.a == from && t.b == to {
            1nat
        } else {
            0nat
        });
        assert(directed_count(two, from, to) == directed_count(one, from, to) + if t.b == from
            && t.c == to {
            1nat
        } else {
            0nat
        });
        assert(directed_count(three, from, to) == runs_of(t, from, to));
    }
}

/// The sides of two triangle lists behind one another that run from one
/// vertex to another are counted list by list.
pub proof fn lemma_runs_add(s: Seq<Triangle>, t: Seq<Triangle>, from: int, to: int)
    ensures
        runs_count(s + t, from, to) == runs_count(s, from, to) + runs_count(t, from, to),
    decreases t.len(),
{
    if t.len() == 0 {
        assert(s + t =~= s);
    } else {
        assert((s + t).drop_last() =~= s + t.drop_last());
        lemma_runs_add(s, t.drop_last(), from, to);
    }
}

/// What holds of a list of triangles holds of the list without its last
/// triangle.
proof fn lemma_drop_last_triangles(triangles: Seq<Triangle>, count: int)
    requires
        triangles.len() > 0,
        triangles_in_range(triangles, count),
    ensures
        triangles_in_range(triangles.drop_last(), count),
        triangles.last().a < count && triangles.last().b < count && triangles.last().c < count,
{
    let rest = triangles.drop_last();
    assert(triangles[triangles.len() - 1] == triangles.last());
    assert forall|i: int| 0 <= i < rest.len() implies (#[trigger] rest[i]).a < count && rest[i].b
        < count && rest[i].c < count by {
        assert(rest[i] == triangles[i]);
    }
}

/// No side of the front cap runs to or from a vertex of the back cap.
pub proof fn lemma_front_runs_in_front(front: Seq<Triangle>, count: int, from: int, to: int)
    requires
        triangles_in_range(front, count),
        from >= count || to >= count,
    ensures
        runs_count(front, from, to) == 0,
    decreases front.len(),
{
    if front.len() > 0 {
        lemma_drop_last_triangles(front, count);
        lemma_front_runs_in_front(front.drop_last(), count, from, to);
    }
}

/// The back cap runs between two of its vertices as the front cap runs
/// between their images in front, the other way round; and no side of the
/// back cap runs to or from a vertex of the front cap.
pub proof fn lemma_back_runs_against_front(front: Seq<Triangle>, count: int, from: int, to: int)
    requires
        count <= 0x8000_0000,
        triangles_in_range(front, count),
    ensures
        from >= count && to >= count ==> runs_count(back_cap(front, count), from, to)
            == runs_count(front, to - count, from - count),
        from < count || to < count ==> runs_count(back_cap(front, count), from, to) == 0,
    decreases front.len(),
{
    if front.len() == 0 {
        assert(back_cap(front, count) =~= Seq::<Triangle>::empty());
    } else {
        let t = front.last();
        let rest = front.drop_last();
        lemma_drop_last_triangles(front, count);
        lemma_back_runs_against_front(rest, count, from, to);
        let back = back_cap(front, count);
        assert(back.drop_last() =~= back_cap(rest, count));
        let m = back.last();
        assert(m == back[front.len() - 1]);
        assert(m.a == t.c + count && m.b == t.b + count && m.c == t.a + count);
    }
}

/// How many sides of the two wall triangles over an edge run from `from` to
/// `to`.
pub open spec fn wall_runs(e: Edge, offset: int, from: int, to: int) -> nat {
    runs_of(wall_upper(e, offset), from, to) + runs_of(wall_lower(e, offset), from, to)
}

/// How many sides of the walls over a list of edges run from `from` to
/// `to`.
pub open spec fn walls_runs(boundary: Seq<Edge>, offset: int, from: int, to: int) -> nat
    decreases boundary.len(),
{
    if boundary.len() == 0 {
        0
    } else {
        walls_runs(boundary.drop_last(), offset, from, to) + wall_runs(
            boundary.last(),
            offset,
            from,
            to,
        )
    }
}

/// The sides of the walls that run from one vertex to another are counted
/// edge by edge.
pub proof fn lemma_walls_runs_by_edge(boundary: Seq<Edge>, offset: int, from: int, to: int)
    ensures
        runs_count(side_walls(boundary, offset), from, to) == walls_runs(
            boundary,
            offset,
            from,
            to,
        ),
    decreases boundary.len(),
{
    let walls = side_walls(boundary, offset);
    if boundary.len() == 0 {
        assert(walls =~= Seq::<Triangle>::empty());
    } else {
        let e = boundary.last();
        lemma_walls_runs_by_edge(boundary.drop_last(), offset, from, to);
        assert(walls.drop_last().drop_last() =~= side_walls(boundary.drop_last(), offset));
        assert(walls.last() == wall_lower(e, offset));
        assert(walls.drop_last().last() == wall_upper(e, offset));
        assert(runs_count(walls.drop_last(), from, to) == runs_count(
            walls.drop_last().drop_last(),
            from,
            to,
        ) + runs_of(wall_upper(e, offset), from, to));
    }
}

/// How many edges of a list leave the vertex `v`.
pub open spec fn leaving(edges: Seq<Edge>, v: int) -> nat
    decreases edges.len(),
{
    if edges.len() == 0 {
        0
    } else {
        leaving(edges.drop_last(), v) + if edges.last().from == v {
            1nat
        } else {
            0nat
        }
    }
}

/// How many edges of a list arrive at the vertex `v`.
pub open spec fn arriving(edges: Seq<Edge>, v: int) -> nat
    decreases edges.len(),
{
    if edges.len() == 0 {
        0
    } else {
        arriving(edges.drop_last(), v) + if edges.last().to == v {
            1nat
        } else {
            0nat
        }
    }
}

/// How the walls run between two vertices: in front against the silhouette
/// and in the back along it, up along each edge's start and down along its
/// end, and along the diagonal of each wall once in each direction.
pub proof fn lemma_walls_run(boundary: Seq<Edge>, offset: int, from: int, to: int)
    requires
        offset <= 0x8000_0000,
        edges_in_range(boundary, offset),
        edges_have_two_ends(boundary),
        0 <= from,
        0 <= to,
    ensures
        walls_runs(boundary, offset, from, to) == if from < offset && to < offset {
            directed_count(boundary, to, from)
        } else if from >= offset && to >= offset {
            directed_count(boundary, from - offset, to - offset)
        } else if to == from + offset {
            leaving(boundary, from)
        } else if from == to + offset {
            arriving(boundary, to)
        } else if from >= offset {
            directed_count(boundary, from - offset, to)
        } else {
            directed_count(boundary, to - offset, from)
        },
    decreases boundary.len(),
{
    if boundary.len() > 0 {
        let e = boundary.last();
        assert(boundary[boundary.len() - 1] == e);
        lemma_drop_last_edges(boundary, offset);
        lemma_walls_run(boundary.drop_last(), offset, from, to);
        let up = wall_upper(e, offset);
        let low = wall_lower(e, offset);
        assert(up.a == e.to && up.b == e.from && up.c == e.from + offset);
        assert(low.a == e.from + offset && low.b == e.to + offset && low.c == e.to);
    }
}

/// The edges that join two different vertices run one way or the other.
pub proof fn lemma_key_is_both_ways(edges: Seq<Edge>, e: Edge)
    requires
        e.from != e.to,
    ensures
        key_count(edges, edge_key(e)) == directed_count(edges, e.from as int, e.to as int)
            + directed_count(edges, e.to as int, e.from as int),
    decreases edges.len(),
{
    if edges.len() > 0 {
        lemma_key_is_both_ways(edges.drop_last(), e);
        lemma_key_joins(edges.last(), e);
    }
}

/// No more silhouette edges run from one vertex to another than edges do.
pub proof fn lemma_boundary_runs_as_edges(edges: Seq<Edge>, n: nat, from: int, to: int)
    requires
        n <= edges.len(),
    ensures
        directed_count(boundary_prefix(edges, n), from, to) <= directed_count(
            edges.take(n as int),
            from,
            to,
        ),
    decreases n,
{
    if n == 0 {
        assert(edges.take(0).len() == 0);
    } else {
        let before = boundary_prefix(edges, (n - 1) as nat);
        let e = edges[n - 1];
        lemma_boundary_runs_as_edges(edges, (n - 1) as nat, from, to);
        assert(edges.take(n as int).drop_last() =~= edges.take(n - 1));
        assert(edges.take(n as int).last() == e);
        if is_first_boundary(edges, n - 1) {
            assert(before.push(e).drop_last() =~= before);
        }
    }
}

/// Whether a triangulation over `count` vertices is a surface with a border
/// that turns one way: every triangle has three corners among the vertices,
/// no two triangles run along a side in the same direction, and at every
/// vertex at most one silhouette edge arrives and as many leave.
pub open spec fn is_oriented_surface(front: Seq<Triangle>, count: int) -> bool {
    &&& count <= 0x8000_0000
    &&& triangles_in_range(front, count)
    &&& forall|i: int| 0 <= i < front.len() ==> has_three_corners(#[trigger] front[i])
    &&& forall|from: int, to: int| #[trigger] directed_count(directed_edges(front), from, to) <= 1
    &&& forall|v: int|
        #[trigger] leaving(boundary_of(front), v) == arriving(boundary_of(front), v) && leaving(
            boundary_of(front),
            v,
        ) <= 1
}

/// Whether a triangle list is a closed surface that turns one way: wherever
/// a triangle runs along a side, no second one runs along it in the same
/// direction, and exactly one runs along it in the other.
pub open spec fn is_oriented_closed(triangles: Seq<Triangle>) -> bool {
    forall|from: int, to: int|
        0 <= from && 0 <= to ==> #[trigger] directed_count(directed_edges(triangles), from, to)
            <= 1 && directed_count(directed_edges(triangles), from, to) == directed_count(
            directed_edges(triangles),
            to,
            from,
        )
}

/// The solid over a surface that turns one way has one outside. Every side
/// of a triangle is run along by exactly one other triangle, in the other
/// direction: the back cap runs against the front cap, and every wall runs
/// against the cap that it meets and against the walls beside it.
pub proof fn lemma_extrusion_has_one_outside(front: Seq<Triangle>, count: int)
    requires
        is_oriented_surface(front, count),
    ensures
        is_oriented_closed(extruded_triangles(front, count)),
{
    let solid = extruded_triangles(front, count);
    let back = back_cap(front, count);
    let edges = directed_edges(front);
    let boundary = boundary_of(front);
    let walls = side_walls(boundary, count);
    assert(edges.take(edges.len() as int) =~= edges);
    assert forall|j: int| 0 <= j < edges.len() implies (#[trigger] edges[j]).from < count
        && edges[j].to < count && edges[j].from != edges[j].to by {
        assert(has_three_corners(front[j / 3]));
        assert(front[j / 3].a < count);
    }
    lemma_boundary_keeps(
        edges,
        edges.len(),
        |e: Edge| e.from < count && e.to < count && e.from != e.to,
    );
    assert(edges_in_range(boundary, count));
    assert(edges_have_two_ends(boundary));
    // how the solid runs between two vertices, cap by cap
    assert forall|from: int, to: int| 0 <= from && 0 <= to implies #[trigger] directed_count(
        directed_edges(solid),
        from,
        to,
    ) == runs_count(front, from, to) + runs_count(back, from, to) + walls_runs(
        boundary,
        count,
        from,
        to,
    ) by {
        lemma_edges_by_runs(solid, from, to);
        lemma_runs_add(front + back, walls, from, to);
        lemma_runs_add(front, back, from, to);
        lemma_walls_runs_by_edge(boundary, count, from, to);
    }
    assert forall|from: int, to: int| 0 <= from && 0 <= to implies #[trigger] directed_count(
        directed_edges(solid),
        from,
        to,
    ) <= 1 && directed_count(directed_edges(solid), from, to) == directed_count(
        directed_edges(solid),
        to,
        from,
    ) by {
        assert(directed_count(directed_edges(solid), to, from) == runs_count(front, to, from)
            + runs_count(back, to, from) + walls_runs(boundary, count, to, from));
        lemma_walls_run(boundary, count, from, to);
        lemma_walls_run(boundary, count, to, from);
        lemma_back_runs_against_front(front, count, from, to);
        lemma_back_runs_against_front(front, count, to, from);
        if from < count && to < count {
            lemma_silhouette_runs_alone(front, count, from, to);
            lemma_silhouette_runs_alone(front, count, to, from);
        } else if from >= count && to >= count {
            lemma_front_runs_in_front(front, count, from, to);
            lemma_front_runs_in_front(front, count, to, from);
            lemma_silhouette_runs_alone(front, count, from - count, to - count);
            lemma_silhouette_runs_alone(front, count, to - count, from - count);
        } else {
            lemma_front_runs_in_front(front, count, from, to);
            lemma_front_runs_in_front(front, count, to, from);
            let low = if from < count {
                from
            } else {
                to
            };
            let high = if from < count {
                to
            } else {
                from
            };
            if high == low + count {
                assert(leaving(boundary, low) == arriving(boundary, low) && leaving(boundary, low)
                    <= 1);
            } else {
                lemma_silhouette_runs_alone(front, count, high - count, low);
            }
        }
    }
}

/// Over a surface that turns one way, a silhouette edge runs from one
/// vertex to another where the front cap runs so and not back; no other
/// silhouette edge does.
pub proof fn lemma_silhouette_runs_alone(front: Seq<Triangle>, count: int, from: int, to: int)
    requires
        is_oriented_surface(front, count),
        0 <= from,
        0 <= to,
    ensures
        directed_count(boundary_of(front), from, to) == if runs_count(front, from, to) == 1
            && runs_count(front, to, from) == 0 {
            1nat
        } else {
            0nat
        },
        runs_count(front, from, to) <= 1,
{
    let edges = directed_edges(front);
    let boundary = boundary_of(front);
    assert(edges.take(edges.len() as int) =~= edges);
    lemma_edges_by_runs(front, from, to);
    lemma_edges_by_runs(front, to, from);
    assert(directed_count(edges, from, to) <= 1);
    assert(directed_count(edges, to, from) <= 1);
    lemma_boundary_runs_as_edges(edges, edges.len(), from, to);
    lemma_boundary_runs_as_edges(edges, edges.len(), to, from);
    if from >= count || to >= count || from == to {
        lemma_front_has_no_such_side(front, count, from, to);
    } else {
        let e = Edge { from: from as u32, to: to as u32 };
        lemma_key_is_both_ways(edges, e);
        lemma_key_is_both_ways(boundary, e);
        lemma_boundary_has_odd_keys_once(edges, edges.len(), edge_key(e));
    }
}

/// The front cap has no side to or from a vertex of the back cap, nor from
/// a vertex to itself.
proof fn lemma_front_has_no_such_side(front: Seq<Triangle>, count: int, from: int, to: int)
    requires
        triangles_in_range(front, count),
        forall|i: int| 0 <= i < front.len() ==> has_three_corners(#[trigger] front[i]),
        from >= count || to >= count || from == to,
    ensures
        runs_count(front, from, to) == 0,
    decreases front.len(),
{
    if front.len() > 0 {
        lemma_drop_last_triangles(front, count);
        assert(has_three_corners(front[front.len() - 1]));
        assert forall|i: int| 0 <= i < front.drop_last().len() implies has_three_corners(
            #[trigger] front.drop_last()[i],
        ) by {
            assert(front.drop_last()[i] == front[i]);
        }
        lemma_front_has_no_such_side(front.drop_last(), count, from, to);
    }
}

} // verus!
