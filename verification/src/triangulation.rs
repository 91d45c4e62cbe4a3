//! What stands between an outline and the triangulation engine: the check
//! that every contour is a closed loop of at least three points, and the
//! list of boundary edges that the engine is given.

use vstd::prelude::*;
use crate::error::Error;
use crate::outline::indices_view;
use crate::outline::Outline;
use crate::outline::OutlineView;

verus! {

/// What is wrong with a contour over `count` points, if anything: it names
/// a point that does not exist, or it has fewer than three points.
pub open spec fn contour_defect(contour: Seq<int>, count: int) -> Option<Error> {
    if exists|i: int| 0 <= i < contour.len() && contour[i] >= count {
        Some(Error::MalformedOutline)
    } else if contour.len() < 3 {
        Some(Error::MalformedOutline)
    } else {
        None
    }
}

/// What is wrong with the first contour that has a defect, if there is one.
pub open spec fn first_defect(contours: Seq<Seq<int>>, count: int) -> Option<Error>
    decreases contours.len(),
{
    if contours.len() == 0 {
        None
    } else {
        match first_defect(contours.drop_last(), count) {
            Some(e) => Some(e),
            None => contour_defect(contours.last(), count),
        }
    }
}

/// The index that follows position `i` of a contour: the next one, or
/// behind the last one the first.
pub open spec fn next_in(contour: Seq<int>, i: int) -> int {
    if i + 1 < contour.len() {
        contour[i + 1]
    } else {
        contour[0]
    }
}

/// The edges of a contour: each index with the one that follows it, and
/// the last index with the first.
pub open spec fn chain_edges(contour: Seq<int>) -> Seq<(int, int)> {
    Seq::new(contour.len(), |i: int| (contour[i], next_in(contour, i)))
}

/// The edges of all contours, contour after contour.
pub open spec fn outline_edges(contours: Seq<Seq<int>>) -> Seq<(int, int)>
    decreases contours.len(),
{
    if contours.len() == 0 {
        Seq::empty()
    } else {
        outline_edges(contours.drop_last()) + chain_edges(contours.last())
    }
}

impl OutlineView {
    /// What is wrong with the outline, if anything. An outline with a chain
    /// that was drawn and not closed has an open contour. Otherwise the
    /// first contour with a defect decides.
    pub open spec fn defect(self) -> Option<Error> {
        if self.open.len() > 0 {
            Some(Error::OpenContour)
        } else {
            first_defect(self.contours, self.points.len() as int)
        }
    }

    /// The boundary edges of the outline.
    pub open spec fn edges(self) -> Seq<(int, int)> {
        outline_edges(self.contours)
    }
}

/// A list of edges as pairs of numbers.
pub open spec fn edges_view(edges: Seq<(usize, usize)>) -> Seq<(int, int)> {
    Seq::new(edges.len(), |i: int| (edges[i].0 as int, edges[i].1 as int))
}

/// Looks for what is wrong with one contour.
fn check_contour(contour: &Vec<usize>, count: usize) -> (defect: Option<Error>)
    ensures
        defect == contour_defect(indices_view(contour@), count as int),
{
    let mut i: usize = 0;
    while i < contour.len()
        invariant
            i <= contour.len(),
            forall|j: int| 0 <= j < i ==> contour@[j] < count,
        decreases contour.len() - i,
    {
        if contour[i] >= count {
            proof {
                assert(indices_view(contour@)[i as int] >= count);
            }
            return Some(Error::MalformedOutline);
        }
        i = i + 1;
    }
    proof {
        assert forall|j: int| 0 <= j < contour.len() implies indices_view(contour@)[j] < count by {
            assert(contour@[j] < count);
        }
    }
    if contour.len() < 3 {
        Some(Error::MalformedOutline)
    } else {
        None
    }
}

/// A defect among the first contours is the defect of the whole list.
proof fn lemma_defect_stays(contours: Seq<Seq<int>>, n: int, count: int)
    requires
        0 <= n <= contours.len(),
        first_defect(contours.take(n), count) is Some,
    ensures
        first_defect(contours, count) == first_defect(contours.take(n), count),
    decreases contours.len() - n,
{
    if n < contours.len() {
        assert(contours.take(n + 1).drop_last() =~= contours.take(n));
        lemma_defect_stays(contours, n + 1, count);
    } else {
        assert(contours.take(n) =~= contours);
    }
}

/// Looks for what is wrong with an outline. A chain that was drawn and not
/// closed makes the outline open; otherwise the contours are gone through
/// in their order, and the first one with a defect decides.
pub fn find_defect(outline: &Outline) -> (defect: Option<Error>)
    ensures
        defect == outline@.defect(),
{
    if outline.open_chains().len() > 0 {
        return Some(Error::OpenContour);
    }
    let contours = outline.contours();
    let count = outline.points().len();
    let ghost all = outline@.contours;
    let mut c: usize = 0;
    while c < contours.len()
        invariant
            c <= contours.len(),
            all.len() == contours.len(),
            forall|j: int| 0 <= j < contours.len() ==> all[j] == indices_view(contours@[j]@),
            all == outline@.contours,
            count == outline@.points.len(),
            outline@.open.len() == 0,
            first_defect(all.take(c as int), count as int) is None,
        decreases contours.len() - c,
    {
        proof {
            assert(all.take(c + 1).drop_last() =~= all.take(c as int));
            assert(all.take(c + 1).last() == indices_view(contours@[c as int]@));
        }
        match check_contour(&contours[c], count) {
            Some(e) => {
                proof {
                    assert(first_defect(all.take(c + 1), count as int) == Some(e));
                    lemma_defect_stays(all, c + 1, count as int);
                }
                return Some(e);
            },
            None => {},
        }
        c = c + 1;
    }
    proof {
        assert(all.take(contours.len() as int) =~= all);
    }
    None
}

/// Derives the boundary edges that the triangulation engine is given: for
/// each contour the pairs of indices that follow one another, and behind
/// them the pair that returns from the contour's last point to its first.
///
/// Before that the outline is checked, and where it has a defect, the
/// defect is the error and no edge is given.
pub fn triangulation_edges(outline: &Outline) -> (edges: Result<Vec<(usize, usize)>, Error>)
    ensures
        match edges {
            Ok(list) => outline@.defect() is None && edges_view(list@) == outline@.edges(),
            Err(e) => outline@.defect() == Some(e),
        },
{
    match find_defect(outline) {
        Some(e) => {
            return Err(e);
        },
        None => {},
    }
    let contours = outline.contours();
    let ghost all = outline@.contours;
    let mut edges: Vec<(usize, usize)> = Vec::new();
    let mut k: usize = 0;
    while k < contours.len()
        invariant
            k <= contours.len(),
            all.len() == contours.len(),
            forall|j: int| 0 <= j < contours.len() ==> all[j] == indices_view(contours@[j]@),
            all == outline@.contours,
            edges_view(edges@) == outline_edges(all.take(k as int)),
        decreases contours.len() - k,
    {
        let contour = &contours[k];
        let ghost before = edges_view(edges@);
        let ghost chain = chain_edges(indices_view(contour@));
        let mut i: usize = 0;
        proof {
            assert(before + chain.take(0) =~= before);
        }
        while i < contour.len()
            invariant
                i <= contour.len(),
                chain == chain_edges(indices_view(contour@)),
                edges_view(edges@) == before + chain.take(i as int),
            decreases contour.len() - i,
        {
            let next = if i + 1 < contour.len() {
                contour[i + 1]
            } else {
                contour[0]
            };
            let ghost held = edges@;
            edges.push((contour[i], next));
            proof {
                let pair = (contour@[i as int] as int, next as int);
                assert(chain[i as int] == pair);
                assert(edges_view(edges@) =~= edges_view(held).push(pair));
                assert(chain.take(i + 1) =~= chain.take(i as int).push(pair));
                assert(edges_view(edges@) =~= before + chain.take(i + 1));
            }
            i = i + 1;
        }
        proof {
            assert(chain.take(i as int) =~= chain);
            assert(all.take(k + 1).drop_last() =~= all.take(k as int));
            assert(all.take(k + 1).last() == indices_view(contour@));
        }
        k = k + 1;
    }
    proof {
        assert(all.take(contours.len() as int) =~= all);
    }
    Ok(edges)
}

} // verus!
