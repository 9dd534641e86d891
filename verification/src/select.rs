//! Choosing the answer of a query among the segments near it: the nearest
//! segment of each way, nearest ways first, and no more than a handful.

use crate::geometry::Coord;
use vstd::prelude::*;

verus! {

/// The greatest number of ways in one answer.
pub const MAX_RESULTS: usize = 5;

/// A segment near the query point.
#[derive(Clone, Copy, Debug, PartialEq, Eq, Structural)]
pub struct Hit {
    /// Position of the way in the way table.
    pub way: usize,
    /// Position of the segment's first point in the way.
    pub start: usize,
    /// Squared distance from the query point to the segment.
    pub dist2: u64,
    /// The point of the segment nearest to the query point.
    pub point: Coord,
}

impl Hit {
    /// The order of hits: by distance, then by way, then by segment.
    pub open spec fn before(self, other: Hit) -> bool {
        ||| self.dist2 < other.dist2
        ||| self.dist2 == other.dist2 && self.way < other.way
        ||| self.dist2 == other.dist2 && self.way == other.way && self.start < other.start
    }

    /// Whether this hit comes before the other one.
    pub fn is_before(&self, other: &Hit) -> (b: bool)
        ensures
            b == self.before(*other),
    {
        self.dist2 < other.dist2 || (self.dist2 == other.dist2 && (self.way < other.way || (
        self.way == other.way && self.start < other.start)))
    }
}

/// Some hit of `out` lies on the way `w`.
pub open spec fn chosen_way(out: Seq<Hit>, w: usize) -> bool {
    exists|i: int| 0 <= i < out.len() && (#[trigger] out[i]).way == w
}

/// `out` is the selection from `hits`: at most `MAX_RESULTS` of them,
/// nearest first, one for each way and that one the way's first in the
/// order of hits; and a way of `hits` is left out only where the selection
/// is full and all of it comes before every hit of that way.
pub open spec fn is_selection(hits: Seq<Hit>, out: Seq<Hit>) -> bool {
    &&& out.len() <= MAX_RESULTS
    &&& forall|i: int| 0 <= i < out.len() ==> hits.contains(#[trigger] out[i])
    &&& forall|i: int, j: int|
        0 <= i < j < out.len() ==> (#[trigger] out[i]).before(#[trigger] out[j])
    &&& forall|i: int, j: int|
        0 <= i < j < out.len() ==> (#[trigger] out[i]).way != (#[trigger] out[j]).way
    &&& forall|i: int, j: int|
        0 <= i < out.len() && 0 <= j < hits.len() && (#[trigger] hits[j]).way == (
        #[trigger] out[i]).way ==> !hits[j].before(out[i])
    &&& forall|j: int|
        0 <= j < hits.len() ==> chosen_way(out, (#[trigger] hits[j]).way) || (out.len()
            == MAX_RESULTS && out.last().before(hits[j]))
}

/// Whether some hit of `out` lies on the way `w`.
fn way_chosen(out: &Vec<Hit>, w: usize) -> (b: bool)
    ensures
        b == chosen_way(out@, w),
{
    let mut i: usize = 0;
    while i < out.len()
        invariant
            i <= out.len(),
            forall|k: int| 0 <= k < i ==> (#[trigger] out@[k]).way != w,
        decreases out.len() - i,
    {
        if out[i].way == w {
            return true;
        }
        i += 1;
    }
    false
}

/// The first hit, in the order of hits, among those whose way `out` has
/// not chosen yet.
fn first_unchosen(hits: &Vec<Hit>, out: &Vec<Hit>) -> (r: Option<usize>)
    ensures
        match r {
            Some(b) => b < hits.len() && !chosen_way(out@, hits@[b as int].way) && forall|j: int|
                0 <= j < hits.len() && !chosen_way(out@, (#[trigger] hits@[j]).way)
                    ==> !hits@[j].before(hits@[b as int]),
            None => forall|j: int|
                0 <= j < hits.len() ==> chosen_way(out@, (#[trigger] hits@[j]).way),
        },
{
    let mut best: Option<usize> = None;
    let mut j: usize = 0;
    while j < hits.len()
        invariant
            j <= hits.len(),
            match best {
                Some(b) => b < j && !chosen_way(out@, hits@[b as int].way) && forall|k: int|
                    0 <= k < j && !chosen_way(out@, (#[trigger] hits@[k]).way)
                        ==> !hits@[k].before(hits@[b as int]),
                None => forall|k: int|
                    0 <= k < j ==> chosen_way(out@, (#[trigger] hits@[k]).way),
            },
        decreases hits.len() - j,
    {
        if !way_chosen(out, hits[j].way) {
            let better = match best {
                Some(b) => hits[j].is_before(&hits[b]),
                None => true,
            };
            if better {
                best = Some(j);
            }
        }
        j += 1;
    }
    best
}

/// Selects the answer among the hits: see `is_selection`.
pub fn select_nearest(hits: &Vec<Hit>) -> (out: Vec<Hit>)
    ensures
        is_selection(hits@, out@),
{
    let mut out: Vec<Hit> = Vec::new();
    let mut open = true;
    while open && out.len() < MAX_RESULTS
        invariant
            out.len() <= MAX_RESULTS,
            forall|i: int| 0 <= i < out.len() ==> hits@.contains(#[trigger] out@[i]),
            forall|i: int, j: int|
                0 <= i < j < out.len() ==> (#[trigger] out@[i]).before(#[trigger] out@[j]),
            forall|i: int, j: int|
                0 <= i < j < out.len() ==> (#[trigger] out@[i]).way != (#[trigger] out@[j]).way,
            forall|i: int, j: int|
                0 <= i < out.len() && 0 <= j < hits.len() && (#[trigger] hits@[j]).way == (
                #[trigger] out@[i]).way ==> !hits@[j].before(out@[i]),
            forall|i: int, j: int|
                0 <= i < out.len() && 0 <= j < hits.len() && !chosen_way(
                    out@,
                    (#[trigger] hits@[j]).way,
                ) ==> (#[trigger] out@[i]).before(hits@[j]),
            !open ==> forall|j: int|
                0 <= j < hits.len() ==> chosen_way(out@, (#[trigger] hits@[j]).way),
        decreases (if open { 1int } else { 0int }), MAX_RESULTS - out.len(),
    {
        match first_unchosen(hits, &out) {
            None => {
                open = false;
            },
            Some(b) => {
                let h = hits[b];
                let ghost prev = out@;
                out.push(h);
                proof {
                    assert(hits@.contains(h));
                    assert forall|w: usize| chosen_way(out@, w) <==> (chosen_way(prev, w) || w
                        == h.way) by {
                        if chosen_way(prev, w) {
                            let i = choose|i: int| 0 <= i < prev.len() && (#[trigger] prev[i]).way
                                == w;
                            assert(out@[i].way == w);
                        }
                        if w == h.way {
                            assert(out@[prev.len() as int].way == w);
                        }
                    }
                    assert forall|i: int, j: int| 0 <= i < j < out.len() implies (
                    #[trigger] out@[i]).way != (#[trigger] out@[j]).way by {
                        if j == prev.len() {
                            assert(prev[i].way == out@[i].way);
                        }
                    }
                }
            },
        }
    }
    proof {
        if out.len() == MAX_RESULTS {
            assert forall|j: int| 0 <= j < hits.len() implies chosen_way(
                out@,
                (#[trigger] hits@[j]).way,
            ) || out@.last().before(hits@[j]) by {
                if !chosen_way(out@, hits@[j].way) {
                    assert(out@[out.len() - 1].before(hits@[j]));
                }
            }
        }
    }
    out
}

} // verus!
