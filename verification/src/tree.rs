//! The spatial tree over the bounding boxes of segments.
//!
//! The tree is an `rstar::RTree`. The verifier does not look inside it:
//! what it holds is named by `tree_boxes`, and the two functions that touch
//! it state over that name what `rstar` does. Nothing here is proved; the
//! rest of the crate is proved from these two statements.

use crate::geometry::Bounds;
use rstar::primitives::{GeomWithData, Rectangle};
use rstar::{RTree, AABB};
use vstd::multiset::Multiset;
use vstd::prelude::*;

verus! {

/// The bounding box of one segment, tagged with the segment's id.
#[derive(Clone, Copy, Debug, PartialEq, Eq, Structural)]
pub struct SegmentBox {
    pub bounds: Bounds,
    pub segment: usize,
}

/// An `rstar::RTree` of rectangles with integer corners, each tagged with
/// the id of a segment. The type is opaque to the verifier.
#[verifier::external_body]
pub struct SegmentTree {
    inner: RTree<GeomWithData<Rectangle<[i32; 2]>, usize>>,
}

/// The boxes that a tree holds, each as often as it holds it.
pub uninterp spec fn tree_boxes(tree: SegmentTree) -> Multiset<SegmentBox>;

/// `rstar::RTree::bulk_load`: builds a tree that holds exactly the given
/// boxes, each as often as it is given. A box goes in as a rectangle made
/// by `Rectangle::from_corners`, which keeps the corners of an ordered box
/// as they are.
#[verifier::external_body]
pub(crate) fn tree_bulk_load(boxes: Vec<SegmentBox>) -> (tree: SegmentTree)
    requires
        forall|i: int| 0 <= i < boxes@.len() ==> (#[trigger] boxes@[i]).bounds.ordered(),
    ensures
        tree_boxes(tree) == boxes@.to_multiset(),
{
    let items = boxes.into_iter().map(
        |b| GeomWithData::new(
            Rectangle::from_corners(
                [b.bounds.min_lat, b.bounds.min_lon],
                [b.bounds.max_lat, b.bounds.max_lon],
            ),
            b.segment,
        ),
    ).collect();
    SegmentTree { inner: RTree::bulk_load(items) }
}

/// `rstar::RTree::locate_in_envelope_intersecting`: hands out the boxes of
/// the tree that meet the window, touching included, each as often as the
/// tree holds it, in an order that is not stated. The window goes in as an
/// envelope made by `AABB::from_corners`, which keeps the corners of an
/// ordered window as they are.
#[verifier::external_body]
pub(crate) fn tree_locate_intersecting(tree: &SegmentTree, window: Bounds) -> (found: Vec<
    SegmentBox,
>)
    requires
        window.ordered(),
    ensures
        found@.to_multiset() == tree_boxes(*tree).filter(
            |b: SegmentBox| b.bounds.intersects(window),
        ),
{
    let envelope = AABB::from_corners(
        [window.min_lat, window.min_lon],
        [window.max_lat, window.max_lon],
    );
    let found = tree.inner.locate_in_envelope_intersecting(&envelope);
    found.map(|item| {
        let (low, high) = (item.geom().lower(), item.geom().upper());
        let bounds = Bounds { min_lat: low[0], min_lon: low[1], max_lat: high[0], max_lon: high[1] };
        SegmentBox { bounds, segment: item.data }
    }).collect()
}

} // verus!
