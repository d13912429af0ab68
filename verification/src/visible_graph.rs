//! Types that describe how a graph is laid out for display.

use crate::graph::Node;
use std::ops::Range;
use vstd::prelude::*;

verus! {

/// A line segment from the boundary of a node's area.
#[derive(Debug)]
pub struct IndexedSegment {
    /// The `start` and `end` of this range are the indices of the segment's
    /// two endpoints in the graph's table of boundary points.
    pub line: Range<usize>,
    /// The node on the other side of the segment, if any.
    pub neighbor: Option<Node>,
}

impl Clone for IndexedSegment {
    fn clone(&self) -> (copy: Self)
        ensures
            copy == *self,
    {
        IndexedSegment { line: self.line.start..self.line.end, neighbor: self.neighbor }
    }
}

} // verus!
