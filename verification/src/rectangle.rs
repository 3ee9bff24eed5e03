use vstd::prelude::*;
use crate::plottable::{PlotPoint, Plottable, polylines};

verus! {

/// An axis-aligned rectangle given by its four edges, in device units.
pub struct Rectangle {
    top: i32,
    right: i32,
    bottom: i32,
    left: i32,
}

impl Rectangle {
    /// The y coordinate of the top edge.
    pub closed spec fn top(&self) -> i32 {
        self.top
    }

    /// The x coordinate of the right edge.
    pub closed spec fn right(&self) -> i32 {
        self.right
    }

    /// The y coordinate of the bottom edge.
    pub closed spec fn bottom(&self) -> i32 {
        self.bottom
    }

    /// The x coordinate of the left edge.
    pub closed spec fn left(&self) -> i32 {
        self.left
    }

    /// The outline as one closed polyline: it starts at the top right corner,
    /// runs through the bottom right, bottom left and top left corners, and
    /// returns to where it started.
    pub open spec fn outline(&self) -> Seq<PlotPoint> {
        seq![
            PlotPoint { x: self.right(), y: self.top() },
            PlotPoint { x: self.right(), y: self.bottom() },
            PlotPoint { x: self.left(), y: self.bottom() },
            PlotPoint { x: self.left(), y: self.top() },
            PlotPoint { x: self.right(), y: self.top() },
        ]
    }

    /// The rectangle with the given edges.
    pub fn new(top: i32, right: i32, bottom: i32, left: i32) -> (rectangle: Rectangle)
        ensures
            rectangle.top() == top,
            rectangle.right() == right,
            rectangle.bottom() == bottom,
            rectangle.left() == left,
    {
        Rectangle { top, right, bottom, left }
    }
}

impl Plottable for Rectangle {
    /// One polyline: the outline.
    fn get_lines(&self) -> (lines: Vec<Vec<PlotPoint>>)
        ensures
            polylines(lines) == seq![self.outline()],
    {
        let mut outline: Vec<PlotPoint> = Vec::new();
        outline.push(PlotPoint { x: self.right, y: self.top });
        outline.push(PlotPoint { x: self.right, y: self.bottom });
        outline.push(PlotPoint { x: self.left, y: self.bottom });
        outline.push(PlotPoint { x: self.left, y: self.top });
        outline.push(PlotPoint { x: self.right, y: self.top });
        let mut lines: Vec<Vec<PlotPoint>> = Vec::new();
        lines.push(outline);
        assert(lines@[0]@ =~= self.outline());
        assert(polylines(lines) =~= seq![self.outline()]);
        lines
    }
}

} // verus!
