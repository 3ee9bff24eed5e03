use vstd::prelude::*;

verus! {

/// A point in device step units.
#[derive(Clone, Copy, Debug, PartialEq, Eq, Structural)]
pub struct PlotPoint {
    pub x: i32,
    pub y: i32,
}

/// Anything that can be drawn: an ordered sequence of polylines. The first
/// point of a polyline is where the pen goes down; the points after it are
/// visited in order with the pen down. An empty polyline draws nothing.
pub trait Plottable {
    /// The polylines, in the order in which they are drawn.
    fn get_lines(&self) -> Vec<Vec<PlotPoint>>;
}

/// The points of a list of polylines, polyline by polyline.
pub open spec fn polylines(lines: Vec<Vec<PlotPoint>>) -> Seq<Seq<PlotPoint>> {
    lines@.map_values(|line: Vec<PlotPoint>| line@)
}

} // verus!
