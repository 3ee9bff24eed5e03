use vstd::prelude::*;
use crate::plottable::PlotPoint;

verus! {

/// A device that draws polylines. A call returns once every polyline has
/// been handed to the device, in order.
pub trait Plotter {
    fn plot(&mut self, lines: Vec<Vec<PlotPoint>>);
}

} // verus!
