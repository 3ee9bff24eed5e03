use vstd::prelude::*;

verus! {

/// Which part of a circle is drawn. The arc runs in the direction of growing
/// angles, measured from the positive x axis towards the positive y axis; on
/// a page whose y axis points down the top of a circle is its second half.
#[derive(Clone, Copy, Debug, PartialEq, Eq, Structural)]
pub enum Range {
    FullCircle,
    HalfCirleTop,
    HalfCirlceRight,
    HalfCircleBottom,
    HalfCircleLeft,
    QuarterCircleRightTop,
    QuarterCircleRightBottom,
    QuarterCircleLeftBottom,
    QuarterCircleLeftTop,
}

impl Range {
    /// The angle at which the arc starts, in quarter turns.
    pub open spec fn start(self) -> int {
        match self {
            Range::FullCircle => 0,
            Range::HalfCirleTop => 2,
            Range::HalfCirlceRight => 3,
            Range::HalfCircleBottom => 0,
            Range::HalfCircleLeft => 1,
            Range::QuarterCircleRightTop => 3,
            Range::QuarterCircleRightBottom => 0,
            Range::QuarterCircleLeftBottom => 1,
            Range::QuarterCircleLeftTop => 2,
        }
    }

    /// How many quarter turns the arc covers.
    pub open spec fn sweep(self) -> int {
        match self {
            Range::FullCircle => 4,
            Range::HalfCirleTop | Range::HalfCirlceRight | Range::HalfCircleBottom
            | Range::HalfCircleLeft => 2,
            Range::QuarterCircleRightTop | Range::QuarterCircleRightBottom
            | Range::QuarterCircleLeftBottom | Range::QuarterCircleLeftTop => 1,
        }
    }

    /// The angles at which the arc starts and ends, in quarter turns.
    pub fn quarter_turns(&self) -> (turns: (u8, u8))
        ensures
            turns.0 == self.start(),
            turns.1 == self.start() + self.sweep(),
    {
        match self {
            Range::FullCircle => (0, 4),
            Range::HalfCirleTop => (2, 4),
            Range::HalfCirlceRight => (3, 5),
            Range::HalfCircleBottom => (0, 2),
            Range::HalfCircleLeft => (1, 3),
            Range::QuarterCircleRightTop => (3, 4),
            Range::QuarterCircleRightBottom => (0, 1),
            Range::QuarterCircleLeftBottom => (1, 2),
            Range::QuarterCircleLeftTop => (2, 3),
        }
    }
}

/// The part of a circle that lies on the canvas, for a circle centred on
/// the crossing `(i, j)` of a grid whose crossings run from `(0, 0)`, the
/// top left corner of the canvas, to `(circles_x, circles_y)`: a quarter in
/// a corner, a half on an edge and the full circle inside. Where a crossing
/// lies on two opposite edges at once, the left edge counts before the right
/// one and the top edge before the bottom one, and a corner before an edge.
pub open spec fn range_on_canvas(i: int, j: int, circles_x: int, circles_y: int) -> Range {
    if i == 0 && j == 0 {
        Range::QuarterCircleRightBottom
    } else if i == circles_x && j == 0 {
        Range::QuarterCircleLeftBottom
    } else if i == circles_x && j == circles_y {
        Range::QuarterCircleLeftTop
    } else if i == 0 && j == circles_y {
        Range::QuarterCircleRightTop
    } else if i == 0 {
        Range::HalfCirlceRight
    } else if j == 0 {
        Range::HalfCircleBottom
    } else if i == circles_x {
        Range::HalfCircleLeft
    } else if j == circles_y {
        Range::HalfCirleTop
    } else {
        Range::FullCircle
    }
}

/// The range to draw of a circle centred on the grid crossing `(i, j)`.
pub fn cross_circle_range(i: i32, j: i32, circles_x: i32, circles_y: i32) -> (range: Range)
    ensures
        range == range_on_canvas(i as int, j as int, circles_x as int, circles_y as int),
{
    if i == 0 && j == 0 {
        Range::QuarterCircleRightBottom
    } else if i == circles_x && j == 0 {
        Range::QuarterCircleLeftBottom
    } else if i == circles_x && j == circles_y {
        Range::QuarterCircleLeftTop
    } else if i == 0 && j == circles_y {
        Range::QuarterCircleRightTop
    } else if i == 0 {
        Range::HalfCirlceRight
    } else if j == 0 {
        Range::HalfCircleBottom
    } else if i == circles_x {
        Range::HalfCircleLeft
    } else if j == circles_y {
        Range::HalfCirleTop
    } else {
        Range::FullCircle
    }
}

/// Inside the grid every circle is drawn whole, and on the rim of a grid
/// with at least one cell in each direction a circle is cut exactly as often
/// as its crossing lies on an edge: the sweep is four quarter turns inside,
/// two on an edge and one in a corner.
pub proof fn lemma_range_sweep(i: int, j: int, circles_x: int, circles_y: int)
    requires
        0 <= i <= circles_x,
        0 <= j <= circles_y,
        circles_x >= 1,
        circles_y >= 1,
    ensures
        ({
            let on_side = i == 0 || i == circles_x;
            let on_end = j == 0 || j == circles_y;
            let sweep = range_on_canvas(i, j, circles_x, circles_y).sweep();
            &&& on_side && on_end ==> sweep == 1
            &&& on_side != on_end ==> sweep == 2
            &&& !on_side && !on_end ==> sweep == 4
        }),
{
}

} // verus!
