use bridget_bot::circle::{cross_circle_range, Range};
use bridget_bot::plottable::{PlotPoint, Plottable};
use bridget_bot::rectangle::Rectangle;
use bridget_bot::signature::signature_text;

fn point(x: i32, y: i32) -> PlotPoint {
    PlotPoint { x, y }
}

#[test]
fn rectangle_is_a_closed_outline() {
    let lines = Rectangle::new(1, 20, 30, 4).get_lines();
    assert_eq!(
        lines,
        vec![vec![
            point(20, 1),
            point(20, 30),
            point(4, 30),
            point(4, 1),
            point(20, 1),
        ]]
    );
}

#[test]
fn rectangle_keeps_its_edges_as_given() {
    let lines = Rectangle::new(i32::MAX, i32::MIN, -1, 0).get_lines();
    assert_eq!(
        lines,
        vec![vec![
            point(i32::MIN, i32::MAX),
            point(i32::MIN, -1),
            point(0, -1),
            point(0, i32::MAX),
            point(i32::MIN, i32::MAX),
        ]]
    );
}

#[test]
fn ranges_in_quarter_turns() {
    assert_eq!(Range::FullCircle.quarter_turns(), (0, 4));
    assert_eq!(Range::HalfCirleTop.quarter_turns(), (2, 4));
    assert_eq!(Range::HalfCirlceRight.quarter_turns(), (3, 5));
    assert_eq!(Range::HalfCircleBottom.quarter_turns(), (0, 2));
    assert_eq!(Range::HalfCircleLeft.quarter_turns(), (1, 3));
    assert_eq!(Range::QuarterCircleRightTop.quarter_turns(), (3, 4));
    assert_eq!(Range::QuarterCircleRightBottom.quarter_turns(), (0, 1));
    assert_eq!(Range::QuarterCircleLeftBottom.quarter_turns(), (1, 2));
    assert_eq!(Range::QuarterCircleLeftTop.quarter_turns(), (2, 3));
}

#[test]
fn cross_circles_are_cut_at_the_canvas() {
    assert_eq!(cross_circle_range(0, 0, 10, 5), Range::QuarterCircleRightBottom);
    assert_eq!(cross_circle_range(10, 0, 10, 5), Range::QuarterCircleLeftBottom);
    assert_eq!(cross_circle_range(10, 5, 10, 5), Range::QuarterCircleLeftTop);
    assert_eq!(cross_circle_range(0, 5, 10, 5), Range::QuarterCircleRightTop);
    assert_eq!(cross_circle_range(0, 3, 10, 5), Range::HalfCirlceRight);
    assert_eq!(cross_circle_range(4, 0, 10, 5), Range::HalfCircleBottom);
    assert_eq!(cross_circle_range(10, 2, 10, 5), Range::HalfCircleLeft);
    assert_eq!(cross_circle_range(7, 5, 10, 5), Range::HalfCirleTop);
    assert_eq!(cross_circle_range(5, 2, 10, 5), Range::FullCircle);
}

#[test]
fn cross_circles_on_a_grid_without_cells() {
    assert_eq!(cross_circle_range(0, 0, 0, 0), Range::QuarterCircleRightBottom);
    assert_eq!(cross_circle_range(0, 1, 0, 5), Range::HalfCirlceRight);
    assert_eq!(cross_circle_range(1, 0, 5, 0), Range::HalfCircleBottom);
}

#[test]
fn signature_counts_seeds_from_one() {
    assert_eq!(signature_text(0), "bridget-bot 1/18446744073709551616");
    assert_eq!(signature_text(41), "bridget-bot 42/18446744073709551616");
    assert_eq!(
        signature_text(u64::MAX),
        "bridget-bot 18446744073709551616/18446744073709551616"
    );
    assert_eq!(
        signature_text(9_999_999_999),
        "bridget-bot 10000000000/18446744073709551616"
    );
}
