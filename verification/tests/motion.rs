use bridget_bot::motion::{
    command_text, encode, get_move_command, Encoding, MotionCommand, MotionEncoder, MAX_EXTENT,
    MAX_RATE,
};
use bridget_bot::plottable::PlotPoint;

fn point(x: i32, y: i32) -> PlotPoint {
    PlotPoint { x, y }
}

fn command(duration: i32, axis_a: i32, axis_b: i32) -> MotionCommand {
    MotionCommand {
        duration,
        axis_a,
        axis_b,
    }
}

#[test]
fn mixed_axes_are_sum_and_difference() {
    assert_eq!(
        encode(Encoding::MixedAxis, 10, 4),
        (command(7, 14, 6), 10, 4)
    );
    assert_eq!(
        encode(Encoding::MixedAxis, -3, 0),
        (command(2, -3, -3), -3, 0)
    );
}

#[test]
fn direct_axes_are_the_displacement() {
    assert_eq!(
        encode(Encoding::DirectAxis, 10, -4),
        (command(5, 10, -4), 10, -4)
    );
}

#[test]
fn duration_is_half_rounded_up() {
    assert_eq!(encode(Encoding::DirectAxis, 1, 0).0.duration, 1);
    assert_eq!(encode(Encoding::DirectAxis, 2, 0).0.duration, 1);
    assert_eq!(encode(Encoding::DirectAxis, 3, 0).0.duration, 2);
    assert_eq!(encode(Encoding::DirectAxis, 0, -7).0.duration, 4);
}

#[test]
fn slow_axis_is_dropped() {
    assert_eq!(MAX_RATE, 1311);
    assert_eq!(
        encode(Encoding::DirectAxis, 1, 2622),
        (command(1311, 0, 2622), 0, 2622)
    );
    assert_eq!(
        encode(Encoding::DirectAxis, 1, 2621),
        (command(1311, 0, 2621), 0, 2621)
    );
    assert_eq!(
        encode(Encoding::DirectAxis, 1, 2620),
        (command(1310, 1, 2620), 1, 2620)
    );
    assert_eq!(
        encode(Encoding::DirectAxis, 2, 2622),
        (command(1311, 2, 2622), 2, 2622)
    );
}

#[test]
fn dropped_mixed_axis_moves_along_the_diagonal() {
    assert_eq!(
        encode(Encoding::MixedAxis, 2623, -2621),
        (command(2622, 0, 5244), 2622, -2622)
    );
    assert_eq!(
        encode(Encoding::MixedAxis, 2623, -2622),
        (command(2623, 0, 5245), 2622, -2622)
    );
}

#[test]
fn get_move_command_formats_the_mixed_command() {
    assert_eq!(get_move_command(10, 0), ("SM,5,10,10".to_string(), 10, 0));
    assert_eq!(get_move_command(-3, 0), ("SM,2,-3,-3".to_string(), -3, 0));
    assert_eq!(
        get_move_command(24000, 17440),
        ("SM,20720,41440,6560".to_string(), 24000, 17440)
    );
    assert_eq!(
        get_move_command(2623, -2621),
        ("SM,2622,0,5244".to_string(), 2622, -2622)
    );
}

#[test]
fn command_text_names_the_encoding() {
    assert_eq!(
        command_text(Encoding::MixedAxis, command(100, -20, 0)),
        "SM,100,-20,0"
    );
    assert_eq!(
        command_text(Encoding::DirectAxis, command(2500, 0, 5000)),
        "XM,2500,0,5000"
    );
    assert_eq!(
        command_text(Encoding::DirectAxis, command(0, i32::MIN, i32::MAX)),
        "XM,0,-2147483648,2147483647"
    );
}

#[test]
fn move_beyond_the_corner_is_clamped() {
    let (width, height) = (24000, 17440);
    let mut encoder = MotionEncoder::new(width, height, Encoding::MixedAxis);
    let sent = encoder.move_to(point(width + 100, height + 100));
    assert_eq!(sent, Some(command(20720, 41440, 6560)));
    assert_eq!(encoder.position(), point(width, height));
}

#[test]
fn move_below_the_origin_is_clamped() {
    let mut encoder = MotionEncoder::new(100, 100, Encoding::DirectAxis);
    assert_eq!(encoder.move_to(point(50, 60)), Some(command(30, 50, 60)));
    assert_eq!(encoder.move_to(point(-5, -1)), Some(command(30, -50, -60)));
    assert_eq!(encoder.position(), point(0, 0));
}

#[test]
fn move_to_own_position_sends_nothing() {
    let mut encoder = MotionEncoder::new(1000, 1000, Encoding::MixedAxis);
    assert_eq!(encoder.move_to(point(0, 0)), None);
    assert_eq!(encoder.position(), point(0, 0));
    assert!(encoder.move_to(point(300, 400)).is_some());
    assert_eq!(encoder.position(), point(300, 400));
    assert_eq!(encoder.move_to(point(300, 400)), None);
    assert_eq!(encoder.position(), point(300, 400));
}

#[test]
fn clamped_target_at_the_pen_sends_nothing() {
    let mut encoder = MotionEncoder::new(1000, 1000, Encoding::MixedAxis);
    assert!(encoder.move_to(point(1000, 1000)).is_some());
    assert_eq!(encoder.move_to(point(5000, 1001)), None);
    assert_eq!(encoder.position(), point(1000, 1000));
}

#[test]
fn dropped_axis_is_made_up_by_the_next_move() {
    let mut encoder = MotionEncoder::new(3000, 3000, Encoding::MixedAxis);
    assert_eq!(
        encoder.move_to(point(0, 2621)),
        Some(command(1311, 2621, -2621))
    );
    assert_eq!(encoder.position(), point(0, 2621));

    assert_eq!(
        encoder.move_to(point(2623, 0)),
        Some(command(2622, 0, 5244))
    );
    assert_eq!(encoder.position(), point(2622, -1));

    assert_eq!(encoder.move_to(point(2623, 0)), Some(command(1, 2, 0)));
    assert_eq!(encoder.position(), point(2623, 0));
}

#[test]
fn dropped_direct_axis_leaves_that_axis_alone() {
    let mut encoder = MotionEncoder::new(6000, 6000, Encoding::DirectAxis);
    assert_eq!(encoder.move_to(point(1, 5000)), Some(command(2500, 0, 5000)));
    assert_eq!(encoder.position(), point(0, 5000));
    assert_eq!(encoder.move_to(point(1, 5000)), Some(command(1, 1, 0)));
    assert_eq!(encoder.position(), point(1, 5000));
    assert_eq!(encoder.move_to(point(1, 5000)), None);
}

#[test]
fn corner_is_missed_where_an_axis_is_dropped() {
    let mut encoder = MotionEncoder::new(5244, 5242, Encoding::MixedAxis);
    assert_eq!(
        encoder.move_to(point(5344, 5342)),
        Some(command(5243, 10486, 0))
    );
    assert_eq!(encoder.position(), point(5243, 5243));
    assert!(encoder.move_to(point(5344, 5342)).is_some());
    assert_eq!(encoder.position(), point(5244, 5242));
}

#[test]
fn pen_outside_the_device_is_moved_back_in() {
    let mut encoder = MotionEncoder::new(3000, 3000, Encoding::MixedAxis);
    encoder.move_to(point(0, 2621));
    encoder.move_to(point(2623, 0));
    assert_eq!(encoder.position(), point(2622, -1));
    assert_eq!(encoder.move_to(point(2622, -1)), Some(command(1, 1, -1)));
    assert_eq!(encoder.position(), point(2622, 0));
}

#[test]
fn device_without_extent_keeps_the_pen_at_the_origin() {
    let mut encoder = MotionEncoder::new(-5, 0, Encoding::MixedAxis);
    assert_eq!(encoder.move_to(point(10, 10)), None);
    assert_eq!(encoder.position(), point(0, 0));
}

#[test]
fn largest_device_is_crossed_without_overflow() {
    let mut encoder = MotionEncoder::new(MAX_EXTENT, MAX_EXTENT, Encoding::MixedAxis);
    assert_eq!(
        encoder.move_to(point(i32::MAX, i32::MAX)),
        Some(command(1_000_000_000, 2_000_000_000, 0))
    );
    assert_eq!(encoder.position(), point(MAX_EXTENT, MAX_EXTENT));
    assert_eq!(encoder.encoding(), Encoding::MixedAxis);
}
