use vstd::prelude::*;
use vstd::string::StringExecFns;
use crate::decimal::{append_decimal, decimal};
use crate::plottable::PlotPoint;

verus! {

/// The most steps per duration unit that a motor sustains. An axis asked to
/// move no more steps than the duration holds such units is dropped from its
/// command.
pub const MAX_RATE: i32 = 1311;

/// The largest width or height of a device. Up to it every axis value fits a
/// command, whatever the pen's position.
pub const MAX_EXTENT: i32 = 1_000_000_000;

/// How far outside the device's rectangle the tracked position can lie, in
/// each direction: a dropped axis leaves the pen beside the point it was
/// sent to, and that point may be on the border.
pub const MAX_SHORTFALL: i32 = 500_000;

/// How a Cartesian displacement is turned into the two axis values of a
/// command. A device uses one of the two throughout.
#[derive(Clone, Copy, Debug, PartialEq, Eq, Structural)]
pub enum Encoding {
    /// Two motors move the pen together: the axes carry the sum and the
    /// difference of the displacement.
    MixedAxis,
    /// One motor per Cartesian axis.
    DirectAxis,
}

/// A timed move: how long it takes and how many steps each axis makes.
#[derive(Clone, Copy, Debug, PartialEq, Eq, Structural)]
pub struct MotionCommand {
    pub duration: i32,
    pub axis_a: i32,
    pub axis_b: i32,
}

/// What a requested displacement turns into: the duration and axis values
/// of the command, and the Cartesian displacement that the command achieves.
pub struct Motion {
    pub duration: int,
    pub axis_a: int,
    pub axis_b: int,
    pub dx: int,
    pub dy: int,
}

impl MotionCommand {
    /// The command carries the duration and the axis values of `motion`.
    pub open spec fn carries(self, motion: Motion) -> bool {
        &&& self.duration == motion.duration
        &&& self.axis_a == motion.axis_a
        &&& self.axis_b == motion.axis_b
    }
}

/// The absolute value of `v`.
pub open spec fn magnitude(v: int) -> int {
    if v < 0 {
        -v
    } else {
        v
    }
}

/// Half of `v`, rounded towards zero.
pub open spec fn half(v: int) -> int {
    if v < 0 {
        -((-v) / 2)
    } else {
        v / 2
    }
}

/// The first axis value for a displacement, before rate limiting.
pub open spec fn axis_a(encoding: Encoding, dx: int, dy: int) -> int {
    match encoding {
        Encoding::MixedAxis => dx + dy,
        Encoding::DirectAxis => dx,
    }
}

/// The second axis value for a displacement, before rate limiting.
pub open spec fn axis_b(encoding: Encoding, dx: int, dy: int) -> int {
    match encoding {
        Encoding::MixedAxis => dx - dy,
        Encoding::DirectAxis => dy,
    }
}

/// Half the larger axis magnitude, rounded half up, so that both axes finish
/// together.
pub open spec fn duration(a: int, b: int) -> int {
    if magnitude(a) >= magnitude(b) {
        (magnitude(a) + 1) / 2
    } else {
        (magnitude(b) + 1) / 2
    }
}

/// The axis would move slower than the motor can: it makes no more steps than
/// the duration holds full rate units.
pub open spec fn too_slow(duration: int, axis: int) -> bool {
    duration > 0 && duration / (MAX_RATE as int) >= magnitude(axis)
}

/// The axis value that is sent: zero for an axis that is too slow.
pub open spec fn rate_limited(duration: int, axis: int) -> int {
    if too_slow(duration, axis) {
        0
    } else {
        axis
    }
}

/// The Cartesian displacement along x that the sent axis values achieve.
pub open spec fn achieved_dx(encoding: Encoding, a: int, b: int) -> int {
    match encoding {
        Encoding::MixedAxis => half(a + b),
        Encoding::DirectAxis => a,
    }
}

/// The Cartesian displacement along y that the sent axis values achieve.
pub open spec fn achieved_dy(encoding: Encoding, a: int, b: int) -> int {
    match encoding {
        Encoding::MixedAxis => half(a - b),
        Encoding::DirectAxis => b,
    }
}

/// An axis that was to move is dropped from the command for the
/// displacement.
pub open spec fn drops_axis(encoding: Encoding, dx: int, dy: int) -> bool {
    let a = axis_a(encoding, dx, dy);
    let b = axis_b(encoding, dx, dy);
    ||| a != 0 && too_slow(duration(a, b), a)
    ||| b != 0 && too_slow(duration(a, b), b)
}

/// The displacement can be encoded: both axis values fit a command.
pub open spec fn encodable(encoding: Encoding, dx: int, dy: int) -> bool {
    &&& i32::MIN < axis_a(encoding, dx, dy) <= i32::MAX
    &&& i32::MIN < axis_b(encoding, dx, dy) <= i32::MAX
}

/// The command for a displacement and what it achieves. The axis values are
/// those of the encoding, each set to zero where it is too slow for the
/// duration; the achieved displacement is recovered from the values sent, so
/// a dropped axis leaves the pen short of what was asked.
pub open spec fn motion(encoding: Encoding, dx: int, dy: int) -> Motion {
    let a = axis_a(encoding, dx, dy);
    let b = axis_b(encoding, dx, dy);
    let d = duration(a, b);
    let sent_a = rate_limited(d, a);
    let sent_b = rate_limited(d, b);
    Motion {
        duration: d,
        axis_a: sent_a,
        axis_b: sent_b,
        dx: achieved_dx(encoding, sent_a, sent_b),
        dy: achieved_dy(encoding, sent_a, sent_b),
    }
}

/// The command word of an encoding on the wire.
pub open spec fn command_word(encoding: Encoding) -> Seq<char> {
    match encoding {
        Encoding::MixedAxis => "SM"@,
        Encoding::DirectAxis => "XM"@,
    }
}

/// A move command on the wire: the command word, the duration and the two
/// axis values, separated by commas.
pub open spec fn wire_text(encoding: Encoding, duration: int, a: int, b: int) -> Seq<char> {
    command_word(encoding) + ","@ + decimal(duration) + ","@ + decimal(a) + ","@ + decimal(b)
}

/// The move command for a displacement on the wire.
pub open spec fn move_text(encoding: Encoding, dx: int, dy: int) -> Seq<char> {
    let m = motion(encoding, dx, dy);
    wire_text(encoding, m.duration, m.axis_a, m.axis_b)
}

fn half_of(v: i64) -> (h: i64)
    requires
        i64::MIN < v,
    ensures
        h == half(v as int),
{
    if v < 0 {
        -((-v) / 2)
    } else {
        v / 2
    }
}

fn magnitude_of(v: i64) -> (m: i64)
    requires
        i64::MIN < v,
    ensures
        m == magnitude(v as int),
{
    if v < 0 {
        -v
    } else {
        v
    }
}

fn duration_of(a: i64, b: i64) -> (d: i64)
    requires
        i32::MIN < a <= i32::MAX,
        i32::MIN < b <= i32::MAX,
    ensures
        d == duration(a as int, b as int),
        0 <= d <= 0x4000_0000,
{
    let steps_a = magnitude_of(a);
    let steps_b = magnitude_of(b);
    let max_steps: i64 = if steps_a >= steps_b {
        steps_a
    } else {
        steps_b
    };
    (max_steps + 1) / 2
}

fn limit_rate(duration: i64, axis: i64) -> (sent: i64)
    requires
        i32::MIN < axis <= i32::MAX,
        0 <= duration,
    ensures
        sent == rate_limited(duration as int, axis as int),
        sent == 0 || sent == axis,
{
    if duration > 0 && duration / (MAX_RATE as i64) >= magnitude_of(axis) {
        0
    } else {
        axis
    }
}

/// Encodes a displacement: the command to send and the displacement that it
/// achieves along x and y.
pub fn encode(encoding: Encoding, dx: i32, dy: i32) -> (encoded: (MotionCommand, i32, i32))
    requires
        encodable(encoding, dx as int, dy as int),
    ensures
        encoded.0.carries(motion(encoding, dx as int, dy as int)),
        encoded.1 == motion(encoding, dx as int, dy as int).dx,
        encoded.2 == motion(encoding, dx as int, dy as int).dy,
{
    let (a, b): (i64, i64) = match encoding {
        Encoding::MixedAxis => (dx as i64 + dy as i64, dx as i64 - dy as i64),
        Encoding::DirectAxis => (dx as i64, dy as i64),
    };
    let duration = duration_of(a, b);

    let sent_a = limit_rate(duration, a);
    let sent_b = limit_rate(duration, b);

    let (reached_x, reached_y): (i64, i64) = match encoding {
        Encoding::MixedAxis => (half_of(sent_a + sent_b), half_of(sent_a - sent_b)),
        Encoding::DirectAxis => (sent_a, sent_b),
    };

    (
        MotionCommand { duration: duration as i32, axis_a: sent_a as i32, axis_b: sent_b as i32 },
        reached_x as i32,
        reached_y as i32,
    )
}

/// A move command as the controller reads it.
pub fn command_text(encoding: Encoding, command: MotionCommand) -> (text: String)
    ensures
        text@ == wire_text(
            encoding,
            command.duration as int,
            command.axis_a as int,
            command.axis_b as int,
        ),
{
    let mut text = match encoding {
        Encoding::MixedAxis => String::from_str("SM"),
        Encoding::DirectAxis => String::from_str("XM"),
    };
    text.append(",");
    append_decimal(&mut text, command.duration as i64);
    text.append(",");
    append_decimal(&mut text, command.axis_a as i64);
    text.append(",");
    append_decimal(&mut text, command.axis_b as i64);
    text
}

/// The mixed-axis move command for a displacement, as text, and the
/// displacement that it achieves along x and y.
pub fn get_move_command(dx: i32, dy: i32) -> (encoded: (String, i32, i32))
    requires
        encodable(Encoding::MixedAxis, dx as int, dy as int),
    ensures
        encoded.0@ == move_text(Encoding::MixedAxis, dx as int, dy as int),
        encoded.1 == motion(Encoding::MixedAxis, dx as int, dy as int).dx,
        encoded.2 == motion(Encoding::MixedAxis, dx as int, dy as int).dy,
{
    let (command, dx, dy) = encode(Encoding::MixedAxis, dx, dy);

    (command_text(Encoding::MixedAxis, command), dx, dy)
}

/// What a motion encoder knows: the size of the device, the encoding of its
/// moves and where the pen is taken to be.
pub struct DeviceState {
    pub width: int,
    pub height: int,
    pub encoding: Encoding,
    pub x: int,
    pub y: int,
}

/// `v` brought into the range from zero to `extent`; zero if `extent` is
/// negative.
pub open spec fn clamp(v: int, extent: int) -> int {
    let capped = if v <= extent {
        v
    } else {
        extent
    };
    if capped >= 0 {
        capped
    } else {
        0
    }
}

impl DeviceState {
    /// The device is no larger than `MAX_EXTENT` and the pen is no further
    /// than `MAX_SHORTFALL` outside its rectangle.
    pub open spec fn wf(self) -> bool {
        &&& self.width <= MAX_EXTENT
        &&& self.height <= MAX_EXTENT
        &&& -MAX_SHORTFALL <= self.x <= clamp(self.width, self.width) + MAX_SHORTFALL
        &&& -MAX_SHORTFALL <= self.y <= clamp(self.height, self.height) + MAX_SHORTFALL
    }

    /// The pen is inside the device's rectangle.
    pub open spec fn on_device(self) -> bool {
        &&& 0 <= self.x <= self.width
        &&& 0 <= self.y <= self.height
    }

    /// The displacement along x from the pen to the target `x`, clamped to
    /// the device.
    pub open spec fn dx_to(self, x: int) -> int {
        clamp(x, self.width) - self.x
    }

    /// The displacement along y from the pen to the target `y`, clamped to
    /// the device.
    pub open spec fn dy_to(self, y: int) -> int {
        clamp(y, self.height) - self.y
    }

    /// The pen is at the target `(x, y)`, clamped to the device.
    pub open spec fn at(self, x: int, y: int) -> bool {
        self.dx_to(x) == 0 && self.dy_to(y) == 0
    }

    /// What a move towards `(x, y)` does, if the pen is not there yet.
    pub open spec fn motion_to(self, x: int, y: int) -> Motion {
        motion(self.encoding, self.dx_to(x), self.dy_to(y))
    }

    /// The state after a move towards `(x, y)`: the pen advances by what the
    /// command achieves, which is less than what was asked where an axis was
    /// dropped.
    pub open spec fn moved(self, x: int, y: int) -> DeviceState {
        if self.at(x, y) {
            self
        } else {
            DeviceState {
                x: self.x + self.motion_to(x, y).dx,
                y: self.y + self.motion_to(x, y).dy,
                ..self
            }
        }
    }
}

/// Turns target points into move commands for one device and keeps track of
/// where the pen is.
pub struct MotionEncoder {
    width: i32,
    height: i32,
    encoding: Encoding,
    x: i32,
    y: i32,
}

impl View for MotionEncoder {
    type V = DeviceState;

    closed spec fn view(&self) -> DeviceState {
        DeviceState {
            width: self.width as int,
            height: self.height as int,
            encoding: self.encoding,
            x: self.x as int,
            y: self.y as int,
        }
    }
}

fn clamp_to(v: i32, extent: i32) -> (clamped: i32)
    ensures
        clamped == clamp(v as int, extent as int),
{
    let capped: i32 = if v <= extent {
        v
    } else {
        extent
    };
    if capped >= 0 {
        capped
    } else {
        0
    }
}

impl MotionEncoder {
    /// The state of every encoder is well formed.
    #[verifier::type_invariant]
    pub open spec fn in_range(&self) -> bool {
        self@.wf()
    }

    /// An encoder for a device of the given size, with the pen at the
    /// origin.
    pub fn new(width: i32, height: i32, encoding: Encoding) -> (encoder: MotionEncoder)
        requires
            width <= MAX_EXTENT,
            height <= MAX_EXTENT,
        ensures
            encoder@ == (DeviceState {
                width: width as int,
                height: height as int,
                encoding,
                x: 0,
                y: 0,
            }),
            encoder@.wf(),
    {
        MotionEncoder { width, height, encoding, x: 0, y: 0 }
    }

    /// Where the pen is taken to be.
    pub fn position(&self) -> (point: PlotPoint)
        ensures
            point.x == self@.x,
            point.y == self@.y,
    {
        PlotPoint { x: self.x, y: self.y }
    }

    /// How the device's moves are encoded.
    pub fn encoding(&self) -> (encoding: Encoding)
        ensures
            encoding == self@.encoding,
    {
        self.encoding
    }

    /// Moves the pen towards `target`. Returns the command to send, or
    /// nothing if the pen is already at the target as clamped to the device.
    pub fn move_to(&mut self, target: PlotPoint) -> (command: Option<MotionCommand>)
        ensures
            final(self)@ == old(self)@.moved(target.x as int, target.y as int),
            final(self)@.wf(),
            command is None <==> old(self)@.at(target.x as int, target.y as int),
            command is Some ==> command->0.carries(
                old(self)@.motion_to(target.x as int, target.y as int),
            ),
    {
        proof {
            use_type_invariant(&*self);
        }
        let x = clamp_to(target.x, self.width);
        let y = clamp_to(target.y, self.height);

        let dx: i32 = x - self.x;
        let dy: i32 = y - self.y;

        if dx == 0 && dy == 0 {
            return None;
        }
        proof {
            lemma_shortfall(self.encoding, dx as int, dy as int);
        }
        let (command, dx, dy) = encode(self.encoding, dx, dy);

        self.x += dx;
        self.y += dy;
        Some(command)
    }
}

/// What a command achieves differs from what was asked by at most half the
/// magnitude of a dropped axis, which is small against the duration.
pub proof fn lemma_shortfall(encoding: Encoding, dx: int, dy: int)
    requires
        magnitude(dx) <= MAX_EXTENT + MAX_SHORTFALL,
        magnitude(dy) <= MAX_EXTENT + MAX_SHORTFALL,
    ensures
        encodable(encoding, dx, dy),
        magnitude(dx - motion(encoding, dx, dy).dx) <= MAX_SHORTFALL,
        magnitude(dy - motion(encoding, dx, dy).dy) <= MAX_SHORTFALL,
{
}

/// A move to where the pen already is sends nothing and leaves the state as
/// it was, for a pen on the device.
pub proof fn lemma_move_to_own_position(state: DeviceState)
    requires
        state.on_device(),
    ensures
        state.at(state.x, state.y),
        state.moved(state.x, state.y) == state,
{
}

/// A move ends exactly on its target, clamped to the device, if and only if
/// no axis is dropped from its command.
pub proof fn lemma_move_arrives(state: DeviceState, x: int, y: int)
    ensures
        state.moved(x, y).at(x, y) <==> !drops_axis(
            state.encoding,
            state.dx_to(x),
            state.dy_to(y),
        ),
{
}

/// A move asked for a hundred steps beyond the far corner of the device ends
/// exactly in that corner, provided that no axis is dropped on the way.
pub proof fn lemma_move_beyond_corner(state: DeviceState)
    requires
        state.width >= 0,
        state.height >= 0,
        !drops_axis(
            state.encoding,
            state.dx_to(state.width + 100),
            state.dy_to(state.height + 100),
        ),
    ensures
        state.moved(state.width + 100, state.height + 100).x == state.width,
        state.moved(state.width + 100, state.height + 100).y == state.height,
{
}

/// An axis that is too slow for the duration is sent as zero, and the pen
/// does not advance along it: the displacement achieved has no component on
/// that axis. An axis that was to move and is at least as large as the other
/// is never too slow, so a command never loses all that it was to do.
pub proof fn lemma_dropped_axis(encoding: Encoding, dx: int, dy: int)
    ensures
        ({
            let a = axis_a(encoding, dx, dy);
            let b = axis_b(encoding, dx, dy);
            let m = motion(encoding, dx, dy);
            &&& too_slow(duration(a, b), a) ==> m.axis_a == 0 && axis_a(encoding, m.dx, m.dy) == 0
            &&& too_slow(duration(a, b), b) ==> m.axis_b == 0 && axis_b(encoding, m.dx, m.dy) == 0
            &&& a != 0 && magnitude(a) >= magnitude(b) ==> m.axis_a == a
            &&& b != 0 && magnitude(b) >= magnitude(a) ==> m.axis_b == b
        }),
{
}

/// What a move leaves undone, seen on the axes: nothing where no axis is
/// dropped; otherwise all of the dropped axis and at most one step of the
/// other one, and that only with mixed axes.
pub proof fn lemma_rest_after_move(encoding: Encoding, dx: int, dy: int)
    ensures
        ({
            let a = axis_a(encoding, dx, dy);
            let b = axis_b(encoding, dx, dy);
            let m = motion(encoding, dx, dy);
            let rest_a = axis_a(encoding, dx - m.dx, dy - m.dy);
            let rest_b = axis_b(encoding, dx - m.dx, dy - m.dy);
            &&& !drops_axis(encoding, dx, dy) ==> rest_a == 0 && rest_b == 0
            &&& a != 0 && m.axis_a == 0 ==> rest_a == a && magnitude(rest_b) <= 1
            &&& b != 0 && m.axis_b == 0 ==> rest_b == b && magnitude(rest_a) <= 1
            &&& encoding == Encoding::DirectAxis && drops_axis(encoding, dx, dy) ==> rest_a == 0
                || rest_b == 0
        }),
{
}

/// A displacement of at most one step on each axis is encoded as it is:
/// the move for it arrives.
proof fn lemma_single_steps_arrive(encoding: Encoding, dx: int, dy: int)
    requires
        magnitude(axis_a(encoding, dx, dy)) <= 1,
        magnitude(axis_b(encoding, dx, dy)) <= 1,
    ensures
        !drops_axis(encoding, dx, dy),
{
}

/// What a move leaves undone is made up by asking again: the third of three
/// identical requests, at the latest, ends on the target, and with one motor
/// per axis the second one does.
pub proof fn lemma_repeated_move_arrives(state: DeviceState, x: int, y: int)
    ensures
        state.moved(x, y).moved(x, y).moved(x, y).at(x, y),
        state.encoding == Encoding::DirectAxis ==> state.moved(x, y).moved(x, y).at(x, y),
{
    let once = state.moved(x, y);
    let twice = once.moved(x, y);
    lemma_move_arrives(state, x, y);
    lemma_move_arrives(once, x, y);
    lemma_move_arrives(twice, x, y);
    if !once.at(x, y) {
        lemma_rest_after_move(state.encoding, state.dx_to(x), state.dy_to(y));
        lemma_dropped_axis(once.encoding, once.dx_to(x), once.dy_to(y));
        if !twice.at(x, y) {
            lemma_rest_after_move(once.encoding, once.dx_to(x), once.dy_to(y));
            lemma_single_steps_arrive(twice.encoding, twice.dx_to(x), twice.dy_to(y));
        }
    }
}

} // verus!
