use vstd::prelude::*;
use vstd::string::StringExecFns;
use crate::decimal::{append_natural, decimal_nat};
use crate::motion::{DeviceState, Encoding, MAX_EXTENT, MotionEncoder, command_text, move_text};
use crate::plottable::{PlotPoint, polylines};

verus! {

/// What a plotter is at any moment: the device and its pen, the commands
/// waiting to be sent and whether the motors are still enabled.
pub struct PlotterState {
    pub device: DeviceState,
    pub queue: Seq<Seq<char>>,
    pub live: bool,
}

impl PlotterState {
    /// A plotter as it starts: pen at the origin, and the commands that
    /// enable the motors and raise the pen waiting to be sent.
    pub open spec fn initial(width: int, height: int, encoding: Encoding) -> PlotterState {
        PlotterState {
            device: DeviceState { width, height, encoding, x: 0, y: 0 },
            queue: seq!["EM,1,1"@, "SP,1,500"@],
            live: true,
        }
    }

    /// The command is added to the queue, unless the plotter was shut down.
    pub open spec fn queued(self, command: Seq<char>) -> PlotterState {
        if self.live {
            PlotterState { queue: self.queue.push(command), ..self }
        } else {
            self
        }
    }

    /// The pen is raised. The command carries the time that the pen needs to
    /// settle before the next move.
    pub open spec fn pen_up(self) -> PlotterState {
        self.queued("SP,1,500"@)
    }

    /// The pen is lowered.
    pub open spec fn pen_down(self) -> PlotterState {
        self.queued("SP,0,500"@)
    }

    /// A move towards `(x, y)`. If the pen is already at the target, clamped
    /// to the device, nothing happens; otherwise the move command is queued
    /// and the pen advances by what the command achieves.
    pub open spec fn move_to(self, x: int, y: int) -> PlotterState {
        if !self.live || self.device.at(x, y) {
            self
        } else {
            PlotterState {
                device: self.device.moved(x, y),
                queue: self.queue.push(
                    move_text(self.device.encoding, self.device.dx_to(x), self.device.dy_to(y)),
                ),
                ..self
            }
        }
    }

    /// Moves to each of the points in turn.
    pub open spec fn moves(self, points: Seq<PlotPoint>) -> PlotterState
        decreases points.len(),
    {
        if points.len() == 0 {
            self
        } else {
            self.moves(points.drop_last()).move_to(points.last().x as int, points.last().y as int)
        }
    }

    /// One polyline: a move to its first point, pen down, a move to each
    /// further point, pen up. An empty polyline is skipped.
    pub open spec fn draw(self, line: Seq<PlotPoint>) -> PlotterState {
        if line.len() == 0 {
            self
        } else {
            self.move_to(line[0].x as int, line[0].y as int).pen_down().moves(
                line.subrange(1, line.len() as int),
            ).pen_up()
        }
    }

    /// The polylines one after the other.
    pub open spec fn draw_all(self, lines: Seq<Seq<PlotPoint>>) -> PlotterState
        decreases lines.len(),
    {
        if lines.len() == 0 {
            self
        } else {
            self.draw_all(lines.drop_last()).draw(lines.last())
        }
    }

    /// The queue has been handed out.
    pub open spec fn flushed(self) -> PlotterState {
        PlotterState { queue: Seq::empty(), ..self }
    }

    /// The end of a session is queued: the pen returns to the origin and the
    /// motors are disabled. A plotter that was shut down adds nothing.
    pub open spec fn closing(self) -> PlotterState {
        self.move_to(0, 0).queued("EM,0,0"@)
    }

    /// After the end of the session has been handed out: nothing is queued
    /// and no further request is accepted.
    pub open spec fn shut_down(self) -> PlotterState {
        PlotterState { live: false, ..self.closing().flushed() }
    }
}

/// The address of a controller: `http://`, the host name, a colon and the
/// port in decimal.
pub open spec fn endpoint_text(hostname: Seq<char>, port_number: u16) -> Seq<char> {
    "http://"@ + hostname + ":"@ + decimal_nat(port_number as nat)
}

/// The state of a pen plotter behind a remote controller. It turns polylines
/// into the controller's commands and keeps track of where the pen is; the
/// commands are handed out in batches, to be sent in order.
pub struct RemotePlotter {
    endpoint: String,
    encoder: MotionEncoder,
    commands: Vec<String>,
    live: bool,
}

impl View for RemotePlotter {
    type V = PlotterState;

    closed spec fn view(&self) -> PlotterState {
        PlotterState { device: self.encoder@, queue: self.commands.deep_view(), live: self.live }
    }
}

impl RemotePlotter {
    /// The address of the controller that the commands are meant for.
    pub closed spec fn endpoint_view(&self) -> Seq<char> {
        self.endpoint@
    }

    /// A mixed-axis plotter of the given size for the controller at
    /// `hostname` and `port_number`.
    pub fn new(hostname: String, port_number: u16, width: i32, height: i32) -> (plotter:
        RemotePlotter)
        requires
            width <= MAX_EXTENT,
            height <= MAX_EXTENT,
        ensures
            plotter@ == PlotterState::initial(width as int, height as int, Encoding::MixedAxis),
            plotter@.device.wf(),
            plotter.endpoint_view() == endpoint_text(hostname@, port_number),
    {
        RemotePlotter::with_encoding(hostname, port_number, width, height, Encoding::MixedAxis)
    }

    /// A plotter of the given size and encoding for the controller at
    /// `hostname` and `port_number`.
    pub fn with_encoding(
        hostname: String,
        port_number: u16,
        width: i32,
        height: i32,
        encoding: Encoding,
    ) -> (plotter: RemotePlotter)
        requires
            width <= MAX_EXTENT,
            height <= MAX_EXTENT,
        ensures
            plotter@ == PlotterState::initial(width as int, height as int, encoding),
            plotter@.device.wf(),
            plotter.endpoint_view() == endpoint_text(hostname@, port_number),
    {
        let mut endpoint = String::from_str("http://");
        endpoint.append(hostname.as_str());
        endpoint.append(":");
        append_natural(&mut endpoint, port_number as u128);

        let mut result = RemotePlotter {
            endpoint,
            encoder: MotionEncoder::new(width, height, encoding),
            commands: Vec::new(),
            live: true,
        };
        assert(result@.queue =~= Seq::empty());
        result.queue("EM,1,1");
        result.pen_up();
        assert(result@.queue =~= seq!["EM,1,1"@, "SP,1,500"@]);
        result
    }

    /// The address of the controller.
    pub fn endpoint(&self) -> (endpoint: &str)
        ensures
            endpoint@ == self.endpoint_view(),
    {
        self.endpoint.as_str()
    }

    /// Where the pen is taken to be.
    pub fn position(&self) -> (point: PlotPoint)
        ensures
            point.x == self@.device.x,
            point.y == self@.device.y,
    {
        self.encoder.position()
    }

    /// Whether the plotter still accepts requests.
    pub fn is_live(&self) -> (live: bool)
        ensures
            live == self@.live,
    {
        self.live
    }

    /// Queues the command that raises the pen.
    pub fn pen_up(&mut self)
        ensures
            final(self)@ == old(self)@.pen_up(),
            final(self).endpoint_view() == old(self).endpoint_view(),
            final(self)@.device.wf(),
    {
        self.queue("SP,1,500");
    }

    /// Queues the command that lowers the pen.
    pub fn pen_down(&mut self)
        ensures
            final(self)@ == old(self)@.pen_down(),
            final(self).endpoint_view() == old(self).endpoint_view(),
            final(self)@.device.wf(),
    {
        self.queue("SP,0,500");
    }

    /// Moves the pen towards `(x, y)` and queues the command for the move,
    /// if there is one.
    pub fn pen_move(&mut self, x: i32, y: i32)
        ensures
            final(self)@ == old(self)@.move_to(x as int, y as int),
            final(self).endpoint_view() == old(self).endpoint_view(),
            final(self)@.device.wf(),
    {
        proof {
            use_type_invariant(&self.encoder);
        }
        if !self.live {
            return ;
        }
        match self.encoder.move_to(PlotPoint { x, y }) {
            Some(command) => {
                let text = command_text(self.encoder.encoding(), command);
                self.commands.push(text);
                assert(self.commands.deep_view() =~= old(self).commands.deep_view().push(text@));
            },
            None => {},
        }
    }

    /// Queues a command, unless the plotter was shut down.
    fn queue(&mut self, command: &str)
        ensures
            final(self)@ == old(self)@.queued(command@),
            final(self).endpoint_view() == old(self).endpoint_view(),
            final(self)@.device.wf(),
    {
        proof {
            use_type_invariant(&self.encoder);
        }
        if self.live {
            self.commands.push(String::from_str(command));
            assert(self.commands.deep_view() =~= old(self).commands.deep_view().push(command@));
        }
    }

    /// Hands out the commands that are waiting, in the order in which they
    /// were queued, and leaves the queue empty.
    pub fn flush(&mut self) -> (batch: Vec<String>)
        ensures
            batch.deep_view() == old(self)@.queue,
            final(self)@ == old(self)@.flushed(),
            final(self).endpoint_view() == old(self).endpoint_view(),
            final(self)@.device.wf(),
    {
        proof {
            use_type_invariant(&self.encoder);
        }
        let mut batch: Vec<String> = Vec::new();
        std::mem::swap(&mut batch, &mut self.commands);
        assert(self.commands.deep_view() =~= Seq::empty());
        batch
    }

    /// Draws the polylines: for each one that is not empty a move to its
    /// first point, pen down, a move to each further point and pen up.
    /// Returns every command that is waiting after that, in order: the batch
    /// to send.
    pub fn plot(&mut self, lines: Vec<Vec<PlotPoint>>) -> (batch: Vec<String>)
        ensures
            batch.deep_view() == old(self)@.draw_all(polylines(lines)).queue,
            final(self)@ == old(self)@.draw_all(polylines(lines)).flushed(),
            final(self).endpoint_view() == old(self).endpoint_view(),
            final(self)@.device.wf(),
    {
        proof {
            use_type_invariant(&self.encoder);
        }
        let ghost all = polylines(lines);
        let mut i: usize = 0;
        while i < lines.len()
            invariant
                i <= lines.len(),
                all == polylines(lines),
                self@ == old(self)@.draw_all(all.take(i as int)),
                self.endpoint_view() == old(self).endpoint_view(),
                self@.device.wf(),
            decreases lines.len() - i,
        {
            let line = &lines[i];
            let ghost points = line@;
            assert(all.take(i + 1).drop_last() =~= all.take(i as int));
            assert(all.take(i + 1).last() == points);
            if line.len() > 0 {
                let point = line[0];
                self.pen_move(point.x, point.y);
                self.pen_down();
                let ghost lowered = self@;
                let mut j: usize = 1;
                assert(points.subrange(1, 1) =~= Seq::empty());
                while j < line.len()
                    invariant
                        1 <= j <= line.len(),
                        points == line@,
                        self@ == lowered.moves(points.subrange(1, j as int)),
                        self.endpoint_view() == old(self).endpoint_view(),
                    decreases line.len() - j,
                {
                    let point = line[j];
                    assert(points.subrange(1, j + 1).drop_last() =~= points.subrange(1, j as int));
                    self.pen_move(point.x, point.y);
                    j = j + 1;
                }
                self.pen_up();
            }
            i = i + 1;
        }
        assert(all.take(i as int) =~= all);
        self.flush()
    }

    /// Ends the session: returns the pen to the origin, disables the motors
    /// and hands out what is waiting, these commands last. The sequence does
    /// not depend on what became of any earlier batch. A plotter that was
    /// shut down before hands out nothing.
    pub fn shutdown(&mut self) -> (batch: Vec<String>)
        ensures
            batch.deep_view() == old(self)@.closing().queue,
            final(self)@ == old(self)@.shut_down(),
            final(self).endpoint_view() == old(self).endpoint_view(),
            final(self)@.device.wf(),
    {
        self.pen_move(0, 0);
        self.queue("EM,0,0");
        let batch = self.flush();
        self.live = false;
        batch
    }
}

/// Shutting down hands out the end of the session exactly once. The first
/// shutdown hands out what was waiting, then the move back to the origin,
/// unless the pen is there already, and last the command that disables the
/// motors. It depends on the plotter's state alone, not on what became of
/// the batches handed out before. Any later shutdown hands out nothing and
/// changes nothing.
pub proof fn lemma_shutdown_once(state: PlotterState)
    requires
        state.live,
    ensures
        state.device.at(0, 0) ==> state.closing().queue == state.queue.push("EM,0,0"@),
        !state.device.at(0, 0) ==> state.closing().queue == state.queue.push(
            move_text(state.device.encoding, state.device.dx_to(0), state.device.dy_to(0)),
        ).push("EM,0,0"@),
        !state.shut_down().live,
        state.shut_down().closing().queue == Seq::<Seq<char>>::empty(),
        state.shut_down().shut_down() == state.shut_down(),
{
}

/// A plotter that was shut down ignores every request: no polyline changes
/// its state or adds a command.
pub proof fn lemma_shut_down_ignores(state: PlotterState, lines: Seq<Seq<PlotPoint>>)
    requires
        !state.live,
    ensures
        state.draw_all(lines) == state,
    decreases lines.len(),
{
    if lines.len() > 0 {
        lemma_shut_down_ignores(state, lines.drop_last());
        let line = lines.last();
        if line.len() > 0 {
            lemma_shut_down_ignores_moves(state, line.subrange(1, line.len() as int));
        }
    }
}

proof fn lemma_shut_down_ignores_moves(state: PlotterState, points: Seq<PlotPoint>)
    requires
        !state.live,
    ensures
        state.moves(points) == state,
    decreases points.len(),
{
    if points.len() > 0 {
        lemma_shut_down_ignores_moves(state, points.drop_last());
    }
}

/// Moves add to the queue and take nothing from it: what was waiting stays
/// in place, and a live plotter stays live.
pub proof fn lemma_moves_extend_queue(state: PlotterState, points: Seq<PlotPoint>)
    ensures
        state.moves(points).live == state.live,
        state.moves(points).queue.len() >= state.queue.len(),
        state.moves(points).queue.subrange(0, state.queue.len() as int) == state.queue,
    decreases points.len(),
{
    if points.len() > 0 {
        lemma_moves_extend_queue(state, points.drop_last());
        let before = state.moves(points.drop_last());
        let after = state.moves(points);
        assert(after.queue.subrange(0, state.queue.len() as int) =~= before.queue.subrange(
            0,
            state.queue.len() as int,
        ));
    } else {
        assert(state.queue.subrange(0, state.queue.len() as int) =~= state.queue);
    }
}

/// A polyline is drawn between a pen-down and a pen-up: on a live plotter
/// nothing that the move to the first point has left in the queue is
/// changed, the command that lowers the pen comes right after it, and the
/// last command raises the pen.
pub proof fn lemma_draw_brackets(state: PlotterState, line: Seq<PlotPoint>)
    requires
        state.live,
        line.len() > 0,
    ensures
        ({
            let first = state.move_to(line[0].x as int, line[0].y as int);
            let drawn = state.draw(line);
            &&& drawn.live
            &&& drawn.queue.len() >= first.queue.len() + 2
            &&& drawn.queue.subrange(0, first.queue.len() as int) == first.queue
            &&& drawn.queue[first.queue.len() as int] == "SP,0,500"@
            &&& drawn.queue.last() == "SP,1,500"@
        }),
{
    let first = state.move_to(line[0].x as int, line[0].y as int);
    let lowered = first.pen_down();
    let rest = line.subrange(1, line.len() as int);
    lemma_moves_extend_queue(lowered, rest);
    let moved = lowered.moves(rest);
    let drawn = state.draw(line);
    assert(moved.queue.subrange(0, lowered.queue.len() as int)[first.queue.len() as int]
        == moved.queue[first.queue.len() as int]);
    assert(drawn.queue.subrange(0, first.queue.len() as int) =~= lowered.queue.subrange(
        0,
        first.queue.len() as int,
    )) by {
        assert forall|i: int| 0 <= i < first.queue.len() implies drawn.queue[i]
            == lowered.queue[i] by {
            assert(moved.queue.subrange(0, lowered.queue.len() as int)[i] == moved.queue[i]);
        }
    }
    assert(lowered.queue.subrange(0, first.queue.len() as int) =~= first.queue);
}

} // verus!
