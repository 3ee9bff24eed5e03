use bridget_bot::motion::Encoding;
use bridget_bot::plottable::{PlotPoint, Plottable};
use bridget_bot::rectangle::Rectangle;
use bridget_bot::remote_plotter::RemotePlotter;

fn point(x: i32, y: i32) -> PlotPoint {
    PlotPoint { x, y }
}

fn plotter(width: i32, height: i32) -> RemotePlotter {
    RemotePlotter::new("localhost".to_string(), 8080, width, height)
}

fn texts(batch: &[&str]) -> Vec<String> {
    batch.iter().map(|command| command.to_string()).collect()
}

#[test]
fn new_plotter_enables_the_motors_and_raises_the_pen() {
    let mut plotter = plotter(24000, 17440);
    assert_eq!(plotter.endpoint(), "http://localhost:8080");
    assert_eq!(plotter.position(), point(0, 0));
    assert!(plotter.is_live());
    assert_eq!(plotter.flush(), texts(&["EM,1,1", "SP,1,500"]));
    assert_eq!(plotter.flush(), Vec::<String>::new());
}

#[test]
fn endpoint_holds_host_and_port() {
    let plotter = RemotePlotter::new("10.0.0.7".to_string(), 0, 1, 1);
    assert_eq!(plotter.endpoint(), "http://10.0.0.7:0");
    let plotter = RemotePlotter::new(String::new(), u16::MAX, 1, 1);
    assert_eq!(plotter.endpoint(), "http://:65535");
}

#[test]
fn plot_brackets_each_polyline_with_the_pen() {
    let mut plotter = plotter(1000, 1000);
    plotter.flush();
    let batch = plotter.plot(vec![
        vec![point(10, 0), point(10, 10)],
        vec![],
        vec![point(0, 10)],
    ]);
    assert_eq!(
        batch,
        texts(&[
            "SM,5,10,10",
            "SP,0,500",
            "SM,5,10,-10",
            "SP,1,500",
            "SM,5,-10,-10",
            "SP,0,500",
            "SP,1,500",
        ])
    );
    assert_eq!(plotter.position(), point(0, 10));
    assert_eq!(plotter.flush(), Vec::<String>::new());
}

#[test]
fn first_plot_carries_the_opening_commands() {
    let mut plotter = plotter(1000, 1000);
    let batch = plotter.plot(vec![vec![point(0, 0), point(4, 0)]]);
    assert_eq!(
        batch,
        texts(&["EM,1,1", "SP,1,500", "SP,0,500", "SM,2,4,4", "SP,1,500"])
    );
}

#[test]
fn plot_of_nothing_sends_what_is_waiting() {
    let mut plotter = plotter(1000, 1000);
    assert_eq!(plotter.plot(vec![]), texts(&["EM,1,1", "SP,1,500"]));
    assert_eq!(plotter.plot(vec![vec![], vec![]]), Vec::<String>::new());
}

#[test]
fn plot_draws_a_rectangle() {
    let mut plotter = plotter(24000, 17440);
    plotter.flush();
    let batch = plotter.plot(Rectangle::new(100, 300, 200, 100).get_lines());
    assert_eq!(
        batch,
        texts(&[
            "SM,200,400,200",
            "SP,0,500",
            "SM,50,100,-100",
            "SM,100,-200,-200",
            "SM,50,-100,100",
            "SM,100,200,200",
            "SP,1,500",
        ])
    );
    assert_eq!(plotter.position(), point(300, 100));
}

#[test]
fn direct_plotter_sends_direct_moves() {
    let mut plotter =
        RemotePlotter::with_encoding("plotter".to_string(), 4242, 100, 100, Encoding::DirectAxis);
    assert_eq!(plotter.endpoint(), "http://plotter:4242");
    plotter.pen_move(30, 500);
    assert_eq!(plotter.position(), point(30, 100));
    assert_eq!(
        plotter.flush(),
        texts(&["EM,1,1", "SP,1,500", "XM,50,30,100"])
    );
}

#[test]
fn pen_move_beyond_the_corner_ends_in_the_corner() {
    let mut plotter = plotter(24000, 17440);
    plotter.pen_move(24100, 17540);
    assert_eq!(plotter.position(), point(24000, 17440));
}

#[test]
fn pen_move_to_the_pen_queues_nothing() {
    let mut plotter = plotter(1000, 1000);
    plotter.pen_move(200, 300);
    plotter.flush();
    plotter.pen_move(200, 300);
    assert_eq!(plotter.position(), point(200, 300));
    assert_eq!(plotter.flush(), Vec::<String>::new());
}

#[test]
fn pen_commands_carry_the_settle_time() {
    let mut plotter = plotter(1000, 1000);
    plotter.flush();
    plotter.pen_down();
    plotter.pen_up();
    assert_eq!(plotter.flush(), texts(&["SP,0,500", "SP,1,500"]));
}

#[test]
fn shutdown_returns_to_the_origin_and_disables_the_motors() {
    let mut plotter = plotter(1000, 1000);
    plotter.flush();
    plotter.plot(vec![vec![point(30, 40)]]);
    assert_eq!(plotter.shutdown(), texts(&["SM,35,-70,10", "EM,0,0"]));
    assert_eq!(plotter.position(), point(0, 0));
    assert!(!plotter.is_live());
}

#[test]
fn shutdown_at_the_origin_only_disables_the_motors() {
    let mut plotter = plotter(1000, 1000);
    assert_eq!(
        plotter.shutdown(),
        texts(&["EM,1,1", "SP,1,500", "EM,0,0"])
    );
}

#[test]
fn shutdown_after_a_lost_batch_still_ends_the_session_once() {
    let mut plotter = plotter(1000, 1000);
    let lost = plotter.plot(vec![vec![point(30, 40), point(50, 60)]]);
    assert_eq!(lost.len(), 6);
    drop(lost);

    let closing = plotter.shutdown();
    assert_eq!(closing, texts(&["SM,55,-110,10", "EM,0,0"]));
    assert_eq!(
        closing.iter().filter(|command| *command == "EM,0,0").count(),
        1
    );
    assert_eq!(plotter.shutdown(), Vec::<String>::new());
    assert_eq!(plotter.shutdown(), Vec::<String>::new());
    assert_eq!(plotter.position(), point(0, 0));
}

#[test]
fn shut_down_plotter_ignores_requests() {
    let mut plotter = plotter(1000, 1000);
    plotter.shutdown();
    plotter.pen_move(10, 10);
    plotter.pen_down();
    plotter.pen_up();
    assert_eq!(plotter.position(), point(0, 0));
    assert_eq!(
        plotter.plot(vec![vec![point(5, 5), point(6, 6)]]),
        Vec::<String>::new()
    );
    assert_eq!(plotter.position(), point(0, 0));
    assert!(!plotter.is_live());
}
