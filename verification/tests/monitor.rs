//! The live monitor.
use gh6::display::num;
use gh6::tui::lines::{
    counters, done_header, done_header_with, done_line_with, event_line_with, first_worker_line,
    format_done_line, format_event_line, format_queue_line, queue_header, queue_header_with,
    queue_line_with, quota, render_events, shared_col_widths_with, upcoming_column,
    upcoming_item_with, upcoming_title, workers_line_with, DoneFmt, Piece, Tone,
};
use gh6::tui::{heights, App, Key, Panel};
use gh6::types::{
    CrawlEvent, CrawlingWorker, Payload, QueueItem, ServerResponse, StatusData,
};
use std::collections::VecDeque;

fn done(login: &str, degree: i32) -> CrawlEvent {
    CrawlEvent::UserDone {
        login: login.to_string(),
        degree,
        new_connections: 7,
        following_count: 1234,
        followers_count: 5,
    }
}

fn queued(login: &str) -> CrawlEvent {
    CrawlEvent::UserQueued {
        login: login.to_string(),
        degree: 1,
        parent_login: "parent".to_string(),
    }
}

fn event(data: CrawlEvent) -> ServerResponse {
    ServerResponse::Event { data }
}

fn status(workers: &[&str]) -> StatusData {
    StatusData {
        users_crawled: 1234,
        users_queued: 5,
        users_retry: 6,
        users_error: 7,
        current_degree: 2,
        api_remaining: 999,
        api_limit: 5000,
        api_reset_at: 0,
        uptime_secs: 59,
        currently_crawling: workers.first().map(|w| w.to_string()),
        workers: workers
            .iter()
            .map(|w| CrawlingWorker { login: w.to_string(), degree: 2 })
            .collect(),
        paused: false,
        pending_normal: vec![],
        pending_hub: vec![],
        pending_retry: vec![],
        pending_normal_count: 10,
        pending_hub_count: 20,
        pending_retry_count: 30,
    }
}

fn snapshot(s: StatusData) -> ServerResponse {
    ServerResponse::Ack { payload: Some(Payload::Status(s)) }
}

fn text(line: &[Piece]) -> String {
    line.iter().map(|p| p.text.as_str()).collect()
}

fn texts(lines: &[Vec<Piece>]) -> Vec<String> {
    lines.iter().map(|l| text(l)).collect()
}

fn tones(line: &[Piece]) -> Vec<Tone> {
    line.iter().map(|p| p.tone).collect()
}

/// The logins in the rows of the table of done users.
fn rows(app: &App, height: usize) -> Vec<String> {
    app.done_lines(height, 60, 2, 4)
        .iter()
        .skip(1)
        .map(|l| l.get(3).map(|p| p.text.trim().to_string()).unwrap_or_default())
        .collect()
}

fn with_events(n: usize) -> App {
    let mut app = App::new();
    for i in 0..n {
        app.handle_response(event(done(&format!("u{i}"), 1)));
    }
    app
}

#[test]
fn a_new_monitor_shows_nothing() {
    let app = App::new();
    assert!(!app.quits());
    assert_eq!(app.focused(), Panel::Done);
    assert!(app.snapshot().is_none());
    assert_eq!(text(&app.upcoming_head()), "connecting...");
    assert_eq!(text(&app.workers_line(80)), "connecting...");
    assert_eq!(app.shared_col_widths(), (2, 0));
}

#[test]
fn keys_that_end_the_monitor() {
    let mut app = App::new();
    assert!(!app.handle_key(Key::Char('x')));
    assert!(app.handle_key(Key::Char('q')));
    assert!(app.quits());
    let mut app = App::new();
    assert!(app.handle_key(Key::Esc));
    let mut app = App::new();
    app.close();
    assert!(app.quits());
    let mut app = App::new();
    app.handle_response(ServerResponse::Bye);
    assert!(app.quits());
}

#[test]
fn tab_changes_the_focus() {
    let mut app = App::new();
    app.handle_key(Key::Tab);
    assert_eq!(app.focused(), Panel::Queue);
    app.handle_key(Key::Tab);
    assert_eq!(app.focused(), Panel::Done);
}

#[test]
fn new_events_are_followed_at_the_end() {
    let mut app = with_events(5);
    assert_eq!(rows(&app, 4), vec!["u2", "u3", "u4"]);
    app.handle_response(event(done("new", 1)));
    assert_eq!(rows(&app, 4), vec!["u3", "u4", "new"]);
}

#[test]
fn a_scrolled_table_stands_still() {
    let mut app = with_events(5);
    app.handle_key(Key::Up);
    assert_eq!(rows(&app, 4), vec!["u1", "u2", "u3"]);
    app.handle_response(event(done("new", 1)));
    assert_eq!(rows(&app, 4), vec!["u1", "u2", "u3"]);
    app.handle_key(Key::Char('G'));
    assert_eq!(rows(&app, 4), vec!["u3", "u4", "new"]);
}

#[test]
fn scrolling_stays_within_the_events() {
    let mut app = with_events(3);
    for _ in 0..10 {
        app.handle_key(Key::Char('k'));
    }
    assert_eq!(rows(&app, 2), vec!["u0"]);
    app.handle_key(Key::Char('j'));
    assert_eq!(rows(&app, 2), vec!["u1"]);
    app.handle_key(Key::PageDown);
    assert_eq!(rows(&app, 2), vec!["u2"]);
    app.handle_key(Key::PageUp);
    assert_eq!(rows(&app, 2), vec!["u0"]);
    app.handle_key(Key::Down);
    app.handle_key(Key::Char('g'));
    assert_eq!(rows(&app, 2), vec!["u0"]);
}

#[test]
fn the_focused_table_is_scrolled() {
    let mut app = with_events(3);
    for i in 0..3 {
        app.handle_response(event(queued(&format!("q{i}"))));
    }
    app.handle_key(Key::Tab);
    app.handle_key(Key::Up);
    assert_eq!(rows(&app, 2), vec!["u2"]);
    let lines = texts(&app.queue_lines(2, 30, 2, 2));
    assert_eq!(lines[1], "  1°  q1            via parent");
}

#[test]
fn old_events_make_room() {
    let mut app = with_events(10_001);
    app.handle_key(Key::Char('g'));
    assert_eq!(rows(&app, 2), vec!["u2"]);
}

#[test]
fn buffers_keep_the_newest_events() {
    let mut app = App::new();
    for i in 0..10_000 {
        app.push_done(done(&format!("u{i}"), 1));
    }
    app.push_queue(queued("q"));
    assert_eq!(rows(&app, 3), vec!["u9998", "u9999"]);
    app.handle_key(Key::Char('g'));
    assert_eq!(rows(&app, 2), vec!["u1"]);
}

#[test]
fn tables_fill_their_lines_from_the_bottom() {
    let app = with_events(2);
    let lines = app.done_lines(5, 60, 2, 4);
    assert_eq!(lines.len(), 5);
    assert!(lines[1].is_empty() && lines[2].is_empty());
    let between = " ".repeat(60 - 10 - 24);
    assert_eq!(text(&lines[4]), format!("  1°  u1  {between}    1,234          5  +7"));
    assert!(app.done_lines(0, 60, 2, 4).is_empty());
    assert_eq!(app.queue_lines(3, 60, 2, 4).len(), 3);
}

#[test]
fn the_rest_of_the_screen_goes_to_the_tables() {
    assert_eq!(heights(40, 0), (1, 31));
    assert_eq!(heights(40, 5), (6, 26));
    assert_eq!(heights(40, 500), (15, 17));
    assert_eq!(heights(12, 500), (3, 1));
    assert_eq!(heights(8, 5), (0, 1));
    assert_eq!(heights(0, 0), (0, 1));
}

#[test]
fn headers_stand_above_their_columns() {
    let head = done_header(3, 5, 60);
    assert_eq!(head.tone, Tone::DimBold);
    assert_eq!(
        head.text,
        format!("  DEG  LOGIN{}  FOLLOWING  FOLLOWERS  NEW", " ".repeat(60 - 12 - 25))
    );
    assert_eq!(queue_header(2, 0, 5).text, "  DEG  LOGIN VIA");
    assert_eq!(queue_header_with("D", "L", 1, 1, 12).text, "  D  L   VIA");
    assert_eq!(
        done_header_with("D", "L", 1, 1, 0).text,
        "  D  L   FOLLOWING  FOLLOWERS  NEW"
    );
}

#[test]
fn a_done_row_has_its_tones() {
    let cfg = DoneFmt {
        degree: 3,
        login: "mona",
        new_connections: 12,
        following_count: 10,
        followers_count: 123_456_789,
        deg_w: 3,
        login_w: 6,
        term_w: 50,
    };
    let line = format_done_line(&cfg);
    let between = " ".repeat(50 - 13 - 25);
    assert_eq!(text(&line), format!("   3°  mona  {between}       10  123,456,789  +12"));
    assert_eq!(
        tones(&line),
        vec![
            Tone::Plain,
            Tone::Cyan,
            Tone::Plain,
            Tone::Blue,
            Tone::Plain,
            Tone::Dim,
            Tone::Plain,
            Tone::Dim,
            Tone::Plain,
            Tone::Green,
        ]
    );
    let line = done_line_with(&cfg, "D", "L", 20);
    assert_eq!(text(&line), "  D  L        10  123,456,789  +12");
}

#[test]
fn a_queue_row_has_its_tones() {
    let line = format_queue_line(1, "中", "p", 2, 4, 20);
    assert_eq!(text(&line), "  1°  中       via p");
    assert_eq!(line[5].tone, Tone::Dim);
    let line = queue_line_with("D", "L", 5, "p", 1, 1, 0);
    assert_eq!(text(&line), "  D  L via p");
}

#[test]
fn columns_fit_every_event() {
    let mut app = App::new();
    app.handle_response(event(done("ab", 100)));
    app.handle_response(event(queued("中文字")));
    assert_eq!(app.done_count(), 1);
    assert_eq!(app.shared_col_widths(), (4, 6));
    assert_eq!(shared_col_widths_with(&vec![1], &vec![3, 9, 4]), (2, 9));
}

#[test]
fn what_comes_next_is_counted() {
    let line = upcoming_title(&status(&[]));
    assert_eq!(text(&line), "  Upcoming  normal:10  hub:20  retry:30");
    assert_eq!(line[1].tone, Tone::Green);
    assert_eq!(line[3].tone, Tone::Yellow);
    assert_eq!(line[5].tone, Tone::Red);
}

fn waiting(login: &str, priority: &str) -> QueueItem {
    QueueItem { login: login.to_string(), degree: 4, priority: priority.to_string() }
}

#[test]
fn waiting_scopes_fill_a_column() {
    let items = vec![waiting("mona", "normal"), waiting("hub", "low"), waiting("bad", "retry")];
    let column = upcoming_column(&items, 5, 20);
    let shown: Vec<&str> = column.iter().map(|p| p.text.as_str()).collect();
    assert_eq!(shown, vec!["mona (4°)", "hub (4°)", "bad (4°)", "—", "—"]);
    assert_eq!(
        tones(&column),
        vec![Tone::Plain, Tone::Yellow, Tone::Red, Tone::Dim, Tone::Dim]
    );
    let narrow = upcoming_column(&items, 2, 3);
    assert_eq!(narrow[0].text, "mon");
    assert_eq!(narrow.len(), 2);
    assert_eq!(upcoming_item_with(&items[0], "m", 11).text, "m");
}

#[test]
fn workers_are_shown_as_they_fit() {
    let mut app = App::new();
    app.handle_response(snapshot(status(&["a", "b"])));
    let line = app.workers_line(80);
    assert_eq!(text(&line), "crawling a (2°)  b (2°)");
    assert_eq!(
        tones(&line),
        vec![Tone::Dim, Tone::Blue, Tone::Cyan, Tone::Plain, Tone::Blue, Tone::Cyan]
    );
    let tight = app.workers_line(22);
    assert_eq!((text(&tight).as_str(), tight.len()), ("crawling a (2°), b (2°", 1));
    assert_eq!(text(&app.workers_line(4)), "craw");
    let wide = workers_line_with(&status(&["a", "b"]), 9, 8, "short", 8);
    assert_eq!(text(&wide), "crawling a (2°), b (2°)");
    assert_eq!(text(&workers_line_with(&status(&["a"]), 9, 9, "short", 8)), "short");
}

#[test]
fn five_workers_are_shown_at_most() {
    let mut app = App::new();
    app.handle_response(snapshot(status(&["a", "b", "c", "d", "e", "f", "g"])));
    assert_eq!(
        text(&app.workers_line(200)),
        "crawling a (2°)  b (2°)  c (2°)  d (2°)  e (2°)  +2 more"
    );
    assert_eq!(
        text(&app.workers_line(59)),
        "crawling a (2°)  b (2°)  c (2°)  d (2°)  e (2°)  +2 more"
    );
}

#[test]
fn idle_and_paused_workers() {
    let mut app = App::new();
    app.handle_response(snapshot(status(&[])));
    assert_eq!(text(&app.workers_line(80)), "idle");
    let mut s = status(&["a"]);
    s.paused = true;
    let queued = s.users_queued;
    assert_eq!(text(&first_worker_line(&Some(s.clone()))), format!("⏸ queue {}  waiting for gh6 run", num(queued)));
    app.handle_response(snapshot(s));
    let line = app.workers_line(80);
    assert_eq!(text(&line), format!("⏸ queue {}  waiting for gh6 run", num(queued)));
    assert_eq!(tones(&line), vec![Tone::Yellow, Tone::Dim, Tone::Dim, Tone::Dim, Tone::Bold]);
}

#[test]
fn messages_without_a_snapshot_leave_it() {
    let mut app = App::new();
    app.handle_response(snapshot(status(&["a"])));
    app.handle_response(ServerResponse::Ack { payload: None });
    app.handle_response(ServerResponse::Error { msg: "x".to_string() });
    assert_eq!(app.snapshot().as_ref().unwrap().users_crawled, 1234);
    assert!(!app.quits());
}

#[test]
fn counters_and_quota() {
    let s = status(&[]);
    assert_eq!(text(&counters(&s)), "crawled 1,234  queue 5  retry 6  error 7");
    let line = quota(&s);
    assert_eq!(text(&line), "up 59s  API 999/5,000");
    assert_eq!(line[3].tone, Tone::Yellow);
    let mut s = status(&[]);
    s.api_remaining = 1000;
    assert_eq!(quota(&s)[3].tone, Tone::Green);
    s.api_remaining = 99;
    assert_eq!(quota(&s)[3].tone, Tone::Red);
}

#[test]
fn the_log_has_a_line_per_event() {
    let line = format_event_line(&done("ab", 1), 40);
    assert_eq!(text(&line), "[1°] ab             done  +7 connections");
    assert_eq!(line[4].tone, Tone::Green);
    let line = format_event_line(&queued("ab"), 5);
    assert_eq!(text(&line), "[1°] ab queued");
    assert_eq!(line[4].tone, Tone::Dim);
    assert_eq!(text(&event_line_with(&queued("ab"), 1, 1, 5)), "[1°] ab   queued");
    let events: VecDeque<CrawlEvent> = vec![queued("a"), queued("b"), queued("c")].into();
    let lines = render_events(&events, 1, 2, 5);
    assert_eq!(texts(&lines), vec!["[1°] a queued", "[1°] b queued"]);
    let lines = render_events(&events, 0, 4, 5);
    assert_eq!(texts(&lines)[0], "");
    assert_eq!(lines.len(), 4);
}

#[test]
fn the_first_worker_stands_below_the_log() {
    assert_eq!(text(&first_worker_line(&None)), "connecting...");
    assert_eq!(text(&first_worker_line(&Some(status(&["a", "b"])))), "crawling a (2°)");
    assert_eq!(text(&first_worker_line(&Some(status(&[])))), "crawling - (2°)");
}
