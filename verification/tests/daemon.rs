//! The daemon's protocol and what the client prints of it.
use gh6::client::{
    export_line, gap_of, pause_line, print_event, progress_line, progress_line_with, route_start,
    run_line, tag_of, translate_msg, Watcher, NOT_RUNNING_MSG,
};
use gh6::db::{Change, Db, DbError};
use gh6::display::{blue, cyan, dim, green, red, yellow};
use gh6::server::{
    build_status_data, choose_seed, detected_login, handle_request, needs_seed, note_seed,
    parse_request, plant_seed, request_of, socket_step, status_response, watch_step, Flags, Reply,
    Request, SocketStep, WatchInput,
};
use gh6::types::{
    CrawlEvent, CrawlingWorker, GithubUserProfile, Payload, RateLimit, ServerResponse, StatusData,
};

const LIMIT: RateLimit = RateLimit { limit: 5000, remaining: 42, reset_at: 7 };

fn request(cmd: &str) -> Request {
    Request { cmd: cmd.to_string(), watch: false }
}

fn message(reply: Reply) -> String {
    match reply {
        Reply::Answer(ServerResponse::Ack { payload: Some(Payload::Msg(m)) }) => m,
        Reply::Answer(ServerResponse::Error { msg }) => format!("error: {msg}"),
        _ => panic!("no answer"),
    }
}

fn ack(msg: &str) -> ServerResponse {
    ServerResponse::Ack { payload: Some(Payload::Msg(msg.to_string())) }
}

fn queued(login: &str) -> CrawlEvent {
    CrawlEvent::UserQueued {
        login: login.to_string(),
        degree: 2,
        parent_login: "p".to_string(),
    }
}

fn done(login: &str) -> CrawlEvent {
    CrawlEvent::UserDone {
        login: login.to_string(),
        degree: 1,
        new_connections: 12,
        following_count: 3,
        followers_count: 4,
    }
}

fn status() -> StatusData {
    let mut db = Db::new();
    db.insert_user("a").unwrap();
    db.insert_pending_scope("follow", "a", 0, "normal");
    let workers = vec![None, Some(CrawlingWorker { login: "mona".to_string(), degree: 3 })];
    build_status_data(&db, "follow", &workers, LIMIT, 61, false)
}

#[test]
fn requests_are_read_from_json() {
    let read = parse_request("  {\"cmd\": \"status\", \"watch\": true}\n").unwrap();
    assert_eq!((read.cmd.as_str(), read.watch), ("status", true));
    let read = parse_request("{\"cmd\":\"start\"}").unwrap();
    assert_eq!((read.cmd.as_str(), read.watch), ("start", false));
    let read = parse_request("{\"cmd\":7,\"watch\":\"yes\"}").unwrap();
    assert_eq!((read.cmd.as_str(), read.watch), ("", false));
    let read = parse_request("[1]").unwrap();
    assert_eq!((read.cmd.as_str(), read.watch), ("", false));
}

#[test]
fn broken_requests_are_refused() {
    let error = parse_request("{").unwrap_err();
    assert!(error.starts_with("invalid JSON: "));
    assert_eq!(request_of(Err("eof".to_string())).unwrap_err(), "invalid JSON: eof");
    let read = request_of(Ok((Some("pause".to_string()), Some(false)))).unwrap();
    assert_eq!((read.cmd.as_str(), read.watch), ("pause", false));
    assert_eq!(request_of(Ok((None, None))).unwrap().cmd, "");
}

#[test]
fn the_daemon_starts_idle() {
    let mut flags = Flags::new();
    assert_eq!(flags, Flags { paused: true, abort: false, shutdown: false });
    flags.stop();
    assert_eq!(flags, Flags { paused: true, abort: true, shutdown: true });
}

#[test]
fn starting_twice_says_so() {
    let mut flags = Flags::new();
    assert_eq!(message(handle_request(&mut flags, &request("start"))), "started");
    let running = flags;
    assert!(!running.paused);
    assert_eq!(message(handle_request(&mut flags, &request("start"))), "already running");
    assert_eq!(flags, running);
}

#[test]
fn pausing_twice_says_so() {
    let mut flags = Flags::new();
    assert_eq!(message(handle_request(&mut flags, &request("pause"))), "already paused");
    assert!(!flags.abort);
    handle_request(&mut flags, &request("start"));
    assert_eq!(message(handle_request(&mut flags, &request("pause"))), "paused");
    assert!(flags.paused && !flags.abort);
    let paused = flags;
    assert_eq!(message(handle_request(&mut flags, &request("pause"))), "already paused");
    assert_eq!(flags, paused);
}

#[test]
fn the_daemon_can_pause_itself() {
    let mut flags = Flags { paused: false, abort: false, shutdown: false };
    flags.pause();
    assert_eq!(flags, Flags { paused: true, abort: false, shutdown: false });
    assert_eq!(message(handle_request(&mut flags, &request("start"))), "started");
}

#[test]
fn a_start_takes_back_the_abort() {
    let mut flags = Flags { paused: true, abort: true, shutdown: false };
    handle_request(&mut flags, &request("start"));
    assert_eq!(flags, Flags { paused: false, abort: false, shutdown: false });
}

#[test]
fn status_changes_nothing() {
    let mut flags = Flags::new();
    let before = flags;
    assert!(matches!(handle_request(&mut flags, &request("status")), Reply::Status));
    let watch = Request { cmd: "status".to_string(), watch: true };
    assert!(matches!(handle_request(&mut flags, &watch), Reply::Watch));
    assert_eq!(flags, before);
}

#[test]
fn unknown_commands_are_named() {
    let mut flags = Flags::new();
    assert_eq!(
        message(handle_request(&mut flags, &request("fly"))),
        "error: unknown command: fly"
    );
    assert_eq!(message(handle_request(&mut flags, &request(""))), "error: unknown command: ");
}

#[test]
fn a_snapshot_shows_queue_and_workers() {
    let s = status();
    assert_eq!((s.users_crawled, s.users_queued), (0, 1));
    assert_eq!(s.currently_crawling.as_deref(), Some("mona"));
    assert_eq!(s.current_degree, 3);
    assert_eq!(s.workers.len(), 1);
    assert_eq!((s.api_remaining, s.api_limit, s.api_reset_at), (42, 5000, 7));
    assert_eq!(s.uptime_secs, 61);
    assert_eq!(s.pending_normal[0].login, "a");
    assert_eq!((s.pending_normal_count, s.pending_hub_count), (1, 0));
    let idle = build_status_data(&Db::new(), "follow", &vec![None], LIMIT, 0, true);
    assert!(idle.paused && idle.workers.is_empty());
    assert_eq!((idle.currently_crawling, idle.current_degree), (None, 0));
}

#[test]
fn watchers_get_event_snapshot_and_farewell() {
    let (lines, more) = watch_step(WatchInput::Event(queued("a")), status(), false);
    assert!(more);
    assert_eq!(lines.len(), 2);
    assert!(matches!(&lines[0], ServerResponse::Event { .. }));
    assert!(matches!(&lines[1], ServerResponse::Ack { payload: Some(Payload::Status(_)) }));
    let (lines, more) = watch_step(WatchInput::Timeout, status(), true);
    assert!(!more);
    assert!(matches!(&lines[1], ServerResponse::Bye));
    let (lines, more) = watch_step(WatchInput::Lagged, status(), true);
    assert!(more && lines.is_empty());
    let (lines, more) = watch_step(WatchInput::Closed, status(), false);
    assert!(!more && lines.is_empty());
}

#[test]
fn the_login_is_what_gh_prints() {
    assert_eq!(detected_login(true, "mona\n", "").unwrap(), "mona");
    assert_eq!(detected_login(true, " \n", "").unwrap_err(), "gh returned empty login");
    assert_eq!(detected_login(false, "mona", " no gh \n").unwrap_err(), "no gh");
}

fn seed_profile() -> GithubUserProfile {
    GithubUserProfile {
        login: "mona".to_string(),
        name: None,
        avatar_url: None,
        company: None,
        location: None,
        followers: 1,
        following: 2,
        public_repos: 3,
        created_at: None,
        updated_at: None,
    }
}

#[test]
fn the_seed_is_planted_once() {
    let mut db = Db::new();
    assert!(needs_seed(&db));
    note_seed(&mut db, "mona");
    assert_eq!(plant_seed(&mut db, "follow", "mona", &seed_profile()), Ok(1));
    assert!(!needs_seed(&db));
    assert!(db.has_profile(1));
    assert_eq!(db.pending_scopes("follow", 9), vec!["mona"]);
    assert_eq!(route_start(&db, None).as_deref(), Some("mona"));
    assert_eq!(route_start(&db, Some("x".to_string())).as_deref(), Some("x"));
    assert_eq!(route_start(&Db::new(), None), None);
}

#[test]
fn the_seed_is_named_or_detected() {
    let named = || Some("ada".to_string());
    assert_eq!(choose_seed(named(), Err("no gh".to_string())).unwrap(), "ada");
    assert_eq!(choose_seed(named(), Ok("mona".to_string())).unwrap(), "ada");
    assert_eq!(choose_seed(None, Ok("mona".to_string())).unwrap(), "mona");
    assert_eq!(
        choose_seed(None, Err("no gh".to_string())).unwrap_err(),
        "Could not auto-detect seed user: no gh. \
         Run with `gh6d --seed <your-login>` to specify manually."
    );
}

#[test]
fn there_is_one_daemon_at_a_time() {
    assert!(matches!(socket_step(false, false, "/s"), SocketStep::Bind));
    assert!(matches!(socket_step(true, false, "/s"), SocketStep::Replace));
    match socket_step(true, true, "/s") {
        SocketStep::Refuse(words) => assert_eq!(
            words,
            "Another gh6 crawl instance is already running (socket /s exists and is live).\n\
             Use 'gh6 stop' to stop it first, or remove the socket file manually."
        ),
        _ => panic!("not refused"),
    }
}

#[test]
fn the_seed_needs_room() {
    let mut db = Db::open(vec![Change::AddUser { id: i64::MAX, login: "z".to_string() }]).unwrap();
    assert_eq!(plant_seed(&mut db, "follow", "mona", &seed_profile()), Err(DbError::Full));
}

#[test]
fn the_answers_to_run_and_pause() {
    assert_eq!(run_line(&ack("started")).unwrap(), format!("{} started", green("▶")));
    assert_eq!(pause_line(&ack("paused")).unwrap(), format!("{} paused", yellow("⏸")));
    let other = ServerResponse::Ack { payload: Some(Payload::Other) };
    assert_eq!(run_line(&other).unwrap(), format!("{} crawl started.", green("▶")));
    assert_eq!(pause_line(&other).unwrap(), format!("{} crawl paused.", yellow("⏸")));
    let error = ServerResponse::Error { msg: "no".to_string() };
    assert_eq!(run_line(&error).unwrap_err(), format!("{} no", red("✗")));
    assert_eq!(
        pause_line(&ServerResponse::Bye).unwrap_err(),
        format!("{} unexpected server response", yellow("?"))
    );
    assert_eq!(translate_msg("already running"), "already running");
    assert_eq!(translate_msg("anything"), "anything");
    assert_eq!(NOT_RUNNING_MSG, "gh6d daemon is not running.");
}

#[test]
fn events_are_printed_in_colour() {
    let shown = print_event(&ServerResponse::Event { data: done("a") }).unwrap();
    assert_eq!(shown, format!("{} a  {}  +12 connections", cyan("[1°]"), green("done")));
    let shown = print_event(&ServerResponse::Event { data: queued("b") }).unwrap();
    assert_eq!(shown, format!("{} b  {}", dim("[2°]"), dim("queued")));
    let shown = print_event(&ServerResponse::Bye).unwrap();
    assert_eq!(shown, yellow("👋 server shutting down"));
    assert!(print_event(&status_response(status())).is_none());
    assert_eq!(tag_of(-1), "[-1°]");
}

fn left() -> String {
    format!(
        "{} {}  {} {}  {} {}  {} {}  {}  {} {}",
        dim("crawled"),
        green("0"),
        dim("queue"),
        dim("1"),
        dim("retry"),
        yellow("0"),
        dim("error"),
        red("0"),
        cyan("3°"),
        dim("crawling"),
        blue("mona")
    )
}

fn right() -> String {
    format!("{} {}  {} {}", dim("up"), dim("1m 1s"), dim("API"), red("42/5,000"))
}

#[test]
fn the_progress_line_fills_the_terminal() {
    let plain = "crawled 0  queue 1  retry 0  error 0  3°  crawling mona";
    let other = "up 1m 1s  API 42/5,000";
    let room = 100 - plain.chars().count() - other.chars().count();
    let expected = format!("{}{}{}\n", left(), " ".repeat(room), right());
    assert_eq!(progress_line(&status(), 100), expected);
    assert_eq!(progress_line(&status(), 10), format!("{} {}\n", left(), right()));
    assert_eq!(
        progress_line_with(&status(), 10, 20, 33),
        format!("{}   {}\n", left(), right())
    );
    assert_eq!(gap_of(10, 4, 4), 2);
    assert_eq!(gap_of(10, 5, 5), 1);
    assert_eq!(gap_of(10, usize::MAX, usize::MAX), 1);
}

#[test]
fn the_progress_line_of_a_paused_daemon() {
    let mut s = status();
    s.paused = true;
    assert_eq!(
        progress_line(&s, 80),
        format!("{} queue {}  waiting for 'gh6 run' …\n", yellow("⏸"), dim("1"))
    );
}

#[test]
fn a_watcher_keeps_the_progress_line_last() {
    let mut watcher = Watcher::new();
    let out = watcher.on_response(ServerResponse::Event { data: done("a") }, true, 80);
    assert!(!out.erase && out.line.is_some() && out.progress.is_none() && !out.stop);
    let out = watcher.on_response(status_response(status()), true, 80);
    assert!(!out.erase && out.line.is_none());
    assert_eq!(out.progress, Some(progress_line(&status(), 80)));
    let out = watcher.on_response(ServerResponse::Event { data: done("a") }, true, 80);
    assert!(out.erase && out.line.is_some() && out.progress.is_some());
    let out = watcher.on_response(ServerResponse::Bye, false, 80);
    assert!(!out.erase && out.stop && out.progress.is_none());
}

#[test]
fn an_export_is_confirmed() {
    assert_eq!(
        export_line(3, 4, "g.json"),
        format!("{} 3 users, 4 edges → {}", green("📦"), dim("g.json"))
    );
}
