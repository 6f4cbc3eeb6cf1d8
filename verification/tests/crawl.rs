//! The crawl: persisting lists, the worker, GitHub's pages and limits.
use gh6::crawlers::{
    crawl_start, current_degree, persist, step_out, CrawlTerms, Crawler, CrawlerError, FollowCrawler,
};
use gh6::db::{Change, Db, DbError};
use gh6::github::{command_output, user_path, GhClient, GithubError, PageStep, Pages};
use gh6::server::Flags;
use gh6::types::{
    CrawlEvent, GithubUserProfile, GithubUserSummary, RateLimit, ScopeResult, WEIGHT_ONE,
};
use gh6::worker::{is_hub, keeps_resting, rate_pause, Action, Counts, Stage, Worker};
use gh6::{HUB_FOLLOWER_THRESHOLD, HUB_FOLLOWING_THRESHOLD};

const CRAWLER: &str = "follow_crawler";
const NOW: &str = "2024-05-06 07:08:09";
const RUNNING: Flags = Flags { paused: false, abort: false, shutdown: false };

fn listed(logins: &[&str]) -> Vec<GithubUserSummary> {
    logins
        .iter()
        .map(|l| GithubUserSummary { login: l.to_string(), avatar_url: None })
        .collect()
}

fn profile(login: &str, following: i64, followers: i64) -> GithubUserProfile {
    GithubUserProfile {
        login: login.to_string(),
        name: None,
        avatar_url: None,
        company: None,
        location: None,
        followers,
        following,
        public_repos: 0,
        created_at: None,
        updated_at: None,
    }
}

fn seeded() -> Db {
    let mut db = Db::new();
    db.insert_user("seed").unwrap();
    db.insert_pending_scope(CRAWLER, "seed", 0, "normal");
    db
}

/// A database without room for one more user.
fn full() -> Db {
    let rows = vec![Change::AddUser { id: i64::MAX, login: "seed".to_string() }];
    Db::open(rows).unwrap()
}

#[test]
fn the_crawler_has_a_name() {
    assert_eq!(FollowCrawler::new().name(), "follow_crawler");
    assert_eq!(FollowCrawler::default().name(), FollowCrawler::new().name());
}

#[test]
fn crawling_stores_users_edges_and_scopes() {
    let mut db = seeded();
    let result =
        FollowCrawler::crawl_following(CRAWLER, &mut db, "seed", 0, Ok(listed(&["a", "b"])), NOW)
            .unwrap();
    assert_eq!(result.newly_queued, vec!["a", "b"]);
    assert_eq!(result.following.len(), 2);
    assert_eq!(result.new_edges.len(), 2);
    let edge = &result.new_edges[1];
    assert_eq!((edge.from_user_id, edge.to_user_id, edge.degree), (1, 3, 1));
    assert_eq!((edge.edge_type.as_str(), edge.weight_bits), ("follows", WEIGHT_ONE));
    assert!(db.has_follows_edge(1, 2));
    assert_eq!(db.get_crawled_count(CRAWLER), 1);
    assert_eq!(db.pending_scopes(CRAWLER, 9), vec!["a", "b"]);
}

#[test]
fn crawling_starts_at_the_degree_of_the_user() {
    let mut db = seeded();
    let crawler = FollowCrawler::new();
    crawler.crawl("seed", &mut db, Ok(listed(&["a"])), NOW).unwrap();
    let result = crawler.crawl("a", &mut db, Ok(listed(&["b", "seed"])), NOW).unwrap();
    assert_eq!(result.new_edges[0].degree, 2);
    assert_eq!(result.newly_queued, vec!["b"]);
    assert_eq!(current_degree(&db, "b"), 2);
    // The edge back to the seed is the only one that reaches it.
    assert_eq!(current_degree(&db, "seed"), 2);
    assert_eq!(current_degree(&db, "nobody"), 0);
}

#[test]
fn the_degree_is_that_of_the_nearest_edge() {
    let mut db = seeded();
    FollowCrawler::crawl_following(CRAWLER, &mut db, "seed", 4, Ok(listed(&["a", "b"])), NOW).unwrap();
    FollowCrawler::crawl_following(CRAWLER, &mut db, "a", 1, Ok(listed(&["b"])), NOW).unwrap();
    assert_eq!(current_degree(&db, "b"), 2);
}

#[test]
fn degrees_do_not_overflow() {
    assert_eq!(step_out(0), 1);
    assert_eq!(step_out(i32::MAX), i32::MAX);
}

#[test]
fn crawling_an_unknown_user_fails() {
    let mut db = Db::new();
    let error = FollowCrawler::new().crawl("nobody", &mut db, Ok(vec![]), NOW).err().unwrap();
    assert!(matches!(&error, CrawlerError::UserNotFound(l) if l == "nobody"));
    assert_eq!(error.message(), "user not found: nobody");
}

#[test]
fn an_unknown_user_is_refused_before_anything_is_fetched() {
    let db = seeded();
    assert_eq!(crawl_start(&db, "seed").unwrap(), 1);
    let error = crawl_start(&db, "nobody").unwrap_err();
    assert!(matches!(&error, CrawlerError::UserNotFound(l) if l == "nobody"));
    let mut db = Db::new();
    let error = FollowCrawler::new()
        .crawl("nobody", &mut db, Err(GithubError::NoToken), NOW)
        .err()
        .unwrap();
    assert!(matches!(error, CrawlerError::UserNotFound(_)));
}

#[test]
fn a_failed_request_stores_nothing() {
    let mut db = seeded();
    db.take_changes();
    let error = FollowCrawler::new()
        .crawl("seed", &mut db, Err(GithubError::Command("no".to_string())), NOW)
        .err()
        .unwrap();
    assert!(matches!(&error, CrawlerError::Github(GithubError::Command(c)) if c == "no"));
    assert!(db.take_changes().is_empty());
}

#[test]
fn only_edges_that_reach_a_user_count_for_the_degree() {
    let mut db = seeded();
    let terms = CrawlTerms {
        crawler_name: CRAWLER,
        scope: "seed",
        degree: 1,
        priority: "normal",
        now: NOW,
    };
    persist(&mut db, &terms, &ScopeResult { following: vec![], followers: listed(&["fan"]) });
    assert_eq!(current_degree(&db, "fan"), 0);
    assert_eq!(current_degree(&db, "seed"), 1);
}

#[test]
fn crawling_stops_where_there_is_no_room() {
    let mut db = full();
    let error = FollowCrawler::new().crawl("seed", &mut db, Ok(listed(&["a"])), NOW).err().unwrap();
    assert!(matches!(&error, CrawlerError::Db(DbError::Full)));
    assert_eq!(error.message(), "database error: no id is left for a new user");
}

#[test]
fn failures_of_github_are_named() {
    let error = CrawlerError::Github(GithubError::NoToken);
    assert_eq!(error.message(), "github api error: no GitHub token found; run `gh auth login`");
}

#[test]
fn both_lists_are_persisted() {
    let mut db = seeded();
    let terms = CrawlTerms {
        crawler_name: CRAWLER,
        scope: "seed",
        degree: 1,
        priority: "low",
        now: NOW,
    };
    let lists = ScopeResult { following: listed(&["a", "b"]), followers: listed(&["b", "c"]) };
    let left = persist(&mut db, &terms, &lists);
    assert_eq!(left.connections, 4);
    assert_eq!(left.newly_queued, vec!["a", "b", "c"]);
    assert!(!left.broken);
    let id = |login: &str| db.get_user_by_login(login).unwrap().id;
    assert!(db.has_follows_edge(1, id("a")));
    assert!(db.has_follows_edge(1, id("b")));
    assert!(db.has_follows_edge(id("b"), 1));
    assert!(db.has_follows_edge(id("c"), 1));
    assert!(!db.has_follows_edge(1, id("c")));
    assert_eq!(db.get_pending_count_by_priority(CRAWLER, "low"), 3);
    assert_eq!(db.get_crawled_count(CRAWLER), 1);
}

#[test]
fn crawling_only_adds() {
    let mut db = seeded();
    let crawler = FollowCrawler::new();
    crawler.crawl("seed", &mut db, Ok(listed(&["a", "b"])), NOW).unwrap();
    crawler.crawl("seed", &mut db, Ok(listed(&["c"])), NOW).unwrap();
    let (a, b) = (2, 3);
    assert!(db.has_follows_edge(1, a) && db.has_follows_edge(1, b));
    assert_eq!(db.get_user_count(), 4);
}

#[test]
fn hubs_have_many_links_in_either_direction() {
    assert!(!is_hub(Counts { following: 4999, followers: 4999 }));
    assert!(is_hub(Counts { following: HUB_FOLLOWING_THRESHOLD, followers: 0 }));
    assert!(is_hub(Counts { following: 0, followers: HUB_FOLLOWER_THRESHOLD }));
}

#[test]
fn a_paused_worker_leaves_the_queue_alone() {
    let mut db = seeded();
    db.take_changes();
    let mut worker = Worker::new();
    let paused = Flags { paused: true, ..RUNNING };
    assert!(matches!(worker.tick(&mut db, CRAWLER, paused), Action::Sleep(500)));
    let ended = Flags { shutdown: true, ..RUNNING };
    assert!(matches!(worker.tick(&mut db, CRAWLER, ended), Action::Exit));
    assert!(db.take_changes().is_empty());
    assert!(worker.current().is_none());
}

#[test]
fn a_crawl_without_work_pauses() {
    let mut db = Db::new();
    let mut worker = Worker::new();
    assert!(matches!(worker.tick(&mut db, CRAWLER, RUNNING), Action::Pause));
    let mut db = seeded();
    db.mark_crawl_done(CRAWLER, "seed", NOW);
    assert!(matches!(worker.tick(&mut db, CRAWLER, RUNNING), Action::Pause));
}

#[test]
fn a_worker_waits_for_what_others_crawl() {
    let mut db = seeded();
    let mut busy = Worker::new();
    let mut free = Worker::new();
    busy.tick(&mut db, CRAWLER, RUNNING);
    assert_eq!(db.get_in_progress_count(CRAWLER), 1);
    assert!(matches!(free.tick(&mut db, CRAWLER, RUNNING), Action::Sleep(500)));
    busy.got_profile(&mut db, CRAWLER, Ok(profile("seed", 1, 1)));
    assert!(matches!(free.tick(&mut db, CRAWLER, RUNNING), Action::Sleep(500)));
    let lists = ScopeResult { following: vec![], followers: vec![] };
    busy.got_lists(&mut db, CRAWLER, Ok(lists), NOW);
    assert_eq!(db.get_in_progress_count(CRAWLER), 0);
    assert!(matches!(free.tick(&mut db, CRAWLER, RUNNING), Action::Pause));
}

#[test]
fn a_worker_fetches_profile_then_lists() {
    let mut db = seeded();
    let mut worker = Worker::new();
    let action = worker.tick(&mut db, CRAWLER, RUNNING);
    assert!(matches!(action, Action::FetchProfile(l) if l == "seed"));
    let action = worker.got_profile(&mut db, CRAWLER, Ok(profile("seed", 2, 1)));
    assert!(matches!(action, Action::Crawl(scope) if scope.key == "seed" && scope.degree == 0));
    assert_eq!(worker.current().unwrap().login, "seed");
    assert!(db.has_profile(1));
    let lists = ScopeResult { following: listed(&["a", "b"]), followers: listed(&["a"]) };
    let action = worker.got_lists(&mut db, CRAWLER, Ok(lists), NOW);
    let events = match action {
        Action::Finished(events) => events,
        _ => panic!("not finished"),
    };
    assert_eq!(events.len(), 3);
    assert!(matches!(&events[0], CrawlEvent::UserDone {
        login, degree: 0, new_connections: 3, following_count: 2, followers_count: 1,
    } if login == "seed"));
    assert!(matches!(&events[1], CrawlEvent::UserQueued { login, degree: 1, parent_login }
        if login == "a" && parent_login == "seed"));
    assert!(matches!(&events[2], CrawlEvent::UserQueued { login, .. } if login == "b"));
    assert!(matches!(worker.stage, Stage::Ready));
    assert_eq!(db.get_crawled_count(CRAWLER), 1);
    assert_eq!(db.get_pending_count_by_priority(CRAWLER, "normal"), 2);
}

#[test]
fn a_known_profile_is_not_fetched_again() {
    let mut db = seeded();
    db.upsert_user(&profile("seed", 1, 1)).unwrap();
    let mut worker = Worker::new();
    assert!(matches!(worker.tick(&mut db, CRAWLER, RUNNING), Action::Crawl(_)));
}

#[test]
fn a_hub_is_put_off_once_and_passes_low_priority_on() {
    let mut db = seeded();
    db.insert_user("small").unwrap();
    db.insert_pending_scope(CRAWLER, "small", 5, "normal");
    db.upsert_user(&profile("small", 1, 1)).unwrap();
    let mut worker = Worker::new();
    assert!(matches!(worker.tick(&mut db, CRAWLER, RUNNING), Action::FetchProfile(_)));
    let action = worker.got_profile(&mut db, CRAWLER, Ok(profile("seed", 9000, 1)));
    assert!(matches!(action, Action::Again));
    assert_eq!(db.pending_scopes(CRAWLER, 9), vec!["small", "seed"]);
    assert!(matches!(worker.tick(&mut db, CRAWLER, RUNNING), Action::Crawl(s) if s.key == "small"));
    let none = ScopeResult { following: vec![], followers: vec![] };
    worker.got_lists(&mut db, CRAWLER, Ok(none), NOW);
    assert!(matches!(worker.tick(&mut db, CRAWLER, RUNNING), Action::Crawl(s) if s.key == "seed"));
    let lists = ScopeResult { following: listed(&["x"]), followers: vec![] };
    worker.got_lists(&mut db, CRAWLER, Ok(lists), NOW);
    assert_eq!(db.get_pending_count_by_priority(CRAWLER, "low"), 1);
    assert_eq!(db.get_pending_count_by_priority(CRAWLER, "normal"), 0);
}

#[test]
fn a_failure_puts_the_scope_back() {
    let mut db = seeded();
    let mut worker = Worker::new();
    worker.tick(&mut db, CRAWLER, RUNNING);
    let action = worker.got_profile(&mut db, CRAWLER, Err("404".to_string()));
    assert!(matches!(action, Action::Again));
    assert_eq!(db.get_retry_count(CRAWLER), 1);
    worker.tick(&mut db, CRAWLER, RUNNING);
    worker.got_profile(&mut db, CRAWLER, Ok(profile("seed", 1, 1)));
    let action = worker.got_lists(&mut db, CRAWLER, Err("aborted".to_string()), NOW);
    assert!(matches!(action, Action::Finished(events) if events.is_empty()));
    let scope = db.claim_scope(CRAWLER).unwrap();
    assert_eq!((scope.error_count, scope.last_error.as_deref()), (2, Some("aborted")));
}

#[test]
fn the_crawl_rests_when_requests_run_out() {
    let limit = |remaining, reset_at| RateLimit { limit: 5000, remaining, reset_at };
    assert_eq!(rate_pause(limit(5, 900), 100), None);
    assert_eq!(rate_pause(limit(4, 900), 100), Some(800));
    assert_eq!(rate_pause(limit(0, 100), 100), Some(60));
    assert_eq!(rate_pause(limit(0, i64::MAX), i64::MIN), Some(u64::MAX));
    assert!(keeps_resting(RUNNING));
    assert!(!keeps_resting(Flags { paused: true, ..RUNNING }));
    assert!(!keeps_resting(Flags { shutdown: true, ..RUNNING }));
}

#[test]
fn lists_are_read_page_by_page() {
    let mut pages = Pages::following("mona");
    assert!(matches!(pages.next(false), PageStep::Fetch(p)
        if p == "/users/mona/following?page=1&per_page=100"));
    pages.add_page(listed(&["a", "b"]));
    assert_eq!(pages.page(), 2);
    assert!(matches!(pages.next(false), PageStep::Fetch(p)
        if p == "/users/mona/following?page=2&per_page=100"));
    assert!(matches!(pages.next(true), PageStep::Aborted));
    pages.add_page(listed(&["c"]));
    pages.add_page(vec![]);
    assert!(matches!(pages.next(true), PageStep::Finished));
    let logins: Vec<String> = pages.into_users().into_iter().map(|u| u.login).collect();
    assert_eq!(logins, vec!["a", "b", "c"]);
}

#[test]
fn followers_have_pages_of_their_own() {
    assert!(matches!(Pages::followers("mona").next(false), PageStep::Fetch(p)
        if p == "/users/mona/followers?page=1&per_page=100"));
    assert_eq!(user_path("mona"), "/users/mona");
}

#[test]
fn a_client_needs_somebody_logged_in() {
    assert!(matches!(GhClient::new(false), Err(GithubError::NoToken)));
    let mut client = GhClient::new(true).unwrap();
    assert_eq!(client.rate_limit().remaining, 5000);
    client.refresh_rate_limit(Some(RateLimit { limit: 60, remaining: 7, reset_at: 99 }));
    client.refresh_rate_limit(None);
    let limit = client.rate_limit();
    assert_eq!((limit.limit, limit.remaining, limit.reset_at), (60, 7, 99));
}

#[test]
fn a_failed_command_tells_what_was_run() {
    let args = vec!["/users/x".to_string(), "-q".to_string()];
    assert_eq!(command_output(&args, true, "out".to_string(), "").unwrap(), "out");
    let error = command_output(&args, false, String::new(), " HTTP 404\n").unwrap_err();
    assert_eq!(error.message(), "gh command failed: gh api /users/x -q: HTTP 404");
    assert_eq!(GithubError::Json("bad".to_string()).message(), "JSON parse error: bad");
}
