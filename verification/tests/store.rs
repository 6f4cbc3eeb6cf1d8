//! The database: users, edges, the queue, and what is written back.
use gh6::db::{Change, Db, DbError};
use gh6::db::scopes::Scope;
use gh6::types::{Edge, GithubUserProfile, NewEdge, QueueItem, User, WEIGHT_ONE};

const NOW: &str = "2024-05-06 07:08:09";

fn profile(login: &str, following: i64, followers: i64) -> GithubUserProfile {
    GithubUserProfile {
        login: login.to_string(),
        name: Some(format!("Name of {login}")),
        avatar_url: None,
        company: None,
        location: Some("Berlin".to_string()),
        followers,
        following,
        public_repos: 7,
        created_at: Some("2011-01-25T18:44:36Z".to_string()),
        updated_at: None,
    }
}

fn follow(from: i64, to: i64, degree: i32) -> NewEdge {
    NewEdge {
        from_user_id: from,
        to_user_id: to,
        edge_type: "follows".to_string(),
        weight_bits: WEIGHT_ONE,
        degree,
        metadata: None,
    }
}

fn logins(users: &[User]) -> Vec<String> {
    users.iter().map(|u| u.login.clone()).collect()
}

/// Users named by the letters, with the ids 1, 2, and so on.
fn with_users(names: &[&str]) -> Db {
    let mut db = Db::new();
    for name in names {
        db.insert_user(name).unwrap();
    }
    db
}

fn keys(items: &[QueueItem]) -> Vec<String> {
    items.iter().map(|q| q.login.clone()).collect()
}

#[test]
fn ids_count_up_from_one() {
    let mut db = Db::new();
    assert_eq!(db.insert_user("a"), Ok(1));
    assert_eq!(db.insert_user("b"), Ok(2));
    assert_eq!(db.get_user_count(), 2);
}

#[test]
fn inserting_a_known_user_changes_nothing() {
    let mut db = with_users(&["a", "b"]);
    db.take_changes();
    assert_eq!(db.insert_user("a"), Ok(1));
    assert!(db.take_changes().is_empty());
    assert_eq!(db.get_user_count(), 2);
}

#[test]
fn a_new_user_leaves_other_ids_alone() {
    let mut db = with_users(&["a"]);
    db.insert_user("b").unwrap();
    assert_eq!(db.get_user_by_login("a").unwrap().id, 1);
}

#[test]
fn profile_comes_back() {
    let mut db = Db::new();
    assert_eq!(db.upsert_user(&profile("torvalds", 3, 200_000)), Ok(1));
    assert!(db.has_profile(1));
    let user = db.get_user_by_login("torvalds").unwrap();
    assert_eq!(user.id, 1);
    assert_eq!(user.name.as_deref(), Some("Name of torvalds"));
    assert_eq!(user.location.as_deref(), Some("Berlin"));
    assert_eq!(user.company, None);
    assert_eq!(user.followers, Some(200_000));
    assert_eq!(user.following, Some(3));
    assert_eq!(user.public_repos, Some(7));
    assert_eq!(user.created_at.as_deref(), Some("2011-01-25T18:44:36Z"));
    assert_eq!(db.get_user_by_id(1).unwrap().login, "torvalds");
}

#[test]
fn a_second_profile_replaces_the_first() {
    let mut db = Db::new();
    db.upsert_user(&profile("a", 1, 2)).unwrap();
    assert_eq!(db.upsert_user(&profile("a", 10, 20)), Ok(1));
    let user = db.get_user_by_login("a").unwrap();
    assert_eq!((user.following, user.followers), (Some(10), Some(20)));
    assert_eq!(db.get_user_count(), 1);
}

#[test]
fn a_listed_user_has_no_profile() {
    let mut db = with_users(&["a"]);
    assert!(!db.has_profile(1));
    let user = db.get_user_by_login("a").unwrap();
    assert_eq!(user.name, None);
    assert_eq!(user.followers, None);
    // Meeting the user again in a list keeps the profile that came meanwhile.
    db.upsert_user(&profile("a", 5, 6)).unwrap();
    db.insert_user("a").unwrap();
    assert_eq!(db.get_user_by_login("a").unwrap().following, Some(5));
}

#[test]
fn profiles_of_unknown_users_are_refused() {
    let mut db = Db::new();
    let error = db.upsert_profile(9, &profile("a", 1, 1)).unwrap_err();
    assert_eq!(error, DbError::NoSuchUser { id: 9 });
    assert_eq!(error.message(), "no user has the id 9");
}

#[test]
fn unknown_users_are_not_found() {
    let db = with_users(&["a"]);
    assert!(db.get_user_by_login("A").is_none());
    assert!(db.get_user_by_login("").is_none());
    assert!(db.get_user_by_id(2).is_none());
    assert!(db.get_user_by_id(-1).is_none());
    assert!(!db.has_profile(2));
}

#[test]
fn no_id_is_left_behind_the_last_one() {
    let rows = vec![Change::AddUser { id: i64::MAX, login: "last".to_string() }];
    let mut db = Db::open(rows).unwrap();
    let error = db.insert_user("one more").unwrap_err();
    assert_eq!(error, DbError::Full);
    assert_eq!(error.message(), "no id is left for a new user");
    assert_eq!(db.insert_user("last"), Ok(i64::MAX));
}

#[test]
fn edges_need_both_users() {
    let mut db = with_users(&["a", "b"]);
    assert_eq!(db.insert_edge(&follow(1, 3, 1), NOW), Err(DbError::NoSuchUser { id: 3 }));
    assert_eq!(db.insert_edge(&follow(4, 1, 1), NOW), Err(DbError::NoSuchUser { id: 4 }));
    assert_eq!(db.get_edge_count(), 0);
}

#[test]
fn an_edge_is_stored_once() {
    let mut db = with_users(&["a", "b"]);
    assert_eq!(db.insert_edge(&follow(1, 2, 1), NOW), Ok(()));
    assert_eq!(db.insert_edge(&follow(1, 2, 5), "later"), Ok(()));
    assert_eq!(db.get_edge_count(), 1);
    let edges = db.get_all_edges();
    assert_eq!(edges.len(), 1);
    assert_eq!(edges[0].degree, 1);
    assert!(edges[0].is_active);
    assert_eq!(edges[0].first_seen_at.as_deref(), Some(NOW));
    assert!(db.has_follows_edge(1, 2));
    assert!(!db.has_follows_edge(2, 1));
}

#[test]
fn a_new_edge_is_noted_in_the_history() {
    let mut db = with_users(&["a", "b"]);
    db.take_changes();
    db.insert_edge(&follow(1, 2, 1), NOW).unwrap();
    db.insert_edge(&follow(1, 2, 1), NOW).unwrap();
    let changes = db.take_changes();
    assert_eq!(changes.len(), 2);
    assert!(matches!(&changes[0], Change::AddEdge { edge } if edge.from_user_id == 1));
    assert!(matches!(&changes[1], Change::AddHistory { entry }
        if entry.action == "added" && entry.edge_type == "follows" && entry.to_user_id == 2));
}

#[test]
fn edges_by_user_are_those_at_either_end() {
    let mut db = with_users(&["a", "b", "c"]);
    db.insert_edge(&follow(1, 2, 1), NOW).unwrap();
    db.insert_edge(&follow(3, 1, 1), NOW).unwrap();
    db.insert_edge(&follow(1, 3, 1), NOW).unwrap();
    db.insert_edge(&follow(3, 2, 1), NOW).unwrap();
    let ends: Vec<(i64, i64)> =
        db.get_edges_by_user(1).iter().map(|e| (e.from_user_id, e.to_user_id)).collect();
    assert_eq!(ends, vec![(1, 2), (3, 1), (1, 3)]);
    assert!(db.get_edges_by_user(9).is_empty());
    assert_eq!(db.get_following_count(1), 2);
    assert_eq!(db.get_following_count(2), 0);
    assert_eq!(db.get_users_with_outgoing(), 2);
    assert_eq!(db.get_users_with_incoming(), 3);
    assert_eq!(db.get_users_with_outgoing_ids(), vec![1, 3]);
}

#[test]
fn removed_edges_do_not_count() {
    let mut gone = Edge {
        from_user_id: 1,
        to_user_id: 2,
        edge_type: "follows".to_string(),
        weight_bits: WEIGHT_ONE,
        degree: 1,
        metadata: None,
        is_active: false,
        first_seen_at: None,
        last_seen_at: None,
        removed_at: Some(NOW.to_string()),
    };
    let mut rows = vec![
        Change::AddUser { id: 1, login: "a".to_string() },
        Change::AddUser { id: 2, login: "b".to_string() },
        Change::AddEdge { edge: gone.clone() },
    ];
    gone.from_user_id = 2;
    gone.to_user_id = 1;
    gone.is_active = true;
    gone.removed_at = None;
    rows.push(Change::AddEdge { edge: gone });
    let db = Db::open(rows).unwrap();
    assert!(!db.has_follows_edge(1, 2));
    assert!(db.has_follows_edge(2, 1));
    assert_eq!(db.get_following_count(1), 0);
    assert_eq!(logins(&db.get_shortest_path("b", "a")), vec!["b", "a"]);
}

#[test]
fn all_users_are_listed_in_the_order_they_came() {
    let db = with_users(&["mona", "Zed", "abe"]);
    assert_eq!(logins(&db.get_all_users()), vec!["mona", "Zed", "abe"]);
}

#[test]
fn search_matches_anywhere_and_ignores_case() {
    let db = with_users(&["alice", "malik", "Bob"]);
    assert_eq!(logins(&db.search_users("ALI")), vec!["alice", "malik"]);
    assert_eq!(logins(&db.search_users("bo")), vec!["Bob"]);
    assert!(db.search_users("xyz").is_empty());
}

#[test]
fn search_puts_beginnings_first() {
    let db = with_users(&["malik", "zali", "alice", "ali"]);
    assert_eq!(logins(&db.search_users("ali")), vec!["ali", "alice", "malik", "zali"]);
}

#[test]
fn search_takes_every_character_as_it_is() {
    let db = with_users(&["ab", "a_b", "axb", "50%", "5x", "a\\b"]);
    assert_eq!(logins(&db.search_users("a_b")), vec!["a_b"]);
    assert_eq!(logins(&db.search_users("_")), vec!["a_b"]);
    assert_eq!(logins(&db.search_users("%")), vec!["50%"]);
    assert_eq!(logins(&db.search_users("5%")), Vec::<String>::new());
    assert_eq!(logins(&db.search_users("\\")), vec!["a\\b"]);
    assert_eq!(db.search_users("").len(), 6);
}

#[test]
fn search_looks_at_logins_only() {
    let mut db = Db::new();
    db.upsert_user(&profile("xx", 1, 1)).unwrap();
    assert!(db.search_users("name of").is_empty());
}

#[test]
fn search_returns_twenty_users_at_most() {
    let mut db = Db::new();
    for i in 0..30 {
        db.insert_user(&format!("user{i}")).unwrap();
    }
    assert_eq!(db.search_users("user").len(), 20);
}

#[test]
fn config_comes_back() {
    let mut db = Db::new();
    assert_eq!(db.get_config("seed"), None);
    db.set_config("seed", "torvalds");
    assert_eq!(db.get_config("seed").as_deref(), Some("torvalds"));
    db.set_config("seed", "mona");
    assert_eq!(db.get_config("seed").as_deref(), Some("mona"));
    assert_eq!(db.get_config("other"), None);
}

#[test]
fn the_queue_goes_by_priority_degree_and_failures() {
    let mut db = with_users(&["far", "near", "hub", "seed", "failed"]);
    db.insert_pending_scope("follow", "hub", 1, "low");
    db.insert_pending_scope("follow", "far", 3, "normal");
    db.insert_pending_scope("follow", "failed", 2, "normal");
    db.insert_pending_scope("follow", "near", 2, "normal");
    db.insert_pending_scope("follow", "seed", 9, "high");
    // One failure puts a scope behind its equals.
    assert_eq!(db.claim_scope("follow").unwrap().scope_key, "seed");
    assert_eq!(db.claim_scope("follow").unwrap().scope_key, "failed");
    db.reset_to_retry("failed", "timeout");
    assert_eq!(db.pending_scopes("follow", 10), vec!["near", "failed", "far", "hub"]);
    assert_eq!(db.pending_scopes("follow", 2), vec!["near", "failed"]);
}

#[test]
fn the_queue_holds_known_users_only() {
    let mut db = with_users(&["a"]);
    db.insert_pending_scope("follow", "stranger", 0, "high");
    db.insert_pending_scope("follow", "a", 1, "normal");
    db.insert_pending_scope("other", "a", 1, "normal");
    assert_eq!(db.pending_scopes("follow", 10), vec!["a"]);
}

#[test]
fn a_claimed_scope_is_not_claimed_again() {
    let mut db = with_users(&["a"]);
    db.insert_pending_scope("follow", "a", 1, "normal");
    let scope = db.claim_scope("follow").unwrap();
    assert_eq!((scope.scope_key.as_str(), scope.status.as_str()), ("a", "in_progress"));
    assert!(db.claim_scope("follow").is_none());
    assert!(db.pending_scopes("follow", 5).is_empty());
}

#[test]
fn queueing_twice_keeps_the_first() {
    let mut db = with_users(&["a"]);
    db.insert_pending_scope("follow", "a", 1, "normal");
    db.insert_pending_scope("follow", "a", 0, "high");
    let scope = db.claim_scope("follow").unwrap();
    assert_eq!((scope.degree, scope.priority.as_str()), (1, "normal"));
    db.mark_crawl_done("follow", "a", NOW);
    db.insert_pending_scope("follow", "a", 0, "high");
    assert_eq!(db.get_crawled_count("follow"), 1);
    assert_eq!(db.get_pending_count("follow"), 0);
}

#[test]
fn a_done_scope_stays_done() {
    let mut db = with_users(&["a"]);
    db.insert_pending_scope("follow", "a", 1, "normal");
    db.claim_scope("follow");
    db.mark_crawl_done("follow", "a", NOW);
    db.reset_to_retry("a", "late error");
    db.reset_in_progress_scopes();
    assert_eq!(db.get_crawled_count("follow"), 1);
    assert!(db.claim_scope("follow").is_none());
}

#[test]
fn a_failed_scope_waits_again() {
    let mut db = with_users(&["a"]);
    db.insert_pending_scope("follow", "a", 1, "normal");
    db.claim_scope("follow");
    db.reset_to_retry("a", "rate limit");
    let scope = db.claim_scope("follow").unwrap();
    assert_eq!(scope.error_count, 1);
    assert_eq!(scope.last_error.as_deref(), Some("rate limit"));
}

#[test]
fn a_restart_releases_what_was_being_crawled() {
    let mut db = with_users(&["a", "b"]);
    db.insert_pending_scope("follow", "a", 1, "normal");
    db.insert_pending_scope("follow", "b", 1, "normal");
    db.claim_scope("follow");
    db.claim_scope("follow");
    assert_eq!(db.get_pending_count("follow"), 0);
    db.reset_in_progress_scopes();
    assert_eq!(db.get_pending_count("follow"), 2);
    assert_eq!(db.get_retry_count("follow"), 0);
}

#[test]
fn priorities_and_states_are_counted() {
    let mut db = with_users(&["a", "b", "c", "d"]);
    db.insert_pending_scope("follow", "a", 1, "normal");
    db.insert_pending_scope("follow", "b", 1, "low");
    db.insert_pending_scope("follow", "c", 1, "normal");
    db.insert_pending_scope("follow", "d", 1, "normal");
    db.set_priority("follow", "a", "high");
    assert_eq!(db.claim_scope("follow").unwrap().scope_key, "a");
    db.reset_to_retry("a", "x");
    db.claim_scope("follow");
    db.mark_crawl_done("follow", "a", NOW);
    assert_eq!(db.get_crawled_count("follow"), 1);
    assert_eq!(db.get_pending_count("follow"), 3);
    assert_eq!(db.get_retry_count("follow"), 0);
    assert_eq!(db.get_error_count("follow"), 0);
    assert_eq!(db.get_pending_count_by_priority("follow", "normal"), 2);
    assert_eq!(db.get_pending_count_by_priority("follow", "low"), 1);
    assert!(db.has_crawl_state("follow", "a"));
    assert!(!db.has_crawl_state("follow", "nobody"));
    assert!(!db.has_crawl_state("other", "a"));
}

#[test]
fn scopes_in_error_are_counted() {
    let scope = Scope {
        crawler_name: "follow".to_string(),
        scope_key: "a".to_string(),
        status: "error".to_string(),
        priority: "normal".to_string(),
        degree: 1,
        error_count: 4,
        last_error: Some("gone".to_string()),
        crawled_at: None,
    };
    let db = Db::open(vec![Change::AddScope { scope }]).unwrap();
    assert_eq!(db.get_error_count("follow"), 1);
    assert_eq!(db.get_error_count("other"), 0);
}

#[test]
fn the_preview_has_three_columns() {
    let mut db = with_users(&["n1", "n2", "h1", "r1"]);
    db.insert_pending_scope("follow", "r1", 0, "high");
    db.claim_scope("follow");
    db.reset_to_retry("r1", "x");
    db.insert_pending_scope("follow", "n1", 2, "normal");
    db.insert_pending_scope("follow", "n2", 1, "normal");
    db.insert_pending_scope("follow", "h1", 1, "low");
    let (normal, hub, retry) = db.queue_preview("follow", 5);
    assert_eq!(keys(&normal), vec!["n2", "n1"]);
    assert_eq!(keys(&hub), vec!["h1"]);
    assert_eq!(keys(&retry), vec!["r1"]);
    let (normal, _, _) = db.queue_preview("follow", 1);
    assert_eq!(keys(&normal), vec!["n2"]);
}

#[test]
fn what_was_stored_is_read_back() {
    let mut db = with_users(&["a", "b"]);
    db.upsert_user(&profile("a", 1, 2)).unwrap();
    db.insert_edge(&follow(1, 2, 1), NOW).unwrap();
    db.insert_pending_scope("follow", "b", 1, "normal");
    db.claim_scope("follow");
    db.mark_crawl_done("follow", "b", NOW);
    db.set_config("seed", "a");
    let copy = Db::open(db.take_changes()).unwrap();
    assert!(copy.has_follows_edge(1, 2));
    assert_eq!(copy.get_user_by_login("a").unwrap().followers, Some(2));
    assert_eq!(copy.get_crawled_count("follow"), 1);
    assert_eq!(copy.get_config("seed").as_deref(), Some("a"));
    assert!(db.take_changes().is_empty());
}

#[test]
fn rows_that_do_not_fit_are_refused() {
    let rows = vec![
        Change::AddUser { id: 1, login: "a".to_string() },
        Change::AddUser { id: 1, login: "b".to_string() },
    ];
    let error = Db::open(rows).err().unwrap();
    assert_eq!(error, DbError::BadRow { place: 1 });
    assert_eq!(error.message(), "stored row 1 does not fit the rows before it");
    let rows = vec![Change::PutProfile { user_id: 1, profile: profile("a", 1, 1) }];
    assert_eq!(Db::open(rows).err(), Some(DbError::BadRow { place: 0 }));
}

#[test]
fn degrees_count_the_users_that_follow_there() {
    let mut db = with_users(&["a", "b", "c", "d"]);
    db.insert_edge(&follow(1, 2, 2), NOW).unwrap();
    db.insert_edge(&follow(1, 3, 1), NOW).unwrap();
    db.insert_edge(&follow(1, 4, 1), NOW).unwrap();
    db.insert_edge(&follow(3, 2, 2), NOW).unwrap();
    let dist: Vec<(i32, i64)> =
        db.degree_distribution().iter().map(|d| (d.degree, d.count)).collect();
    assert_eq!(dist, vec![(1, 1), (2, 2)]);
    assert!(Db::new().degree_distribution().is_empty());
}
