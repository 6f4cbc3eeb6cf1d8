//! Paths, components, and what is common to two users.
use gh6::analyze::{
    cmd_all_paths, cmd_common, cmd_degree_dist, cmd_export, cmd_fuzzy_path, cmd_path, cmd_route,
    cmd_stats, cmd_user, AnalyzeError,
};
use gh6::db::stats::apply_limit;
use gh6::db::Db;
use gh6::find::{is_beginning, is_part};
use gh6::graph::{all_paths, component_sizes, dfs_all_paths, shortest_path, Adjacency};
use gh6::types::{GithubUserProfile, NewEdge, User, WEIGHT_ONE};
use std::collections::HashSet;

fn chars(s: &str) -> Vec<String> {
    s.chars().map(|c| c.to_string()).collect()
}

/// A database with the users `a` to `z` and an edge for each pair of letters.
fn graph(pairs: &[&str]) -> Db {
    let mut db = Db::new();
    for c in 'a'..='z' {
        db.insert_user(&c.to_string()).unwrap();
    }
    for pair in pairs {
        let ends = chars(pair);
        let from = db.get_user_by_login(&ends[0]).unwrap().id;
        let to = db.get_user_by_login(&ends[1]).unwrap().id;
        let edge = NewEdge {
            from_user_id: from,
            to_user_id: to,
            edge_type: "follows".to_string(),
            weight_bits: WEIGHT_ONE,
            degree: 1,
            metadata: None,
        };
        db.insert_edge(&edge, "now").unwrap();
    }
    db
}

fn word(path: &[User]) -> String {
    path.iter().map(|u| u.login.as_str()).collect()
}

fn words(paths: &[Vec<User>]) -> Vec<String> {
    paths.iter().map(|p| word(p)).collect()
}

#[test]
fn shortest_path_takes_the_fewest_steps() {
    let db = graph(&["ab", "bc", "cd", "ae", "ed"]);
    assert_eq!(word(&db.get_shortest_path("a", "d")), "aed");
    assert_eq!(word(&cmd_path(&db, "a", "d").unwrap()), "aed");
}

#[test]
fn paths_take_edges_in_both_directions() {
    let db = graph(&["ab", "cb"]);
    assert_eq!(word(&db.get_shortest_path("a", "c")), "abc");
    assert_eq!(word(&db.get_shortest_path("c", "a")), "cba");
    assert!(db.get_shortest_path("a", "z").is_empty());
    assert!(cmd_path(&db, "a", "z").is_none());
}

#[test]
fn the_way_to_oneself_is_one_user() {
    let db = graph(&["ab", "ba"]);
    assert_eq!(word(&db.get_shortest_path("a", "a")), "a");
}

#[test]
fn unknown_ends_have_no_path() {
    let db = graph(&["ab"]);
    assert!(db.get_shortest_path("a", "nobody").is_empty());
    assert!(db.get_shortest_path("nobody", "a").is_empty());
    assert!(cmd_path(&db, "nobody", "nobody").is_none());
}

#[test]
fn shortest_path_on_plain_ids() {
    let pairs = vec![(1, 2), (2, 3), (1, 4), (4, 5), (5, 3)];
    assert_eq!(shortest_path(&pairs, 1, 3), vec![1, 2, 3]);
    assert_eq!(shortest_path(&pairs, 3, 1), vec![3, 2, 1]);
    assert_eq!(shortest_path(&pairs, 1, 9), Vec::<i64>::new());
    assert_eq!(shortest_path(&pairs, 9, 9), vec![9]);
}

#[test]
fn all_paths_are_found_depth_first() {
    let db = graph(&["ab", "bd", "ac", "cd", "ad"]);
    let mut found = words(&db.get_all_paths("a", "d", 50));
    found.sort();
    assert_eq!(found, vec!["abd", "acd", "ad"]);
    assert_eq!(db.get_all_paths("a", "d", 2).len(), 2);
    assert!(db.get_all_paths("a", "z", 50).is_empty());
    assert_eq!(words(&db.get_all_paths("a", "a", 50)), vec!["a"]);
}

#[test]
fn paths_do_not_turn_in_circles() {
    let db = graph(&["ab", "bc", "ca", "cd"]);
    assert_eq!(words(&db.get_all_paths("a", "d", 50)), vec!["abcd", "acd"]);
}

#[test]
fn paths_have_six_users_at_most() {
    let db = graph(&["ab", "bc", "cd", "de", "ef", "fg"]);
    assert_eq!(words(&db.get_all_paths("a", "f", 50)), vec!["abcdef"]);
    assert!(db.get_all_paths("a", "g", 50).is_empty());
    assert_eq!(word(&db.get_shortest_path("a", "g")), "abcdefg");
}

#[test]
fn listed_paths_are_not_shorter_than_the_shortest() {
    let db = graph(&["ab", "bc", "cd", "ac", "bd", "ad"]);
    let shortest = db.get_shortest_path("a", "d").len();
    assert_eq!(shortest, 2);
    assert!(db.get_all_paths("a", "d", 50).iter().all(|p| p.len() >= shortest));
}

#[test]
fn all_paths_on_plain_ids() {
    let pairs = vec![(1, 2), (2, 3), (1, 3)];
    assert_eq!(all_paths(&pairs, 50, 1, 3, 6, 10), vec![vec![1, 2, 3], vec![1, 3]]);
    assert_eq!(all_paths(&pairs, 50, 1, 3, 6, 1), vec![vec![1, 2, 3]]);
    assert_eq!(all_paths(&pairs, 1, 1, 3, 6, 10), Vec::<Vec<i64>>::new());
    assert_eq!(all_paths(&pairs, 50, 1, 3, 2, 10), vec![vec![1, 3]]);
}

#[test]
fn fifty_paths_are_the_most() {
    let mut pairs = Vec::new();
    for middle in 'c'..='z' {
        pairs.push(format!("a{middle}"));
        pairs.push(format!("{middle}b"));
        for next in 'c'..='z' {
            if middle != next {
                pairs.push(format!("{middle}{next}"));
            }
        }
    }
    let pairs: Vec<&str> = pairs.iter().map(|p| p.as_str()).collect();
    let db = graph(&pairs);
    assert!(cmd_all_paths(&db, "a", "b", 0).is_empty());
    assert_eq!(cmd_all_paths(&db, "a", "b", 1000).len(), 50);
    assert_eq!(cmd_all_paths(&db, "a", "b", 3).len(), 3);
    assert_eq!(cmd_route(&db, "a", "b", 0, false).total, 50);
}

#[test]
fn components_are_counted_without_direction() {
    let db = graph(&["ab", "cb", "de"]);
    // {a, b, c}, {d, e}, and the other letters on their own.
    assert_eq!(db.connected_components_info(), (23, 3, 26));
    assert_eq!(Db::new().connected_components_info(), (0, 0, 0));
}

#[test]
fn component_sizes_on_plain_ids() {
    let sizes = component_sizes(&vec![(1, 2), (3, 2)], &vec![1, 2, 3, 4]);
    assert_eq!(sizes, vec![3, 1]);
    assert_eq!(component_sizes(&vec![(1, 2), (3, 2)], &vec![4, 3, 1, 2]), vec![1, 3]);
    assert_eq!(component_sizes(&vec![], &vec![7, 8]), vec![1, 1]);
}

#[test]
fn common_users_are_listed_by_login() {
    let db = graph(&["ac", "ab", "bc", "az", "bz", "ca", "cb", "da"]);
    let common = cmd_common(&db, "a", "b", 0).unwrap();
    assert_eq!((common.user1.as_str(), common.user2.as_str()), ("a", "b"));
    assert_eq!(common.common_following, vec!["c", "z"]);
    assert_eq!(common.common_followers, vec!["c"]);
    let common = cmd_common(&db, "a", "b", 1).unwrap();
    assert_eq!(common.common_following, vec!["c"]);
}

#[test]
fn common_is_the_same_both_ways() {
    let db = graph(&["ac", "bc", "ca", "cb"]);
    let one = cmd_common(&db, "a", "b", 0).unwrap();
    let two = cmd_common(&db, "b", "a", 0).unwrap();
    assert_eq!(one.common_following, two.common_following);
    assert_eq!(one.common_followers, two.common_followers);
}

#[test]
fn common_with_oneself_is_everybody() {
    let db = graph(&["ac", "ab", "da"]);
    let common = cmd_common(&db, "a", "a", 0).unwrap();
    assert_eq!(common.common_following, vec!["b", "c"]);
    assert_eq!(common.common_followers, vec!["d"]);
}

#[test]
fn common_needs_known_users() {
    let db = graph(&[]);
    let error = cmd_common(&db, "a", "nobody", 0).err().unwrap();
    assert_eq!(error.message(), "user not found: nobody");
    let AnalyzeError::UserNotFound(login) = cmd_common(&db, "who", "a", 0).err().unwrap();
    assert_eq!(login, "who");
}

#[test]
fn a_limit_of_zero_keeps_everything() {
    let all = vec!["x".to_string(), "y".to_string(), "z".to_string()];
    assert_eq!(apply_limit(all.clone(), 0), all);
    assert_eq!(apply_limit(all.clone(), 2), vec!["x", "y"]);
    assert_eq!(apply_limit(all.clone(), 9), all);
}

#[test]
fn a_user_is_shown_with_the_social_lists() {
    let mut db = graph(&["ab", "ac", "ba", "da"]);
    db.upsert_user(&GithubUserProfile {
        login: "a".to_string(),
        name: Some("Ada".to_string()),
        avatar_url: None,
        company: Some("Engine".to_string()),
        location: None,
        followers: 12,
        following: 34,
        public_repos: 5,
        created_at: Some("1815-12-10T00:00:00Z".to_string()),
        updated_at: None,
    })
    .unwrap();
    let user = cmd_user(&db, "a").unwrap();
    assert_eq!(user.name.as_deref(), Some("Ada"));
    assert_eq!(user.company.as_deref(), Some("Engine"));
    assert_eq!(user.followers_count, Some(12));
    assert_eq!(user.following_count, Some(34));
    assert_eq!(user.public_repos, Some(5));
    assert_eq!(user.following, vec!["b", "c"]);
    assert_eq!(user.followers, vec!["b", "d"]);
    assert_eq!(user.mutual, vec!["b"]);
    assert_eq!((user.crawled_following, user.crawled_followers), (2, 2));
    assert!(matches!(cmd_user(&db, "nobody"), Err(AnalyzeError::UserNotFound(l)) if l == "nobody"));
}

#[test]
fn stats_count_the_database() {
    let mut db = graph(&["ab", "bc"]);
    db.insert_pending_scope("follow", "a", 0, "high");
    db.insert_pending_scope("follow", "b", 1, "normal");
    db.claim_scope("follow");
    db.mark_crawl_done("follow", "a", "now");
    let stats = cmd_stats(&db, "follow", 4096);
    assert_eq!(stats.total_users, 26);
    assert_eq!((stats.crawled, stats.pending), (1, 1));
    assert_eq!(stats.total_edges, 2);
    assert_eq!(stats.file_size_bytes, 4096);
    assert_eq!((stats.connected_components, stats.largest_component), (24, 3));
    assert_eq!((stats.users_with_outgoing, stats.users_with_incoming), (2, 2));
    assert_eq!((stats.min_degree, stats.max_degree), (1, 1));
    assert_eq!(stats.degree_dist.len(), 1);
    assert_eq!(cmd_degree_dist(&db)[0].count, 2);
}

#[test]
fn the_export_names_users_and_edges() {
    let db = graph(&["ab", "ba"]);
    let (graph, users, edges) = cmd_export(&db);
    assert_eq!((users, edges), (26, 2));
    assert_eq!(graph.users.len(), 26);
    assert_eq!(graph.users[0].login, "a");
    assert_eq!(graph.edges.len(), 2);
    assert_eq!((graph.edges[0].from.as_str(), graph.edges[0].to.as_str()), ("a", "b"));
    assert_eq!(graph.edges[1].edge_type, "follows");
}

#[test]
fn a_fuzzy_path_goes_to_every_match() {
    let mut db = graph(&["ab"]);
    let b = db.get_user_by_login("b").unwrap().id;
    let id = db.insert_user("needle1").unwrap();
    let edge = NewEdge {
        from_user_id: b,
        to_user_id: id,
        edge_type: "follows".to_string(),
        weight_bits: WEIGHT_ONE,
        degree: 2,
        metadata: None,
    };
    db.insert_edge(&edge, "now").unwrap();
    db.insert_user("needle2").unwrap();
    let found = cmd_fuzzy_path(&db, "a", "needle");
    assert_eq!(found.len(), 1);
    assert_eq!(word(&found[0].1), "abneedle1");
    assert_eq!(found[0].0.login, "needle1");
}

#[test]
fn a_route_shows_as_many_paths_as_asked_for() {
    let db = graph(&["ab", "bd", "ac", "cd", "ad", "ba"]);
    let one = cmd_route(&db, "a", "d", 1, false);
    assert_eq!((one.from.as_str(), one.query.as_str(), one.is_fuzzy), ("a", "d", false));
    assert_eq!(one.paths.len(), 1);
    assert_eq!(word(&one.paths[0].path), "ad");
    let edges: Vec<String> =
        one.paths[0].directed_edges.iter().map(|e| format!("{}{}", e.from, e.to)).collect();
    assert_eq!(edges, vec!["ad"]);
    let both = cmd_route(&db, "a", "b", 1, false);
    let edges: Vec<String> =
        both.paths[0].directed_edges.iter().map(|e| format!("{}{}", e.from, e.to)).collect();
    assert_eq!(edges, vec!["ab", "ba"]);
    let all = cmd_route(&db, "a", "d", 0, false);
    assert_eq!(all.total, all.paths.len());
    let none = cmd_route(&db, "a", "nobody", 0, false);
    assert_eq!((none.total, none.paths.len()), (0, 0));
}

#[test]
fn queries_are_parts_of_texts() {
    for (query, login) in [
        ("ona", "mona"),
        ("MO", "mona"),
        ("", "x"),
        ("", ""),
        ("nao", "mona"),
        ("_", "mona"),
        ("a_b", "a_b"),
        ("%", "50%"),
        ("\\", "a"),
    ] {
        let found = login.to_lowercase().contains(&query.to_lowercase());
        assert_eq!(is_part(query, login), found);
        let begins = login.to_lowercase().starts_with(&query.to_lowercase());
        assert_eq!(is_beginning(query, login), begins);
    }
    assert!(!is_part("é", "É"));
}

#[test]
fn a_mutual_follow_is_one_connection() {
    let db = graph(&["ab", "ba", "bc", "cb"]);
    assert_eq!(words(&db.get_all_paths("a", "c", 50)), vec!["abc"]);
    assert_eq!(words(&cmd_all_paths(&db, "a", "b", 50)), vec!["ab"]);
    let route = cmd_route(&db, "a", "c", 0, false);
    assert_eq!((route.total, route.paths.len()), (1, 1));
    let pairs = vec![(1, 2), (2, 1), (2, 3), (2, 3)];
    assert_eq!(all_paths(&pairs, 50, 1, 3, 6, 10), vec![vec![1, 2, 3]]);
}

#[test]
fn the_search_prolongs_a_path() {
    let mut adj = Adjacency::new();
    adj.put(1, vec![2, 3]);
    adj.put(2, vec![4]);
    adj.put(3, vec![5, 4]);
    adj.put(5, vec![4]);
    let mut path = vec![1];
    let mut visited: HashSet<i64> = [1].into_iter().collect();
    let mut found = vec![vec![9]];
    dfs_all_paths(&adj, 1, 4, 3, 10, &mut path, &mut visited, &mut found);
    assert_eq!(found, vec![vec![9], vec![1, 2, 4], vec![1, 3, 4]]);
    assert_eq!(path, vec![1]);
    assert_eq!(visited.len(), 1);
    dfs_all_paths(&adj, 1, 4, 4, 4, &mut path, &mut visited, &mut found);
    assert_eq!(found.len(), 4);
    assert_eq!(found[3], vec![1, 2, 4]);
    visited.insert(2);
    found.clear();
    dfs_all_paths(&adj, 1, 4, 4, 10, &mut path, &mut visited, &mut found);
    assert_eq!(found, vec![vec![1, 3, 5, 4], vec![1, 3, 4]]);
}

#[test]
fn components_share_no_user() {
    let ids: Vec<i64> = (1..=10).collect();
    let sizes = component_sizes(&vec![(1, 2), (2, 3), (4, 5), (5, 4)], &ids);
    assert_eq!(sizes.iter().sum::<usize>(), 10);
    assert_eq!(sizes.len(), 7);
}
