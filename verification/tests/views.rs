//! What the commands print.
use gh6::analyze::{
    CommonResult, DirectedEdge, PathInfo, RouteResult, StatsResult, UserProfileResult,
};
use gh6::display::{
    bar, blue, bold, card, cyan, density_color, dim, directed_edge, green, header, impact_color,
    modularity_color, nested_tree, path_chain, section, styled_grid, target, tree_block, weight_bar,
    yellow, TreeGroup, TreeItem,
};
use gh6::types::{CrawlingWorker, DegreeDist, StatusData, User};
use gh6::views::{
    Bridge, BridgesResult, CommunitiesResult, Community, StatsTexts, SuggestResult, Suggestion,
    UserView,
};

fn strings(items: &[&str]) -> Vec<String> {
    items.iter().map(|s| s.to_string()).collect()
}

fn user(login: &str) -> User {
    User {
        id: 1,
        login: login.to_string(),
        name: None,
        avatar_url: None,
        company: None,
        location: None,
        followers: None,
        following: None,
        public_repos: None,
        created_at: None,
        updated_at: None,
    }
}

fn info(logins: &[&str], edges: &[(&str, &str)]) -> PathInfo {
    PathInfo {
        path: logins.iter().map(|l| user(l)).collect(),
        directed_edges: edges
            .iter()
            .map(|(f, t)| DirectedEdge { from: f.to_string(), to: t.to_string() })
            .collect(),
    }
}

fn route(fuzzy: bool, total: usize, paths: Vec<PathInfo>) -> RouteResult {
    RouteResult {
        from: "a".to_string(),
        query: "c".to_string(),
        is_fuzzy: fuzzy,
        total,
        paths,
    }
}

#[test]
fn a_route_without_paths() {
    assert_eq!(
        route(false, 0, vec![]).render(),
        format!("🗺️ 未找到「{}」到「{}」的路径", dim("a"), dim("c"))
    );
    assert_eq!(
        route(true, 0, vec![]).render(),
        format!("🔍 未找到匹配「{}」的用户", dim("c"))
    );
}

#[test]
fn a_route_with_one_long_path() {
    let shown = route(false, 1, vec![info(&["a", "b", "c"], &[("a", "b"), ("c", "b")])]).render();
    let title = format!("🗺️ {} 到 {}", bold("a"), target("c"));
    let head = format!("{}  {}", path_chain(&["a", "b", "c"]), dim("2 步"));
    let body = vec![directed_edge("a", "b"), directed_edge("c", "b")];
    assert_eq!(shown, format!("{title}\n\n{}", card(&head, &body)));
}

#[test]
fn a_route_with_one_short_path() {
    let shown = route(false, 1, vec![info(&["a", "c"], &[("a", "c")])]).render();
    let title = format!("{} 到 {}", bold("a"), target("c"));
    let meta = format!("{}  {}", path_chain(&["a", "c"]), dim("1 步"));
    assert_eq!(shown, header("🗺️", &title, &meta));
}

#[test]
fn a_route_with_several_paths() {
    let paths = || vec![info(&["a", "c"], &[("a", "c")]), info(&["a", "b", "c"], &[("a", "b")])];
    let title = format!("{} 到 {}", bold("a"), target("c"));
    let one = card(
        &format!("{}  {}", path_chain(&["a", "c"]), dim("1 步")),
        &[directed_edge("a", "c")],
    );
    let two = card(
        &format!("{}  {}", path_chain(&["a", "b", "c"]), dim("2 步")),
        &[directed_edge("a", "b")],
    );
    assert_eq!(
        route(false, 2, paths()).render(),
        format!("{}\n\n{one}\n\n{two}", header("🗺️", &title, "共 2 条路径"))
    );
    assert_eq!(
        route(false, 9, paths()).render(),
        format!("{}\n\n{one}\n\n{two}", header("🗺️", &title, "共 9 条路径，显示前 2 条"))
    );
}

#[test]
fn a_fuzzy_route_has_a_card_per_user() {
    let shown = route(
        true,
        2,
        vec![info(&["a", "c1"], &[("a", "c1")]), info(&["a", "b", "c2"], &[("a", "b"), ("b", "c2")])],
    )
    .render();
    let title = format!("「{}」找到 2 个模糊匹配", dim("c"));
    let one = format!(
        "  {}\n  └ {}  {}\n      └ {}",
        blue("c1"),
        path_chain(&["a", "c1"]),
        dim("1 步"),
        directed_edge("a", "c1")
    );
    let two = format!(
        "  {}\n  └ {}  {}\n      ├ {}\n      └ {}",
        blue("c2"),
        path_chain(&["a", "b", "c2"]),
        dim("2 步"),
        directed_edge("a", "b"),
        directed_edge("b", "c2")
    );
    assert_eq!(shown, format!("{}\n\n{one}\n\n{two}", header("🔍", &title, "")));
}

#[test]
fn common_users_in_two_lists() {
    let shown = CommonResult {
        user1: "a".to_string(),
        user2: "b".to_string(),
        common_following: strings(&["x", "y"]),
        common_followers: vec![],
    }
    .render();
    assert_eq!(
        shown,
        format!(
            "👥 {} 和 {}\n\n  {} 2 人\n  ├ x\n  └ y\n\n  {} 0 人\n  └ {}",
            blue("a"),
            blue("b"),
            dim("共同关注"),
            dim("共同粉丝"),
            dim("无")
        )
    );
}

fn profile(following: &[&str], mutual: &[&str], followers: &[&str]) -> UserProfileResult {
    UserProfileResult {
        login: "ada".to_string(),
        name: Some("Ada".to_string()),
        company: None,
        location: None,
        created_at: Some("1815-12-10T00:00:00Z".to_string()),
        followers_count: Some(1234),
        following_count: None,
        public_repos: Some(5),
        following: strings(following),
        mutual: strings(mutual),
        followers: strings(followers),
        crawled_following: following.len(),
        crawled_followers: followers.len(),
    }
}

fn figures(following: &str, followers: &str) -> String {
    tree_block(
        "统计",
        &[
            TreeItem::new(
                "关注",
                &format!("    {} 人  {}", dim("—"), dim(&format!("已获取 {following} 人"))),
            ),
            TreeItem::new(
                "粉丝",
                &format!("1,234 人  {}", dim(&format!("已获取 {followers} 人"))),
            ),
            TreeItem::new("公开仓库", "    5 个"),
        ],
    )
}

fn group(arrow: String, label: &str, count: &str, items: Vec<String>) -> TreeGroup {
    TreeGroup { label: format!("{} {}", bold(&format!("{arrow} {label}")), dim(count)), items }
}

fn facts() -> String {
    tree_block(
        "基本信息",
        &[
            TreeItem::new("姓名", "Ada"),
            TreeItem::new("公司", &dim("—")),
            TreeItem::new("所在地", &dim("—")),
            TreeItem::new("账号创建", "1815-12-10"),
        ],
    )
}

#[test]
fn a_user_with_all_three_groups() {
    let data = profile(&["m", "o"], &["m"], &["m", "f"]);
    let groups = [
        group(green("→"), "关注", "1 人", strings(&["o"])),
        group(yellow("⇄"), "互关", "1 人", strings(&["m"])),
        group(cyan("←"), "粉丝", "1 人", strings(&["f"])),
    ];
    assert_eq!(
        UserView { data: &data, detail: false }.render(),
        format!(
            "{}\n\n{}\n\n{}\n\n{}",
            header("👤", &blue("ada"), ""),
            facts(),
            figures("2", "2"),
            nested_tree("社交关系", &groups)
        )
    );
}

#[test]
fn long_groups_are_cut_unless_asked_for() {
    let names: Vec<String> = (0..12).map(|i| format!("u{i:02}")).collect();
    let names: Vec<&str> = names.iter().map(|s| s.as_str()).collect();
    let data = profile(&names, &[], &[]);
    let mut items: Vec<String> = strings(&names[..10]);
    items.push(dim("等 2 人"));
    let cut = group(green("→"), "关注", "12 人", items);
    let top = format!("{}\n\n{}\n\n{}", header("👤", &blue("ada"), ""), facts(), figures("12", " 0"));
    assert_eq!(
        UserView { data: &data, detail: false }.render(),
        format!("{top}\n\n{}", nested_tree("社交关系", &[cut]))
    );
    let whole = group(green("→"), "关注", "12 人", strings(&names));
    assert_eq!(
        UserView { data: &data, detail: true }.render(),
        format!("{top}\n\n{}", nested_tree("社交关系", &[whole]))
    );
}

#[test]
fn a_short_creation_date_is_shown_whole() {
    let mut data = profile(&[], &[], &[]);
    data.created_at = Some("1815".to_string());
    let shown = UserView { data: &data, detail: false }.render();
    assert!(shown.contains("账号创建  1815\n"));
    assert!(shown.ends_with(&section("社交关系")));
}

#[test]
fn suggestions_without_followed_users() {
    let mut result = SuggestResult {
        user: "a".to_string(),
        suggestions: vec![],
        based_on: 0,
        candidates: 0,
    };
    assert_eq!(result.render(), format!("💡 {} 没有关注任何人，无法推荐", dim("a")));
    result.based_on = 3;
    assert_eq!(result.render(), "💡 暂无推荐，试试先多爬些数据");
}

#[test]
fn suggestions_are_cards() {
    let result = SuggestResult {
        user: "a".to_string(),
        suggestions: vec![
            Suggestion {
                login: "long".to_string(),
                weight: "2.50".to_string(),
                filled: 7,
                mutual_friends: strings(&["x", "y", "z", "w"]),
            },
            Suggestion {
                login: "s".to_string(),
                weight: "0.10".to_string(),
                filled: 0,
                mutual_friends: vec![],
            },
        ],
        based_on: 12,
        candidates: 3456,
    };
    let one = card(
        &format!("{}  {}  2.50", blue("long"), weight_bar(7, 7)),
        &[dim("x, y, z 等 1 人 也关注了 ta")],
    );
    let two = card(&format!("{}       0.10", blue("s")), &[dim("无")]);
    let expected = format!(
        "💡 基于 {} 的社交圈推荐  {}\n\n{one}\n\n{two}\n\n基于 {} 个关注者，覆盖 {} 个候选",
        blue("a"),
        dim("top 2"),
        dim("12"),
        dim("3,456")
    );
    assert_eq!(result.render(), expected);
    assert_eq!(result.render_with(&vec![4, 1]), expected);
}

#[test]
fn bridges_are_a_grid() {
    let mut result = BridgesResult { bridges: vec![], baseline_components: 4 };
    assert_eq!(result.render(), "🌉 图中没有足够数据计算桥梁节点");
    result.bridges = vec![
        Bridge {
            login: "a".to_string(),
            following: Some(1200),
            followers: None,
            impact: 150,
        },
    ];
    let rows = vec![
        vec![
            dim("#1"),
            blue("a"),
            "1,200".to_string(),
            "0".to_string(),
            impact_color(150),
        ],
    ];
    assert_eq!(result.rows(), rows);
    assert_eq!(
        result.render(),
        format!(
            "🌉 桥梁节点  {}\n隐藏后连通分量从 4 增加\n\n{}",
            dim("top 1"),
            styled_grid(
                "  ",
                &vec![dim("#"), bold("login"), bold("关注"), bold("粉丝"), bold("关键性")],
                &rows
            )
        )
    );
}

#[test]
fn communities_are_cards() {
    let mut result = CommunitiesResult {
        communities: vec![],
        num_communities: 8,
        algorithm: "Louvain".to_string(),
        modularity: "0.6000".to_string(),
        modularity_bits: 0.6f64.to_bits(),
        user_login: None,
        user_community: None,
        user_members: None,
    };
    assert_eq!(result.render(), "🏘️ 图中没有检测到社区");
    result.communities = vec![
        Community { id: 0, size: 1500, representatives: strings(&["a", "b"]) },
    ];
    assert_eq!(
        result.render(),
        format!(
            "{}\n\n  Louvain 算法  {}  Q = {}\n\n{}\n\n仅显示前 {} 个社区",
            header("🏘️", "社区发现", "共 8 个社区"),
            dim("模块度"),
            modularity_color("0.6000", 0.6f64.to_bits()),
            card(
                &format!("{}  1,500 人", bold("0")),
                &[format!("a, b {}", dim("为代表"))]
            ),
            dim("1")
        )
    );
    result.user_login = Some("b".to_string());
    result.user_community = Some(3);
    result.user_members = Some(strings(&["a", "b", "c", "d"]));
    assert_eq!(
        result.render(),
        format!(
            "{}\n\n{}\n\n  同社区成员:\n    a\n    b\n    c\n    d",
            header("🏘️", &format!("{} 所在社区", blue("b")), ""),
            card(&format!("{}  4 人", bold("3")), &[format!("a, b, c {}", dim("为代表"))])
        )
    );
}

fn stats(bytes: u64, dist: Vec<DegreeDist>) -> StatsResult {
    StatsResult {
        total_users: 1000,
        crawled: 20,
        pending: 300,
        min_degree: 0,
        max_degree: 2,
        file_size_bytes: bytes,
        degree_dist: dist,
        total_edges: 5000,
        connected_components: 3,
        largest_component: 990,
        users_with_outgoing: 20,
        users_with_incoming: 980,
    }
}

fn texts() -> StatsTexts {
    StatsTexts {
        megabytes: "1.5".to_string(),
        density: "0.005005".to_string(),
        density_bits: 0.005005f64.to_bits(),
        largest_share: "99.0".to_string(),
        avg_out_degree: "5.00".to_string(),
        avg_in_degree: "5.00".to_string(),
    }
}

fn graph_block() -> String {
    tree_block("图统计", &[
        TreeItem::new("边数", "5,000"),
        TreeItem::new("图密度", &density_color("0.005005", 0.005005f64.to_bits())),
        TreeItem::new("连通分量数", "3"),
        TreeItem::new("最大分量占比", "99.0%"),
        TreeItem::new("平均出度", "5.00"),
        TreeItem::new("平均入度", "5.00"),
        TreeItem::new("有出边的用户", "20"),
        TreeItem::new("有入边的用户", "980"),
    ])
}

fn overview(size: &str) -> String {
    tree_block("数据库概况", &[
        TreeItem::new("用户总数", "1,000"),
        TreeItem::new("已爬", "20"),
        TreeItem::new("排队", "300"),
        TreeItem::new("度数范围", "0° ~ 2°"),
        TreeItem::new("数据库", size),
    ])
}

#[test]
fn statistics_with_a_distribution() {
    let dist = vec![
        DegreeDist { degree: 0, count: 10 },
        DegreeDist { degree: 1, count: 2000 },
    ];
    assert_eq!(
        stats(1_500_000, dist).render(&texts()),
        format!(
            "📊 gh6 数据库\n\n{}\n\n{}\n    {}°  10  {}\n    {}°  2,000  {}\n\n{}",
            overview("1.5 MB"),
            section("度数分布"),
            cyan("0"),
            bar(10, 2000, 30),
            cyan("1"),
            bar(2000, 2000, 30),
            graph_block()
        )
    );
}

#[test]
fn statistics_without_a_distribution() {
    assert_eq!(
        stats(1_000_000, vec![]).render(&texts()),
        format!(
            "📊 gh6 数据库\n\n{}\n\n{}\n  {}\n\n{}",
            overview("1000 KB"),
            section("度数分布"),
            dim("（无数据）"),
            graph_block()
        )
    );
}

fn status() -> StatusData {
    StatusData {
        users_crawled: 1234,
        users_queued: 50_000,
        users_retry: 2,
        users_error: 0,
        current_degree: 3,
        api_remaining: 4321,
        api_limit: 5000,
        api_reset_at: 10_000,
        uptime_secs: 61,
        currently_crawling: Some("mona".to_string()),
        workers: vec![CrawlingWorker { login: "mona".to_string(), degree: 3 }],
        paused: false,
        pending_normal: vec![],
        pending_hub: vec![],
        pending_retry: vec![],
        pending_normal_count: 0,
        pending_hub_count: 0,
        pending_retry_count: 0,
    }
}

#[test]
fn the_status_of_a_running_daemon() {
    let expected = format!(
        "⏳ gh6\n\n{}",
        tree_block("状态", &[
            TreeItem::new("服务状态", "▶ 运行中"),
            TreeItem::new("已爬", "1,234"),
            TreeItem::new("重试", "2"),
            TreeItem::new("错误", "0"),
            TreeItem::new("队列", "50,000"),
            TreeItem::new("当前度数", "3°"),
            TreeItem::new("正在爬取", "mona"),
            TreeItem::new("API 剩余", "4,321 / 5,000"),
            TreeItem::new("下次重置", "08:46:40 (in 1h 23m)"),
            TreeItem::new("运行时间", "1m 1s"),
        ])
    );
    assert_eq!(status().render(5_000, "08:46:40"), expected);
}

#[test]
fn the_time_to_the_reset() {
    let reset = |s: &StatusData, now: i64| s.rows(now, "T")[8].value.clone();
    let mut s = status();
    assert_eq!(reset(&s, 9_941), "T (in 59s)");
    assert_eq!(reset(&s, 9_940), "T (in 1m 0s)");
    assert_eq!(reset(&s, 6_401), "T (in 59m 59s)");
    assert_eq!(reset(&s, 6_400), "T (in 1h 0m)");
    assert_eq!(reset(&s, 20_000), "T (in 0s)");
    s.api_reset_at = 0;
    assert_eq!(reset(&s, 9_941), "（未知）");
}

#[test]
fn the_status_of_a_paused_daemon() {
    let mut s = status();
    s.paused = true;
    s.currently_crawling = None;
    let rows = s.rows(0, "T");
    assert_eq!(rows[0].value, "⏸ 已暂停");
    assert_eq!(rows[6].value, "（空闲）");
}
