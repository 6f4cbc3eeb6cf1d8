//! What the results of the analyses and the status look like on a terminal.
use vstd::hash_map::StringHashMap;
use vstd::prelude::*;
use vstd::string::*;

use crate::analyze::{
    info_models, CommonResult, PathInfo, PathModel, RouteResult, StatsResult, UserProfileModel,
    UserProfileResult,
};
use crate::display::{
    bar, bar_text, blue, bold, card, card_text, cell_widths, cells, chain_text, cyan, density_color,
    density_text, dim, dimmed, directed_edge, edge_text, emboldened, fmt_uptime, green, grid_text,
    group_lines, group_models, group_text, grouped, header, header_text, impact_color, impact_text, in_blue, in_cyan,
    in_green, in_yellow, item_keys, item_values, list_text, max_width, modularity_color,
    modularity_text, nats, nested_text, nested_tree, num, pad_left_with, padded_left, path_chain,
    section, section_text, slices, styled_grid, target, text_widths, tree_block, tree_text,
    truncate_list, uptime_text, visible_widths, weight_bar, weight_bar_text, widest, widths_of,
    yellow, GroupModel, TreeGroup, TreeItem,
};
use crate::lists::{lemma_filter_none, lemma_filter_step};
use crate::rounding::law_proportion_is_bounded;
use crate::text::{
    blanks, cat2, cat3, cat4, cat5, cat6, cat7, chained, chars_of, dec, dec_int, decimal,
    decimal_int, join, join_first, joined, lemma_chained_ends, lemma_chained_step, repeat, text_of,
    views,
};
use crate::types::{opt_text, DegreeDist, StatusData, StatusModel, UserModel};

verus! {

// ── Routes ──────────────────────────────────────────────────────────────────

/// How many steps a path has.
pub open spec fn steps_text(users: nat) -> Seq<char> {
    dimmed(decimal(if users == 0 {
        0
    } else {
        (users - 1) as nat
    }) + " 步"@)
}

fn steps_of(users: usize) -> (r: String)
    ensures
        r@ == steps_text(users as nat),
{
    let n: usize = if users == 0 {
        0
    } else {
        users - 1
    };
    dim(cat2(dec(n as u64).as_str(), " 步").as_str())
}

/// The chain of a path and its steps.
pub open spec fn path_line(p: PathModel) -> Seq<char> {
    chain_text(p.path.map_values(|u: UserModel| u.login)) + "  "@ + steps_text(p.path.len())
}

fn path_line_of(info: &PathInfo) -> (r: String)
    ensures
        r@ == path_line(info@),
{
    let ghost want = info@.path.map_values(|u: UserModel| u.login);
    let mut logins: Vec<&str> = Vec::new();
    let mut i: usize = 0;
    while i < info.path.len()
        invariant
            i <= info.path@.len(),
            want == info@.path.map_values(|u: UserModel| u.login),
            slices(logins@) =~= want.take(i as int),
        decreases info.path@.len() - i,
    {
        let ghost l0 = slices(logins@);
        let login: &str = info.path[i].login.as_str();
        assert(want[i as int] == login@);
        logins.push(login);
        assert(slices(logins@) =~= l0.push(login@));
        i = i + 1;
    }
    assert(want.take(i as int) =~= want);
    cat3(path_chain(logins.as_slice()).as_str(), "  ", steps_of(info.path.len()).as_str())
}

/// The lines that say who follows whom along a path.
pub open spec fn edge_lines(p: PathModel) -> Seq<Seq<char>> {
    p.edges.map_values(|e: (Seq<char>, Seq<char>)| edge_text(e.0, e.1))
}

/// Appends the lines that say who follows whom along a path.
fn add_edges(lines: &mut Vec<String>, info: &PathInfo)
    ensures
        views(final(lines)@) == views(old(lines)@) + edge_lines(info@),
{
    let ghost l0 = views(lines@);
    let ghost want = edge_lines(info@);
    let mut i: usize = 0;
    assert(views(lines@) =~= l0 + want.take(0));
    while i < info.directed_edges.len()
        invariant
            i <= info.directed_edges@.len(),
            want == edge_lines(info@),
            views(lines@) == l0 + want.take(i as int),
        decreases info.directed_edges@.len() - i,
    {
        let ghost before = views(lines@);
        let e = &info.directed_edges[i];
        assert(info@.edges[i as int] == (e.from@, e.to@));
        let line = directed_edge(e.from.as_str(), e.to.as_str());
        let ghost m = line@;
        assert(want[i as int] == m);
        lines.push(line);
        assert(views(lines@) =~= before.push(m));
        assert(l0 + want.take(i + 1) =~= (l0 + want.take(i as int)).push(m));
        i = i + 1;
    }
    assert(want.take(i as int) =~= want);
}

fn edges_of(info: &PathInfo) -> (r: Vec<String>)
    ensures
        views(r@) == edge_lines(info@),
{
    let mut r: Vec<String> = Vec::new();
    assert(views(r@) =~= Seq::empty());
    add_edges(&mut r, info);
    assert(Seq::empty() + edge_lines(info@) =~= edge_lines(info@));
    r
}

/// The card of a fuzzy match: the login, below it the chain, and below the chain who
/// follows whom.
pub open spec fn match_card(p: PathModel) -> Seq<char> {
    "  "@ + in_blue(if p.path.len() == 0 {
        "?"@
    } else {
        p.path.last().login
    }) + group_text(GroupModel { label: path_line(p), items: edge_lines(p) }, 0, 1)
}

fn match_card_of(info: &PathInfo) -> (r: String)
    ensures
        r@ == match_card(info@),
{
    let n: usize = info.path.len();
    let login: &str = if n == 0 {
        "?"
    } else {
        assert(info@.path[n - 1] == info.path@[n - 1]@);
        info.path[n - 1].login.as_str()
    };
    let chain = TreeGroup { label: path_line_of(info), items: edges_of(info) };
    cat3("  ", blue(login).as_str(), group_lines(&chain, 0, 1).as_str())
}

/// The card of a path.
pub open spec fn path_card(p: PathModel) -> Seq<char> {
    card_text(path_line(p), edge_lines(p))
}

fn path_card_of(info: &PathInfo) -> (r: String)
    ensures
        r@ == path_card(info@),
{
    let body = edges_of(info);
    card(path_line_of(info).as_str(), body.as_slice())
}

pub struct RouteModel {
    pub from: Seq<char>,
    pub query: Seq<char>,
    pub is_fuzzy: bool,
    pub total: nat,
    pub paths: Seq<PathModel>,
}

impl View for RouteResult {
    type V = RouteModel;

    open spec fn view(&self) -> RouteModel {
        RouteModel {
            from: self.from@,
            query: self.query@,
            is_fuzzy: self.is_fuzzy,
            total: self.total as nat,
            paths: info_models(self.paths@),
        }
    }
}

/// From where to where.
pub open spec fn route_title(r: RouteModel) -> Seq<char> {
    emboldened(r.from) + " 到 "@ + emboldened(in_green(r.query))
}

/// How many paths there are and how many of them are shown.
pub open spec fn route_meta(r: RouteModel) -> Seq<char> {
    if r.total > r.paths.len() {
        "共 "@ + decimal(r.total) + " 条路径，显示前 "@ + decimal(r.paths.len()) + " 条"@
    } else {
        "共 "@ + decimal(r.total) + " 条路径"@
    }
}

/// What a route looks like.
pub open spec fn route_text(r: RouteModel) -> Seq<char> {
    if r.paths.len() == 0 && r.is_fuzzy {
        header_text("🔍"@, "未找到匹配「"@ + dimmed(r.query) + "」的用户"@, ""@)
    } else if r.paths.len() == 0 {
        header_text(
            "🗺️"@,
            "未找到「"@ + dimmed(r.from) + "」到「"@ + dimmed(r.query) + "」的路径"@,
            ""@,
        )
    } else if r.is_fuzzy {
        header_text(
            "🔍"@,
            "「"@ + dimmed(r.query) + "」找到 "@ + decimal(r.total) + " 个模糊匹配"@,
            ""@,
        ) + chained(Seq::new(r.paths.len(), |i: int| "\n\n"@ + match_card(r.paths[i])))
    } else if r.total <= 1 && r.paths.len() == 1 {
        let p = r.paths[0];
        if p.path.len() > 2 && p.edges.len() > 0 {
            header_text("🗺️"@, route_title(r), ""@) + "\n\n"@ + path_card(p)
        } else {
            header_text("🗺️"@, route_title(r), path_line(p))
        }
    } else {
        header_text("🗺️"@, route_title(r), route_meta(r)) + chained(
            Seq::new(r.paths.len(), |i: int| "\n\n"@ + path_card(r.paths[i])),
        )
    }
}

impl RouteResult {
    /// What the route looks like.
    pub fn render(&self) -> (s: String)
        ensures
            s@ == route_text(self@),
    {
        let n: usize = self.paths.len();
        let query = dim(self.query.as_str());
        if n == 0 {
            if self.is_fuzzy {
                return header("🔍", cat3("未找到匹配「", query.as_str(), "」的用户").as_str(), "");
            }
            return header(
                "🗺️",
                cat5(
                    "未找到「",
                    dim(self.from.as_str()).as_str(),
                    "」到「",
                    query.as_str(),
                    "」的路径",
                ).as_str(),
                "",
            );
        }
        let ghost all = self@.paths;
        if self.is_fuzzy {
            let title = cat5(
                "「",
                query.as_str(),
                "」找到 ",
                dec(self.total as u64).as_str(),
                " 个模糊匹配",
            );
            let mut s = header("🔍", title.as_str(), "");
            let ghost head = s@;
            let ghost parts = Seq::new(all.len(), |i: int| "\n\n"@ + match_card(all[i]));
            let mut i: usize = 0;
            proof {
                lemma_chained_ends(head, parts);
            }
            while i < n
                invariant
                    i <= n,
                    n == self.paths@.len(),
                    all == self@.paths,
                    parts == Seq::new(all.len(), |i: int| "\n\n"@ + match_card(all[i])),
                    s@ == head + chained(parts.take(i as int)),
                decreases n - i,
            {
                assert(all[i as int] == self.paths@[i as int]@);
                let part = cat2("\n\n", match_card_of(&self.paths[i]).as_str());
                assert(part@ == parts[i as int]);
                s.append(part.as_str());
                proof {
                    lemma_chained_step(head, parts, i as int);
                }
                i = i + 1;
            }
            return s;
        }
        let title = cat3(
            bold(self.from.as_str()).as_str(),
            " 到 ",
            target(self.query.as_str()).as_str(),
        );
        if self.total <= 1 && n == 1 {
            let info = &self.paths[0];
            assert(all[0] == info@);
            if info.path.len() > 2 && info.directed_edges.len() > 0 {
                return cat3(
                    header("🗺️", title.as_str(), "").as_str(),
                    "\n\n",
                    path_card_of(info).as_str(),
                );
            }
            return header("🗺️", title.as_str(), path_line_of(info).as_str());
        }
        let meta: String = if self.total > n {
            cat5(
                "共 ",
                dec(self.total as u64).as_str(),
                " 条路径，显示前 ",
                dec(n as u64).as_str(),
                " 条",
            )
        } else {
            cat3("共 ", dec(self.total as u64).as_str(), " 条路径")
        };
        let mut s = header("🗺️", title.as_str(), meta.as_str());
        let ghost head = s@;
        let ghost parts = Seq::new(all.len(), |i: int| "\n\n"@ + path_card(all[i]));
        let mut i: usize = 0;
        proof {
            lemma_chained_ends(head, parts);
        }
        while i < n
            invariant
                i <= n,
                n == self.paths@.len(),
                all == self@.paths,
                parts == Seq::new(all.len(), |i: int| "\n\n"@ + path_card(all[i])),
                s@ == head + chained(parts.take(i as int)),
            decreases n - i,
        {
            assert(all[i as int] == self.paths@[i as int]@);
            let part = cat2("\n\n", path_card_of(&self.paths[i]).as_str());
            assert(part@ == parts[i as int]);
            s.append(part.as_str());
            proof {
                lemma_chained_step(head, parts, i as int);
            }
            i = i + 1;
        }
        s
    }
}

// ── Common connections ──────────────────────────────────────────────────────

/// A labelled list with its size; a dash of text where it is empty.
pub open spec fn titled_list(label: Seq<char>, list: Seq<Seq<char>>) -> Seq<char> {
    card_text(
        dimmed(label) + " "@ + decimal(list.len()) + " 人"@,
        if list.len() == 0 {
            seq![dimmed("无"@)]
        } else {
            list
        },
    )
}

/// A titled tree list.
fn tree_title_list(label: &str, list: &Vec<String>) -> (r: String)
    ensures
        r@ == titled_list(label@, views(list@)),
{
    let title = cat4(dim(label).as_str(), " ", dec(list.len() as u64).as_str(), " 人");
    if list.len() == 0 {
        let mut none: Vec<String> = Vec::new();
        none.push(dim("无"));
        assert(views(none@) =~= seq![dimmed("无"@)]);
        return card(title.as_str(), none.as_slice());
    }
    card(title.as_str(), list.as_slice())
}

impl CommonResult {
    /// What the common connections look like.
    pub fn render(&self) -> (s: String)
        ensures
            s@ == header_text("👥"@, in_blue(self@.user1) + " 和 "@ + in_blue(self@.user2), ""@)
                + "\n\n"@ + titled_list("共同关注"@, self@.common_following) + "\n\n"@
                + titled_list("共同粉丝"@, self@.common_followers),
    {
        let title = cat3(
            blue(self.user1.as_str()).as_str(),
            " 和 ",
            blue(self.user2.as_str()).as_str(),
        );
        cat5(
            header("👥", title.as_str(), "").as_str(),
            "\n\n",
            tree_title_list("共同关注", &self.common_following).as_str(),
            "\n\n",
            tree_title_list("共同粉丝", &self.common_followers).as_str(),
        )
    }
}

// ── One user ────────────────────────────────────────────────────────────────

/// How a user is shown.
pub struct UserView<'a> {
    pub data: &'a UserProfileResult,
    /// Shows all names in place of the first ten.
    pub detail: bool,
}

/// How many bytes a character takes in UTF-8.
pub open spec fn char_bytes(c: char) -> nat {
    if (c as u32) < 0x80 {
        1
    } else if (c as u32) < 0x800 {
        2
    } else if (c as u32) < 0x10000 {
        3
    } else {
        4
    }
}

/// How many bytes a text takes in UTF-8.
pub open spec fn text_bytes(s: Seq<char>) -> nat
    decreases s.len(),
{
    if s.len() == 0 {
        0
    } else {
        text_bytes(s.drop_last()) + char_bytes(s.last())
    }
}

/// The longest beginning of a text that takes at most ten bytes: of a timestamp
/// the date.
pub open spec fn date_part(s: Seq<char>) -> Seq<char>
    decreases s.len(),
{
    if text_bytes(s) <= 10 {
        s
    } else {
        date_part(s.drop_last())
    }
}

proof fn lemma_date_part(s: Seq<char>, n: int)
    requires
        0 <= n <= s.len(),
        text_bytes(s.take(n)) <= 10,
        n < s.len() ==> text_bytes(s.take(n + 1)) > 10,
    ensures
        date_part(s) == s.take(n),
    decreases s.len(),
{
    if n == s.len() {
        assert(s.take(n) =~= s);
    } else {
        lemma_bytes_grow(s, n + 1, s.len() as int);
        assert(s.take(s.len() as int) =~= s);
        let rest = s.drop_last();
        assert(rest.take(n) =~= s.take(n));
        if n < rest.len() {
            assert(rest.take(n + 1) =~= s.take(n + 1));
        }
        lemma_date_part(rest, n);
    }
}

proof fn lemma_bytes_grow(s: Seq<char>, a: int, b: int)
    requires
        0 <= a <= b <= s.len(),
    ensures
        text_bytes(s.take(a)) <= text_bytes(s.take(b)),
    decreases b - a,
{
    if a < b {
        lemma_bytes_grow(s, a, b - 1);
        assert(s.take(b).drop_last() =~= s.take(b - 1));
    }
}

/// The date of a timestamp.
fn date_of(s: &str) -> (r: String)
    ensures
        r@ == date_part(s@),
{
    let v = chars_of(s);
    let mut n: usize = 0;
    let mut bytes: usize = 0;
    assert(v@.take(0) =~= Seq::empty());
    while n < v.len()
        invariant
            n <= v@.len(),
            v@ == s@,
            bytes <= 10,
            bytes == text_bytes(v@.take(n as int)),
        decreases v@.len() - n,
    {
        let c: u32 = v[n] as u32;
        let size: usize = if c < 0x80 {
            1
        } else if c < 0x800 {
            2
        } else if c < 0x10000 {
            3
        } else {
            4
        };
        assert(v@.take(n + 1).drop_last() =~= v@.take(n as int));
        if bytes + size > 10 {
            proof {
                lemma_date_part(s@, n as int);
            }
            assert(v@.subrange(0, n as int) =~= v@.take(n as int));
            return text_of(&v, 0, n);
        }
        bytes = bytes + size;
        n = n + 1;
    }
    proof {
        lemma_date_part(s@, n as int);
    }
    assert(v@.subrange(0, n as int) =~= v@.take(n as int));
    text_of(&v, 0, n)
}

/// A text or the mark for a missing one.
pub open spec fn or_dash(o: Option<Seq<char>>) -> Seq<char> {
    match o {
        Some(s) => s,
        None => dimmed("—"@),
    }
}

fn text_or_dash(o: &Option<String>) -> (r: String)
    ensures
        r@ == or_dash(opt_text(*o)),
{
    match o {
        Some(s) => s.clone(),
        None => dim("—"),
    }
}

/// A number or the mark for a missing one.
pub open spec fn count_text(n: Option<i64>) -> Seq<char> {
    match n {
        Some(v) => grouped(decimal((v as u64) as nat)),
        None => dimmed("—"@),
    }
}

/// The names up to `max`, and beyond them only their number.
pub open spec fn shown_names(names: Seq<Seq<char>>, max: nat) -> Seq<Seq<char>> {
    if names.len() <= max {
        names
    } else {
        names.take(max as int).push(
            dimmed("等 "@ + decimal((names.len() - max) as nat) + " 人"@),
        )
    }
}

/// The names up to `max`, and beyond them only their number.
fn truncate_list_items(items: &Vec<String>, max: usize) -> (r: Vec<String>)
    ensures
        views(r@) == shown_names(views(items@), max as nat),
{
    let ghost all = views(items@);
    let n: usize = if items.len() <= max {
        items.len()
    } else {
        max
    };
    let mut r: Vec<String> = Vec::new();
    let mut i: usize = 0;
    while i < n
        invariant
            i <= n <= items@.len(),
            all == views(items@),
            views(r@) =~= all.take(i as int),
        decreases n - i,
    {
        let ghost r0 = views(r@);
        assert(all[i as int] == items@[i as int]@);
        r.push(items[i].clone());
        assert(views(r@) =~= r0.push(all[i as int]));
        i = i + 1;
    }
    if items.len() > max {
        let ghost r0 = views(r@);
        let rest = dim(cat3("等 ", dec((items.len() - max) as u64).as_str(), " 人").as_str());
        let ghost m = rest@;
        r.push(rest);
        assert(views(r@) =~= r0.push(m));
    } else {
        assert(all.take(n as int) =~= all);
    }
    r
}

/// The names of a list that another list does not hold.
pub open spec fn names_without(names: Seq<Seq<char>>, others: Seq<Seq<char>>) -> Seq<Seq<char>> {
    names.filter(|s: Seq<char>| !others.contains(s))
}

fn without(names: &Vec<String>, others: &Vec<String>) -> (r: Vec<String>)
    ensures
        views(r@) == names_without(views(names@), views(others@)),
{
    let ghost ns = views(names@);
    let ghost os = views(others@);
    let ghost p = |s: Seq<char>| !os.contains(s);
    let mut set: StringHashMap<bool> = StringHashMap::new();
    let mut i: usize = 0;
    while i < others.len()
        invariant
            i <= others@.len(),
            os == views(others@),
            forall|s: Seq<char>| #[trigger]
                set@.contains_key(s) <==> os.take(i as int).contains(s),
        decreases others@.len() - i,
    {
        let ghost set0 = set@;
        set.insert(others[i].clone(), true);
        proof {
            assert(os[i as int] == others@[i as int]@);
            assert(os.take(i + 1) =~= os.take(i as int).push(os[i as int]));
            assert forall|s: Seq<char>| #[trigger] set@.contains_key(s) <==> os.take(
                i + 1,
            ).contains(s) by {
                let before = os.take(i as int);
                let after = os.take(i + 1);
                if before.contains(s) {
                    let k = choose|k: int| 0 <= k < before.len() && before[k] == s;
                    assert(after[k] == s);
                }
                if s == os[i as int] {
                    assert(after[i as int] == s);
                }
                if after.contains(s) {
                    let k = choose|k: int| 0 <= k < after.len() && after[k] == s;
                    if k < i {
                        assert(before[k] == s);
                    }
                }
                assert(set@.contains_key(s) == (set0.contains_key(s) || s == os[i as int]));
            }
        }
        i = i + 1;
    }
    assert(os.take(i as int) =~= os);
    let mut r: Vec<String> = Vec::new();
    let mut j: usize = 0;
    proof {
        lemma_filter_none(ns, p);
        assert(views(r@) =~= ns.take(0).filter(p));
    }
    while j < names.len()
        invariant
            j <= names@.len(),
            ns == views(names@),
            os == views(others@),
            p == (|s: Seq<char>| !os.contains(s)),
            forall|s: Seq<char>| #[trigger] set@.contains_key(s) <==> os.contains(s),
            views(r@) == ns.take(j as int).filter(p),
        decreases names@.len() - j,
    {
        let ghost r0 = views(r@);
        proof {
            lemma_filter_step(ns, p, j as int);
            assert(ns[j as int] == names@[j as int]@);
        }
        if !set.contains_key(names[j].as_str()) {
            r.push(names[j].clone());
            assert(views(r@) =~= r0.push(ns[j as int]));
        }
        j = j + 1;
    }
    assert(ns.take(j as int) =~= ns);
    r
}

/// One group of names, unless there are none.
pub open spec fn name_group(
    mark: Seq<char>,
    label: Seq<char>,
    names: Seq<Seq<char>>,
    max: nat,
) -> Seq<GroupModel> {
    if names.len() == 0 {
        Seq::empty()
    } else {
        seq![
            GroupModel {
                label: emboldened(mark + " "@ + label) + " "@ + dimmed(
                    decimal(names.len()) + " 人"@,
                ),
                items: shown_names(names, max),
            },
        ]
    }
}

/// The groups around a user: those only followed, those followed and following,
/// those only following.
pub open spec fn social(
    following: Seq<Seq<char>>,
    mutual: Seq<Seq<char>>,
    followers: Seq<Seq<char>>,
    max: nat,
) -> Seq<GroupModel> {
    name_group(in_green("→"@), "关注"@, names_without(following, mutual), max) + name_group(
        in_yellow("⇄"@),
        "互关"@,
        mutual,
        max,
    ) + name_group(in_cyan("←"@), "粉丝"@, names_without(followers, following), max)
}

fn add_group(
    groups: &mut Vec<TreeGroup>,
    mark: &str,
    label: &str,
    names: &Vec<String>,
    max: usize,
)
    ensures
        group_models(final(groups)@) == group_models(old(groups)@) + name_group(
            mark@,
            label@,
            views(names@),
            max as nat,
        ),
{
    let ghost g0 = group_models(groups@);
    if names.len() > 0 {
        let group = TreeGroup {
            label: cat3(
                bold(cat3(mark, " ", label).as_str()).as_str(),
                " ",
                dim(cat2(dec(names.len() as u64).as_str(), " 人").as_str()).as_str(),
            ),
            items: truncate_list_items(names, max),
        };
        let ghost m = group@;
        groups.push(group);
        assert(group_models(groups@) =~= g0.push(m));
        assert(g0.push(m) =~= g0 + seq![m]);
    } else {
        assert(g0 + Seq::empty() =~= g0);
    }
}

/// The groups around a user.
fn social_groups(data: &UserProfileResult, max_names: usize) -> (r: Vec<TreeGroup>)
    ensures
        group_models(r@) == social(
            data@.following,
            data@.mutual,
            data@.followers,
            max_names as nat,
        ),
{
    let following_only = without(&data.following, &data.mutual);
    let followers_only = without(&data.followers, &data.following);
    let mut groups: Vec<TreeGroup> = Vec::new();
    assert(group_models(groups@) =~= Seq::empty());
    add_group(&mut groups, green("→").as_str(), "关注", &following_only, max_names);
    add_group(&mut groups, yellow("⇄").as_str(), "互关", &data.mutual, max_names);
    add_group(&mut groups, cyan("←").as_str(), "粉丝", &followers_only, max_names);
    assert(group_models(groups@) =~= social(
        data@.following,
        data@.mutual,
        data@.followers,
        max_names as nat,
    ));
    groups
}

/// A tree block with the widths that its keys have.
pub open spec fn block(
    title: Seq<char>,
    keys: Seq<Seq<char>>,
    values: Seq<Seq<char>>,
) -> Seq<char> {
    tree_text(title, keys, values, widths_of(keys))
}

/// The date of a timestamp or the mark for a missing one.
pub open spec fn created_text(o: Option<Seq<char>>) -> Seq<char> {
    match o {
        Some(s) => date_part(s),
        None => dimmed("—"@),
    }
}

/// What is known of a user.
pub open spec fn info_block(d: UserProfileModel) -> Seq<char> {
    block(
        "基本信息"@,
        seq!["姓名"@, "公司"@, "所在地"@, "账号创建"@],
        seq![
            or_dash(d.name),
            or_dash(d.company),
            or_dash(d.location),
            created_text(d.created_at),
        ],
    )
}

/// The larger of two numbers.
pub open spec fn larger(a: nat, b: nat) -> nat {
    if a < b {
        b
    } else {
        a
    }
}

/// How many places a number takes, or the mark for a missing one.
pub open spec fn count_places(n: Option<i64>) -> nat {
    match n {
        Some(v) => grouped(decimal((v as u64) as nat)).len(),
        None => 1,
    }
}

/// A number at the right end of so many places.
pub open spec fn count_at_right(n: Option<i64>, places: nat) -> Seq<char> {
    padded_left(count_text(n), count_places(n), places)
}

/// The figures of a user, those of a column one below the other.
pub open spec fn figures(d: UserProfileModel) -> Seq<Seq<char>> {
    let places = larger(
        larger(count_places(d.following_count), count_places(d.followers_count)),
        count_places(d.public_repos),
    );
    let held = larger(
        decimal(d.crawled_following).len(),
        decimal(d.crawled_followers).len(),
    );
    seq![
        count_at_right(d.following_count, places) + " 人  "@ + fetched_text(
            d.crawled_following,
            held,
        ),
        count_at_right(d.followers_count, places) + " 人  "@ + fetched_text(
            d.crawled_followers,
            held,
        ),
        count_at_right(d.public_repos, places) + " 个"@,
    ]
}

/// The figures of a user under their title.
pub open spec fn figures_block(d: UserProfileModel) -> Seq<char> {
    block("统计"@, seq!["关注"@, "粉丝"@, "公开仓库"@], figures(d))
}

/// How many users the database holds of a kind, the number at the right end of so
/// many places.
pub open spec fn fetched_text(n: nat, places: nat) -> Seq<char> {
    dimmed("已获取 "@ + padded_left(decimal(n), decimal(n).len(), places) + " 人"@)
}

/// How many names of a group are shown.
pub open spec fn name_limit(detail: bool) -> nat {
    if detail {
        usize::MAX as nat
    } else {
        10
    }
}

/// What a user looks like.
pub open spec fn user_text(d: UserProfileModel, detail: bool) -> Seq<char> {
    header_text("👤"@, in_blue(d.login), ""@) + "\n\n"@ + info_block(d) + "\n\n"@
        + figures_block(d) + "\n\n"@ + nested_text(
        "社交关系"@,
        social(d.following, d.mutual, d.followers, name_limit(detail)),
    )
}

fn fetched(n: &str, places: usize) -> (r: String)
    ensures
        r@ == dimmed("已获取 "@ + padded_left(n@, n@.len(), places as nat) + " 人"@),
{
    let number = pad_left_with(n, n.unicode_len(), places);
    dim(cat3("已获取 ", number.as_str(), " 人").as_str())
}

/// A number or the mark for a missing one, and how many places it takes.
fn count_and_places(n: Option<i64>) -> (r: (String, usize))
    ensures
        r.0@ == count_text(n),
        r.1 == count_places(n),
{
    match n {
        Some(v) => {
            let s = num(v as u64);
            let places: usize = s.as_str().unicode_len();
            (s, places)
        },
        None => (dim("—"), 1),
    }
}

fn larger_of(a: usize, b: usize) -> (r: usize)
    ensures
        r == larger(a as nat, b as nat),
{
    if a < b {
        b
    } else {
        a
    }
}

/// The figures of a user, those of a column one below the other.
fn figures_of(d: &UserProfileResult) -> (r: Vec<TreeItem>)
    ensures
        item_keys(r@) == seq!["关注"@, "粉丝"@, "公开仓库"@],
        item_values(r@) == figures(d@),
{
    let following = count_and_places(d.following_count);
    let followers = count_and_places(d.followers_count);
    let repos = count_and_places(d.public_repos);
    let places: usize = larger_of(larger_of(following.1, followers.1), repos.1);
    let left = dec(d.crawled_following as u64);
    let right = dec(d.crawled_followers as u64);
    let held: usize = larger_of(left.as_str().unicode_len(), right.as_str().unicode_len());
    let first = cat3(
        pad_left_with(following.0.as_str(), following.1, places).as_str(),
        " 人  ",
        fetched(left.as_str(), held).as_str(),
    );
    let second = cat3(
        pad_left_with(followers.0.as_str(), followers.1, places).as_str(),
        " 人  ",
        fetched(right.as_str(), held).as_str(),
    );
    let third = cat2(pad_left_with(repos.0.as_str(), repos.1, places).as_str(), " 个");
    let r: Vec<TreeItem> = vec![
        TreeItem::new("关注", first.as_str()),
        TreeItem::new("粉丝", second.as_str()),
        TreeItem::new("公开仓库", third.as_str()),
    ];
    assert(item_keys(r@) =~= seq!["关注"@, "粉丝"@, "公开仓库"@]);
    assert(item_values(r@) =~= figures(d@));
    r
}

impl<'a> UserView<'a> {
    /// What the user looks like.
    pub fn render(&self) -> (s: String)
        ensures
            s@ == user_text(self.data@, self.detail),
    {
        let d = self.data;
        let created: String = match &d.created_at {
            Some(s) => date_of(s.as_str()),
            None => dim("—"),
        };
        let info: Vec<TreeItem> = vec![
            TreeItem::new("姓名", text_or_dash(&d.name).as_str()),
            TreeItem::new("公司", text_or_dash(&d.company).as_str()),
            TreeItem::new("所在地", text_or_dash(&d.location).as_str()),
            TreeItem::new("账号创建", created.as_str()),
        ];
        assert(item_keys(info@) =~= seq!["姓名"@, "公司"@, "所在地"@, "账号创建"@]);
        assert(item_values(info@) =~= seq![
            or_dash(d@.name),
            or_dash(d@.company),
            or_dash(d@.location),
            created_text(d@.created_at),
        ]);
        let info_text = tree_block("基本信息", info.as_slice());
        assert(info_text@ == info_block(d@));
        let stats = figures_of(d);
        let stats_text = tree_block("统计", stats.as_slice());
        assert(stats_text@ == figures_block(d@));
        let max_names: usize = if self.detail {
            usize::MAX
        } else {
            10
        };
        let groups = social_groups(d, max_names);
        cat7(
            header("👤", blue(d.login.as_str()).as_str(), "").as_str(),
            "\n\n",
            info_text.as_str(),
            "\n\n",
            stats_text.as_str(),
            "\n\n",
            nested_tree("社交关系", groups.as_slice()).as_str(),
        )
    }
}

// ── Suggestions ─────────────────────────────────────────────────────────────

/// How many places the bar of a suggestion has.
pub const SUGGEST_BAR: usize = 7;

/// A user to follow.
#[derive(Debug, Clone)]
pub struct Suggestion {
    pub login: String,
    /// The weight in decimal notation.
    pub weight: String,
    /// How many places of the bar the weight takes.
    pub filled: usize,
    pub mutual_friends: Vec<String>,
}

pub struct SuggestionModel {
    pub login: Seq<char>,
    pub weight: Seq<char>,
    pub filled: nat,
    pub mutual_friends: Seq<Seq<char>>,
}

impl View for Suggestion {
    type V = SuggestionModel;

    open spec fn view(&self) -> SuggestionModel {
        SuggestionModel {
            login: self.login@,
            weight: self.weight@,
            filled: self.filled as nat,
            mutual_friends: views(self.mutual_friends@),
        }
    }
}

/// Whom a user might follow.
#[derive(Debug, Clone)]
pub struct SuggestResult {
    pub user: String,
    pub suggestions: Vec<Suggestion>,
    /// How many users the user follows.
    pub based_on: usize,
    /// How many users were considered.
    pub candidates: usize,
}

pub struct SuggestModel {
    pub user: Seq<char>,
    pub suggestions: Seq<SuggestionModel>,
    pub based_on: nat,
    pub candidates: nat,
}

impl View for SuggestResult {
    type V = SuggestModel;

    open spec fn view(&self) -> SuggestModel {
        SuggestModel {
            user: self.user@,
            suggestions: self.suggestions@.map_values(|s: Suggestion| s@),
            based_on: self.based_on as nat,
            candidates: self.candidates as nat,
        }
    }
}

/// Who of the users one follows follows the suggested user.
pub open spec fn friends_text(names: Seq<Seq<char>>) -> Seq<char> {
    if names.len() == 0 {
        dimmed("无"@)
    } else {
        dimmed(list_text(names, 3) + " 也关注了 ta"@)
    }
}

/// The card of a suggestion whose login is `pad` columns narrower than the
/// widest.
pub open spec fn suggestion_card(s: SuggestionModel, pad: nat) -> Seq<char> {
    card_text(
        in_blue(s.login) + blanks(pad) + "  "@ + weight_bar_text(s.filled, SUGGEST_BAR as nat)
            + "  "@ + s.weight,
        seq![friends_text(s.mutual_friends)],
    )
}

/// The footnote of the suggestions.
pub open spec fn suggest_note(r: SuggestModel) -> Seq<char> {
    "基于 "@ + dimmed(decimal(r.based_on)) + " 个关注者，覆盖 "@ + dimmed(
        grouped(decimal(r.candidates)),
    ) + " 个候选"@
}

/// What suggestions look like whose logins have the given widths.
pub open spec fn suggest_text(r: SuggestModel, widths: Seq<nat>) -> Seq<char> {
    if r.based_on == 0 {
        header_text("💡"@, dimmed(r.user) + " 没有关注任何人，无法推荐"@, ""@)
    } else if r.suggestions.len() == 0 {
        header_text("💡"@, "暂无推荐，试试先多爬些数据"@, ""@)
    } else {
        header_text(
            "💡"@,
            "基于 "@ + in_blue(r.user) + " 的社交圈推荐"@,
            "top "@ + decimal(r.suggestions.len()),
        ) + chained(
            Seq::new(
                r.suggestions.len(),
                |i: int|
                    "\n\n"@ + suggestion_card(
                        r.suggestions[i],
                        (widest(widths) - widths[i]) as nat,
                    ),
            ),
        ) + "\n\n"@ + suggest_note(r)
    }
}

fn suggestion_card_of(s: &Suggestion, pad: usize) -> (r: String)
    ensures
        r@ == suggestion_card(s@, pad as nat),
{
    let head = cat6(
        blue(s.login.as_str()).as_str(),
        repeat(" ", pad).as_str(),
        "  ",
        weight_bar(s.filled, SUGGEST_BAR).as_str(),
        "  ",
        s.weight.as_str(),
    );
    let friends: String = if s.mutual_friends.len() == 0 {
        dim("无")
    } else {
        dim(cat2(truncate_list(s.mutual_friends.as_slice(), 3).as_str(), " 也关注了 ta").as_str())
    };
    let mut body: Vec<String> = Vec::new();
    body.push(friends);
    assert(views(body@) =~= seq![friends_text(s@.mutual_friends)]);
    card(head.as_str(), body.as_slice())
}

impl SuggestResult {
    /// What the suggestions look like, where their logins have the given widths.
    pub fn render_with(&self, widths: &Vec<usize>) -> (s: String)
        requires
            widths@.len() == self.suggestions@.len(),
        ensures
            s@ == suggest_text(self@, nats(widths@)),
    {
        if self.based_on == 0 {
            return header(
                "💡",
                cat2(dim(self.user.as_str()).as_str(), " 没有关注任何人，无法推荐").as_str(),
                "",
            );
        }
        let n: usize = self.suggestions.len();
        if n == 0 {
            return header("💡", "暂无推荐，试试先多爬些数据", "");
        }
        let title = cat3("基于 ", blue(self.user.as_str()).as_str(), " 的社交圈推荐");
        let meta = cat2("top ", dec(n as u64).as_str());
        let mut s = header("💡", title.as_str(), meta.as_str());
        let ghost head = s@;
        let ghost all = self@.suggestions;
        let ghost ws = nats(widths@);
        let ghost parts = Seq::new(
            all.len(),
            |i: int| "\n\n"@ + suggestion_card(all[i], (widest(ws) - ws[i]) as nat),
        );
        let max: usize = max_width(widths);
        let mut i: usize = 0;
        proof {
            lemma_chained_ends(head, parts);
        }
        while i < n
            invariant
                i <= n,
                n == self.suggestions@.len(),
                widths@.len() == n,
                all == self@.suggestions,
                ws == nats(widths@),
                max == widest(ws),
                forall|k: int| 0 <= k < widths@.len() ==> (#[trigger] widths@[k]) <= max,
                parts == Seq::new(
                    all.len(),
                    |i: int| "\n\n"@ + suggestion_card(all[i], (widest(ws) - ws[i]) as nat),
                ),
                s@ == head + chained(parts.take(i as int)),
            decreases n - i,
        {
            assert(all[i as int] == self.suggestions@[i as int]@);
            assert(ws[i as int] == widths@[i as int]);
            let part = cat2(
                "\n\n",
                suggestion_card_of(&self.suggestions[i], max - widths[i]).as_str(),
            );
            assert(part@ == parts[i as int]);
            s.append(part.as_str());
            proof {
                lemma_chained_step(head, parts, i as int);
            }
            i = i + 1;
        }
        let note = cat5(
            "基于 ",
            dim(dec(self.based_on as u64).as_str()).as_str(),
            " 个关注者，覆盖 ",
            dim(num(self.candidates as u64).as_str()).as_str(),
            " 个候选",
        );
        s.append("\n\n");
        s.append(note.as_str());
        s
    }

    /// What the suggestions look like.
    pub fn render(&self) -> (s: String)
        ensures
            s@ == suggest_text(
                self@,
                widths_of(self@.suggestions.map_values(|x: SuggestionModel| x.login)),
            ),
    {
        let ghost want = self@.suggestions.map_values(|x: SuggestionModel| x.login);
        let mut logins: Vec<String> = Vec::new();
        let mut i: usize = 0;
        while i < self.suggestions.len()
            invariant
                i <= self.suggestions@.len(),
                want == self@.suggestions.map_values(|x: SuggestionModel| x.login),
                views(logins@) =~= want.take(i as int),
            decreases self.suggestions@.len() - i,
        {
            let ghost l0 = views(logins@);
            assert(self@.suggestions[i as int] == self.suggestions@[i as int]@);
            logins.push(self.suggestions[i].login.clone());
            assert(views(logins@) =~= l0.push(want[i as int]));
            i = i + 1;
        }
        assert(want.take(i as int) =~= want);
        assert(views(logins@).len() == logins@.len());
        let widths = text_widths(&logins);
        self.render_with(&widths)
    }
}

// ── Bridges ─────────────────────────────────────────────────────────────────

/// A user without whom the graph falls apart.
#[derive(Debug, Clone)]
pub struct Bridge {
    pub login: String,
    pub following: Option<i64>,
    pub followers: Option<i64>,
    /// How many components more there are without the user.
    pub impact: usize,
}

pub struct BridgeModel {
    pub login: Seq<char>,
    pub following: Option<i64>,
    pub followers: Option<i64>,
    pub impact: nat,
}

impl View for Bridge {
    type V = BridgeModel;

    open spec fn view(&self) -> BridgeModel {
        BridgeModel {
            login: self.login@,
            following: self.following,
            followers: self.followers,
            impact: self.impact as nat,
        }
    }
}

/// The users that hold the graph together.
#[derive(Debug, Clone)]
pub struct BridgesResult {
    pub bridges: Vec<Bridge>,
    /// How many components the graph has.
    pub baseline_components: usize,
}

/// The models of a list of bridges.
pub open spec fn bridge_models(s: Seq<Bridge>) -> Seq<BridgeModel> {
    s.map_values(|b: Bridge| b@)
}

/// The headers of the grid of bridges.
pub open spec fn bridge_headers() -> Seq<Seq<char>> {
    seq![
        dimmed("#"@),
        emboldened("login"@),
        emboldened("关注"@),
        emboldened("粉丝"@),
        emboldened("关键性"@),
    ]
}

/// A number, zero where it is missing, with commas.
pub open spec fn number_or_zero(n: Option<i64>) -> Seq<char> {
    match n {
        Some(v) => grouped(decimal((v as u64) as nat)),
        None => grouped(decimal(0)),
    }
}

fn number_of(n: Option<i64>) -> (r: String)
    ensures
        r@ == number_or_zero(n),
{
    match n {
        Some(v) => num(v as u64),
        None => num(0),
    }
}

/// The cells of a bridge.
pub open spec fn bridge_row(b: BridgeModel, i: int) -> Seq<Seq<char>> {
    seq![
        dimmed("#"@ + decimal((i + 1) as nat)),
        in_blue(b.login),
        number_or_zero(b.following),
        number_or_zero(b.followers),
        impact_text(b.impact),
    ]
}

/// The cells of the grid of bridges.
pub open spec fn bridge_rows(bridges: Seq<BridgeModel>) -> Seq<Seq<Seq<char>>> {
    Seq::new(bridges.len(), |i: int| bridge_row(bridges[i], i))
}

/// What bridges look like.
pub open spec fn bridges_text(bridges: Seq<BridgeModel>, baseline: nat) -> Seq<char> {
    if bridges.len() == 0 {
        header_text("🌉"@, "图中没有足够数据计算桥梁节点"@, ""@)
    } else {
        header_text(
            "🌉"@,
            "桥梁节点"@,
            "top "@ + decimal(bridges.len()),
        ) + "\n隐藏后连通分量从 "@ + decimal(baseline) + " 增加\n\n"@ + grid_text(
            "  "@,
            bridge_headers(),
            bridge_rows(bridges),
            visible_widths(bridge_headers()),
            cell_widths(bridge_rows(bridges)),
        )
    }
}

impl BridgesResult {
    /// The cells of the grid of the bridges.
    pub fn rows(&self) -> (r: Vec<Vec<String>>)
        ensures
            cells(r@) == bridge_rows(bridge_models(self.bridges@)),
    {
        let ghost bs = bridge_models(self.bridges@);
        let ghost want = bridge_rows(bs);
        let mut r: Vec<Vec<String>> = Vec::new();
        let mut i: usize = 0;
        while i < self.bridges.len()
            invariant
                i <= self.bridges@.len(),
                bs == bridge_models(self.bridges@),
                want == bridge_rows(bs),
                cells(r@) =~= want.take(i as int),
            decreases self.bridges@.len() - i,
        {
            let ghost r0 = cells(r@);
            let b = &self.bridges[i];
            assert(bs[i as int] == b@);
            let row: Vec<String> = vec![
                dim(cat2("#", dec((i + 1) as u64).as_str()).as_str()),
                blue(b.login.as_str()),
                number_of(b.following),
                number_of(b.followers),
                impact_color(b.impact),
            ];
            assert(views(row@) =~= bridge_row(b@, i as int));
            r.push(row);
            assert(cells(r@) =~= r0.push(bridge_row(b@, i as int)));
            i = i + 1;
        }
        assert(want.take(i as int) =~= want);
        r
    }

    /// What the bridges look like.
    pub fn render(&self) -> (s: String)
        ensures
            s@ == bridges_text(
                bridge_models(self.bridges@),
                self.baseline_components as nat,
            ),
    {
        if self.bridges.len() == 0 {
            return header("🌉", "图中没有足够数据计算桥梁节点", "");
        }
        let meta = cat2("top ", dec(self.bridges.len() as u64).as_str());
        let headers: Vec<String> = vec![
            dim("#"),
            bold("login"),
            bold("关注"),
            bold("粉丝"),
            bold("关键性"),
        ];
        assert(views(headers@) =~= bridge_headers());
        let rows = self.rows();
        cat5(
            header("🌉", "桥梁节点", meta.as_str()).as_str(),
            "\n隐藏后连通分量从 ",
            dec(self.baseline_components as u64).as_str(),
            " 增加\n\n",
            styled_grid("  ", &headers, rows.as_slice()).as_str(),
        )
    }
}

// ── Communities ─────────────────────────────────────────────────────────────

/// A community of the graph.
#[derive(Debug, Clone)]
pub struct Community {
    pub id: usize,
    pub size: usize,
    pub representatives: Vec<String>,
}

pub struct CommunityModel {
    pub id: nat,
    pub size: nat,
    pub representatives: Seq<Seq<char>>,
}

impl View for Community {
    type V = CommunityModel;

    open spec fn view(&self) -> CommunityModel {
        CommunityModel {
            id: self.id as nat,
            size: self.size as nat,
            representatives: views(self.representatives@),
        }
    }
}

/// The communities of the graph, or the one of a user.
#[derive(Debug, Clone)]
pub struct CommunitiesResult {
    pub communities: Vec<Community>,
    pub num_communities: usize,
    pub algorithm: String,
    /// The modularity in decimal notation.
    pub modularity: String,
    /// The bits of the modularity.
    pub modularity_bits: u64,
    pub user_login: Option<String>,
    pub user_community: Option<usize>,
    pub user_members: Option<Vec<String>>,
}

/// The models of a list of communities.
pub open spec fn community_models(s: Seq<Community>) -> Seq<CommunityModel> {
    s.map_values(|c: Community| c@)
}

/// The card of a community with its id and its representatives.
pub open spec fn community_card(id: nat, size: nat, names: Seq<Seq<char>>) -> Seq<char> {
    card_text(
        emboldened(decimal(id)) + "  "@ + grouped(decimal(size)) + " 人"@,
        seq![joined(names, ", "@) + " "@ + dimmed("为代表"@)],
    )
}

fn community_card_of(id: u64, size: u64, names: String) -> (r: String)
    ensures
        forall|list: Seq<Seq<char>>|
            names@ == #[trigger] joined(list, ", "@) ==> r@ == community_card(
                id as nat,
                size as nat,
                list,
            ),
{
    let head = cat4(bold(dec(id).as_str()).as_str(), "  ", num(size).as_str(), " 人");
    let line = cat3(names.as_str(), " ", dim("为代表").as_str());
    let ghost m = line@;
    let mut body: Vec<String> = Vec::new();
    body.push(line);
    assert(views(body@) =~= seq![m]);
    card(head.as_str(), body.as_slice())
}

/// The community of a user with all its members.
pub open spec fn user_community_text(
    login: Option<Seq<char>>,
    community: Option<usize>,
    members: Seq<Seq<char>>,
) -> Seq<char> {
    header_text(
        "🏘️"@,
        in_blue(match login {
            Some(l) => l,
            None => "?"@,
        }) + " 所在社区"@,
        ""@,
    ) + "\n\n"@ + community_card(
        match community {
            Some(id) => id as nat,
            None => 0,
        },
        members.len(),
        crate::graph::first_of(members, 3),
    ) + "\n\n  同社区成员:"@ + chained(
        Seq::new(members.len(), |i: int| "\n    "@ + members[i]),
    )
}

/// What the communities look like.
pub open spec fn communities_text(
    communities: Seq<CommunityModel>,
    count: nat,
    algorithm: Seq<char>,
    modularity: Seq<char>,
    bits: u64,
) -> Seq<char> {
    if communities.len() == 0 {
        header_text("🏘️"@, "图中没有检测到社区"@, ""@)
    } else {
        header_text(
            "🏘️"@,
            "社区发现"@,
            "共 "@ + decimal(count) + " 个社区"@,
        ) + "\n\n  "@ + algorithm + " 算法  "@ + dimmed("模块度"@) + "  Q = "@ + modularity_text(
            modularity,
            bits,
        ) + chained(
            Seq::new(
                communities.len(),
                |i: int|
                    "\n\n"@ + community_card(
                        communities[i].id,
                        communities[i].size,
                        communities[i].representatives,
                    ),
            ),
        ) + "\n\n仅显示前 "@ + dimmed(decimal(communities.len())) + " 个社区"@
    }
}

impl CommunitiesResult {
    fn render_user(&self, members: &Vec<String>) -> (s: String)
        ensures
            s@ == user_community_text(
                opt_text(self.user_login),
                self.user_community,
                views(members@),
            ),
    {
        let ghost ms = views(members@);
        let id: usize = match self.user_community {
            Some(id) => id,
            None => 0,
        };
        let n: usize = members.len();
        let shown: usize = if n < 3 {
            n
        } else {
            3
        };
        let reps = join_first(members.as_slice(), shown, ", ");
        assert(ms.take(shown as int) =~= crate::graph::first_of(ms, 3));
        let login: String = match &self.user_login {
            Some(l) => l.clone(),
            None => "?".to_owned(),
        };
        let title = cat2(blue(login.as_str()).as_str(), " 所在社区");
        let mut s = cat4(
            header("🏘️", title.as_str(), "").as_str(),
            "\n\n",
            community_card_of(id as u64, n as u64, reps).as_str(),
            "\n\n  同社区成员:",
        );
        let ghost head = s@;
        let ghost parts = Seq::new(ms.len(), |i: int| "\n    "@ + ms[i]);
        let mut i: usize = 0;
        proof {
            lemma_chained_ends(head, parts);
        }
        while i < n
            invariant
                i <= n,
                n == members@.len(),
                ms == views(members@),
                parts == Seq::new(ms.len(), |i: int| "\n    "@ + ms[i]),
                s@ == head + chained(parts.take(i as int)),
            decreases n - i,
        {
            assert(ms[i as int] == members@[i as int]@);
            let part = cat2("\n    ", members[i].as_str());
            assert(part@ == parts[i as int]);
            s.append(part.as_str());
            proof {
                lemma_chained_step(head, parts, i as int);
            }
            i = i + 1;
        }
        s
    }

    /// What the communities look like, or the one of a user where one was asked
    /// for.
    pub fn render(&self) -> (s: String)
        ensures
            match self.user_members {
                Some(members) => s@ == user_community_text(
                    opt_text(self.user_login),
                    self.user_community,
                    views(members@),
                ),
                None => s@ == communities_text(
                    community_models(self.communities@),
                    self.num_communities as nat,
                    self.algorithm@,
                    self.modularity@,
                    self.modularity_bits,
                ),
            },
    {
        if let Some(members) = &self.user_members {
            return self.render_user(members);
        }
        let n: usize = self.communities.len();
        if n == 0 {
            return header("🏘️", "图中没有检测到社区", "");
        }
        let meta = cat3("共 ", dec(self.num_communities as u64).as_str(), " 个社区");
        let mut s = cat7(
            header("🏘️", "社区发现", meta.as_str()).as_str(),
            "\n\n  ",
            self.algorithm.as_str(),
            " 算法  ",
            dim("模块度").as_str(),
            "  Q = ",
            modularity_color(self.modularity.as_str(), self.modularity_bits).as_str(),
        );
        let ghost head = s@;
        let ghost cs = community_models(self.communities@);
        let ghost parts = Seq::new(
            cs.len(),
            |i: int|
                "\n\n"@ + community_card(cs[i].id, cs[i].size, cs[i].representatives),
        );
        let mut i: usize = 0;
        proof {
            lemma_chained_ends(head, parts);
        }
        while i < n
            invariant
                i <= n,
                n == self.communities@.len(),
                cs == community_models(self.communities@),
                parts == Seq::new(
                    cs.len(),
                    |i: int|
                        "\n\n"@ + community_card(
                            cs[i].id,
                            cs[i].size,
                            cs[i].representatives,
                        ),
                ),
                s@ == head + chained(parts.take(i as int)),
            decreases n - i,
        {
            let c = &self.communities[i];
            assert(cs[i as int] == c@);
            let names = join(c.representatives.as_slice(), ", ");
            let part = cat2(
                "\n\n",
                community_card_of(c.id as u64, c.size as u64, names).as_str(),
            );
            assert(part@ == parts[i as int]);
            s.append(part.as_str());
            proof {
                lemma_chained_step(head, parts, i as int);
            }
            i = i + 1;
        }
        s.append("\n\n仅显示前 ");
        s.append(dim(dec(n as u64).as_str()).as_str());
        s.append(" 个社区");
        s
    }
}

// ── Figures ─────────────────────────────────────────────────────────────────

/// The figures that are fractions, in decimal notation.
#[derive(Debug, Clone)]
pub struct StatsTexts {
    /// The size of the database file in megabytes.
    pub megabytes: String,
    pub density: String,
    /// The bits of the density.
    pub density_bits: u64,
    /// The share of the largest component in per cent.
    pub largest_share: String,
    pub avg_out_degree: String,
    pub avg_in_degree: String,
}

/// The size of a file.
pub open spec fn size_text(bytes: nat, megabytes: Seq<char>) -> Seq<char> {
    if bytes > 1_000_000 {
        megabytes + " MB"@
    } else {
        decimal(bytes / 1000) + " KB"@
    }
}

/// The overview of the database.
pub open spec fn overview_text(s: StatsResult, t: StatsTexts) -> Seq<char> {
    block(
        "数据库概况"@,
        seq!["用户总数"@, "已爬"@, "排队"@, "度数范围"@, "数据库"@],
        seq![
            grouped(decimal(s.total_users as nat)),
            grouped(decimal(s.crawled as nat)),
            grouped(decimal(s.pending as nat)),
            decimal_int(s.min_degree as int) + "° ~ "@ + decimal_int(s.max_degree as int) + "°"@,
            size_text(s.file_size_bytes as nat, t.megabytes@),
        ],
    )
}

/// The figures of the graph.
pub open spec fn graph_text(s: StatsResult, t: StatsTexts) -> Seq<char> {
    block(
        "图统计"@,
        seq![
            "边数"@,
            "图密度"@,
            "连通分量数"@,
            "最大分量占比"@,
            "平均出度"@,
            "平均入度"@,
            "有出边的用户"@,
            "有入边的用户"@,
        ],
        seq![
            grouped(decimal(s.total_edges as nat)),
            density_text(t.density@, t.density_bits),
            grouped(decimal(s.connected_components as nat)),
            t.largest_share@ + "%"@,
            t.avg_out_degree@,
            t.avg_in_degree@,
            grouped(decimal(s.users_with_outgoing as nat)),
            grouped(decimal(s.users_with_incoming as nat)),
        ],
    )
}

/// The largest count, zero where there is none.
pub open spec fn top_count(d: Seq<DegreeDist>) -> int
    decreases d.len(),
{
    if d.len() == 0 {
        0
    } else if d.last().count > top_count(d.drop_last()) {
        d.last().count as int
    } else {
        top_count(d.drop_last())
    }
}

/// One line of the degree distribution.
pub open spec fn degree_line(d: DegreeDist, top: nat) -> Seq<char> {
    "\n    "@ + in_cyan(decimal_int(d.degree as int)) + "°  "@ + grouped(decimal(d.count as nat))
        + "  "@ + bar_text(d.count as nat, top, 30)
}

/// The degree distribution.
pub open spec fn distribution_text(d: Seq<DegreeDist>) -> Seq<char> {
    if d.len() == 0 {
        "\n  "@ + dimmed("（无数据）"@)
    } else {
        chained(Seq::new(d.len(), |i: int| degree_line(d[i], top_count(d) as nat)))
    }
}

/// What the figures look like.
pub open spec fn stats_text(s: StatsResult, t: StatsTexts) -> Seq<char> {
    header_text("📊"@, "gh6 数据库"@, ""@) + "\n\n"@ + overview_text(s, t) + "\n\n"@
        + section_text("度数分布"@) + distribution_text(s.degree_dist@) + "\n\n"@ + graph_text(s, t)
}

fn largest_count(d: &Vec<DegreeDist>) -> (r: i64)
    ensures
        r == top_count(d@),
        r >= 0,
        forall|i: int| 0 <= i < d@.len() ==> (#[trigger] d@[i]).count <= r,
{
    let mut r: i64 = 0;
    let mut i: usize = 0;
    assert(d@.take(0) =~= Seq::empty());
    while i < d.len()
        invariant
            i <= d@.len(),
            r >= 0,
            r == top_count(d@.take(i as int)),
            forall|k: int| 0 <= k < i ==> (#[trigger] d@[k]).count <= r,
        decreases d@.len() - i,
    {
        assert(d@.take(i + 1).drop_last() =~= d@.take(i as int));
        if d[i].count > r {
            r = d[i].count;
        }
        i = i + 1;
    }
    assert(d@.take(i as int) =~= d@);
    r
}

fn distribution_of(d: &Vec<DegreeDist>) -> (r: String)
    requires
        forall|i: int| 0 <= i < d@.len() ==> (#[trigger] d@[i]).count >= 0,
    ensures
        r@ == distribution_text(d@),
{
    if d.len() == 0 {
        return cat2("\n  ", dim("（无数据）").as_str());
    }
    let top: i64 = largest_count(d);
    let ghost parts = Seq::new(d@.len(), |i: int| degree_line(d@[i], top_count(d@) as nat));
    let mut s = String::new();
    let ghost empty = s@;
    let n: usize = d.len();
    let mut i: usize = 0;
    proof {
        lemma_chained_ends(empty, parts);
    }
    while i < n
        invariant
            i <= n,
            n == d@.len(),
            top == top_count(d@),
            top >= 0,
            forall|i: int| 0 <= i < d@.len() ==> 0 <= (#[trigger] d@[i]).count <= top,
            parts == Seq::new(d@.len(), |i: int| degree_line(d@[i], top_count(d@) as nat)),
            s@ == empty + chained(parts.take(i as int)),
        decreases n - i,
    {
        let x = &d[i];
        let count: u64 = x.count as u64;
        assert(0 <= d@[i as int].count <= top);
        assert(count == x.count);
        proof {
            if top > 0 {
                law_proportion_is_bounded(count as nat, top as nat, 30);
            }
        }
        let part = cat6(
            "\n    ",
            cyan(dec_int(x.degree as i64).as_str()).as_str(),
            "°  ",
            num(count).as_str(),
            "  ",
            bar(count, top as u64, 30).as_str(),
        );
        assert(part@ == parts[i as int]);
        s.append(part.as_str());
        proof {
            lemma_chained_step(empty, parts, i as int);
        }
        i = i + 1;
    }
    assert(empty + chained(parts) =~= chained(parts));
    s
}

impl StatsResult {
    /// What the figures look like.
    pub fn render(&self, texts: &StatsTexts) -> (s: String)
        requires
            forall|i: int|
                0 <= i < self.degree_dist@.len() ==> (#[trigger] self.degree_dist@[i]).count >= 0,
        ensures
            s@ == stats_text(*self, *texts),
    {
        let size: String = if self.file_size_bytes > 1_000_000 {
            cat2(texts.megabytes.as_str(), " MB")
        } else {
            cat2(dec(self.file_size_bytes / 1000).as_str(), " KB")
        };
        let range = cat4(
            dec_int(self.min_degree as i64).as_str(),
            "° ~ ",
            dec_int(self.max_degree as i64).as_str(),
            "°",
        );
        let overview: Vec<TreeItem> = vec![
            TreeItem::new("用户总数", num(self.total_users).as_str()),
            TreeItem::new("已爬", num(self.crawled).as_str()),
            TreeItem::new("排队", num(self.pending).as_str()),
            TreeItem::new("度数范围", range.as_str()),
            TreeItem::new("数据库", size.as_str()),
        ];
        assert(item_keys(overview@) =~= seq![
            "用户总数"@,
            "已爬"@,
            "排队"@,
            "度数范围"@,
            "数据库"@,
        ]);
        assert(item_values(overview@) =~= seq![
            grouped(decimal(self.total_users as nat)),
            grouped(decimal(self.crawled as nat)),
            grouped(decimal(self.pending as nat)),
            decimal_int(self.min_degree as int) + "° ~ "@ + decimal_int(self.max_degree as int)
                + "°"@,
            size_text(self.file_size_bytes as nat, texts.megabytes@),
        ]);
        let overview_block = tree_block("数据库概况", overview.as_slice());
        assert(overview_block@ == overview_text(*self, *texts));
        let share = cat2(texts.largest_share.as_str(), "%");
        let graph: Vec<TreeItem> = vec![
            TreeItem::new("边数", num(self.total_edges).as_str()),
            TreeItem::new(
                "图密度",
                density_color(texts.density.as_str(), texts.density_bits).as_str(),
            ),
            TreeItem::new("连通分量数", num(self.connected_components as u64).as_str()),
            TreeItem::new("最大分量占比", share.as_str()),
            TreeItem::new("平均出度", texts.avg_out_degree.as_str()),
            TreeItem::new("平均入度", texts.avg_in_degree.as_str()),
            TreeItem::new("有出边的用户", num(self.users_with_outgoing).as_str()),
            TreeItem::new("有入边的用户", num(self.users_with_incoming).as_str()),
        ];
        assert(item_keys(graph@) =~= seq![
            "边数"@,
            "图密度"@,
            "连通分量数"@,
            "最大分量占比"@,
            "平均出度"@,
            "平均入度"@,
            "有出边的用户"@,
            "有入边的用户"@,
        ]);
        assert(item_values(graph@) =~= seq![
            grouped(decimal(self.total_edges as nat)),
            density_text(texts.density@, texts.density_bits),
            grouped(decimal(self.connected_components as nat)),
            texts.largest_share@ + "%"@,
            texts.avg_out_degree@,
            texts.avg_in_degree@,
            grouped(decimal(self.users_with_outgoing as nat)),
            grouped(decimal(self.users_with_incoming as nat)),
        ]);
        let graph_block = tree_block("图统计", graph.as_slice());
        assert(graph_block@ == graph_text(*self, *texts));
        let mut s = cat6(
            header("📊", "gh6 数据库", "").as_str(),
            "\n\n",
            overview_block.as_str(),
            "\n\n",
            section("度数分布").as_str(),
            distribution_of(&self.degree_dist).as_str(),
        );
        s.append("\n\n");
        s.append(graph_block.as_str());
        s
    }
}

// ── Status ──────────────────────────────────────────────────────────────────

/// A time span until a point in the future, roughly.
pub open spec fn span_text(secs: nat) -> Seq<char> {
    if secs < 60 {
        decimal(secs) + "s"@
    } else if secs < 3600 {
        decimal(secs / 60) + "m "@ + decimal(secs % 60) + "s"@
    } else {
        decimal(secs / 3600) + "h "@ + decimal((secs % 3600) / 60) + "m"@
    }
}

/// When the requests are counted anew, where it is `now` and the clock of the
/// place shows `local` then.
pub open spec fn reset_text(reset_at: i64, now: i64, local: Seq<char>) -> Seq<char> {
    if reset_at == 0 {
        "（未知）"@
    } else {
        local + " (in "@ + span_text(
            if reset_at > now {
                (reset_at - now) as nat
            } else {
                0
            },
        ) + ")"@
    }
}

fn reset_of(reset_at: i64, now: i64, local: &str) -> (r: String)
    ensures
        r@ == reset_text(reset_at, now, local@),
{
    if reset_at == 0 {
        return "（未知）".to_owned();
    }
    let secs: u64 = if reset_at > now {
        (reset_at as i128 - now as i128) as u64
    } else {
        0
    };
    let span: String = if secs < 60 {
        cat2(dec(secs).as_str(), "s")
    } else if secs < 3600 {
        cat4(dec(secs / 60).as_str(), "m ", dec(secs % 60).as_str(), "s")
    } else {
        cat4(dec(secs / 3600).as_str(), "h ", dec((secs % 3600) / 60).as_str(), "m")
    };
    cat4(local, " (in ", span.as_str(), ")")
}

/// The rows of the status.
pub open spec fn status_values(s: StatusModel, now: i64, local: Seq<char>) -> Seq<Seq<char>> {
    seq![
        if s.paused {
            "⏸ 已暂停"@
        } else {
            "▶ 运行中"@
        },
        grouped(decimal(s.users_crawled as nat)),
        grouped(decimal(s.users_retry as nat)),
        grouped(decimal(s.users_error as nat)),
        grouped(decimal(s.users_queued as nat)),
        decimal_int(s.current_degree as int) + "°"@,
        crawling_text(s.currently_crawling),
        grouped(decimal(s.api_remaining as nat)) + " / "@ + grouped(decimal(s.api_limit as nat)),
        reset_text(s.api_reset_at, now, local),
        uptime_text(s.uptime_secs as nat),
    ]
}

/// Who is being crawled.
pub open spec fn crawling_text(o: Option<Seq<char>>) -> Seq<char> {
    match o {
        Some(login) => login,
        None => "（空闲）"@,
    }
}

/// The labels of the rows of the status.
pub open spec fn status_keys() -> Seq<Seq<char>> {
    seq![
        "服务状态"@,
        "已爬"@,
        "重试"@,
        "错误"@,
        "队列"@,
        "当前度数"@,
        "正在爬取"@,
        "API 剩余"@,
        "下次重置"@,
        "运行时间"@,
    ]
}

/// What the status looks like.
pub open spec fn status_text(s: StatusModel, now: i64, local: Seq<char>) -> Seq<char> {
    header_text("⏳"@, "gh6"@, ""@) + "\n\n"@ + block(
        "状态"@,
        status_keys(),
        status_values(s, now, local),
    )
}

impl StatusData {
    /// The rows of the status, where it is `now` and the clock of the place shows
    /// `local` when the requests are counted anew.
    pub fn rows(&self, now: i64, local: &str) -> (r: Vec<TreeItem>)
        ensures
            item_keys(r@) == status_keys(),
            item_values(r@) == status_values(self@, now, local@),
    {
        let state: &str = if self.paused {
            "⏸ 已暂停"
        } else {
            "▶ 运行中"
        };
        let currently: String = match &self.currently_crawling {
            Some(login) => login.clone(),
            None => "（空闲）".to_owned(),
        };
        let api = cat3(
            num(self.api_remaining as u64).as_str(),
            " / ",
            num(self.api_limit as u64).as_str(),
        );
        let degree = cat2(dec_int(self.current_degree as i64).as_str(), "°");
        let rows: Vec<TreeItem> = vec![
            TreeItem::new("服务状态", state),
            TreeItem::new("已爬", num(self.users_crawled).as_str()),
            TreeItem::new("重试", num(self.users_retry).as_str()),
            TreeItem::new("错误", num(self.users_error).as_str()),
            TreeItem::new("队列", num(self.users_queued).as_str()),
            TreeItem::new("当前度数", degree.as_str()),
            TreeItem::new("正在爬取", currently.as_str()),
            TreeItem::new("API 剩余", api.as_str()),
            TreeItem::new("下次重置", reset_of(self.api_reset_at, now, local).as_str()),
            TreeItem::new("运行时间", fmt_uptime(self.uptime_secs).as_str()),
        ];
        assert(item_keys(rows@) =~= status_keys());
        assert(item_values(rows@) =~= status_values(self@, now, local@));
        rows
    }

    /// What the status looks like, where it is `now` and the clock of the place
    /// shows `local` when the requests are counted anew.
    pub fn render(&self, now: i64, local: &str) -> (s: String)
        ensures
            s@ == status_text(self@, now, local@),
    {
        let rows = self.rows(now, local);
        cat3(
            header("⏳", "gh6", "").as_str(),
            "\n\n",
            tree_block("状态", rows.as_slice()).as_str(),
        )
    }
}

// ── What is seen of each result ─────────────────────────────────────────────

/// A path of so many users has one step fewer, and is told as their chain.
pub proof fn law_path_lines(p: PathModel, users: nat, i: int)
    ensures
        users > 0 ==> steps_text(users) == dimmed(decimal((users - 1) as nat) + " 步"@),
        steps_text(0) == dimmed(decimal(0) + " 步"@),
        path_line(p) == chain_text(Seq::new(p.path.len(), |k: int| p.path[k].login)) + "  "@
            + steps_text(p.path.len()),
        edge_lines(p).len() == p.edges.len(),
        0 <= i < p.edges.len() ==> edge_lines(p)[i] == edge_text(p.edges[i].0, p.edges[i].1),
        path_card(p) == card_text(path_line(p), edge_lines(p)),
        p.path.len() > 0 ==> match_card(p) == "  "@ + in_blue(p.path.last().login) + group_text(
            GroupModel { label: path_line(p), items: edge_lines(p) },
            0,
            1,
        ),
        p.path.len() == 0 ==> match_card(p) == "  "@ + in_blue("?"@) + group_text(
            GroupModel { label: path_line(p), items: edge_lines(p) },
            0,
            1,
        ),
{
    assert(p.path.map_values(|u: UserModel| u.login) =~= Seq::new(
        p.path.len(),
        |k: int| p.path[k].login,
    ));
}

/// A route shows all its paths below a header that says how many there are, and how many
/// of them are shown where these are fewer; a single one is told beside the header unless
/// somebody is between its ends who follows somebody or is followed. Where there is no
/// path the header says so, and nothing else is shown.
pub proof fn law_routes_are_shown(r: RouteModel)
    ensures
        route_title(r) == emboldened(r.from) + " 到 "@ + emboldened(in_green(r.query)),
        r.total > r.paths.len() ==> route_meta(r) == "共 "@ + decimal(r.total)
            + " 条路径，显示前 "@ + decimal(r.paths.len()) + " 条"@,
        r.total <= r.paths.len() ==> route_meta(r) == "共 "@ + decimal(r.total) + " 条路径"@,
        r.paths.len() == 0 && r.is_fuzzy ==> route_text(r) == header_text(
            "🔍"@,
            "未找到匹配「"@ + dimmed(r.query) + "」的用户"@,
            ""@,
        ),
        r.paths.len() == 0 && !r.is_fuzzy ==> route_text(r) == header_text(
            "🗺️"@,
            "未找到「"@ + dimmed(r.from) + "」到「"@ + dimmed(r.query) + "」的路径"@,
            ""@,
        ),
        r.paths.len() > 0 && r.is_fuzzy ==> route_text(r) == header_text(
            "🔍"@,
            "「"@ + dimmed(r.query) + "」找到 "@ + decimal(r.total) + " 个模糊匹配"@,
            ""@,
        ) + chained(Seq::new(r.paths.len(), |i: int| "\n\n"@ + match_card(r.paths[i]))),
        r.paths.len() > 1 && !r.is_fuzzy || r.paths.len() == 1 && r.total > 1 && !r.is_fuzzy
            ==> route_text(r) == header_text("🗺️"@, route_title(r), route_meta(r)) + chained(
            Seq::new(r.paths.len(), |i: int| "\n\n"@ + path_card(r.paths[i])),
        ),
        r.paths.len() == 1 && r.total <= 1 && !r.is_fuzzy && r.paths[0].path.len() > 2
            && r.paths[0].edges.len() > 0 ==> route_text(r) == header_text(
            "🗺️"@,
            route_title(r),
            ""@,
        ) + "\n\n"@ + path_card(r.paths[0]),
        r.paths.len() == 1 && r.total <= 1 && !r.is_fuzzy && (r.paths[0].path.len() <= 2
            || r.paths[0].edges.len() == 0) ==> route_text(r) == header_text(
            "🗺️"@,
            route_title(r),
            path_line(r.paths[0]),
        ),
{
}

/// A list is told with its size, and an empty one in a word.
pub proof fn law_titled_lists(label: Seq<char>, list: Seq<Seq<char>>)
    ensures
        list.len() > 0 ==> titled_list(label, list) == card_text(
            dimmed(label) + " "@ + decimal(list.len()) + " 人"@,
            list,
        ),
        list.len() == 0 ==> titled_list(label, list) == card_text(
            dimmed(label) + " "@ + decimal(0) + " 人"@,
            seq![dimmed("无"@)],
        ),
{
}

/// A character takes one byte below 128, two below 2048, three below 65536 and four from
/// there on, and a text the bytes of its characters.
pub proof fn law_bytes_are_counted(s: Seq<char>, c: char)
    ensures
        (c as u32) < 128 ==> char_bytes(c) == 1,
        128 <= c as u32 <= 2047 ==> char_bytes(c) == 2,
        2048 <= c as u32 <= 65535 ==> char_bytes(c) == 3,
        65536 <= c as u32 ==> char_bytes(c) == 4,
        text_bytes(Seq::empty()) == 0,
        text_bytes(s.push(c)) == text_bytes(s) + char_bytes(c),
{
    assert(s.push(c).drop_last() =~= s);
}

/// A date is the longest beginning of a timestamp of at most ten bytes.
pub proof fn law_date_is_the_longest_beginning(s: Seq<char>)
    ensures
        date_part(s) == s.take(date_part(s).len() as int),
        date_part(s).len() <= s.len(),
        text_bytes(date_part(s)) <= 10,
        forall|n: int| date_part(s).len() < n <= s.len() ==> text_bytes(#[trigger] s.take(n)) > 10,
    decreases s.len(),
{
    assert(s.take(s.len() as int) =~= s);
    if text_bytes(s) > 10 {
        let rest = s.drop_last();
        law_date_is_the_longest_beginning(rest);
        let m = date_part(s).len() as int;
        assert(rest.take(m) =~= s.take(m));
        assert forall|n: int| m < n <= s.len() implies text_bytes(#[trigger] s.take(n)) > 10 by {
            if n < s.len() {
                assert(rest.take(n) =~= s.take(n));
            }
        }
    }
}

/// What is missing has a mark, and what is there is told as it is, numbers with commas.
pub proof fn law_missing_facts_have_a_mark(text: Seq<char>, n: i64, places: nat)
    requires
        n >= 0,
    ensures
        or_dash(Some(text)) == text,
        or_dash(None) == dimmed("—"@),
        created_text(Some(text)) == date_part(text),
        created_text(None) == dimmed("—"@),
        count_text(Some(n)) == grouped(decimal(n as nat)),
        count_text(None) == dimmed("—"@),
        count_places(Some(n)) == grouped(decimal(n as nat)).len(),
        count_places(None) == 1,
        number_or_zero(Some(n)) == grouped(decimal(n as nat)),
        number_or_zero(None) == grouped(decimal(0)),
        count_at_right(Some(n), places) == padded_left(
            grouped(decimal(n as nat)),
            grouped(decimal(n as nat)).len(),
            places,
        ),
        count_at_right(None, places) == padded_left(dimmed("—"@), 1, places),
{
}

/// All names are shown up to the limit, and beyond it the first ones and how many more
/// there are. The limit is ten, unless the details are asked for.
pub proof fn law_shown_names(names: Seq<Seq<char>>, max: nat)
    ensures
        names.len() <= max ==> shown_names(names, max) == names,
        names.len() > max ==> shown_names(names, max).len() == max + 1 && shown_names(
            names,
            max,
        ).drop_last() == names.take(max as int) && shown_names(names, max).last() == dimmed(
            "等 "@ + decimal((names.len() - max) as nat) + " 人"@,
        ),
        name_limit(false) == 10,
        name_limit(true) == usize::MAX,
{
    if names.len() > max {
        assert(shown_names(names, max).drop_last() =~= names.take(max as int));
    }
}

/// A name is left out exactly when the other list holds it, and the others keep their
/// order.
pub proof fn law_names_without_others(
    names: Seq<Seq<char>>,
    others: Seq<Seq<char>>,
    name: Seq<char>,
)
    ensures
        names.len() == 0 ==> names_without(names, others).len() == 0,
        others.contains(name) ==> names_without(names.push(name), others) == names_without(
            names,
            others,
        ),
        !others.contains(name) ==> names_without(names.push(name), others) == names_without(
            names,
            others,
        ).push(name),
{
    let p = |s: Seq<char>| !others.contains(s);
    let all = names.push(name);
    lemma_filter_step(all, p, names.len() as int);
    assert(all.take(names.len() as int) =~= names);
    assert(all.take(all.len() as int) =~= all);
    crate::lists::lemma_filter_holds(names, p);
}

/// Around a user stand those only followed, those followed who follow back, and those who
/// only follow, each group with its size; a group without anybody is left out.
pub proof fn law_groups_around_a_user(
    following: Seq<Seq<char>>,
    mutual: Seq<Seq<char>>,
    followers: Seq<Seq<char>>,
    mark: Seq<char>,
    label: Seq<char>,
    max: nat,
)
    ensures
        social(following, mutual, followers, max) == name_group(
            in_green("→"@),
            "关注"@,
            names_without(following, mutual),
            max,
        ) + name_group(in_yellow("⇄"@), "互关"@, mutual, max) + name_group(
            in_cyan("←"@),
            "粉丝"@,
            names_without(followers, following),
            max,
        ),
        mutual.len() == 0 ==> name_group(mark, label, mutual, max).len() == 0,
        mutual.len() > 0 ==> ({
            let g = name_group(mark, label, mutual, max);
            &&& g.len() == 1
            &&& g[0].items == shown_names(mutual, max)
            &&& g[0].label == emboldened(mark + " "@ + label) + " "@ + dimmed(
                decimal(mutual.len()) + " 人"@,
            )
        }),
{
}

/// What is known of a user stands under its own label.
pub proof fn law_user_facts_have_their_labels(d: UserProfileModel, detail: bool)
    ensures
        info_block(d) == tree_text(
            "基本信息"@,
            seq!["姓名"@, "公司"@, "所在地"@, "账号创建"@],
            seq![
                or_dash(d.name),
                or_dash(d.company),
                or_dash(d.location),
                created_text(d.created_at),
            ],
            widths_of(seq!["姓名"@, "公司"@, "所在地"@, "账号创建"@]),
        ),
        figures_block(d) == tree_text(
            "统计"@,
            seq!["关注"@, "粉丝"@, "公开仓库"@],
            figures(d),
            widths_of(seq!["关注"@, "粉丝"@, "公开仓库"@]),
        ),
        ({
            let places = larger(
                larger(count_places(d.following_count), count_places(d.followers_count)),
                count_places(d.public_repos),
            );
            let held = larger(
                decimal(d.crawled_following).len(),
                decimal(d.crawled_followers).len(),
            );
            &&& figures(d).len() == 3
            &&& figures(d)[0] == count_at_right(d.following_count, places) + " 人  "@
                + fetched_text(d.crawled_following, held)
            &&& figures(d)[1] == count_at_right(d.followers_count, places) + " 人  "@
                + fetched_text(d.crawled_followers, held)
            &&& figures(d)[2] == count_at_right(d.public_repos, places) + " 个"@
        }),
        user_text(d, detail) == header_text("👤"@, in_blue(d.login), ""@) + "\n\n"@
            + info_block(d) + "\n\n"@ + figures_block(d) + "\n\n"@ + nested_text(
            "社交关系"@,
            social(d.following, d.mutual, d.followers, name_limit(detail)),
        ),
{
}

/// The larger of two numbers is one of them and not below the other; and how many users
/// are held is told at the right end of its places.
pub proof fn law_larger_and_held(a: nat, b: nat)
    ensures
        larger(a, b) >= a && larger(a, b) >= b,
        larger(a, b) == a || larger(a, b) == b,
        fetched_text(a, b) == dimmed(
            "已获取 "@ + padded_left(decimal(a), decimal(a).len(), b) + " 人"@,
        ),
{
}

/// Suggestions are shown one card each, with a bar of seven places and three friends at
/// most by name, below on whom they rest; where nobody is followed, and where there are no
/// suggestions, a header says so.
pub proof fn law_suggestions_are_shown(
    r: SuggestModel,
    s: SuggestionModel,
    pad: nat,
    widths: Seq<nat>,
)
    ensures
        s.mutual_friends.len() == 0 ==> friends_text(s.mutual_friends) == dimmed("无"@),
        s.mutual_friends.len() > 0 ==> friends_text(s.mutual_friends) == dimmed(
            list_text(s.mutual_friends, 3) + " 也关注了 ta"@,
        ),
        suggestion_card(s, pad) == card_text(
            in_blue(s.login) + blanks(pad) + "  "@ + weight_bar_text(s.filled, 7) + "  "@
                + s.weight,
            seq![friends_text(s.mutual_friends)],
        ),
        suggest_note(r) == "基于 "@ + dimmed(decimal(r.based_on)) + " 个关注者，覆盖 "@
            + dimmed(grouped(decimal(r.candidates))) + " 个候选"@,
        r.based_on == 0 ==> suggest_text(r, widths) == header_text(
            "💡"@,
            dimmed(r.user) + " 没有关注任何人，无法推荐"@,
            ""@,
        ),
        r.based_on > 0 && r.suggestions.len() == 0 ==> suggest_text(r, widths) == header_text(
            "💡"@,
            "暂无推荐，试试先多爬些数据"@,
            ""@,
        ),
        r.based_on > 0 && r.suggestions.len() > 0 ==> suggest_text(r, widths) == header_text(
            "💡"@,
            "基于 "@ + in_blue(r.user) + " 的社交圈推荐"@,
            "top "@ + decimal(r.suggestions.len()),
        ) + chained(
            Seq::new(
                r.suggestions.len(),
                |i: int|
                    "\n\n"@ + suggestion_card(
                        r.suggestions[i],
                        (widest(widths) - widths[i]) as nat,
                    ),
            ),
        ) + "\n\n"@ + suggest_note(r),
{
}

/// A bridge is shown with its place from one on, its login, whom it follows, who follows
/// it and its impact, each in the column of its header.
pub proof fn law_bridges_are_shown(bridges: Seq<BridgeModel>, baseline: nat, i: int)
    ensures
        bridge_rows(bridges).len() == bridges.len(),
        0 <= i < bridges.len() ==> bridge_rows(bridges)[i] == seq![
            dimmed("#"@ + decimal((i + 1) as nat)),
            in_blue(bridges[i].login),
            number_or_zero(bridges[i].following),
            number_or_zero(bridges[i].followers),
            impact_text(bridges[i].impact),
        ],
        bridge_headers() == seq![
            dimmed("#"@),
            emboldened("login"@),
            emboldened("关注"@),
            emboldened("粉丝"@),
            emboldened("关键性"@),
        ],
        bridges.len() == 0 ==> bridges_text(bridges, baseline) == header_text(
            "🌉"@,
            "图中没有足够数据计算桥梁节点"@,
            ""@,
        ),
        bridges.len() > 0 ==> bridges_text(bridges, baseline) == header_text(
            "🌉"@,
            "桥梁节点"@,
            "top "@ + decimal(bridges.len()),
        ) + "\n隐藏后连通分量从 "@ + decimal(baseline) + " 增加\n\n"@ + grid_text(
            "  "@,
            bridge_headers(),
            bridge_rows(bridges),
            visible_widths(bridge_headers()),
            cell_widths(bridge_rows(bridges)),
        ),
{
}

/// A community is shown with its id, its size and its representatives; that of a user with
/// three of its members for it, and below it all of them.
pub proof fn law_communities_are_shown(
    communities: Seq<CommunityModel>,
    count: nat,
    algorithm: Seq<char>,
    modularity: Seq<char>,
    bits: u64,
    login: Seq<char>,
    id: usize,
    members: Seq<Seq<char>>,
)
    ensures
        community_card(count, id as nat, members) == card_text(
            emboldened(decimal(count)) + "  "@ + grouped(decimal(id as nat)) + " 人"@,
            seq![joined(members, ", "@) + " "@ + dimmed("为代表"@)],
        ),
        user_community_text(Some(login), Some(id), members) == header_text(
            "🏘️"@,
            in_blue(login) + " 所在社区"@,
            ""@,
        ) + "\n\n"@ + community_card(
            id as nat,
            members.len(),
            if members.len() <= 3 {
                members
            } else {
                members.take(3)
            },
        ) + "\n\n  同社区成员:"@ + chained(
            Seq::new(members.len(), |i: int| "\n    "@ + members[i]),
        ),
        communities.len() == 0 ==> communities_text(
            communities,
            count,
            algorithm,
            modularity,
            bits,
        ) == header_text("🏘️"@, "图中没有检测到社区"@, ""@),
        communities.len() > 0 ==> communities_text(
            communities,
            count,
            algorithm,
            modularity,
            bits,
        ) == header_text(
            "🏘️"@,
            "社区发现"@,
            "共 "@ + decimal(count) + " 个社区"@,
        ) + "\n\n  "@ + algorithm + " 算法  "@ + dimmed("模块度"@) + "  Q = "@
            + modularity_text(modularity, bits) + chained(
            Seq::new(
                communities.len(),
                |i: int|
                    "\n\n"@ + community_card(
                        communities[i].id,
                        communities[i].size,
                        communities[i].representatives,
                    ),
            ),
        ) + "\n\n仅显示前 "@ + dimmed(decimal(communities.len())) + " 个社区"@,
{
    assert(crate::graph::first_of(members, 3) =~= if members.len() <= 3 {
        members
    } else {
        members.take(3)
    });
}

/// A size is told in megabytes above a million bytes, and in whole kilobytes up to there.
pub proof fn law_sizes(bytes: nat, megabytes: Seq<char>)
    ensures
        bytes > 1_000_000 ==> size_text(bytes, megabytes) == megabytes + " MB"@,
        bytes <= 1_000_000 ==> size_text(bytes, megabytes) == decimal(bytes / 1000) + " KB"@,
{
}

/// Each figure stands under its own label.
pub proof fn law_figures_have_their_labels(s: StatsResult, t: StatsTexts)
    ensures
        overview_text(s, t) == tree_text(
            "数据库概况"@,
            seq!["用户总数"@, "已爬"@, "排队"@, "度数范围"@, "数据库"@],
            seq![
                grouped(decimal(s.total_users as nat)),
                grouped(decimal(s.crawled as nat)),
                grouped(decimal(s.pending as nat)),
                decimal_int(s.min_degree as int) + "° ~ "@ + decimal_int(s.max_degree as int)
                    + "°"@,
                size_text(s.file_size_bytes as nat, t.megabytes@),
            ],
            widths_of(seq!["用户总数"@, "已爬"@, "排队"@, "度数范围"@, "数据库"@]),
        ),
        graph_text(s, t) == ({
            let keys = seq![
                "边数"@,
                "图密度"@,
                "连通分量数"@,
                "最大分量占比"@,
                "平均出度"@,
                "平均入度"@,
                "有出边的用户"@,
                "有入边的用户"@,
            ];
            tree_text(
                "图统计"@,
                keys,
                seq![
                    grouped(decimal(s.total_edges as nat)),
                    density_text(t.density@, t.density_bits),
                    grouped(decimal(s.connected_components as nat)),
                    t.largest_share@ + "%"@,
                    t.avg_out_degree@,
                    t.avg_in_degree@,
                    grouped(decimal(s.users_with_outgoing as nat)),
                    grouped(decimal(s.users_with_incoming as nat)),
                ],
                widths_of(keys),
            )
        }),
        stats_text(s, t) == header_text("📊"@, "gh6 数据库"@, ""@) + "\n\n"@
            + overview_text(s, t) + "\n\n"@ + section_text("度数分布"@) + distribution_text(
            s.degree_dist@,
        ) + "\n\n"@ + graph_text(s, t),
{
}

/// The largest count is at least as large as each and is one of them; by it each degree
/// has a bar of up to thirty places.
pub proof fn law_distribution_is_shown(d: Seq<DegreeDist>, i: int)
    ensures
        forall|k: int| 0 <= k < d.len() ==> (#[trigger] d[k]).count <= top_count(d),
        top_count(d) >= 0,
        top_count(d) == 0 || exists|k: int|
            0 <= k < d.len() && (#[trigger] d[k]).count == top_count(d),
        d.len() == 0 ==> distribution_text(d) == "\n  "@ + dimmed("（无数据）"@),
        d.len() > 0 ==> distribution_text(d) == chained(
            Seq::new(
                d.len(),
                |k: int|
                    "\n    "@ + in_cyan(decimal_int(d[k].degree as int)) + "°  "@ + grouped(
                        decimal(d[k].count as nat),
                    ) + "  "@ + bar_text(d[k].count as nat, top_count(d) as nat, 30),
            ),
        ),
{
    lemma_top_count(d);
    assert(Seq::new(d.len(), |k: int| degree_line(d[k], top_count(d) as nat)) =~= Seq::new(
        d.len(),
        |k: int|
            "\n    "@ + in_cyan(decimal_int(d[k].degree as int)) + "°  "@ + grouped(
                decimal(d[k].count as nat),
            ) + "  "@ + bar_text(d[k].count as nat, top_count(d) as nat, 30),
    ));
}

proof fn lemma_top_count(d: Seq<DegreeDist>)
    ensures
        forall|k: int| 0 <= k < d.len() ==> (#[trigger] d[k]).count <= top_count(d),
        top_count(d) >= 0,
        top_count(d) == 0 || exists|k: int|
            0 <= k < d.len() && (#[trigger] d[k]).count == top_count(d),
    decreases d.len(),
{
    if d.len() > 0 {
        let rest = d.drop_last();
        lemma_top_count(rest);
        assert forall|k: int| 0 <= k < d.len() implies (#[trigger] d[k]).count <= top_count(d) by {
            if k < rest.len() {
                assert(rest[k] == d[k]);
            }
        }
        if d.last().count > top_count(rest) {
            assert(d[d.len() - 1].count == top_count(d));
        } else if top_count(rest) != 0 {
            let k = choose|k: int|
                0 <= k < rest.len() && (#[trigger] rest[k]).count == top_count(rest);
            assert(d[k].count == top_count(d));
        }
    }
}

/// A span is told in seconds below a minute, in minutes and seconds below an hour, and in
/// hours and minutes from there on.
pub proof fn law_spans_add_up(h: nat, m: nat, s: nat)
    requires
        m < 60,
        s < 60,
    ensures
        h > 0 ==> span_text(3600 * h + 60 * m + s) == decimal(h) + "h "@ + decimal(m) + "m"@,
        m > 0 ==> span_text(60 * m + s) == decimal(m) + "m "@ + decimal(s) + "s"@,
        span_text(s) == decimal(s) + "s"@,
{
    let t = 3600 * h + 60 * m + s;
    assert(t / 3600 == h && t % 3600 == 60 * m + s);
    assert((60 * m + s) / 60 == m);
    assert((60 * m + s) % 60 == s);
}

/// When the requests are counted anew is told by the clock and by how long it takes, no
/// time at all where it is past, and is unknown where it is zero.
pub proof fn law_reset_is_told(reset_at: i64, now: i64, local: Seq<char>)
    ensures
        reset_text(0, now, local) == "（未知）"@,
        reset_at != 0 && reset_at > now ==> reset_text(reset_at, now, local) == local + " (in "@
            + span_text((reset_at - now) as nat) + ")"@,
        reset_at != 0 && reset_at <= now ==> reset_text(reset_at, now, local) == local + " (in "@
            + span_text(0) + ")"@,
{
}

/// Each row of the status stands under its own label.
pub proof fn law_status_rows_have_their_labels(s: StatusModel, now: i64, local: Seq<char>)
    ensures
        ({
            let (k, v) = (status_keys(), status_values(s, now, local));
            &&& k.len() == 10 && v.len() == 10
            &&& k[0] == "服务状态"@ && v[0] == (if s.paused {
                "⏸ 已暂停"@
            } else {
                "▶ 运行中"@
            })
            &&& k[1] == "已爬"@ && v[1] == grouped(decimal(s.users_crawled as nat))
            &&& k[2] == "重试"@ && v[2] == grouped(decimal(s.users_retry as nat))
            &&& k[3] == "错误"@ && v[3] == grouped(decimal(s.users_error as nat))
            &&& k[4] == "队列"@ && v[4] == grouped(decimal(s.users_queued as nat))
            &&& k[5] == "当前度数"@ && v[5] == decimal_int(s.current_degree as int) + "°"@
            &&& k[6] == "正在爬取"@ && v[6] == (match s.currently_crawling {
                Some(login) => login,
                None => "（空闲）"@,
            })
            &&& k[7] == "API 剩余"@ && v[7] == grouped(decimal(s.api_remaining as nat)) + " / "@
                + grouped(decimal(s.api_limit as nat))
            &&& k[8] == "下次重置"@ && v[8] == reset_text(s.api_reset_at, now, local)
            &&& k[9] == "运行时间"@ && v[9] == uptime_text(s.uptime_secs as nat)
        }),
        status_text(s, now, local) == header_text("⏳"@, "gh6"@, ""@) + "\n\n"@ + tree_text(
            "状态"@,
            status_keys(),
            status_values(s, now, local),
            widths_of(status_keys()),
        ),
{
}

/// The models of results keep what they are of, each under its own name.
pub proof fn law_result_models_keep_the_fields(
    r: RouteResult,
    s: Suggestion,
    all: SuggestResult,
    b: Bridge,
    c: Community,
    i: int,
)
    ensures
        r@.from == r.from@ && r@.query == r.query@ && r@.is_fuzzy == r.is_fuzzy,
        r@.total == r.total && r@.paths.len() == r.paths@.len(),
        0 <= i < r.paths@.len() ==> r@.paths[i] == r.paths@[i]@,
        s@.login == s.login@ && s@.weight == s.weight@ && s@.filled == s.filled,
        s@.mutual_friends == views(s.mutual_friends@),
        all@.user == all.user@ && all@.based_on == all.based_on,
        all@.candidates == all.candidates,
        all@.suggestions.len() == all.suggestions@.len(),
        0 <= i < all.suggestions@.len() ==> all@.suggestions[i] == all.suggestions@[i]@,
        b@.login == b.login@ && b@.following == b.following && b@.followers == b.followers,
        b@.impact == b.impact,
        c@.id == c.id && c@.size == c.size && c@.representatives == views(c.representatives@),
{
}

/// The models of lists keep what they are of, at its place.
pub proof fn law_view_models_keep_the_places(
    bridges: Seq<Bridge>,
    communities: Seq<Community>,
    i: int,
)
    ensures
        bridge_models(bridges).len() == bridges.len(),
        0 <= i < bridges.len() ==> bridge_models(bridges)[i] == bridges[i]@,
        community_models(communities).len() == communities.len(),
        0 <= i < communities.len() ==> community_models(communities)[i] == communities[i]@,
{
}

} // verus!
