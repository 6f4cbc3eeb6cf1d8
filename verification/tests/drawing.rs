//! Drawing primitives.
use gh6::display::{
    align_grid, align_grid_with, bar, blue, bold, card, cyan, density_color, dim, directed_edge,
    grid_with, strip, styled_grid, visible_width,
    fmt_uptime, footer, green, header, impact_color, kv_grid, kv_grid_with, modularity_color,
    nested_tree, num, pad_left, pad_left_with, pad_right, pad_right_with, path_chain, red, section,
    spacer, target, tree_block, tree_block_with, truncate_list, truncate_str, truncate_with,
    weight_bar, yellow, TreeGroup, TreeItem,
};
use gh6::order::text_at_most;
use gh6::text::{dec, dec_int, join, trim};

fn strings(items: &[&str]) -> Vec<String> {
    items.iter().map(|s| s.to_string()).collect()
}

#[test]
fn styles_wrap_the_text_in_escape_sequences() {
    assert_eq!(dim("x"), "\u{1b}[2mx\u{1b}[0m");
    assert_eq!(bold("x"), "\u{1b}[1mx\u{1b}[0m");
    assert_eq!(red("x"), "\u{1b}[31mx\u{1b}[39m");
    assert_eq!(green("x"), "\u{1b}[32mx\u{1b}[39m");
    assert_eq!(yellow("x"), "\u{1b}[33mx\u{1b}[39m");
    assert_eq!(blue("x"), "\u{1b}[34mx\u{1b}[39m");
    assert_eq!(cyan("x"), "\u{1b}[36mx\u{1b}[39m");
    assert_eq!(target("x"), bold(&green("x")));
}

#[test]
fn numbers_are_grouped_by_thousands() {
    assert_eq!(num(0), "0");
    assert_eq!(num(999), "999");
    assert_eq!(num(1000), "1,000");
    assert_eq!(num(12_345), "12,345");
    assert_eq!(num(123_456), "123,456");
    assert_eq!(num(u64::MAX), "18,446,744,073,709,551,615");
}

#[test]
fn grouping_keeps_the_digits() {
    for n in [7u64, 1_234, 98_765_432, u64::MAX] {
        assert_eq!(num(n).replace(',', ""), n.to_string());
    }
}

#[test]
fn decimal_notation() {
    assert_eq!(dec(0), "0");
    assert_eq!(dec(u64::MAX), "18446744073709551615");
    assert_eq!(dec_int(-1), "-1");
    assert_eq!(dec_int(i64::MIN), "-9223372036854775808");
    assert_eq!(dec_int(i64::MAX), "9223372036854775807");
}

#[test]
fn white_space_is_trimmed_at_both_ends() {
    assert_eq!(trim(" \t a b \u{3000}\n"), "a b");
    assert_eq!(trim("   "), "");
    assert_eq!(trim("x"), "x");
    for c in '\0'..=char::MAX {
        assert_eq!(trim(&c.to_string()).is_empty(), c.is_whitespace());
    }
}

#[test]
fn joining_puts_the_separator_between() {
    assert_eq!(join(&strings(&["a", "b", "c"]), ", "), "a, b, c");
    assert_eq!(join(&strings(&["a"]), ", "), "a");
    assert_eq!(join(&[], ", "), "");
}

#[test]
fn texts_are_ordered_like_their_bytes() {
    for (a, b) in [("", "a"), ("Z", "a"), ("a", "ab"), ("ab", "b"), ("z", "é"), ("é", "中")] {
        assert!(text_at_most(a, b));
        assert!(!text_at_most(b, a));
        assert!(a.as_bytes() < b.as_bytes());
    }
    assert!(text_at_most("a", "a"));
}

#[test]
fn densities_have_colours() {
    let color = |d: f64| density_color(&format!("{d:.6}"), d.to_bits());
    assert_eq!(color(0.002), green("0.002000"));
    assert_eq!(color(0.001), yellow("0.001000"));
    assert_eq!(color(0.0005), yellow("0.000500"));
    assert_eq!(color(0.0001), red("0.000100"));
    assert_eq!(color(0.0), red("0.000000"));
}

#[test]
fn modularities_have_colours() {
    let color = |q: f64| modularity_color(&format!("{q:.4}"), q.to_bits());
    assert_eq!(color(0.51), green("0.5100"));
    assert_eq!(color(0.5), yellow("0.5000"));
    assert_eq!(color(0.31), yellow("0.3100"));
    assert_eq!(color(0.3), dim("0.3000"));
    assert_eq!(color(-0.9), dim("-0.9000"));
    assert_eq!(color(f64::NAN), dim("NaN"));
}

#[test]
fn impacts_have_colours() {
    assert_eq!(impact_color(0), "+0");
    assert_eq!(impact_color(99), "+99");
    assert_eq!(impact_color(100), yellow("+100"));
    assert_eq!(impact_color(999), yellow("+999"));
    assert_eq!(impact_color(1000), red("+1000"));
}

#[test]
fn headers_show_the_meta_part_dimmed() {
    assert_eq!(header("📊", "title", ""), "📊 title");
    assert_eq!(header("📊", "title", "meta"), format!("📊 title  {}", dim("meta")));
}

#[test]
fn sections_spacers_and_footers() {
    assert_eq!(section("基本信息"), format!("  {}", bold("基本信息")));
    assert_eq!(spacer(), "\n\n");
    assert_eq!(footer("note"), format!("\n\n{}", dim("note")));
}

#[test]
fn tree_blocks_align_their_values() {
    let items = [TreeItem::new("a", "1"), TreeItem::new("姓名", "2"), TreeItem::new("bcd", "3")];
    assert_eq!(
        tree_block("T", &items),
        format!("  {}\n  ├ a     1\n  ├ 姓名  2\n  └ bcd   3", bold("T"))
    );
    assert_eq!(tree_block("T", &[]), section("T"));
    assert_eq!(tree_block_with("T", &items, &vec![1, 4, 3]), tree_block("T", &items));
}

#[test]
fn nested_trees_have_two_levels() {
    let groups = [
        TreeGroup { label: "one".to_string(), items: strings(&["a", "b"]) },
        TreeGroup { label: "two".to_string(), items: vec![] },
        TreeGroup { label: "three".to_string(), items: strings(&["c"]) },
    ];
    assert_eq!(
        nested_tree("T", &groups),
        format!(
            "  {}\n  ├ one\n  │   ├ a\n  │   └ b\n  ├ two\n  └ three\n      └ c",
            bold("T")
        )
    );
}

#[test]
fn cards_have_a_head_and_a_body() {
    assert_eq!(card("head", &[]), "  head");
    assert_eq!(card("head", &strings(&["a", "b"])), "  head\n  ├ a\n  └ b");
}

#[test]
fn grids_align_their_columns() {
    let rows = vec![strings(&["x", "long"]), strings(&["关注", "y"])];
    let expected = format!("{}     {}\nx     long\n关注  y", dim("a"), dim("b"));
    assert_eq!(align_grid(&["a", "b"], &rows), expected);
    let widths = vec![vec![1, 4], vec![4, 1]];
    assert_eq!(align_grid_with(&["a", "b"], &rows, &vec![1, 1], &widths), expected);
    assert_eq!(align_grid(&["only"], &[]), dim("only"));
}

#[test]
fn styles_do_not_count_for_the_width() {
    let rows = vec![vec![blue("ab"), "1".to_string()], vec!["abcd".to_string(), red("2")]];
    assert_eq!(
        align_grid(&["x", "y"], &rows),
        format!("{}     {}\n{}    1\nabcd  {}", dim("x"), dim("y"), blue("ab"), red("2"))
    );
    let headers = vec![bold("x"), "y".to_string()];
    let expected = format!("  {}     y\n  {}    1\n  abcd  {}", bold("x"), blue("ab"), red("2"));
    assert_eq!(styled_grid("  ", &headers, &rows), expected);
    let widths = vec![vec![2, 1], vec![4, 1]];
    assert_eq!(grid_with("  ", &headers, &rows, &vec![1, 1], &widths), expected);
}

#[test]
fn style_sequences_are_not_shown() {
    assert_eq!(strip(&target("中文")), "中文");
    assert_eq!(strip(&format!("a{}b{}", dim("-"), cyan("c"))), "a-bc");
    assert_eq!(strip("plain [0m"), "plain [0m");
    assert_eq!(strip("a\u{1b}[1;31mb\u{1b}[0m"), "ab");
    assert_eq!(strip("\u{1b}"), "");
    assert_eq!(visible_width(&bold(&red("中文x"))), 5);
    assert_eq!(visible_width(""), 0);
}

#[test]
fn pairs_are_aligned_by_their_keys() {
    let items = [TreeItem::new("已爬", "1"), TreeItem::new("用户总数", "2")];
    assert_eq!(kv_grid(&items), "  已爬      1\n  用户总数  2");
    assert_eq!(kv_grid_with(&items, &vec![4, 8]), kv_grid(&items));
    assert_eq!(kv_grid(&[]), "");
}

#[test]
fn bars_are_proportional() {
    assert_eq!(bar(10, 10, 4), dim("████"));
    assert_eq!(bar(5, 10, 4), dim("██"));
    assert_eq!(bar(0, 10, 4), dim("█"));
    assert_eq!(bar(1, 3, 10), dim("███"));
    assert_eq!(bar(20, 10, 4), dim("████████"));
    assert_eq!(bar(29, 100, 100), dim(&"█".repeat(28)));
    assert_eq!(bar(1, 0, 4), "");
    assert_eq!(bar(1, 1, 0), "");
}

#[test]
fn bars_round_as_double_precision_does() {
    let places = |value: u64, max: u64, width: usize| {
        (((value as f64 / max as f64) * width as f64) as usize).max(1)
    };
    for value in 0..120u64 {
        for max in [1, 3, 7, 49, 100, 101] {
            for width in [1, 7, 30, 100] {
                let expected = dim(&"█".repeat(places(value, max, width)));
                assert_eq!(bar(value, max, width), expected);
            }
        }
    }
    let large = [1, (1 << 53) - 1, (1 << 53) + 1, (1 << 60) + 129, u64::MAX - 1024, u64::MAX];
    for value in large {
        for max in large {
            let n = places(value, max, 30);
            if n < 10_000 {
                assert_eq!(bar(value, max, 30), dim(&"█".repeat(n)));
            }
        }
    }
}

#[test]
fn shades_round_as_single_precision_does() {
    for width in [1, 2, 3, 7, 10, 33, 50, 100, 200, 300] {
        let expected: String = (0..width)
            .map(|i| {
                let ratio = i as f32 / width as f32;
                if ratio < 0.33 {
                    green("█")
                } else if ratio < 0.66 {
                    yellow("█")
                } else {
                    red("█")
                }
            })
            .collect();
        assert_eq!(weight_bar(width, width), expected);
    }
}

#[test]
fn weight_bars_go_from_green_to_red() {
    assert_eq!(weight_bar(0, 7), "");
    assert_eq!(weight_bar(3, 0), "");
    let three = format!("{}{}{}", green("█"), green("█"), green("█"));
    assert_eq!(weight_bar(3, 7), three);
    let rest = format!("{}{}{}{}", yellow("█"), yellow("█"), red("█"), red("█"));
    assert_eq!(weight_bar(7, 7), format!("{three}{rest}"));
    assert_eq!(weight_bar(100, 7), weight_bar(7, 7));
}

#[test]
fn path_chains_mark_both_ends() {
    let dot = format!(" {} ", dim("·"));
    assert_eq!(path_chain(&[]), "");
    assert_eq!(path_chain(&["a"]), bold("a"));
    assert_eq!(path_chain(&["a", "b", "c"]), format!("{}{dot}b{dot}{}", bold("a"), target("c")));
    assert_eq!(directed_edge("a", "b"), format!("a {} b", dim("→")));
}

#[test]
fn long_lists_are_cut() {
    let names = strings(&["a", "b", "c", "d"]);
    assert_eq!(truncate_list(&names, 4), "a, b, c, d");
    assert_eq!(truncate_list(&names, 3), "a, b, c 等 1 人");
    assert_eq!(truncate_list(&[], 3), dim("无"));
}

#[test]
fn uptimes_start_at_the_largest_unit() {
    assert_eq!(fmt_uptime(0), "0s");
    assert_eq!(fmt_uptime(59), "59s");
    assert_eq!(fmt_uptime(60), "1m 0s");
    assert_eq!(fmt_uptime(3599), "59m 59s");
    assert_eq!(fmt_uptime(3600), "1h 0m 0s");
    assert_eq!(fmt_uptime(90_061), "25h 1m 1s");
}

#[test]
fn padding_goes_by_columns() {
    assert_eq!(pad_right("ab", 4), "ab  ");
    assert_eq!(pad_left("ab", 4), "  ab");
    assert_eq!(pad_right("中", 4), "中  ");
    assert_eq!(pad_left("中文", 3), "中文");
    assert_eq!(pad_right_with("中", 2, 4), "中  ");
    assert_eq!(pad_left_with("x", 1, 3), "  x");
}

#[test]
fn texts_are_cut_to_the_columns() {
    assert_eq!(truncate_str("abcdef", 4), "abcd");
    assert_eq!(truncate_str("中文字", 5), "中文");
    assert_eq!(truncate_str("中", 1), "");
    assert_eq!(truncate_str("abc", 9), "abc");
    assert_eq!(truncate_with("中文字", &vec![0, 2, 4, 6], 5), "中文");
}
