//! Drawing primitives for terminal output.
//!
//! | Primitive       | Purpose                            |
//! |-----------------|------------------------------------|
//! | `header`        | `🗺️ A 到 B  共 5 条路径`            |
//! | `section`       | `基本信息`                          |
//! | `tree_block`    | Single-level key-value tree        |
//! | `nested_tree`   | Multi-level tree                   |
//! | `card`          | Head and tree-prefixed body lines  |
//! | `align_grid`    | Borderless column-aligned grid     |
//! | `visible_width` | Columns without style sequences    |
//! | `bar`           | Monochrome bar `████`              |
//! | `weight_bar`    | Gradient bar, green, yellow, red   |
//! | `path_chain`    | `A · B · C`                        |
//! | `spacer`        | Blank line                         |
//! | `footer`        | Dimmed footnote                    |
use owo_colors::OwoColorize;
use unicode_width::UnicodeWidthStr;
use vstd::prelude::*;
use vstd::string::*;

use crate::rounding::{is_ratio_below, proportion, proportion_of, ratio_below};
use crate::text::{
    blanks, chained, chars_of, dec, decimal, join, join_first, joined, lemma_chained_ends,
    lemma_chained_step, repeat, repeated, text_of, views,
};

verus! {

// ── Styles ──────────────────────────────────────────────────────────────────

/// Text between the sequence that dims it and the one that resets all styles.
pub open spec fn dimmed(s: Seq<char>) -> Seq<char> {
    "\x1b[2m"@ + s + "\x1b[0m"@
}

/// Text between the sequence for bold and the one that resets all styles.
pub open spec fn emboldened(s: Seq<char>) -> Seq<char> {
    "\x1b[1m"@ + s + "\x1b[0m"@
}

/// Text between the sequence that colours it and the one for the default colour.
pub open spec fn in_red(s: Seq<char>) -> Seq<char> {
    "\x1b[31m"@ + s + "\x1b[39m"@
}

pub open spec fn in_green(s: Seq<char>) -> Seq<char> {
    "\x1b[32m"@ + s + "\x1b[39m"@
}

pub open spec fn in_yellow(s: Seq<char>) -> Seq<char> {
    "\x1b[33m"@ + s + "\x1b[39m"@
}

pub open spec fn in_blue(s: Seq<char>) -> Seq<char> {
    "\x1b[34m"@ + s + "\x1b[39m"@
}

pub open spec fn in_cyan(s: Seq<char>) -> Seq<char> {
    "\x1b[36m"@ + s + "\x1b[39m"@
}

/// Calls `OwoColorize::dimmed` of owo-colors, which displays the text between the
/// sequences `ESC[2m` and `ESC[0m`.
#[verifier::external_body]
fn owo_dimmed(s: &str) -> (r: String)
    ensures
        r@ == dimmed(s@),
{
    s.dimmed().to_string()
}

/// Calls `OwoColorize::bold` of owo-colors, which displays the text between the
/// sequences `ESC[1m` and `ESC[0m`.
#[verifier::external_body]
fn owo_bold(s: &str) -> (r: String)
    ensures
        r@ == emboldened(s@),
{
    s.bold().to_string()
}

/// Calls `OwoColorize::red` of owo-colors, which displays the text between the
/// sequences `ESC[31m` and `ESC[39m`.
#[verifier::external_body]
fn owo_red(s: &str) -> (r: String)
    ensures
        r@ == in_red(s@),
{
    s.red().to_string()
}

/// Calls `OwoColorize::green` of owo-colors, which displays the text between the
/// sequences `ESC[32m` and `ESC[39m`.
#[verifier::external_body]
fn owo_green(s: &str) -> (r: String)
    ensures
        r@ == in_green(s@),
{
    s.green().to_string()
}

/// Calls `OwoColorize::yellow` of owo-colors, which displays the text between the
/// sequences `ESC[33m` and `ESC[39m`.
#[verifier::external_body]
fn owo_yellow(s: &str) -> (r: String)
    ensures
        r@ == in_yellow(s@),
{
    s.yellow().to_string()
}

/// Calls `OwoColorize::blue` of owo-colors, which displays the text between the
/// sequences `ESC[34m` and `ESC[39m`.
#[verifier::external_body]
fn owo_blue(s: &str) -> (r: String)
    ensures
        r@ == in_blue(s@),
{
    s.blue().to_string()
}

/// Calls `OwoColorize::cyan` of owo-colors, which displays the text between the
/// sequences `ESC[36m` and `ESC[39m`.
#[verifier::external_body]
fn owo_cyan(s: &str) -> (r: String)
    ensures
        r@ == in_cyan(s@),
{
    s.cyan().to_string()
}

/// How many columns a text takes on a terminal.
pub uninterp spec fn display_width(s: Seq<char>) -> nat;

/// Every character is a printable ASCII character.
pub open spec fn printable(s: Seq<char>) -> bool {
    forall|i: int| 0 <= i < s.len() ==> ' ' <= #[trigger] s[i] <= '~'
}

/// Calls `UnicodeWidthStr::width` of unicode-width, whose answer depends on the
/// text alone and is named by `display_width`. Printable ASCII characters take one
/// column each.
#[verifier::external_body]
pub(crate) fn width_of(s: &str) -> (r: usize)
    ensures
        r == display_width(s@),
        printable(s@) ==> r == s@.len(),
{
    UnicodeWidthStr::width(s)
}

/// Dim, secondary text.
pub fn dim(s: &str) -> (r: String)
    ensures
        r@ == dimmed(s@),
{
    owo_dimmed(s)
}

/// Bold emphasis.
pub fn bold(s: &str) -> (r: String)
    ensures
        r@ == emboldened(s@),
{
    owo_bold(s)
}

/// The blue of logins.
pub fn blue(s: &str) -> (r: String)
    ensures
        r@ == in_blue(s@),
{
    owo_blue(s)
}

/// Good.
pub fn green(s: &str) -> (r: String)
    ensures
        r@ == in_green(s@),
{
    owo_green(s)
}

/// Medium, a warning.
pub fn yellow(s: &str) -> (r: String)
    ensures
        r@ == in_yellow(s@),
{
    owo_yellow(s)
}

/// High, a danger.
pub fn red(s: &str) -> (r: String)
    ensures
        r@ == in_red(s@),
{
    owo_red(s)
}

/// An accent, for degrees.
pub fn cyan(s: &str) -> (r: String)
    ensures
        r@ == in_cyan(s@),
{
    owo_cyan(s)
}

/// The user at the end of a path, green and bold.
pub fn target(s: &str) -> (r: String)
    ensures
        r@ == emboldened(in_green(s@)),
{
    owo_bold(owo_green(s).as_str())
}

// ── What a terminal shows ───────────────────────────────────────────────────

/// Where a text stands in a control sequence: outside of any, behind the escape
/// character, or behind the bracket that follows it.
pub enum Escape {
    Outside,
    Begun,
    Inside,
}

/// Where a text stands after one more character. A sequence ends with the first
/// character from `@` to `~` behind its bracket.
pub open spec fn escape_step(at: Escape, c: char) -> Escape {
    match at {
        Escape::Outside => if c == '\u{1b}' {
            Escape::Begun
        } else {
            Escape::Outside
        },
        Escape::Begun => if c == '[' {
            Escape::Inside
        } else if c == '\u{1b}' {
            Escape::Begun
        } else {
            Escape::Outside
        },
        Escape::Inside => if '@' <= c <= '~' {
            Escape::Outside
        } else {
            Escape::Inside
        },
    }
}

/// Whether a terminal shows the character.
pub open spec fn shows(at: Escape, c: char) -> bool {
    match at {
        Escape::Outside => c != '\u{1b}',
        Escape::Begun => c != '\u{1b}' && c != '[',
        Escape::Inside => false,
    }
}

/// Where the end of a text stands.
pub open spec fn escape_after(s: Seq<char>) -> Escape
    decreases s.len(),
{
    if s.len() == 0 {
        Escape::Outside
    } else {
        escape_step(escape_after(s.drop_last()), s.last())
    }
}

/// A text without its control sequences.
pub open spec fn stripped(s: Seq<char>) -> Seq<char>
    decreases s.len(),
{
    if s.len() == 0 {
        Seq::empty()
    } else if shows(escape_after(s.drop_last()), s.last()) {
        stripped(s.drop_last()).push(s.last())
    } else {
        stripped(s.drop_last())
    }
}

/// A text as a terminal shows it, without the sequences that set its style.
pub fn strip(s: &str) -> (r: String)
    ensures
        r@ == stripped(s@),
{
    let v = chars_of(s);
    let mut shown = String::new();
    let mut at = Escape::Outside;
    let mut i: usize = 0;
    assert(v@.take(0) =~= Seq::empty());
    while i < v.len()
        invariant
            i <= v@.len(),
            at == escape_after(v@.take(i as int)),
            shown@ == stripped(v@.take(i as int)),
        decreases v@.len() - i,
    {
        assert(v@.take(i + 1).drop_last() =~= v@.take(i as int));
        let c: char = v[i];
        at = match at {
            Escape::Outside => {
                if c == '\u{1b}' {
                    Escape::Begun
                } else {
                    shown.push(c);
                    Escape::Outside
                }
            },
            Escape::Begun => {
                if c == '[' {
                    Escape::Inside
                } else if c == '\u{1b}' {
                    Escape::Begun
                } else {
                    shown.push(c);
                    Escape::Outside
                }
            },
            Escape::Inside => {
                if c >= '@' && c <= '~' {
                    Escape::Outside
                } else {
                    Escape::Inside
                }
            },
        };
        i = i + 1;
    }
    assert(v@.take(i as int) =~= v@);
    shown
}

/// How many columns a text takes on a terminal; the sequences that set its style
/// take none.
pub fn visible_width(s: &str) -> (r: usize)
    ensures
        r == display_width(stripped(s@)),
        printable(stripped(s@)) ==> r == stripped(s@).len(),
{
    width_of(strip(s).as_str())
}

/// A text without escape characters is shown as it is.
pub proof fn law_plain_text_shows(s: Seq<char>)
    requires
        forall|i: int| 0 <= i < s.len() ==> #[trigger] s[i] != '\u{1b}',
    ensures
        stripped(s) == s,
        escape_after(s) is Outside,
    decreases s.len(),
{
    if s.len() > 0 {
        law_plain_text_shows(s.drop_last());
        assert(s[s.len() - 1] != '\u{1b}');
        assert(s.drop_last().push(s.last()) =~= s);
    } else {
        assert(stripped(s) =~= s);
    }
}

/// What is behind a text that ends outside of any sequence is stripped by itself.
pub proof fn law_strip_by_parts(a: Seq<char>, b: Seq<char>)
    requires
        escape_after(a) is Outside,
    ensures
        stripped(a + b) == stripped(a) + stripped(b),
        escape_after(a + b) == escape_after(b),
    decreases b.len(),
{
    if b.len() == 0 {
        assert(a + b =~= a);
        assert(stripped(a) + stripped(b) =~= stripped(a));
    } else {
        law_strip_by_parts(a, b.drop_last());
        assert((a + b).drop_last() =~= a + b.drop_last());
        assert((a + b).last() == b.last());
        assert(stripped(a) + stripped(b.drop_last()).push(b.last()) =~= (stripped(a) + stripped(
            b.drop_last(),
        )).push(b.last()));
    }
}

/// Styles show nothing of themselves: a styled text shows what the text shows.
pub proof fn law_styles_are_invisible(s: Seq<char>)
    requires
        escape_after(s) is Outside,
    ensures
        stripped(dimmed(s)) == stripped(s),
        stripped(emboldened(s)) == stripped(s),
        stripped(in_red(s)) == stripped(s),
        stripped(in_green(s)) == stripped(s),
        stripped(in_yellow(s)) == stripped(s),
        stripped(in_blue(s)) == stripped(s),
        stripped(in_cyan(s)) == stripped(s),
{
    reveal_strlit("\x1b[0m");
    reveal_strlit("\x1b[1m");
    reveal_strlit("\x1b[2m");
    reveal_strlit("\x1b[31m");
    reveal_strlit("\x1b[32m");
    reveal_strlit("\x1b[33m");
    reveal_strlit("\x1b[34m");
    reveal_strlit("\x1b[36m");
    reveal_strlit("\x1b[39m");
    lemma_short_sequence("\x1b[0m"@);
    lemma_short_sequence("\x1b[1m"@);
    lemma_short_sequence("\x1b[2m"@);
    lemma_long_sequence("\x1b[31m"@);
    lemma_long_sequence("\x1b[32m"@);
    lemma_long_sequence("\x1b[33m"@);
    lemma_long_sequence("\x1b[34m"@);
    lemma_long_sequence("\x1b[36m"@);
    lemma_long_sequence("\x1b[39m"@);
    lemma_wrapped("\x1b[2m"@, s, "\x1b[0m"@);
    lemma_wrapped("\x1b[1m"@, s, "\x1b[0m"@);
    lemma_wrapped("\x1b[31m"@, s, "\x1b[39m"@);
    lemma_wrapped("\x1b[32m"@, s, "\x1b[39m"@);
    lemma_wrapped("\x1b[33m"@, s, "\x1b[39m"@);
    lemma_wrapped("\x1b[34m"@, s, "\x1b[39m"@);
    lemma_wrapped("\x1b[36m"@, s, "\x1b[39m"@);
}

/// A sequence with one digit shows nothing.
proof fn lemma_short_sequence(q: Seq<char>)
    requires
        q.len() == 4,
        q[0] == '\u{1b}',
        q[1] == '[',
        '0' <= q[2] <= '9',
        q[3] == 'm',
    ensures
        stripped(q) == Seq::<char>::empty(),
        escape_after(q) is Outside,
{
    reveal_with_fuel(stripped, 5);
    reveal_with_fuel(escape_after, 5);
    assert(q.drop_last() =~= seq![q[0], q[1], q[2]]);
    assert(q.drop_last().drop_last() =~= seq![q[0], q[1]]);
    assert(q.drop_last().drop_last().drop_last() =~= seq![q[0]]);
}

/// A sequence with two digits shows nothing.
proof fn lemma_long_sequence(q: Seq<char>)
    requires
        q.len() == 5,
        q[0] == '\u{1b}',
        q[1] == '[',
        '0' <= q[2] <= '9',
        '0' <= q[3] <= '9',
        q[4] == 'm',
    ensures
        stripped(q) == Seq::<char>::empty(),
        escape_after(q) is Outside,
{
    reveal_with_fuel(stripped, 6);
    reveal_with_fuel(escape_after, 6);
    assert(q.drop_last() =~= seq![q[0], q[1], q[2], q[3]]);
    assert(q.drop_last().drop_last() =~= seq![q[0], q[1], q[2]]);
    assert(q.drop_last().drop_last().drop_last() =~= seq![q[0], q[1]]);
    assert(q.drop_last().drop_last().drop_last().drop_last() =~= seq![q[0]]);
}

/// A text between two sequences that show nothing.
proof fn lemma_wrapped(before: Seq<char>, s: Seq<char>, behind: Seq<char>)
    requires
        escape_after(before) is Outside,
        escape_after(s) is Outside,
        stripped(before) == Seq::<char>::empty(),
        stripped(behind) == Seq::<char>::empty(),
    ensures
        stripped(before + s + behind) == stripped(s),
{
    law_strip_by_parts(before, s);
    law_strip_by_parts(before + s, behind);
    assert(Seq::<char>::empty() + stripped(s) + Seq::<char>::empty() =~= stripped(s));
}

// ── Numbers ─────────────────────────────────────────────────────────────────

/// A row of digits with a comma before every third one from the right.
pub open spec fn grouped(digits: Seq<char>) -> Seq<char>
    decreases digits.len(),
{
    if digits.len() <= 3 {
        digits
    } else {
        grouped(digits.take(digits.len() - 3)) + ","@ + digits.skip(digits.len() - 3)
    }
}

fn group(v: &Vec<char>, to: usize) -> (s: String)
    requires
        to <= v@.len(),
    ensures
        s@ == grouped(v@.take(to as int)),
    decreases to,
{
    let ghost d = v@.take(to as int);
    if to <= 3 {
        assert(v@.subrange(0, to as int) =~= d);
        text_of(v, 0, to)
    } else {
        assert(d.take(to - 3) =~= v@.take(to - 3));
        assert(d.skip(to - 3) =~= v@.subrange(to - 3, to as int));
        let mut s = group(v, to - 3);
        s.append(",");
        s.append(text_of(v, to - 3, to).as_str());
        s
    }
}

/// A number in decimal notation with commas between the thousands.
pub fn num(n: u64) -> (s: String)
    ensures
        s@ == grouped(decimal(n as nat)),
{
    let v = chars_of(dec(n).as_str());
    assert(v@.take(v@.len() as int) =~= v@);
    group(&v, v.len())
}

/// The commas are all that grouping adds.
pub proof fn law_grouping_keeps_the_digits(digits: Seq<char>)
    requires
        forall|i: int| 0 <= i < digits.len() ==> #[trigger] digits[i] != ',',
    ensures
        grouped(digits).filter(|c: char| c != ',') == digits,
    decreases digits.len(),
{
    let p = |c: char| c != ',';
    if digits.len() <= 3 {
        lemma_filter_all(digits, p);
    } else {
        let head = digits.take(digits.len() - 3);
        let tail = digits.skip(digits.len() - 3);
        law_grouping_keeps_the_digits(head);
        reveal_strlit(",");
        lemma_filter_all(tail, p);
        Seq::filter_distributes_over_add(grouped(head) + ","@, tail, p);
        Seq::filter_distributes_over_add(grouped(head), ","@, p);
        assert(","@.filter(p) =~= Seq::empty()) by {
            reveal(Seq::filter);
            assert(","@.drop_last() =~= Seq::empty());
            lemma_filter_all(Seq::empty(), p);
            assert(","@.last() == ',');
        }
        assert(digits =~= head + tail);
    }
}

proof fn lemma_filter_all(s: Seq<char>, p: spec_fn(char) -> bool)
    requires
        forall|i: int| 0 <= i < s.len() ==> p(#[trigger] s[i]),
    ensures
        s.filter(p) == s,
    decreases s.len(),
{
    reveal(Seq::filter);
    if s.len() > 0 {
        lemma_filter_all(s.drop_last(), p);
        assert(p(s[s.len() - 1]));
        assert(s.drop_last().push(s.last()) =~= s);
    } else {
        assert(s.filter(p) =~= s);
    }
}

// ── Thresholds ──────────────────────────────────────────────────────────────

/// The bits of the double that is infinite; those of every positive double are
/// at most as large, and larger doubles have larger bits.
pub const INFINITE_BITS: u64 = 0x7FF0_0000_0000_0000;

/// The bits of the double 0.001.
pub const DENSE_BITS: u64 = 0x3F50_624D_D2F1_A9FC;

/// The bits of the double 0.0001.
pub const SPARSE_BITS: u64 = 0x3F1A_36E2_EB1C_432D;

/// The bits of the double 0.5.
pub const MODULAR_BITS: u64 = 0x3FE0_0000_0000_0000;

/// The bits of the double 0.3.
pub const MIXED_BITS: u64 = 0x3FD3_3333_3333_3333;

/// The double with the bits `x` is larger than the positive double with the bits
/// `y`.
pub open spec fn bits_exceed(x: u64, y: u64) -> bool {
    y < x && x <= INFINITE_BITS
}

pub open spec fn density_text(text: Seq<char>, bits: u64) -> Seq<char> {
    if bits_exceed(bits, DENSE_BITS) {
        in_green(text)
    } else if bits_exceed(bits, SPARSE_BITS) {
        in_yellow(text)
    } else {
        in_red(text)
    }
}

/// The notation of a graph density in the colour of its value, which is given by
/// the bits of a double.
pub fn density_color(text: &str, bits: u64) -> (r: String)
    ensures
        r@ == density_text(text@, bits),
{
    if bits > DENSE_BITS && bits <= INFINITE_BITS {
        green(text)
    } else if bits > SPARSE_BITS && bits <= INFINITE_BITS {
        yellow(text)
    } else {
        red(text)
    }
}

/// A bridge impact with its sign, in the colour of its size.
pub fn impact_color(impact: usize) -> (r: String)
    ensures
        r@ == impact_text(impact as nat),
{
    let mut s = String::from_str("+");
    s.append(dec(impact as u64).as_str());
    if impact >= 1000 {
        red(s.as_str())
    } else if impact >= 100 {
        yellow(s.as_str())
    } else {
        s
    }
}

pub open spec fn impact_text(impact: nat) -> Seq<char> {
    let s = "+"@ + decimal(impact);
    if impact >= 1000 {
        in_red(s)
    } else if impact >= 100 {
        in_yellow(s)
    } else {
        s
    }
}

/// The notation of a modularity score in the colour of its value, which is given
/// by the bits of a double.
pub fn modularity_color(text: &str, bits: u64) -> (r: String)
    ensures
        r@ == modularity_text(text@, bits),
{
    if bits > MODULAR_BITS && bits <= INFINITE_BITS {
        green(text)
    } else if bits > MIXED_BITS && bits <= INFINITE_BITS {
        yellow(text)
    } else {
        dim(text)
    }
}

pub open spec fn modularity_text(text: Seq<char>, bits: u64) -> Seq<char> {
    if bits_exceed(bits, MODULAR_BITS) {
        in_green(text)
    } else if bits_exceed(bits, MIXED_BITS) {
        in_yellow(text)
    } else {
        dimmed(text)
    }
}

// ── Layout ──────────────────────────────────────────────────────────────────

pub open spec fn header_text(emoji: Seq<char>, title: Seq<char>, meta: Seq<char>) -> Seq<char> {
    if meta.len() == 0 {
        emoji + " "@ + title
    } else {
        emoji + " "@ + title + "  "@ + dimmed(meta)
    }
}

/// A header: emoji, title and, unless it is empty, the dimmed meta text.
pub fn header(emoji: &str, title: &str, meta: &str) -> (r: String)
    ensures
        r@ == header_text(emoji@, title@, meta@),
{
    let mut s = String::from_str(emoji);
    s.append(" ");
    s.append(title);
    if meta.unicode_len() > 0 {
        s.append("  ");
        s.append(dim(meta).as_str());
    }
    s
}

pub open spec fn section_text(title: Seq<char>) -> Seq<char> {
    "  "@ + emboldened(title)
}

/// A bold section title.
pub fn section(title: &str) -> (r: String)
    ensures
        r@ == section_text(title@),
{
    let mut s = String::from_str("  ");
    s.append(bold(title).as_str());
    s
}

/// A single blank line.
pub fn spacer() -> (r: &'static str)
    ensures
        r@ == "\n\n"@,
{
    "\n\n"
}

/// A dimmed footnote line.
pub fn footer(text: &str) -> (r: String)
    ensures
        r@ == "\n\n"@ + dimmed(text@),
{
    let mut s = String::from_str("\n\n");
    s.append(dim(text).as_str());
    s
}

// ── Trees ───────────────────────────────────────────────────────────────────

/// A key and a value in a tree.
pub struct TreeItem {
    pub key: String,
    pub value: String,
}

impl TreeItem {
    pub fn new(key: &str, value: &str) -> (r: Self)
        ensures
            r.key@ == key@,
            r.value@ == value@,
    {
        TreeItem { key: key.to_owned(), value: value.to_owned() }
    }
}

/// The keys of a list of items.
pub open spec fn item_keys(items: Seq<TreeItem>) -> Seq<Seq<char>> {
    items.map_values(|t: TreeItem| t.key@)
}

/// The values of a list of items.
pub open spec fn item_values(items: Seq<TreeItem>) -> Seq<Seq<char>> {
    items.map_values(|t: TreeItem| t.value@)
}

/// The widths of a list of texts.
pub open spec fn widths_of(texts: Seq<Seq<char>>) -> Seq<nat> {
    texts.map_values(|s: Seq<char>| display_width(s))
}

/// The largest of the widths, zero where there are none.
pub open spec fn widest(widths: Seq<nat>) -> nat
    decreases widths.len(),
{
    if widths.len() == 0 {
        0
    } else if widths.last() > widest(widths.drop_last()) {
        widths.last()
    } else {
        widest(widths.drop_last())
    }
}

/// The widths as natural numbers.
pub open spec fn nats(v: Seq<usize>) -> Seq<nat> {
    v.map_values(|n: usize| n as nat)
}

/// The branch in front of the line `i` of `n` lines.
pub open spec fn branch(i: int, n: nat) -> Seq<char> {
    if i == n - 1 {
        "└ "@
    } else {
        "├ "@
    }
}

fn branch_at(i: usize, n: usize) -> (r: &'static str)
    requires
        i < n,
    ensures
        r@ == branch(i as int, n as nat),
{
    if i == n - 1 {
        "└ "
    } else {
        "├ "
    }
}

/// The largest of the widths.
pub(crate) fn max_width(widths: &Vec<usize>) -> (r: usize)
    ensures
        r == widest(nats(widths@)),
        forall|i: int| 0 <= i < widths@.len() ==> (#[trigger] widths@[i]) <= r,
{
    let ghost all = nats(widths@);
    let mut r: usize = 0;
    let mut i: usize = 0;
    assert(all.take(0) =~= Seq::empty());
    while i < widths.len()
        invariant
            i <= widths@.len(),
            all == nats(widths@),
            r == widest(all.take(i as int)),
            forall|k: int| 0 <= k < i ==> (#[trigger] widths@[k]) <= r,
        decreases widths@.len() - i,
    {
        assert(all.take(i + 1).drop_last() =~= all.take(i as int));
        assert(all[i as int] == widths@[i as int]);
        if widths[i] > r {
            r = widths[i];
        }
        i = i + 1;
    }
    assert(all.take(i as int) =~= all);
    r
}

/// One row of a tree block: the key, blanks up to the widest key, the value.
pub open spec fn tree_row(
    keys: Seq<Seq<char>>,
    values: Seq<Seq<char>>,
    widths: Seq<nat>,
    i: int,
) -> Seq<char> {
    "\n  "@ + branch(i, keys.len()) + keys[i] + blanks((widest(widths) - widths[i]) as nat) + "  "@
        + values[i]
}

/// A tree block whose keys have the given widths.
pub open spec fn tree_text(
    title: Seq<char>,
    keys: Seq<Seq<char>>,
    values: Seq<Seq<char>>,
    widths: Seq<nat>,
) -> Seq<char> {
    section_text(title) + chained(
        Seq::new(keys.len(), |i: int| tree_row(keys, values, widths, i)),
    )
}

/// A single-level tree whose keys have the given widths: the title, and below it
/// each key, padded to the widest one, with its value.
pub fn tree_block_with(title: &str, items: &[TreeItem], widths: &Vec<usize>) -> (r: String)
    requires
        widths@.len() == items@.len(),
    ensures
        r@ == tree_text(
            title@,
            item_keys(items@),
            item_values(items@),
            nats(widths@),
        ),
{
    let ghost ks = item_keys(items@);
    let ghost vs = item_values(items@);
    let ghost ws = nats(widths@);
    let ghost parts = Seq::new(ks.len(), |i: int| tree_row(ks, vs, ws, i));
    let ghost head = section_text(title@);
    let max: usize = max_width(widths);
    let mut out = section(title);
    let n: usize = items.len();
    let mut i: usize = 0;
    proof {
        lemma_chained_ends(head, parts);
    }
    while i < n
        invariant
            n == items@.len(),
            widths@.len() == n,
            i <= n,
            ks == item_keys(items@),
            vs == item_values(items@),
            ws == nats(widths@),
            max == widest(ws),
            forall|k: int| 0 <= k < widths@.len() ==> (#[trigger] widths@[k]) <= max,
            parts == Seq::new(ks.len(), |i: int| tree_row(ks, vs, ws, i)),
            out@ == head + chained(parts.take(i as int)),
        decreases n - i,
    {
        let item = &items[i];
        assert(ks[i as int] == item.key@ && vs[i as int] == item.value@);
        assert(ws[i as int] == widths@[i as int]);
        let mut line = String::from_str("\n  ");
        line.append(branch_at(i, n));
        line.append(item.key.as_str());
        line.append(repeat(" ", max - widths[i]).as_str());
        line.append("  ");
        line.append(item.value.as_str());
        assert(line@ == parts[i as int]);
        out.append(line.as_str());
        proof {
            lemma_chained_step(head, parts, i as int);
        }
        i = i + 1;
    }
    out
}

/// A single-level tree: the title, and below it each key, padded to the widest
/// one, with its value.
pub fn tree_block(title: &str, items: &[TreeItem]) -> (r: String)
    ensures
        r@ == tree_text(
            title@,
            item_keys(items@),
            item_values(items@),
            widths_of(item_keys(items@)),
        ),
{
    let widths = key_widths(items);
    tree_block_with(title, items, &widths)
}

/// The widths of the keys of a list of items.
fn key_widths(items: &[TreeItem]) -> (widths: Vec<usize>)
    ensures
        widths@.len() == items@.len(),
        nats(widths@) == widths_of(item_keys(items@)),
{
    let ghost ks = item_keys(items@);
    let mut widths: Vec<usize> = Vec::new();
    let mut i: usize = 0;
    while i < items.len()
        invariant
            i <= items@.len(),
            ks == item_keys(items@),
            widths@.len() == i,
            nats(widths@) =~= widths_of(ks).take(i as int),
        decreases items@.len() - i,
    {
        let ghost w0 = nats(widths@);
        assert(ks[i as int] == items@[i as int].key@);
        widths.push(width_of(items[i].key.as_str()));
        assert(nats(widths@) =~= w0.push(widths_of(ks)[i as int]));
        i = i + 1;
    }
    assert(widths_of(ks).take(i as int) =~= widths_of(ks));
    widths
}

/// A labelled group in a nested tree.
pub struct TreeGroup {
    pub label: String,
    pub items: Vec<String>,
}

pub struct GroupModel {
    pub label: Seq<char>,
    pub items: Seq<Seq<char>>,
}

impl View for TreeGroup {
    type V = GroupModel;

    open spec fn view(&self) -> GroupModel {
        GroupModel { label: self.label@, items: views(self.items@) }
    }
}

/// The models of a list of groups.
pub open spec fn group_models(s: Seq<TreeGroup>) -> Seq<GroupModel> {
    s.map_values(|g: TreeGroup| g@)
}

/// What is in front of the lines below the line `i` of `n` lines.
pub open spec fn under(i: int, n: nat) -> Seq<char> {
    if i == n - 1 {
        "    "@
    } else {
        "│   "@
    }
}

/// The lines of one group: its label and below it its items.
pub open spec fn group_text(g: GroupModel, i: int, n: nat) -> Seq<char> {
    let m = g.items.len();
    "\n  "@ + branch(i, n) + g.label + chained(
        Seq::new(
            m,
            |j: int|
                "\n  "@ + under(i, n) + branch(j, m) + g.items[j],
        ),
    )
}

pub(crate) fn group_lines(g: &TreeGroup, i: usize, n: usize) -> (r: String)
    requires
        i < n,
    ensures
        r@ == group_text(g@, i as int, n as nat),
{
    let mut out = String::from_str("\n  ");
    out.append(branch_at(i, n));
    out.append(g.label.as_str());
    let ghost head = out@;
    let m: usize = g.items.len();
    let ghost parts = Seq::new(
        m as nat,
        |j: int|
            "\n  "@ + under(i as int, n as nat) + branch(j, m as nat) + g@.items[j],
    );
    let cont: &str = if i == n - 1 {
        "    "
    } else {
        "│   "
    };
    let mut j: usize = 0;
    proof {
        lemma_chained_ends(head, parts);
    }
    while j < m
        invariant
            i < n,
            j <= m,
            m == g.items@.len(),
            cont@ == under(i as int, n as nat),
            parts == Seq::new(
                m as nat,
                |j: int|
                    "\n  "@ + under(i as int, n as nat) + branch(j, m as nat) + g@.items[j],
            ),
            out@ == head + chained(parts.take(j as int)),
        decreases m - j,
    {
        let mut line = String::from_str("\n  ");
        line.append(cont);
        line.append(branch_at(j, m));
        line.append(g.items[j].as_str());
        assert(g@.items[j as int] == g.items@[j as int]@);
        assert(line@ == parts[j as int]);
        out.append(line.as_str());
        proof {
            lemma_chained_step(head, parts, j as int);
        }
        j = j + 1;
    }
    out
}

/// A nested tree.
pub open spec fn nested_text(title: Seq<char>, groups: Seq<GroupModel>) -> Seq<char> {
    section_text(title) + chained(
        Seq::new(groups.len(), |i: int| group_text(groups[i], i, groups.len())),
    )
}

/// A tree of two levels: the title, below it the groups, and below each of them
/// its items.
///
/// ```text
///   title
///   ├ group 1
///   │   ├ item a
///   │   └ item b
///   └ group 2
///       └ item c
/// ```
pub fn nested_tree(title: &str, groups: &[TreeGroup]) -> (r: String)
    ensures
        r@ == nested_text(title@, group_models(groups@)),
{
    let mut out = section(title);
    let ghost head = out@;
    let ghost gs = group_models(groups@);
    let n: usize = groups.len();
    let ghost parts = Seq::new(
        gs.len(),
        |i: int| group_text(gs[i], i, gs.len()),
    );
    let mut i: usize = 0;
    proof {
        lemma_chained_ends(head, parts);
    }
    while i < n
        invariant
            i <= n,
            n == groups@.len(),
            gs == group_models(groups@),
            parts == Seq::new(
                gs.len(),
                |i: int| group_text(gs[i], i, gs.len()),
            ),
            out@ == head + chained(parts.take(i as int)),
        decreases n - i,
    {
        assert(gs[i as int] == groups@[i as int]@);
        let lines = group_lines(&groups[i], i, n);
        assert(lines@ == parts[i as int]);
        out.append(lines.as_str());
        proof {
            lemma_chained_step(head, parts, i as int);
        }
        i = i + 1;
    }
    out
}

/// A head with a branch to each body line.
pub open spec fn card_text(head: Seq<char>, body: Seq<Seq<char>>) -> Seq<char> {
    "  "@ + head + chained(
        Seq::new(body.len(), |i: int| "\n  "@ + branch(i, body.len()) + body[i]),
    )
}

/// A card: a head line and below it the body lines.
pub fn card(head: &str, body: &[String]) -> (r: String)
    ensures
        r@ == card_text(head@, views(body@)),
{
    let mut s = String::from_str("  ");
    s.append(head);
    let ghost top = s@;
    let ghost lines = views(body@);
    let ghost parts = Seq::new(
        lines.len(),
        |i: int| "\n  "@ + branch(i, lines.len()) + lines[i],
    );
    let n: usize = body.len();
    let mut i: usize = 0;
    proof {
        lemma_chained_ends(top, parts);
    }
    while i < n
        invariant
            i <= n,
            n == body@.len(),
            lines == views(body@),
            parts == Seq::new(
                lines.len(),
                |i: int| "\n  "@ + branch(i, lines.len()) + lines[i],
            ),
            s@ == top + chained(parts.take(i as int)),
        decreases n - i,
    {
        assert(lines[i as int] == body@[i as int]@);
        let mut line = String::from_str("\n  ");
        line.append(branch_at(i, n));
        line.append(body[i].as_str());
        assert(line@ == parts[i as int]);
        s.append(line.as_str());
        proof {
            lemma_chained_step(top, parts, i as int);
        }
        i = i + 1;
    }
    s
}

// ── Grids ───────────────────────────────────────────────────────────────────

/// The texts of a list of text slices.
pub open spec fn slices(s: Seq<&str>) -> Seq<Seq<char>> {
    s.map_values(|t: &str| t@)
}

/// The texts of the cells of a grid.
pub open spec fn cells(rows: Seq<Vec<String>>) -> Seq<Seq<Seq<char>>> {
    rows.map_values(|r: Vec<String>| views(r@))
}

/// The widths of the texts as a terminal shows them.
pub open spec fn visible_widths(texts: Seq<Seq<char>>) -> Seq<nat> {
    texts.map_values(|s: Seq<char>| display_width(stripped(s)))
}

/// The widths of the cells of a grid as a terminal shows them.
pub open spec fn cell_widths(rows: Seq<Seq<Seq<char>>>) -> Seq<Seq<nat>> {
    rows.map_values(|r: Seq<Seq<char>>| visible_widths(r))
}

/// The dimmed texts.
pub open spec fn all_dimmed(texts: Seq<Seq<char>>) -> Seq<Seq<char>> {
    texts.map_values(|s: Seq<char>| dimmed(s))
}

/// The widths of the cells of a grid as natural numbers.
pub open spec fn nat_rows(rows: Seq<Vec<usize>>) -> Seq<Seq<nat>> {
    rows.map_values(|r: Vec<usize>| nats(r@))
}

/// The width of a column: that of its header or of its widest cell.
pub open spec fn column_width(head: nat, rows: Seq<Seq<nat>>, c: int) -> nat
    decreases rows.len(),
{
    if rows.len() == 0 {
        head
    } else {
        let before = column_width(head, rows.drop_last(), c);
        if c < rows.last().len() && rows.last()[c] > before {
            rows.last()[c]
        } else {
            before
        }
    }
}

/// A cell with the gap before it, padded unless it is in the last column or
/// beyond.
pub open spec fn cell_text(
    shown: Seq<char>,
    width: nat,
    heads: Seq<nat>,
    rows: Seq<Seq<nat>>,
    c: int,
) -> Seq<char> {
    (if c > 0 {
        "  "@
    } else {
        ""@
    }) + shown + (if c < heads.len() - 1 {
        blanks((column_width(heads[c], rows, c) - width) as nat)
    } else {
        ""@
    })
}

/// A grid whose headers and cells have the given widths, with `indent` in front of
/// every line.
pub open spec fn grid_text(
    indent: Seq<char>,
    headers: Seq<Seq<char>>,
    rows: Seq<Seq<Seq<char>>>,
    heads: Seq<nat>,
    widths: Seq<Seq<nat>>,
) -> Seq<char> {
    indent + chained(
        Seq::new(headers.len(), |c: int| cell_text(headers[c], heads[c], heads, widths, c)),
    ) + chained(
        Seq::new(rows.len(), |r: int| "\n"@ + indent + row_text(rows[r], heads, widths, r)),
    )
}

/// One row of a grid.
pub open spec fn row_text(
    row: Seq<Seq<char>>,
    heads: Seq<nat>,
    widths: Seq<Seq<nat>>,
    r: int,
) -> Seq<char> {
    chained(
        Seq::new(row.len(), |c: int| cell_text(row[c], widths[r][c], heads, widths, c)),
    )
}

/// A column is as wide as the widest of its header and its cells.
pub proof fn law_column_width(head: nat, rows: Seq<Seq<nat>>, c: int)
    ensures
        column_width(head, rows, c) >= head,
        forall|r: int|
            0 <= r < rows.len() && c < (#[trigger] rows[r]).len() ==> column_width(head, rows, c)
                >= rows[r][c],
        column_width(head, rows, c) == head || exists|r: int|
            0 <= r < rows.len() && c < (#[trigger] rows[r]).len() && column_width(head, rows, c)
                == rows[r][c],
    decreases rows.len(),
{
    if rows.len() > 0 {
        let rest = rows.drop_last();
        law_column_width(head, rest, c);
        assert forall|r: int| 0 <= r < rows.len() && c < (#[trigger] rows[r]).len() implies (
        column_width(head, rows, c) >= rows[r][c]) by {
            if r < rest.len() {
                assert(rest[r] == rows[r]);
            }
        }
        if column_width(head, rest, c) != head {
            let r = choose|r: int|
                0 <= r < rest.len() && c < (#[trigger] rest[r]).len() && column_width(head, rest, c)
                    == rest[r][c];
            assert(rows[r] == rest[r]);
        }
        assert(rows[rows.len() - 1] == rows.last());
    }
}

/// Where a column starts: behind the columns before it, with two blanks after each.
pub open spec fn column_start(heads: Seq<nat>, rows: Seq<Seq<nat>>, c: int) -> nat
    decreases c,
{
    if c <= 0 {
        0
    } else {
        column_start(heads, rows, c - 1) + column_width(heads[c - 1], rows, c - 1) + 2
    }
}

/// A line of a grid up to its cell `c`, with the gap before it.
pub open spec fn line_before(
    line: Seq<Seq<char>>,
    sizes: Seq<nat>,
    heads: Seq<nat>,
    rows: Seq<Seq<nat>>,
    c: int,
) -> Seq<char> {
    chained(Seq::new(c as nat, |k: int| cell_text(line[k], sizes[k], heads, rows, k))) + (if c > 0 {
        "  "@
    } else {
        ""@
    })
}

/// The columns of a grid are aligned: every cell of the column `c`, and its header,
/// starts at the start of the column, style sequences not counted. `columns` says how
/// many columns a text takes; the widths of the parts of a line are to add up.
pub proof fn law_grid_columns_align(
    line: Seq<Seq<char>>,
    sizes: Seq<nat>,
    heads: Seq<nat>,
    rows: Seq<Seq<nat>>,
    columns: spec_fn(Seq<char>) -> nat,
    c: int,
)
    requires
        sizes == heads || rows.contains(sizes),
        sizes.len() == line.len(),
        0 <= c < heads.len(),
        c < line.len(),
        forall|a: Seq<char>, b: Seq<char>| #[trigger] columns(a + b) == columns(a) + columns(b),
        columns(" "@) == 1,
        forall|k: int| 0 <= k < line.len() ==> escape_after(#[trigger] line[k]) is Outside,
        forall|k: int| 0 <= k < line.len() ==> sizes[k] == columns(stripped(#[trigger] line[k])),
    ensures
        columns(stripped(line_before(line, sizes, heads, rows, c))) == column_start(
            heads,
            rows,
            c,
        ),
        escape_after(line_before(line, sizes, heads, rows, c)) is Outside,
    decreases c,
{
    reveal_strlit("");
    reveal_strlit(" ");
    reveal_strlit("  ");
    let empty = Seq::<char>::empty();
    assert(columns(empty) == 0) by {
        assert(empty + empty =~= empty);
        assert(columns(empty + empty) == columns(empty) + columns(empty));
    }
    let parts = |n: int| Seq::new(n as nat, |k: int| cell_text(line[k], sizes[k], heads, rows, k));
    let before = line_before(line, sizes, heads, rows, c);
    if c == 0 {
        assert(chained(parts(0)) =~= empty);
        assert(before =~= empty);
        assert(stripped(empty) =~= empty);
    } else {
        let k = c - 1;
        law_grid_columns_align(line, sizes, heads, rows, columns, k);
        law_column_width(heads[k], rows, k);
        if sizes != heads {
            let r = choose|r: int| 0 <= r < rows.len() && rows[r] == sizes;
            assert(k < rows[r].len());
        }
        assert(parts(c).drop_last() =~= parts(k));
        let pad = (column_width(heads[k], rows, k) - sizes[k]) as nat;
        let start = line_before(line, sizes, heads, rows, k);
        let tail = blanks(pad) + "  "@;
        assert(before =~= start + line[k] + tail);
        lemma_blanks_show(pad, columns);
        law_plain_text_shows("  "@);
        assert("  "@ =~= " "@ + " "@);
        assert(columns(" "@ + " "@) == columns(" "@) + columns(" "@));
        law_strip_by_parts(blanks(pad), "  "@);
        assert(columns(blanks(pad) + "  "@) == columns(blanks(pad)) + columns("  "@));
        law_strip_by_parts(start, line[k]);
        law_strip_by_parts(start + line[k], tail);
        assert(columns(stripped(start) + stripped(line[k])) == columns(stripped(start)) + columns(
            stripped(line[k]),
        ));
        assert(columns((stripped(start) + stripped(line[k])) + stripped(tail)) == columns(
            stripped(start) + stripped(line[k]),
        ) + columns(stripped(tail)));
    }
}

/// Blanks are shown, and each takes a column.
proof fn lemma_blanks_show(n: nat, columns: spec_fn(Seq<char>) -> nat)
    requires
        forall|a: Seq<char>, b: Seq<char>| #[trigger] columns(a + b) == columns(a) + columns(b),
        columns(" "@) == 1,
    ensures
        stripped(blanks(n)) == blanks(n),
        escape_after(blanks(n)) is Outside,
        columns(blanks(n)) == n,
    decreases n,
{
    reveal_strlit(" ");
    law_plain_text_shows(" "@);
    if n == 0 {
        let empty = Seq::<char>::empty();
        assert(empty + empty =~= empty);
        assert(columns(empty + empty) == columns(empty) + columns(empty));
        assert(stripped(empty) =~= empty);
        assert(blanks(n) =~= empty);
    } else {
        lemma_blanks_show((n - 1) as nat, columns);
        law_strip_by_parts(blanks((n - 1) as nat), " "@);
        assert(columns(blanks((n - 1) as nat) + " "@) == columns(blanks((n - 1) as nat)) + columns(
            " "@,
        ));
    }
}

/// The widths of the columns.
fn column_widths(heads: &Vec<usize>, rows: &Vec<Vec<usize>>) -> (r: Vec<usize>)
    ensures
        r@.len() == heads@.len(),
        forall|c: int|
            0 <= c < r@.len() ==> (#[trigger] r@[c]) == column_width(
                heads@[c] as nat,
                nat_rows(rows@),
                c,
            ),
{
    let ghost all = nat_rows(rows@);
    let mut r: Vec<usize> = Vec::new();
    let mut c: usize = 0;
    while c < heads.len()
        invariant
            all == nat_rows(rows@),
            c <= heads@.len(),
            r@.len() == c,
            forall|k: int|
                0 <= k < c ==> (#[trigger] r@[k]) == column_width(heads@[k] as nat, all, k),
        decreases heads@.len() - c,
    {
        let mut w: usize = heads[c];
        let mut i: usize = 0;
        assert(all.take(0) =~= Seq::empty());
        while i < rows.len()
            invariant
                all == nat_rows(rows@),
                c < heads@.len(),
                i <= rows@.len(),
                w == column_width(heads@[c as int] as nat, all.take(i as int), c as int),
            decreases rows@.len() - i,
        {
            assert(all.take(i + 1).drop_last() =~= all.take(i as int));
            assert(all[i as int] == nats(rows@[i as int]@));
            if c < rows[i].len() {
                assert(all[i as int][c as int] == rows@[i as int]@[c as int]);
                if rows[i][c] > w {
                    w = rows[i][c];
                }
            }
            i = i + 1;
        }
        assert(all.take(i as int) =~= all);
        r.push(w);
        c = c + 1;
    }
    r
}

/// A grid without borders whose headers and cells have the given widths, with
/// `indent` in front of every line. Every column but the last is padded to its
/// width.
pub fn grid_with(
    indent: &str,
    headers: &Vec<String>,
    rows: &[Vec<String>],
    heads: &Vec<usize>,
    widths: &Vec<Vec<usize>>,
) -> (r: String)
    requires
        headers@.len() > 0,
        heads@.len() == headers@.len(),
        widths@.len() == rows@.len(),
        forall|i: int|
            0 <= i < rows@.len() ==> (#[trigger] widths@[i])@.len() == rows@[i]@.len(),
    ensures
        r@ == grid_text(
            indent@,
            views(headers@),
            cells(rows@),
            nats(heads@),
            nat_rows(widths@),
        ),
{
    let ghost hs = views(headers@);
    let ghost rs = cells(rows@);
    let ghost hw = nats(heads@);
    let ghost ws = nat_rows(widths@);
    let columns = column_widths(heads, widths);
    let n: usize = headers.len();
    let mut s = String::from_str(indent);
    let ghost top = Seq::new(
        hs.len(),
        |c: int| cell_text(hs[c], hw[c], hw, ws, c),
    );
    let mut c: usize = 0;
    proof {
        lemma_chained_ends(indent@, top);
    }
    while c < n
        invariant
            n == headers@.len(),
            heads@.len() == n,
            columns@.len() == n,
            c <= n,
            hs == views(headers@),
            hw == nats(heads@),
            ws == nat_rows(widths@),
            forall|k: int|
                0 <= k < n ==> (#[trigger] columns@[k]) == column_width(heads@[k] as nat, ws, k),
            top == Seq::new(hs.len(), |c: int| cell_text(hs[c], hw[c], hw, ws, c)),
            s@ == indent@ + chained(top.take(c as int)),
        decreases n - c,
    {
        proof {
            law_column_width(hw[c as int], ws, c as int);
            reveal_strlit("");
        }
        let mut cell = String::from_str(if c > 0 {
            "  "
        } else {
            ""
        });
        assert(hs[c as int] == headers@[c as int]@);
        cell.append(headers[c].as_str());
        if c < n - 1 {
            cell.append(repeat(" ", columns[c] - heads[c]).as_str());
        } else {
            assert(cell@ + ""@ =~= cell@);
        }
        assert(cell@ == top[c as int]);
        s.append(cell.as_str());
        proof {
            lemma_chained_step(indent@, top, c as int);
        }
        c = c + 1;
    }
    let ghost head = s@;
    let ghost lines = Seq::new(rs.len(), |r: int| "\n"@ + indent@ + row_text(rs[r], hw, ws, r));
    let mut i: usize = 0;
    proof {
        lemma_chained_ends(head, lines);
    }
    while i < rows.len()
        invariant
            n == headers@.len(),
            n > 0,
            heads@.len() == n,
            columns@.len() == n,
            widths@.len() == rows@.len(),
            forall|i: int|
                0 <= i < rows@.len() ==> (#[trigger] widths@[i])@.len() == rows@[i]@.len(),
            i <= rows@.len(),
            rs == cells(rows@),
            hw == nats(heads@),
            ws == nat_rows(widths@),
            forall|k: int|
                0 <= k < n ==> (#[trigger] columns@[k]) == column_width(heads@[k] as nat, ws, k),
            lines == Seq::new(rs.len(), |r: int| "\n"@ + indent@ + row_text(rs[r], hw, ws, r)),
            s@ == head + chained(lines.take(i as int)),
        decreases rows@.len() - i,
    {
        let row = &rows[i];
        let sizes = &widths[i];
        assert(rs[i as int] == views(row@));
        assert(ws[i as int] == nats(sizes@));
        let ghost parts = Seq::new(
            rs[i as int].len(),
            |c: int| cell_text(rs[i as int][c], ws[i as int][c], hw, ws, c),
        );
        let mut line = String::from_str("\n");
        line.append(indent);
        let ghost start = line@;
        let mut c: usize = 0;
        proof {
            lemma_chained_ends(start, parts);
        }
        while c < row.len()
            invariant
                n == headers@.len(),
                n > 0,
                heads@.len() == n,
                columns@.len() == n,
                i < rows@.len(),
                widths@.len() == rows@.len(),
                sizes@.len() == row@.len(),
                c <= row@.len(),
                rs == cells(rows@),
                hw == nats(heads@),
                ws == nat_rows(widths@),
                rs[i as int] == views(row@),
                ws[i as int] == nats(sizes@),
                forall|k: int|
                    0 <= k < n ==> (#[trigger] columns@[k]) == column_width(
                        heads@[k] as nat,
                        ws,
                        k,
                    ),
                parts == Seq::new(
                    rs[i as int].len(),
                    |c: int| cell_text(rs[i as int][c], ws[i as int][c], hw, ws, c),
                ),
                line@ == start + chained(parts.take(c as int)),
            decreases row@.len() - c,
        {
            proof {
                reveal_strlit("");
                assert(ws[i as int][c as int] == sizes@[c as int]);
                assert(rs[i as int][c as int] == row@[c as int]@);
                if c < n {
                    assert(hw[c as int] == heads@[c as int]);
                    law_column_width(hw[c as int], ws, c as int);
                    assert(c < ws[i as int].len());
                }
            }
            let mut cell = String::from_str(if c > 0 {
                "  "
            } else {
                ""
            });
            cell.append(row[c].as_str());
            if c < n - 1 {
                cell.append(repeat(" ", columns[c] - sizes[c]).as_str());
            } else {
                assert(cell@ + ""@ =~= cell@);
            }
            assert(cell@ == parts[c as int]);
            line.append(cell.as_str());
            proof {
                lemma_chained_step(start, parts, c as int);
            }
            c = c + 1;
        }
        assert(line@ == lines[i as int]);
        s.append(line.as_str());
        proof {
            lemma_chained_step(head, lines, i as int);
        }
        i = i + 1;
    }
    s
}

/// A grid without borders whose headers and cells have the given widths. The
/// headers are dimmed, and every column but the last is padded to its width.
pub fn align_grid_with(
    headers: &[&str],
    rows: &[Vec<String>],
    heads: &Vec<usize>,
    widths: &Vec<Vec<usize>>,
) -> (r: String)
    requires
        headers@.len() > 0,
        heads@.len() == headers@.len(),
        widths@.len() == rows@.len(),
        forall|i: int|
            0 <= i < rows@.len() ==> (#[trigger] widths@[i])@.len() == rows@[i]@.len(),
    ensures
        r@ == grid_text(
            ""@,
            all_dimmed(slices(headers@)),
            cells(rows@),
            nats(heads@),
            nat_rows(widths@),
        ),
{
    let ghost want = all_dimmed(slices(headers@));
    let mut shown: Vec<String> = Vec::new();
    let mut c: usize = 0;
    while c < headers.len()
        invariant
            c <= headers@.len(),
            want == all_dimmed(slices(headers@)),
            views(shown@) =~= want.take(c as int),
        decreases headers@.len() - c,
    {
        let ghost s0 = views(shown@);
        shown.push(dim(headers[c]));
        assert(views(shown@) =~= s0.push(want[c as int]));
        c = c + 1;
    }
    assert(want.take(c as int) =~= want);
    grid_with("", &shown, rows, heads, widths)
}

/// A grid without borders. The headers are dimmed, and every column but the last
/// is padded to its width, for which style sequences do not count.
pub fn align_grid(headers: &[&str], rows: &[Vec<String>]) -> (r: String)
    requires
        headers@.len() > 0,
    ensures
        r@ == grid_text(
            ""@,
            all_dimmed(slices(headers@)),
            cells(rows@),
            visible_widths(slices(headers@)),
            cell_widths(cells(rows@)),
        ),
{
    let ghost hs = slices(headers@);
    let mut heads: Vec<usize> = Vec::new();
    let mut c: usize = 0;
    while c < headers.len()
        invariant
            c <= headers@.len(),
            hs == slices(headers@),
            heads@.len() == c,
            nats(heads@) =~= visible_widths(hs).take(c as int),
        decreases headers@.len() - c,
    {
        let ghost w0 = nats(heads@);
        assert(hs[c as int] == headers@[c as int]@);
        heads.push(visible_width(headers[c]));
        assert(nats(heads@) =~= w0.push(visible_widths(hs)[c as int]));
        c = c + 1;
    }
    assert(visible_widths(hs).take(c as int) =~= visible_widths(hs));
    let widths = grid_widths(rows);
    align_grid_with(headers, rows, &heads, &widths)
}

/// A grid without borders under headers that have their style already, with
/// `indent` in front of every line. Every column but the last is padded to its
/// width, for which style sequences do not count.
pub fn styled_grid(indent: &str, headers: &Vec<String>, rows: &[Vec<String>]) -> (r: String)
    requires
        headers@.len() > 0,
    ensures
        r@ == grid_text(
            indent@,
            views(headers@),
            cells(rows@),
            visible_widths(views(headers@)),
            cell_widths(cells(rows@)),
        ),
{
    let heads = shown_widths(headers);
    let widths = grid_widths(rows);
    grid_with(indent, headers, rows, &heads, &widths)
}

/// The widths of a list of texts as a terminal shows them.
fn shown_widths(texts: &Vec<String>) -> (r: Vec<usize>)
    ensures
        nats(r@) == visible_widths(views(texts@)),
        r@.len() == texts@.len(),
{
    let ghost all = views(texts@);
    let mut r: Vec<usize> = Vec::new();
    let mut i: usize = 0;
    while i < texts.len()
        invariant
            i <= texts@.len(),
            all == views(texts@),
            r@.len() == i,
            nats(r@) =~= visible_widths(all).take(i as int),
        decreases texts@.len() - i,
    {
        let ghost w0 = nats(r@);
        assert(all[i as int] == texts@[i as int]@);
        r.push(visible_width(texts[i].as_str()));
        assert(nats(r@) =~= w0.push(visible_widths(all)[i as int]));
        i = i + 1;
    }
    assert(visible_widths(all).take(i as int) =~= visible_widths(all));
    r
}

/// The widths of the cells of a grid as a terminal shows them.
fn grid_widths(rows: &[Vec<String>]) -> (widths: Vec<Vec<usize>>)
    ensures
        widths@.len() == rows@.len(),
        forall|i: int|
            0 <= i < rows@.len() ==> (#[trigger] widths@[i])@.len() == rows@[i]@.len(),
        nat_rows(widths@) == cell_widths(cells(rows@)),
{
    let ghost rs = cells(rows@);
    let mut widths: Vec<Vec<usize>> = Vec::new();
    let mut i: usize = 0;
    while i < rows.len()
        invariant
            i <= rows@.len(),
            rs == cells(rows@),
            widths@.len() == i,
            forall|k: int| 0 <= k < i ==> (#[trigger] widths@[k])@.len() == rows@[k]@.len(),
            nat_rows(widths@) =~= cell_widths(rs).take(i as int),
        decreases rows@.len() - i,
    {
        let ghost w0 = nat_rows(widths@);
        assert(rs[i as int] == views(rows@[i as int]@));
        let sizes = shown_widths(&rows[i]);
        let ghost m = nats(sizes@);
        widths.push(sizes);
        assert(nat_rows(widths@) =~= w0.push(m));
        assert(cell_widths(rs)[i as int] == m);
        i = i + 1;
    }
    assert(cell_widths(rs).take(i as int) =~= cell_widths(rs));
    widths
}

/// The widths of a list of texts.
pub(crate) fn text_widths(texts: &Vec<String>) -> (r: Vec<usize>)
    ensures
        nats(r@) == widths_of(views(texts@)),
        r@.len() == texts@.len(),
{
    let ghost all = views(texts@);
    let mut r: Vec<usize> = Vec::new();
    let mut i: usize = 0;
    while i < texts.len()
        invariant
            i <= texts@.len(),
            all == views(texts@),
            r@.len() == i,
            nats(r@) =~= widths_of(all).take(i as int),
        decreases texts@.len() - i,
    {
        let ghost w0 = nats(r@);
        assert(all[i as int] == texts@[i as int]@);
        r.push(width_of(texts[i].as_str()));
        assert(nats(r@) =~= w0.push(widths_of(all)[i as int]));
        i = i + 1;
    }
    assert(widths_of(all).take(i as int) =~= widths_of(all));
    r
}

// ── Bars ────────────────────────────────────────────────────────────────────

/// How many of `width` places the value takes, at least one.
pub open spec fn share(value: nat, max: nat, width: nat) -> nat {
    let n = proportion(value, max, width);
    if n < 1 {
        1
    } else {
        n
    }
}

/// A bar for `value` out of `max`, `width` places long where they are equal.
/// Nothing where `max` or `width` is zero. The proportion is that of double
/// precision, rounded down: 29 out of 100 take 28 of 100 places.
pub fn bar(value: u64, max: u64, width: usize) -> (r: String)
    requires
        max > 0 && width > 0 ==> 3 * share(value as nat, max as nat, width as nat) <= isize::MAX,
    ensures
        r@ == bar_text(value as nat, max as nat, width as nat),
{
    if max == 0 || width == 0 {
        assert(""@ =~= Seq::empty()) by {
            reveal_strlit("");
        }
        return String::new();
    }
    let n: usize = proportion_of(value, max, width);
    let places: usize = if n < 1 {
        1
    } else {
        n
    };
    dim(repeat("█", places).as_str())
}

pub open spec fn bar_text(value: nat, max: nat, width: nat) -> Seq<char> {
    if max == 0 || width == 0 {
        ""@
    } else {
        dimmed(repeated("█"@, share(value, max, width)))
    }
}

/// A third: 0.33 in single precision is `THIRD / THIRD_OF`, and 0.66 the double of it.
pub const THIRD: u32 = 11_072_963;

pub const THIRD_OF: u32 = 33_554_432;

/// The block at place `i` of a gradient bar, by the ratio of `i` to the width in
/// single precision.
pub open spec fn shade(i: int, width: nat) -> Seq<char> {
    if ratio_below(i as nat, width, THIRD as nat, THIRD_OF as nat) {
        in_green("█"@)
    } else if ratio_below(i as nat, width, 2 * THIRD as nat, THIRD_OF as nat) {
        in_yellow("█"@)
    } else {
        in_red("█"@)
    }
}

pub open spec fn weight_bar_text(filled: nat, width: nat) -> Seq<char> {
    chained(
        Seq::new(
            if filled < width {
                filled
            } else {
                width
            },
            |i: int| shade(i, width),
        ),
    )
}

/// A gradient bar of `filled` places out of `width`: a third each in green, in
/// yellow and in red.
pub fn weight_bar(filled: usize, width: usize) -> (r: String)
    ensures
        r@ == weight_bar_text(filled as nat, width as nat),
{
    let n: usize = if filled < width {
        filled
    } else {
        width
    };
    let ghost parts = Seq::new(n as nat, |i: int| shade(i, width as nat));
    let mut s = String::new();
    let ghost empty = s@;
    let mut i: usize = 0;
    proof {
        lemma_chained_ends(empty, parts);
    }
    while i < n
        invariant
            i <= n,
            n <= width,
            parts == Seq::new(n as nat, |i: int| shade(i, width as nat)),
            s@ == empty + chained(parts.take(i as int)),
        decreases n - i,
    {
        let block = if is_ratio_below(i, width, THIRD, THIRD_OF) {
            green("█")
        } else if is_ratio_below(i, width, 2 * THIRD, THIRD_OF) {
            yellow("█")
        } else {
            red("█")
        };
        assert(block@ == parts[i as int]);
        s.append(block.as_str());
        proof {
            lemma_chained_step(empty, parts, i as int);
        }
        i = i + 1;
    }
    assert(empty + chained(parts) =~= chained(parts));
    s
}

// ── Paths ───────────────────────────────────────────────────────────────────

/// One user of a chain of `n`: the first is bold, the last stands out, and a dot
/// is before each but the first.
pub open spec fn link(user: Seq<char>, i: int, n: nat) -> Seq<char> {
    if i == 0 {
        emboldened(user)
    } else if i == n - 1 {
        " "@ + dimmed("·"@) + " "@ + emboldened(in_green(user))
    } else {
        " "@ + dimmed("·"@) + " "@ + user
    }
}

pub open spec fn chain_text(users: Seq<Seq<char>>) -> Seq<char> {
    chained(Seq::new(users.len(), |i: int| link(users[i], i, users.len())))
}

/// A chain of users, such as `A · B · C`, with a bold start and a green target.
pub fn path_chain(users: &[&str]) -> (r: String)
    ensures
        r@ == chain_text(slices(users@)),
{
    let ghost us = slices(users@);
    let ghost parts = Seq::new(us.len(), |i: int| link(us[i], i, us.len()));
    let mut s = String::new();
    let ghost empty = s@;
    let n: usize = users.len();
    let mut i: usize = 0;
    proof {
        lemma_chained_ends(empty, parts);
    }
    while i < n
        invariant
            i <= n,
            n == users@.len(),
            us == slices(users@),
            parts == Seq::new(us.len(), |i: int| link(us[i], i, us.len())),
            s@ == empty + chained(parts.take(i as int)),
        decreases n - i,
    {
        assert(us[i as int] == users@[i as int]@);
        let part: String = if i == 0 {
            bold(users[i])
        } else {
            let mut part = String::from_str(" ");
            part.append(dim("·").as_str());
            part.append(" ");
            if i == n - 1 {
                part.append(target(users[i]).as_str());
            } else {
                part.append(users[i]);
            }
            part
        };
        assert(part@ == parts[i as int]);
        s.append(part.as_str());
        proof {
            lemma_chained_step(empty, parts, i as int);
        }
        i = i + 1;
    }
    assert(empty + chained(parts) =~= chained(parts));
    s
}

pub open spec fn edge_text(from: Seq<char>, to: Seq<char>) -> Seq<char> {
    from + " "@ + dimmed("→"@) + " "@ + to
}

/// Who follows whom.
pub fn directed_edge(from: &str, to: &str) -> (r: String)
    ensures
        r@ == edge_text(from@, to@),
{
    let mut s = String::from_str(from);
    s.append(" ");
    s.append(dim("→").as_str());
    s.append(" ");
    s.append(to);
    s
}

// ── Lists ───────────────────────────────────────────────────────────────────

pub open spec fn list_text(items: Seq<Seq<char>>, max: nat) -> Seq<char> {
    if items.len() == 0 {
        dimmed("无"@)
    } else if items.len() <= max {
        joined(items, ", "@)
    } else {
        joined(items.take(max as int), ", "@) + " 等 "@ + decimal((items.len() - max) as nat)
            + " 人"@
    }
}

/// Names with commas between them; beyond the first `max` only their number.
pub fn truncate_list(items: &[String], max: usize) -> (r: String)
    ensures
        r@ == list_text(views(items@), max as nat),
{
    if items.len() == 0 {
        return dim("无");
    }
    if items.len() <= max {
        return join(items, ", ");
    }
    let mut s = join_first(items, max, ", ");
    s.append(" 等 ");
    s.append(dec((items.len() - max) as u64).as_str());
    s.append(" 人");
    s
}

// ── Times ───────────────────────────────────────────────────────────────────

pub open spec fn uptime_text(secs: nat) -> Seq<char> {
    let h = secs / 3600;
    let m = (secs % 3600) / 60;
    let s = secs % 60;
    if h > 0 {
        decimal(h) + "h "@ + decimal(m) + "m "@ + decimal(s) + "s"@
    } else if m > 0 {
        decimal(m) + "m "@ + decimal(s) + "s"@
    } else {
        decimal(s) + "s"@
    }
}

/// A duration in hours, minutes and seconds, from the largest unit that is not
/// zero.
pub fn fmt_uptime(secs: u64) -> (r: String)
    ensures
        r@ == uptime_text(secs as nat),
{
    let h: u64 = secs / 3600;
    let m: u64 = (secs % 3600) / 60;
    let s: u64 = secs % 60;
    let mut r: String;
    if h > 0 {
        r = dec(h);
        r.append("h ");
        r.append(dec(m).as_str());
        r.append("m ");
        r.append(dec(s).as_str());
    } else if m > 0 {
        r = dec(m);
        r.append("m ");
        r.append(dec(s).as_str());
    } else {
        r = dec(s);
    }
    r.append("s");
    r
}

// ── Columns ─────────────────────────────────────────────────────────────────

/// The text with blanks behind it up to the width, where it has the width `w`.
pub open spec fn padded_right(s: Seq<char>, w: nat, width: nat) -> Seq<char> {
    if w >= width {
        s
    } else {
        s + blanks((width - w) as nat)
    }
}

/// The text with blanks before it up to the width, where it has the width `w`.
pub open spec fn padded_left(s: Seq<char>, w: nat, width: nat) -> Seq<char> {
    if w >= width {
        s
    } else {
        blanks((width - w) as nat) + s
    }
}

/// So many blanks are so many characters.
proof fn lemma_blanks(n: nat)
    ensures
        blanks(n).len() == n,
    decreases n,
{
    reveal_strlit(" ");
    if n > 0 {
        lemma_blanks((n - 1) as nat);
    }
}

/// A text of `w` columns with blanks behind it up to `width` columns.
pub fn pad_right_with(s: &str, w: usize, width: usize) -> (r: String)
    ensures
        r@ == padded_right(s@, w as nat, width as nat),
{
    let mut r = String::from_str(s);
    if w < width {
        r.append(repeat(" ", width - w).as_str());
    }
    r
}

/// A text of `w` columns with blanks before it up to `width` columns.
pub fn pad_left_with(s: &str, w: usize, width: usize) -> (r: String)
    ensures
        r@ == padded_left(s@, w as nat, width as nat),
{
    if w < width {
        let mut r = repeat(" ", width - w);
        r.append(s);
        r
    } else {
        String::from_str(s)
    }
}

/// A text with blanks behind it up to `width` columns.
pub fn pad_right(s: &str, width: usize) -> (r: String)
    ensures
        r@ == padded_right(s@, display_width(s@), width as nat),
        printable(s@) && s@.len() <= width ==> r@.len() == width,
{
    let w: usize = width_of(s);
    proof {
        if w < width {
            lemma_blanks((width - w) as nat);
        }
    }
    pad_right_with(s, w, width)
}

/// A text with blanks before it up to `width` columns.
pub fn pad_left(s: &str, width: usize) -> (r: String)
    ensures
        r@ == padded_left(s@, display_width(s@), width as nat),
        printable(s@) && s@.len() <= width ==> r@.len() == width,
{
    let w: usize = width_of(s);
    proof {
        if w < width {
            lemma_blanks((width - w) as nat);
        }
    }
    pad_left_with(s, w, width)
}

/// The longest beginning of the text that fits into the columns, where its
/// beginnings have the given widths, by their length.
pub open spec fn cut(s: Seq<char>, widths: Seq<nat>, width: nat) -> Seq<char>
    decreases s.len(),
{
    if s.len() == 0 || widths[s.len() as int] <= width {
        s
    } else {
        cut(s.drop_last(), widths, width)
    }
}

/// The widths of the beginnings of a text, by their length.
pub open spec fn prefix_widths(s: Seq<char>) -> Seq<nat> {
    Seq::new(s.len() + 1, |n: int| display_width(s.take(n)))
}

/// What is left of a cut text fits, unless nothing is left.
pub proof fn law_cut_fits(s: Seq<char>, widths: Seq<nat>, width: nat)
    ensures
        cut(s, widths, width).is_prefix_of(s),
        cut(s, widths, width).len() > 0 ==> widths[cut(s, widths, width).len() as int] <= width,
    decreases s.len(),
{
    if !(s.len() == 0 || widths[s.len() as int] <= width) {
        law_cut_fits(s.drop_last(), widths, width);
    }
}

/// The longest beginning of a text that fits into `width` columns, where its
/// beginnings have the given widths, by their length.
pub fn truncate_with(s: &str, widths: &Vec<usize>, width: usize) -> (r: String)
    requires
        widths@.len() == s@.len() + 1,
    ensures
        r@ == cut(s@, nats(widths@), width as nat),
{
    let v = chars_of(s);
    let ghost ws = nats(widths@);
    let mut n: usize = v.len();
    assert(v@.take(n as int) =~= v@);
    while n > 0 && widths[n] > width
        invariant
            n <= v@.len(),
            v@ == s@,
            widths@.len() == v@.len() + 1,
            ws == nats(widths@),
            cut(v@, ws, width as nat) == cut(v@.take(n as int), ws, width as nat),
        decreases n,
    {
        assert(v@.take(n as int).drop_last() =~= v@.take(n - 1));
        assert(ws[n as int] == widths@[n as int]);
        n = n - 1;
    }
    assert(ws[n as int] == widths@[n as int]);
    assert(v@.subrange(0, n as int) =~= v@.take(n as int));
    text_of(&v, 0, n)
}

/// The longest beginning of a text that fits into `width` columns.
pub fn truncate_str(s: &str, width: usize) -> (r: String)
    ensures
        r@ == cut(s@, prefix_widths(s@), width as nat),
{
    let v = chars_of(s);
    let mut widths: Vec<usize> = Vec::new();
    let mut n: usize = 0;
    while n < v.len()
        invariant
            v@ == s@,
            n <= v@.len(),
            widths@.len() == n,
            nats(widths@) =~= prefix_widths(s@).take(n as int),
        decreases v@.len() - n,
    {
        let ghost w0 = nats(widths@);
        let prefix = text_of(&v, 0, n);
        assert(prefix@ =~= s@.take(n as int));
        widths.push(width_of(prefix.as_str()));
        assert(nats(widths@) =~= w0.push(prefix_widths(s@)[n as int]));
        n = n + 1;
    }
    let ghost w0 = nats(widths@);
    widths.push(width_of(s));
    assert(s@.take(n as int) =~= s@);
    assert(nats(widths@) =~= w0.push(prefix_widths(s@)[n as int]));
    assert(nats(widths@) =~= prefix_widths(s@));
    truncate_with(s, &widths, width)
}

/// Keys and values in two columns, where the keys have the given widths.
pub open spec fn kv_text(
    keys: Seq<Seq<char>>,
    values: Seq<Seq<char>>,
    widths: Seq<nat>,
) -> Seq<char> {
    joined(
        Seq::new(
            keys.len(),
            |i: int|
                "  "@ + keys[i] + blanks((widest(widths) - widths[i]) as nat) + "  "@ + values[i],
        ),
        "\n"@,
    )
}

/// Keys and values in two columns, one pair a line, where the keys have the given
/// widths.
pub fn kv_grid_with(items: &[TreeItem], widths: &Vec<usize>) -> (r: String)
    requires
        widths@.len() == items@.len(),
    ensures
        r@ == kv_text(item_keys(items@), item_values(items@), nats(widths@)),
{
    let ghost ks = item_keys(items@);
    let ghost vs = item_values(items@);
    let ghost ws = nats(widths@);
    let ghost parts = Seq::new(
        ks.len(),
        |i: int| "  "@ + ks[i] + blanks((widest(ws) - ws[i]) as nat) + "  "@ + vs[i],
    );
    let max: usize = max_width(widths);
    let mut lines: Vec<String> = Vec::new();
    let mut i: usize = 0;
    while i < items.len()
        invariant
            widths@.len() == items@.len(),
            i <= items@.len(),
            ks == item_keys(items@),
            vs == item_values(items@),
            ws == nats(widths@),
            max == widest(ws),
            forall|k: int| 0 <= k < widths@.len() ==> (#[trigger] widths@[k]) <= max,
            parts == Seq::new(
                ks.len(),
                |i: int| "  "@ + ks[i] + blanks((widest(ws) - ws[i]) as nat) + "  "@ + vs[i],
            ),
            views(lines@) =~= parts.take(i as int),
        decreases items@.len() - i,
    {
        let ghost l0 = views(lines@);
        let item = &items[i];
        assert(ks[i as int] == item.key@ && vs[i as int] == item.value@);
        assert(ws[i as int] == widths@[i as int]);
        let mut line = String::from_str("  ");
        line.append(item.key.as_str());
        line.append(repeat(" ", max - widths[i]).as_str());
        line.append("  ");
        line.append(item.value.as_str());
        assert(line@ == parts[i as int]);
        let ghost m = line@;
        lines.push(line);
        assert(views(lines@) =~= l0.push(m));
        assert(parts.take(i + 1) =~= parts.take(i as int).push(m));
        i = i + 1;
    }
    assert(parts.take(i as int) =~= parts);
    join(lines.as_slice(), "\n")
}

/// Keys and values in two columns, one pair a line.
pub fn kv_grid(items: &[TreeItem]) -> (r: String)
    ensures
        r@ == kv_text(
            item_keys(items@),
            item_values(items@),
            widths_of(item_keys(items@)),
        ),
{
    let widths = key_widths(items);
    kv_grid_with(items, &widths)
}

// ── What is seen ────────────────────────────────────────────────────────────

/// The sequences that switch each style on and off again.
pub proof fn law_styles(s: Seq<char>)
    ensures
        dimmed(s) == "\x1b[2m"@ + s + "\x1b[0m"@,
        emboldened(s) == "\x1b[1m"@ + s + "\x1b[0m"@,
        in_red(s) == "\x1b[31m"@ + s + "\x1b[39m"@,
        in_green(s) == "\x1b[32m"@ + s + "\x1b[39m"@,
        in_yellow(s) == "\x1b[33m"@ + s + "\x1b[39m"@,
        in_blue(s) == "\x1b[34m"@ + s + "\x1b[39m"@,
        in_cyan(s) == "\x1b[36m"@ + s + "\x1b[39m"@,
{
}

/// A control sequence is the escape character, a bracket, any characters below `@` or
/// above `~`, and one from `@` to `~`; none of it is shown, and everything else is.
pub proof fn law_control_sequences(c: char)
    ensures
        escape_step(Escape::Outside, '\u{1b}') is Begun,
        c != '\u{1b}' ==> escape_step(Escape::Outside, c) is Outside && shows(
            Escape::Outside,
            c,
        ),
        !shows(Escape::Outside, '\u{1b}'),
        escape_step(Escape::Begun, '[') is Inside && !shows(Escape::Begun, '['),
        escape_step(Escape::Begun, '\u{1b}') is Begun && !shows(Escape::Begun, '\u{1b}'),
        c != '[' && c != '\u{1b}' ==> escape_step(Escape::Begun, c) is Outside && shows(
            Escape::Begun,
            c,
        ),
        64 <= c as u32 <= 126 ==> escape_step(Escape::Inside, c) is Outside,
        !(64 <= c as u32 <= 126) ==> escape_step(Escape::Inside, c) is Inside,
        !shows(Escape::Inside, c),
{
}

/// A text is stripped character by character: each is kept where it is shown.
pub proof fn law_stripping_keeps_what_is_shown(s: Seq<char>, c: char)
    ensures
        stripped(Seq::empty()).len() == 0,
        escape_after(Seq::empty()) is Outside,
        escape_after(s.push(c)) == escape_step(escape_after(s), c),
        shows(escape_after(s), c) ==> stripped(s.push(c)) == stripped(s).push(c),
        !shows(escape_after(s), c) ==> stripped(s.push(c)) == stripped(s),
{
    assert(s.push(c).drop_last() =~= s);
}

/// Up to three digits stand alone, and before each three more a comma.
pub proof fn law_commas_are_three_digits_apart(digits: Seq<char>, more: Seq<char>)
    ensures
        digits.len() <= 3 ==> grouped(digits) == digits,
        digits.len() > 0 && more.len() == 3 ==> grouped(digits + more) == grouped(digits) + ","@
            + more,
{
    if digits.len() > 0 && more.len() == 3 {
        let all = digits + more;
        assert(all.take(all.len() - 3) =~= digits);
        assert(all.skip(all.len() - 3) =~= more);
    }
}

/// A density is green above a thousandth, yellow above a ten-thousandth and red else, and
/// a modularity green above a half, yellow above three tenths and dim else, by their bits
/// up to those of the infinite; what is no number is as if it were small.
pub proof fn law_fractions_have_a_colour(text: Seq<char>, bits: u64)
    ensures
        0x3f50_624d_d2f1_a9fc < bits <= 0x7ff0_0000_0000_0000 ==> density_text(text, bits)
            == in_green(text),
        0x3f1a_36e2_eb1c_432d < bits <= 0x3f50_624d_d2f1_a9fc ==> density_text(text, bits)
            == in_yellow(text),
        bits <= 0x3f1a_36e2_eb1c_432d || bits > 0x7ff0_0000_0000_0000 ==> density_text(text, bits)
            == in_red(text),
        0x3fe0_0000_0000_0000 < bits <= 0x7ff0_0000_0000_0000 ==> modularity_text(text, bits)
            == in_green(text),
        0x3fd3_3333_3333_3333 < bits <= 0x3fe0_0000_0000_0000 ==> modularity_text(text, bits)
            == in_yellow(text),
        bits <= 0x3fd3_3333_3333_3333 || bits > 0x7ff0_0000_0000_0000 ==> modularity_text(
            text,
            bits,
        ) == dimmed(text),
{
}

/// An impact is red from a thousand on, yellow from a hundred on, and plain below.
pub proof fn law_impacts_have_a_colour(impact: nat)
    ensures
        impact >= 1000 ==> impact_text(impact) == in_red("+"@ + decimal(impact)),
        100 <= impact < 1000 ==> impact_text(impact) == in_yellow("+"@ + decimal(impact)),
        impact < 100 ==> impact_text(impact) == "+"@ + decimal(impact),
{
}

/// A header is a mark and a title, and behind them what else is to be said, dimmed.
pub proof fn law_headers(emoji: Seq<char>, title: Seq<char>, meta: Seq<char>)
    ensures
        meta.len() == 0 ==> header_text(emoji, title, meta) == emoji + " "@ + title,
        meta.len() > 0 ==> header_text(emoji, title, meta) == emoji + " "@ + title + "  "@
            + dimmed(meta),
        section_text(title) == "  "@ + emboldened(title),
{
}

/// The widest is at least as wide as each, and is one of them.
pub proof fn law_widest_is_one_of_them(widths: Seq<nat>)
    ensures
        forall|i: int| 0 <= i < widths.len() ==> #[trigger] widths[i] <= widest(widths),
        widths.len() > 0 ==> widths.contains(widest(widths)),
        widths.len() == 0 ==> widest(widths) == 0,
    decreases widths.len(),
{
    if widths.len() > 0 {
        let rest = widths.drop_last();
        law_widest_is_one_of_them(rest);
        assert forall|i: int| 0 <= i < widths.len() implies #[trigger] widths[i] <= widest(
            widths,
        ) by {
            if i < rest.len() {
                assert(rest[i] == widths[i]);
            }
        }
        if widths.last() > widest(rest) {
            assert(widths[widths.len() - 1] == widest(widths));
        } else if rest.len() > 0 {
            let k = choose|k: int| 0 <= k < rest.len() && rest[k] == widest(rest);
            assert(widths[k] == widest(widths));
        } else {
            assert(widths[0] == widest(widths));
        }
    }
}

/// The last line of a block has the closing branch, and nothing goes on below it; every
/// other line has the open one, and a stroke goes on below.
pub proof fn law_branches(i: int, n: nat)
    requires
        0 <= i < n,
    ensures
        i + 1 == n ==> branch(i, n) == "└ "@ && under(i, n) == "    "@,
        i + 1 < n ==> branch(i, n) == "├ "@ && under(i, n) == "│   "@,
{
}

/// A tree block has its title, and below it a line for each key, with the value behind it
/// in a column of its own.
pub proof fn law_tree_blocks(
    title: Seq<char>,
    keys: Seq<Seq<char>>,
    values: Seq<Seq<char>>,
    widths: Seq<nat>,
    i: int,
)
    requires
        keys.len() == values.len() == widths.len(),
        0 <= i < keys.len(),
    ensures
        tree_row(keys, values, widths, i) == "\n  "@ + branch(i, keys.len()) + keys[i] + blanks(
            (widest(widths) - widths[i]) as nat,
        ) + "  "@ + values[i],
        widths[i] + (widest(widths) - widths[i]) as nat == widest(widths),
        tree_text(title, keys, values, widths) == "  "@ + emboldened(title) + chained(
            Seq::new(keys.len(), |k: int| tree_row(keys, values, widths, k)),
        ),
{
    law_widest_is_one_of_them(widths);
}

/// Below each group of a nested tree stand its items; below the head of a card its lines.
pub proof fn law_nested_blocks(
    title: Seq<char>,
    groups: Seq<GroupModel>,
    g: GroupModel,
    i: int,
    n: nat,
)
    ensures
        group_text(g, i, n) == "\n  "@ + branch(i, n) + g.label + chained(
            Seq::new(
                g.items.len(),
                |j: int| "\n  "@ + under(i, n) + branch(j, g.items.len()) + g.items[j],
            ),
        ),
        nested_text(title, groups) == "  "@ + emboldened(title) + chained(
            Seq::new(groups.len(), |k: int| group_text(groups[k], k, groups.len())),
        ),
        card_text(title, g.items) == "  "@ + title + chained(
            Seq::new(
                g.items.len(),
                |j: int| "\n  "@ + branch(j, g.items.len()) + g.items[j],
            ),
        ),
{
}

/// A cell has two blanks before it unless it is the first, and is filled up to its column
/// unless it is the last; a grid has its headers, and below them each row in a line.
pub proof fn law_grids(
    indent: Seq<char>,
    headers: Seq<Seq<char>>,
    rows: Seq<Seq<Seq<char>>>,
    heads: Seq<nat>,
    widths: Seq<Seq<nat>>,
    shown: Seq<char>,
    width: nat,
    c: int,
)
    ensures
        c > 0 && c + 1 < heads.len() ==> cell_text(shown, width, heads, widths, c) == "  "@ + shown
            + blanks((column_width(heads[c], widths, c) - width) as nat),
        c == 0 && c + 1 < heads.len() ==> cell_text(shown, width, heads, widths, c) == ""@ + shown
            + blanks((column_width(heads[c], widths, c) - width) as nat),
        c > 0 && c + 1 >= heads.len() ==> cell_text(shown, width, heads, widths, c) == "  "@ + shown
            + ""@,
        grid_text(indent, headers, rows, heads, widths) == indent + chained(
            Seq::new(
                headers.len(),
                |k: int| cell_text(headers[k], heads[k], heads, widths, k),
            ),
        ) + chained(
            Seq::new(
                rows.len(),
                |r: int|
                    "\n"@ + indent + chained(
                        Seq::new(
                            rows[r].len(),
                            |k: int| cell_text(rows[r][k], widths[r][k], heads, widths, k),
                        ),
                    ),
            ),
        ),
{
    let a = Seq::new(rows.len(), |r: int| "\n"@ + indent + row_text(rows[r], heads, widths, r));
    let b = Seq::new(
        rows.len(),
        |r: int|
            "\n"@ + indent + chained(
                Seq::new(
                    rows[r].len(),
                    |k: int| cell_text(rows[r][k], widths[r][k], heads, widths, k),
                ),
            ),
    );
    assert(a =~= b);
}

/// A bar has as many places as the value is of the maximum, and one at least; without a
/// maximum or a width there is none.
pub proof fn law_bars(value: nat, max: nat, width: nat)
    ensures
        max == 0 || width == 0 ==> bar_text(value, max, width) == ""@,
        max > 0 && width > 0 && proportion(value, max, width) >= 1 ==> bar_text(value, max, width)
            == dimmed(repeated("█"@, proportion(value, max, width))),
        max > 0 && width > 0 && proportion(value, max, width) == 0 ==> bar_text(value, max, width)
            == dimmed(repeated("█"@, 1)),
{
}

/// A gradient bar is green in its first third, yellow in the second and red in the last,
/// in single precision, and has no more places than its width.
pub proof fn law_gradient_bars(filled: nat, width: nat, i: int)
    ensures
        ratio_below(i as nat, width, 11_072_963, 33_554_432) ==> shade(i, width) == in_green("█"@),
        !ratio_below(i as nat, width, 11_072_963, 33_554_432) && ratio_below(
            i as nat,
            width,
            22_145_926,
            33_554_432,
        ) ==> shade(i, width) == in_yellow("█"@),
        !ratio_below(i as nat, width, 11_072_963, 33_554_432) && !ratio_below(
            i as nat,
            width,
            22_145_926,
            33_554_432,
        ) ==> shade(i, width) == in_red("█"@),
        filled <= width ==> weight_bar_text(filled, width) == chained(
            Seq::new(filled, |k: int| shade(k, width)),
        ),
        filled > width ==> weight_bar_text(filled, width) == chained(
            Seq::new(width, |k: int| shade(k, width)),
        ),
{
}

/// In a chain the first user is bold, the last one bold and green, and a dot is before
/// each but the first; an edge has an arrow.
pub proof fn law_chains(users: Seq<Seq<char>>, a: Seq<char>, b: Seq<char>, i: int, n: nat)
    ensures
        link(a, 0, n) == emboldened(a),
        0 < i && i + 1 == n ==> link(a, i, n) == " "@ + dimmed("·"@) + " "@ + emboldened(
            in_green(a),
        ),
        0 < i && i + 1 < n ==> link(a, i, n) == " "@ + dimmed("·"@) + " "@ + a,
        chain_text(users) == chained(
            Seq::new(users.len(), |k: int| link(users[k], k, users.len())),
        ),
        edge_text(a, b) == a + " "@ + dimmed("→"@) + " "@ + b,
{
}

/// A list names everybody up to the limit, and beyond it says how many more there are.
pub proof fn law_lists(items: Seq<Seq<char>>, max: nat)
    ensures
        items.len() == 0 ==> list_text(items, max) == dimmed("无"@),
        0 < items.len() <= max ==> list_text(items, max) == joined(items, ", "@),
        items.len() > max ==> list_text(items, max) == joined(items.take(max as int), ", "@)
            + " 等 "@ + decimal((items.len() - max) as nat) + " 人"@,
{
}

/// A time is told in hours, minutes and seconds that add up to it, the larger ones only
/// where there are any.
pub proof fn law_uptime_adds_up(h: nat, m: nat, s: nat)
    requires
        m < 60,
        s < 60,
    ensures
        h > 0 ==> uptime_text(3600 * h + 60 * m + s) == decimal(h) + "h "@ + decimal(m) + "m "@
            + decimal(s) + "s"@,
        h == 0 && m > 0 ==> uptime_text(60 * m + s) == decimal(m) + "m "@ + decimal(s) + "s"@,
        h == 0 && m == 0 ==> uptime_text(s) == decimal(s) + "s"@,
{
    let t = 3600 * h + 60 * m + s;
    assert(t / 3600 == h && t % 3600 == 60 * m + s);
    assert((60 * m + s) / 60 == m);
    assert(t % 60 == s);
    assert((60 * m + s) % 60 == s);
}

/// Padding fills a text up to its width on one side, and leaves a wider one alone.
pub proof fn law_padding(s: Seq<char>, w: nat, width: nat)
    ensures
        w >= width ==> padded_right(s, w, width) == s && padded_left(s, w, width) == s,
        w < width ==> padded_right(s, w, width) == s + blanks((width - w) as nat),
        w < width ==> padded_left(s, w, width) == blanks((width - w) as nat) + s,
{
}

/// What is cut off does not fit: the beginning that is left fits, unless it is empty, and
/// none that is longer does.
pub proof fn law_cut_is_the_longest_that_fits(s: Seq<char>, widths: Seq<nat>, width: nat)
    ensures
        cut(s, widths, width) == s.take(cut(s, widths, width).len() as int),
        cut(s, widths, width).len() <= s.len(),
        cut(s, widths, width).len() > 0 ==> widths[cut(s, widths, width).len() as int] <= width,
        forall|n: int|
            cut(s, widths, width).len() < n <= s.len() ==> #[trigger] widths[n] > width,
    decreases s.len(),
{
    if s.len() == 0 || widths[s.len() as int] <= width {
        assert(s.take(s.len() as int) =~= s);
    } else {
        let rest = s.drop_last();
        law_cut_is_the_longest_that_fits(rest, widths, width);
        let n = cut(s, widths, width).len() as int;
        assert(rest.take(n) =~= s.take(n));
        assert forall|k: int| n < k <= s.len() implies #[trigger] widths[k] > width by {
            if k <= rest.len() {
                assert(widths[k] > width);
            }
        }
    }
}

/// The widths of the beginnings of a text are those that a terminal gives them.
pub proof fn law_widths_of_beginnings(s: Seq<char>, n: int)
    requires
        0 <= n <= s.len(),
    ensures
        prefix_widths(s).len() == s.len() + 1,
        prefix_widths(s)[n] == display_width(s.take(n)),
{
}

/// Keys and values stand in two columns, a line for each.
pub proof fn law_columns_of_keys_and_values(
    keys: Seq<Seq<char>>,
    values: Seq<Seq<char>>,
    widths: Seq<nat>,
)
    ensures
        kv_text(keys, values, widths) == joined(
            Seq::new(
                keys.len(),
                |i: int|
                    "  "@ + keys[i] + blanks((widest(widths) - widths[i]) as nat) + "  "@
                        + values[i],
            ),
            "\n"@,
        ),
{
}

/// The models of lists keep what they are of, at its place.
pub proof fn law_display_models_keep_the_places(
    items: Seq<TreeItem>,
    groups: Seq<TreeGroup>,
    rows: Seq<Vec<String>>,
    texts: Seq<Seq<char>>,
    sizes: Seq<usize>,
    words: Seq<&str>,
    i: int,
)
    ensures
        item_keys(items).len() == items.len() && item_values(items).len() == items.len(),
        0 <= i < items.len() ==> item_keys(items)[i] == items[i].key@ && item_values(items)[i]
            == items[i].value@,
        group_models(groups).len() == groups.len(),
        0 <= i < groups.len() ==> group_models(groups)[i].label == groups[i].label@
            && group_models(groups)[i].items == views(groups[i].items@),
        cells(rows).len() == rows.len(),
        0 <= i < rows.len() ==> cells(rows)[i] == views(rows[i]@),
        widths_of(texts).len() == texts.len() && visible_widths(texts).len() == texts.len(),
        0 <= i < texts.len() ==> widths_of(texts)[i] == display_width(texts[i])
            && visible_widths(texts)[i] == display_width(stripped(texts[i])),
        all_dimmed(texts).len() == texts.len(),
        0 <= i < texts.len() ==> all_dimmed(texts)[i] == dimmed(texts[i]),
        nats(sizes).len() == sizes.len(),
        0 <= i < sizes.len() ==> nats(sizes)[i] == sizes[i],
        slices(words).len() == words.len(),
        0 <= i < words.len() ==> slices(words)[i] == words[i]@,
{
}

/// The widths of a grid are those of its cells.
pub proof fn law_grid_widths(
    rows: Seq<Seq<Seq<char>>>,
    sizes: Seq<Vec<usize>>,
    r: int,
)
    ensures
        cell_widths(rows).len() == rows.len() && nat_rows(sizes).len() == sizes.len(),
        0 <= r < rows.len() ==> cell_widths(rows)[r] == visible_widths(rows[r]),
        0 <= r < sizes.len() ==> nat_rows(sizes)[r] == nats(sizes[r]@),
{
}

} // verus!
