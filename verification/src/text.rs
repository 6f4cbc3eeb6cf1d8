//! Text building blocks: decimal numbers, repetition, joining, trimming.
use vstd::prelude::*;
use vstd::string::*;

verus! {

/// `String::push` appends the given character to the end of the string.
pub assume_specification[ String::push ](s: &mut String, ch: char)
    ensures
        final(s)@ == old(s)@.push(ch),
;

/// Unicode gives the character the `White_Space` property.
pub open spec fn is_white(c: char) -> bool {
    ||| 0x09 <= c as u32 <= 0x0D
    ||| c as u32 == 0x20
    ||| c as u32 == 0x85
    ||| c as u32 == 0xA0
    ||| c as u32 == 0x1680
    ||| 0x2000 <= c as u32 <= 0x200A
    ||| c as u32 == 0x2028
    ||| c as u32 == 0x2029
    ||| c as u32 == 0x202F
    ||| c as u32 == 0x205F
    ||| c as u32 == 0x3000
}

/// Whether a character is white space.
fn white(c: char) -> (r: bool)
    ensures
        r == is_white(c),
{
    let n: u32 = c as u32;
    (n >= 0x09 && n <= 0x0D) || n == 0x20 || n == 0x85 || n == 0xA0 || n == 0x1680 || (n >= 0x2000
        && n <= 0x200A) || n == 0x2028 || n == 0x2029 || n == 0x202F || n == 0x205F || n == 0x3000
}

/// The views of a list of strings.
pub open spec fn views(items: Seq<String>) -> Seq<Seq<char>> {
    items.map_values(|s: String| s@)
}

/// `unit` written `n` times.
pub open spec fn repeated(unit: Seq<char>, n: nat) -> Seq<char>
    decreases n,
{
    if n == 0 {
        Seq::empty()
    } else {
        repeated(unit, (n - 1) as nat) + unit
    }
}

/// `n` blanks.
pub open spec fn blanks(n: nat) -> Seq<char> {
    repeated(" "@, n)
}

/// The parts in order with `sep` between each two of them.
pub open spec fn joined(parts: Seq<Seq<char>>, sep: Seq<char>) -> Seq<char>
    decreases parts.len(),
{
    if parts.len() == 0 {
        Seq::empty()
    } else if parts.len() == 1 {
        parts[0]
    } else {
        joined(parts.drop_last(), sep) + sep + parts.last()
    }
}

/// The parts one after the other.
pub open spec fn chained(parts: Seq<Seq<char>>) -> Seq<char>
    decreases parts.len(),
{
    if parts.len() == 0 {
        Seq::empty()
    } else {
        chained(parts.drop_last()) + parts.last()
    }
}

/// Appending one more part to a head and the parts before it.
pub proof fn lemma_chained_step(head: Seq<char>, parts: Seq<Seq<char>>, i: int)
    requires
        0 <= i < parts.len(),
    ensures
        head + chained(parts.take(i)) + parts[i] == head + chained(parts.take(i + 1)),
{
    assert(parts.take(i + 1).drop_last() =~= parts.take(i));
    assert(head + chained(parts.take(i)) + parts[i] =~= head + (chained(parts.take(i))
        + parts[i]));
}

/// A head without parts, and with all of them.
pub proof fn lemma_chained_ends(head: Seq<char>, parts: Seq<Seq<char>>)
    ensures
        head + chained(parts.take(0)) == head,
        parts.take(parts.len() as int) == parts,
{
    assert(head + chained(parts.take(0)) =~= head);
    assert(parts.take(parts.len() as int) =~= parts);
}

/// The decimal digit of a number below ten.
pub open spec fn digit(d: nat) -> char {
    (48 + d) as char
}

/// `n` in decimal notation, without leading zeros.
pub open spec fn decimal(n: nat) -> Seq<char>
    decreases n,
{
    if n < 10 {
        seq![digit(n)]
    } else {
        decimal(n / 10).push(digit(n % 10))
    }
}

/// `i` in decimal notation, with a minus sign where it is negative.
pub open spec fn decimal_int(i: int) -> Seq<char> {
    if i < 0 {
        "-"@ + decimal((-i) as nat)
    } else {
        decimal(i as nat)
    }
}

/// The characters of `s` in a list.
pub fn chars_of(s: &str) -> (v: Vec<char>)
    ensures
        v@ == s@,
{
    let mut v: Vec<char> = Vec::new();
    for c in it: s.chars()
        invariant
            it.seq() == s@,
            v@ == s@.take(it.index() as int),
    {
        v.push(c);
    }
    assert(s@.take(s@.len() as int) =~= s@);
    v
}

/// The string of the characters of `v` from `from` up to `to`.
pub fn text_of(v: &Vec<char>, from: usize, to: usize) -> (s: String)
    requires
        from <= to <= v@.len(),
    ensures
        s@ == v@.subrange(from as int, to as int),
{
    let mut s = String::new();
    let mut i: usize = from;
    while i < to
        invariant
            from <= i <= to <= v@.len(),
            s@ == v@.subrange(from as int, i as int),
        decreases to - i,
    {
        s.push(v[i]);
        i = i + 1;
    }
    s
}

/// Whether both hold the same characters.
pub fn same(a: &str, b: &str) -> (r: bool)
    ensures
        r == (a@ == b@),
{
    a.to_owned() == b.to_owned()
}

/// `unit` written `n` times.
pub fn repeat(unit: &str, n: usize) -> (s: String)
    ensures
        s@ == repeated(unit@, n as nat),
{
    let mut s = String::new();
    let mut i: usize = 0;
    while i < n
        invariant
            i <= n,
            s@ == repeated(unit@, i as nat),
        decreases n - i,
    {
        s.append(unit);
        i = i + 1;
    }
    s
}

/// The items in order with `sep` between each two of them.
pub fn join(items: &[String], sep: &str) -> (s: String)
    ensures
        s@ == joined(views(items@), sep@),
{
    assert(views(items@).take(items@.len() as int) =~= views(items@));
    join_first(items, items.len(), sep)
}

/// The first `n` items in order with `sep` between each two of them.
pub fn join_first(items: &[String], n: usize, sep: &str) -> (s: String)
    requires
        n <= items@.len(),
    ensures
        s@ == joined(views(items@).take(n as int), sep@),
{
    let mut s = String::new();
    let mut i: usize = 0;
    let ghost all = views(items@);
    assert(all.take(0) =~= Seq::empty());
    while i < n
        invariant
            i <= n <= items@.len(),
            all == views(items@),
            s@ == joined(all.take(i as int), sep@),
        decreases n - i,
    {
        if i > 0 {
            s.append(sep);
        }
        s.append(items[i].as_str());
        proof {
            lemma_joined_step(all, sep@, i as int);
            assert(all[i as int] == items@[i as int]@);
        }
        i = i + 1;
    }
    s
}

/// One more part appends the separator, unless it is the first, and the part.
pub proof fn lemma_joined_step(parts: Seq<Seq<char>>, sep: Seq<char>, i: int)
    requires
        0 <= i < parts.len(),
    ensures
        i == 0 ==> joined(parts.take(1), sep) == parts[0],
        i > 0 ==> joined(parts.take(i + 1), sep) == joined(parts.take(i), sep) + sep + parts[i],
        i == 0 ==> joined(parts.take(0), sep) == Seq::<char>::empty(),
{
    assert(parts.take(i + 1).drop_last() =~= parts.take(i));
}

/// `n` in decimal notation.
pub fn dec(n: u64) -> (s: String)
    ensures
        s@ == decimal(n as nat),
    decreases n,
{
    let low: u8 = (n % 10) as u8;
    let mut s: String = if n < 10 {
        String::new()
    } else {
        dec(n / 10)
    };
    s.push((48u8 + low) as char);
    assert(s@ =~= decimal(n as nat));
    s
}

/// `i` in decimal notation.
pub fn dec_int(i: i64) -> (s: String)
    ensures
        s@ == decimal_int(i as int),
{
    if i >= 0 {
        dec(i as u64)
    } else {
        let mut s = String::from_str("-");
        let size: u64 = if i == i64::MIN {
            9223372036854775808u64
        } else {
            (-i) as u64
        };
        s.append(dec(size).as_str());
        s
    }
}

/// Two texts one after the other.
pub fn cat2(a: &str, b: &str) -> (r: String)
    ensures
        r@ == a@ + b@,
{
    let mut r = String::from_str(a);
    r.append(b);
    r
}

/// Three texts one after the other.
pub fn cat3(a: &str, b: &str, c: &str) -> (r: String)
    ensures
        r@ == a@ + b@ + c@,
{
    let mut r = String::from_str(a);
    r.append(b);
    r.append(c);
    r
}

/// Four texts one after the other.
pub fn cat4(a: &str, b: &str, c: &str, d: &str) -> (r: String)
    ensures
        r@ == a@ + b@ + c@ + d@,
{
    let mut r = String::from_str(a);
    r.append(b);
    r.append(c);
    r.append(d);
    r
}

/// Five texts one after the other.
pub fn cat5(a: &str, b: &str, c: &str, d: &str, e: &str) -> (r: String)
    ensures
        r@ == a@ + b@ + c@ + d@ + e@,
{
    let mut r = String::from_str(a);
    r.append(b);
    r.append(c);
    r.append(d);
    r.append(e);
    r
}

/// Six texts one after the other.
pub fn cat6(a: &str, b: &str, c: &str, d: &str, e: &str, f: &str) -> (r: String)
    ensures
        r@ == a@ + b@ + c@ + d@ + e@ + f@,
{
    let mut r = String::from_str(a);
    r.append(b);
    r.append(c);
    r.append(d);
    r.append(e);
    r.append(f);
    r
}

/// Seven texts one after the other.
pub fn cat7(a: &str, b: &str, c: &str, d: &str, e: &str, f: &str, g: &str) -> (r: String)
    ensures
        r@ == a@ + b@ + c@ + d@ + e@ + f@ + g@,
{
    let mut r = String::from_str(a);
    r.append(b);
    r.append(c);
    r.append(d);
    r.append(e);
    r.append(f);
    r.append(g);
    r
}

/// `s` without the white space at its two ends.
pub open spec fn trimmed(s: Seq<char>) -> Seq<char> {
    trim_end(trim_start(s))
}

/// `s` without the white space that it begins with.
pub open spec fn trim_start(s: Seq<char>) -> Seq<char>
    decreases s.len(),
{
    if s.len() > 0 && is_white(s[0]) {
        trim_start(s.drop_first())
    } else {
        s
    }
}

/// `s` without the white space that it ends with.
pub open spec fn trim_end(s: Seq<char>) -> Seq<char>
    decreases s.len(),
{
    if s.len() > 0 && is_white(s.last()) {
        trim_end(s.drop_last())
    } else {
        s
    }
}

/// `s` without the white space at its two ends.
pub fn trim(s: &str) -> (r: String)
    ensures
        r@ == trimmed(s@),
{
    let v = chars_of(s);
    let mut from: usize = 0;
    assert(v@.skip(0) =~= v@);
    while from < v.len() && white(v[from])
        invariant
            from <= v@.len(),
            trim_start(v@) == trim_start(v@.skip(from as int)),
        decreases v@.len() - from,
    {
        assert(v@.skip(from as int).drop_first() =~= v@.skip(from + 1));
        from = from + 1;
    }
    let mut to: usize = v.len();
    assert(v@.skip(from as int) =~= v@.subrange(from as int, to as int));
    while to > from && white(v[to - 1])
        invariant
            from <= to <= v@.len(),
            trim_end(v@.skip(from as int)) == trim_end(v@.subrange(from as int, to as int)),
        decreases to - from,
    {
        assert(v@.subrange(from as int, to as int).drop_last() =~= v@.subrange(
            from as int,
            to - 1,
        ));
        to = to - 1;
    }
    text_of(&v, from, to)
}

// ── What the building blocks mean ───────────────────────────────────────────

/// The number that digits stand for.
pub open spec fn value_of(s: Seq<char>) -> int
    decreases s.len(),
{
    if s.len() == 0 {
        0
    } else {
        10 * value_of(s.drop_last()) + (s.last() as int - '0' as int)
    }
}

/// A number in decimal notation is made of digits that stand for it, and begins with a
/// zero only where it is zero.
pub proof fn law_decimal_stands_for_the_number(n: nat)
    ensures
        value_of(decimal(n)) == n,
        decimal(n).len() > 0,
        forall|i: int| 0 <= i < decimal(n).len() ==> '0' <= #[trigger] decimal(n)[i] <= '9',
        decimal(n)[0] == '0' ==> n == 0 && decimal(n).len() == 1,
    decreases n,
{
    if n < 10 {
        let s = decimal(n);
        assert(s.drop_last() =~= Seq::empty());
        assert(value_of(s.drop_last()) == 0);
    } else {
        law_decimal_stands_for_the_number(n / 10);
        let s = decimal(n);
        assert(s.drop_last() =~= decimal(n / 10));
        assert(s[0] == decimal(n / 10)[0]);
        assert forall|i: int| 0 <= i < s.len() implies '0' <= #[trigger] s[i] <= '9' by {
            if i < s.len() - 1 {
                assert(s[i] == decimal(n / 10)[i]);
            }
        }
    }
}

/// A negative number is a minus sign and the number without it.
pub proof fn law_negative_numbers_have_a_sign(n: nat)
    ensures
        decimal_int(n as int) == decimal(n),
        n > 0 ==> decimal_int(-n) == "-"@ + decimal(n),
{
}

/// Each unit of a repetition is the unit.
pub proof fn law_repetition(unit: Seq<char>, n: nat)
    ensures
        repeated(unit, 0).len() == 0,
        repeated(unit, n).len() == n * unit.len(),
        repeated(unit, n + 1) == repeated(unit, n) + unit,
        blanks(n).len() == n,
        forall|i: int| 0 <= i < n ==> #[trigger] blanks(n)[i] == ' ',
    decreases n,
{
    reveal_strlit(" ");
    if n > 0 {
        law_repetition(unit, (n - 1) as nat);
        assert(n * unit.len() == (n - 1) * unit.len() + unit.len()) by (nonlinear_arith);
        assert(blanks(n) == blanks((n - 1) as nat) + " "@);
    } else {
        assert(0 * unit.len() == 0);
    }
}

/// One more part is joined behind the others, with the separator between them where there
/// are others.
pub proof fn law_joining(parts: Seq<Seq<char>>, sep: Seq<char>, p: Seq<char>)
    ensures
        joined(Seq::empty(), sep).len() == 0,
        parts.len() == 0 ==> joined(parts.push(p), sep) == p,
        parts.len() > 0 ==> joined(parts.push(p), sep) == joined(parts, sep) + sep + p,
        chained(Seq::empty()).len() == 0,
        chained(parts.push(p)) == chained(parts) + p,
{
    assert(parts.push(p).drop_last() =~= parts);
}

/// Trimming takes white space from the two ends and nothing else, and leaves none there.
pub proof fn law_trimming(s: Seq<char>)
    ensures
        exists|i: int, j: int|
            {
                &&& 0 <= i <= j <= s.len()
                &&& trimmed(s) == #[trigger] s.subrange(i, j)
                &&& forall|k: int| 0 <= k < i ==> is_white(#[trigger] s[k])
                &&& forall|k: int| j <= k < s.len() ==> is_white(#[trigger] s[k])
            },
        trimmed(s).len() > 0 ==> !is_white(trimmed(s).first()) && !is_white(trimmed(s).last()),
{
    let i = lemma_trim_start(s);
    let rest = trim_start(s);
    let n = lemma_trim_end(rest);
    let j = i + n;
    assert(rest.take(n) =~= s.subrange(i, j));
    assert forall|k: int| j <= k < s.len() implies is_white(#[trigger] s[k]) by {
        assert(rest[k - i] == s[k]);
    }
    if trimmed(s).len() > 0 {
        assert(trimmed(s)[0] == rest[0]);
    }
}

proof fn lemma_trim_start(s: Seq<char>) -> (i: int)
    ensures
        0 <= i <= s.len(),
        trim_start(s) == s.skip(i),
        forall|k: int| 0 <= k < i ==> is_white(#[trigger] s[k]),
        trim_start(s).len() > 0 ==> !is_white(trim_start(s)[0]),
    decreases s.len(),
{
    if s.len() > 0 && is_white(s[0]) {
        let i = lemma_trim_start(s.drop_first());
        assert(s.drop_first().skip(i) =~= s.skip(i + 1));
        assert forall|k: int| 0 <= k < i + 1 implies is_white(#[trigger] s[k]) by {
            if k > 0 {
                assert(s.drop_first()[k - 1] == s[k]);
            }
        }
        i + 1
    } else {
        assert(s.skip(0) =~= s);
        0
    }
}

proof fn lemma_trim_end(s: Seq<char>) -> (n: int)
    ensures
        0 <= n <= s.len(),
        trim_end(s) == s.take(n),
        forall|k: int| n <= k < s.len() ==> is_white(#[trigger] s[k]),
        trim_end(s).len() > 0 ==> !is_white(trim_end(s).last()),
    decreases s.len(),
{
    if s.len() > 0 && is_white(s.last()) {
        let n = lemma_trim_end(s.drop_last());
        assert(s.drop_last().take(n) =~= s.take(n));
        assert forall|k: int| n <= k < s.len() implies is_white(#[trigger] s[k]) by {
            if k < s.len() - 1 {
                assert(s.drop_last()[k] == s[k]);
            }
        }
        n
    } else {
        assert(s.take(s.len() as int) =~= s);
        s.len() as int
    }
}

/// White space is the blank, the controls from the tab to the carriage return, and what
/// Unicode adds to them; no printable ASCII character is.
pub proof fn law_white_space(c: char)
    ensures
        is_white(' ') && is_white('\t') && is_white('\n') && is_white('\r'),
        33 <= c as u32 <= 126 ==> !is_white(c),
        c as u32 <= 127 && is_white(c) ==> c == ' ' || 9 <= c as u32 <= 13,
        c as u32 > 127 && is_white(c) ==> c as u32 == 0x85 || c as u32 == 0xa0 || c as u32 == 0x1680
            || 0x2000 <= c as u32 <= 0x200a || c as u32 == 0x2028 || c as u32 == 0x2029 || c as u32
            == 0x202f || c as u32 == 0x205f || c as u32 == 0x3000,
        c as u32 == 0x85 || c as u32 == 0xa0 || c as u32 == 0x1680 || 0x2000 <= c as u32 <= 0x200a
            || c as u32 == 0x2028 || c as u32 == 0x2029 || c as u32 == 0x202f || c as u32 == 0x205f
            || c as u32 == 0x3000 ==> is_white(c),
        9 <= c as u32 <= 13 ==> is_white(c),
{
}

/// The views of a list stand at the places of its texts.
pub proof fn law_views_keep_the_places(items: Seq<String>, i: int)
    ensures
        views(items).len() == items.len(),
        0 <= i < items.len() ==> views(items)[i] == items[i]@,
{
}

} // verus!
