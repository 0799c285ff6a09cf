//! What the reports print: durations and clock times, page titles without the
//! browser's name, and text cut to a column width.
use vstd::prelude::*;
use crate::db::Session;
use crate::text::{
    chars_of, ends_with, is_ws, lemma_trim_ends, lemma_trim_fixed, string_of, strip_suffix,
    strip_suffix_exec, trim, trim_chars,
};

verus! {

// ---------------------------------------------------------------------------
// Numbers
// ---------------------------------------------------------------------------

/// Rust's `/` on integers: the quotient rounded toward zero (`b > 0`).
pub open spec fn tdiv(a: int, b: int) -> int {
    if a >= 0 {
        a / b
    } else {
        -((-a) / b)
    }
}

/// Rust's `%` on integers: the remainder that takes the sign of `a`.
pub open spec fn tmod(a: int, b: int) -> int {
    a - b * tdiv(a, b)
}

pub open spec fn digit(d: int) -> char {
    if d == 0 {
        '0'
    } else if d == 1 {
        '1'
    } else if d == 2 {
        '2'
    } else if d == 3 {
        '3'
    } else if d == 4 {
        '4'
    } else if d == 5 {
        '5'
    } else if d == 6 {
        '6'
    } else if d == 7 {
        '7'
    } else if d == 8 {
        '8'
    } else {
        '9'
    }
}

/// The decimal digits of `n`.
pub open spec fn decimal(n: nat) -> Seq<char>
    decreases n,
{
    if n < 10 {
        seq![digit(n as int)]
    } else {
        decimal(n / 10).push(digit((n % 10) as int))
    }
}

/// `format!("{:02}", n)`: at least two characters, zero-padded after the sign.
pub open spec fn pad2(n: int) -> Seq<char> {
    if n < 0 {
        seq!['-'] + decimal((-n) as nat)
    } else if n < 10 {
        seq!['0', digit(n)]
    } else {
        decimal(n as nat)
    }
}

fn digit_exec(d: u64) -> (c: char)
    requires
        d < 10,
    ensures
        c == digit(d as int),
{
    if d == 0 {
        '0'
    } else if d == 1 {
        '1'
    } else if d == 2 {
        '2'
    } else if d == 3 {
        '3'
    } else if d == 4 {
        '4'
    } else if d == 5 {
        '5'
    } else if d == 6 {
        '6'
    } else if d == 7 {
        '7'
    } else if d == 8 {
        '8'
    } else {
        '9'
    }
}

fn push_decimal(out: &mut Vec<char>, n: u64)
    ensures
        final(out)@ == old(out)@ + decimal(n as nat),
    decreases n,
{
    if n < 10 {
        out.push(digit_exec(n));
    } else {
        push_decimal(out, n / 10);
        out.push(digit_exec(n % 10));
        assert(decimal(n as nat) == decimal((n / 10) as nat).push(digit((n % 10) as int)));
    }
}

/// Appends `format!("{:02}", v)` where `v` is `mag`, negated when `neg`.
fn push_pad2(out: &mut Vec<char>, neg: bool, mag: u64)
    ensures
        final(out)@ == old(out)@ + pad2(if neg {
            -(mag as int)
        } else {
            mag as int
        }),
{
    if neg && mag > 0 {
        out.push('-');
        let ghost mid = out@;
        push_decimal(out, mag);
        assert(out@ =~= old(out)@ + (seq!['-'] + decimal(mag as nat)));
    } else if mag < 10 {
        out.push('0');
        out.push(digit_exec(mag));
        assert(out@ =~= old(out)@ + seq!['0', digit(mag as int)]);
    } else {
        push_decimal(out, mag);
    }
}

/// `format_duration`: `HH:MM:SS` of a duration in milliseconds (hours may
/// run past two digits; a negative duration gives negative fields).
pub open spec fn duration_text(ms: int) -> Seq<char> {
    let total = tdiv(ms, 1000);
    pad2(tdiv(total, 3600)) + seq![':'] + pad2(tdiv(tmod(total, 3600), 60)) + seq![':'] + pad2(
        tmod(total, 60),
    )
}

/// `format_time`: the `HH:MM:SS` clock time (UTC) of a timestamp in
/// milliseconds since the epoch.
pub open spec fn time_text(ms: int) -> Seq<char> {
    let secs = tdiv(ms, 1000);
    pad2(tmod(tdiv(secs, 3600), 24)) + seq![':'] + pad2(tdiv(tmod(secs, 3600), 60)) + seq![':']
        + pad2(tmod(secs, 60))
}

/// The magnitude of `ms` and whether it is negative.
fn magnitude(ms: i64) -> (r: (bool, u64))
    ensures
        r.0 == (ms < 0),
        r.1 == if ms < 0 {
            -(ms as int)
        } else {
            ms as int
        },
{
    if ms >= 0 {
        (false, ms as u64)
    } else {
        (true, ((-(ms + 1)) as u64) + 1)
    }
}

proof fn lemma_tdiv_neg(m: nat, b: int)
    requires
        b > 0,
    ensures
        tdiv(-(m as int), b) == -((m as int) / b),
        tmod(-(m as int), b) == -((m as int) % b),
        tdiv(m as int, b) == (m as int) / b,
        tmod(m as int, b) == (m as int) % b,
{
    let q = (m as int) / b;
    let r = (m as int) % b;
    vstd::arithmetic::div_mod::lemma_fundamental_div_mod(m as int, b);
    assert(tdiv(-(m as int), b) == -q);
    assert(b * (-q) == -(b * q)) by (nonlinear_arith);
}

/// Formats a duration in milliseconds as `HH:MM:SS`.
pub fn format_duration(ms: i64) -> (r: String)
    ensures
        r@ == duration_text(ms as int),
{
    let (neg, m) = magnitude(ms);
    let total = m / 1000;
    let hours = total / 3600;
    let minutes = (total % 3600) / 60;
    let secs = total % 60;
    proof {
        lemma_tdiv_neg(m as nat, 1000);
        let t = tdiv(ms as int, 1000);
        assert(t == if neg { -(total as int) } else { total as int });
        lemma_tdiv_neg(total as nat, 3600);
        lemma_tdiv_neg(total as nat, 60);
        lemma_tdiv_neg((total % 3600) as nat, 60);
    }
    let mut out: Vec<char> = Vec::new();
    push_pad2(&mut out, neg, hours);
    out.push(':');
    push_pad2(&mut out, neg, minutes);
    out.push(':');
    push_pad2(&mut out, neg, secs);
    proof {
        let total_i = tdiv(ms as int, 1000);
        if neg {
            assert(tdiv(total_i, 3600) == -(hours as int));
            assert(tmod(total_i, 3600) == -((total % 3600) as int));
            assert(tdiv(tmod(total_i, 3600), 60) == -(minutes as int));
            assert(tmod(total_i, 60) == -(secs as int));
        }
        assert(out@ =~= duration_text(ms as int));
    }
    string_of(&out)
}

/// Formats a timestamp in milliseconds as the `HH:MM:SS` time of day (UTC).
pub fn format_time(ms: i64) -> (r: String)
    ensures
        r@ == time_text(ms as int),
{
    let (neg, m) = magnitude(ms);
    let secs_total = m / 1000;
    let hours = (secs_total / 3600) % 24;
    let minutes = (secs_total % 3600) / 60;
    let secs = secs_total % 60;
    proof {
        lemma_tdiv_neg(m as nat, 1000);
        lemma_tdiv_neg(secs_total as nat, 3600);
        lemma_tdiv_neg(secs_total as nat, 60);
        lemma_tdiv_neg((secs_total / 3600) as nat, 24);
        lemma_tdiv_neg((secs_total % 3600) as nat, 60);
    }
    let mut out: Vec<char> = Vec::new();
    push_pad2(&mut out, neg, hours);
    out.push(':');
    push_pad2(&mut out, neg, minutes);
    out.push(':');
    push_pad2(&mut out, neg, secs);
    proof {
        let s = tdiv(ms as int, 1000);
        if neg {
            assert(s == -(secs_total as int));
            assert(tdiv(s, 3600) == -((secs_total / 3600) as int));
            assert(tmod(tdiv(s, 3600), 24) == -(hours as int));
            assert(tmod(s, 3600) == -((secs_total % 3600) as int));
            assert(tdiv(tmod(s, 3600), 60) == -(minutes as int));
            assert(tmod(s, 60) == -(secs as int));
        }
        assert(out@ =~= time_text(ms as int));
    }
    string_of(&out)
}

// ---------------------------------------------------------------------------
// Page titles
// ---------------------------------------------------------------------------

/// The browser suffixes stripped from page titles, in the order tried.
pub open spec fn browser_suffix(i: int) -> Seq<char> {
    if i == 0 {
        " \u{2014} Mozilla Firefox"@
    } else if i == 1 {
        " - Mozilla Firefox"@
    } else if i == 2 {
        " \u{2014} Chromium"@
    } else if i == 3 {
        " - Chromium"@
    } else if i == 4 {
        " \u{2014} Google Chrome"@
    } else if i == 5 {
        " - Google Chrome"@
    } else if i == 6 {
        " \u{2014} Brave"@
    } else if i == 7 {
        " - Brave"@
    } else if i == 8 {
        " \u{2014} Vivaldi"@
    } else if i == 9 {
        " - Vivaldi"@
    } else if i == 10 {
        " \u{2014} Opera"@
    } else {
        " - Opera"@
    }
}

pub open spec fn browser_suffix_count() -> int {
    12
}

fn browser_suffix_exec(i: usize) -> (r: &'static str)
    requires
        i < 12,
    ensures
        r@ == browser_suffix(i as int),
{
    if i == 0 {
        " \u{2014} Mozilla Firefox"
    } else if i == 1 {
        " - Mozilla Firefox"
    } else if i == 2 {
        " \u{2014} Chromium"
    } else if i == 3 {
        " - Chromium"
    } else if i == 4 {
        " \u{2014} Google Chrome"
    } else if i == 5 {
        " - Google Chrome"
    } else if i == 6 {
        " \u{2014} Brave"
    } else if i == 7 {
        " - Brave"
    } else if i == 8 {
        " \u{2014} Vivaldi"
    } else if i == 9 {
        " - Vivaldi"
    } else if i == 10 {
        " \u{2014} Opera"
    } else {
        " - Opera"
    }
}

/// The trimmed title without the first browser suffix (from index `i` on)
/// that it ends with, trimmed again.
pub open spec fn strip_browser_from(t: Seq<char>, i: int) -> Seq<char>
    decreases browser_suffix_count() - i,
{
    if i >= browser_suffix_count() || i < 0 {
        t
    } else {
        match strip_suffix(t, browser_suffix(i)) {
            Some(base) => trim(base),
            None => strip_browser_from(t, i + 1),
        }
    }
}

/// A page title without surrounding whitespace and without the name of the
/// browser that showed it.
pub open spec fn clean_title(title: Seq<char>) -> Seq<char> {
    strip_browser_from(trim(title), 0)
}

/// Removes the browser's name (` — Mozilla Firefox`, ` - Chromium`, ...) and
/// surrounding whitespace from a page title.
pub fn clean_page_title(title: &str) -> (r: String)
    ensures
        r@ == clean_title(title@),
{
    let t = trim_chars(&chars_of(title));
    let mut i: usize = 0;
    while i < 12
        invariant
            i <= 12,
            t@ == trim(title@),
            clean_title(title@) == strip_browser_from(t@, i as int),
        decreases 12 - i,
    {
        let suffix = chars_of(browser_suffix_exec(i));
        match strip_suffix_exec(&t, &suffix) {
            Some(base) => {
                return string_of(&trim_chars(&base));
            },
            None => {},
        }
        i += 1;
    }
    string_of(&t)
}

proof fn lemma_not_ends(p: Seq<char>, si: Seq<char>, sj: Seq<char>, d: int)
    requires
        1 <= d <= si.len(),
        d <= sj.len(),
        si[si.len() - d] != sj[sj.len() - d],
    ensures
        !ends_with(p + si, sj),
{
    let x = p + si;
    if ends_with(x, sj) {
        let k = sj.len() - d;
        assert(x.subrange(x.len() - sj.len(), x.len() as int)[k] == x[x.len() - d]);
        assert(x[x.len() - d] == si[si.len() - d]);
    }
}

/// A title that ends with one browser suffix ends with none tried before it.
proof fn lemma_suffixes_distinct(p: Seq<char>, i: int, j: int)
    requires
        0 <= j < i < browser_suffix_count(),
    ensures
        !ends_with(p + browser_suffix(i), browser_suffix(j)),
{
    reveal_strlit(" \u{2014} Mozilla Firefox");
    reveal_strlit(" - Mozilla Firefox");
    reveal_strlit(" \u{2014} Chromium");
    reveal_strlit(" - Chromium");
    reveal_strlit(" \u{2014} Google Chrome");
    reveal_strlit(" - Google Chrome");
    reveal_strlit(" \u{2014} Brave");
    reveal_strlit(" - Brave");
    reveal_strlit(" \u{2014} Vivaldi");
    reveal_strlit(" - Vivaldi");
    reveal_strlit(" \u{2014} Opera");
    reveal_strlit(" - Opera");
    let si = browser_suffix(i);
    let sj = browser_suffix(j);
    if si.last() != sj.last() {
        lemma_not_ends(p, si, sj, 1);
    } else if si.len() == sj.len() && si[1] != sj[1] {
        lemma_not_ends(p, si, sj, si.len() - 1);
    } else {
        lemma_not_ends(p, si, sj, 2);
    }
}

proof fn lemma_strip_skip(x: Seq<char>, j: int, i: int)
    requires
        0 <= j <= i < browser_suffix_count(),
        forall|k: int| j <= k < i ==> !ends_with(x, #[trigger] browser_suffix(k)),
    ensures
        strip_browser_from(x, j) == strip_browser_from(x, i),
    decreases i - j,
{
    if j < i {
        assert(!ends_with(x, browser_suffix(j)));
        lemma_strip_skip(x, j + 1, i);
    }
}

proof fn lemma_clean_with_suffix(t: Seq<char>, i: int)
    requires
        t.len() > 0,
        !is_ws(t[0]),
        !is_ws(t.last()),
        0 <= i < browser_suffix_count(),
    ensures
        clean_title(t + browser_suffix(i)) == t,
{
    reveal_strlit(" \u{2014} Mozilla Firefox");
    reveal_strlit(" - Mozilla Firefox");
    reveal_strlit(" \u{2014} Chromium");
    reveal_strlit(" - Chromium");
    reveal_strlit(" \u{2014} Google Chrome");
    reveal_strlit(" - Google Chrome");
    reveal_strlit(" \u{2014} Brave");
    reveal_strlit(" - Brave");
    reveal_strlit(" \u{2014} Vivaldi");
    reveal_strlit(" - Vivaldi");
    reveal_strlit(" \u{2014} Opera");
    reveal_strlit(" - Opera");
    let s = browser_suffix(i);
    let x = t + s;
    assert(x[0] == t[0]);
    assert(x.last() == s.last());
    lemma_trim_fixed(x);
    lemma_trim_fixed(t);
    assert forall|k: int| 0 <= k < i implies !ends_with(x, #[trigger] browser_suffix(k)) by {
        lemma_suffixes_distinct(t, i, k);
    }
    lemma_strip_skip(x, 0, i);
    assert(x.subrange(x.len() - s.len(), x.len() as int) =~= s);
    assert(x.subrange(0, x.len() - s.len()) =~= t);
}

/// Each browser's suffix, in either of its two forms, comes off a title that
/// ends with it, and leaves the title before it (trimmed): ` — Mozilla
/// Firefox`, ` - Mozilla Firefox`, ` — Chromium`, ` - Chromium`, ` — Google
/// Chrome`, ` - Google Chrome`, ` — Brave`, ` - Brave`, ` — Vivaldi`,
/// ` - Vivaldi`, ` — Opera` and ` - Opera`.
pub proof fn law_clean_title_strips_each_browser(b: Seq<char>)
    requires
        trim(b).len() > 0,
    ensures
        clean_title(trim(b) + " \u{2014} Mozilla Firefox"@) == trim(b),
        clean_title(trim(b) + " - Mozilla Firefox"@) == trim(b),
        clean_title(trim(b) + " \u{2014} Chromium"@) == trim(b),
        clean_title(trim(b) + " - Chromium"@) == trim(b),
        clean_title(trim(b) + " \u{2014} Google Chrome"@) == trim(b),
        clean_title(trim(b) + " - Google Chrome"@) == trim(b),
        clean_title(trim(b) + " \u{2014} Brave"@) == trim(b),
        clean_title(trim(b) + " - Brave"@) == trim(b),
        clean_title(trim(b) + " \u{2014} Vivaldi"@) == trim(b),
        clean_title(trim(b) + " - Vivaldi"@) == trim(b),
        clean_title(trim(b) + " \u{2014} Opera"@) == trim(b),
        clean_title(trim(b) + " - Opera"@) == trim(b),
{
    let t = trim(b);
    lemma_trim_ends(b);
    lemma_clean_with_suffix(t, 0);
    lemma_clean_with_suffix(t, 1);
    lemma_clean_with_suffix(t, 2);
    lemma_clean_with_suffix(t, 3);
    lemma_clean_with_suffix(t, 4);
    lemma_clean_with_suffix(t, 5);
    lemma_clean_with_suffix(t, 6);
    lemma_clean_with_suffix(t, 7);
    lemma_clean_with_suffix(t, 8);
    lemma_clean_with_suffix(t, 9);
    lemma_clean_with_suffix(t, 10);
    lemma_clean_with_suffix(t, 11);
}

// ---------------------------------------------------------------------------
// Cutting text to a width
// ---------------------------------------------------------------------------

/// The number of bytes of `c` in UTF-8.
pub open spec fn utf8_len(c: char) -> nat {
    if (c as int) < 0x80 {
        1
    } else if (c as int) < 0x800 {
        2
    } else if (c as int) < 0x10000 {
        3
    } else {
        4
    }
}

/// The number of bytes of `s` in UTF-8, which `str::len` returns.
pub open spec fn utf8_bytes(s: Seq<char>) -> nat
    decreases s.len(),
{
    if s.len() == 0 {
        0
    } else {
        utf8_len(s[0]) + utf8_bytes(s.drop_first())
    }
}

/// How many leading characters of `s` fit in `limit` bytes.
pub open spec fn chars_within(s: Seq<char>, limit: int) -> nat
    decreases s.len(),
{
    if s.len() == 0 || utf8_len(s[0]) > limit {
        0
    } else {
        1 + chars_within(s.drop_first(), limit - utf8_len(s[0]))
    }
}

/// `truncate(s, max)`: `s` itself when it takes at most `max` bytes; else its
/// longest prefix of at most `max - 1` bytes (ending on a character boundary)
/// followed by `…`.
pub open spec fn truncated(s: Seq<char>, max: int) -> Seq<char> {
    if utf8_bytes(s) <= max {
        s
    } else {
        s.take(chars_within(s, if max >= 1 { max - 1 } else { 0 }) as int) + seq!['\u{2026}']
    }
}

fn utf8_len_exec(c: char) -> (r: usize)
    ensures
        r == utf8_len(c),
{
    let u = c as u32;
    if u < 0x80 {
        1
    } else if u < 0x800 {
        2
    } else if u < 0x10000 {
        3
    } else {
        4
    }
}

proof fn lemma_chars_within_step(s: Seq<char>, i: int, limit: int)
    requires
        0 <= i < s.len(),
    ensures
        s.skip(i).drop_first() == s.skip(i + 1),
        s.skip(i)[0] == s[i],
{
    assert(s.skip(i).drop_first() =~= s.skip(i + 1));
}

/// Cuts `s` to at most `max` bytes, marking a cut with `…`.
pub fn truncate(s: &str, max: usize) -> (r: String)
    ensures
        r@ == truncated(s@, max as int),
{
    let v = chars_of(s);
    // Count the bytes of `s`, stopping as soon as they exceed `max`.
    let mut i: usize = 0;
    let mut bytes: u128 = 0;
    assert(v@.skip(0) =~= v@);
    while i < v.len() && bytes <= max as u128
        invariant
            i <= v@.len(),
            v@ == s@,
            bytes <= max + 4,
            utf8_bytes(v@) == bytes + utf8_bytes(v@.skip(i as int)),
        decreases v@.len() - i,
    {
        proof {
            lemma_chars_within_step(v@, i as int, 0);
        }
        bytes = bytes + utf8_len_exec(v[i]) as u128;
        i += 1;
    }
    if bytes <= max as u128 {
        assert(v@.skip(i as int).len() == 0);
        return string_of(&v);
    }
    // Keep the characters that fit in `max - 1` bytes.
    let limit = max.saturating_sub(1);
    let mut k: usize = 0;
    let mut used: usize = 0;
    while k < v.len() && utf8_len_exec(v[k]) <= limit - used
        invariant
            k <= v@.len(),
            used <= limit,
            chars_within(v@, limit as int) == k + chars_within(v@.skip(k as int), limit - used),
        decreases v@.len() - k,
    {
        proof {
            lemma_chars_within_step(v@, k as int, 0);
        }
        used = used + utf8_len_exec(v[k]);
        k += 1;
    }
    proof {
        if k < v@.len() {
            lemma_chars_within_step(v@, k as int, 0);
        }
    }
    let mut out = crate::text::copy_range(&v, 0, k);
    out.push('\u{2026}');
    assert(out@ =~= truncated(s@, max as int));
    string_of(&out)
}

/// The application and title columns of a timeline row: idle stretches show
/// as `__idle__` with no title; other sessions show their page title cleaned.
pub fn timeline_columns(s: &Session) -> (r: (String, String))
    ensures
        r.0@ == if s.is_idle {
            "__idle__"@
        } else {
            s.app_class@
        },
        r.1@ == if s.is_idle {
            Seq::<char>::empty()
        } else {
            clean_title(s.app_title@)
        },
{
    if s.is_idle {
        (String::from_str("__idle__"), String::new())
    } else {
        (s.app_class.clone(), clean_page_title(s.app_title.as_str()))
    }
}

proof fn lemma_chars_within(s: Seq<char>, limit: int)
    requires
        limit >= 0,
    ensures
        chars_within(s, limit) <= s.len(),
        utf8_bytes(s.take(chars_within(s, limit) as int)) <= limit,
        chars_within(s, limit) < s.len() ==> utf8_bytes(
            s.take(chars_within(s, limit) + 1int),
        ) > limit,
    decreases s.len(),
{
    let k = chars_within(s, limit) as int;
    if s.len() == 0 || utf8_len(s[0]) > limit {
        assert(s.take(0).len() == 0);
        if s.len() > 0 {
            assert(s.take(1).drop_first() =~= Seq::<char>::empty());
            assert(utf8_bytes(s.take(1)) == utf8_len(s[0]) + utf8_bytes(s.take(1).drop_first()));
        }
    } else {
        let rest = s.drop_first();
        let l0 = utf8_len(s[0]) as int;
        lemma_chars_within(rest, limit - l0);
        assert(s.take(k).drop_first() =~= rest.take(k - 1));
        assert(s.take(k)[0] == s[0]);
        if k < s.len() {
            assert(s.take(k + 1).drop_first() =~= rest.take(k));
            assert(s.take(k + 1)[0] == s[0]);
        }
    }
}

proof fn lemma_bytes_concat(a: Seq<char>, b: Seq<char>)
    ensures
        utf8_bytes(a + b) == utf8_bytes(a) + utf8_bytes(b),
    decreases a.len(),
{
    if a.len() > 0 {
        assert((a + b).drop_first() =~= a.drop_first() + b);
        lemma_bytes_concat(a.drop_first(), b);
    } else {
        assert(a + b =~= b);
    }
}

/// Cut text fits its column: what `truncate` keeps of the text takes at most
/// `max - 1` bytes and is the longest character-aligned prefix that does, so
/// with the three-byte `…` the result takes at most `max + 2` bytes (3 when
/// `max` is 0); text that fits is left alone.
pub proof fn law_truncate_fits(s: Seq<char>, max: int)
    requires
        max >= 0,
    ensures
        utf8_bytes(s) <= max ==> truncated(s, max) == s,
        utf8_bytes(s) > max ==> {
            let limit = if max >= 1 { max - 1 } else { 0 };
            let k = chars_within(s, limit) as int;
            &&& truncated(s, max) == s.take(k) + seq!['\u{2026}']
            &&& utf8_bytes(s.take(k)) <= limit
            &&& k < s.len() ==> utf8_bytes(s.take(k + 1)) > limit
            &&& utf8_bytes(truncated(s, max)) <= limit + 3
        },
{
    let limit = if max >= 1 { max - 1 } else { 0 };
    lemma_chars_within(s, limit);
    let k = chars_within(s, limit) as int;
    let ell = seq!['\u{2026}'];
    lemma_bytes_concat(s.take(k), ell);
    assert(ell.drop_first() =~= Seq::<char>::empty());
    assert(('\u{2026}' as int) == 0x2026);
    assert(utf8_len('\u{2026}') == 3);
    assert(utf8_bytes(ell) == utf8_len(ell[0]) + utf8_bytes(ell.drop_first()));
    assert(utf8_bytes(ell) == 3);
}

} // verus!
