//! Tracked sessions and the summaries computed from them: the active and idle
//! time of a day or a range of days, and time per application or per page.
//!
//! The sums follow SQLite's `SUM(end_ms - start_ms)`: a summary is refused
//! (`None`) when a duration or a running sum leaves the 64-bit range, where
//! SQLite reports an integer overflow.
use vstd::prelude::*;
use crate::text::{chars_of, eq_chars};

verus! {

/// One stretch of focus on a window (or of idleness) on a given day.
#[derive(Debug, Clone, PartialEq, Eq)]
pub struct Session {
    pub date: String,
    pub app_class: String,
    pub app_title: String,
    pub start_ms: i64,
    pub end_ms: i64,
    pub is_idle: bool,
}

/// Total time of one application (or, in a per-page breakdown, one page title).
#[derive(Debug, Clone, PartialEq, Eq)]
pub struct AppSummary {
    pub app_class: String,
    pub total_ms: i64,
}

/// Active and idle time over a day or a range of days; `pc_on_ms` is their sum.
#[derive(Debug, Clone, PartialEq, Eq)]
pub struct DaySummary {
    pub date: String,
    pub pc_on_ms: i64,
    pub active_ms: i64,
    pub idle_ms: i64,
}

pub open spec fn fits_i64(x: int) -> bool {
    i64::MIN <= x <= i64::MAX
}

pub open spec fn duration(s: Session) -> int {
    s.end_ms - s.start_ms
}

/// How sessions are grouped: by application over active sessions; by page
/// title over the active sessions of one application; by day over the idle or
/// the active sessions.
pub enum GroupBy {
    App,
    Page(String),
    Date(bool),
}

pub open spec fn selected(s: Session, g: GroupBy) -> bool {
    match g {
        GroupBy::App => !s.is_idle,
        GroupBy::Page(c) => !s.is_idle && s.app_class@ == c@,
        GroupBy::Date(idle) => s.is_idle == idle,
    }
}

pub open spec fn group_key(s: Session, g: GroupBy) -> Seq<char> {
    match g {
        GroupBy::App => s.app_class@,
        GroupBy::Page(_) => s.app_title@,
        GroupBy::Date(_) => s.date@,
    }
}

pub open spec fn in_group(s: Session, g: GroupBy, k: Seq<char>) -> bool {
    selected(s, g) && group_key(s, g) == k
}

/// The summed duration of the sessions of group `k`.
pub open spec fn group_total(ss: Seq<Session>, g: GroupBy, k: Seq<char>) -> int
    decreases ss.len(),
{
    if ss.len() == 0 {
        0
    } else if in_group(ss.last(), g, k) {
        group_total(ss.drop_last(), g, k) + duration(ss.last())
    } else {
        group_total(ss.drop_last(), g, k)
    }
}

/// Every duration of group `k`, and every running sum of them in row order,
/// fits in an `i64`.
pub open spec fn group_fits(ss: Seq<Session>, g: GroupBy, k: Seq<char>) -> bool
    decreases ss.len(),
{
    if ss.len() == 0 {
        true
    } else {
        group_fits(ss.drop_last(), g, k) && (in_group(ss.last(), g, k) ==> fits_i64(
            duration(ss.last()),
        ) && fits_i64(group_total(ss, g, k)))
    }
}

pub open spec fn has_group(ss: Seq<Session>, g: GroupBy, k: Seq<char>) -> bool {
    exists|i: int| 0 <= i < ss.len() && in_group(#[trigger] ss[i], g, k)
}

pub open spec fn all_groups_fit(ss: Seq<Session>, g: GroupBy) -> bool {
    forall|k: Seq<char>| #[trigger] group_fits(ss, g, k)
}

/// `rows` is the grouping of `ss` by `g`: one row per group, each with the
/// group's total, the rows ordered from the largest total down.
pub open spec fn is_grouping(ss: Seq<Session>, g: GroupBy, rows: Seq<AppSummary>) -> bool {
    &&& forall|j: int|
        0 <= j < rows.len() ==> #[trigger] rows[j].total_ms == group_total(
            ss,
            g,
            rows[j].app_class@,
        ) && has_group(ss, g, rows[j].app_class@)
    &&& forall|k: Seq<char>|
        #[trigger] has_group(ss, g, k) ==> exists|j: int|
            0 <= j < rows.len() && (#[trigger] rows[j]).app_class@ == k
    &&& forall|i: int, j: int|
        0 <= i < j < rows.len() ==> (#[trigger] rows[i]).app_class@ != (#[trigger] rows[j]).app_class@
    &&& forall|i: int, j: int|
        0 <= i < j < rows.len() ==> (#[trigger] rows[i]).total_ms >= (#[trigger] rows[j]).total_ms
}

proof fn lemma_group_step(ss: Seq<Session>, g: GroupBy, i: int, k: Seq<char>)
    requires
        0 <= i < ss.len(),
    ensures
        ss.take(i + 1).drop_last() == ss.take(i),
        ss.take(i + 1).last() == ss[i],
        group_total(ss.take(i + 1), g, k) == group_total(ss.take(i), g, k) + if in_group(
            ss[i],
            g,
            k,
        ) {
            duration(ss[i])
        } else {
            0
        },
        group_fits(ss.take(i + 1), g, k) == (group_fits(ss.take(i), g, k) && (in_group(
            ss[i],
            g,
            k,
        ) ==> fits_i64(duration(ss[i])) && fits_i64(group_total(ss.take(i + 1), g, k)))),
        has_group(ss.take(i + 1), g, k) == (has_group(ss.take(i), g, k) || in_group(ss[i], g, k)),
{
    assert(ss.take(i + 1).drop_last() =~= ss.take(i));
    if has_group(ss.take(i + 1), g, k) && !in_group(ss[i], g, k) {
        let j = choose|j: int| 0 <= j < i + 1 && in_group(#[trigger] ss.take(i + 1)[j], g, k);
        assert(ss.take(i)[j] == ss.take(i + 1)[j]);
    }
    if has_group(ss.take(i), g, k) {
        let j = choose|j: int| 0 <= j < i && in_group(#[trigger] ss.take(i)[j], g, k);
        assert(ss.take(i + 1)[j] == ss.take(i)[j]);
    }
    if in_group(ss[i], g, k) {
        assert(ss.take(i + 1)[i] == ss[i]);
    }
}

proof fn lemma_fits_prefix(ss: Seq<Session>, g: GroupBy, k: Seq<char>, i: int)
    requires
        0 <= i <= ss.len(),
        group_fits(ss, g, k),
    ensures
        group_fits(ss.take(i), g, k),
    decreases ss.len() - i,
{
    if i < ss.len() {
        lemma_fits_prefix(ss, g, k, i + 1);
        lemma_group_step(ss, g, i, k);
    } else {
        assert(ss.take(i) =~= ss);
    }
}

fn session_selected(s: &Session, g: &GroupBy) -> (r: bool)
    ensures
        r == selected(*s, *g),
{
    match g {
        GroupBy::App => !s.is_idle,
        GroupBy::Page(c) => !s.is_idle && eq_chars(
            &chars_of(s.app_class.as_str()),
            &chars_of(c.as_str()),
        ),
        GroupBy::Date(idle) => s.is_idle == *idle,
    }
}

fn session_key(s: &Session, g: &GroupBy) -> (r: String)
    ensures
        r@ == group_key(*s, *g),
{
    match g {
        GroupBy::App => s.app_class.clone(),
        GroupBy::Page(_) => s.app_title.clone(),
        GroupBy::Date(_) => s.date.clone(),
    }
}

/// Inserts `row` into rows ordered from the largest total down, after every
/// row whose total is at least as large; returns where it went.
fn insert_ordered(rows: &mut Vec<AppSummary>, row: AppSummary) -> (p: usize)
    requires
        forall|i: int, j: int|
            0 <= i < j < old(rows)@.len() ==> (#[trigger] old(rows)@[i]).total_ms >= (
            #[trigger] old(rows)@[j]).total_ms,
    ensures
        p <= old(rows)@.len(),
        final(rows)@ == old(rows)@.insert(p as int, row),
        final(rows)@.len() == old(rows)@.len() + 1,
        forall|i: int| 0 <= i < p ==> #[trigger] final(rows)@[i] == old(rows)@[i],
        forall|i: int| p <= i < old(rows)@.len() ==> final(rows)@[i + 1] == #[trigger] old(rows)@[i],
        final(rows)@[p as int] == row,
        forall|i: int, j: int|
            0 <= i < j < final(rows)@.len() ==> (#[trigger] final(rows)@[i]).total_ms >= (
            #[trigger] final(rows)@[j]).total_ms,
{
    let mut p: usize = 0;
    while p < rows.len() && rows[p].total_ms >= row.total_ms
        invariant
            p <= rows@.len(),
            rows@ == old(rows)@,
            forall|j: int| 0 <= j < p ==> (#[trigger] rows@[j]).total_ms >= row.total_ms,
        decreases rows@.len() - p,
    {
        p += 1;
    }
    let ghost before = rows@;
    proof {
        before.insert_ensures(p as int, row);
    }
    rows.insert(p, row);
    assert forall|i: int, j: int|
        0 <= i < j < rows@.len() implies (#[trigger] rows@[i]).total_ms >= (
        #[trigger] rows@[j]).total_ms by {
        if j < p {
        } else if j == p {
            assert(rows@[i] == before[i]);
        } else if i < p {
            assert(rows@[j] == before[j - 1]);
            assert(rows@[i] == before[i]);
            if p < before.len() {
                assert(before[i].total_ms >= before[p as int].total_ms);
            }
        } else if i == p {
            assert(rows@[j] == before[j - 1]);
            if (p as int) < before.len() {
                assert(!(before[p as int].total_ms >= row.total_ms));
                if j - 1 > p {
                    assert(before[p as int].total_ms >= before[j - 1].total_ms);
                }
            }
        } else {
            assert(rows@[j] == before[j - 1]);
            assert(rows@[i] == before[i - 1]);
        }
    }
    p
}

fn copy_summary(a: &AppSummary) -> (r: AppSummary)
    ensures
        r == *a,
{
    AppSummary { app_class: a.app_class.clone(), total_ms: a.total_ms }
}

pub open spec fn distinct_keys(rows: Seq<AppSummary>) -> bool {
    forall|i: int, j: int|
        0 <= i < j < rows.len() ==> (#[trigger] rows[i]).app_class@ != (#[trigger] rows[j]).app_class@
}

/// The rows of `groups` ordered from the largest total down (stable).
fn order_by_total(groups: &Vec<AppSummary>) -> (rows: Vec<AppSummary>)
    requires
        distinct_keys(groups@),
    ensures
        rows@.len() == groups@.len(),
        distinct_keys(rows@),
        forall|i: int, j: int|
            0 <= i < j < rows@.len() ==> (#[trigger] rows@[i]).total_ms >= (
            #[trigger] rows@[j]).total_ms,
        forall|a: int| 0 <= a < rows@.len() ==> groups@.contains(#[trigger] rows@[a]),
        forall|b: int| 0 <= b < groups@.len() ==> rows@.contains(#[trigger] groups@[b]),
{
    let mut rows: Vec<AppSummary> = Vec::new();
    let mut m: usize = 0;
    while m < groups.len()
        invariant
            m <= groups@.len(),
            distinct_keys(groups@),
            rows@.len() == m,
            distinct_keys(rows@),
            forall|a: int, b: int|
                0 <= a < b < rows@.len() ==> (#[trigger] rows@[a]).total_ms >= (
                #[trigger] rows@[b]).total_ms,
            forall|a: int| 0 <= a < rows@.len() ==> groups@.take(m as int).contains(#[trigger] rows@[a]),
            forall|b: int| 0 <= b < m ==> rows@.contains(#[trigger] groups@[b]),
        decreases groups@.len() - m,
    {
        let ghost before = rows@;
        let p = insert_ordered(&mut rows, copy_summary(&groups[m]));
        proof {
            lemma_insert_keeps(groups@, before, rows@, m as int, p as int);
        }
        m += 1;
    }
    assert(groups@.take(m as int) =~= groups@);
    rows
}

proof fn lemma_insert_keeps(
    groups: Seq<AppSummary>,
    before: Seq<AppSummary>,
    rows: Seq<AppSummary>,
    m: int,
    p: int,
)
    requires
        0 <= m < groups.len(),
        before.len() == m,
        0 <= p <= m,
        distinct_keys(groups),
        distinct_keys(before),
        rows.len() == m + 1,
        forall|i: int| 0 <= i < p ==> #[trigger] rows[i] == before[i],
        forall|i: int| p <= i < before.len() ==> rows[i + 1] == #[trigger] before[i],
        rows[p] == groups[m],
        forall|a: int| 0 <= a < before.len() ==> groups.take(m).contains(#[trigger] before[a]),
        forall|b: int| 0 <= b < m ==> before.contains(#[trigger] groups[b]),
    ensures
        distinct_keys(rows),
        forall|a: int| 0 <= a < rows.len() ==> groups.take(m + 1).contains(#[trigger] rows[a]),
        forall|b: int| 0 <= b < m + 1 ==> rows.contains(#[trigger] groups[b]),
{
    assert forall|a: int| 0 <= a < rows.len() implies groups.take(m + 1).contains(#[trigger] rows[a]) by {
        if a < p {
            assert(rows[a] == before[a]);
            let k = choose|k: int| 0 <= k < m && groups.take(m)[k] == before[a];
            assert(groups.take(m + 1)[k] == rows[a]);
        } else if a == p {
            assert(groups.take(m + 1)[m] == rows[a]);
        } else {
            assert(rows[a] == before[a - 1]);
            let k = choose|k: int| 0 <= k < m && groups.take(m)[k] == before[a - 1];
            assert(groups.take(m + 1)[k] == rows[a]);
        }
    }
    assert forall|b: int| 0 <= b < m + 1 implies rows.contains(#[trigger] groups[b]) by {
        if b == m {
            assert(rows[p] == groups[b]);
        } else {
            assert(before.contains(groups[b]));
            let a = choose|a: int| 0 <= a < before.len() && before[a] == groups[b];
            if a < p {
                assert(rows[a] == groups[b]);
            } else {
                assert(rows[a + 1] == groups[b]);
            }
        }
    }
    // The new row's key differs from every earlier row's: those are earlier groups.
    assert forall|a: int| 0 <= a < before.len() implies (#[trigger] before[a]).app_class@
        != groups[m].app_class@ by {
        assert(groups.take(m).contains(before[a]));
        let k = choose|k: int| 0 <= k < m && groups.take(m)[k] == before[a];
        assert(groups[k] == before[a]);
        assert(groups[k].app_class@ != groups[m].app_class@);
    }
    assert forall|i: int, j: int|
        0 <= i < j < rows.len() implies (#[trigger] rows[i]).app_class@ != (
        #[trigger] rows[j]).app_class@ by {
        if j < p {
            assert(rows[i] == before[i] && rows[j] == before[j]);
        } else if j == p {
            assert(rows[i] == before[i]);
        } else if i < p {
            assert(rows[i] == before[i] && rows[j] == before[j - 1]);
        } else if i == p {
            assert(rows[j] == before[j - 1]);
        } else {
            assert(rows[i] == before[i - 1] && rows[j] == before[j - 1]);
        }
    }
}

/// Groups `sessions` by `g` and sums each group's durations: the rows of the
/// SQL `SELECT key, SUM(end_ms - start_ms) ... GROUP BY key ORDER BY 2 DESC`.
/// `None` when some group's sum overflows. Rows with equal totals come in the
/// order in which their groups first appear.
pub fn group_totals(sessions: &Vec<Session>, g: &GroupBy) -> (r: Option<Vec<AppSummary>>)
    ensures
        r is Some <==> all_groups_fit(sessions@, *g),
        r matches Some(rows) ==> is_grouping(sessions@, *g, rows@),
{
    let ghost ss = sessions@;
    // Groups in order of first appearance, with their running totals.
    let mut keys: Vec<Vec<char>> = Vec::new();
    let mut groups: Vec<AppSummary> = Vec::new();
    let mut i: usize = 0;
    assert forall|k: Seq<char>| #[trigger] group_fits(ss.take(0), *g, k) by {
        assert(ss.take(0).len() == 0);
    }
    assert forall|k: Seq<char>| !has_group(ss.take(0), *g, k) by {}
    while i < sessions.len()
        invariant
            ss == sessions@,
            i <= ss.len(),
            keys@.len() == groups@.len(),
            forall|j: int| 0 <= j < groups@.len() ==> (#[trigger] keys@[j])@ == groups@[j].app_class@,
            forall|k: Seq<char>| #[trigger] group_fits(ss.take(i as int), *g, k),
            forall|j: int|
                0 <= j < groups@.len() ==> (#[trigger] groups@[j]).total_ms == group_total(
                    ss.take(i as int),
                    *g,
                    groups@[j].app_class@,
                ) && has_group(ss.take(i as int), *g, groups@[j].app_class@),
            forall|k: Seq<char>|
                #[trigger] has_group(ss.take(i as int), *g, k) ==> exists|j: int|
                    0 <= j < groups@.len() && (#[trigger] groups@[j]).app_class@ == k,
            forall|a: int, b: int|
                0 <= a < b < groups@.len() ==> (#[trigger] groups@[a]).app_class@ != (
                #[trigger] groups@[b]).app_class@,
        decreases ss.len() - i,
    {
        let s = &sessions[i];
        proof {
            lemma_group_step(ss, *g, i as int, Seq::empty());
        }
        if session_selected(s, g) {
            let key = session_key(s, g);
            let kc = chars_of(key.as_str());
            // Look the key up among the groups seen so far.
            let mut j: usize = 0;
            while j < keys.len() && !eq_chars(&keys[j], &kc)
                invariant
                    j <= keys@.len(),
                    keys@.len() == groups@.len(),
                    forall|m: int| 0 <= m < j ==> (#[trigger] keys@[m])@ != kc@,
                decreases keys@.len() - j,
            {
                j += 1;
            }
            let d = s.end_ms.checked_sub(s.start_ms);
            if d.is_none() {
                proof {
                    lemma_group_step(ss, *g, i as int, kc@);
                    if group_fits(ss, *g, kc@) {
                        lemma_fits_prefix(ss, *g, kc@, i + 1);
                    }
                    assert(!group_fits(ss, *g, kc@));
                }
                return None;
            }
            let d = d.unwrap();
            if j < keys.len() {
                let t = groups[j].total_ms.checked_add(d);
                if t.is_none() {
                    proof {
                        lemma_group_step(ss, *g, i as int, kc@);
                        if group_fits(ss, *g, kc@) {
                            lemma_fits_prefix(ss, *g, kc@, i + 1);
                        }
                        assert(!group_fits(ss, *g, kc@));
                    }
                    return None;
                }
                let ghost old_groups = groups@;
                let row = AppSummary { app_class: groups[j].app_class.clone(), total_ms: t.unwrap() };
                groups.set(j, row);
                proof {
                    assert forall|k: Seq<char>| #[trigger] group_fits(ss.take(i + 1), *g, k) by {
                        lemma_group_step(ss, *g, i as int, k);
                    }
                    assert forall|m: int|
                        0 <= m < groups@.len() implies (#[trigger] groups@[m]).total_ms
                        == group_total(ss.take(i + 1), *g, groups@[m].app_class@) && has_group(
                        ss.take(i + 1),
                        *g,
                        groups@[m].app_class@,
                    ) by {
                        lemma_group_step(ss, *g, i as int, groups@[m].app_class@);
                        if m != j {
                            assert(groups@[m] == old_groups[m]);
                            assert(old_groups[m].app_class@ != old_groups[j as int].app_class@);
                        }
                    }
                    assert forall|k: Seq<char>|
                        #[trigger] has_group(ss.take(i + 1), *g, k) implies exists|m: int|
                        0 <= m < groups@.len() && (#[trigger] groups@[m]).app_class@ == k by {
                        lemma_group_step(ss, *g, i as int, k);
                        if has_group(ss.take(i as int), *g, k) {
                            let m = choose|m: int|
                                0 <= m < old_groups.len() && (#[trigger] old_groups[m]).app_class@
                                    == k;
                            assert(groups@[m].app_class@ == k);
                        } else {
                            assert(groups@[j as int].app_class@ == k);
                        }
                    }
                    assert forall|a: int, b: int|
                        0 <= a < b < groups@.len() implies (#[trigger] groups@[a]).app_class@ != (
                        #[trigger] groups@[b]).app_class@ by {
                        assert(old_groups[a].app_class@ != old_groups[b].app_class@);
                    }
                }
            } else {
                proof {
                    lemma_group_step(ss, *g, i as int, kc@);
                    assert(!has_group(ss.take(i as int), *g, kc@)) by {
                        if has_group(ss.take(i as int), *g, kc@) {
                            let m = choose|m: int|
                                0 <= m < groups@.len() && (#[trigger] groups@[m]).app_class@
                                    == kc@;
                            assert(keys@[m]@ == kc@);
                        }
                    }
                    assert(group_total(ss.take(i as int), *g, kc@) == 0) by {
                        lemma_no_group_zero(ss.take(i as int), *g, kc@);
                    }
                }
                let ghost old_groups = groups@;
                keys.push(kc);
                groups.push(AppSummary { app_class: key, total_ms: d });
                proof {
                    assert forall|k: Seq<char>| #[trigger] group_fits(ss.take(i + 1), *g, k) by {
                        lemma_group_step(ss, *g, i as int, k);
                    }
                    assert forall|m: int|
                        0 <= m < groups@.len() implies (#[trigger] groups@[m]).total_ms
                        == group_total(ss.take(i + 1), *g, groups@[m].app_class@) && has_group(
                        ss.take(i + 1),
                        *g,
                        groups@[m].app_class@,
                    ) by {
                        lemma_group_step(ss, *g, i as int, groups@[m].app_class@);
                        if m < old_groups.len() {
                            assert(groups@[m] == old_groups[m]);
                            assert(keys@[m]@ != kc@);
                        }
                    }
                    assert forall|k: Seq<char>|
                        #[trigger] has_group(ss.take(i + 1), *g, k) implies exists|m: int|
                        0 <= m < groups@.len() && (#[trigger] groups@[m]).app_class@ == k by {
                        lemma_group_step(ss, *g, i as int, k);
                        if has_group(ss.take(i as int), *g, k) {
                            let m = choose|m: int|
                                0 <= m < old_groups.len() && (#[trigger] old_groups[m]).app_class@
                                    == k;
                            assert(groups@[m].app_class@ == k);
                        } else {
                            assert(groups@[old_groups.len() as int].app_class@ == k);
                        }
                    }
                    assert forall|a: int, b: int|
                        0 <= a < b < groups@.len() implies (#[trigger] groups@[a]).app_class@ != (
                        #[trigger] groups@[b]).app_class@ by {
                        if b == old_groups.len() {
                            assert(keys@[a]@ != kc@);
                        } else {
                            assert(old_groups[a].app_class@ != old_groups[b].app_class@);
                        }
                    }
                }
            }
        } else {
            proof {
                assert forall|k: Seq<char>| #[trigger] group_fits(ss.take(i + 1), *g, k) by {
                    lemma_group_step(ss, *g, i as int, k);
                }
                assert forall|m: int|
                    0 <= m < groups@.len() implies (#[trigger] groups@[m]).total_ms
                    == group_total(ss.take(i + 1), *g, groups@[m].app_class@) && has_group(
                    ss.take(i + 1),
                    *g,
                    groups@[m].app_class@,
                ) by {
                    lemma_group_step(ss, *g, i as int, groups@[m].app_class@);
                }
                assert forall|k: Seq<char>|
                    #[trigger] has_group(ss.take(i + 1), *g, k) implies exists|m: int|
                    0 <= m < groups@.len() && (#[trigger] groups@[m]).app_class@ == k by {
                    lemma_group_step(ss, *g, i as int, k);
                }
            }
        }
        i += 1;
    }
    assert(ss.take(ss.len() as int) =~= ss);
    let rows = order_by_total(&groups);
    proof {
        assert forall|j: int|
            0 <= j < rows@.len() implies #[trigger] rows@[j].total_ms == group_total(
            ss,
            *g,
            rows@[j].app_class@,
        ) && has_group(ss, *g, rows@[j].app_class@) by {
            assert(groups@.contains(rows@[j]));
            let b = choose|b: int| 0 <= b < groups@.len() && groups@[b] == rows@[j];
            assert(groups@[b].total_ms == group_total(ss.take(ss.len() as int), *g, groups@[b].app_class@));
        }
        assert forall|k: Seq<char>|
            #[trigger] has_group(ss, *g, k) implies exists|j: int|
            0 <= j < rows@.len() && (#[trigger] rows@[j]).app_class@ == k by {
            assert(has_group(ss.take(ss.len() as int), *g, k));
            let b = choose|b: int| 0 <= b < groups@.len() && (#[trigger] groups@[b]).app_class@ == k;
            assert(rows@.contains(groups@[b]));
            let a = choose|a: int| 0 <= a < rows@.len() && rows@[a] == groups@[b];
            assert(rows@[a].app_class@ == k);
        }
    }
    Some(rows)
}

proof fn lemma_no_group_zero(ss: Seq<Session>, g: GroupBy, k: Seq<char>)
    requires
        !has_group(ss, g, k),
    ensures
        group_total(ss, g, k) == 0,
    decreases ss.len(),
{
    if ss.len() > 0 {
        assert(!in_group(ss[ss.len() - 1], g, k));
        assert forall|j: int| 0 <= j < ss.drop_last().len() implies !in_group(#[trigger] ss.drop_last()[j], g, k) by {
            assert(ss.drop_last()[j] == ss[j]);
        }
        lemma_no_group_zero(ss.drop_last(), g, k);
    }
}

/// The summed duration of the idle (`idle == true`) or the active sessions.
pub open spec fn kind_total(ss: Seq<Session>, idle: bool) -> int
    decreases ss.len(),
{
    if ss.len() == 0 {
        0
    } else if ss.last().is_idle == idle {
        kind_total(ss.drop_last(), idle) + duration(ss.last())
    } else {
        kind_total(ss.drop_last(), idle)
    }
}

/// Every duration of that kind, and every running sum of them, fits in an `i64`.
pub open spec fn kind_fits(ss: Seq<Session>, idle: bool) -> bool
    decreases ss.len(),
{
    if ss.len() == 0 {
        true
    } else {
        kind_fits(ss.drop_last(), idle) && (ss.last().is_idle == idle ==> fits_i64(
            duration(ss.last()),
        ) && fits_i64(kind_total(ss, idle)))
    }
}

proof fn lemma_kind_step(ss: Seq<Session>, i: int, idle: bool)
    requires
        0 <= i < ss.len(),
    ensures
        ss.take(i + 1).drop_last() == ss.take(i),
        ss.take(i + 1).last() == ss[i],
{
    assert(ss.take(i + 1).drop_last() =~= ss.take(i));
}

proof fn lemma_kind_fits_prefix(ss: Seq<Session>, idle: bool, i: int)
    requires
        0 <= i <= ss.len(),
        kind_fits(ss, idle),
    ensures
        kind_fits(ss.take(i), idle),
    decreases ss.len() - i,
{
    if i < ss.len() {
        lemma_kind_fits_prefix(ss, idle, i + 1);
        lemma_kind_step(ss, i, idle);
    } else {
        assert(ss.take(i) =~= ss);
    }
}

/// Active and idle time of `sessions` under the label `label` (the day, or
/// the range that the sessions were read for). `None` when a sum overflows.
pub fn summarize(label: String, sessions: &Vec<Session>) -> (r: Option<DaySummary>)
    ensures
        r is Some <==> kind_fits(sessions@, false) && kind_fits(sessions@, true) && fits_i64(
            kind_total(sessions@, false) + kind_total(sessions@, true),
        ),
        r matches Some(d) ==> {
            &&& d.date@ == label@
            &&& d.active_ms == kind_total(sessions@, false)
            &&& d.idle_ms == kind_total(sessions@, true)
            &&& d.pc_on_ms == d.active_ms + d.idle_ms
        },
{
    let ghost ss = sessions@;
    let mut active: i64 = 0;
    let mut idle: i64 = 0;
    let mut i: usize = 0;
    while i < sessions.len()
        invariant
            ss == sessions@,
            i <= ss.len(),
            kind_fits(ss.take(i as int), false),
            kind_fits(ss.take(i as int), true),
            active == kind_total(ss.take(i as int), false),
            idle == kind_total(ss.take(i as int), true),
        decreases ss.len() - i,
    {
        proof {
            lemma_kind_step(ss, i as int, false);
        }
        let s = &sessions[i];
        let d = s.end_ms.checked_sub(s.start_ms);
        match d {
            None => {
                proof {
                    if kind_fits(ss, s.is_idle) {
                        lemma_kind_fits_prefix(ss, s.is_idle, i + 1);
                    }
                }
                return None;
            },
            Some(d) => {
                if s.is_idle {
                    match idle.checked_add(d) {
                        Some(t) => {
                            idle = t;
                        },
                        None => {
                            proof {
                                if kind_fits(ss, true) {
                                    lemma_kind_fits_prefix(ss, true, i + 1);
                                }
                            }
                            return None;
                        },
                    }
                } else {
                    match active.checked_add(d) {
                        Some(t) => {
                            active = t;
                        },
                        None => {
                            proof {
                                if kind_fits(ss, false) {
                                    lemma_kind_fits_prefix(ss, false, i + 1);
                                }
                            }
                            return None;
                        },
                    }
                }
            },
        }
        i += 1;
    }
    assert(ss.take(ss.len() as int) =~= ss);
    match active.checked_add(idle) {
        Some(total) => Some(DaySummary { date: label, pc_on_ms: total, active_ms: active, idle_ms: idle }),
        None => None,
    }
}

/// The label of a summary over the days `from` to `to`: `from — to`.
pub fn range_label(from: &str, to: &str) -> (r: String)
    ensures
        r@ == from@ + " \u{2014} "@ + to@,
{
    let mut r = String::from_str(from);
    r.append(" \u{2014} ");
    r.append(to);
    r
}

// ---------------------------------------------------------------------------
// The groups add up
// ---------------------------------------------------------------------------

/// The summed duration of the sessions that `g` selects.
pub open spec fn selected_total(ss: Seq<Session>, g: GroupBy) -> int
    decreases ss.len(),
{
    if ss.len() == 0 {
        0
    } else if selected(ss.last(), g) {
        selected_total(ss.drop_last(), g) + duration(ss.last())
    } else {
        selected_total(ss.drop_last(), g)
    }
}

/// The summed totals of `rows`.
pub open spec fn rows_total(rows: Seq<AppSummary>) -> int
    decreases rows.len(),
{
    if rows.len() == 0 {
        0
    } else {
        rows_total(rows.drop_last()) + rows.last().total_ms
    }
}

/// The summed group totals of the groups `keys`.
pub open spec fn keys_total(ss: Seq<Session>, g: GroupBy, keys: Seq<Seq<char>>) -> int
    decreases keys.len(),
{
    if keys.len() == 0 {
        0
    } else {
        keys_total(ss, g, keys.drop_last()) + group_total(ss, g, keys.last())
    }
}

pub open spec fn row_keys(rows: Seq<AppSummary>) -> Seq<Seq<char>> {
    rows.map_values(|r: AppSummary| r.app_class@)
}

proof fn lemma_keys_total_empty(ss: Seq<Session>, g: GroupBy, keys: Seq<Seq<char>>)
    requires
        ss.len() == 0,
    ensures
        keys_total(ss, g, keys) == 0,
    decreases keys.len(),
{
    if keys.len() > 0 {
        lemma_keys_total_empty(ss, g, keys.drop_last());
    }
}

/// Adding the session `s` adds its duration to the one group it belongs to.
proof fn lemma_keys_total_push(ss: Seq<Session>, g: GroupBy, keys: Seq<Seq<char>>)
    requires
        ss.len() > 0,
        forall|i: int, j: int| 0 <= i < j < keys.len() ==> keys[i] != keys[j],
    ensures
        keys_total(ss, g, keys) == keys_total(ss.drop_last(), g, keys) + if selected(ss.last(), g)
            && keys.contains(group_key(ss.last(), g)) {
            duration(ss.last())
        } else {
            0
        },
    decreases keys.len(),
{
    if keys.len() > 0 {
        let ks = keys.drop_last();
        assert forall|i: int, j: int| 0 <= i < j < ks.len() implies ks[i] != ks[j] by {
            assert(ks[i] == keys[i] && ks[j] == keys[j]);
        }
        lemma_keys_total_push(ss, g, ks);
        let k0 = group_key(ss.last(), g);
        if keys.contains(k0) && keys.last() != k0 {
            let i = choose|i: int| 0 <= i < keys.len() && keys[i] == k0;
            assert(ks[i] == k0);
        }
        if ks.contains(k0) && keys.last() == k0 {
            let i = choose|i: int| 0 <= i < ks.len() && ks[i] == k0;
            assert(keys[i] == keys[keys.len() - 1]);
        }
        if keys.last() == k0 {
            assert(keys.contains(k0)) by {
                assert(keys[keys.len() - 1] == k0);
            }
        }
        if ks.contains(k0) {
            let i = choose|i: int| 0 <= i < ks.len() && ks[i] == k0;
            assert(keys[i] == k0);
        }
    }
}

/// The totals of distinct groups that take in every selected session add up
/// to the time of all selected sessions.
proof fn lemma_keys_cover(ss: Seq<Session>, g: GroupBy, keys: Seq<Seq<char>>)
    requires
        forall|i: int, j: int| 0 <= i < j < keys.len() ==> keys[i] != keys[j],
        forall|k: Seq<char>| has_group(ss, g, k) ==> keys.contains(k),
    ensures
        keys_total(ss, g, keys) == selected_total(ss, g),
    decreases ss.len(),
{
    if ss.len() == 0 {
        lemma_keys_total_empty(ss, g, keys);
    } else {
        let prev = ss.drop_last();
        assert forall|k: Seq<char>| has_group(prev, g, k) implies keys.contains(k) by {
            let i = choose|i: int| 0 <= i < prev.len() && in_group(#[trigger] prev[i], g, k);
            assert(ss[i] == prev[i]);
            assert(has_group(ss, g, k));
        }
        lemma_keys_cover(prev, g, keys);
        lemma_keys_total_push(ss, g, keys);
        if selected(ss.last(), g) {
            let k0 = group_key(ss.last(), g);
            assert(in_group(ss[ss.len() - 1], g, k0));
            assert(has_group(ss, g, k0));
        }
    }
}

proof fn lemma_rows_total(ss: Seq<Session>, g: GroupBy, rows: Seq<AppSummary>)
    requires
        forall|j: int|
            0 <= j < rows.len() ==> #[trigger] rows[j].total_ms == group_total(
                ss,
                g,
                rows[j].app_class@,
            ),
    ensures
        rows_total(rows) == keys_total(ss, g, row_keys(rows)),
    decreases rows.len(),
{
    if rows.len() > 0 {
        let prev = rows.drop_last();
        assert(row_keys(prev) =~= row_keys(rows).drop_last());
        assert forall|j: int| 0 <= j < prev.len() implies #[trigger] prev[j].total_ms == group_total(
            ss,
            g,
            prev[j].app_class@,
        ) by {
            assert(prev[j] == rows[j]);
        }
        lemma_rows_total(ss, g, prev);
        assert(rows[rows.len() - 1].total_ms == group_total(ss, g, rows.last().app_class@));
    }
}

proof fn lemma_selected_app_is_active(ss: Seq<Session>)
    ensures
        selected_total(ss, GroupBy::App) == kind_total(ss, false),
    decreases ss.len(),
{
    if ss.len() > 0 {
        lemma_selected_app_is_active(ss.drop_last());
    }
}

proof fn lemma_selected_page_is_app(ss: Seq<Session>, c: String)
    ensures
        selected_total(ss, GroupBy::Page(c)) == group_total(ss, GroupBy::App, c@),
    decreases ss.len(),
{
    if ss.len() > 0 {
        lemma_selected_page_is_app(ss.drop_last(), c);
    }
}

/// The rows of a grouping add up to the time of the sessions grouped.
pub proof fn law_grouping_adds_up(ss: Seq<Session>, g: GroupBy, rows: Seq<AppSummary>)
    requires
        is_grouping(ss, g, rows),
    ensures
        rows_total(rows) == selected_total(ss, g),
{
    lemma_rows_total(ss, g, rows);
    let keys = row_keys(rows);
    assert forall|i: int, j: int| 0 <= i < j < keys.len() implies keys[i] != keys[j] by {
        assert(keys[i] == rows[i].app_class@ && keys[j] == rows[j].app_class@);
    }
    assert forall|k: Seq<char>| has_group(ss, g, k) implies keys.contains(k) by {
        let j = choose|j: int| 0 <= j < rows.len() && (#[trigger] rows[j]).app_class@ == k;
        assert(keys[j] == k);
    }
    lemma_keys_cover(ss, g, keys);
}

/// The applications' times add up to the active time of the same sessions:
/// the per-application report splits the day's active time.
pub proof fn law_apps_add_up_to_active(ss: Seq<Session>, rows: Seq<AppSummary>)
    requires
        is_grouping(ss, GroupBy::App, rows),
    ensures
        rows_total(rows) == kind_total(ss, false),
{
    law_grouping_adds_up(ss, GroupBy::App, rows);
    lemma_selected_app_is_active(ss);
}

/// The pages of an application add up to that application's time.
pub proof fn law_pages_add_up_to_app(ss: Seq<Session>, app: String, rows: Seq<AppSummary>)
    requires
        is_grouping(ss, GroupBy::Page(app), rows),
    ensures
        rows_total(rows) == group_total(ss, GroupBy::App, app@),
{
    law_grouping_adds_up(ss, GroupBy::Page(app), rows);
    lemma_selected_page_is_app(ss, app);
}

} // verus!
