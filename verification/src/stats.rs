//! Ranked algorithm statistics: the accumulated per-algorithm weights of a
//! subtree, sorted by descending count with encounter order breaking ties,
//! each with a rounded percentage of the total.

use vstd::prelude::*;

verus! {

use vstd::string::StringExecFns;
use crate::text::dec_digits;
use crate::text::u64_string;
use crate::tree::TreeNode;
use crate::tree::stats_after;
use crate::tree::stats_view;

/// One row of the statistics table: the algorithm label, its accumulated
/// count rendered in decimal, and its rounded share of the total as a
/// percentage string.
pub struct StatsRow {
    pub algorithm: String,
    pub count: String,
    pub percentage: String,
}

/// The mathematical shadow of a statistics row.
pub ghost struct StatsRowModel {
    pub algorithm: Seq<char>,
    pub count: Seq<char>,
    pub percentage: Seq<char>,
}

impl View for StatsRow {
    type V = StatsRowModel;

    open spec fn view(&self) -> StatsRowModel {
        StatsRowModel {
            algorithm: self.algorithm@,
            count: self.count@,
            percentage: self.percentage@,
        }
    }
}

pub open spec fn row_views(s: Seq<StatsRow>) -> Seq<StatsRowModel> {
    s.map_values(|r: StatsRow| r@)
}

pub open spec fn pair_views(s: Seq<(String, u64)>) -> Seq<(Seq<char>, u64)> {
    s.map_values(|p: (String, u64)| (p.0@, p.1))
}

/// Inserts an entry into a descending list: it goes after every entry whose
/// count is at least as large, so equal counts keep their encounter order.
pub open spec fn insert_desc(s: Seq<(Seq<char>, u64)>, x: (Seq<char>, u64)) -> Seq<(Seq<char>, u64)>
    decreases s.len(),
{
    if s.len() == 0 {
        seq![x]
    } else if s.last().1 < x.1 {
        insert_desc(s.drop_last(), x).push(s.last())
    } else {
        s.push(x)
    }
}

/// Stable insertion sort by descending count.
pub open spec fn sort_desc(s: Seq<(Seq<char>, u64)>) -> Seq<(Seq<char>, u64)>
    decreases s.len(),
{
    if s.len() == 0 {
        Seq::empty()
    } else {
        insert_desc(sort_desc(s.drop_last()), s.last())
    }
}

/// The summed counts of the entries at or after position `i`.
pub open spec fn counts_total(s: Seq<(Seq<char>, u64)>, i: int) -> int
    decreases s.len() - i,
{
    if i < 0 || i >= s.len() {
        0
    } else {
        s[i].1 + counts_total(s, i + 1)
    }
}

/// The rounded percentage `count` makes of `total`: round-half-up of
/// `100 * count / total`, and 0 of an empty total.
pub open spec fn pct_of(count: u64, total: int) -> int {
    if total > 0 {
        (200 * (count as int) + total) / (2 * total)
    } else {
        0
    }
}

/// The statistics rows of a subtree: its accumulated algorithm counts,
/// sorted by descending count (ties keep encounter order), each rendered
/// with its count and its rounded percentage of the summed counts.
pub open spec fn stats_rows_model(n: TreeNode) -> Seq<StatsRowModel> {
    let entries = stats_after(n, Seq::empty());
    let total = counts_total(entries, 0);
    let sorted = sort_desc(entries);
    sorted.map_values(
        |p: (Seq<char>, u64)|
            StatsRowModel {
                algorithm: p.0,
                count: dec_digits(p.1 as int),
                percentage: dec_digits(pct_of(p.1, total)) + "%"@,
            },
    )
}

proof fn lemma_insert_desc_shape(s: Seq<(Seq<char>, u64)>, x: (Seq<char>, u64), pos: int)
    requires
        0 <= pos <= s.len(),
        forall|k: int| pos <= k < s.len() ==> (#[trigger] s[k]).1 < x.1,
        pos > 0 ==> s[pos - 1].1 >= x.1,
    ensures
        insert_desc(s, x) == s.insert(pos, x),
    decreases s.len(),
{
    if s.len() == 0 {
        assert(insert_desc(s, x) =~= s.insert(0, x));
    } else if s.last().1 < x.1 {
        assert(pos < s.len());
        lemma_insert_desc_shape(s.drop_last(), x, pos);
        assert(insert_desc(s.drop_last(), x).push(s.last()) =~= s.insert(pos, x));
    } else {
        assert(pos == s.len());
        assert(s.push(x) =~= s.insert(pos, x));
    }
}

proof fn lemma_insert_desc_total(s: Seq<(Seq<char>, u64)>, x: (Seq<char>, u64))
    ensures
        counts_total(insert_desc(s, x), 0) == counts_total(s, 0) + x.1,
    decreases s.len(),
{
    if s.len() == 0 {
        assert(counts_total(insert_desc(s, x), 0) == x.1 + counts_total(insert_desc(s, x), 1));
    } else if s.last().1 < x.1 {
        lemma_insert_desc_total(s.drop_last(), x);
        lemma_counts_total_push(insert_desc(s.drop_last(), x), s.last(), 0);
        lemma_counts_total_push(s.drop_last(), s.last(), 0);
        assert(s.drop_last().push(s.last()) =~= s);
    } else {
        lemma_counts_total_push(s, x, 0);
    }
}

proof fn lemma_counts_total_push(s: Seq<(Seq<char>, u64)>, x: (Seq<char>, u64), i: int)
    requires
        0 <= i <= s.len(),
    ensures
        counts_total(s.push(x), i) == counts_total(s, i) + x.1,
    decreases s.len() - i,
{
    if i == s.len() {
        assert(s.push(x)[i] == x);
        assert(counts_total(s.push(x), i + 1) == 0);
    } else {
        assert(s.push(x)[i] == s[i]);
        lemma_counts_total_push(s, x, i + 1);
    }
}

/// Sorting permutes the entries, so the total is unchanged.
proof fn lemma_sort_desc_total(s: Seq<(Seq<char>, u64)>)
    ensures
        counts_total(sort_desc(s), 0) == counts_total(s, 0),
    decreases s.len(),
{
    if s.len() > 0 {
        lemma_sort_desc_total(s.drop_last());
        lemma_insert_desc_total(sort_desc(s.drop_last()), s.last());
        lemma_counts_total_push(s.drop_last(), s.last(), 0);
        assert(s.drop_last().push(s.last()) =~= s);
    }
}

proof fn lemma_counts_total_nonneg(s: Seq<(Seq<char>, u64)>, i: int)
    ensures
        counts_total(s, i) >= 0,
        0 <= i < s.len() ==> counts_total(s, i) >= s[i].1,
    decreases s.len() - i,
{
    if 0 <= i < s.len() {
        lemma_counts_total_nonneg(s, i + 1);
    }
}

proof fn lemma_counts_total_element(s: Seq<(Seq<char>, u64)>, j: int, i: int)
    requires
        0 <= i <= j < s.len(),
    ensures
        counts_total(s, i) >= s[j].1,
    decreases s.len() - i,
{
    lemma_counts_total_nonneg(s, i + 1);
    if i < j {
        lemma_counts_total_element(s, j, i + 1);
    }
}

/// Sorts accumulated statistics by descending count; entries with equal
/// counts keep their encounter order.
pub fn sort_pairs(v: Vec<(String, u64)>) -> (r: Vec<(String, u64)>)
    ensures
        pair_views(r@) == sort_desc(pair_views(v@)),
{
    let mut out: Vec<(String, u64)> = Vec::new();
    let n: usize = v.len();
    let mut i: usize = 0;
    while i < n
        invariant
            n == v@.len(),
            i <= n,
            pair_views(out@) == sort_desc(pair_views(v@.take(i as int))),
        decreases n - i,
    {
        let item: (String, u64) = (v[i].0.clone(), v[i].1);
        let mut pos: usize = out.len();
        while pos > 0 && out[pos - 1].1 < item.1
            invariant
                pos <= out@.len(),
                forall|k: int| pos <= k < out@.len() ==> (#[trigger] out@[k]).1 < item.1,
            decreases pos,
        {
            pos = pos - 1;
        }
        proof {
            lemma_insert_desc_shape(pair_views(out@), (item.0@, item.1), pos as int);
        }
        out.insert(pos, item);
        proof {
            assert(pair_views(v@.take(i + 1)) =~= pair_views(v@.take(i as int)).push(
                (v@[i as int].0@, v@[i as int].1),
            ));
            assert(pair_views(v@.take(i + 1)).drop_last() =~= pair_views(v@.take(i as int)));
            assert(pair_views(out@) =~= insert_desc(
                sort_desc(pair_views(v@.take(i as int))),
                (v@[i as int].0@, v@[i as int].1),
            ));
        }
        i = i + 1;
    }
    proof {
        assert(v@.take(n as int) =~= v@);
    }
    out
}

/// The summed counts, exact in 128 bits.
fn total_counts(v: &Vec<(String, u64)>) -> (t: u128)
    ensures
        t as int == counts_total(pair_views(v@), 0),
{
    let ghost pv = pair_views(v@);
    let n: usize = v.len();
    let mut t: u128 = 0;
    let mut i: usize = 0;
    proof {
        lemma_counts_bound(pv, 0);
    }
    while i < n
        invariant
            n == v@.len(),
            pv == pair_views(v@),
            i <= n,
            t as int + counts_total(pv, i as int) == counts_total(pv, 0),
            counts_total(pv, 0) <= (pv.len() as int) * (u64::MAX as int),
        decreases n - i,
    {
        proof {
            lemma_counts_total_nonneg(pv, i as int);
            lemma_counts_total_nonneg(pv, i + 1);
            assert((pv.len() as int) * (u64::MAX as int)
                < 0x100000000000000000000000000000000int) by (nonlinear_arith)
                requires
                    pv.len() < 0x10000000000000000int;
            assert(pv[i as int].1 == v@[i as int].1);
        }
        t = t + (v[i].1 as u128);
        i = i + 1;
    }
    t
}

proof fn lemma_counts_bound(s: Seq<(Seq<char>, u64)>, i: int)
    requires
        0 <= i <= s.len(),
    ensures
        counts_total(s, i) <= (s.len() - i) * (u64::MAX as int),
    decreases s.len() - i,
{
    if i < s.len() {
        lemma_counts_bound(s, i + 1);
        assert((s.len() - i) * (u64::MAX as int) == (s.len() - i - 1) * (u64::MAX as int) + (
        u64::MAX as int)) by (nonlinear_arith);
    }
}

/// The rounded percentage, computed exactly.
fn percentage_of(count: u64, total: u128) -> (p: u64)
    requires
        count as int <= total as int,
    ensures
        p as int == pct_of(count, total as int),
        p <= 100,
{
    if total == 0 {
        return 0;
    }
    let c200: u128 = 200 * (count as u128);
    if c200 > u128::MAX - total {
        // the total dwarfs the count; the rounded share is zero
        proof {
            assert(total as int > c200 as int);
            vstd::arithmetic::div_mod::lemma_basic_div(
                200 * (count as int) + total as int,
                2 * (total as int),
            );
            assert(pct_of(count, total as int) == 0);
        }
        return 0;
    }
    let x: u128 = c200 + total;
    let q: u128 = (x / 2) / total;
    proof {
        vstd::arithmetic::div_mod::lemma_div_denominator(x as int, 2, total as int);
        assert((200 * (count as int) + total as int) / (2 * (total as int)) <= 100)
            by (nonlinear_arith)
            requires
                0 <= count as int <= total as int,
                total as int > 0;
    }
    q as u64
}

/// The ranked statistics rows of a subtree: accumulated algorithm counts in
/// descending order, ties in encounter order, with exact decimal counts and
/// round-half-up percentages of the summed counts.
pub fn stats_rows(node: &TreeNode) -> (rows: Vec<StatsRow>)
    ensures
        row_views(rows@) == stats_rows_model(*node),
{
    let mut entries: Vec<(String, u64)> = Vec::new();
    node.extract_algorithm_stats(&mut entries);
    proof {
        assert(stats_view(Seq::<(String, u64)>::empty()) =~= Seq::<(Seq<char>, u64)>::empty());
        assert(stats_view(entries@) == stats_after(*node, Seq::empty()));
        assert(stats_view(entries@) =~= pair_views(entries@));
    }
    let total: u128 = total_counts(&entries);
    let ghost total_g = counts_total(pair_views(entries@), 0);
    let ghost sorted_g = sort_desc(pair_views(entries@));
    proof {
        lemma_sort_desc_total(pair_views(entries@));
    }
    let sorted: Vec<(String, u64)> = sort_pairs(entries);
    let mut rows: Vec<StatsRow> = Vec::new();
    let n: usize = sorted.len();
    let mut i: usize = 0;
    while i < n
        invariant
            n == sorted@.len(),
            i <= n,
            pair_views(sorted@) == sorted_g,
            total as int == total_g,
            counts_total(sorted_g, 0) == total_g,
            sorted_g == sort_desc(stats_after(*node, Seq::empty())),
            total_g == counts_total(stats_after(*node, Seq::empty()), 0),
            row_views(rows@) == stats_rows_model(*node).take(i as int),
            stats_rows_model(*node).len() == sorted_g.len(),
        decreases n - i,
    {
        let count: u64 = sorted[i].1;
        proof {
            assert(sorted_g[i as int] == (sorted@[i as int].0@, sorted@[i as int].1));
            lemma_counts_total_element(sorted_g, i as int, 0);
        }
        let pct: u64 = percentage_of(count, total);
        let mut pct_text: String = u64_string(pct);
        pct_text.append("%");
        let row = StatsRow {
            algorithm: sorted[i].0.clone(),
            count: u64_string(count),
            percentage: pct_text,
        };
        let ghost expected = StatsRowModel {
            algorithm: sorted_g[i as int].0,
            count: dec_digits(sorted_g[i as int].1 as int),
            percentage: dec_digits(pct_of(sorted_g[i as int].1, total_g)) + "%"@,
        };
        proof {
            assert(stats_rows_model(*node)[i as int] == expected);
            assert(row@.algorithm == sorted_g[i as int].0);
            assert(row@.count == expected.count);
            assert(row@.percentage == expected.percentage);
        }
        let ghost rows_before = rows@;
        proof {
            assert(row@ == expected);
        }
        rows.push(row);
        proof {
            assert(row_views(rows@) =~= row_views(rows_before).push(expected));
            assert(stats_rows_model(*node).take(i + 1) =~= stats_rows_model(*node).take(
                i as int,
            ).push(stats_rows_model(*node)[i as int]));
            assert(row_views(rows@) =~= stats_rows_model(*node).take(i + 1));
        }
        i = i + 1;
    }
    proof {
        assert(stats_rows_model(*node).take(n as int) =~= stats_rows_model(*node));
    }
    rows
}

} // verus!
