//! The high-score table: entries ranked by depth, then gold, keeping the best 20.
//! Reading and writing the table's file is left to the program around the library.

use vstd::prelude::*;
use crate::text::{int_string, int_text, nat_digits, nat_string, pad_left, pad_right, push_padded_left, push_padded_right, push_str};

verus! {

/// One finished game.
#[derive(Debug, Clone)]
pub struct ScoreEntry {
    pub name: String,
    pub depth: i32,
    pub gold: i32,
    pub turns: u64,
    pub won: bool,
}

/// The high-score table.
#[derive(Debug)]
pub struct Scores {
    pub entries: Vec<ScoreEntry>,
}

impl Default for Scores {
    fn default() -> (s: Self)
        ensures
            s.entries@.len() == 0,
    {
        Scores { entries: Vec::new() }
    }
}

/// Most entries the table keeps.
pub const MAX_SCORES: usize = 20;

/// `a` ranks strictly above `b`: deeper, or as deep with more gold.
pub open spec fn ranks_above(a: ScoreEntry, b: ScoreEntry) -> bool {
    a.depth > b.depth || (a.depth == b.depth && a.gold > b.gold)
}

/// Insert `e` before the first entry it ranks above (after all entries ranked
/// as high as it), keeping ties in arrival order.
pub open spec fn insert_ranked(s: Seq<ScoreEntry>, e: ScoreEntry) -> Seq<ScoreEntry>
    decreases s.len(),
{
    if s.len() == 0 {
        seq![e]
    } else if ranks_above(e, s[0]) {
        seq![e] + s
    } else {
        seq![s[0]] + insert_ranked(s.drop_first(), e)
    }
}

/// The entries in rank order; entries of equal rank keep their order.
pub open spec fn ranked(s: Seq<ScoreEntry>) -> Seq<ScoreEntry>
    decreases s.len(),
{
    if s.len() == 0 {
        Seq::empty()
    } else {
        insert_ranked(ranked(s.drop_last()), s.last())
    }
}

/// No entry ranks above an earlier one.
pub open spec fn rank_sorted(s: Seq<ScoreEntry>) -> bool {
    forall|i: int, j: int| 0 <= i < j < s.len() ==> !ranks_above(#[trigger] s[j], #[trigger] s[i])
}

/// The table after adding `entry` to `entries`: ranked, cut to the best 20.
pub open spec fn table_after(entries: Seq<ScoreEntry>, entry: ScoreEntry) -> Seq<ScoreEntry> {
    let all = ranked(entries.push(entry));
    if all.len() <= 20 { all } else { all.take(20) }
}

/// The display line for the entry at 0-based position `i`, laid out as
/// `{:2}. {:16} depth:{:3}  gold:{:5}  turns:{:6}  {outcome}`.
pub open spec fn score_line(i: int, e: ScoreEntry) -> Seq<char> {
    pad_left(int_text(i + 1), 2) + ". "@ + pad_right(e.name@, 16) + " depth:"@ + pad_left(int_text(e.depth as int), 3)
        + "  gold:"@ + pad_left(int_text(e.gold as int), 5) + "  turns:"@ + pad_left(nat_digits(e.turns as nat), 6)
        + "  "@ + (if e.won { "WON"@ } else { "died"@ })
}

/// Where `insert_ranked` puts `e`: the first entry `e` ranks above, else the end.
pub open spec fn first_below(s: Seq<ScoreEntry>, e: ScoreEntry, p: int) -> bool {
    &&& 0 <= p <= s.len()
    &&& forall|k: int| 0 <= k < p ==> !ranks_above(e, #[trigger] s[k])
    &&& p < s.len() ==> ranks_above(e, s[p])
}

proof fn lemma_insert_ranked_at(s: Seq<ScoreEntry>, e: ScoreEntry, p: int)
    requires
        first_below(s, e, p),
    ensures
        insert_ranked(s, e) == s.insert(p, e),
    decreases s.len(),
{
    if s.len() == 0 {
        assert(s.insert(p, e) =~= seq![e]);
    } else if ranks_above(e, s[0]) {
        assert(p == 0);
        assert(s.insert(p, e) =~= seq![e] + s);
    } else {
        assert(p > 0);
        let t = s.drop_first();
        assert forall|k: int| 0 <= k < p - 1 implies !ranks_above(e, #[trigger] t[k]) by {
            assert(t[k] == s[k + 1]);
        }
        if p - 1 < t.len() {
            assert(t[p - 1] == s[p]);
        }
        lemma_insert_ranked_at(t, e, p - 1);
        assert(s.insert(p, e) =~= seq![s[0]] + t.insert(p - 1, e));
    }
}

/// Where `insert_ranked` puts `e`.
proof fn lemma_first_below_exists(s: Seq<ScoreEntry>, e: ScoreEntry) -> (p: int)
    ensures
        first_below(s, e, p),
    decreases s.len(),
{
    if s.len() == 0 || ranks_above(e, s[0]) {
        0
    } else {
        let t = s.drop_first();
        let q = lemma_first_below_exists(t, e);
        assert forall|k: int| 0 <= k < q + 1 implies !ranks_above(e, #[trigger] s[k]) by {
            if k > 0 {
                assert(s[k] == t[k - 1]);
            }
        }
        if q < t.len() {
            assert(s[q + 1] == t[q]);
        }
        q + 1
    }
}

/// Inserting into a rank-sorted list keeps it rank-sorted and adds exactly `e`.
pub proof fn lemma_insert_ranked_sorted(s: Seq<ScoreEntry>, e: ScoreEntry)
    requires
        rank_sorted(s),
    ensures
        rank_sorted(insert_ranked(s, e)),
        insert_ranked(s, e).to_multiset() == s.to_multiset().insert(e),
{
    broadcast use vstd::seq_lib::group_to_multiset_ensures;
    let p = lemma_first_below_exists(s, e);
    lemma_insert_ranked_at(s, e, p);
    let r = s.insert(p, e);
    vstd::seq_lib::to_multiset_insert(s, p, e);
    assert forall|i: int, j: int| 0 <= i < j < r.len() implies !ranks_above(#[trigger] r[j], #[trigger] r[i]) by {
        if j < p {
            assert(r[i] == s[i] && r[j] == s[j]);
        } else if j == p {
            assert(r[i] == s[i]);
        } else if i < p {
            assert(r[i] == s[i] && r[j] == s[j - 1]);
        } else if i == p {
            assert(r[j] == s[j - 1]);
            assert(ranks_above(e, s[p]));
            if j - 1 > p {
                assert(!ranks_above(s[j - 1], s[p]));
            }
        } else {
            assert(r[i] == s[i - 1] && r[j] == s[j - 1]);
        }
    }
}

/// Ranking sorts the entries and neither loses nor adds any.
pub proof fn lemma_ranked_sorted(s: Seq<ScoreEntry>)
    ensures
        rank_sorted(ranked(s)),
        ranked(s).to_multiset() == s.to_multiset(),
    decreases s.len(),
{
    broadcast use vstd::seq_lib::group_to_multiset_ensures;
    if s.len() > 0 {
        lemma_ranked_sorted(s.drop_last());
        lemma_insert_ranked_sorted(ranked(s.drop_last()), s.last());
        assert(s =~= s.drop_last().push(s.last()));
    } else {
        assert(ranked(s) =~= Seq::<ScoreEntry>::empty());
    }
}

/// Where to insert `e` into `v` so that ties keep arrival order.
fn insert_position(v: &Vec<ScoreEntry>, e: &ScoreEntry) -> (p: usize)
    ensures
        first_below(v@, *e, p as int),
{
    let mut p: usize = 0;
    while p < v.len()
        invariant
            p <= v@.len(),
            forall|k: int| 0 <= k < p ==> !ranks_above(*e, #[trigger] v@[k]),
        decreases v@.len() - p,
    {
        if e.depth > v[p].depth || (e.depth == v[p].depth && e.gold > v[p].gold) {
            return p;
        }
        p = p + 1;
    }
    p
}

impl Scores {
    /// Record a finished game: rank all entries by depth, then gold (ties keep
    /// their order), and keep the best 20.
    pub fn add(&mut self, entry: ScoreEntry)
        ensures
            final(self).entries@ == table_after(old(self).entries@, entry),
    {
        let ghost all = self.entries@.push(entry);
        self.entries.push(entry);
        let mut sorted: Vec<ScoreEntry> = Vec::new();
        let mut k: usize = 0;
        let n = self.entries.len();
        let mut rest: Vec<ScoreEntry> = Vec::new();
        std::mem::swap(&mut rest, &mut self.entries);
        while rest.len() > 0
            invariant
                n == all.len(),
                rest@.len() + k == n,
                rest@ == all.subrange(k as int, n as int),
                sorted@ == ranked(all.subrange(0, k as int)),
            decreases rest@.len(),
        {
            let e = rest.remove(0);
            let p = insert_position(&sorted, &e);
            proof {
                lemma_insert_ranked_at(sorted@, e, p as int);
                let pre = all.subrange(0, k as int);
                let nxt = all.subrange(0, k + 1);
                assert(nxt.drop_last() =~= pre);
                assert(nxt.last() == e);
            }
            sorted.insert(p, e);
            k = k + 1;
            assert(rest@ =~= all.subrange(k as int, n as int));
        }
        assert(all.subrange(0, n as int) =~= all);
        sorted.truncate(MAX_SCORES);
        self.entries = sorted;
    }

    /// The first `n` entries formatted as display lines.
    pub fn top_lines(&self, n: usize) -> (lines: Vec<String>)
        requires
            self.entries@.len() < i64::MAX,
        ensures
            lines@.len() == (if n < self.entries@.len() { n as int } else { self.entries@.len() as int }),
            forall|i: int| 0 <= i < lines@.len() ==> (#[trigger] lines@[i])@ == score_line(i, self.entries@[i]),
    {
        let mut lines: Vec<String> = Vec::new();
        let mut i: usize = 0;
        while i < n && i < self.entries.len()
            invariant
                i <= self.entries@.len(),
                i <= n,
                self.entries@.len() < i64::MAX,
                lines@.len() == i,
                forall|k: int| 0 <= k < i ==> (#[trigger] lines@[k])@ == score_line(k, self.entries@[k]),
            decreases self.entries@.len() - i,
        {
            let e = &self.entries[i];
            let mut s = String::new();
            push_padded_left(&mut s, &int_string((i + 1) as i64), 2);
            push_str(&mut s, ". ");
            push_padded_right(&mut s, &e.name, 16);
            push_str(&mut s, " depth:");
            push_padded_left(&mut s, &int_string(e.depth as i64), 3);
            push_str(&mut s, "  gold:");
            push_padded_left(&mut s, &int_string(e.gold as i64), 5);
            push_str(&mut s, "  turns:");
            push_padded_left(&mut s, &nat_string(e.turns), 6);
            push_str(&mut s, "  ");
            push_str(&mut s, if e.won { "WON" } else { "died" });
            assert(s@ =~= score_line(i as int, self.entries@[i as int]));
            lines.push(s);
            i = i + 1;
        }
        lines
    }
}

} // verus!
