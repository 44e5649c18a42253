//! Ordering entries newest first.
use vstd::prelude::*;

use crate::files::catalog::{EntryView, FileEntry};
use crate::files::filter::entry_views;

verus! {

/// How many leading entries of `t` are dated `d` or later.
pub open spec fn leading_at_least(t: Seq<EntryView>, d: i64) -> nat
    decreases t.len(),
{
    if t.len() > 0 && t[0].date >= d {
        1 + leading_at_least(t.drop_first(), d)
    } else {
        0
    }
}

/// `x` placed into `t` after the leading entries dated no earlier than `x`.
pub open spec fn insert_by_date(t: Seq<EntryView>, x: EntryView) -> Seq<EntryView> {
    t.insert(leading_at_least(t, x.date) as int, x)
}

/// `s` ordered newest first; entries with equal dates keep their order.
pub open spec fn by_date_desc(s: Seq<EntryView>) -> Seq<EntryView>
    decreases s.len(),
{
    if s.len() == 0 {
        s
    } else {
        insert_by_date(by_date_desc(s.drop_last()), s.last())
    }
}

/// Dates never increase along `t`.
pub open spec fn dated_desc(t: Seq<EntryView>) -> bool {
    forall|i: int, j: int| 0 <= i < j < t.len() ==> t[i].date >= t[j].date
}

proof fn lemma_leading_at_least(t: Seq<EntryView>, d: i64)
    ensures
        leading_at_least(t, d) <= t.len(),
        forall|i: int| 0 <= i < leading_at_least(t, d) ==> t[i].date >= d,
        leading_at_least(t, d) < t.len() ==> t[leading_at_least(t, d) as int].date < d,
    decreases t.len(),
{
    if t.len() > 0 && t[0].date >= d {
        lemma_leading_at_least(t.drop_first(), d);
        assert forall|i: int| 0 <= i < leading_at_least(t, d) implies t[i].date >= d by {
            if i > 0 {
                assert(t[i] == t.drop_first()[i - 1]);
            }
        }
    }
}

/// `by_date_desc` orders its result newest first.
pub proof fn lemma_by_date_desc_sorted(s: Seq<EntryView>)
    ensures
        dated_desc(by_date_desc(s)),
        by_date_desc(s).len() == s.len(),
    decreases s.len(),
{
    if s.len() > 0 {
        let t = by_date_desc(s.drop_last());
        lemma_by_date_desc_sorted(s.drop_last());
        let x = s.last();
        let k = leading_at_least(t, x.date) as int;
        lemma_leading_at_least(t, x.date);
        let r = t.insert(k, x);
        assert forall|i: int, j: int| 0 <= i < j < r.len() implies r[i].date >= r[j].date by {
            if j < k {
                assert(r[i] == t[i] && r[j] == t[j]);
            } else if j == k {
                assert(r[i] == t[i]);
            } else if i < k {
                assert(r[i] == t[i] && r[j] == t[j - 1]);
            } else if i == k {
                assert(r[j] == t[j - 1]);
                assert(t[k].date < x.date);
                assert(t[k].date >= t[j - 1].date);
            } else {
                assert(r[i] == t[i - 1] && r[j] == t[j - 1]);
            }
        }
    }
}

/// `by_date_desc` keeps exactly the entries it is given.
pub proof fn lemma_by_date_desc_permutes(s: Seq<EntryView>)
    ensures
        by_date_desc(s).to_multiset() == s.to_multiset(),
    decreases s.len(),
{
    broadcast use vstd::seq_lib::group_to_multiset_ensures;

    if s.len() > 0 {
        let t = by_date_desc(s.drop_last());
        lemma_by_date_desc_permutes(s.drop_last());
        lemma_by_date_desc_sorted(s.drop_last());
        lemma_leading_at_least(t, s.last().date);
        vstd::seq_lib::to_multiset_insert(t, leading_at_least(t, s.last().date) as int, s.last());
        assert(s.drop_last().push(s.last()) =~= s);
    }
}

/// The number of leading entries of `v` dated `d` or later.
fn count_leading_at_least(v: &Vec<FileEntry>, d: i64) -> (k: usize)
    ensures
        k == leading_at_least(entry_views(v@), d),
{
    let ghost t = entry_views(v@);
    let mut k: usize = 0;
    assert(t.skip(0) =~= t);
    while k < v.len() && v[k].date >= d
        invariant
            k <= v.len(),
            t == entry_views(v@),
            leading_at_least(t, d) == k + leading_at_least(t.skip(k as int), d),
        decreases v.len() - k,
    {
        assert(t.skip(k as int).drop_first() =~= t.skip(k + 1));
        k = k + 1;
    }
    assert(k < v.len() ==> t.skip(k as int)[0] == t[k as int]);
    k
}

/// Orders entries newest first, keeping the order of entries with equal
/// dates (a stable sort by descending date).
pub fn sort_by_date_desc(files: Vec<FileEntry>) -> (r: Vec<FileEntry>)
    ensures
        entry_views(r@) == by_date_desc(entry_views(files@)),
{
    let ghost s = entry_views(files@);
    let mut out: Vec<FileEntry> = Vec::new();
    let mut rest = files;
    let mut taken: Vec<FileEntry> = Vec::new();
    // Move the entries out in reverse, so that they come back in order below.
    while rest.len() > 0
        invariant
            entry_views(rest@) + entry_views(taken@).reverse() == s,
        decreases rest.len(),
    {
        let e = rest.pop().unwrap();
        taken.push(e);
        assert(entry_views(rest@) + entry_views(taken@).reverse() =~= s);
    }
    assert(entry_views(out@) =~= by_date_desc(s.take(0)));
    assert(entry_views(rest@) =~= Seq::<EntryView>::empty());
    assert(entry_views(taken@).reverse() =~= s.skip(0));
    let n = taken.len();
    let mut i: usize = 0;
    while i < n
        invariant
            n == taken@.len() + i,
            n == s.len(),
            entry_views(taken@).reverse() =~= s.skip(i as int),
            entry_views(out@) == by_date_desc(s.take(i as int)),
        decreases n - i,
    {
        let ghost tv = entry_views(taken@);
        assert(tv.reverse()[0] == tv[tv.len() - 1]);
        assert(s.skip(i as int)[0] == s[i as int]);
        let e = taken.pop().unwrap();
        assert(e@ == tv.last());
        assert(e@ == s[i as int]);
        assert(entry_views(taken@) =~= tv.drop_last());
        assert(tv.drop_last().reverse() =~= tv.reverse().drop_first());
        assert(s.skip(i as int).drop_first() =~= s.skip(i + 1));
        let k = count_leading_at_least(&out, e.date);
        proof {
            lemma_by_date_desc_sorted(s.take(i as int));
            lemma_leading_at_least(entry_views(out@), e.date);
        }
        out.insert(k, e);
        i = i + 1;
        assert(s.take(i as int).drop_last() =~= s.take(i - 1));
        assert(entry_views(out@) =~= by_date_desc(s.take(i as int)));
        assert(entry_views(taken@).reverse() =~= s.skip(i as int));
    }
    assert(s.take(n as int) =~= s);
    out
}

} // verus!
