//! The report index: entries grouped into one bucket per keyword.

use vstd::prelude::*;
use crate::entry::{EntryView, Keyword, TodoItem, views};

verus! {

/// One bucket: a keyword and its entries in arrival order.
pub struct Bucket {
    pub keyword: Keyword,
    pub items: Vec<TodoItem>,
}

impl View for Bucket {
    type V = (Seq<char>, Seq<EntryView>);

    open spec fn view(&self) -> (Seq<char>, Seq<EntryView>) {
        (self.keyword.0@, views(self.items@))
    }
}

pub open spec fn bucket_views(s: Seq<Bucket>) -> Seq<(Seq<char>, Seq<EntryView>)> {
    s.map_values(|b: Bucket| b@)
}

/// No two buckets share a keyword.
pub open spec fn keys_unique(idx: Seq<(Seq<char>, Seq<EntryView>)>) -> bool {
    forall|i: int, j: int|
        0 <= i < idx.len() && 0 <= j < idx.len() && i != j ==> #[trigger] idx[i].0 != #[trigger] idx[j].0
}

/// The position of the bucket of keyword `k`, or -1 when there is none.
pub open spec fn bucket_of(idx: Seq<(Seq<char>, Seq<EntryView>)>, k: Seq<char>) -> int
    decreases idx.len(),
{
    if idx.len() == 0 {
        -1
    } else if idx.last().0 == k {
        idx.len() - 1
    } else {
        bucket_of(idx.drop_last(), k)
    }
}

/// The index after entry `e` arrives: appended to the bucket of its keyword,
/// or placed in a new bucket at the end.
pub open spec fn add_entry(idx: Seq<(Seq<char>, Seq<EntryView>)>, e: EntryView) -> Seq<
    (Seq<char>, Seq<EntryView>),
> {
    let p = bucket_of(idx, e.keyword);
    if p >= 0 {
        idx.update(p, (e.keyword, idx[p].1.push(e)))
    } else {
        idx.push((e.keyword, seq![e]))
    }
}

/// The index built from entries arriving in the order given.
pub open spec fn index_of(entries: Seq<EntryView>) -> Seq<(Seq<char>, Seq<EntryView>)>
    decreases entries.len(),
{
    if entries.len() == 0 {
        Seq::empty()
    } else {
        add_entry(index_of(entries.drop_last()), entries.last())
    }
}

pub proof fn lemma_bucket_of(idx: Seq<(Seq<char>, Seq<EntryView>)>, k: Seq<char>)
    ensures
        -1 <= bucket_of(idx, k) < idx.len(),
        bucket_of(idx, k) >= 0 ==> idx[bucket_of(idx, k)].0 == k,
        bucket_of(idx, k) == -1 ==> forall|i: int| 0 <= i < idx.len() ==> idx[i].0 != k,
    decreases idx.len(),
{
    if idx.len() > 0 && idx.last().0 != k {
        lemma_bucket_of(idx.drop_last(), k);
        assert forall|i: int| 0 <= i < idx.len() - 1 implies idx[i] == idx.drop_last()[i] by {}
    }
}

/// Entries grouped by keyword. Buckets keep the order in which their
/// keywords first arrived; entries keep their arrival order.
pub struct ReportIndex {
    buckets: Vec<Bucket>,
}

impl View for ReportIndex {
    type V = Seq<(Seq<char>, Seq<EntryView>)>;

    closed spec fn view(&self) -> Seq<(Seq<char>, Seq<EntryView>)> {
        bucket_views(self.buckets@)
    }
}

impl ReportIndex {
    pub open spec fn wf(&self) -> bool {
        keys_unique(self@)
    }

    pub fn new() -> (r: Self)
        ensures
            r@ == Seq::<(Seq<char>, Seq<EntryView>)>::empty(),
            r.wf(),
    {
        ReportIndex { buckets: Vec::new() }
    }

    /// The buckets, in order.
    pub fn buckets(&self) -> (r: &Vec<Bucket>)
        ensures
            bucket_views(r@) == self@,
    {
        &self.buckets
    }

    /// Adds one entry to the bucket of its keyword, making the bucket if
    /// this keyword is new.
    pub fn insert(&mut self, e: TodoItem)
        requires
            old(self).wf(),
        ensures
            final(self).wf(),
            final(self)@ == add_entry(old(self)@, e@),
    {
        let ghost before = self@;
        proof {
            lemma_bucket_of(before, e@.keyword);
        }
        let mut i: usize = 0;
        while i < self.buckets.len()
            invariant
                self@ == before,
                before == old(self)@,
                keys_unique(before),
                i <= self.buckets@.len(),
                forall|j: int| 0 <= j < i ==> self.buckets@[j].keyword.0@ != e.keyword.0@,
            decreases self.buckets.len() - i,
        {
            if self.buckets[i].keyword.0 == e.keyword.0 {
                let ghost p = bucket_of(before, e@.keyword);
                let ghost old_buckets = self.buckets@;
                proof {
                    lemma_bucket_of(before, e@.keyword);
                }
                assert(before[i as int].0 == e@.keyword);
                assert(p >= 0);
                assert(before[p].0 == before[i as int].0);
                assert(p == i);
                self.buckets[i].items.push(e);
                proof {
                    assert(self.buckets@[i as int].keyword == old_buckets[i as int].keyword);
                    assert(self.buckets@[i as int].items@ == old_buckets[i as int].items@.push(e));
                    assert(views(self.buckets@[i as int].items@) == views(old_buckets[i as int].items@).push(e@));
                    assert(self@ =~= add_entry(before, e@));
                }
                return;
            }
            i = i + 1;
        }
        proof {
            lemma_bucket_of(before, e@.keyword);
            assert forall|j: int| 0 <= j < before.len() implies before[j].0 != e@.keyword by {
                assert(self.buckets@[j].keyword.0@ != e.keyword.0@);
            }
        }
        let k = Keyword(e.keyword.0.clone());
        let mut items: Vec<TodoItem> = Vec::new();
        items.push(e);
        self.buckets.push(Bucket { keyword: k, items });
        proof {
            assert(views(items@) == seq![e@]);
            assert(self@ =~= add_entry(before, e@));
        }
    }

    /// Groups entries arriving in the order given.
    pub fn from_entries(entries: Vec<TodoItem>) -> (r: Self)
        ensures
            r.wf(),
            r@ == index_of(views(entries@)),
    {
        let ghost src = entries@;
        let n = entries.len();
        let mut rest = entries;
        let mut rev: Vec<TodoItem> = Vec::new();
        while rest.len() > 0
            invariant
                n == src.len(),
                rest@.len() + rev@.len() == n,
                rest@ == src.take(rest@.len() as int),
                forall|j: int| 0 <= j < rev@.len() ==> #[trigger] rev@[j] == src[n - 1 - j],
            decreases rest.len(),
        {
            let x = rest.pop().unwrap();
            rev.push(x);
        }
        let mut r = ReportIndex::new();
        let mut i: usize = 0;
        while i < n
            invariant
                r.wf(),
                n == src.len(),
                i <= n,
                rev@.len() == n - i,
                forall|j: int| 0 <= j < rev@.len() ==> #[trigger] rev@[j] == src[n - 1 - j],
                r@ == index_of(views(src).take(i as int)),
            decreases n - i,
        {
            let x = rev.pop().unwrap();
            proof {
                assert(x == src[i as int]);
                assert(views(src).take(i + 1).drop_last() == views(src).take(i as int));
            }
            r.insert(x);
            i = i + 1;
        }
        proof {
            assert(views(src).take(n as int) == views(src));
        }
        r
    }
}

} // verus!
