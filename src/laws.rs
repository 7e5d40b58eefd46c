//! Properties that relate several parts of the library.

use vstd::prelude::*;
use crate::entry::EntryView;
use crate::index::{add_entry, bucket_of, index_of, keys_unique, lemma_bucket_of};
use crate::matcher::{keyword_text, parsed, MIN_KEYWORD_LEN};
use crate::report::{all_under, report_text};
use crate::text::{ascii_upper, is_ascii_text, lower_char, upper_char};

verus! {

/// Entry `e` stands in some bucket of `idx`.
pub open spec fn in_index(idx: Seq<(Seq<char>, Seq<EntryView>)>, e: EntryView) -> bool {
    exists|i: int, j: int| 0 <= i < idx.len() && 0 <= j < idx[i].1.len() && #[trigger] idx[i].1[j] == e
}

/// Every entry stands in the bucket of its own keyword.
pub open spec fn filed_by_keyword(idx: Seq<(Seq<char>, Seq<EntryView>)>) -> bool {
    forall|i: int, j: int| 0 <= i < idx.len() && 0 <= j < idx[i].1.len() ==> (#[trigger] idx[i].1[j]).keyword == idx[i].0
}

proof fn lemma_add_entry(idx: Seq<(Seq<char>, Seq<EntryView>)>, e: EntryView)
    requires
        keys_unique(idx),
        filed_by_keyword(idx),
    ensures
        keys_unique(add_entry(idx, e)),
        filed_by_keyword(add_entry(idx, e)),
        forall|x: EntryView| in_index(add_entry(idx, e), x) <==> (in_index(idx, x) || x == e),
{
    lemma_bucket_of(idx, e.keyword);
    let p = bucket_of(idx, e.keyword);
    let nx = add_entry(idx, e);
    if p >= 0 {
        assert forall|x: EntryView| in_index(nx, x) <==> (in_index(idx, x) || x == e) by {
            if in_index(nx, x) {
                let (i, j) = choose|i: int, j: int| 0 <= i < nx.len() && 0 <= j < nx[i].1.len() && #[trigger] nx[i].1[j] == x;
                if i != p {
                    assert(idx[i].1[j] == x);
                } else if j < idx[p].1.len() {
                    assert(idx[p].1[j] == x);
                }
            }
            if in_index(idx, x) {
                let (i, j) = choose|i: int, j: int| 0 <= i < idx.len() && 0 <= j < idx[i].1.len() && #[trigger] idx[i].1[j] == x;
                assert(nx[i].1[j] == x);
            }
            if x == e {
                assert(nx[p].1[idx[p].1.len() as int] == x);
            }
        }
        assert forall|i: int, j: int| 0 <= i < nx.len() && 0 <= j < nx[i].1.len() implies (#[trigger] nx[i].1[j]).keyword == nx[i].0 by {
            if i != p {
                assert(nx[i] == idx[i]);
                assert(idx[i].1[j].keyword == idx[i].0);
            } else if j < idx[p].1.len() {
                assert(idx[p].1[j].keyword == idx[p].0);
            }
        }
    } else {
        assert forall|x: EntryView| in_index(nx, x) <==> (in_index(idx, x) || x == e) by {
            if in_index(nx, x) {
                let (i, j) = choose|i: int, j: int| 0 <= i < nx.len() && 0 <= j < nx[i].1.len() && #[trigger] nx[i].1[j] == x;
                if i < idx.len() {
                    assert(idx[i].1[j] == x);
                }
            }
            if in_index(idx, x) {
                let (i, j) = choose|i: int, j: int| 0 <= i < idx.len() && 0 <= j < idx[i].1.len() && #[trigger] idx[i].1[j] == x;
                assert(nx[i].1[j] == x);
            }
            if x == e {
                assert(nx[idx.len() as int].1[0] == x);
            }
        }
        assert forall|i: int, j: int| 0 <= i < nx.len() && 0 <= j < nx[i].1.len() implies (#[trigger] nx[i].1[j]).keyword == nx[i].0 by {
            if i < idx.len() {
                assert(nx[i] == idx[i]);
                assert(idx[i].1[j].keyword == idx[i].0);
            }
        }
    }
}

/// How many entries the index holds, over all buckets.
pub open spec fn total(idx: Seq<(Seq<char>, Seq<EntryView>)>) -> nat
    decreases idx.len(),
{
    if idx.len() == 0 {
        0
    } else {
        total(idx.drop_last()) + idx.last().1.len()
    }
}

proof fn lemma_total_grow(idx: Seq<(Seq<char>, Seq<EntryView>)>, p: int, e: EntryView)
    requires
        0 <= p < idx.len(),
    ensures
        total(idx.update(p, (idx[p].0, idx[p].1.push(e)))) == total(idx) + 1,
    decreases idx.len(),
{
    let nx = idx.update(p, (idx[p].0, idx[p].1.push(e)));
    if p < idx.len() - 1 {
        lemma_total_grow(idx.drop_last(), p, e);
        assert(nx.drop_last() =~= idx.drop_last().update(p, (idx[p].0, idx[p].1.push(e))));
    } else {
        assert(nx.drop_last() =~= idx.drop_last());
    }
}

/// Building the index neither drops nor merges entries: it holds as many
/// entries as arrived.
pub proof fn lemma_index_count(entries: Seq<EntryView>)
    ensures
        total(index_of(entries)) == entries.len(),
    decreases entries.len(),
{
    if entries.len() > 0 {
        let prev = entries.drop_last();
        let idx = index_of(prev);
        let e = entries.last();
        lemma_index_count(prev);
        lemma_bucket_of(idx, e.keyword);
        let p = bucket_of(idx, e.keyword);
        if p >= 0 {
            assert(idx[p].0 == e.keyword);
            lemma_total_grow(idx, p, e);
        } else {
            assert(idx.push((e.keyword, seq![e])).drop_last() =~= idx);
        }
    }
}

/// The index holds exactly the entries it was built from, as a set: each
/// entry stands in the one bucket of its keyword, and no bucket repeats a
/// keyword. Nothing is said of the order within a bucket.
pub proof fn lemma_index_holds_exactly(entries: Seq<EntryView>)
    ensures
        keys_unique(index_of(entries)),
        filed_by_keyword(index_of(entries)),
        forall|e: EntryView| entries.contains(e) <==> in_index(index_of(entries), e),
    decreases entries.len(),
{
    if entries.len() > 0 {
        let prev = entries.drop_last();
        lemma_index_holds_exactly(prev);
        lemma_add_entry(index_of(prev), entries.last());
        assert forall|e: EntryView| entries.contains(e) <==> (prev.contains(e) || e == entries.last()) by {
            if entries.contains(e) {
                let k = choose|k: int| 0 <= k < entries.len() && entries[k] == e;
                if k < entries.len() - 1 {
                    assert(prev[k] == e);
                }
            }
            if prev.contains(e) {
                let k = choose|k: int| 0 <= k < prev.len() && prev[k] == e;
                assert(entries[k] == e);
            }
        }
    }
}

/// Two entries with the same keyword share one bucket.
pub proof fn lemma_one_bucket_per_keyword(entries: Seq<EntryView>, i1: int, j1: int, i2: int, j2: int)
    requires
        0 <= i1 < index_of(entries).len(),
        0 <= j1 < index_of(entries)[i1].1.len(),
        0 <= i2 < index_of(entries).len(),
        0 <= j2 < index_of(entries)[i2].1.len(),
        index_of(entries)[i1].1[j1].keyword == index_of(entries)[i2].1[j2].keyword,
    ensures
        i1 == i2,
{
    lemma_index_holds_exactly(entries);
    let idx = index_of(entries);
    assert(idx[i1].1[j1].keyword == idx[i1].0);
    assert(idx[i2].1[j2].keyword == idx[i2].0);
}

/// Equal up to ASCII case.
pub open spec fn same_ignoring_case(a: Seq<char>, b: Seq<char>) -> bool {
    a.len() == b.len() && forall|i: int| 0 <= i < a.len() ==> lower_char(#[trigger] a[i]) == lower_char(b[i])
}

/// Keywords are case-insensitive: two matched texts whose ASCII keywords
/// differ only in case give entries with one and the same keyword.
pub proof fn lemma_keyword_ignores_case(
    hit1: Seq<char>,
    hit2: Seq<char>,
    message: Seq<char>,
    path: Seq<char>,
    line: nat,
)
    requires
        is_ascii_text(keyword_text(hit1)),
        is_ascii_text(keyword_text(hit2)),
        same_ignoring_case(keyword_text(hit1), keyword_text(hit2)),
    ensures
        parsed(hit1, message, path, line) is Some == parsed(hit2, message, path, line) is Some,
        parsed(hit1, message, path, line) is Some ==> parsed(hit1, message, path, line)->0.keyword
            == parsed(hit2, message, path, line)->0.keyword,
{
    let a = keyword_text(hit1);
    let b = keyword_text(hit2);
    assert forall|i: int| 0 <= i < a.len() implies ascii_upper(a)[i] == ascii_upper(b)[i] by {
        let c1 = a[i];
        let c2 = b[i];
        assert(lower_char(c1) == lower_char(c2));
        assert(upper_char(c1) == upper_char(c2));
    }
    assert(ascii_upper(a) =~= ascii_upper(b));
}

/// A keyword shorter than the minimum never makes an entry: every entry
/// comes from a keyword of at least the minimum length.
pub proof fn lemma_keyword_min_len(hit: Seq<char>, message: Seq<char>, path: Seq<char>, line: nat)
    ensures
        keyword_text(hit).len() < MIN_KEYWORD_LEN ==> parsed(hit, message, path, line) is None,
        parsed(hit, message, path, line) is Some ==> keyword_text(hit).len() >= MIN_KEYWORD_LEN,
{
}

/// Annotations whose ASCII keywords differ only in case (`todo` and `TODO`)
/// land in one and the same bucket of the index built from them.
pub proof fn lemma_case_variants_share_bucket(
    entries: Seq<EntryView>,
    hit1: Seq<char>,
    message1: Seq<char>,
    path1: Seq<char>,
    line1: nat,
    hit2: Seq<char>,
    message2: Seq<char>,
    path2: Seq<char>,
    line2: nat,
)
    requires
        is_ascii_text(keyword_text(hit1)),
        is_ascii_text(keyword_text(hit2)),
        same_ignoring_case(keyword_text(hit1), keyword_text(hit2)),
        parsed(hit1, message1, path1, line1) matches Some(e1) && entries.contains(e1),
        parsed(hit2, message2, path2, line2) matches Some(e2) && entries.contains(e2),
    ensures
        ({
            let idx = index_of(entries);
            let e1 = parsed(hit1, message1, path1, line1)->0;
            let e2 = parsed(hit2, message2, path2, line2)->0;
            &&& in_index(idx, e1)
            &&& in_index(idx, e2)
            &&& forall|i1: int, j1: int, i2: int, j2: int|
                0 <= i1 < idx.len() && 0 <= j1 < idx[i1].1.len() && 0 <= i2 < idx.len() && 0 <= j2
                    < idx[i2].1.len() && #[trigger] idx[i1].1[j1] == e1 && #[trigger] idx[i2].1[j2]
                    == e2 ==> i1 == i2
        }),
{
    lemma_keyword_ignores_case(hit1, hit2, message1, path1, line1);
    lemma_keyword_ignores_case(hit1, hit2, message2, path2, line2);
    lemma_index_holds_exactly(entries);
    let idx = index_of(entries);
    let e1 = parsed(hit1, message1, path1, line1)->0;
    let e2 = parsed(hit2, message2, path2, line2)->0;
    assert(e1.keyword == e2.keyword);
    assert forall|i1: int, j1: int, i2: int, j2: int|
        0 <= i1 < idx.len() && 0 <= j1 < idx[i1].1.len() && 0 <= i2 < idx.len() && 0 <= j2
            < idx[i2].1.len() && #[trigger] idx[i1].1[j1] == e1 && #[trigger] idx[i2].1[j2]
            == e2 implies i1 == i2 by {
        lemma_one_bucket_per_keyword(entries, i1, j1, i2, j2);
    }
}

/// A scan that finds nothing, such as one of an empty directory, renders
/// the title alone.
pub proof fn lemma_empty_report(root: Seq<char>)
    ensures
        all_under(root, index_of(Seq::empty())),
        report_text(root, index_of(Seq::empty())) == "# TODOS\n\n"@,
{
    assert("# TODOS\n\n"@ + Seq::<char>::empty() =~= "# TODOS\n\n"@);
}

} // verus!
