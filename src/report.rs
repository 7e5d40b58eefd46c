//! Rendering the index as a markdown document.

use vstd::prelude::*;
use crate::entry::{EntryView, TodoItem};
use crate::index::{Bucket, ReportIndex, bucket_views};
use crate::text::{chars_of, decimal, push_char, push_decimal};

verus! {

pub open spec fn is_sep(c: char) -> bool {
    c == '/' || c == '\\'
}

pub open spec fn forward_char(c: char) -> char {
    if c == '\\' {
        '/'
    } else {
        c
    }
}

/// `s` with every backslash turned into a forward slash.
pub open spec fn forward_slashes(s: Seq<char>) -> Seq<char> {
    s.map_values(|c: char| forward_char(c))
}

/// The first index from `i` on that does not hold a separator.
pub open spec fn sep_end(s: Seq<char>, i: int) -> int
    decreases s.len() - i,
{
    if 0 <= i < s.len() && is_sep(s[i]) {
        sep_end(s, i + 1)
    } else {
        i
    }
}

pub proof fn lemma_sep_end_bounds(s: Seq<char>, i: int)
    requires
        0 <= i <= s.len(),
    ensures
        i <= sep_end(s, i) <= s.len(),
    decreases s.len() - i,
{
    if i < s.len() && is_sep(s[i]) {
        lemma_sep_end_bounds(s, i + 1);
    }
}

/// The path of `path` below `root`, with forward slashes: `root` must be a
/// prefix of `path` that ends at a separator, and the separators after it
/// are dropped. None when `path` does not lie under `root`.
pub open spec fn relative_to(root: Seq<char>, path: Seq<char>) -> Option<Seq<char>> {
    let n = root.len() as int;
    if n <= path.len() && path.take(n) == root && (n == path.len() || n == 0 || is_sep(
        root.last(),
    ) || is_sep(path[n])) {
        Some(forward_slashes(path.skip(sep_end(path, n))))
    } else {
        None
    }
}

/// Appends `s` with backslashes turned into forward slashes.
fn push_forward(r: &mut String, s: &Vec<char>, from: usize)
    requires
        from <= s@.len(),
    ensures
        final(r)@ == old(r)@ + forward_slashes(s@.skip(from as int)),
{
    let ghost start = r@;
    let mut i: usize = from;
    while i < s.len()
        invariant
            from <= i <= s@.len(),
            r@ == start + forward_slashes(s@.subrange(from as int, i as int)),
        decreases s.len() - i,
    {
        let c = if s[i] == '\\' {
            '/'
        } else {
            s[i]
        };
        push_char(r, c);
        proof {
            assert(s@.subrange(from as int, i + 1) == s@.subrange(from as int, i as int).push(
                s@[i as int],
            ));
            assert(forward_slashes(s@.subrange(from as int, i + 1)) =~= forward_slashes(
                s@.subrange(from as int, i as int),
            ).push(c));
        }
        i = i + 1;
    }
    proof {
        assert(s@.subrange(from as int, i as int) == s@.skip(from as int));
    }
}

/// The path of `path` relative to `root`, with forward slashes.
pub fn relative_path(root: &str, path: &str) -> (r: Option<String>)
    ensures
        match r {
            None => relative_to(root@, path@) is None,
            Some(s) => relative_to(root@, path@) == Some(s@),
        },
{
    let rc = chars_of(root);
    let pc = chars_of(path);
    let n = rc.len();
    if n > pc.len() {
        return None;
    }
    let mut i: usize = 0;
    while i < n
        invariant
            rc@ == root@,
            pc@ == path@,
            n == rc@.len(),
            n <= pc@.len(),
            i <= n,
            forall|j: int| 0 <= j < i ==> rc@[j] == pc@[j],
        decreases n - i,
    {
        if rc[i] != pc[i] {
            assert(path@.take(n as int)[i as int] != root@[i as int]);
            return None;
        }
        i = i + 1;
    }
    assert(path@.take(n as int) =~= root@);
    if n < pc.len() && n > 0 && rc[n - 1] != '/' && rc[n - 1] != '\\' && pc[n] != '/' && pc[n]
        != '\\' {
        return None;
    }
    let mut j: usize = n;
    while j < pc.len() && (pc[j] == '/' || pc[j] == '\\')
        invariant
            pc@ == path@,
            n <= j <= pc@.len(),
            sep_end(path@, n as int) == sep_end(path@, j as int),
        decreases pc.len() - j,
    {
        j = j + 1;
    }
    let mut r = String::new();
    push_forward(&mut r, &pc, j);
    Some(r)
}

/// The list item of one entry whose path below the root is `rel`.
pub open spec fn item_line(rel: Seq<char>, e: EntryView) -> Seq<char> {
    let at = " - ["@ + rel + "#L"@ + decimal(e.line) + "]("@ + rel + "#L"@ + decimal(e.line)
        + ") "@;
    let name = match e.name {
        Some(n) => "@"@ + n,
        None => Seq::empty(),
    };
    at + name + ":  "@ + e.message + "\n"@
}

/// Every entry of the index lies under `root`.
pub open spec fn all_under(root: Seq<char>, idx: Seq<(Seq<char>, Seq<EntryView>)>) -> bool {
    forall|i: int, j: int|
        0 <= i < idx.len() && 0 <= j < idx[i].1.len() ==> (#[trigger] relative_to(
            root,
            idx[i].1[j].file_path,
        )) is Some
}

pub open spec fn items_text(root: Seq<char>, items: Seq<EntryView>) -> Seq<char>
    decreases items.len(),
{
    if items.len() == 0 {
        Seq::empty()
    } else {
        items_text(root, items.drop_last()) + item_line(
            relative_to(root, items.last().file_path)->0,
            items.last(),
        )
    }
}

/// One keyword section: heading, blank line, items, blank line.
pub open spec fn section_text(root: Seq<char>, b: (Seq<char>, Seq<EntryView>)) -> Seq<char> {
    "## "@ + b.0 + "\n\n"@ + items_text(root, b.1) + "\n"@
}

pub open spec fn sections_text(root: Seq<char>, idx: Seq<(Seq<char>, Seq<EntryView>)>) -> Seq<char>
    decreases idx.len(),
{
    if idx.len() == 0 {
        Seq::empty()
    } else {
        sections_text(root, idx.drop_last()) + section_text(root, idx.last())
    }
}

/// The whole report: a title and one section per bucket, in index order.
pub open spec fn report_text(root: Seq<char>, idx: Seq<(Seq<char>, Seq<EntryView>)>) -> Seq<char> {
    "# TODOS\n\n"@ + sections_text(root, idx)
}

fn push_item(r: &mut String, root: &str, e: &TodoItem)
    requires
        relative_to(root@, e@.file_path) is Some,
    ensures
        final(r)@ == old(r)@ + item_line(relative_to(root@, e@.file_path)->0, e@),
{
    match relative_path(root, e.file_path.as_str()) {
        None => {},
        Some(rel) => {
            r.append(" - [");
            r.append(rel.as_str());
            r.append("#L");
            push_decimal(r, e.line);
            r.append("](");
            r.append(rel.as_str());
            r.append("#L");
            push_decimal(r, e.line);
            r.append(") ");
            match &e.name {
                Some(n) => {
                    r.append("@");
                    r.append(n.0.as_str());
                },
                None => {},
            }
            r.append(":  ");
            r.append(e.message.as_str());
            r.append("\n");
        },
    }
}

fn push_section(r: &mut String, root: &str, b: &Bucket)
    requires
        forall|j: int|
            0 <= j < b@.1.len() ==> (#[trigger] relative_to(root@, b@.1[j].file_path)) is Some,
    ensures
        final(r)@ == old(r)@ + section_text(root@, b@),
{
    r.append("## ");
    r.append(b.keyword.0.as_str());
    r.append("\n\n");
    let ghost mid = r@;
    let mut j: usize = 0;
    while j < b.items.len()
        invariant
            j <= b.items@.len(),
            forall|x: int|
                0 <= x < b@.1.len() ==> (#[trigger] relative_to(root@, b@.1[x].file_path)) is Some,
            r@ == mid + items_text(root@, b@.1.take(j as int)),
        decreases b.items.len() - j,
    {
        assert(b@.1[j as int] == b.items@[j as int]@);
        push_item(r, root, &b.items[j]);
        proof {
            assert(b@.1.take(j + 1).drop_last() == b@.1.take(j as int));
            assert(b@.1.take(j + 1).last() == b.items@[j as int]@);
        }
        j = j + 1;
    }
    r.append("\n");
    proof {
        assert(b@.1.take(j as int) == b@.1);
    }
}

/// Whether every entry of the index lies under `root`.
pub fn paths_under_root(index: &ReportIndex, root: &str) -> (r: bool)
    ensures
        r == all_under(root@, index@),
{
    let bs = index.buckets();
    let ghost idx = index@;
    let mut i: usize = 0;
    while i < bs.len()
        invariant
            bucket_views(bs@) == idx,
            idx == index@,
            i <= bs@.len(),
            forall|x: int, y: int|
                0 <= x < i && 0 <= y < idx[x].1.len() ==> (#[trigger] relative_to(
                    root@,
                    idx[x].1[y].file_path,
                )) is Some,
        decreases bs.len() - i,
    {
        let b = &bs[i];
        assert(idx[i as int] == b@);
        let mut j: usize = 0;
        while j < b.items.len()
            invariant
                bucket_views(bs@) == idx,
                idx == index@,
                i < bs@.len(),
                b == bs@[i as int],
                idx[i as int] == b@,
                j <= b.items@.len(),
                forall|x: int, y: int|
                    0 <= x < i && 0 <= y < idx[x].1.len() ==> (#[trigger] relative_to(
                        root@,
                        idx[x].1[y].file_path,
                    )) is Some,
                forall|y: int|
                    0 <= y < j ==> (#[trigger] relative_to(root@, idx[i as int].1[y].file_path)) is Some,
            decreases b.items.len() - j,
        {
            assert(idx[i as int].1[j as int] == b.items@[j as int]@);
            if relative_path(root, b.items[j].file_path.as_str()).is_none() {
                assert(relative_to(root@, idx[i as int].1[j as int].file_path) is None);
                assert(!all_under(root@, index@));
                return false;
            }
            j = j + 1;
        }
        proof {
            assert forall|x: int, y: int|
                0 <= x < i + 1 && 0 <= y < idx[x].1.len() implies (#[trigger] relative_to(
                root@,
                idx[x].1[y].file_path,
            )) is Some by {
                if x == i {
                    assert(relative_to(root@, idx[i as int].1[y].file_path) is Some);
                }
            }
        }
        i = i + 1;
    }
    true
}

/// Renders the index as markdown. Every entry must lie under `root`: the
/// walker only yields paths below the root, and a caller that cannot be
/// sure checks with `paths_under_root` first.
pub fn render_report(index: &ReportIndex, root: &str) -> (r: String)
    requires
        all_under(root@, index@),
    ensures
        r@ == report_text(root@, index@),
{
    let bs = index.buckets();
    let ghost idx = index@;
    let mut r = String::new();
    r.append("# TODOS\n\n");
    let mut i: usize = 0;
    while i < bs.len()
        invariant
            bucket_views(bs@) == idx,
            idx == index@,
            all_under(root@, idx),
            i <= bs@.len(),
            r@ == "# TODOS\n\n"@ + sections_text(root@, idx.take(i as int)),
        decreases bs.len() - i,
    {
        proof {
            let b = bs@[i as int]@;
            assert(idx[i as int] == b);
            assert forall|j: int| 0 <= j < b.1.len() implies (#[trigger] relative_to(
                root@,
                b.1[j].file_path,
            )) is Some by {
                assert(relative_to(root@, idx[i as int].1[j].file_path) is Some);
            }
        }
        push_section(&mut r, root, &bs[i]);
        proof {
            assert(idx.take(i + 1).drop_last() == idx.take(i as int));
            assert(idx.take(i + 1).last() == bs@[i as int]@);
        }
        i = i + 1;
    }
    proof {
        assert(idx.take(i as int) == idx);
    }
    r
}

} // verus!
