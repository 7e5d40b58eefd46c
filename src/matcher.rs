//! Finding an annotation in one line, and the parts it is made of.
//!
//! The search itself is done by a compiled regular expression; what the
//! library proves is how the matched text is taken apart into keyword, name
//! and message, and how lines and files become entries.

use vstd::prelude::*;
use crate::entry::{EntryView, Keyword, Name, TodoItem, views};
use crate::text::{chars_of, is_space, lower_case, upper_case};

verus! {

/// The fewest letters a keyword may have: two-letter tokens are too often
/// accidental.
pub const MIN_KEYWORD_LEN: usize = 3;

/// The built-in annotation pattern: a comment marker, optional spaces, a
/// keyword of three or more letters, an optional parenthesised name, a colon
/// and optional spaces.
pub const ANNOTATION_PATTERN: &'static str = r"(//|#)(?-u:\s)*[A-Za-z][A-Za-z][A-Za-z]+(\([a-zA-Z0-9]*\))?:(?-u:\s)*";

/// The built-in extension of the files that are scanned.
pub const SOURCE_EXTENSION: &'static str = "rs";

#[verifier::external_type_specification]
#[verifier::external_body]
pub struct ExRegex(regex::Regex);

/// Whether `regex::Regex::new` accepts the pattern.
pub uninterp spec fn pattern_compiles(pattern: Seq<char>) -> bool;

/// The leftmost-first match of `pattern` in `line`, as the text before the
/// match, the matched text and the text after it.
pub uninterp spec fn first_match(pattern: Seq<char>, line: Seq<char>) -> Option<
    (Seq<char>, Seq<char>, Seq<char>),
>;

/// Relies on regex::Regex::new: it compiles a pattern, or fails on an invalid one.
#[verifier::external_body]
fn compile(pattern: &str) -> (r: Option<regex::Regex>)
    ensures
        r is Some == pattern_compiles(pattern@),
{
    regex::Regex::new(pattern).ok()
}

/// A pattern together with the regular expression compiled from it.
/// `Matcher::new` is the only way to build one, so the two always agree.
pub struct Matcher {
    pattern: String,
    regex: regex::Regex,
}

impl Matcher {
    pub closed spec fn pattern(&self) -> Seq<char> {
        self.pattern@
    }

    /// Compiles `pattern`; `None` when it is not a valid regular expression.
    pub fn new(pattern: &str) -> (r: Option<Matcher>)
        ensures
            r is Some == pattern_compiles(pattern@),
            r matches Some(m) ==> m.pattern() == pattern@,
    {
        match compile(pattern) {
            Some(regex) => Some(Matcher { pattern: pattern.to_owned(), regex }),
            None => None,
        }
    }
}

/// Relies on regex::Regex::find and slicing at its byte offsets: the first
/// match in the line, with the text around it.
#[verifier::external_body]
fn find_first(m: &Matcher, line: &str) -> (r: Option<(String, String, String)>)
    ensures
        match r {
            None => first_match(m.pattern(), line@) is None,
            Some((before, hit, after)) => {
                &&& first_match(m.pattern(), line@) == Some((before@, hit@, after@))
                &&& line@ == before@ + hit@ + after@
            },
        },
{
    m.regex.find(line).map(
        |f|
            (
                line[..f.start()].to_string(),
                f.as_str().to_string(),
                line[f.end()..].to_string(),
            ),
    )
}

/// Characters that may stand between the start of a match and its keyword:
/// comment markers and spaces.
pub open spec fn is_lead(c: char) -> bool {
    c == '/' || c == '#' || is_space(c)
}

pub open spec fn ends_keyword(c: char) -> bool {
    c == '(' || c == ':'
}

/// The first index from `i` on whose character is not a lead character.
pub open spec fn lead_end(t: Seq<char>, i: int) -> int
    decreases t.len() - i,
{
    if 0 <= i < t.len() && is_lead(t[i]) {
        lead_end(t, i + 1)
    } else {
        i
    }
}

/// The first index from `i` on whose character ends a keyword.
pub open spec fn keyword_end(t: Seq<char>, i: int) -> int
    decreases t.len() - i,
{
    if 0 <= i < t.len() && !ends_keyword(t[i]) {
        keyword_end(t, i + 1)
    } else {
        i
    }
}

/// The first index from `i` on that holds a closing parenthesis.
pub open spec fn close_end(t: Seq<char>, i: int) -> int
    decreases t.len() - i,
{
    if 0 <= i < t.len() && t[i] != ')' {
        close_end(t, i + 1)
    } else {
        i
    }
}

/// The keyword of a matched text: what follows the comment marker and spaces,
/// up to an opening parenthesis or a colon.
pub open spec fn keyword_text(t: Seq<char>) -> Seq<char> {
    t.subrange(lead_end(t, 0), keyword_end(t, lead_end(t, 0)))
}

/// The text in the parentheses after the keyword; empty when there are none.
pub open spec fn name_text(t: Seq<char>) -> Seq<char> {
    let k = keyword_end(t, lead_end(t, 0));
    if k < t.len() && t[k] == '(' {
        t.subrange(k + 1, close_end(t, k + 1))
    } else {
        Seq::empty()
    }
}

pub open spec fn all_space(s: Seq<char>) -> bool {
    forall|i: int| 0 <= i < s.len() ==> is_space(#[trigger] s[i])
}

/// The normalised name: absent when the parentheses are missing or hold
/// only spaces.
pub open spec fn name_of(t: Seq<char>) -> Option<Seq<char>> {
    if all_space(name_text(t)) {
        None
    } else {
        Some(lower_case(name_text(t)))
    }
}

/// The entry that the matched text `hit` gives, followed by `message` on
/// line `line` of `path`: none when the keyword is too short.
pub open spec fn parsed(hit: Seq<char>, message: Seq<char>, path: Seq<char>, line: nat) -> Option<
    EntryView,
> {
    if keyword_text(hit).len() >= MIN_KEYWORD_LEN {
        Some(
            EntryView {
                keyword: upper_case(keyword_text(hit)),
                name: name_of(hit),
                file_path: path,
                line,
                message,
            },
        )
    } else {
        None
    }
}

pub proof fn lemma_lead_end_bounds(t: Seq<char>, i: int)
    requires
        0 <= i <= t.len(),
    ensures
        i <= lead_end(t, i) <= t.len(),
    decreases t.len() - i,
{
    if i < t.len() && is_lead(t[i]) {
        lemma_lead_end_bounds(t, i + 1);
    }
}

pub proof fn lemma_keyword_end_bounds(t: Seq<char>, i: int)
    requires
        0 <= i <= t.len(),
    ensures
        i <= keyword_end(t, i) <= t.len(),
    decreases t.len() - i,
{
    if i < t.len() && !ends_keyword(t[i]) {
        lemma_keyword_end_bounds(t, i + 1);
    }
}

pub proof fn lemma_close_end_bounds(t: Seq<char>, i: int)
    requires
        0 <= i <= t.len(),
    ensures
        i <= close_end(t, i) <= t.len(),
    decreases t.len() - i,
{
    if i < t.len() && t[i] != ')' {
        lemma_close_end_bounds(t, i + 1);
    }
}

/// Builds the string of `cs[from..to]`.
fn string_between(cs: &Vec<char>, from: usize, to: usize) -> (r: String)
    requires
        from <= to <= cs@.len(),
    ensures
        r@ == cs@.subrange(from as int, to as int),
{
    let mut r = String::new();
    let mut i: usize = from;
    while i < to
        invariant
            from <= i <= to <= cs@.len(),
            r@ == cs@.subrange(from as int, i as int),
        decreases to - i,
    {
        crate::text::push_char(&mut r, cs[i]);
        proof {
            assert(cs@.subrange(from as int, i + 1) == cs@.subrange(from as int, i as int).push(
                cs@[i as int],
            ));
        }
        i = i + 1;
    }
    r
}

fn is_space_char(c: char) -> (r: bool)
    ensures
        r == is_space(c),
{
    c == ' ' || c == '\t' || c == '\n' || c == '\r' || c == '\x0B' || c == '\x0C'
}

/// Takes a matched annotation text apart. `hit` is the text the pattern
/// matched, `message` what follows it on the line.
pub fn entry_from_match(hit: &str, message: &str, file_path: &str, line: usize) -> (r: Option<
    TodoItem,
>)
    ensures
        match r {
            None => parsed(hit@, message@, file_path@, line as nat) is None,
            Some(e) => parsed(hit@, message@, file_path@, line as nat) == Some(e@),
        },
{
    let t = chars_of(hit);
    let n = t.len();
    let ghost tv = t@;
    let mut i: usize = 0;
    while i < n && (t[i] == '/' || t[i] == '#' || is_space_char(t[i]))
        invariant
            t@ == hit@,
            tv == t@,
            n == t@.len(),
            i <= n,
            lead_end(tv, 0) == lead_end(tv, i as int),
        decreases n - i,
    {
        i = i + 1;
    }
    let start = i;
    while i < n && t[i] != '(' && t[i] != ':'
        invariant
            t@ == hit@,
            tv == t@,
            n == t@.len(),
            start <= i <= n,
            start == lead_end(tv, 0),
            keyword_end(tv, start as int) == keyword_end(tv, i as int),
        decreases n - i,
    {
        i = i + 1;
    }
    let stop = i;
    if stop - start < MIN_KEYWORD_LEN {
        return None;
    }
    let keyword_str = string_between(&t, start, stop);
    let mut name_raw = String::new();
    if stop < n && t[stop] == '(' {
        let mut j: usize = stop + 1;
        while j < n && t[j] != ')'
            invariant
                t@ == hit@,
                tv == t@,
                n == t@.len(),
                stop < j <= n,
                close_end(tv, stop + 1) == close_end(tv, j as int),
            decreases n - j,
        {
            j = j + 1;
        }
        name_raw = string_between(&t, stop + 1, j);
    }
    assert(name_raw@ == name_text(tv));
    let nv = chars_of(name_raw.as_str());
    let mut blank = true;
    let mut k: usize = 0;
    while k < nv.len()
        invariant
            nv@ == name_raw@,
            k <= nv@.len(),
            blank == all_space(nv@.take(k as int)),
        decreases nv.len() - k,
    {
        if !is_space_char(nv[k]) {
            blank = false;
        }
        proof {
            assert forall|x: int| 0 <= x < k implies nv@.take(k + 1)[x] == nv@.take(k as int)[x] by {}
            assert(nv@.take(k + 1)[k as int] == nv@[k as int]);
        }
        k = k + 1;
    }
    assert(nv@.take(k as int) == nv@);
    let name = if blank {
        None
    } else {
        Some(Name::new(name_raw.as_str()))
    };
    Some(
        TodoItem {
            keyword: Keyword::new(keyword_str.as_str()),
            name,
            file_path: file_path.to_owned(),
            line,
            message: message.to_owned(),
        },
    )
}

/// The entry that line `n` of `path` gives under `pattern`, if any.
pub open spec fn line_entry(pattern: Seq<char>, text: Seq<char>, path: Seq<char>, n: nat) -> Option<
    EntryView,
> {
    match first_match(pattern, text) {
        Some((_before, hit, after)) => parsed(hit, after, path, n),
        None => None,
    }
}

/// Looks for an annotation in `text`, which is line `line` of `file_path`.
/// The message is the exact rest of the line after the match.
pub fn scan_line(m: &Matcher, text: &str, file_path: &str, line: usize) -> (r: Option<TodoItem>)
    ensures
        match r {
            None => line_entry(m.pattern(), text@, file_path@, line as nat) is None,
            Some(e) => line_entry(m.pattern(), text@, file_path@, line as nat) == Some(e@),
        },
        r matches Some(e) ==> {
            &&& e.message@.len() <= text@.len()
            &&& text@.subrange(text@.len() - e.message@.len(), text@.len() as int) == e.message@
        },
{
    match find_first(m, text) {
        None => None,
        Some((before, hit, after)) => {
            let r = entry_from_match(hit.as_str(), after.as_str(), file_path, line);
            proof {
                let k: int = (before@.len() + hit@.len()) as int;
                assert(text@.subrange(k, text@.len() as int) == after@);
            }
            r
        },
    }
}

pub open spec fn line_views(lines: Seq<String>) -> Seq<Seq<char>> {
    lines.map_values(|l: String| l@)
}

/// The entries of the lines of a file, in line order; line numbers start at 1.
pub open spec fn entries_in(pattern: Seq<char>, path: Seq<char>, lines: Seq<Seq<char>>) -> Seq<
    EntryView,
>
    decreases lines.len(),
{
    if lines.len() == 0 {
        Seq::empty()
    } else {
        let prev = entries_in(pattern, path, lines.drop_last());
        match line_entry(pattern, lines.last(), path, lines.len()) {
            Some(e) => prev.push(e),
            None => prev,
        }
    }
}

/// Scans every line of a file; the entries come in line order.
pub fn scan_lines(m: &Matcher, file_path: &str, lines: &Vec<String>) -> (r: Vec<TodoItem>)
    ensures
        views(r@) == entries_in(m.pattern(), file_path@, line_views(lines@)),
{
    let mut r: Vec<TodoItem> = Vec::new();
    let mut i: usize = 0;
    while i < lines.len()
        invariant
            i <= lines@.len(),
            views(r@) == entries_in(m.pattern(), file_path@, line_views(lines@.take(i as int))),
        decreases lines.len() - i,
    {
        let found = scan_line(m, lines[i].as_str(), file_path, i + 1);
        proof {
            let pre = line_views(lines@.take(i + 1));
            assert(pre.drop_last() == line_views(lines@.take(i as int)));
            assert(pre.last() == lines@[i as int]@);
        }
        match found {
            Some(e) => {
                r.push(e);
                proof {
                    assert(views(r@) == views(r@.drop_last()).push(e@));
                }
            },
            None => {},
        }
        i = i + 1;
    }
    proof {
        assert(lines@.take(i as int) == lines@);
    }
    r
}

pub open spec fn ext_view(ext: Option<String>) -> Option<Seq<char>> {
    match ext {
        Some(x) => Some(x@),
        None => None,
    }
}

pub open spec fn ext_views(exts: Seq<String>) -> Seq<Seq<char>> {
    exts.map_values(|x: String| x@)
}

/// Whether a file with extension `ext` is scanned under the allow-list `exts`.
pub open spec fn is_listed(exts: Seq<Seq<char>>, ext: Option<Seq<char>>) -> bool {
    match ext {
        Some(x) => exists|i: int| 0 <= i < exts.len() && exts[i] == x,
        None => false,
    }
}

/// Whether a file with extension `ext` (none for a file without one) is
/// in the allow-list `exts`.
pub fn is_source_file(exts: &Vec<String>, ext: &Option<String>) -> (r: bool)
    ensures
        r == is_listed(ext_views(exts@), ext_view(*ext)),
{
    match ext {
        None => false,
        Some(x) => {
            let mut i: usize = 0;
            while i < exts.len()
                invariant
                    i <= exts@.len(),
                    ext_view(*ext) == Some(x@),
                    forall|j: int| 0 <= j < i ==> exts@[j]@ != x@,
                decreases exts.len() - i,
            {
                if exts[i] == *x {
                    assert(ext_views(exts@)[i as int] == x@);
                    return true;
                }
                i = i + 1;
            }
            assert forall|j: int| 0 <= j < exts@.len() implies ext_views(exts@)[j] != x@ by {
                assert(exts@[j]@ != x@);
            }
            false
        },
    }
}

/// Scans the lines of a file whose extension is `ext`: a file outside the
/// allow-list gives no entries, whatever it holds.
pub fn scan_file(
    m: &Matcher,
    exts: &Vec<String>,
    ext: &Option<String>,
    file_path: &str,
    lines: &Vec<String>,
) -> (r: Vec<TodoItem>)
    ensures
        is_listed(ext_views(exts@), ext_view(*ext)) ==> views(r@) == entries_in(
            m.pattern(),
            file_path@,
            line_views(lines@),
        ),
        !is_listed(ext_views(exts@), ext_view(*ext)) ==> r@.len() == 0,
{
    if is_source_file(exts, ext) {
        scan_lines(m, file_path, lines)
    } else {
        Vec::new()
    }
}

/// The first index from `i` on that holds a line feed, or the length.
pub open spec fn newline_at(s: Seq<char>, i: int) -> int
    decreases s.len() - i,
{
    if 0 <= i < s.len() && s[i] != '\n' {
        newline_at(s, i + 1)
    } else {
        i
    }
}

/// A line ended by a line feed loses one carriage return before it.
pub open spec fn strip_cr(l: Seq<char>) -> Seq<char> {
    if l.len() > 0 && l.last() == '\r' {
        l.drop_last()
    } else {
        l
    }
}

/// The lines of `s` from index `i` on: split at line feeds, a carriage
/// return before a line feed dropped, no empty line after a final line feed.
pub open spec fn lines_from(s: Seq<char>, i: int) -> Seq<Seq<char>>
    decreases s.len() - i,
{
    if i < 0 || i >= s.len() {
        Seq::empty()
    } else {
        let e = newline_at(s, i);
        if e >= s.len() {
            seq![s.subrange(i, s.len() as int)]
        } else if e < i {
            Seq::empty()
        } else {
            seq![strip_cr(s.subrange(i, e))] + lines_from(s, e + 1)
        }
    }
}

pub proof fn lemma_newline_at_bounds(s: Seq<char>, i: int)
    requires
        0 <= i <= s.len(),
    ensures
        i <= newline_at(s, i) <= s.len(),
        newline_at(s, i) < s.len() ==> s[newline_at(s, i)] == '\n',
    decreases s.len() - i,
{
    if i < s.len() && s[i] != '\n' {
        lemma_newline_at_bounds(s, i + 1);
    }
}

/// Splits a file's text into lines.
pub fn split_lines(text: &str) -> (r: Vec<String>)
    ensures
        line_views(r@) == lines_from(text@, 0),
{
    let cs = chars_of(text);
    let n = cs.len();
    let mut r: Vec<String> = Vec::new();
    let mut start: usize = 0;
    while start < n
        invariant
            cs@ == text@,
            n == cs@.len(),
            start <= n,
            lines_from(text@, 0) == line_views(r@) + lines_from(text@, start as int),
        decreases n - start,
    {
        let mut e: usize = start;
        while e < n && cs[e] != '\n'
            invariant
                cs@ == text@,
                n == cs@.len(),
                start <= e <= n,
                newline_at(text@, start as int) == newline_at(text@, e as int),
            decreases n - e,
        {
            e = e + 1;
        }
        proof {
            lemma_newline_at_bounds(text@, e as int);
        }
        let ghost before = r@;
        if e < n {
            let stop = if e > start && cs[e - 1] == '\r' {
                e - 1
            } else {
                e
            };
            let l = string_between(&cs, start, stop);
            r.push(l);
            proof {
                assert(strip_cr(text@.subrange(start as int, e as int)) == l@) by {
                    if e > start && text@[e - 1] == '\r' {
                        assert(text@.subrange(start as int, e as int).drop_last() =~= text@.subrange(
                            start as int,
                            stop as int,
                        ));
                    }
                }
                assert(line_views(r@) == line_views(before).push(l@));
                assert(lines_from(text@, start as int) == seq![l@] + lines_from(text@, e + 1));
                assert(line_views(before) + (seq![l@] + lines_from(text@, e + 1)) =~= line_views(
                    before,
                ).push(l@) + lines_from(text@, e + 1));
            }
            start = e + 1;
        } else {
            let l = string_between(&cs, start, n);
            r.push(l);
            proof {
                assert(line_views(r@) == line_views(before).push(l@));
                assert(lines_from(text@, n as int) == Seq::<Seq<char>>::empty());
                assert(line_views(before) + lines_from(text@, start as int) =~= line_views(r@)
                    + lines_from(text@, n as int));
            }
            start = n;
        }
    }
    proof {
        assert(lines_from(text@, start as int) == Seq::<Seq<char>>::empty());
        assert(line_views(r@) + Seq::<Seq<char>>::empty() =~= line_views(r@));
    }
    r
}

/// Scans the text of a file whose extension is `ext`, line by line.
pub fn scan_text(
    m: &Matcher,
    exts: &Vec<String>,
    ext: &Option<String>,
    file_path: &str,
    text: &str,
) -> (r: Vec<TodoItem>)
    ensures
        is_listed(ext_views(exts@), ext_view(*ext)) ==> views(r@) == entries_in(
            m.pattern(),
            file_path@,
            lines_from(text@, 0),
        ),
        !is_listed(ext_views(exts@), ext_view(*ext)) ==> r@.len() == 0,
{
    let lines = split_lines(text);
    scan_file(m, exts, ext, file_path, &lines)
}

/// What a scan looks for: the annotation pattern and the extensions of the
/// files that are read.
pub struct Config {
    pub pattern: String,
    pub extensions: Vec<String>,
}

impl Config {
    /// The built-in configuration: the standard pattern, Rust sources only.
    pub fn standard() -> (r: Config)
        ensures
            r.pattern@ == ANNOTATION_PATTERN@,
            ext_views(r.extensions@) == seq![SOURCE_EXTENSION@],
    {
        let mut extensions: Vec<String> = Vec::new();
        extensions.push(SOURCE_EXTENSION.to_owned());
        proof {
            assert(ext_views(extensions@) =~= seq![SOURCE_EXTENSION@]);
        }
        Config { pattern: ANNOTATION_PATTERN.to_owned(), extensions }
    }
}

} // verus!
