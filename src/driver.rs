//! The decisions the command-line driver makes before scanning.

use vstd::prelude::*;
use crate::text::{chars_of, lower_of, to_lower};

verus! {

/// The tool takes no arguments: only the program name may be present.
pub fn arguments_accepted(count: usize) -> (r: bool)
    ensures
        r == (count == 1),
{
    count == 1
}

/// What `str::trim_end` returns for `s`.
pub uninterp spec fn trimmed_end(s: Seq<char>) -> Seq<char>;

/// Relies on str::trim_end: `s` without its trailing whitespace, which
/// depends on the characters alone.
#[verifier::external_body]
fn trim_end(s: &str) -> (r: &str)
    ensures
        r@ == trimmed_end(s@),
{
    s.trim_end()
}

/// A declining answer, once folded to lower case and trimmed: `n` or `no`.
pub open spec fn is_no(answer: Seq<char>) -> bool {
    answer == seq!['n'] || answer == seq!['n', 'o']
}

/// Whether a lower-cased, trimmed answer declines.
pub fn declines(answer: &str) -> (r: bool)
    ensures
        r == is_no(answer@),
{
    let cs = chars_of(answer);
    let r = (cs.len() == 1 && cs[0] == 'n') || (cs.len() == 2 && cs[0] == 'n' && cs[1] == 'o');
    proof {
        if cs@.len() == 1 && cs@[0] == 'n' {
            assert(answer@ =~= seq!['n']);
        }
        if cs@.len() == 2 && cs@[0] == 'n' && cs@[1] == 'o' {
            assert(answer@ =~= seq!['n', 'o']);
        }
    }
    r
}

/// Whether to scan a directory that is not a repository root, given the
/// answer to the prompt (`None` when it could not be read). Anything but an
/// explicit no, in any case and with trailing whitespace, proceeds.
pub fn proceed_outside_repository(reply: Option<&str>) -> (r: bool)
    ensures
        r == match reply {
            None => false,
            Some(s) => !is_no(trimmed_end(lower_of(s@))),
        },
{
    match reply {
        None => false,
        Some(s) => {
            let low = to_lower(s);
            !declines(trim_end(low.as_str()))
        },
    }
}

} // verus!
