//! The decisions of the repository tooling (`cargo xtask`): which command
//! runs, whether a virtual controller can be bound, and whether an example
//! pair exchanged enough traffic. Spawning processes and reading their
//! output is left to the caller.
use vstd::prelude::*;
use crate::text::str_eq;

verus! {

/// A tooling command.
#[derive(Clone, Copy, Debug, PartialEq, Eq, Structural)]
pub enum XtaskCommand {
    /// The end-to-end tier over two virtual controllers.
    E2e,
    /// Regenerating the pre-built bindings (not implemented).
    Gen,
    /// Anything else: print the usage.
    Usage,
}

/// The command named by the first argument.
pub fn parse_command(arg: Option<&str>) -> (r: XtaskCommand)
    ensures
        r == match arg {
            Some(a) => if a@ == "e2e"@ {
                XtaskCommand::E2e
            } else if a@ == "gen"@ {
                XtaskCommand::Gen
            } else {
                XtaskCommand::Usage
            },
            None => XtaskCommand::Usage,
        },
{
    match arg {
        Some(a) => {
            if str_eq(a, "e2e") {
                XtaskCommand::E2e
            } else if str_eq(a, "gen") {
                XtaskCommand::Gen
            } else {
                XtaskCommand::Usage
            }
        },
        None => XtaskCommand::Usage,
    }
}

/// `needle` occurs in `hay` starting at `i`.
pub open spec fn occurs_at(hay: Seq<char>, needle: Seq<char>, i: int) -> bool {
    0 <= i && i + needle.len() <= hay.len() && hay.subrange(i, i + needle.len()) == needle
}

/// `str::contains`: `needle` occurs somewhere in `hay`.
pub open spec fn spec_contains(hay: Seq<char>, needle: Seq<char>) -> bool {
    exists|i: int| occurs_at(hay, needle, i)
}

/// Whether `needle` occurs in `hay` at position `i`.
fn matches_at(hay: &str, needle: &str, i: usize) -> (r: bool)
    requires
        i <= hay@.len(),
    ensures
        r == occurs_at(hay@, needle@, i as int),
{
    let n = hay.unicode_len();
    let m = needle.unicode_len();
    if m > n - i {
        return false;
    }
    let mut k: usize = 0;
    while k < m
        invariant
            n == hay@.len(),
            m == needle@.len(),
            i + m <= n,
            k <= m,
            hay@.subrange(i as int, i + k) =~= needle@.subrange(0, k as int),
        decreases m - k,
    {
        if hay.get_char(i + k) != needle.get_char(k) {
            assert(hay@.subrange(i as int, i + m)[k as int] != needle@[k as int]);
            return false;
        }
        assert(hay@.subrange(i as int, i + k + 1) =~= hay@.subrange(i as int, i + k).push(
            hay@[i + k],
        ));
        assert(needle@.subrange(0, k + 1) =~= needle@.subrange(0, k as int).push(needle@[k as int]));
        k = k + 1;
    }
    assert(needle@.subrange(0, m as int) =~= needle@);
    true
}

/// `str::contains` on two strings.
pub fn contains(hay: &str, needle: &str) -> (r: bool)
    ensures
        r == spec_contains(hay@, needle@),
{
    let n = hay.unicode_len();
    if needle.unicode_len() == 0 {
        assert(hay@.subrange(0, 0) =~= needle@);
        assert(occurs_at(hay@, needle@, 0));
        return true;
    }
    let mut i: usize = 0;
    while i < n
        invariant
            n == hay@.len(),
            needle@.len() > 0,
            forall|j: int| 0 <= j < i ==> !occurs_at(hay@, needle@, j),
        decreases n - i,
    {
        if matches_at(hay, needle, i) {
            return true;
        }
        i = i + 1;
    }
    false
}

/// `str::matches(needle).count()`: the non-overlapping occurrences of
/// `needle`, found left to right; an empty needle matches at each of the
/// `len + 1` boundaries.
pub open spec fn spec_count_matches(hay: Seq<char>, needle: Seq<char>) -> nat
    decreases hay.len(),
{
    if needle.len() == 0 {
        hay.len() + 1
    } else if hay.len() < needle.len() {
        0
    } else if hay.take(needle.len() as int) == needle {
        1 + spec_count_matches(hay.skip(needle.len() as int), needle)
    } else {
        spec_count_matches(hay.skip(1), needle)
    }
}

/// Counts the non-overlapping occurrences of `needle` in `hay`.
pub fn count_matches(hay: &str, needle: &str) -> (r: usize)
    requires
        hay@.len() < usize::MAX,
    ensures
        r == spec_count_matches(hay@, needle@),
{
    let n = hay.unicode_len();
    let m = needle.unicode_len();
    if m == 0 {
        return n + 1;
    }
    let mut i: usize = 0;
    let mut count: usize = 0;
    assert(hay@.skip(0) =~= hay@);
    while i < n && m <= n - i
        invariant
            n == hay@.len(),
            m == needle@.len(),
            m > 0,
            i <= n,
            count <= i,
            count + spec_count_matches(hay@.skip(i as int), needle@) == spec_count_matches(
                hay@,
                needle@,
            ),
        decreases n - i,
    {
        let ghost rest = hay@.skip(i as int);
        let hit = matches_at(hay, needle, i);
        proof {
            assert(rest.take(m as int) == hay@.subrange(i as int, i + m));
        }
        if hit {
            proof {
                assert(rest.skip(m as int) == hay@.skip(i + m));
            }
            count = count + 1;
            i = i + m;
        } else {
            proof {
                assert(rest.skip(1) == hay@.skip(i + 1));
            }
            i = i + 1;
        }
    }
    proof {
        assert(hay@.skip(i as int).len() < m);
    }
    count
}

/// Whether probing a virtual controller shows that it cannot be bound: the
/// probe exited by itself (instead of being stopped while scanning) having
/// printed a permission or OS error.
pub fn bind_refused(timed_out: bool, output: &str) -> (r: bool)
    ensures
        r == (!timed_out && (spec_contains(output@, "Operation not permitted"@) || spec_contains(
            output@,
            "os error"@,
        ))),
{
    !timed_out && (contains(output, "Operation not permitted") || contains(output, "os error"))
}

/// Whether an example pair passed: both sides printed their marker at least
/// `min_hits` times.
pub fn pair_passed(client_hits: usize, server_hits: usize, min_hits: usize) -> (r: bool)
    ensures
        r == (client_hits >= min_hits && server_hits >= min_hits),
{
    !(client_hits < min_hits || server_hits < min_hits)
}

} // verus!
