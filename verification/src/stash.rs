//! The stash count: the number of lines in the stash log file under the
//! repository's metadata directory. Reading the file is the caller's job;
//! this module builds the file's path and counts the lines of its text.

use vstd::prelude::*;

use crate::text::trim_of;
use crate::text::trim_str;

verus! {

/// Number of newline characters in `s`.
pub open spec fn nl_count(s: Seq<char>) -> int
    decreases s.len(),
{
    if s.len() == 0 {
        0
    } else {
        nl_count(s.drop_last()) + if s.last() == '\n' {
            1int
        } else {
            0int
        }
    }
}

/// Number of lines as a line-by-line reader counts them: each newline ends a
/// line, and a non-empty text not ending in a newline has one final line more.
pub open spec fn line_count_of(s: Seq<char>) -> int {
    if s.len() == 0 {
        0
    } else {
        nl_count(s) + if s.last() == '\n' {
            0int
        } else {
            1int
        }
    }
}

pub proof fn lemma_nl_count_bounds(s: Seq<char>)
    ensures
        0 <= nl_count(s) <= s.len(),
    decreases s.len(),
{
    if s.len() > 0 {
        lemma_nl_count_bounds(s.drop_last());
    }
}

/// Counts the lines of a text, as its line-by-line reader would.
pub fn count_lines(text: &str) -> (r: usize)
    ensures
        r == line_count_of(text@),
{
    let n = text.unicode_len();
    if n == 0 {
        return 0;
    }
    let mut cnt: usize = 0;
    let mut i: usize = 0;
    while i < n
        invariant
            0 <= i <= n == text@.len(),
            cnt == nl_count(text@.take(i as int)),
            0 <= cnt <= i,
        decreases n - i,
    {
        proof {
            assert(text@.take(i + 1).drop_last() =~= text@.take(i as int));
            lemma_nl_count_bounds(text@.take(i as int));
        }
        if text.get_char(i) == '\n' {
            cnt = cnt + 1;
        }
        i = i + 1;
    }
    proof {
        assert(text@.take(n as int) =~= text@);
        lemma_nl_count_bounds(text@.drop_last());
        assert(text@.drop_last() =~= text@.take(n - 1));
    }
    if text.get_char(n - 1) == '\n' {
        cnt
    } else {
        proof {
            assert(nl_count(text@) == nl_count(text@.drop_last()));
        }
        cnt + 1
    }
}

/// The path of the stash log file: the trimmed metadata-directory query
/// output with the log file's fixed relative path appended.
pub fn stash_log_path(git_dir_output: &str) -> (p: String)
    ensures
        p@ == trim_of(git_dir_output@) + "/logs/refs/stash"@,
{
    let t = trim_str(git_dir_output).to_owned();
    t.concat("/logs/refs/stash")
}

} // verus!
