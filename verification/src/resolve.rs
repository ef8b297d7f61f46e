//! The detached-HEAD label decision: given the raw output of the two
//! subsidiary queries (tags pointing at the current commit, abbreviated
//! commit hash), pick the display label.

use vstd::prelude::*;

use crate::text::first_token_of;
use crate::text::is_ws;
use crate::text::is_ws_exec;
use crate::text::lemma_nonws_run;
use crate::text::lemma_ws_run;
use crate::text::nonws_run;
use crate::text::trim_of;
use crate::text::trim_str;
use crate::text::ws_run;

verus! {

/// Whether the tag listing holds a second whitespace-separated token after
/// the first: the query is capped at two results, so "a second token exists"
/// stands for "two or more tags point at the commit".
pub open spec fn second_token_exists(s: Seq<char>) -> bool {
    ws_run(s, nonws_run(s, ws_run(s, 0))) < s.len()
}

/// The label the resolver yields: the first listed tag, with a `+` suffix
/// when a second tag also points at the commit; otherwise the trimmed hash;
/// otherwise no label at all.
pub open spec fn resolve_of(tags: Seq<char>, hash: Seq<char>) -> Option<Seq<char>> {
    let t = first_token_of(tags);
    if t.len() > 0 {
        if second_token_exists(tags) {
            Some(t + "+"@)
        } else {
            Some(t)
        }
    } else {
        let h = trim_of(hash);
        if h.len() > 0 {
            Some(h)
        } else {
            None
        }
    }
}

/// Resolves a display label for a commit with no symbolic branch, from the
/// raw tag-listing output and the raw abbreviated-hash output.
pub fn resolve_ref_label(tags_output: &str, hash_output: &str) -> (r: Option<String>)
    ensures
        (match r {
            Some(s) => resolve_of(tags_output@, hash_output@) == Some(s@),
            None => resolve_of(tags_output@, hash_output@) is None,
        }),
{
    let n = tags_output.unicode_len();
    let mut a: usize = 0;
    while a < n && is_ws_exec(tags_output.get_char(a))
        invariant
            0 <= a <= n == tags_output@.len(),
            forall|j: int| 0 <= j < a ==> #[trigger] is_ws(tags_output@[j]),
        decreases n - a,
    {
        a = a + 1;
    }
    proof {
        lemma_ws_run(tags_output@, 0);
        let ab = ws_run(tags_output@, 0);
        if a < ab {
            assert(is_ws(tags_output@[a as int]));
            assert(false);
        } else if ab < a {
            assert(is_ws(tags_output@[ab]));
            assert(false);
        }
    }
    let mut b: usize = a;
    while b < n && !is_ws_exec(tags_output.get_char(b))
        invariant
            a <= b <= n == tags_output@.len(),
            forall|j: int| a <= j < b ==> !(#[trigger] is_ws(tags_output@[j])),
        decreases n - b,
    {
        b = b + 1;
    }
    proof {
        lemma_nonws_run(tags_output@, a as int);
        let bb = nonws_run(tags_output@, a as int);
        if b < bb {
            assert(!is_ws(tags_output@[b as int]));
            assert(false);
        } else if bb < b {
            assert(!is_ws(tags_output@[bb]));
            assert(false);
        }
    }
    if b > a {
        // A tag was listed; look for a second token after it.
        let mut c: usize = b;
        while c < n && is_ws_exec(tags_output.get_char(c))
            invariant
                b <= c <= n == tags_output@.len(),
                forall|j: int| b <= j < c ==> #[trigger] is_ws(tags_output@[j]),
            decreases n - c,
        {
            c = c + 1;
        }
        proof {
            lemma_ws_run(tags_output@, b as int);
            let cb = ws_run(tags_output@, b as int);
            if c < cb {
                assert(is_ws(tags_output@[c as int]));
                assert(false);
            } else if cb < c {
                assert(is_ws(tags_output@[cb]));
                assert(false);
            }
        }
        let tok = tags_output.substring_char(a, b).to_owned();
        if c < n {
            Some(tok.concat("+"))
        } else {
            Some(tok)
        }
    } else {
        let h = trim_str(hash_output);
        if h.unicode_len() > 0 {
            Some(h.to_owned())
        } else {
            None
        }
    }
}

} // verus!
