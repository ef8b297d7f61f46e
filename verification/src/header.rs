//! The branch-header interpreter: the payload of the `##` header line is
//! matched against three marker patterns in order (zero-commit marker,
//! detached-HEAD marker, upstream separator) and the divergence annotation
//! `[ahead N, behind N]` is folded into the ahead/behind counters.

use vstd::prelude::*;

use crate::text::begins_with;
use crate::text::begins_with_str;
use crate::text::contains_str;
use crate::text::find_from;
use crate::text::find_str;
use crate::text::has_pat;
use crate::text::char_run;
use crate::text::char_run_back;
use crate::text::is_ws;
use crate::text::is_ws_exec;
use crate::text::last_token_of;
use crate::text::last_token_str;
use crate::text::lemma_char_run;
use crate::text::lemma_char_run_back;
use crate::text::lemma_find_from;
use crate::text::lemma_nonws_run;
use crate::text::lemma_ws_run;
use crate::text::nonws_run;
use crate::text::parse_u32_of;
use crate::text::parse_u32_str;
use crate::text::trim_of;
use crate::text::trim_str;
use crate::text::ws_run;

verus! {

/// Spec-level branch identity: none seen yet, a named branch, or a detached
/// HEAD whose label is resolved outside the scan.
pub ghost enum BranchModel {
    Unset,
    Named(Seq<char>),
    Detached,
}

/// Branch identity as the scan reports it.
pub enum BranchState {
    Unset,
    Named(String),
    Detached,
}

impl View for BranchState {
    type V = BranchModel;

    open spec fn view(&self) -> BranchModel {
        match self {
            BranchState::Unset => BranchModel::Unset,
            BranchState::Named(s) => BranchModel::Named(s@),
            BranchState::Detached => BranchModel::Detached,
        }
    }
}

/// The suffix of `s` from index `k`, or empty if `k` is past the end.
pub open spec fn tail_from(s: Seq<char>, k: int) -> Seq<char> {
    if 0 <= k <= s.len() {
        s.subrange(k, s.len() as int)
    } else {
        Seq::empty()
    }
}

/// What remains of the upstream part after its first whitespace-separated
/// token: the divergence annotation (empty when there is only one token).
pub open spec fn divergence_of(rest: Seq<char>) -> Seq<char> {
    let a = ws_run(rest, 0);
    let b = nonws_run(rest, a);
    let c = ws_run(rest, b);
    rest.subrange(c, rest.len() as int)
}

/// The annotation with its surrounding brackets removed: every leading `[`
/// and every trailing `]`.
pub open spec fn strip_brackets(d: Seq<char>) -> Seq<char> {
    let a = char_run(d, 0, '[');
    let t1 = d.subrange(a, d.len() as int);
    let b = char_run_back(t1, t1.len() as int, ']');
    t1.subrange(0, b)
}

/// One divergence segment: `ahead N` sets the ahead count, `behind N` the
/// behind count; a segment that begins with neither changes nothing, and a
/// count that fails to parse yields 0.
pub open spec fn seg_update(seg: Seq<char>, a: u32, b: u32) -> (u32, u32) {
    if begins_with(seg, "ahead"@) {
        (parse_u32_of(trim_of(tail_from(seg, 6))), b)
    } else if begins_with(seg, "behind"@) {
        (a, parse_u32_of(trim_of(tail_from(seg, 7))))
    } else {
        (a, b)
    }
}

/// Folds the bracket-stripped annotation, split on `", "`, through
/// `seg_update`, left to right.
pub open spec fn div_fold(s: Seq<char>, a: u32, b: u32) -> (u32, u32)
    decreases s.len(),
{
    let i = find_from(s, ", "@, 0);
    if i < 0 || i + 2 > s.len() {
        seg_update(s, a, b)
    } else {
        let seg = s.subrange(0, i);
        let (a2, b2) = seg_update(seg, a, b);
        div_fold(s.subrange(i + 2, s.len() as int), a2, b2)
    }
}

/// The ahead/behind counts after the upstream part `rest` is interpreted:
/// unchanged when `rest` has at most one token, else the fold of its
/// divergence annotation.
pub open spec fn div_update(rest: Seq<char>, a0: u32, b0: u32) -> (u32, u32) {
    let d = divergence_of(rest);
    if d.len() > 0 {
        div_fold(strip_brackets(d), a0, b0)
    } else {
        (a0, b0)
    }
}

/// What the header payload yields, given the ahead/behind counts so far:
/// the branch identity and the updated counts, by the three patterns tested
/// in order. The marker phrases are fixed compatibility constants tied to
/// the underlying tool's English output format.
pub open spec fn header_of(payload: Seq<char>, a0: u32, b0: u32) -> (BranchModel, u32, u32) {
    let t = trim_of(payload);
    if has_pat(t, "Initial commit on"@) || has_pat(t, "No commits yet on"@) {
        (BranchModel::Named(last_token_of(t)), a0, b0)
    } else if has_pat(t, "no branch"@) {
        (BranchModel::Detached, a0, b0)
    } else {
        let i = find_from(t, "..."@, 0);
        if i < 0 {
            (BranchModel::Named(t), a0, b0)
        } else {
            let j = if i + 3 <= t.len() {
                i + 3
            } else {
                t.len() as int
            };
            let rest = t.subrange(j, t.len() as int);
            let (a, b) = div_update(rest, a0, b0);
            (BranchModel::Named(t.subrange(0, i)), a, b)
        }
    }
}

/// One divergence segment applied to the counts.
fn seg_update_exec(seg: &str, a: u32, b: u32) -> (r: (u32, u32))
    ensures
        ({
            let (ra, rb) = seg_update(seg@, a, b);
            r.0 == ra && r.1 == rb
        }),
{
    let m = seg.unicode_len();
    if begins_with_str(seg, "ahead") {
        let from: usize = if 6 <= m {
            6
        } else {
            m
        };
        let tail = seg.substring_char(from, m);
        assert(tail@ =~= tail_from(seg@, 6));
        let v = parse_u32_str(trim_str(tail));
        (v, b)
    } else if begins_with_str(seg, "behind") {
        let from: usize = if 7 <= m {
            7
        } else {
            m
        };
        let tail = seg.substring_char(from, m);
        assert(tail@ =~= tail_from(seg@, 7));
        let v = parse_u32_str(trim_str(tail));
        (a, v)
    } else {
        (a, b)
    }
}

/// The ahead/behind counts after the upstream part is interpreted.
fn parse_divergence(rest: &str, a0: u32, b0: u32) -> (r: (u32, u32))
    ensures
        ({
            let (ra, rb) = div_update(rest@, a0, b0);
            r.0 == ra && r.1 == rb
        }),
{
    let n = rest.unicode_len();
    // Skip the leading whitespace, the first token, and the whitespace after
    // it; what remains is the divergence annotation.
    let mut a: usize = 0;
    while a < n && is_ws_exec(rest.get_char(a))
        invariant
            0 <= a <= n == rest@.len(),
            forall|j: int| 0 <= j < a ==> #[trigger] is_ws(rest@[j]),
        decreases n - a,
    {
        a = a + 1;
    }
    proof {
        lemma_ws_run(rest@, 0);
        let ab = ws_run(rest@, 0);
        if a < ab {
            assert(is_ws(rest@[a as int]));
            assert(false);
        } else if ab < a {
            assert(is_ws(rest@[ab]));
            assert(false);
        }
    }
    let mut b: usize = a;
    while b < n && !is_ws_exec(rest.get_char(b))
        invariant
            a <= b <= n == rest@.len(),
            forall|j: int| a <= j < b ==> !(#[trigger] is_ws(rest@[j])),
        decreases n - b,
    {
        b = b + 1;
    }
    proof {
        lemma_nonws_run(rest@, a as int);
        let bb = nonws_run(rest@, a as int);
        if b < bb {
            assert(!is_ws(rest@[b as int]));
            assert(false);
        } else if bb < b {
            assert(!is_ws(rest@[bb]));
            assert(false);
        }
    }
    let mut c: usize = b;
    while c < n && is_ws_exec(rest.get_char(c))
        invariant
            b <= c <= n == rest@.len(),
            forall|j: int| b <= j < c ==> #[trigger] is_ws(rest@[j]),
        decreases n - c,
    {
        c = c + 1;
    }
    proof {
        lemma_ws_run(rest@, b as int);
        let cb = ws_run(rest@, b as int);
        if c < cb {
            assert(is_ws(rest@[c as int]));
            assert(false);
        } else if cb < c {
            assert(is_ws(rest@[cb]));
            assert(false);
        }
    }
    if c >= n {
        assert(divergence_of(rest@).len() == 0);
        return (a0, b0);
    }
    let d = rest.substring_char(c, n);
    assert(d@ == divergence_of(rest@));
    // Strip the surrounding brackets.
    let dn = d.unicode_len();
    let mut p: usize = 0;
    while p < dn && d.get_char(p) == '['
        invariant
            0 <= p <= dn == d@.len(),
            forall|j: int| 0 <= j < p ==> d@[j] == '[',
        decreases dn - p,
    {
        p = p + 1;
    }
    proof {
        lemma_char_run(d@, 0, '[');
        let pb = char_run(d@, 0, '[');
        if p < pb {
            assert(d@[p as int] == '[');
            assert(false);
        } else if pb < p {
            assert(d@[pb] == '[');
            assert(false);
        }
    }
    let mut q: usize = dn;
    while q > p && d.get_char(q - 1) == ']'
        invariant
            p <= q <= dn == d@.len(),
            forall|j: int| q <= j < dn ==> d@[j] == ']',
        decreases q,
    {
        q = q - 1;
    }
    let stripped = d.substring_char(p, q);
    proof {
        let t1 = d@.subrange(p as int, dn as int);
        lemma_char_run_back(t1, t1.len() as int, ']');
        let qb = char_run_back(t1, t1.len() as int, ']');
        if (q - p) < qb {
            assert(t1[qb - 1] == d@[p + qb - 1]);
            assert(d@[p + qb - 1] == ']');
            assert(false);
        } else if qb < (q - p) {
            assert(t1[q - 1 - p] == d@[q - 1]);
            assert(d@[q - 1] == ']');
            assert(false);
        }
        assert(t1.subrange(0, qb) =~= d@.subrange(p as int, q as int));
        assert(stripped@ == strip_brackets(divergence_of(rest@)));
    }
    // Fold the comma-separated segments through the counters.
    let ghost whole = strip_brackets(divergence_of(rest@));
    let mut cur: &str = stripped;
    let mut ca: u32 = a0;
    let mut cb: u32 = b0;
    loop
        invariant
            div_fold(whole, a0, b0) == div_fold(cur@, ca, cb),
            divergence_of(rest@).len() > 0,
            whole == strip_brackets(divergence_of(rest@)),
        decreases cur@.len(),
    {
        let m = cur.unicode_len();
        match find_str(cur, ", ") {
            None => {
                let r = seg_update_exec(cur, ca, cb);
                return r;
            },
            Some(i) => {
                proof {
                    lemma_find_from(cur@, ", "@, 0);
                    reveal_strlit(", ");
                }
                let seg = cur.substring_char(0, i);
                let r = seg_update_exec(seg, ca, cb);
                let next = cur.substring_char(i + 2, m);
                ca = r.0;
                cb = r.1;
                cur = next;
            },
        }
    }
}

/// Interprets the header payload, returning the branch identity and the
/// updated ahead/behind counts.
pub fn parse_header(payload: &str, ahead0: u32, behind0: u32) -> (r: (BranchState, u32, u32))
    ensures
        ({
            let (bm, a, b) = header_of(payload@, ahead0, behind0);
            r.0@ == bm && r.1 == a && r.2 == b
        }),
{
    let t = trim_str(payload);
    if contains_str(t, "Initial commit on") || contains_str(t, "No commits yet on") {
        let tok = last_token_str(t).to_owned();
        return (BranchState::Named(tok), ahead0, behind0);
    }
    if contains_str(t, "no branch") {
        return (BranchState::Detached, ahead0, behind0);
    }
    let n = t.unicode_len();
    match find_str(t, "...") {
        None => (BranchState::Named(t.to_owned()), ahead0, behind0),
        Some(i) => {
            proof {
                lemma_find_from(t@, "..."@, 0);
                reveal_strlit("...");
            }
            let name = t.substring_char(0, i).to_owned();
            let rest = t.substring_char(i + 3, n);
            let counts = parse_divergence(rest, ahead0, behind0);
            (BranchState::Named(name), counts.0, counts.1)
        },
    }
}

} // verus!
