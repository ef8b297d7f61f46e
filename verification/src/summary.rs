//! The aggregator: folds every status line through the classifier into the
//! five category buckets and the branch/divergence state, computes the
//! cleanliness flag, and renders the fixed ten-field output line.

use vstd::prelude::*;

use crate::classify::Category;
use crate::classify::Classified;
use crate::classify::EntryModel;
use crate::classify::StatusEntry;
use crate::classify::category_of;
use crate::classify::classify_line;
use crate::classify::entry_of;
use crate::classify::lemma_index_unmerged_is_conflicted;
use crate::classify::lemma_untracked_pair_is_untracked;
use crate::classify::lemma_worktree_deleted_is_deleted;
use crate::classify::lemma_worktree_modified_is_changed;
use crate::header::BranchModel;
use crate::header::BranchState;
use crate::header::header_of;
use crate::header::parse_header;
use crate::text::dec_of;
use crate::text::append_dec;
use crate::text::trim_of;

verus! {

/// Spec-level state of one scan: the five buckets in order of appearance,
/// the branch identity, and the divergence counts.
#[verifier::ext_equal]
pub ghost struct ScanModel {
    pub untracked: Seq<EntryModel>,
    pub staged: Seq<EntryModel>,
    pub changed: Seq<EntryModel>,
    pub deleted: Seq<EntryModel>,
    pub conflicts: Seq<EntryModel>,
    pub branch: BranchModel,
    pub ahead: u32,
    pub behind: u32,
}

/// The state before any line is seen: all buckets empty, no branch, no
/// divergence.
pub open spec fn init_model() -> ScanModel {
    ScanModel {
        untracked: Seq::empty(),
        staged: Seq::empty(),
        changed: Seq::empty(),
        deleted: Seq::empty(),
        conflicts: Seq::empty(),
        branch: BranchModel::Unset,
        ahead: 0,
        behind: 0,
    }
}

/// One raw line folded into the scan state: a header updates branch and
/// divergence, an entry line is appended to exactly one bucket, and a
/// dropped line changes nothing.
pub open spec fn step_of(m: ScanModel, raw: Seq<char>) -> ScanModel {
    let t = trim_of(raw);
    match category_of(t) {
        Category::Header => {
            let (br, a, b) = header_of(entry_of(t).path, m.ahead, m.behind);
            ScanModel { branch: br, ahead: a, behind: b, ..m }
        },
        Category::Untracked => ScanModel { untracked: m.untracked.push(entry_of(t)), ..m },
        Category::Changed => ScanModel { changed: m.changed.push(entry_of(t)), ..m },
        Category::Deleted => ScanModel { deleted: m.deleted.push(entry_of(t)), ..m },
        Category::Conflicted => ScanModel { conflicts: m.conflicts.push(entry_of(t)), ..m },
        Category::Staged => ScanModel { staged: m.staged.push(entry_of(t)), ..m },
        Category::Dropped => m,
    }
}

/// The whole scan: every line folded through `step_of`, front to back.
pub open spec fn scan_fold(lines: Seq<Seq<char>>, m: ScanModel) -> ScanModel
    decreases lines.len(),
{
    if lines.len() == 0 {
        m
    } else {
        scan_fold(lines.drop_first(), step_of(m, lines.first()))
    }
}

/// The views of a sequence of owned lines.
pub open spec fn seq_views(lines: Seq<String>) -> Seq<Seq<char>> {
    lines.map_values(|s: String| s@)
}

/// The models of a bucket's entries.
pub open spec fn entries_of(v: Seq<StatusEntry>) -> Seq<EntryModel> {
    v.map_values(|e: StatusEntry| e@)
}

/// The buckets and branch state one scan produces.
pub struct ScanResult {
    pub untracked: Vec<StatusEntry>,
    pub staged: Vec<StatusEntry>,
    pub changed: Vec<StatusEntry>,
    pub deleted: Vec<StatusEntry>,
    pub conflicts: Vec<StatusEntry>,
    pub branch: BranchState,
    pub ahead: u32,
    pub behind: u32,
}

impl View for ScanResult {
    type V = ScanModel;

    open spec fn view(&self) -> ScanModel {
        ScanModel {
            untracked: entries_of(self.untracked@),
            staged: entries_of(self.staged@),
            changed: entries_of(self.changed@),
            deleted: entries_of(self.deleted@),
            conflicts: entries_of(self.conflicts@),
            branch: self.branch@,
            ahead: self.ahead,
            behind: self.behind,
        }
    }
}

proof fn lemma_entries_push(v: Seq<StatusEntry>, e: StatusEntry)
    ensures
        entries_of(v.push(e)) =~= entries_of(v).push(e@),
{
}

/// Scans the raw status lines in order, classifying each into the buckets
/// and interpreting the header.
pub fn scan_status(lines: &Vec<String>) -> (r: ScanResult)
    ensures
        r@ == scan_fold(seq_views(lines@), init_model()),
{
    let ghost all = seq_views(lines@);
    let mut r = ScanResult {
        untracked: Vec::new(),
        staged: Vec::new(),
        changed: Vec::new(),
        deleted: Vec::new(),
        conflicts: Vec::new(),
        branch: BranchState::Unset,
        ahead: 0,
        behind: 0,
    };
    proof {
        assert(r@ =~= init_model());
        assert(all.skip(0) =~= all);
    }
    let mut k: usize = 0;
    while k < lines.len()
        invariant
            0 <= k <= lines@.len(),
            all == seq_views(lines@),
            scan_fold(all, init_model()) == scan_fold(all.skip(k as int), r@),
        decreases lines@.len() - k,
    {
        let ghost pre = r@;
        let line = &lines[k];
        assert(line@ == all[k as int]);
        let c = classify_line(line.as_str());
        let ghost t = trim_of(all[k as int]);
        match c {
            Classified::Header(p) => {
                let counts = parse_header(p.as_str(), r.ahead, r.behind);
                r.branch = counts.0;
                r.ahead = counts.1;
                r.behind = counts.2;
                assert(r@ =~= step_of(pre, all[k as int]));
            },
            Classified::Untracked(e) => {
                proof {
                    lemma_entries_push(r.untracked@, e);
                }
                r.untracked.push(e);
                assert(r@ =~= step_of(pre, all[k as int]));
            },
            Classified::Changed(e) => {
                proof {
                    lemma_entries_push(r.changed@, e);
                }
                r.changed.push(e);
                assert(r@ =~= step_of(pre, all[k as int]));
            },
            Classified::Deleted(e) => {
                proof {
                    lemma_entries_push(r.deleted@, e);
                }
                r.deleted.push(e);
                assert(r@ =~= step_of(pre, all[k as int]));
            },
            Classified::Conflicted(e) => {
                proof {
                    lemma_entries_push(r.conflicts@, e);
                }
                r.conflicts.push(e);
                assert(r@ =~= step_of(pre, all[k as int]));
            },
            Classified::Staged(e) => {
                proof {
                    lemma_entries_push(r.staged@, e);
                }
                r.staged.push(e);
                assert(r@ =~= step_of(pre, all[k as int]));
            },
            Classified::Dropped => {
                assert(r@ =~= step_of(pre, all[k as int]));
            },
        }
        proof {
            assert(all.skip(k as int).first() == all[k as int]);
            assert(all.skip(k as int).drop_first() =~= all.skip(k + 1));
            assert(scan_fold(all.skip(k as int), pre) == scan_fold(all.skip(k + 1), r@));
        }
        k = k + 1;
    }
    proof {
        assert(all.skip(lines@.len() as int) =~= Seq::<Seq<char>>::empty());
    }
    r
}

/// A modified worktree entry always lands in the changed bucket, regardless
/// of its index code, and in no other bucket.
pub proof fn lemma_step_worktree_modified(m: ScanModel, raw: Seq<char>)
    requires
        trim_of(raw).len() >= 3,
        trim_of(raw)[1] == 'M',
    ensures
        step_of(m, raw).changed == m.changed.push(entry_of(trim_of(raw))),
        step_of(m, raw).untracked == m.untracked,
        step_of(m, raw).staged == m.staged,
        step_of(m, raw).deleted == m.deleted,
        step_of(m, raw).conflicts == m.conflicts,
{
    lemma_worktree_modified_is_changed(trim_of(raw));
}

/// A worktree-deleted entry whose index code is not `M` always lands in the
/// deleted bucket, and in no other bucket.
pub proof fn lemma_step_worktree_deleted(m: ScanModel, raw: Seq<char>)
    requires
        trim_of(raw).len() >= 3,
        trim_of(raw)[1] == 'D',
        trim_of(raw)[0] != 'M',
    ensures
        step_of(m, raw).deleted == m.deleted.push(entry_of(trim_of(raw))),
        step_of(m, raw).untracked == m.untracked,
        step_of(m, raw).staged == m.staged,
        step_of(m, raw).changed == m.changed,
        step_of(m, raw).conflicts == m.conflicts,
{
    lemma_worktree_deleted_is_deleted(trim_of(raw));
}

/// An index-unmerged entry lands in the conflicted bucket whatever its other
/// codes, provided the higher-precedence worktree codes `M` and `D` are
/// absent (those take precedence by design), and in no other bucket.
pub proof fn lemma_step_index_unmerged(m: ScanModel, raw: Seq<char>)
    requires
        trim_of(raw).len() >= 3,
        trim_of(raw)[0] == 'U',
        trim_of(raw)[1] != 'M',
        trim_of(raw)[1] != 'D',
    ensures
        step_of(m, raw).conflicts == m.conflicts.push(entry_of(trim_of(raw))),
        step_of(m, raw).untracked == m.untracked,
        step_of(m, raw).staged == m.staged,
        step_of(m, raw).changed == m.changed,
        step_of(m, raw).deleted == m.deleted,
{
    lemma_index_unmerged_is_conflicted(trim_of(raw));
}

/// An entry with both codes `?` always lands in the untracked bucket, and
/// never elsewhere.
pub proof fn lemma_step_untracked_pair(m: ScanModel, raw: Seq<char>)
    requires
        trim_of(raw).len() >= 3,
        trim_of(raw)[0] == '?',
        trim_of(raw)[1] == '?',
    ensures
        step_of(m, raw).untracked == m.untracked.push(entry_of(trim_of(raw))),
        step_of(m, raw).staged == m.staged,
        step_of(m, raw).changed == m.changed,
        step_of(m, raw).deleted == m.deleted,
        step_of(m, raw).conflicts == m.conflicts,
{
    lemma_untracked_pair_is_untracked(trim_of(raw));
}

/// The cleanliness flag: 1 exactly when all five buckets are empty, else 0.
pub fn is_clean(
    changed: &Vec<StatusEntry>,
    deleted: &Vec<StatusEntry>,
    staged: &Vec<StatusEntry>,
    conflicts: &Vec<StatusEntry>,
    untracked: &Vec<StatusEntry>,
) -> (r: i32)
    ensures
        r == 1 || r == 0,
        (r == 1) <==> (changed@.len() == 0 && deleted@.len() == 0 && staged@.len() == 0
            && conflicts@.len() == 0 && untracked@.len() == 0),
{
    if changed.len() == 0 && deleted.len() == 0 && staged.len() == 0 && conflicts.len() == 0
        && untracked.len() == 0 {
        1
    } else {
        0
    }
}

/// The sole output artifact: branch identity, divergence counts, the five
/// bucket sizes, the stash count, and the cleanliness flag.
pub struct RunSummary {
    pub branch: Option<String>,
    pub ahead: u32,
    pub behind: u32,
    pub staged: usize,
    pub conflicts: usize,
    pub changed: usize,
    pub untracked: usize,
    pub stash: usize,
    pub clean: i32,
    pub deleted: usize,
}

/// Builds the run summary from a finished scan, the resolved detached-HEAD
/// label (used only when the scan saw a detached HEAD), and the stash count.
pub fn summarize(scan: &ScanResult, resolved: Option<String>, stash: usize) -> (s: RunSummary)
    ensures
        s.ahead == scan.ahead,
        s.behind == scan.behind,
        s.stash == stash,
        s.staged == scan.staged@.len(),
        s.conflicts == scan.conflicts@.len(),
        s.changed == scan.changed@.len(),
        s.untracked == scan.untracked@.len(),
        s.deleted == scan.deleted@.len(),
        s.clean == 1 || s.clean == 0,
        (s.clean == 1) <==> (scan.changed@.len() == 0 && scan.deleted@.len() == 0
            && scan.staged@.len() == 0 && scan.conflicts@.len() == 0 && scan.untracked@.len()
            == 0),
        scan.branch is Unset ==> s.branch is None,
        scan.branch matches BranchState::Named(b) ==> (s.branch matches Some(x) && x@ == b@),
        scan.branch is Detached ==> s.branch == resolved,
{
    let clean = is_clean(&scan.changed, &scan.deleted, &scan.staged, &scan.conflicts,
        &scan.untracked);
    let branch = match &scan.branch {
        BranchState::Unset => None,
        BranchState::Named(b) => Some(b.clone()),
        BranchState::Detached => resolved,
    };
    RunSummary {
        branch,
        ahead: scan.ahead,
        behind: scan.behind,
        staged: scan.staged.len(),
        conflicts: scan.conflicts.len(),
        changed: scan.changed.len(),
        untracked: scan.untracked.len(),
        stash,
        clean,
        deleted: scan.deleted.len(),
    }
}

/// The branch field as it renders: its text, or nothing at all.
pub open spec fn branch_text_of(b: Option<String>) -> Seq<char> {
    match b {
        Some(s) => s@,
        None => Seq::empty(),
    }
}

/// The ten space-separated output fields in their fixed order.
pub open spec fn render_of(s: RunSummary) -> Seq<char> {
    branch_text_of(s.branch) + " "@ + dec_of(s.ahead as int) + " "@ + dec_of(s.behind as int)
        + " "@ + dec_of(s.staged as int) + " "@ + dec_of(s.conflicts as int) + " "@ + dec_of(
        s.changed as int,
    ) + " "@ + dec_of(s.untracked as int) + " "@ + dec_of(s.stash as int) + " "@ + dec_of(
        s.clean as int,
    ) + " "@ + dec_of(s.deleted as int)
}

/// Renders the summary as the single fixed-format output line. An absent
/// branch renders as an empty first field.
pub fn render(s: &RunSummary) -> (out: String)
    requires
        s.clean == 0 || s.clean == 1,
    ensures
        out@ == render_of(*s),
{
    let mut out = String::new();
    match &s.branch {
        Some(b) => out.append(b.as_str()),
        None => {},
    }
    out.append(" ");
    append_dec(&mut out, s.ahead as u64);
    out.append(" ");
    append_dec(&mut out, s.behind as u64);
    out.append(" ");
    append_dec(&mut out, s.staged as u64);
    out.append(" ");
    append_dec(&mut out, s.conflicts as u64);
    out.append(" ");
    append_dec(&mut out, s.changed as u64);
    out.append(" ");
    append_dec(&mut out, s.untracked as u64);
    out.append(" ");
    append_dec(&mut out, s.stash as u64);
    out.append(" ");
    append_dec(&mut out, s.clean as u64);
    out.append(" ");
    append_dec(&mut out, s.deleted as u64);
    proof {
        assert(out@ =~= render_of(*s));
    }
    out
}

} // verus!
