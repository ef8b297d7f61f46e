//! The status-line classifier: one trimmed porcelain line is either the
//! branch header, an entry for one of the five category buckets, or dropped.
//! Precedence is positional and fixed: header, untracked, worktree-modified,
//! worktree-deleted, index-unmerged, any other staged index code.

use vstd::prelude::*;

use crate::text::trim_of;
use crate::text::trim_str;

verus! {

/// Where one status line goes.
#[derive(PartialEq, Eq, Structural)]
pub enum Category {
    Header,
    Untracked,
    Changed,
    Deleted,
    Conflicted,
    Staged,
    Dropped,
}

/// Spec-level view of one classified line: the two status code characters
/// and the payload from the third character on.
pub ghost struct EntryModel {
    pub index: char,
    pub worktree: char,
    pub path: Seq<char>,
}

/// The entry a line of at least three characters yields.
pub open spec fn entry_of(line: Seq<char>) -> EntryModel
    recommends
        line.len() >= 3,
{
    EntryModel { index: line[0], worktree: line[1], path: line.subrange(2, line.len() as int) }
}

/// The category of one trimmed line, by the fixed precedence.
pub open spec fn category_of(line: Seq<char>) -> Category {
    if line.len() < 3 {
        Category::Dropped
    } else if line[0] == '#' && line[1] == '#' {
        Category::Header
    } else if line[0] == '?' && line[1] == '?' {
        Category::Untracked
    } else if line[1] == 'M' {
        Category::Changed
    } else if line[1] == 'D' {
        Category::Deleted
    } else if line[0] == 'U' {
        Category::Conflicted
    } else if line[0] != ' ' {
        Category::Staged
    } else {
        Category::Dropped
    }
}

/// One status entry: the index and worktree status codes and the path payload.
pub struct StatusEntry {
    pub index: char,
    pub worktree: char,
    pub path: String,
}

impl View for StatusEntry {
    type V = EntryModel;

    open spec fn view(&self) -> EntryModel {
        EntryModel { index: self.index, worktree: self.worktree, path: self.path@ }
    }
}

/// The outcome of classifying one raw line.
pub enum Classified {
    /// The branch header; carries the payload after the two `#` markers.
    Header(String),
    Untracked(StatusEntry),
    Changed(StatusEntry),
    Deleted(StatusEntry),
    Conflicted(StatusEntry),
    Staged(StatusEntry),
    Dropped,
}

/// Classifies one raw status line (trimming it first).
pub fn classify_line(raw: &str) -> (c: Classified)
    ensures
        (match c {
            Classified::Header(p) => category_of(trim_of(raw@)) == Category::Header && p@
                == entry_of(trim_of(raw@)).path,
            Classified::Untracked(e) => category_of(trim_of(raw@)) == Category::Untracked && e@
                == entry_of(trim_of(raw@)),
            Classified::Changed(e) => category_of(trim_of(raw@)) == Category::Changed && e@
                == entry_of(trim_of(raw@)),
            Classified::Deleted(e) => category_of(trim_of(raw@)) == Category::Deleted && e@
                == entry_of(trim_of(raw@)),
            Classified::Conflicted(e) => category_of(trim_of(raw@)) == Category::Conflicted && e@
                == entry_of(trim_of(raw@)),
            Classified::Staged(e) => category_of(trim_of(raw@)) == Category::Staged && e@
                == entry_of(trim_of(raw@)),
            Classified::Dropped => category_of(trim_of(raw@)) == Category::Dropped,
        }),
{
    let t = trim_str(raw);
    let n = t.unicode_len();
    if n < 3 {
        return Classified::Dropped;
    }
    let c0 = t.get_char(0);
    let c1 = t.get_char(1);
    if c0 == '#' && c1 == '#' {
        let payload = t.substring_char(2, n).to_owned();
        return Classified::Header(payload);
    }
    if c0 == ' ' && c1 != 'M' && c1 != 'D' {
        return Classified::Dropped;
    }
    let payload = t.substring_char(2, n).to_owned();
    let entry = StatusEntry { index: c0, worktree: c1, path: payload };
    if c0 == '?' && c1 == '?' {
        Classified::Untracked(entry)
    } else if c1 == 'M' {
        Classified::Changed(entry)
    } else if c1 == 'D' {
        Classified::Deleted(entry)
    } else if c0 == 'U' {
        Classified::Conflicted(entry)
    } else {
        Classified::Staged(entry)
    }
}

/// A line of at least three characters whose worktree code is `M` is always
/// classified as changed, regardless of its index code.
pub proof fn lemma_worktree_modified_is_changed(line: Seq<char>)
    requires
        line.len() >= 3,
        line[1] == 'M',
    ensures
        category_of(line) == Category::Changed,
{
}

/// A line of at least three characters with worktree code `D` and index code
/// other than `M` is always classified as deleted.
pub proof fn lemma_worktree_deleted_is_deleted(line: Seq<char>)
    requires
        line.len() >= 3,
        line[1] == 'D',
        line[0] != 'M',
    ensures
        category_of(line) == Category::Deleted,
{
}

/// A line of at least three characters with index code `U` is classified as
/// conflicted whenever the higher-precedence worktree codes `M` and `D` are
/// absent; those two take precedence by design.
pub proof fn lemma_index_unmerged_is_conflicted(line: Seq<char>)
    requires
        line.len() >= 3,
        line[0] == 'U',
        line[1] != 'M',
        line[1] != 'D',
    ensures
        category_of(line) == Category::Conflicted,
{
}

/// A line of at least three characters with both codes `?` is always
/// classified as untracked, and nothing else.
pub proof fn lemma_untracked_pair_is_untracked(line: Seq<char>)
    requires
        line.len() >= 3,
        line[0] == '?',
        line[1] == '?',
    ensures
        category_of(line) == Category::Untracked,
{
}

} // verus!
