//! What the directory walk does with each entry. The backup and the size
//! estimate both go through `classify_entry`, so they apply the same rules.
use vstd::prelude::*;
use crate::ignore_patterns::{ignored_by, IgnoreManager};

verus! {

/// The type of a directory entry, without following symlinks.
#[derive(Debug, Clone, Copy, PartialEq, Eq, Structural)]
pub enum EntryKind {
    File,
    Dir,
    Symlink,
    /// A FIFO, socket or device.
    Special,
}

/// What to do with a directory entry.
#[derive(Debug, Clone, Copy, PartialEq, Eq, Structural)]
pub enum EntryAction {
    /// Matched by the ignore rules: left out.
    Ignore,
    /// A special file: skipped and counted as ignored.
    SkipSpecial,
    /// Recreated as a symlink with the same target; never followed.
    CopySymlink,
    /// Created at the target and walked.
    Descend,
    /// Handed to the generation protocol.
    CopyFile,
}

pub open spec fn action_of(pats: Seq<(Seq<char>, bool)>, rel: Seq<char>, kind: EntryKind, names_dir: bool) -> EntryAction {
    if ignored_by(pats, rel, names_dir) {
        EntryAction::Ignore
    } else {
        match kind {
            EntryKind::Special => EntryAction::SkipSpecial,
            EntryKind::Symlink => EntryAction::CopySymlink,
            EntryKind::Dir => EntryAction::Descend,
            EntryKind::File => EntryAction::CopyFile,
        }
    }
}

/// The action for the entry at `rel_path` (relative to the source root) of
/// type `kind`; `names_dir` tells whether the path leads to a directory
/// (through a symlink too), as the ignore rules see it.
pub fn classify_entry(ignores: &IgnoreManager, rel_path: &str, kind: EntryKind, names_dir: bool) -> (r: EntryAction)
    requires
        ignores.wf(),
    ensures
        r == action_of(ignores.pattern_list(), rel_path@, kind, names_dir),
{
    if ignores.should_ignore(rel_path, names_dir) {
        return EntryAction::Ignore;
    }
    match kind {
        EntryKind::Special => EntryAction::SkipSpecial,
        EntryKind::Symlink => EntryAction::CopySymlink,
        EntryKind::Dir => EntryAction::Descend,
        EntryKind::File => EntryAction::CopyFile,
    }
}

/// The estimate after counting a regular file of `size` bytes, held at
/// `u64::MAX`.
pub fn add_to_total(total: u64, action: EntryAction, size: u64) -> (r: u64)
    ensures
        action == EntryAction::CopyFile ==> r == crate::stats::sat_add(total, size),
        action != EntryAction::CopyFile ==> r == total,
{
    match action {
        EntryAction::CopyFile => total.saturating_add(size),
        _ => total,
    }
}

/// Whatever walk asks, an entry's action depends on its path, type and the
/// patterns alone: two walks over the same tree with the same patterns keep
/// the same entries.
pub proof fn law_ignore_deterministic(
    a: &IgnoreManager,
    b: &IgnoreManager,
    rel: Seq<char>,
    kind: EntryKind,
    names_dir: bool,
)
    requires
        a.pattern_list() == b.pattern_list(),
    ensures
        action_of(a.pattern_list(), rel, kind, names_dir) == action_of(b.pattern_list(), rel, kind, names_dir),
{
}

/// A directory symlink is recreated as a link and never walked, so a link
/// back to an ancestor causes no loop.
pub proof fn law_symlink_never_descended(pats: Seq<(Seq<char>, bool)>, rel: Seq<char>, names_dir: bool)
    ensures
        action_of(pats, rel, EntryKind::Symlink, names_dir) != EntryAction::Descend,
{
}

} // verus!
