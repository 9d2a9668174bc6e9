//! What the clean-up pass does with each entry of a repository's status.

use vstd::prelude::*;

verus! {

/// git2's `Status::CURRENT`: the file is unchanged.
pub const STATUS_CURRENT: u32 = 0u32;

/// git2's `Status::WT_NEW` (`1 << 7`): the file is new in the working tree.
pub const STATUS_WT_NEW: u32 = 128u32;

/// git2's `Status::IGNORED` (`1 << 14`): the file is ignored.
pub const STATUS_IGNORED: u32 = 16384u32;

/// The step taken for one status entry.
#[derive(Clone, Copy, Debug, PartialEq, Eq, Structural)]
pub enum CleanAction {
    /// An unchanged file: not listed at all.
    Skip,
    /// An untracked directory, to be removed.
    RemoveUntrackedDirectory,
    /// An untracked file, to be removed.
    RemoveUntrackedFile,
    /// An ignored directory, to be removed.
    RemoveIgnoredDirectory,
    /// An ignored file, to be removed.
    RemoveIgnoredFile,
    /// Untracked or ignored, but neither a directory nor a file: only listed.
    ListOnly,
    /// Any other status: listed and left for now.
    NotNow,
}

/// The step for an entry whose status flags are exactly `bits`, and whose
/// path is a directory (`is_dir`) or a file (`is_file`).
pub open spec fn action_for(bits: u32, is_dir: bool, is_file: bool) -> CleanAction {
    if bits == STATUS_CURRENT {
        CleanAction::Skip
    } else if bits == STATUS_WT_NEW {
        if is_dir {
            CleanAction::RemoveUntrackedDirectory
        } else if is_file {
            CleanAction::RemoveUntrackedFile
        } else {
            CleanAction::ListOnly
        }
    } else if bits == STATUS_IGNORED {
        if is_dir {
            CleanAction::RemoveIgnoredDirectory
        } else if is_file {
            CleanAction::RemoveIgnoredFile
        } else {
            CleanAction::ListOnly
        }
    } else {
        CleanAction::NotNow
    }
}

/// Decides what to do with one status entry.
pub fn clean_action(bits: u32, is_dir: bool, is_file: bool) -> (r: CleanAction)
    ensures
        r == action_for(bits, is_dir, is_file),
        (r == CleanAction::Skip) <==> bits == 0,
        bits != 0 && bits != 128 && bits != 16384 ==> r == CleanAction::NotNow,
        (r == CleanAction::RemoveUntrackedDirectory || r == CleanAction::RemoveUntrackedFile)
            ==> bits == 128,
        (r == CleanAction::RemoveIgnoredDirectory || r == CleanAction::RemoveIgnoredFile) ==> bits
            == 16384,
        (bits == 128 || bits == 16384) ==> (r == CleanAction::RemoveUntrackedDirectory
            || r == CleanAction::RemoveIgnoredDirectory) == is_dir,
        (bits == 128 || bits == 16384) && !is_dir ==> (r == CleanAction::RemoveUntrackedFile
            || r == CleanAction::RemoveIgnoredFile) == is_file,
        (bits == 128 || bits == 16384) && !is_dir && !is_file ==> r == CleanAction::ListOnly,
{
    if bits == STATUS_CURRENT {
        CleanAction::Skip
    } else if bits == STATUS_WT_NEW {
        if is_dir {
            CleanAction::RemoveUntrackedDirectory
        } else if is_file {
            CleanAction::RemoveUntrackedFile
        } else {
            CleanAction::ListOnly
        }
    } else if bits == STATUS_IGNORED {
        if is_dir {
            CleanAction::RemoveIgnoredDirectory
        } else if is_file {
            CleanAction::RemoveIgnoredFile
        } else {
            CleanAction::ListOnly
        }
    } else {
        CleanAction::NotNow
    }
}

/// The clean-up decision depends on the exact status flags: only an
/// unchanged entry (no flag) is skipped, only an entry that is exactly new
/// in the working tree (git2's `WT_NEW`, 128) is removed as untracked, only
/// one exactly ignored (`IGNORED`, 16384) is removed as ignored, and every
/// other status, staged ones and combinations included, is left for now.
/// Among the two removable statuses, a directory is removed as a directory,
/// otherwise a file as a file, and anything else is only listed.
pub proof fn lemma_clean_decision_follows_exact_flags(bits: u32, is_dir: bool, is_file: bool)
    ensures
        (action_for(bits, is_dir, is_file) == CleanAction::Skip) <==> bits == 0,
        bits != 0 && bits != 128 && bits != 16384 ==> action_for(bits, is_dir, is_file)
            == CleanAction::NotNow,
        bits == 128 && is_dir ==> action_for(bits, is_dir, is_file)
            == CleanAction::RemoveUntrackedDirectory,
        bits == 128 && !is_dir && is_file ==> action_for(bits, is_dir, is_file)
            == CleanAction::RemoveUntrackedFile,
        bits == 16384 && is_dir ==> action_for(bits, is_dir, is_file)
            == CleanAction::RemoveIgnoredDirectory,
        bits == 16384 && !is_dir && is_file ==> action_for(bits, is_dir, is_file)
            == CleanAction::RemoveIgnoredFile,
        (bits == 128 || bits == 16384) && !is_dir && !is_file ==> action_for(bits, is_dir, is_file)
            == CleanAction::ListOnly,
{
}

} // verus!
