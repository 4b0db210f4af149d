//! Verified core of a directory-tree sweeper: it classifies the files of a
//! leaf directory, plans archival of image-dominant leaves into a zip
//! container, plans removal of empty and hidden files, and models the
//! crash-safe temp-then-rename protocol that publishes an archive.
use vstd::prelude::*;

pub mod text;
pub mod classify;
pub mod clean;
pub mod compress;
pub mod tree;
pub mod archive;
pub mod atomic;

use crate::tree::SweepMode;

verus! {

/// Selects the leaf policy from its name on the command line: `compress` and
/// `clean` are the two policies; any other word is rejected.
pub fn parse_mode(m: &String) -> (r: Option<SweepMode>)
    ensures
        m@ == "compress"@ ==> r == Some(SweepMode::Compress),
        m@ == "clean"@ ==> r == Some(SweepMode::Clean),
        m@ != "compress"@ && m@ != "clean"@ ==> r is None,
{
    proof {
        reveal_strlit("compress");
        reveal_strlit("clean");
        assert("compress"@.len() != "clean"@.len());
    }
    let compress = String::from_str("compress");
    let clean = String::from_str("clean");
    if m.eq(&compress) {
        Some(SweepMode::Compress)
    } else if m.eq(&clean) {
        Some(SweepMode::Clean)
    } else {
        None
    }
}

/// Why the root path cannot be operated on.
#[derive(Clone, Copy, PartialEq, Eq, Structural, Debug)]
pub enum RootError {
    DoesNotExist,
    NotADirectory,
}

/// Decides whether work may start at the root, from what the filesystem
/// reported about it: the root must exist and be a directory.
pub fn root_check(exists: bool, is_dir: bool) -> (r: Result<(), RootError>)
    ensures
        r is Ok <==> exists && is_dir,
        !exists ==> r == Result::<(), RootError>::Err(RootError::DoesNotExist),
        exists && !is_dir ==> r == Result::<(), RootError>::Err(RootError::NotADirectory),
{
    if !exists {
        Err(RootError::DoesNotExist)
    } else if !is_dir {
        Err(RootError::NotADirectory)
    } else {
        Ok(())
    }
}

} // verus!
