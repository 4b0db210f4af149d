//! The "compress" leaf policy: an image-dominant leaf is archived whole into
//! a zip file named after the leaf and placed in its parent directory, and
//! the leaf is deleted afterwards; any other leaf is left untouched.
use vstd::prelude::*;
use crate::classify::{spec_image_dominant, image_dominant};
use crate::clean::FileStat;

verus! {

/// The base names of a leaf's files, in the file list's order.
pub open spec fn spec_file_names(files: Seq<FileStat>) -> Seq<Seq<char>> {
    files.map_values(|f: FileStat| f.name@)
}

/// Extracts the base names of a leaf's files.
pub fn file_names(files: &Vec<FileStat>) -> (r: Vec<String>)
    ensures
        r.deep_view() == spec_file_names(files@),
{
    let mut out: Vec<String> = Vec::new();
    let mut i: usize = 0;
    while i < files.len()
        invariant
            i <= files@.len(),
            out@.len() == i,
            forall|k: int| 0 <= k < i ==> out@[k]@ == files@[k].name@,
        decreases files@.len() - i,
    {
        out.push(files[i].name.clone());
        i = i + 1;
    }
    proof {
        assert(out.deep_view() =~= spec_file_names(files@));
    }
    out
}

/// Everything the compress policy decides for one accepted leaf: which
/// directory to archive and then delete, where the archive goes, the name
/// stem it is tried under, and which entries it holds (every file of the
/// leaf, image or not, under its base name, in the list's order).
pub struct ArchiveAction {
    /// The leaf directory that is archived and then deleted.
    pub dir_path: String,
    /// The directory the archive is placed in: the leaf's parent.
    pub parent: String,
    /// The name stem of the archive: the leaf directory's own base name.
    pub stem: String,
    /// The base names of every file of the leaf, in the list's order.
    pub entry_names: Vec<String>,
}

/// The mathematical content of an `ArchiveAction`.
pub struct ArchiveActionGhost {
    pub dir_path: Seq<char>,
    pub parent: Seq<char>,
    pub stem: Seq<char>,
    pub entry_names: Seq<Seq<char>>,
}

impl View for ArchiveAction {
    type V = ArchiveActionGhost;

    open spec fn view(&self) -> ArchiveActionGhost {
        ArchiveActionGhost {
            dir_path: self.dir_path@,
            parent: self.parent@,
            stem: self.stem@,
            entry_names: self.entry_names.deep_view(),
        }
    }
}

/// The archive action the compress policy takes at a leaf, if any.
pub open spec fn spec_compress_leaf(
    dir_path: Seq<char>,
    parent: Seq<char>,
    name: Seq<char>,
    files: Seq<FileStat>,
) -> Option<ArchiveActionGhost> {
    if spec_image_dominant(spec_file_names(files)) {
        Some(
            ArchiveActionGhost {
                dir_path: dir_path,
                parent: parent,
                stem: name,
                entry_names: spec_file_names(files),
            },
        )
    } else {
        None
    }
}

/// Decides the compress policy for one leaf: an archive action exactly when
/// the directory really is a leaf (it was handed no subdirectory names) and
/// its files are image-dominant (non-empty, strictly more images than other
/// files); no action — the leaf is left untouched — otherwise. A directory
/// with subdirectories is declined outright: only true leaves are archived.
pub fn compress_leaf(
    dir_path: &String,
    parent: &String,
    name: &String,
    files: &Vec<FileStat>,
    subdirs: &Vec<String>,
) -> (r: Option<ArchiveAction>)
    ensures
        r is Some <==> (subdirs@.len() == 0 && spec_image_dominant(spec_file_names(files@))),
        match r {
            Some(a) => Some(a@) == spec_compress_leaf(dir_path@, parent@, name@, files@),
            None => subdirs@.len() == 0 ==> spec_compress_leaf(
                dir_path@,
                parent@,
                name@,
                files@,
            ) is None,
        },
{
    if subdirs.len() > 0 {
        return None;
    }
    let names = file_names(files);
    if image_dominant(&names) {
        Some(
            ArchiveAction {
                dir_path: dir_path.clone(),
                parent: parent.clone(),
                stem: name.clone(),
                entry_names: names,
            },
        )
    } else {
        None
    }
}

} // verus!
