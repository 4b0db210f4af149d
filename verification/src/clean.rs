//! The "clean" leaf policy: inside a leaf, every file that is empty or hidden
//! is deleted, and the leaf directory itself is removed once every one of its
//! files has been deleted.
use vstd::prelude::*;

verus! {

/// One regular file of a leaf directory, as the filesystem reported it: its
/// base name, and its size where the metadata could be read.
pub struct FileStat {
    pub name: String,
    /// `None` when the file's metadata could not be read; such a file is
    /// skipped by the clean policy.
    pub size: Option<u64>,
}

/// A file is deleted when its metadata could be read and it is either empty
/// (zero bytes) or hidden (its name starts with a dot).
pub open spec fn spec_should_delete(name: Seq<char>, size: Option<u64>) -> bool {
    size is Some && (size == Some(0u64) || (name.len() > 0 && name[0] == '.'))
}

/// Decides deletion for one file of a leaf under the clean policy.
pub fn should_delete_file(f: &FileStat) -> (r: bool)
    ensures
        r == spec_should_delete(f.name@, f.size),
{
    let hidden = if f.name.as_str().unicode_len() > 0 {
        f.name.as_str().get_char(0) == '.'
    } else {
        false
    };
    match f.size {
        Some(n) => n == 0 || hidden,
        None => false,
    }
}

/// The names the clean policy deletes from a leaf, in the file list's order.
pub open spec fn spec_deletions(files: Seq<FileStat>) -> Seq<Seq<char>>
    decreases files.len(),
{
    if files.len() == 0 {
        Seq::empty()
    } else {
        spec_deletions(files.drop_last()) + if spec_should_delete(
            files.last().name@,
            files.last().size,
        ) {
            seq![files.last().name@]
        } else {
            Seq::<Seq<char>>::empty()
        }
    }
}

/// The files the clean policy keeps in a leaf, in the file list's order.
pub open spec fn spec_kept(files: Seq<FileStat>) -> Seq<FileStat> {
    files.filter(|f: FileStat| !spec_should_delete(f.name@, f.size))
}

/// Selects the files to delete from a leaf under the clean policy: every file
/// that is empty or hidden, none that is not, in the list's order.
pub fn clean_selection(files: &Vec<FileStat>) -> (r: Vec<String>)
    ensures
        r.deep_view() == spec_deletions(files@),
{
    let mut out: Vec<String> = Vec::new();
    let mut i: usize = 0;
    while i < files.len()
        invariant
            i <= files@.len(),
            out.deep_view() == spec_deletions(files@.take(i as int)),
        decreases files@.len() - i,
    {
        proof {
            assert(files@.take(i + 1).drop_last() =~= files@.take(i as int));
            assert(files@.take(i + 1).last() == files@[i as int]);
        }
        if should_delete_file(&files[i]) {
            out.push(files[i].name.clone());
            proof {
                assert(out.deep_view() =~= spec_deletions(files@.take(i + 1)));
            }
        } else {
            proof {
                assert(out.deep_view() =~= spec_deletions(files@.take(i + 1)));
            }
        }
        i = i + 1;
    }
    proof {
        assert(files@.take(files@.len() as int) =~= files@);
    }
    out
}

/// After the deletions, the leaf directory itself is removed exactly when
/// every file it held was deleted (a leaf with no files at all is removed
/// too: zero deletions then equal its zero files).
pub fn clean_should_remove_dir(deleted: usize, total: usize) -> (r: bool)
    ensures
        r == (deleted == total),
{
    deleted == total
}

/// The deletion count never exceeds the file count, and it reaches the file
/// count exactly when no file is kept.
pub proof fn lemma_deletions_bound(files: Seq<FileStat>)
    ensures
        spec_deletions(files).len() + spec_kept(files).len() == files.len(),
    decreases files.len(),
{
    reveal(Seq::filter);
    if files.len() > 0 {
        lemma_deletions_bound(files.drop_last());
    }
}

/// In a list where no file is empty or hidden, the clean policy deletes
/// nothing.
pub proof fn lemma_no_deletable_no_deletions(files: Seq<FileStat>)
    requires
        forall|k: int|
            0 <= k < files.len() ==> !spec_should_delete(files[k].name@, files[k].size),
    ensures
        spec_deletions(files) =~= Seq::<Seq<char>>::empty(),
    decreases files.len(),
{
    if files.len() > 0 {
        assert(forall|k: int|
            0 <= k < files.drop_last().len() ==> files.drop_last()[k] == files[k]);
        lemma_no_deletable_no_deletions(files.drop_last());
    }
}

/// Cleaning is idempotent at a leaf: once the empty and hidden files are
/// gone, a second pass over the kept files deletes nothing; and the second
/// pass meets the directory-removal condition (as many deletions as files)
/// only if the first pass kept no file at all — in which case the first pass
/// already removed the directory and there is no second visit.
pub proof fn lemma_clean_idempotent(files: Seq<FileStat>)
    ensures
        spec_deletions(spec_kept(files)) =~= Seq::<Seq<char>>::empty(),
        spec_deletions(spec_kept(files)).len() == spec_kept(files).len() ==> spec_kept(
            files,
        ).len() == 0,
{
    broadcast use vstd::seq_lib::group_filter_ensures;

    let kept = spec_kept(files);
    lemma_no_deletable_no_deletions(kept);
}

} // verus!
