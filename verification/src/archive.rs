//! Building the archive container in memory. The zip crate does the encoding;
//! the library drives it entry by entry and states exactly which entries, in
//! which order and with which contents, the resulting bytes encode.
use vstd::prelude::*;

verus! {

#[verifier::external_type_specification]
#[verifier::external_body]
pub struct ExZipError(zip::result::ZipError);

#[verifier::external_type_specification]
#[verifier::external_body]
pub struct ExIoError(std::io::Error);

/// A zip archive writer over an in-memory buffer. The writer itself is the
/// zip crate's; Verus sees it only through `zip_entries`, the entries it has
/// been handed so far.
#[verifier::external_body]
pub struct MemZipWriter {
    inner: zip::write::ZipWriter<std::io::Cursor<Vec<u8>>>,
}

/// The entries an in-memory archive writer has been handed so far: for each,
/// its stored name and its bytes, in the order they were begun.
pub uninterp spec fn zip_entries(w: MemZipWriter) -> Seq<(Seq<char>, Seq<u8>)>;

/// Whether the writer is still in its ordinary working state: no call on it
/// has failed, and every entry finished so far fits the format's plain 32-bit
/// size fields even after compression, so finishing it cannot fail.
pub uninterp spec fn zip_writer_ok(w: MemZipWriter) -> bool;

/// The stored names of the entries, in order.
pub open spec fn spec_entry_names(entries: Seq<(Seq<char>, Seq<u8>)>) -> Seq<Seq<char>> {
    entries.map_values(|e: (Seq<char>, Seq<u8>)| e.0)
}

/// The longest entry name the library hands to the container: every character
/// is at most four bytes of UTF-8, so such a name surely fits the format's
/// 16-bit name-length field.
pub const MAX_ENTRY_NAME_LEN: usize = 16383;

/// The largest entry the library hands to the container: far enough below the
/// format's plain 32-bit size field that even the worst case of deflate (five
/// bytes of framing per stored block) stays under it, so neither the entry's
/// raw bytes nor its compressed bytes can overrun the field.
pub const MAX_ENTRY_DATA_LEN: usize = 0xFFE0_0000;

/// The bytes of the finished zip container holding exactly the given entries,
/// in order. The encoding is a function of the entries alone: the writer's
/// options are fixed, and its timestamps are the format's constant default
/// epoch.
pub uninterp spec fn zip_encoding_of(entries: Seq<(Seq<char>, Seq<u8>)>) -> Seq<u8>;

/// The last entry extended by the given bytes.
pub open spec fn spec_append_to_last(
    entries: Seq<(Seq<char>, Seq<u8>)>,
    data: Seq<u8>,
) -> Seq<(Seq<char>, Seq<u8>)>
    recommends
        entries.len() > 0,
{
    entries.update(entries.len() - 1, (entries.last().0, entries.last().1 + data))
}

/// Relies on zip::ZipWriter::new over an in-memory cursor: a fresh archive
/// writer holds no entries yet and is in its working state.
#[verifier::external_body]
fn zip_writer_new() -> (w: MemZipWriter)
    ensures
        zip_entries(w) == Seq::<(Seq<char>, Seq<u8>)>::empty(),
        zip_writer_ok(w),
{
    MemZipWriter { inner: zip::write::ZipWriter::new(std::io::Cursor::new(Vec::new())) }
}

/// Relies on zip::ZipWriter::start_file with per-entry deflate compression:
/// on success a new, still empty entry under the given name is begun after
/// the entries already written. On a writer in its working state the call can
/// fail only for a duplicate name or a name over the format's 16-bit length
/// field: the in-memory cursor cannot fail, and finishing the previous entry
/// cannot either, since its sizes fit the plain fields.
#[verifier::external_body]
fn zip_start_entry(w: &mut MemZipWriter, name: &str) -> (r: Result<(), zip::result::ZipError>)
    ensures
        r is Ok ==> zip_entries(*final(w)) == zip_entries(*old(w)).push(
            (name@, Seq::<u8>::empty()),
        ),
        (zip_writer_ok(*old(w)) && name@.len() <= MAX_ENTRY_NAME_LEN && !spec_entry_names(
            zip_entries(*old(w)),
        ).contains(name@)) ==> (r is Ok && zip_writer_ok(*final(w))),
{
    let options = zip::write::SimpleFileOptions::default().compression_method(
        zip::CompressionMethod::Deflated,
    );
    w.inner.start_file(name, options)
}

/// Relies on the std::io::Write impl of zip::ZipWriter: write_all appends the
/// given bytes to the entry begun last. On a writer in its working state the
/// call can fail only when the entry's raw bytes overrun the format's plain
/// 32-bit size field; below the entry budget the compressed bytes stay under
/// the field too, and the in-memory cursor cannot fail.
#[verifier::external_body]
fn zip_append_data(w: &mut MemZipWriter, data: &[u8]) -> (r: Result<(), std::io::Error>)
    requires
        zip_entries(*old(w)).len() > 0,
    ensures
        r is Ok ==> zip_entries(*final(w)) == spec_append_to_last(zip_entries(*old(w)), data@),
        (zip_writer_ok(*old(w)) && zip_entries(*old(w)).last().1.len() + data@.len()
            <= MAX_ENTRY_DATA_LEN) ==> (r is Ok && zip_writer_ok(*final(w))),
{
    std::io::Write::write_all(&mut w.inner, data)
}

/// Relies on zip::ZipWriter::finish: it closes the container's central
/// directory and hands back the cursor, whose buffer then holds the complete
/// archive of the entries written. On a writer in its working state it cannot
/// fail: the last entry's sizes fit the plain fields, a central directory past
/// the 32-bit offset gets the format's 64-bit end record rather than an error,
/// and the in-memory cursor cannot fail.
#[verifier::external_body]
fn zip_finish(w: MemZipWriter) -> (r: Result<Vec<u8>, zip::result::ZipError>)
    ensures
        r is Ok ==> r->Ok_0@ == zip_encoding_of(zip_entries(w)),
        zip_writer_ok(w) ==> r is Ok,
{
    match w.inner.finish() {
        Ok(c) => Ok(c.into_inner()),
        Err(e) => Err(e),
    }
}

/// One file to store in an archive: the name it is stored under (its base
/// name — directory prefixes are not kept in the container) and its bytes.
pub struct ArchiveEntry {
    pub name: String,
    pub data: Vec<u8>,
}

/// The mathematical content of a list of archive entries.
pub open spec fn spec_entry_views(es: Seq<ArchiveEntry>) -> Seq<(Seq<char>, Seq<u8>)> {
    es.map_values(|e: ArchiveEntry| (e.name@, e.data@))
}

/// Which step of building an archive failed.
#[derive(Clone, Copy, PartialEq, Eq, Structural, Debug)]
pub enum ArchiveError {
    /// An entry could not be begun.
    Start,
    /// An entry's bytes could not be written.
    Data,
    /// The container could not be finished.
    Finish,
}

/// A list of files the container is sure to take: names pairwise distinct and
/// within the name budget, each entry's data within the entry budget.
pub open spec fn spec_entries_archivable(es: Seq<ArchiveEntry>) -> bool {
    &&& forall|k: int| 0 <= k < es.len() ==> (#[trigger] es[k]).name@.len() <= MAX_ENTRY_NAME_LEN
    &&& forall|k: int| 0 <= k < es.len() ==> (#[trigger] es[k]).data@.len() <= MAX_ENTRY_DATA_LEN
    &&& forall|k: int, l: int| 0 <= k < l < es.len() ==> es[k].name@ != es[l].name@
}

/// Serializes the given files into one zip container held in memory: on
/// success the bytes are exactly the container's encoding of those entries,
/// each under its own name with its own data, in the list's order; and success
/// is owed whenever the names are pairwise distinct and names and data are
/// within the container's budgets.
pub fn build_archive(entries: &Vec<ArchiveEntry>) -> (r: Result<Vec<u8>, ArchiveError>)
    ensures
        r is Ok ==> r->Ok_0@ == zip_encoding_of(spec_entry_views(entries@)),
        spec_entries_archivable(entries@) ==> r is Ok,
{
    let mut w = zip_writer_new();
    let mut i: usize = 0;
    while i < entries.len()
        invariant
            i <= entries@.len(),
            zip_entries(w) =~= spec_entry_views(entries@.take(i as int)),
            spec_entries_archivable(entries@) ==> zip_writer_ok(w),
        decreases entries@.len() - i,
    {
        proof {
            if spec_entries_archivable(entries@) {
                let name = entries@[i as int].name@;
                assert forall|k: int|
                    0 <= k < spec_entry_names(zip_entries(w)).len() implies spec_entry_names(
                    zip_entries(w),
                )[k] != name by {
                    assert(spec_entry_names(zip_entries(w))[k] == entries@[k].name@);
                }
                assert(!spec_entry_names(zip_entries(w)).contains(name));
            }
        }
        match zip_start_entry(&mut w, entries[i].name.as_str()) {
            Ok(u) => u,
            Err(_) => {
                return Err(ArchiveError::Start);
            },
        };
        match zip_append_data(&mut w, entries[i].data.as_slice()) {
            Ok(u) => u,
            Err(_) => {
                return Err(ArchiveError::Data);
            },
        };
        proof {
            assert(Seq::<u8>::empty() + entries@[i as int].data@ =~= entries@[i as int].data@);
            assert(zip_entries(w) =~= spec_entry_views(entries@.take(i + 1)));
        }
        i = i + 1;
    }
    proof {
        assert(entries@.take(entries@.len() as int) =~= entries@);
    }
    match zip_finish(w) {
        Ok(bytes) => Ok(bytes),
        Err(_) => Err(ArchiveError::Finish),
    }
}

} // verus!
