//! The crash-safe publication protocol for an archive: every byte is written
//! to a staging path, and only one final rename makes the archive visible at
//! its target path. The model walks the protocol step by step and shows that
//! no prefix of it — however early the process dies — ever leaves a partial
//! file at the target path.
use vstd::prelude::*;
use crate::text::lemma_temp_path_differs;

verus! {

/// One step the archive writer takes against the filesystem while it
/// publishes an archive.
pub enum FsStep {
    /// Create (or truncate) the staging file, empty.
    CreateTemp,
    /// Append bytes to the staging file.
    AppendTemp(Seq<u8>),
    /// Atomically rename the staging file to the final target path.
    Publish,
}

/// The filesystem as far as the protocol touches it: which paths hold which
/// bytes.
pub struct DiskView {
    pub files: Map<Seq<char>, Seq<u8>>,
}

/// The effect of one protocol step on the disk.
pub open spec fn apply_step(
    d: DiskView,
    temp: Seq<char>,
    target: Seq<char>,
    s: FsStep,
) -> DiskView {
    match s {
        FsStep::CreateTemp => DiskView { files: d.files.insert(temp, Seq::empty()) },
        FsStep::AppendTemp(data) => if d.files.contains_key(temp) {
            DiskView { files: d.files.insert(temp, d.files[temp] + data) }
        } else {
            d
        },
        FsStep::Publish => if d.files.contains_key(temp) {
            DiskView { files: d.files.remove(temp).insert(target, d.files[temp]) }
        } else {
            d
        },
    }
}

/// The effect of a sequence of protocol steps, first step first.
pub open spec fn apply_steps(
    d: DiskView,
    temp: Seq<char>,
    target: Seq<char>,
    steps: Seq<FsStep>,
) -> DiskView
    decreases steps.len(),
{
    if steps.len() == 0 {
        d
    } else {
        apply_steps(apply_step(d, temp, target, steps[0]), temp, target, steps.drop_first())
    }
}

/// The full protocol publishing an archive whose bytes arrive in the given
/// chunks: stage an empty file, append every chunk in order, then rename.
pub open spec fn write_protocol(chunks: Seq<Seq<u8>>) -> Seq<FsStep> {
    seq![FsStep::CreateTemp] + chunks.map_values(|c: Seq<u8>| FsStep::AppendTemp(c)) + seq![
        FsStep::Publish,
    ]
}

/// All the chunks, concatenated: the complete archive.
pub open spec fn concat_chunks(chunks: Seq<Seq<u8>>) -> Seq<u8>
    decreases chunks.len(),
{
    if chunks.len() == 0 {
        Seq::empty()
    } else {
        concat_chunks(chunks.drop_last()) + chunks.last()
    }
}

/// Applying steps one more step at a time: running `steps` and then `s` is
/// running `steps.push(s)`.
proof fn lemma_apply_steps_snoc(
    d: DiskView,
    temp: Seq<char>,
    target: Seq<char>,
    steps: Seq<FsStep>,
    s: FsStep,
)
    ensures
        apply_steps(d, temp, target, steps.push(s)) == apply_step(
            apply_steps(d, temp, target, steps),
            temp,
            target,
            s,
        ),
    decreases steps.len(),
{
    reveal_with_fuel(apply_steps, 3);
    if steps.len() == 0 {
        assert(steps.push(s)[0] == s);
        assert(steps.push(s).drop_first() =~= Seq::<FsStep>::empty());
    } else {
        assert(steps.push(s)[0] == steps[0]);
        assert(steps.push(s).drop_first() =~= steps.drop_first().push(s));
        lemma_apply_steps_snoc(
            apply_step(d, temp, target, steps[0]),
            temp,
            target,
            steps.drop_first(),
            s,
        );
    }
}

/// What the disk looks like after any prefix of the protocol: up to the
/// rename, the staging path holds exactly the chunks appended so far and the
/// target path is untouched; after the rename, the target path holds the
/// complete archive and the staging path is gone.
proof fn lemma_protocol_state(
    d0: DiskView,
    temp: Seq<char>,
    target: Seq<char>,
    chunks: Seq<Seq<u8>>,
    k: int,
)
    requires
        temp != target,
        0 <= k <= write_protocol(chunks).len(),
    ensures
        ({
            let d = apply_steps(d0, temp, target, write_protocol(chunks).take(k));
            &&& (1 <= k <= chunks.len() + 1 ==> d.files.contains_key(temp) && d.files[temp]
                == concat_chunks(chunks.take(k - 1)))
            &&& (k <= chunks.len() + 1 ==> ((d.files.contains_key(target)
                <==> d0.files.contains_key(target)) && (d0.files.contains_key(target)
                ==> d.files[target] == d0.files[target])))
            &&& (k == chunks.len() + 2 ==> d.files.contains_key(target) && d.files[target]
                == concat_chunks(chunks) && !d.files.contains_key(temp))
        }),
    decreases k,
{
    reveal_with_fuel(apply_steps, 3);
    let p = write_protocol(chunks);
    if k == 0 {
        assert(p.take(0) =~= Seq::<FsStep>::empty());
    } else {
        lemma_protocol_state(d0, temp, target, chunks, k - 1);
        let prev = apply_steps(d0, temp, target, p.take(k - 1));
        assert(p.take(k) =~= p.take(k - 1).push(p[k - 1]));
        lemma_apply_steps_snoc(d0, temp, target, p.take(k - 1), p[k - 1]);
        if k == 1 {
            assert(p[0] == FsStep::CreateTemp);
            assert(concat_chunks(chunks.take(0)) =~= Seq::<u8>::empty());
        } else if k <= chunks.len() + 1 {
            assert(p[k - 1] == FsStep::AppendTemp(chunks[k - 2]));
            assert(chunks.take(k - 1).drop_last() =~= chunks.take(k - 2));
            assert(chunks.take(k - 1).last() == chunks[k - 2]);
            assert(concat_chunks(chunks.take(k - 1)) == concat_chunks(chunks.take(k - 2))
                + chunks[k - 2]);
        } else {
            assert(p[k - 1] == FsStep::Publish);
            assert(chunks.take(k - 2) =~= chunks);
        }
    }
}

/// Publication is atomic: start from a disk where nothing stands at the
/// target path, run any prefix of the protocol — the process may die at any
/// point — and the target path holds nothing at all until the protocol's very
/// last step has run, after which it holds the complete archive and the
/// staging file is gone (the rename moved it). No partial archive is ever
/// visible at the target path; at most the staging file is left behind.
pub proof fn lemma_publish_is_atomic(
    d0: DiskView,
    temp: Seq<char>,
    target: Seq<char>,
    chunks: Seq<Seq<u8>>,
    k: int,
)
    requires
        temp != target,
        !d0.files.contains_key(target),
        0 <= k <= write_protocol(chunks).len(),
    ensures
        ({
            let d = apply_steps(d0, temp, target, write_protocol(chunks).take(k));
            &&& (k < write_protocol(chunks).len() ==> !d.files.contains_key(target))
            &&& (k == write_protocol(chunks).len() ==> d.files.contains_key(target)
                && d.files[target] == concat_chunks(chunks) && !d.files.contains_key(temp))
        }),
{
    lemma_protocol_state(d0, temp, target, chunks, k);
}

/// The same, for the staging path the library actually computes: the target
/// path with the fixed staging suffix appended. That path is never the target
/// itself, so the protocol's guarantee applies to it.
pub proof fn lemma_staged_publish_is_atomic(
    d0: DiskView,
    target: Seq<char>,
    chunks: Seq<Seq<u8>>,
    k: int,
)
    requires
        !d0.files.contains_key(target),
        0 <= k <= write_protocol(chunks).len(),
    ensures
        ({
            let d = apply_steps(d0, target + ".tmp"@, target, write_protocol(chunks).take(k));
            &&& (k < write_protocol(chunks).len() ==> !d.files.contains_key(target))
            &&& (k == write_protocol(chunks).len() ==> d.files.contains_key(target)
                && d.files[target] == concat_chunks(chunks) && !d.files.contains_key(
                target + ".tmp"@,
            ))
        }),
{
    lemma_temp_path_differs(target);
    lemma_publish_is_atomic(d0, target + ".tmp"@, target, chunks, k);
}

} // verus!
