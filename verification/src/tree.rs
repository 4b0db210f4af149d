//! The tree reducer: over a snapshot of a directory tree it visits every
//! readable branch, applies the chosen leaf policy exactly once per leaf
//! directory (a directory with no subdirectories), and aggregates the visited
//! file paths of all readable branches; an unreadable directory excludes only
//! its own subtree.
use vstd::prelude::*;
use crate::clean::{FileStat, spec_deletions, clean_selection, spec_should_delete, lemma_no_deletable_no_deletions};
use crate::compress::{ArchiveAction, ArchiveActionGhost, spec_compress_leaf, compress_leaf};
use crate::text::join_path;

verus! {

/// A snapshot of one directory: its base name, whether listing it succeeded,
/// its regular files, and its subdirectories.
pub struct DirTree {
    pub name: String,
    /// False when the directory's entries could not be listed; such a
    /// directory contributes nothing and its subtree is not descended into.
    pub readable: bool,
    pub files: Vec<FileStat>,
    pub subdirs: Vec<DirTree>,
}

/// Which leaf policy a sweep applies.
#[derive(Clone, Copy, PartialEq, Eq, Structural, Debug)]
pub enum SweepMode {
    Compress,
    Clean,
}

/// Everything the clean policy decides for one leaf: which directory it works
/// in, which file names it deletes, and how many files the leaf held in all.
pub struct CleanAction {
    pub dir_path: String,
    pub delete_names: Vec<String>,
    pub total: usize,
}

/// The mathematical content of a `CleanAction`.
pub struct CleanActionGhost {
    pub dir_path: Seq<char>,
    pub delete_names: Seq<Seq<char>>,
    pub total: int,
}

impl View for CleanAction {
    type V = CleanActionGhost;

    open spec fn view(&self) -> CleanActionGhost {
        CleanActionGhost {
            dir_path: self.dir_path@,
            delete_names: self.delete_names.deep_view(),
            total: self.total as int,
        }
    }
}

/// What the leaf policy decided at one leaf directory.
pub enum LeafAction {
    /// Compress policy, image-dominant leaf: archive it, then delete it.
    Archive(ArchiveAction),
    /// Clean policy: delete the named files; remove the directory when every
    /// file it held was deleted.
    Clean(CleanAction),
    /// Compress policy, leaf not image-dominant: leave it untouched.
    Keep(String),
}

/// The mathematical content of a `LeafAction`.
pub enum LeafActionGhost {
    Archive(ArchiveActionGhost),
    Clean(CleanActionGhost),
    Keep(Seq<char>),
}

impl View for LeafAction {
    type V = LeafActionGhost;

    open spec fn view(&self) -> LeafActionGhost {
        match self {
            LeafAction::Archive(a) => LeafActionGhost::Archive(a@),
            LeafAction::Clean(c) => LeafActionGhost::Clean(c@),
            LeafAction::Keep(p) => LeafActionGhost::Keep(p@),
        }
    }
}

/// A leaf directory has no subdirectories at all.
pub open spec fn spec_is_leaf(t: DirTree) -> bool {
    t.subdirs@.len() == 0
}

/// The action the chosen policy takes at one leaf.
pub open spec fn spec_leaf_action(
    t: DirTree,
    path: Seq<char>,
    parent: Seq<char>,
    mode: SweepMode,
) -> LeafActionGhost {
    match mode {
        SweepMode::Compress => match spec_compress_leaf(path, parent, t.name@, t.files@) {
            Some(a) => LeafActionGhost::Archive(a),
            None => LeafActionGhost::Keep(path),
        },
        SweepMode::Clean => LeafActionGhost::Clean(
            CleanActionGhost {
                dir_path: path,
                delete_names: spec_deletions(t.files@),
                total: t.files@.len() as int,
            },
        ),
    }
}

/// The file paths a sweep of this tree visits: at a readable leaf, all its
/// files; below a readable inner directory, whatever its subdirectories
/// yield; nothing below an unreadable directory. Files directly inside an
/// inner (non-leaf) directory are not visited: only leaves get policy
/// treatment.
pub open spec fn spec_visited(t: DirTree, path: Seq<char>) -> Seq<Seq<char>>
    decreases t, 0int,
{
    if !t.readable {
        Seq::empty()
    } else if spec_is_leaf(t) {
        t.files@.map_values(|f: FileStat| path + "/"@ + f.name@)
    } else {
        spec_visited_forest(t.subdirs@, path, 0)
    }
}

/// The visited files of the subtrees `s[i..]`, in order.
pub open spec fn spec_visited_forest(s: Seq<DirTree>, parent_path: Seq<char>, i: int) -> Seq<
    Seq<char>,
>
    decreases s, s.len() - i,
{
    if i < 0 || i >= s.len() {
        Seq::empty()
    } else {
        spec_visited(s[i], parent_path + "/"@ + s[i].name@) + spec_visited_forest(
            s,
            parent_path,
            i + 1,
        )
    }
}

/// The leaf actions a sweep of this tree takes, one per readable leaf, in
/// depth-first order.
pub open spec fn spec_actions(
    t: DirTree,
    path: Seq<char>,
    parent: Seq<char>,
    mode: SweepMode,
) -> Seq<LeafActionGhost>
    decreases t, 0int,
{
    if !t.readable {
        Seq::empty()
    } else if spec_is_leaf(t) {
        seq![spec_leaf_action(t, path, parent, mode)]
    } else {
        spec_actions_forest(t.subdirs@, path, mode, 0)
    }
}

/// The leaf actions of the subtrees `s[i..]`, in order.
pub open spec fn spec_actions_forest(
    s: Seq<DirTree>,
    parent_path: Seq<char>,
    mode: SweepMode,
    i: int,
) -> Seq<LeafActionGhost>
    decreases s, s.len() - i,
{
    if i < 0 || i >= s.len() {
        Seq::empty()
    } else {
        spec_actions(s[i], parent_path + "/"@ + s[i].name@, parent_path, mode)
            + spec_actions_forest(s, parent_path, mode, i + 1)
    }
}

/// How many readable leaves the tree has.
pub open spec fn spec_leaf_count(t: DirTree) -> int
    decreases t, 0int,
{
    if !t.readable {
        0
    } else if spec_is_leaf(t) {
        1
    } else {
        spec_leaf_count_forest(t.subdirs@, 0)
    }
}

/// The readable leaves of the subtrees `s[i..]`.
pub open spec fn spec_leaf_count_forest(s: Seq<DirTree>, i: int) -> int
    decreases s, s.len() - i,
{
    if i < 0 || i >= s.len() {
        0
    } else {
        spec_leaf_count(s[i]) + spec_leaf_count_forest(s, i + 1)
    }
}

/// How many regular files the tree holds, anywhere in it.
pub open spec fn spec_total_files(t: DirTree) -> int
    decreases t, 0int,
{
    t.files@.len() + spec_total_files_forest(t.subdirs@, 0)
}

/// The files held by the subtrees `s[i..]`.
pub open spec fn spec_total_files_forest(s: Seq<DirTree>, i: int) -> int
    decreases s, s.len() - i,
{
    if i < 0 || i >= s.len() {
        0
    } else {
        spec_total_files(s[i]) + spec_total_files_forest(s, i + 1)
    }
}

/// Every directory of the tree could be listed.
pub open spec fn spec_all_readable(t: DirTree) -> bool
    decreases t,
{
    t.readable && forall|k: int|
        0 <= k < t.subdirs@.len() ==> spec_all_readable(#[trigger] t.subdirs@[k])
}

/// No inner (non-leaf) directory holds regular files directly: files appear
/// at leaves only.
pub open spec fn spec_files_at_leaves_only(t: DirTree) -> bool
    decreases t,
{
    (t.subdirs@.len() > 0 ==> t.files@.len() == 0) && forall|k: int|
        0 <= k < t.subdirs@.len() ==> spec_files_at_leaves_only(#[trigger] t.subdirs@[k])
}

/// Exactly one leaf action is taken per readable leaf: the action list is as
/// long as the tree's readable leaf count, whatever the policy.
pub proof fn lemma_one_action_per_leaf(
    t: DirTree,
    path: Seq<char>,
    parent: Seq<char>,
    mode: SweepMode,
)
    ensures
        spec_actions(t, path, parent, mode).len() == spec_leaf_count(t),
    decreases t, 0int,
{
    if t.readable && t.subdirs@.len() > 0 {
        lemma_one_action_per_leaf_forest(t.subdirs@, path, mode, 0);
    }
}

proof fn lemma_one_action_per_leaf_forest(
    s: Seq<DirTree>,
    parent_path: Seq<char>,
    mode: SweepMode,
    i: int,
)
    ensures
        spec_actions_forest(s, parent_path, mode, i).len() == spec_leaf_count_forest(s, i),
    decreases s, s.len() - i,
{
    if 0 <= i < s.len() {
        lemma_one_action_per_leaf(s[i], parent_path + "/"@ + s[i].name@, parent_path, mode);
        lemma_one_action_per_leaf_forest(s, parent_path, mode, i + 1);
    }
}

/// When every directory could be listed and files appear at leaves only, a
/// sweep visits exactly as many file paths as the tree holds regular files:
/// no file is skipped and none is visited twice.
pub proof fn lemma_visited_counts_all_files(t: DirTree, path: Seq<char>)
    requires
        spec_all_readable(t),
        spec_files_at_leaves_only(t),
    ensures
        spec_visited(t, path).len() == spec_total_files(t),
    decreases t, 0int,
{
    if t.subdirs@.len() == 0 {
        assert(spec_total_files_forest(t.subdirs@, 0) == 0);
    } else {
        lemma_visited_counts_all_files_forest(t.subdirs@, path, 0);
    }
}

proof fn lemma_visited_counts_all_files_forest(s: Seq<DirTree>, parent_path: Seq<char>, i: int)
    requires
        forall|k: int| 0 <= k < s.len() ==> spec_all_readable(#[trigger] s[k]),
        forall|k: int| 0 <= k < s.len() ==> spec_files_at_leaves_only(#[trigger] s[k]),
    ensures
        spec_visited_forest(s, parent_path, i).len() == spec_total_files_forest(s, i),
    decreases s, s.len() - i,
{
    if 0 <= i < s.len() {
        lemma_visited_counts_all_files(s[i], parent_path + "/"@ + s[i].name@);
        lemma_visited_counts_all_files_forest(s, parent_path, i + 1);
    }
}

/// Listing the root failed, so no work could be planned at all.
#[derive(Clone, Copy, PartialEq, Eq, Structural, Debug)]
pub enum TreeReadError {
    Unreadable,
}

/// The outcome of planning a sweep: every visited file path, and the leaf
/// actions to take, in depth-first order.
pub struct SweepPlan {
    pub visited: Vec<String>,
    pub actions: Vec<LeafAction>,
}

/// Plans a sweep of the tree rooted at `path` (whose parent directory is
/// `parent`): the result holds exactly the visited file paths of every
/// readable branch and one policy action per readable leaf, in depth-first
/// order; it is an error exactly when the root itself cannot be listed.
pub fn plan_sweep(t: &DirTree, path: &String, parent: &String, mode: SweepMode) -> (r: Result<
    SweepPlan,
    TreeReadError,
>)
    ensures
        r is Ok <==> t.readable,
        r is Ok ==> r->Ok_0.visited.deep_view() == spec_visited(*t, path@),
        r is Ok ==> r->Ok_0.actions@.map_values(|a: LeafAction| a@) == spec_actions(
            *t,
            path@,
            parent@,
            mode,
        ),
    decreases *t,
{
    if !t.readable {
        return Err(TreeReadError::Unreadable);
    }
    if t.subdirs.len() == 0 {
        let mut visited: Vec<String> = Vec::new();
        let mut i: usize = 0;
        while i < t.files.len()
            invariant
                i <= t.files@.len(),
                visited@.len() == i,
                forall|k: int| 0 <= k < i ==> visited@[k]@ == path@ + "/"@ + t.files@[k].name@,
            decreases t.files@.len() - i,
        {
            visited.push(join_path(path.as_str(), t.files[i].name.as_str()));
            i = i + 1;
        }
        proof {
            assert(visited.deep_view() =~= spec_visited(*t, path@));
        }
        let action = match mode {
            SweepMode::Compress => {
                let no_subdirs: Vec<String> = Vec::new();
                match compress_leaf(path, parent, &t.name, &t.files, &no_subdirs) {
                    Some(a) => LeafAction::Archive(a),
                    None => LeafAction::Keep(path.clone()),
                }
            },
            SweepMode::Clean => {
                let delete_names = clean_selection(&t.files);
                LeafAction::Clean(
                    CleanAction { dir_path: path.clone(), delete_names, total: t.files.len() },
                )
            },
        };
        let mut actions: Vec<LeafAction> = Vec::new();
        actions.push(action);
        proof {
            assert(actions@.map_values(|a: LeafAction| a@) =~= spec_actions(
                *t,
                path@,
                parent@,
                mode,
            ));
        }
        Ok(SweepPlan { visited, actions })
    } else {
        let mut visited: Vec<String> = Vec::new();
        let mut actions: Vec<LeafAction> = Vec::new();
        let mut i: usize = 0;
        while i < t.subdirs.len()
            invariant
                i <= t.subdirs@.len(),
                t.readable,
                t.subdirs@.len() > 0,
                spec_visited(*t, path@) =~= visited.deep_view() + spec_visited_forest(
                    t.subdirs@,
                    path@,
                    i as int,
                ),
                spec_actions(*t, path@, parent@, mode) =~= actions@.map_values(
                    |a: LeafAction| a@,
                ) + spec_actions_forest(t.subdirs@, path@, mode, i as int),
            decreases t.subdirs@.len() - i,
        {
            let sub = &t.subdirs[i];
            let child_path = join_path(path.as_str(), sub.name.as_str());
            let ghost prev_visited = visited.deep_view();
            let ghost prev_actions = actions@.map_values(|a: LeafAction| a@);
            match plan_sweep(sub, &child_path, path, mode) {
                Ok(p) => {
                    let mut pv = p.visited;
                    let mut pa = p.actions;
                    visited.append(&mut pv);
                    actions.append(&mut pa);
                    proof {
                        assert(visited.deep_view() =~= prev_visited + spec_visited(
                            t.subdirs@[i as int],
                            path@ + "/"@ + t.subdirs@[i as int].name@,
                        ));
                        assert(actions@.map_values(|a: LeafAction| a@) =~= prev_actions
                            + spec_actions(
                            t.subdirs@[i as int],
                            path@ + "/"@ + t.subdirs@[i as int].name@,
                            path@,
                            mode,
                        ));
                        assert(spec_visited(*t, path@) =~= visited.deep_view()
                            + spec_visited_forest(t.subdirs@, path@, i + 1));
                        assert(spec_actions(*t, path@, parent@, mode) =~= actions@.map_values(
                            |a: LeafAction| a@,
                        ) + spec_actions_forest(t.subdirs@, path@, mode, i + 1));
                    }
                },
                Err(_) => {
                    proof {
                        assert(spec_visited(
                            t.subdirs@[i as int],
                            path@ + "/"@ + t.subdirs@[i as int].name@,
                        ) =~= Seq::<Seq<char>>::empty());
                        assert(spec_actions(
                            t.subdirs@[i as int],
                            path@ + "/"@ + t.subdirs@[i as int].name@,
                            path@,
                            mode,
                        ) =~= Seq::<LeafActionGhost>::empty());
                        assert(spec_visited(*t, path@) =~= visited.deep_view()
                            + spec_visited_forest(t.subdirs@, path@, i + 1));
                        assert(spec_actions(*t, path@, parent@, mode) =~= actions@.map_values(
                            |a: LeafAction| a@,
                        ) + spec_actions_forest(t.subdirs@, path@, mode, i + 1));
                    }
                },
            }
            i = i + 1;
        }
        proof {
            assert(spec_visited_forest(t.subdirs@, path@, t.subdirs@.len() as int)
                =~= Seq::<Seq<char>>::empty());
            assert(spec_actions_forest(t.subdirs@, path@, mode, t.subdirs@.len() as int)
                =~= Seq::<LeafActionGhost>::empty());
            assert(visited.deep_view() =~= spec_visited(*t, path@));
            assert(actions@.map_values(|a: LeafAction| a@) =~= spec_actions(
                *t,
                path@,
                parent@,
                mode,
            ));
        }
        Ok(SweepPlan { visited, actions })
    }
}

/// A tree is already clean when every directory could be listed and every
/// leaf still holds at least one file, none of which is empty or hidden —
/// exactly the state a successful clean sweep leaves behind (a leaf whose
/// files were all deleted is removed together with its directory).
pub open spec fn spec_tree_clean(t: DirTree) -> bool
    decreases t,
{
    t.readable && if spec_is_leaf(t) {
        t.files@.len() > 0 && forall|k: int|
            0 <= k < t.files@.len() ==> !spec_should_delete(
                (#[trigger] t.files@[k]).name@,
                t.files@[k].size,
            )
    } else {
        forall|k: int| 0 <= k < t.subdirs@.len() ==> spec_tree_clean(#[trigger] t.subdirs@[k])
    }
}

/// A leaf action that neither deletes a file nor removes its directory: a
/// clean action with nothing to delete, in a leaf that still holds files (so
/// the deletion count cannot equal the file count).
pub open spec fn spec_noop_clean(a: LeafActionGhost) -> bool {
    match a {
        LeafActionGhost::Clean(c) => c.delete_names.len() == 0 && c.total > 0,
        _ => false,
    }
}

/// Cleaning is idempotent over a whole tree: on an already-clean tree, every
/// action of a clean sweep deletes zero files and removes zero directories.
pub proof fn lemma_clean_plan_idempotent(t: DirTree, path: Seq<char>, parent: Seq<char>)
    requires
        spec_tree_clean(t),
    ensures
        forall|j: int|
            0 <= j < spec_actions(t, path, parent, SweepMode::Clean).len() ==> spec_noop_clean(
                #[trigger] spec_actions(t, path, parent, SweepMode::Clean)[j],
            ),
    decreases t, 0int,
{
    if spec_is_leaf(t) {
        lemma_no_deletable_no_deletions(t.files@);
        assert forall|j: int|
            0 <= j < spec_actions(t, path, parent, SweepMode::Clean).len() implies spec_noop_clean(
            #[trigger] spec_actions(t, path, parent, SweepMode::Clean)[j],
        ) by {
            assert(spec_actions(t, path, parent, SweepMode::Clean)[j] == spec_leaf_action(
                t,
                path,
                parent,
                SweepMode::Clean,
            ));
        }
    } else {
        lemma_clean_plan_idempotent_forest(t.subdirs@, path, 0);
        assert forall|j: int|
            0 <= j < spec_actions(t, path, parent, SweepMode::Clean).len() implies spec_noop_clean(
            #[trigger] spec_actions(t, path, parent, SweepMode::Clean)[j],
        ) by {
            assert(spec_actions(t, path, parent, SweepMode::Clean)[j] == spec_actions_forest(
                t.subdirs@,
                path,
                SweepMode::Clean,
                0,
            )[j]);
        }
    }
}

proof fn lemma_clean_plan_idempotent_forest(s: Seq<DirTree>, parent_path: Seq<char>, i: int)
    requires
        forall|k: int| 0 <= k < s.len() ==> spec_tree_clean(#[trigger] s[k]),
    ensures
        forall|j: int|
            0 <= j < spec_actions_forest(s, parent_path, SweepMode::Clean, i).len()
                ==> spec_noop_clean(
                #[trigger] spec_actions_forest(s, parent_path, SweepMode::Clean, i)[j],
            ),
    decreases s, s.len() - i,
{
    if 0 <= i < s.len() {
        let child = spec_actions(s[i], parent_path + "/"@ + s[i].name@, parent_path, SweepMode::Clean);
        let rest = spec_actions_forest(s, parent_path, SweepMode::Clean, i + 1);
        lemma_clean_plan_idempotent(s[i], parent_path + "/"@ + s[i].name@, parent_path);
        lemma_clean_plan_idempotent_forest(s, parent_path, i + 1);
        assert forall|j: int| 0 <= j < (child + rest).len() implies spec_noop_clean(
            (child + rest)[j],
        ) by {
            if j < child.len() {
                assert((child + rest)[j] == child[j]);
            } else {
                assert((child + rest)[j] == rest[j - child.len()]);
            }
        }
        assert(spec_actions_forest(s, parent_path, SweepMode::Clean, i) == child + rest);
    }
}

/// What any single action of a compress sweep may be: an archive action for
/// an image-dominant leaf, archiving every one of that leaf's files, or no
/// action at all — never a deletion of files, and never an archive of a leaf
/// whose images do not strictly outnumber its other files.
pub open spec fn spec_compress_action_ok(a: LeafActionGhost) -> bool {
    match a {
        LeafActionGhost::Archive(g) => crate::classify::spec_image_dominant(g.entry_names),
        LeafActionGhost::Keep(_) => true,
        LeafActionGhost::Clean(_) => false,
    }
}

/// A compress sweep archives exactly the image-dominant leaves: every action
/// it plans is either an archive of an image-dominant leaf (with all of that
/// leaf's files as its entries) or leaves the leaf untouched.
pub proof fn lemma_compress_archives_only_image_dominant(
    t: DirTree,
    path: Seq<char>,
    parent: Seq<char>,
)
    ensures
        forall|j: int|
            0 <= j < spec_actions(t, path, parent, SweepMode::Compress).len()
                ==> spec_compress_action_ok(
                #[trigger] spec_actions(t, path, parent, SweepMode::Compress)[j],
            ),
    decreases t, 0int,
{
    if t.readable && spec_is_leaf(t) {
        assert forall|j: int|
            0 <= j < spec_actions(t, path, parent, SweepMode::Compress).len()
                implies spec_compress_action_ok(
            #[trigger] spec_actions(t, path, parent, SweepMode::Compress)[j],
        ) by {
            assert(spec_actions(t, path, parent, SweepMode::Compress)[j] == spec_leaf_action(
                t,
                path,
                parent,
                SweepMode::Compress,
            ));
        }
    } else if t.readable {
        lemma_compress_archives_only_image_dominant_forest(t.subdirs@, path, 0);
        assert forall|j: int|
            0 <= j < spec_actions(t, path, parent, SweepMode::Compress).len()
                implies spec_compress_action_ok(
            #[trigger] spec_actions(t, path, parent, SweepMode::Compress)[j],
        ) by {
            assert(spec_actions(t, path, parent, SweepMode::Compress)[j] == spec_actions_forest(
                t.subdirs@,
                path,
                SweepMode::Compress,
                0,
            )[j]);
        }
    }
}

proof fn lemma_compress_archives_only_image_dominant_forest(
    s: Seq<DirTree>,
    parent_path: Seq<char>,
    i: int,
)
    ensures
        forall|j: int|
            0 <= j < spec_actions_forest(s, parent_path, SweepMode::Compress, i).len()
                ==> spec_compress_action_ok(
                #[trigger] spec_actions_forest(s, parent_path, SweepMode::Compress, i)[j],
            ),
    decreases s, s.len() - i,
{
    if 0 <= i < s.len() {
        let child = spec_actions(
            s[i],
            parent_path + "/"@ + s[i].name@,
            parent_path,
            SweepMode::Compress,
        );
        let rest = spec_actions_forest(s, parent_path, SweepMode::Compress, i + 1);
        lemma_compress_archives_only_image_dominant(
            s[i],
            parent_path + "/"@ + s[i].name@,
            parent_path,
        );
        lemma_compress_archives_only_image_dominant_forest(s, parent_path, i + 1);
        assert forall|j: int| 0 <= j < (child + rest).len() implies spec_compress_action_ok(
            (child + rest)[j],
        ) by {
            if j < child.len() {
                assert((child + rest)[j] == child[j]);
            } else {
                assert((child + rest)[j] == rest[j - child.len()]);
            }
        }
        assert(spec_actions_forest(s, parent_path, SweepMode::Compress, i) == child + rest);
    }
}

} // verus!
