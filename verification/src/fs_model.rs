use vstd::prelude::*;
use vstd::string::StringExecFns;

use crate::paths::under;

verus! {

/// One node of the modelled filesystem tree: a directory, or a file with its
/// byte contents.
pub enum Node {
    Dir,
    File(Seq<u8>),
}

/// A filesystem action, as the library plans it.  The executable side carries
/// paths as strings and payloads as byte vectors.
#[derive(Debug, Clone, PartialEq, Eq)]
pub enum Action {
    /// Create the directory and every missing ancestor.
    MkDirAll(String),
    /// Create or truncate the file and write the payload.
    WriteFile(String, Vec<u8>),
    /// Remove the directory and everything below it.
    RemoveDir(String),
    /// Remove the single file.
    RemoveFile(String),
    /// Remove whatever sits at the path: a directory recursively, a file on
    /// its own, nothing when the path is absent.
    RemovePath(String),
}

/// The mathematical form of an action: paths as character sequences,
/// payloads as byte sequences.
pub enum ActionV {
    MkDirAll(Seq<char>),
    WriteFile(Seq<char>, Seq<u8>),
    RemoveDir(Seq<char>),
    RemoveFile(Seq<char>),
    RemovePath(Seq<char>),
}

impl View for Action {
    type V = ActionV;

    open spec fn view(&self) -> ActionV {
        match self {
            Action::MkDirAll(p) => ActionV::MkDirAll(p@),
            Action::WriteFile(p, d) => ActionV::WriteFile(p@, d@),
            Action::RemoveDir(p) => ActionV::RemoveDir(p@),
            Action::RemoveFile(p) => ActionV::RemoveFile(p@),
            Action::RemovePath(p) => ActionV::RemovePath(p@),
        }
    }
}

/// The filesystem, modelled as a map from full paths to nodes.
pub type FsModel = Map<Seq<char>, Node>;

/// Remove the node at `t` together with everything below it; absence is
/// tolerated.
pub open spec fn remove_tree(fs: FsModel, t: Seq<char>) -> FsModel {
    Map::new(|k: Seq<char>| fs.dom().contains(k) && !under(t, k), |k: Seq<char>| fs[k])
}

/// What one action does to the modelled filesystem.  Creating directories
/// adds a directory node at the path and at every ancestor, leaving existing
/// nodes untouched; writing a file overwrites whatever the path held.
pub open spec fn apply(fs: FsModel, a: ActionV) -> FsModel {
    match a {
        ActionV::MkDirAll(p) => Map::new(
            |k: Seq<char>| fs.dom().contains(k) || under(k, p),
            |k: Seq<char>| if fs.dom().contains(k) { fs[k] } else { Node::Dir },
        ),
        ActionV::WriteFile(p, d) => fs.insert(p, Node::File(d)),
        ActionV::RemoveDir(p) => remove_tree(fs, p),
        ActionV::RemoveFile(p) => fs.remove(p),
        ActionV::RemovePath(p) => remove_tree(fs, p),
    }
}

/// Run a whole plan, first action first.
pub open spec fn apply_all(fs: FsModel, acts: Seq<ActionV>) -> FsModel
    decreases acts.len(),
{
    if acts.len() == 0 {
        fs
    } else {
        apply_all(apply(fs, acts[0]), acts.skip(1))
    }
}

/// The bytes of the file at `k`, or `None` when `k` is absent or a directory.
pub open spec fn file_at(fs: FsModel, k: Seq<char>) -> Option<Seq<u8>> {
    if fs.dom().contains(k) {
        match fs[k] {
            Node::File(d) => Some(d),
            Node::Dir => None,
        }
    } else {
        None
    }
}

/// Running two plans one after the other is running their concatenation.
pub proof fn lemma_apply_all_append(fs: FsModel, a: Seq<ActionV>, b: Seq<ActionV>)
    ensures
        apply_all(fs, a + b) == apply_all(apply_all(fs, a), b),
    decreases a.len(),
{
    if a.len() == 0 {
        assert(a + b =~= b);
    } else {
        assert((a + b)[0] == a[0]);
        assert((a + b).skip(1) =~= a.skip(1) + b);
        lemma_apply_all_append(apply(fs, a[0]), a.skip(1), b);
    }
}

/// One more action at the end of a plan is one more application at the end.
pub proof fn lemma_apply_all_push(fs: FsModel, acts: Seq<ActionV>, a: ActionV)
    ensures
        apply_all(fs, acts.push(a)) == apply(apply_all(fs, acts), a),
{
    assert(acts.push(a) =~= acts + seq![a]);
    lemma_apply_all_append(fs, acts, seq![a]);
    let m = apply_all(fs, acts);
    let s1 = seq![a];
    assert(s1[0] == a);
    assert(s1.skip(1).len() == 0);
    assert(apply_all(apply(m, a), s1.skip(1)) == apply(m, a));
    assert(apply_all(m, s1) == apply_all(apply(m, s1[0]), s1.skip(1)));
}

/// A plan of one action does that one action.
pub proof fn lemma_apply_all_one(fs: FsModel, a: ActionV)
    ensures
        apply_all(fs, seq![a]) == apply(fs, a),
{
    assert(seq![a][0] == a);
    assert(seq![a].skip(1).len() == 0);
    assert(apply_all(apply(fs, a), seq![a].skip(1)) == apply(fs, a));
}

/// A plan of two actions does them in order.
pub proof fn lemma_apply_all_two(fs: FsModel, a: ActionV, b: ActionV)
    ensures
        apply_all(fs, seq![a, b]) == apply(apply(fs, a), b),
{
    assert(seq![a, b][0] == a);
    assert(seq![a, b].skip(1) =~= seq![b]);
    lemma_apply_all_one(apply(fs, a), b);
}

/// The view of an action sequence, element by element.
pub open spec fn actions_view(s: Seq<Action>) -> Seq<ActionV> {
    Seq::new(s.len(), |i: int| s[i]@)
}

/// The one action a generic delete performs: remove whatever sits at the
/// path, tolerating its absence.
pub fn remove_path_action(path: &str) -> (a: Action)
    ensures
        a@ == ActionV::RemovePath(path@),
{
    Action::RemovePath(String::from_str(path))
}

/// Removing a path is idempotent: the second removal changes nothing, and
/// after either removal the path is gone.
pub proof fn lemma_remove_idempotent(fs: FsModel, p: Seq<char>)
    ensures
        apply(apply(fs, ActionV::RemovePath(p)), ActionV::RemovePath(p)) == apply(
            fs,
            ActionV::RemovePath(p),
        ),
        !apply(fs, ActionV::RemovePath(p)).dom().contains(p),
{
    assert(apply(apply(fs, ActionV::RemovePath(p)), ActionV::RemovePath(p)) =~= apply(
        fs,
        ActionV::RemovePath(p),
    ));
}

} // verus!
