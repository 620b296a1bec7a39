use vstd::prelude::*;
use vstd::string::StringExecFns;

use crate::fs_model::Action;
use crate::fs_model::ActionV;
use crate::fs_model::FsModel;
use crate::fs_model::Node;
use crate::fs_model::actions_view;
use crate::fs_model::apply_all;
use crate::fs_model::lemma_apply_all_one;
use crate::fs_model::lemma_apply_all_two;
use crate::paths::lemma_parent_shorter;
use crate::paths::parent_of;
use crate::paths::parent_seq;

verus! {

/// The plan that persists a fetched payload at `dest`: create the missing
/// parent directories, then write the bytes, overwriting anything there.  A
/// destination without a separator has no parent to create.
pub open spec fn download_plan(dest: Seq<char>, body: Seq<u8>) -> Seq<ActionV> {
    match parent_seq(dest) {
        Some(p) => seq![ActionV::MkDirAll(p), ActionV::WriteFile(dest, body)],
        None => seq![ActionV::WriteFile(dest, body)],
    }
}

/// Build the plan that persists `body` at `dest_path`.
pub fn download_actions(dest_path: &str, body: &Vec<u8>) -> (plan: Vec<Action>)
    ensures
        actions_view(plan@) == download_plan(dest_path@, body@),
{
    let mut plan: Vec<Action> = Vec::new();
    match parent_of(dest_path) {
        Some(par) => {
            plan.push(Action::MkDirAll(par));
        },
        None => {},
    }
    plan.push(Action::WriteFile(String::from_str(dest_path), body.clone()));
    proof {
        assert(actions_view(plan@) =~= download_plan(dest_path@, body@));
    }
    plan
}

/// Persisting a download leaves the destination holding exactly the fetched
/// bytes, and its parent directory, when the path names one, exists
/// afterwards even when it did not before.
pub proof fn lemma_download_creates(fs: FsModel, dest: Seq<char>, body: Seq<u8>)
    ensures
        ({
            let m = apply_all(fs, download_plan(dest, body));
            &&& m.dom().contains(dest)
            &&& m[dest] == Node::File(body)
            &&& parent_seq(dest) matches Some(p) ==> m.dom().contains(p) && (!fs.dom().contains(p)
                ==> m[p] == Node::Dir)
        }),
{
    match parent_seq(dest) {
        Some(p) => {
            lemma_parent_shorter(dest);
            lemma_apply_all_two(fs, ActionV::MkDirAll(p), ActionV::WriteFile(dest, body));
        },
        None => {
            lemma_apply_all_one(fs, ActionV::WriteFile(dest, body));
        },
    }
}

} // verus!
