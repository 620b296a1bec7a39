use vstd::prelude::*;
use vstd::string::StringExecFns;

use crate::fs_model::Action;
use crate::fs_model::ActionV;
use crate::fs_model::FsModel;
use crate::fs_model::actions_view;
use crate::fs_model::apply;
use crate::fs_model::apply_all;
use crate::fs_model::lemma_apply_all_push;
use crate::paths::join_path;
use crate::paths::joined;
use crate::paths::under;

verus! {

/// The fixed footprint the bundled runtime installs under a destination
/// root: each target's relative name, tagged `true` for a directory target
/// and `false` for a file target.
pub open spec fn footprint_spec() -> Seq<(Seq<char>, bool)> {
    seq![
        ("BepInEx"@, true),
        (".doorstop_version"@, false),
        ("changelog.txt"@, false),
        ("doorstop_config.ini"@, false),
        ("winhttp.dll"@, false),
        ("winhttp.disabled"@, false),
    ]
}

/// The footprint as executable data, for callers that show or execute it.
pub fn footprint_targets() -> (r: Vec<(String, bool)>)
    ensures
        r@.len() == footprint_spec().len(),
        forall|i: int|
            0 <= i < r@.len() ==> (#[trigger] r@[i]).0@ == footprint_spec()[i].0 && r@[i].1
                == footprint_spec()[i].1,
{
    let mut v: Vec<(String, bool)> = Vec::new();
    v.push((String::from_str("BepInEx"), true));
    v.push((String::from_str(".doorstop_version"), false));
    v.push((String::from_str("changelog.txt"), false));
    v.push((String::from_str("doorstop_config.ini"), false));
    v.push((String::from_str("winhttp.dll"), false));
    v.push((String::from_str("winhttp.disabled"), false));
    v
}

/// The one removal a target asks for: recursive for a directory target, a
/// single file otherwise.
pub open spec fn target_action(root: Seq<char>, t: (Seq<char>, bool)) -> ActionV {
    if t.1 {
        ActionV::RemoveDir(joined(root, t.0))
    } else {
        ActionV::RemoveFile(joined(root, t.0))
    }
}

/// The removal plan for a sequence of tagged targets under `root`.
pub open spec fn targets_plan(root: Seq<char>, ts: Seq<(Seq<char>, bool)>) -> Seq<ActionV> {
    Seq::new(ts.len(), |i: int| target_action(root, ts[i]))
}

/// The plan that removes the fixed runtime footprint under `root`.
pub open spec fn footprint_plan(root: Seq<char>) -> Seq<ActionV> {
    targets_plan(root, footprint_spec())
}

/// Whether one tagged target accounts for the path `k`: a directory target
/// covers itself and everything below it, a file target only itself.
pub open spec fn covered_by_target(root: Seq<char>, t: (Seq<char>, bool), k: Seq<char>) -> bool {
    if t.1 {
        under(joined(root, t.0), k)
    } else {
        k == joined(root, t.0)
    }
}

/// Whether some target of the sequence accounts for the path `k`.
pub open spec fn covered_by_targets(
    root: Seq<char>,
    ts: Seq<(Seq<char>, bool)>,
    k: Seq<char>,
) -> bool {
    exists|i: int| 0 <= i < ts.len() && covered_by_target(root, ts[i], k)
}

/// Whether the fixed footprint accounts for the path `k`.
pub open spec fn covered_by_footprint(root: Seq<char>, k: Seq<char>) -> bool {
    covered_by_targets(root, footprint_spec(), k)
}

/// Build the plan that removes the fixed runtime footprint under
/// `dest_root`, one removal per target, in the footprint's order.
pub fn footprint_actions(dest_root: &str) -> (plan: Vec<Action>)
    ensures
        actions_view(plan@) == footprint_plan(dest_root@),
{
    let targets = footprint_targets();
    let mut plan: Vec<Action> = Vec::new();
    let mut i: usize = 0;
    while i < targets.len()
        invariant
            i <= targets.len(),
            targets@.len() == footprint_spec().len(),
            forall|j: int|
                0 <= j < targets@.len() ==> (#[trigger] targets@[j]).0@ == footprint_spec()[j].0
                    && targets@[j].1 == footprint_spec()[j].1,
            plan@.len() == i,
            forall|j: int| 0 <= j < i ==> (#[trigger] plan@[j])@ == footprint_plan(dest_root@)[j],
        decreases targets.len() - i,
    {
        let t = &targets[i];
        let p = join_path(dest_root, t.0.as_str());
        proof {
            assert(targets@[i as int].0@ == footprint_spec()[i as int].0);
            assert(targets@[i as int].1 == footprint_spec()[i as int].1);
            assert(p@ == joined(dest_root@, footprint_spec()[i as int].0));
        }
        if t.1 {
            plan.push(Action::RemoveDir(p));
        } else {
            plan.push(Action::RemoveFile(p));
        }
        proof {
            assert(plan@[i as int]@ == target_action(dest_root@, footprint_spec()[i as int]));
        }
        i = i + 1;
    }
    proof {
        assert(actions_view(plan@) =~= footprint_plan(dest_root@));
    }
    plan
}

/// Removing a sequence of targets deletes exactly the paths the targets
/// cover and leaves every other node in place with its value.
pub proof fn lemma_targets_selective(fs: FsModel, root: Seq<char>, ts: Seq<(Seq<char>, bool)>)
    ensures
        forall|k: Seq<char>|
            #![trigger apply_all(fs, targets_plan(root, ts)).dom().contains(k)]
            #![trigger covered_by_targets(root, ts, k)]
            apply_all(fs, targets_plan(root, ts)).dom().contains(k) <==> (fs.dom().contains(k)
                && !covered_by_targets(root, ts, k)),
        forall|k: Seq<char>|
            #![trigger apply_all(fs, targets_plan(root, ts))[k]]
            apply_all(fs, targets_plan(root, ts)).dom().contains(k) ==> apply_all(
                fs,
                targets_plan(root, ts),
            )[k] == fs[k],
    decreases ts.len(),
{
    if ts.len() == 0 {
        assert(targets_plan(root, ts).len() == 0);
        assert(forall|k: Seq<char>| !covered_by_targets(root, ts, k));
    } else {
        let pre = ts.drop_last();
        let last = ts.last();
        lemma_targets_selective(fs, root, pre);
        assert(targets_plan(root, ts) =~= targets_plan(root, pre).push(target_action(root, last)));
        lemma_apply_all_push(fs, targets_plan(root, pre), target_action(root, last));
        let m1 = apply_all(fs, targets_plan(root, pre));
        let m = apply(m1, target_action(root, last));
        assert forall|k: Seq<char>|
            covered_by_targets(root, ts, k) <==> (covered_by_targets(root, pre, k)
                || covered_by_target(root, last, k)) by {
            if covered_by_targets(root, ts, k) {
                let i = choose|i: int| 0 <= i < ts.len() && covered_by_target(root, ts[i], k);
                if i < pre.len() {
                    assert(pre[i] == ts[i]);
                    assert(covered_by_targets(root, pre, k));
                }
            }
            if covered_by_targets(root, pre, k) {
                let i = choose|i: int| 0 <= i < pre.len() && covered_by_target(root, pre[i], k);
                assert(ts[i] == pre[i]);
                assert(covered_by_targets(root, ts, k));
            }
            if covered_by_target(root, last, k) {
                assert(covered_by_target(root, ts[ts.len() - 1], k));
                assert(covered_by_targets(root, ts, k));
            }
        }
    }
}

/// Footprint removal is selective: it deletes exactly the paths the fixed
/// footprint covers under `root` and leaves every other node untouched.
pub proof fn lemma_footprint_selective(fs: FsModel, root: Seq<char>)
    ensures
        forall|k: Seq<char>|
            #![trigger apply_all(fs, footprint_plan(root)).dom().contains(k)]
            #![trigger covered_by_footprint(root, k)]
            apply_all(fs, footprint_plan(root)).dom().contains(k) <==> (fs.dom().contains(k)
                && !covered_by_footprint(root, k)),
        forall|k: Seq<char>|
            #![trigger apply_all(fs, footprint_plan(root))[k]]
            apply_all(fs, footprint_plan(root)).dom().contains(k) ==> apply_all(
                fs,
                footprint_plan(root),
            )[k] == fs[k],
{
    lemma_targets_selective(fs, root, footprint_spec());
    assert(footprint_plan(root) == targets_plan(root, footprint_spec()));
    assert forall|k: Seq<char>|
        apply_all(fs, footprint_plan(root)).dom().contains(k) <==> (fs.dom().contains(k)
            && !covered_by_footprint(root, k)) by {
        assert(apply_all(fs, targets_plan(root, footprint_spec())).dom().contains(k) <==> (
        fs.dom().contains(k) && !covered_by_targets(root, footprint_spec(), k)));
    }
    assert forall|k: Seq<char>|
        apply_all(fs, footprint_plan(root)).dom().contains(k) implies apply_all(
        fs,
        footprint_plan(root),
    )[k] == fs[k] by {
        assert(apply_all(fs, targets_plan(root, footprint_spec())).dom().contains(k));
        assert(apply_all(fs, targets_plan(root, footprint_spec()))[k] == fs[k]);
    }
}

/// The pinned release asset the fixed-runtime install fetches.
pub fn runtime_archive_url() -> (r: String)
    ensures
        r@
            == "https://github.com/BepInEx/BepInEx/releases/download/v5.4.23.3/BepInEx_win_x64_5.4.23.3.zip"@,
{
    String::from_str(
        "https://github.com/BepInEx/BepInEx/releases/download/v5.4.23.3/BepInEx_win_x64_5.4.23.3.zip",
    )
}

/// The file name the fetched runtime archive is parked under before
/// extraction.
pub fn runtime_archive_file_name() -> (r: String)
    ensures
        r@ == "bepinex.zip"@,
{
    String::from_str("bepinex.zip")
}

/// The message reported when the fixed runtime was installed.
pub fn install_done_message() -> (r: String)
    ensures
        r@ == "Downloaded and Extracted Bepinex"@,
{
    String::from_str("Downloaded and Extracted Bepinex")
}

/// The message reported when the footprint was removed from `dest_root`.
pub fn removal_done_message(dest_root: &str) -> (r: String)
    ensures
        r@ == "Cleaned modding files from "@ + dest_root@,
{
    let mut s = String::from_str("Cleaned modding files from ");
    s.append(dest_root);
    s
}

} // verus!
