use vstd::prelude::*;
use vstd::string::StrSliceExecFns;
use vstd::string::StringExecFns;

use crate::archive::Entry;
use crate::archive::EntryV;
use crate::archive::is_dir_entry;
use crate::fs_model::Action;
use crate::fs_model::ActionV;
use crate::fs_model::FsModel;
use crate::fs_model::actions_view;
use crate::fs_model::apply;
use crate::fs_model::apply_all;
use crate::fs_model::file_at;
use crate::fs_model::lemma_apply_all_append;
use crate::fs_model::lemma_apply_all_one;
use crate::fs_model::lemma_apply_all_push;
use crate::fs_model::lemma_apply_all_two;
use crate::paths::join_path;
use crate::paths::joined;
use crate::paths::lemma_joined_parent_some;
use crate::paths::lemma_joined_strictly_under;
use crate::paths::parent_of;
use crate::paths::parent_seq;
use crate::paths::strictly_under;

verus! {

/// The view of an entry sequence, element by element.
pub open spec fn entries_view(s: Seq<Entry>) -> Seq<EntryV> {
    Seq::new(s.len(), |i: int| s[i]@)
}

/// Where an entry lands: its sanitized path resolved against the
/// destination root.
pub open spec fn entry_path(root: Seq<char>, e: EntryV) -> Seq<char> {
    joined(root, e.mangled)
}

/// What extracting one entry does: a directory marker becomes one directory
/// creation; a file entry becomes a creation of its parent directory followed
/// by the write of its payload.
pub open spec fn entry_actions(root: Seq<char>, e: EntryV) -> Seq<ActionV> {
    if is_dir_entry(e) {
        seq![ActionV::MkDirAll(entry_path(root, e))]
    } else {
        seq![
            ActionV::MkDirAll(parent_seq(entry_path(root, e)).unwrap()),
            ActionV::WriteFile(entry_path(root, e), e.data),
        ]
    }
}

/// The whole extraction plan: the entries' actions, in archive order.
pub open spec fn extract_plan(root: Seq<char>, entries: Seq<EntryV>) -> Seq<ActionV>
    decreases entries.len(),
{
    if entries.len() == 0 {
        Seq::empty()
    } else {
        extract_plan(root, entries.drop_last()) + entry_actions(root, entries.last())
    }
}

/// The files the entries describe, resolved against the root, with a later
/// entry overwriting an earlier one at the same path.
pub open spec fn resolved_files(root: Seq<char>, entries: Seq<EntryV>) -> Map<Seq<char>, Seq<u8>>
    decreases entries.len(),
{
    if entries.len() == 0 {
        Map::empty()
    } else {
        let m = resolved_files(root, entries.drop_last());
        let e = entries.last();
        if is_dir_entry(e) {
            m
        } else {
            m.insert(entry_path(root, e), e.data)
        }
    }
}

/// Creating directories never changes an existing node, never makes a file,
/// and puts the requested path into the tree.
proof fn lemma_mkdir_effect(fs: FsModel, p: Seq<char>, k: Seq<char>)
    ensures
        fs.dom().contains(k) ==> apply(fs, ActionV::MkDirAll(p)).dom().contains(k) && apply(
            fs,
            ActionV::MkDirAll(p),
        )[k] == fs[k],
        file_at(apply(fs, ActionV::MkDirAll(p)), k) == file_at(fs, k),
        apply(fs, ActionV::MkDirAll(p)).dom().contains(p),
{
}

/// After running an extraction plan, the files of the tree are exactly the
/// resolved files laid over whatever files were there before; nothing that
/// existed disappears; and every entry's resolved path, and every file
/// entry's parent directory, is present.
pub proof fn lemma_extract_files(fs: FsModel, root: Seq<char>, entries: Seq<EntryV>)
    ensures
        ({
            let m = apply_all(fs, extract_plan(root, entries));
            let files = resolved_files(root, entries);
            &&& forall|k: Seq<char>|
                #![auto]
                file_at(m, k) == if files.dom().contains(k) {
                    Some(files[k])
                } else {
                    file_at(fs, k)
                }
            &&& forall|k: Seq<char>| #![auto]
                fs.dom().contains(k) ==> m.dom().contains(k)
            &&& forall|i: int|
                #![auto]
                0 <= i < entries.len() ==> m.dom().contains(entry_path(root, entries[i]))
            &&& forall|i: int|
                #![auto]
                0 <= i < entries.len() && !is_dir_entry(entries[i]) ==> m.dom().contains(
                    parent_seq(entry_path(root, entries[i])).unwrap(),
                )
        }),
    decreases entries.len(),
{
    if entries.len() == 0 {
    } else {
        let pre = entries.drop_last();
        let e = entries.last();
        lemma_extract_files(fs, root, pre);
        lemma_apply_all_append(fs, extract_plan(root, pre), entry_actions(root, e));
        let m1 = apply_all(fs, extract_plan(root, pre));
        let m = apply_all(fs, extract_plan(root, entries));
        let files = resolved_files(root, entries);
        assert(forall|i: int| 0 <= i < pre.len() ==> pre[i] == entries[i]);
        if is_dir_entry(e) {
            lemma_apply_all_one(m1, ActionV::MkDirAll(entry_path(root, e)));
            assert forall|k: Seq<char>| #![auto]
                file_at(m, k) == if files.dom().contains(k) {
                    Some(files[k])
                } else {
                    file_at(fs, k)
                } by {
                lemma_mkdir_effect(m1, entry_path(root, e), k);
            }
            assert forall|k: Seq<char>| #![auto] m1.dom().contains(k) implies m.dom().contains(
                k,
            ) by {
                lemma_mkdir_effect(m1, entry_path(root, e), k);
            }
            lemma_mkdir_effect(m1, entry_path(root, e), entry_path(root, e));
        } else {
            let par = parent_seq(entry_path(root, e)).unwrap();
            let key = entry_path(root, e);
            lemma_apply_all_two(m1, ActionV::MkDirAll(par), ActionV::WriteFile(key, e.data));
            let m2 = apply(m1, ActionV::MkDirAll(par));
            assert forall|k: Seq<char>| #![auto]
                file_at(m, k) == if files.dom().contains(k) {
                    Some(files[k])
                } else {
                    file_at(fs, k)
                } by {
                lemma_mkdir_effect(m1, par, k);
            }
            assert forall|k: Seq<char>| #![auto] m1.dom().contains(k) implies m.dom().contains(
                k,
            ) by {
                lemma_mkdir_effect(m1, par, k);
            }
            lemma_mkdir_effect(m1, par, par);
        }
    }
}

/// For an archive extracted into an empty destination root, the files of the
/// resulting tree are exactly the archive's resolved file entries with
/// exactly their bytes, the last entry winning a path collision, and every
/// directory marker is present as a node of the tree.
pub proof fn lemma_round_trip(root: Seq<char>, entries: Seq<EntryV>)
    ensures
        ({
            let m = apply_all(Map::empty(), extract_plan(root, entries));
            let files = resolved_files(root, entries);
            &&& forall|k: Seq<char>|
                #![auto]
                file_at(m, k) == if files.dom().contains(k) {
                    Some(files[k])
                } else {
                    None::<Seq<u8>>
                }
            &&& forall|i: int|
                #![auto]
                0 <= i < entries.len() ==> m.dom().contains(entry_path(root, entries[i]))
        }),
{
    lemma_extract_files(Map::empty(), root, entries);
}

/// Extraction touches nothing outside the destination root: a node whose
/// path is not strictly below the root keeps its place and its value.
pub proof fn lemma_extract_preserves_outside(fs: FsModel, root: Seq<char>, entries: Seq<EntryV>)
    ensures
        forall|k: Seq<char>|
            #![auto]
            fs.dom().contains(k) && !strictly_under(root, k) ==> {
                let m = apply_all(fs, extract_plan(root, entries));
                m.dom().contains(k) && m[k] == fs[k]
            },
    decreases entries.len(),
{
    if entries.len() == 0 {
    } else {
        let pre = entries.drop_last();
        let e = entries.last();
        lemma_extract_preserves_outside(fs, root, pre);
        lemma_apply_all_append(fs, extract_plan(root, pre), entry_actions(root, e));
        let m1 = apply_all(fs, extract_plan(root, pre));
        let m = apply_all(fs, extract_plan(root, entries));
        lemma_joined_strictly_under(root, e.mangled);
        if is_dir_entry(e) {
            lemma_apply_all_one(m1, ActionV::MkDirAll(entry_path(root, e)));
            assert forall|k: Seq<char>| #![auto]
                fs.dom().contains(k) && !strictly_under(root, k) implies m.dom().contains(k)
                && m[k] == fs[k] by {
                lemma_mkdir_effect(m1, entry_path(root, e), k);
            }
        } else {
            let par = parent_seq(entry_path(root, e)).unwrap();
            let key = entry_path(root, e);
            lemma_apply_all_two(m1, ActionV::MkDirAll(par), ActionV::WriteFile(key, e.data));
            assert forall|k: Seq<char>| #![auto]
                fs.dom().contains(k) && !strictly_under(root, k) implies m.dom().contains(k)
                && m[k] == fs[k] by {
                lemma_mkdir_effect(m1, par, k);
                assert(strictly_under(root, key));
                assert(k != key);
            }
        }
    }
}

/// Extracting with cleanup leaves the source archive in place until the
/// final step, which removes it; without that step a source that is not
/// below the destination root survives unchanged.
pub proof fn lemma_cleanup_removes_source(
    fs: FsModel,
    root: Seq<char>,
    entries: Seq<EntryV>,
    source: Seq<char>,
)
    requires
        !strictly_under(root, source),
    ensures
        ({
            let m0 = apply_all(fs, extract_plan(root, entries));
            let m1 = apply_all(
                fs,
                extract_plan(root, entries).push(ActionV::RemoveFile(source)),
            );
            &&& fs.dom().contains(source) ==> m0.dom().contains(source) && m0[source] == fs[source]
            &&& !m1.dom().contains(source)
        }),
{
    lemma_extract_preserves_outside(fs, root, entries);
    lemma_apply_all_push(fs, extract_plan(root, entries), ActionV::RemoveFile(source));
}

/// Whether a declared entry name marks a directory: it ends in the
/// separator.
pub fn is_dir_name(name: &str) -> (b: bool)
    ensures
        b == (name@.len() > 0 && name@.last() == '/'),
{
    let n = name.unicode_len();
    if n == 0 {
        false
    } else {
        name.get_char(n - 1) == '/'
    }
}

/// Build the plan that extracts one entry into `dest_root`: the directory a
/// marker names, or a file entry's parent directory followed by the write of
/// its payload.
pub fn entry_extract_actions(dest_root: &str, entry: &Entry) -> (plan: Vec<Action>)
    ensures
        actions_view(plan@) == entry_actions(dest_root@, entry@),
{
    let mut plan: Vec<Action> = Vec::new();
    let p = join_path(dest_root, &entry.mangled);
    if is_dir_name(&entry.name) {
        plan.push(Action::MkDirAll(p));
    } else {
        proof {
            lemma_joined_parent_some(dest_root@, entry.mangled@);
        }
        let par = match parent_of(&p) {
            Some(par) => par,
            None => {
                proof {
                    assert(false);
                }
                String::new()
            },
        };
        plan.push(Action::MkDirAll(par));
        plan.push(Action::WriteFile(p, entry.data.clone()));
    }
    proof {
        assert(actions_view(plan@) =~= entry_actions(dest_root@, entry@));
    }
    plan
}

/// Build the plan that extracts `entries` into `dest_root`, and, when
/// `cleanup_source` is set, removes the source archive file as the final
/// step, after every entry has been placed.
pub fn extract_actions(
    dest_root: &str,
    entries: &Vec<Entry>,
    cleanup_source: bool,
    source: &str,
) -> (plan: Vec<Action>)
    ensures
        cleanup_source ==> actions_view(plan@) == extract_plan(
            dest_root@,
            entries_view(entries@),
        ).push(ActionV::RemoveFile(source@)),
        !cleanup_source ==> actions_view(plan@) == extract_plan(dest_root@, entries_view(entries@)),
{
    let mut plan: Vec<Action> = Vec::new();
    let mut i: usize = 0;
    proof {
        assert(entries_view(entries@.subrange(0, 0)) =~= Seq::<EntryV>::empty());
        assert(actions_view(plan@) =~= Seq::<ActionV>::empty());
    }
    while i < entries.len()
        invariant
            i <= entries.len(),
            actions_view(plan@) == extract_plan(
                dest_root@,
                entries_view(entries@.subrange(0, i as int)),
            ),
        decreases entries.len() - i,
    {
        let ghost pre = entries_view(entries@.subrange(0, i as int));
        let ghost post = entries_view(entries@.subrange(0, i + 1 as int));
        proof {
            assert(post.drop_last() =~= pre);
            assert(post.last() == entries@[i as int]@);
        }
        let e = &entries[i];
        let mut entry_plan = entry_extract_actions(dest_root, e);
        plan.append(&mut entry_plan);
        proof {
            assert(actions_view(plan@) =~= extract_plan(dest_root@, pre) + entry_actions(
                dest_root@,
                post.last(),
            ));
        }
        i = i + 1;
    }
    proof {
        assert(entries@.subrange(0, entries@.len() as int) =~= entries@);
    }
    if cleanup_source {
        plan.push(Action::RemoveFile(String::from_str(source)));
        proof {
            assert(actions_view(plan@) =~= extract_plan(
                dest_root@,
                entries_view(entries@),
            ).push(ActionV::RemoveFile(source@)));
        }
    }
    plan
}

} // verus!
