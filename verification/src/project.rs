//! Project management: name validation, new projects, and the folders a
//! project watches.
use vstd::prelude::*;

use crate::common::{join2, KnowlixError, Project, Timestamp};
use crate::text::{all_ws, is_blank, trim};

verus! {

/// A project name must not be blank.
pub fn validate_project_name(name: &str) -> (r: Result<(), KnowlixError>)
    ensures
        trim(name@).len() > 0 ==> r is Ok,
        trim(name@).len() == 0 ==> (r matches Err(KnowlixError::Validation(m)) && m@
            == "Project name cannot be empty"@),
{
    if is_blank(name) {
        Err(KnowlixError::Validation(String::from_str("Project name cannot be empty")))
    } else {
        Ok(())
    }
}

/// A new project without folders, created and updated now.
pub fn new_project(id: String, name: String, description: Option<String>, now: Timestamp) -> (p:
    Project)
    ensures
        p.id == id,
        p.name == name,
        p.description == description,
        p.folders@.len() == 0,
        p.created_at == now,
        p.updated_at == now,
{
    Project { id, name, description, folders: Vec::new(), created_at: now, updated_at: now }
}

/// The error for an unknown project id.
pub fn project_not_found(id: &str) -> (e: KnowlixError)
    ensures
        e matches KnowlixError::ProjectNotFound(m) && m@ == id@,
{
    KnowlixError::ProjectNotFound(String::from_str(id))
}

/// The error for a folder path that does not exist.
pub fn missing_path_error(path: &str) -> (e: KnowlixError)
    ensures
        e matches KnowlixError::Validation(m) && m@ == "Path does not exist: "@ + path@,
{
    KnowlixError::Validation(join2("Path does not exist: ", path))
}

pub open spec fn folder_views(fs: Seq<String>) -> Seq<Seq<char>> {
    fs.map_values(|f: String| f@)
}

/// The folders after adding `path`: unchanged when it is already there,
/// otherwise with `path` at the end.
pub open spec fn spec_add_folder(fs: Seq<Seq<char>>, path: Seq<char>) -> Seq<Seq<char>> {
    if fs.contains(path) {
        fs
    } else {
        fs.push(path)
    }
}

/// The folders after removing `path`: every other folder, in order.
pub open spec fn spec_remove_folder(fs: Seq<Seq<char>>, path: Seq<char>) -> Seq<Seq<char>>
    decreases fs.len(),
{
    if fs.len() == 0 {
        fs
    } else {
        let p = spec_remove_folder(fs.drop_last(), path);
        if fs.last() == path {
            p
        } else {
            p.push(fs.last())
        }
    }
}

fn has_folder(fs: &Vec<String>, path: &str) -> (r: bool)
    ensures
        r == folder_views(fs@).contains(path@),
{
    let mut i: usize = 0;
    while i < fs.len()
        invariant
            i <= fs@.len(),
            forall|k: int| 0 <= k < i ==> (#[trigger] fs@[k])@ != path@,
        decreases fs@.len() - i,
    {
        if crate::text::str_eq(fs[i].as_str(), path) {
            proof {
                assert(folder_views(fs@)[i as int] == path@);
            }
            return true;
        }
        i = i + 1;
    }
    proof {
        if folder_views(fs@).contains(path@) {
            let k = choose|k: int| 0 <= k < folder_views(fs@).len() && folder_views(fs@)[k] == path@;
            assert(fs@[k]@ == path@);
        }
    }
    false
}

/// Adds a folder to the project. Returns whether the project changed: a
/// folder it already has is not added twice, and then nothing changes;
/// otherwise the folder is appended and the project is updated now.
pub fn add_folder_to(project: &mut Project, path: &str, now: Timestamp) -> (changed: bool)
    ensures
        folder_views(final(project).folders@) == spec_add_folder(
            folder_views(old(project).folders@),
            path@,
        ),
        changed == !folder_views(old(project).folders@).contains(path@),
        changed ==> final(project).updated_at == now,
        !changed ==> final(project).updated_at == old(project).updated_at,
        final(project).id == old(project).id,
        final(project).name == old(project).name,
        final(project).description == old(project).description,
        final(project).created_at == old(project).created_at,
{
    if has_folder(&project.folders, path) {
        return false;
    }
    let ghost before = project.folders@;
    project.folders.push(String::from_str(path));
    proof {
        assert(folder_views(project.folders@) =~= folder_views(before).push(path@));
    }
    project.updated_at = now;
    true
}

/// Removes every occurrence of a folder from the project, which is updated now.
pub fn remove_folder_from(project: &mut Project, path: &str, now: Timestamp)
    ensures
        folder_views(final(project).folders@) == spec_remove_folder(
            folder_views(old(project).folders@),
            path@,
        ),
        final(project).updated_at == now,
        final(project).id == old(project).id,
        final(project).name == old(project).name,
        final(project).description == old(project).description,
        final(project).created_at == old(project).created_at,
{
    let ghost input = folder_views(project.folders@);
    let mut kept: Vec<String> = Vec::new();
    let mut i: usize = 0;
    while i < project.folders.len()
        invariant
            i <= project.folders@.len(),
            input == folder_views(project.folders@),
            folder_views(kept@) == spec_remove_folder(input.take(i as int), path@),
        decreases project.folders@.len() - i,
    {
        proof {
            assert(input.take(i + 1).drop_last() =~= input.take(i as int));
            assert(input.take(i + 1).last() == project.folders@[i as int]@);
        }
        if !crate::text::str_eq(project.folders[i].as_str(), path) {
            let ghost before = kept@;
            kept.push(project.folders[i].clone());
            proof {
                assert(folder_views(kept@) =~= folder_views(before).push(project.folders@[i as int]@));
            }
        }
        i = i + 1;
    }
    proof {
        assert(input.take(i as int) =~= input);
    }
    project.folders = kept;
    project.updated_at = now;
}

/// Whether renaming to `name` needs a check that the name is free: only
/// when the name changes.
pub fn rename_needs_check(project: &Project, name: &str) -> (r: bool)
    ensures
        r == (project.name@ != name@),
{
    !crate::text::str_eq(project.name.as_str(), name)
}

/// Gives the project its new name and description, updated now.
pub fn apply_project_update(project: &mut Project, name: String, description: Option<String>, now: Timestamp)
    ensures
        final(project).name == name,
        final(project).description == description,
        final(project).updated_at == now,
        final(project).id == old(project).id,
        final(project).folders == old(project).folders,
        final(project).created_at == old(project).created_at,
{
    project.name = name;
    project.description = description;
    project.updated_at = now;
}

/// Adding a folder twice is adding it once, and afterwards the project has it.
pub proof fn lemma_add_folder_idempotent(fs: Seq<Seq<char>>, path: Seq<char>)
    ensures
        spec_add_folder(spec_add_folder(fs, path), path) == spec_add_folder(fs, path),
        spec_add_folder(fs, path).contains(path),
{
    if !fs.contains(path) {
        assert(fs.push(path)[fs.len() as int] == path);
    }
}

/// After removing a folder the project no longer has it, and every other
/// folder it had is still there.
pub proof fn lemma_remove_folder(fs: Seq<Seq<char>>, path: Seq<char>)
    ensures
        !spec_remove_folder(fs, path).contains(path),
        forall|f: Seq<char>| fs.contains(f) && f != path ==> spec_remove_folder(fs, path).contains(f),
        forall|f: Seq<char>| spec_remove_folder(fs, path).contains(f) ==> fs.contains(f),
    decreases fs.len(),
{
    if fs.len() > 0 {
        let t = fs.drop_last();
        lemma_remove_folder(t, path);
        let p = spec_remove_folder(t, path);
        let r = spec_remove_folder(fs, path);
        assert forall|f: Seq<char>| fs.contains(f) && f != path implies r.contains(f) by {
            let k = choose|k: int| 0 <= k < fs.len() && fs[k] == f;
            if k < t.len() {
                assert(t[k] == f);
                assert(t.contains(f));
                assert(p.contains(f));
                let j = choose|j: int| 0 <= j < p.len() && p[j] == f;
                if fs.last() != path {
                    assert(r == p.push(fs.last()));
                    assert(r[j] == f);
                } else {
                    assert(r == p);
                }
            } else {
                assert(r[r.len() - 1] == f);
            }
        }
        assert forall|f: Seq<char>| r.contains(f) implies fs.contains(f) by {
            let j = choose|j: int| 0 <= j < r.len() && r[j] == f;
            if j < p.len() {
                assert(p[j] == f);
                assert(p.contains(f));
                assert(t.contains(f));
                let k = choose|k: int| 0 <= k < t.len() && t[k] == f;
                assert(fs[k] == f);
            } else {
                assert(fs.last() != path);
                assert(r == p.push(fs.last()));
                assert(fs[fs.len() - 1] == f);
            }
        }
        if r.contains(path) {
            let j = choose|j: int| 0 <= j < r.len() && r[j] == path;
            if j < p.len() {
                assert(p[j] == path);
            }
        }
    }
}

/// Removing a folder that was just added gives back the folders from before,
/// when the project did not have it.
pub proof fn lemma_remove_undoes_add(fs: Seq<Seq<char>>, path: Seq<char>)
    requires
        !fs.contains(path),
    ensures
        spec_remove_folder(spec_add_folder(fs, path), path) == fs,
{
    lemma_remove_absent(fs, path);
    assert(fs.push(path).drop_last() =~= fs);
}

proof fn lemma_remove_absent(fs: Seq<Seq<char>>, path: Seq<char>)
    requires
        !fs.contains(path),
    ensures
        spec_remove_folder(fs, path) == fs,
    decreases fs.len(),
{
    if fs.len() > 0 {
        let t = fs.drop_last();
        assert forall|k: int| 0 <= k < t.len() implies t[k] != path by {
            assert(t[k] == fs[k]);
        }
        lemma_remove_absent(t, path);
        assert(fs.last() == fs[fs.len() - 1]);
        assert(t.push(fs.last()) =~= fs);
    }
}

} // verus!
