//! Laws that relate several operations, proved once for every document:
//! applying a flag-flipping operation twice restores the document.

use vstd::prelude::*;

use crate::model::folder_idx;
use crate::model::has_folder;
use crate::model::has_task;
use crate::model::lemma_folder_idx;
use crate::model::lemma_task_idx;
use crate::model::task_idx;
use crate::ops::spec_complete_task;
use crate::ops::spec_toggle_folder_visibility;
use crate::types::FolderView;
use crate::types::TaskView;

verus! {

/// Folder lookup reads only the ids: two documents whose folders carry the
/// same ids positionally give the same index.
pub proof fn lemma_folder_idx_same_ids(a: Seq<FolderView>, b: Seq<FolderView>, id: Seq<char>)
    requires
        a.len() == b.len(),
        forall|j: int| 0 <= j < a.len() ==> a[j].id == b[j].id,
    ensures
        folder_idx(a, id) == folder_idx(b, id),
    decreases a.len(),
{
    if a.len() > 0 && a[0].id != id {
        assert forall|j: int| 0 <= j < a.skip(1).len() implies a.skip(1)[j].id == b.skip(
            1,
        )[j].id by {
            assert(a.skip(1)[j] == a[j + 1]);
            assert(b.skip(1)[j] == b[j + 1]);
        }
        lemma_folder_idx_same_ids(a.skip(1), b.skip(1), id);
    }
}

/// Task lookup reads only the ids: two lists whose tasks carry the same ids
/// positionally give the same index.
pub proof fn lemma_task_idx_same_ids(a: Seq<TaskView>, b: Seq<TaskView>, id: Seq<char>)
    requires
        a.len() == b.len(),
        forall|j: int| 0 <= j < a.len() ==> a[j].id == b[j].id,
    ensures
        task_idx(a, id) == task_idx(b, id),
    decreases a.len(),
{
    if a.len() > 0 && a[0].id != id {
        assert forall|j: int| 0 <= j < a.skip(1).len() implies a.skip(1)[j].id == b.skip(
            1,
        )[j].id by {
            assert(a.skip(1)[j] == a[j + 1]);
            assert(b.skip(1)[j] == b[j + 1]);
        }
        lemma_task_idx_same_ids(a.skip(1), b.skip(1), id);
    }
}

/// Toggling a folder's visibility twice, locating the folder anew for the
/// second call as the operation does, returns the document to its original
/// value.
pub proof fn lemma_toggle_folder_visibility_twice(d: Seq<FolderView>, folder_id: Seq<char>)
    requires
        has_folder(d, folder_id),
    ensures
        ({
            let fi = folder_idx(d, folder_id);
            let d1 = spec_toggle_folder_visibility(d, fi);
            &&& has_folder(d1, folder_id)
            &&& folder_idx(d1, folder_id) == fi
            &&& spec_toggle_folder_visibility(d1, folder_idx(d1, folder_id)) == d
        }),
{
    let fi = folder_idx(d, folder_id);
    lemma_folder_idx(d, folder_id);
    let d1 = spec_toggle_folder_visibility(d, fi);
    assert forall|j: int| 0 <= j < d1.len() implies d1[j].id == d[j].id by {}
    lemma_folder_idx_same_ids(d1, d, folder_id);
    let d2 = spec_toggle_folder_visibility(d1, fi);
    assert(d2[fi] =~= d[fi]);
    assert(d2 =~= d);
}

/// Completing a task twice, locating the folder and the task anew for the
/// second call as the operation does, returns the document to its original
/// value.
pub proof fn lemma_complete_task_twice(d: Seq<FolderView>, folder_id: Seq<char>, task_id: Seq<
    char,
>)
    requires
        has_folder(d, folder_id),
        has_task(d[folder_idx(d, folder_id)].tasks, task_id),
    ensures
        ({
            let fi = folder_idx(d, folder_id);
            let ti = task_idx(d[fi].tasks, task_id);
            let d1 = spec_complete_task(d, fi, ti);
            &&& has_folder(d1, folder_id)
            &&& folder_idx(d1, folder_id) == fi
            &&& has_task(d1[fi].tasks, task_id)
            &&& task_idx(d1[fi].tasks, task_id) == ti
            &&& spec_complete_task(d1, fi, ti) == d
        }),
{
    let fi = folder_idx(d, folder_id);
    lemma_folder_idx(d, folder_id);
    let ti = task_idx(d[fi].tasks, task_id);
    lemma_task_idx(d[fi].tasks, task_id);
    let d1 = spec_complete_task(d, fi, ti);
    assert forall|j: int| 0 <= j < d1.len() implies d1[j].id == d[j].id by {}
    lemma_folder_idx_same_ids(d1, d, folder_id);
    assert forall|j: int| 0 <= j < d1[fi].tasks.len() implies d1[fi].tasks[j].id
        == d[fi].tasks[j].id by {}
    lemma_task_idx_same_ids(d1[fi].tasks, d[fi].tasks, task_id);
    let d2 = spec_complete_task(d1, fi, ti);
    assert(d2[fi].tasks[ti] =~= d[fi].tasks[ti]);
    assert(d2[fi].tasks =~= d[fi].tasks);
    assert(d2[fi] =~= d[fi]);
    assert(d2 =~= d);
}

} // verus!
