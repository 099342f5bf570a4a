//! The document's mathematical model: the view of a whole document and the
//! first-match lookup of folders and tasks by id, as the operations use it.

use vstd::prelude::*;

use crate::types::FolderView;
use crate::types::TaskFolder;
use crate::types::TaskView;

verus! {

/// The model of a whole document: the views of its folders, in order.
pub open spec fn doc_view(d: Seq<TaskFolder>) -> Seq<FolderView> {
    d.map_values(|f: TaskFolder| f@)
}

/// The index of the first folder with the given id, or -1 if there is none.
pub open spec fn folder_idx(d: Seq<FolderView>, id: Seq<char>) -> int
    decreases d.len(),
{
    if d.len() == 0 {
        -1
    } else if d[0].id == id {
        0
    } else {
        let r = folder_idx(d.skip(1), id);
        if r == -1 {
            -1
        } else {
            r + 1
        }
    }
}

/// Whether the document holds a folder with the given id.
pub open spec fn has_folder(d: Seq<FolderView>, id: Seq<char>) -> bool {
    folder_idx(d, id) >= 0
}

/// The index of the first task with the given id, or -1 if there is none.
pub open spec fn task_idx(ts: Seq<TaskView>, id: Seq<char>) -> int
    decreases ts.len(),
{
    if ts.len() == 0 {
        -1
    } else if ts[0].id == id {
        0
    } else {
        let r = task_idx(ts.skip(1), id);
        if r == -1 {
            -1
        } else {
            r + 1
        }
    }
}

/// Whether the task list holds a task with the given id.
pub open spec fn has_task(ts: Seq<TaskView>, id: Seq<char>) -> bool {
    task_idx(ts, id) >= 0
}

/// `folder_idx` is the first match: it is in bounds and carries the id when
/// it is not -1, nothing before it carries the id, and -1 means nothing does.
pub proof fn lemma_folder_idx(d: Seq<FolderView>, id: Seq<char>)
    ensures
        folder_idx(d, id) == -1 || 0 <= folder_idx(d, id) < d.len(),
        folder_idx(d, id) >= 0 ==> d[folder_idx(d, id)].id == id,
        forall|j: int| 0 <= j < folder_idx(d, id) ==> d[j].id != id,
        folder_idx(d, id) == -1 ==> forall|j: int| 0 <= j < d.len() ==> d[j].id != id,
    decreases d.len(),
{
    if d.len() > 0 && d[0].id != id {
        lemma_folder_idx(d.skip(1), id);
        assert forall|j: int| 0 <= j < folder_idx(d, id) implies d[j].id != id by {
            if j >= 1 {
                assert(d.skip(1)[j - 1] == d[j]);
            }
        }
        if folder_idx(d, id) == -1 {
            assert forall|j: int| 0 <= j < d.len() implies d[j].id != id by {
                if j >= 1 {
                    assert(d.skip(1)[j - 1] == d[j]);
                }
            }
        }
    }
}

/// The first index `i` whose folder carries the id, with nothing matching
/// before it, is exactly `folder_idx`.
pub proof fn lemma_folder_idx_unique(d: Seq<FolderView>, id: Seq<char>, i: int)
    requires
        0 <= i < d.len(),
        d[i].id == id,
        forall|j: int| 0 <= j < i ==> d[j].id != id,
    ensures
        folder_idx(d, id) == i,
{
    lemma_folder_idx(d, id);
    let fi = folder_idx(d, id);
    if fi == -1 {
        assert(d[i].id != id);
    } else if fi < i {
        assert(d[fi].id != id);
    } else if fi > i {
        assert(d[i].id != id);
    }
}

/// `task_idx` is the first match: it is in bounds and carries the id when
/// it is not -1, nothing before it carries the id, and -1 means nothing does.
pub proof fn lemma_task_idx(ts: Seq<TaskView>, id: Seq<char>)
    ensures
        task_idx(ts, id) == -1 || 0 <= task_idx(ts, id) < ts.len(),
        task_idx(ts, id) >= 0 ==> ts[task_idx(ts, id)].id == id,
        forall|j: int| 0 <= j < task_idx(ts, id) ==> ts[j].id != id,
        task_idx(ts, id) == -1 ==> forall|j: int| 0 <= j < ts.len() ==> ts[j].id != id,
    decreases ts.len(),
{
    if ts.len() > 0 && ts[0].id != id {
        lemma_task_idx(ts.skip(1), id);
        assert forall|j: int| 0 <= j < task_idx(ts, id) implies ts[j].id != id by {
            if j >= 1 {
                assert(ts.skip(1)[j - 1] == ts[j]);
            }
        }
        if task_idx(ts, id) == -1 {
            assert forall|j: int| 0 <= j < ts.len() implies ts[j].id != id by {
                if j >= 1 {
                    assert(ts.skip(1)[j - 1] == ts[j]);
                }
            }
        }
    }
}

/// The first index `i` whose task carries the id, with nothing matching
/// before it, is exactly `task_idx`.
pub proof fn lemma_task_idx_unique(ts: Seq<TaskView>, id: Seq<char>, i: int)
    requires
        0 <= i < ts.len(),
        ts[i].id == id,
        forall|j: int| 0 <= j < i ==> ts[j].id != id,
    ensures
        task_idx(ts, id) == i,
{
    lemma_task_idx(ts, id);
    let ti = task_idx(ts, id);
    if ti == -1 {
        assert(ts[i].id != id);
    } else if ti < i {
        assert(ts[ti].id != id);
    } else if ti > i {
        assert(ts[i].id != id);
    }
}

} // verus!
