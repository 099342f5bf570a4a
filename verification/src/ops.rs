//! The catalog of whole-document mutations. Every operation locates its
//! target by id (first match), applies one change, and reports `NotFound`,
//! `ValidationError`, or success exactly as its contract states; on any
//! failure the document is unchanged.

use vstd::prelude::*;

use crate::model::doc_view;
use crate::model::folder_idx;
use crate::model::has_folder;
use crate::model::has_task;
use crate::model::lemma_folder_idx;
use crate::model::lemma_folder_idx_unique;
use crate::model::lemma_task_idx;
use crate::model::lemma_task_idx_unique;
use crate::model::task_idx;
use crate::types::DocError;
use crate::types::FolderView;
use crate::types::Task;
use crate::types::TaskFolder;
use crate::types::TaskView;
use crate::types::tasks_view;

verus! {

/// The views of a list of id strings, in order.
pub open spec fn ids_view(ids: Seq<String>) -> Seq<Seq<char>> {
    ids.map_values(|s: String| s@)
}

/// The task list with every task carrying the given id removed.
pub open spec fn without_task(ts: Seq<TaskView>, id: Seq<char>) -> Seq<TaskView> {
    ts.filter(|t: TaskView| t.id != id)
}

/// The document with every folder carrying the given id removed.
pub open spec fn without_folder(d: Seq<FolderView>, id: Seq<char>) -> Seq<FolderView> {
    d.filter(|f: FolderView| f.id != id)
}

/// The document after the folder at `fi` has the task at `ti` replaced by `t`.
pub open spec fn with_task(d: Seq<FolderView>, fi: int, ti: int, t: TaskView) -> Seq<FolderView> {
    d.update(fi, (FolderView { tasks: d[fi].tasks.update(ti, t), ..d[fi] }))
}

/// The document after `complete_task` flips the completion flag of the task
/// at `ti` in the folder at `fi`.
pub open spec fn spec_complete_task(d: Seq<FolderView>, fi: int, ti: int) -> Seq<FolderView> {
    with_task(d, fi, ti, (TaskView { completed: !d[fi].tasks[ti].completed, ..d[fi].tasks[ti] }))
}

/// The document after `toggle_folder_visibility` flips the folder at `fi`.
pub open spec fn spec_toggle_folder_visibility(d: Seq<FolderView>, fi: int) -> Seq<FolderView> {
    d.update(fi, (FolderView { visible: !d[fi].visible, ..d[fi] }))
}

/// A folder's deep copy under a new folder id, its tasks carrying the
/// caller-supplied new ids positionally.
pub open spec fn spec_folder_clone(f: FolderView, new_id: Seq<char>, ids: Seq<Seq<char>>) -> FolderView {
    FolderView {
        id: new_id,
        tasks: Seq::new(f.tasks.len(), |i: int| (TaskView { id: ids[i], ..f.tasks[i] })),
        ..f
    }
}

/// The document after the task at `ti` of the folder at `fi` moves to
/// position `at` of the same list (the caller clamps `at`).
pub open spec fn spec_move_task_order(d: Seq<FolderView>, fi: int, ti: int, at: int) -> Seq<
    FolderView,
> {
    let t = d[fi].tasks[ti];
    d.update(fi, (FolderView { tasks: d[fi].tasks.remove(ti).insert(at, t), ..d[fi] }))
}

/// The document after the task at `ti` of the folder at `fi` moves to the
/// end of the folder at `di` (which may equal `fi`).
pub open spec fn spec_move_task_to_folder(d: Seq<FolderView>, fi: int, di: int, ti: int) -> Seq<
    FolderView,
> {
    let t = d[fi].tasks[ti];
    let d1 = d.update(fi, (FolderView { tasks: d[fi].tasks.remove(ti), ..d[fi] }));
    d1.update(di, (FolderView { tasks: d1[di].tasks.push(t), ..d1[di] }))
}

/// The index of the first folder with the given id, if any.
pub fn find_folder_index(doc: &Vec<TaskFolder>, folder_id: &String) -> (r: Option<usize>)
    ensures
        (match r {
            Some(i) => i < doc.len() && folder_idx(doc_view(doc@), folder_id@) == i as int,
            None => folder_idx(doc_view(doc@), folder_id@) == -1,
        }),
{
    let ghost dv = doc_view(doc@);
    let mut i: usize = 0;
    while i < doc.len()
        invariant
            i <= doc.len(),
            dv == doc_view(doc@),
            dv.len() == doc.len(),
            forall|j: int| 0 <= j < i ==> dv[j].id != folder_id@,
        decreases doc.len() - i,
    {
        if doc[i].id == *folder_id {
            proof {
                lemma_folder_idx_unique(dv, folder_id@, i as int);
            }
            return Some(i);
        }
        i += 1;
    }
    proof {
        lemma_folder_idx(dv, folder_id@);
    }
    None
}

/// The index of the first task with the given id, if any.
pub fn find_task_index(tasks: &Vec<Task>, task_id: &String) -> (r: Option<usize>)
    ensures
        (match r {
            Some(i) => i < tasks.len() && task_idx(tasks_view(tasks@), task_id@)
                == i as int,
            None => task_idx(tasks_view(tasks@), task_id@) == -1,
        }),
{
    let ghost tv = tasks_view(tasks@);
    let mut i: usize = 0;
    while i < tasks.len()
        invariant
            i <= tasks.len(),
            tv == tasks_view(tasks@),
            tv.len() == tasks.len(),
            forall|j: int| 0 <= j < i ==> tv[j].id != task_id@,
        decreases tasks.len() - i,
    {
        if tasks[i].id == *task_id {
            proof {
                lemma_task_idx_unique(tv, task_id@, i as int);
            }
            return Some(i);
        }
        i += 1;
    }
    proof {
        lemma_task_idx(tv, task_id@);
    }
    None
}

/// A copy of a task, equal in the model.
pub fn clone_task(t: &Task) -> (r: Task)
    ensures
        r@ == t@,
{
    Task {
        text: t.text.clone(),
        colour: t.colour.clone(),
        completed: t.completed,
        id: t.id.clone(),
    }
}

/// A copy of a task list, equal in the model.
pub fn clone_tasks(ts: &Vec<Task>) -> (r: Vec<Task>)
    ensures
        tasks_view(r@) == tasks_view(ts@),
{
    let mut out: Vec<Task> = Vec::new();
    let mut i: usize = 0;
    while i < ts.len()
        invariant
            i <= ts.len(),
            out@.len() == i,
            tasks_view(out@) == tasks_view(ts@.take(i as int)),
        decreases ts.len() - i,
    {
        let c = clone_task(&ts[i]);
        let ghost pre = out@;
        out.push(c);
        proof {
            assert forall|j: int| 0 <= j <= i implies tasks_view(out@)[j] == tasks_view(
                ts@.take(i + 1),
            )[j] by {
                if j < i {
                    assert(out@[j] == pre[j]);
                    assert(tasks_view(pre)[j] == tasks_view(ts@.take(i as int))[j]);
                    assert(ts@.take(i as int)[j] == ts@[j]);
                } else {
                    assert(out@[j] == c);
                }
                assert(ts@.take(i + 1)[j] == ts@[j]);
            }
            assert(tasks_view(out@) =~= tasks_view(ts@.take(i + 1)));
        }
        i += 1;
    }
    proof {
        assert(ts@.take(ts@.len() as int) =~= ts@);
    }
    out
}

/// Appends a new folder with the given id, name, colour, and geometry, an
/// empty task list, and `visible` set. This layer does not check the id
/// against the folders already present: the caller supplies unique ids.
pub fn create_folder(
    doc: &mut Vec<TaskFolder>,
    folder_name: String,
    folder_id: String,
    folder_color: String,
    folder_width: i32,
    folder_height: i32,
    folder_pos_x: i32,
    folder_pos_y: i32,
    folder_zindex: i32,
)
    ensures
        doc_view(final(doc)@) == doc_view(old(doc)@).push(
            (FolderView {
                id: folder_id@,
                name: folder_name@,
                colour: folder_color@,
                visible: true,
                tasks: Seq::<TaskView>::empty(),
                width: folder_width as int,
                height: folder_height as int,
                x: folder_pos_x as int,
                y: folder_pos_y as int,
                zindex: folder_zindex as int,
            }),
        ),
{
    let folder = TaskFolder {
        name: folder_name,
        id: folder_id,
        colour: folder_color,
        visible: true,
        tasks: Vec::new(),
        width: folder_width,
        height: folder_height,
        x: folder_pos_x,
        y: folder_pos_y,
        zindex: folder_zindex,
    };
    proof {
        assert(folder@.tasks =~= Seq::<TaskView>::empty());
    }
    doc.push(folder);
    proof {
        assert(doc_view(doc@) =~= doc_view(old(doc)@).push(doc@.last()@));
    }
}

/// Appends the given task to the folder identified by `folder_id`;
/// `NotFound` if no folder carries that id, leaving the document unchanged.
pub fn create_task(doc: &mut Vec<TaskFolder>, t: Task, folder_id: String) -> (r: Result<
    (),
    DocError,
>)
    ensures
        ({
            let d0 = doc_view(old(doc)@);
            let d1 = doc_view(final(doc)@);
            let fi = folder_idx(d0, folder_id@);
            if has_folder(d0, folder_id@) {
                &&& r == Ok::<(), DocError>(())
                &&& d1 == d0.update(fi, (FolderView { tasks: d0[fi].tasks.push(t@), ..d0[fi] }))
            } else {
                &&& r == Err::<(), DocError>(DocError::NotFound)
                &&& d1 == d0
            }
        }),
{
    let ghost d0 = doc_view(old(doc)@);
    match find_folder_index(doc, &folder_id) {
        Some(fi) => {
            let ghost tv = t@;
            doc[fi].tasks.push(t);
            proof {
                let fii = fi as int;
                assert(doc@[fii]@.tasks =~= d0[fii].tasks.push(tv));
                assert(doc@[fii]@ =~= (FolderView { tasks: d0[fii].tasks.push(tv), ..d0[fii] }));
                assert(doc_view(doc@) =~= d0.update(
                    fii,
                    (FolderView { tasks: d0[fii].tasks.push(tv), ..d0[fii] }),
                ));
            }
            Ok(())
        },
        None => Err(DocError::NotFound),
    }
}

/// A copy of a folder, equal in the model.
pub fn clone_folder(f: &TaskFolder) -> (r: TaskFolder)
    ensures
        r@ == f@,
{
    let r = TaskFolder {
        id: f.id.clone(),
        name: f.name.clone(),
        colour: f.colour.clone(),
        visible: f.visible,
        tasks: clone_tasks(&f.tasks),
        width: f.width,
        height: f.height,
        x: f.x,
        y: f.y,
        zindex: f.zindex,
    };
    proof {
        assert(r@ =~= f@);
    }
    r
}

/// A task list kept all, in order: filtering by an id that no task carries
/// changes nothing.
pub proof fn lemma_without_task_absent(ts: Seq<TaskView>, id: Seq<char>)
    requires
        !has_task(ts, id),
    ensures
        without_task(ts, id) == ts,
{
    lemma_task_idx(ts, id);
    lemma_filter_tasks_all_kept(ts, id);
}

proof fn lemma_filter_tasks_all_kept(ts: Seq<TaskView>, id: Seq<char>)
    requires
        forall|j: int| 0 <= j < ts.len() ==> ts[j].id != id,
    ensures
        without_task(ts, id) == ts,
    decreases ts.len(),
{
    reveal(Seq::filter);
    if ts.len() > 0 {
        let pre = ts.drop_last();
        lemma_filter_tasks_all_kept(pre, id);
        assert(without_task(ts, id) =~= ts);
    } else {
        assert(without_task(ts, id) =~= ts);
    }
}

/// A document kept all, in order: filtering by an id that no folder carries
/// changes nothing.
pub proof fn lemma_without_folder_absent(d: Seq<FolderView>, id: Seq<char>)
    requires
        !has_folder(d, id),
    ensures
        without_folder(d, id) == d,
{
    lemma_folder_idx(d, id);
    lemma_filter_folders_all_kept(d, id);
}

proof fn lemma_filter_folders_all_kept(d: Seq<FolderView>, id: Seq<char>)
    requires
        forall|j: int| 0 <= j < d.len() ==> d[j].id != id,
    ensures
        without_folder(d, id) == d,
    decreases d.len(),
{
    reveal(Seq::filter);
    if d.len() > 0 {
        let pre = d.drop_last();
        lemma_filter_folders_all_kept(pre, id);
        assert(without_folder(d, id) =~= d);
    } else {
        assert(without_folder(d, id) =~= d);
    }
}

/// Flips the completion flag of the identified task; `NotFound` if the
/// folder or the task is absent, leaving the document unchanged.
pub fn complete_task(doc: &mut Vec<TaskFolder>, task_id: String, folder_id: String) -> (r: Result<
    (),
    DocError,
>)
    ensures
        ({
            let d0 = doc_view(old(doc)@);
            let d1 = doc_view(final(doc)@);
            let fi = folder_idx(d0, folder_id@);
            if has_folder(d0, folder_id@) && has_task(d0[fi].tasks, task_id@) {
                &&& r == Ok::<(), DocError>(())
                &&& d1 == spec_complete_task(d0, fi, task_idx(d0[fi].tasks, task_id@))
            } else {
                &&& r == Err::<(), DocError>(DocError::NotFound)
                &&& d1 == d0
            }
        }),
{
    let ghost d0 = doc_view(old(doc)@);
    match find_folder_index(doc, &folder_id) {
        Some(fi) => {
            match find_task_index(&doc[fi].tasks, &task_id) {
                Some(ti) => {
                    let was = doc[fi].tasks[ti].completed;
                    doc[fi].tasks[ti].completed = !was;
                    proof {
                        let fii = fi as int;
                        let tii = ti as int;
                        assert(doc@[fii]@.tasks =~= d0[fii].tasks.update(
                            tii,
                            (TaskView { completed: !was, ..d0[fii].tasks[tii] }),
                        ));
                        assert(doc@[fii]@ =~= (FolderView {
                            tasks: d0[fii].tasks.update(
                                tii,
                                (TaskView { completed: !was, ..d0[fii].tasks[tii] }),
                            ),
                            ..d0[fii]
                        }));
                        assert(doc_view(doc@) =~= spec_complete_task(d0, fii, tii));
                    }
                    Ok(())
                },
                None => Err(DocError::NotFound),
            }
        },
        None => Err(DocError::NotFound),
    }
}

/// Removes every task carrying the given id from the identified folder
/// (an absent task id is a no-op, not an error); `NotFound` if the folder
/// is absent, leaving the document unchanged.
pub fn delete_task(doc: &mut Vec<TaskFolder>, task_id: String, folder_id: String) -> (r: Result<
    (),
    DocError,
>)
    ensures
        ({
            let d0 = doc_view(old(doc)@);
            let d1 = doc_view(final(doc)@);
            let fi = folder_idx(d0, folder_id@);
            if has_folder(d0, folder_id@) {
                &&& r == Ok::<(), DocError>(())
                &&& d1 == d0.update(
                    fi,
                    (FolderView { tasks: without_task(d0[fi].tasks, task_id@), ..d0[fi] }),
                )
                &&& !has_task(d0[fi].tasks, task_id@) ==> d1 == d0
            } else {
                &&& r == Err::<(), DocError>(DocError::NotFound)
                &&& d1 == d0
            }
        }),
{
    let ghost d0 = doc_view(old(doc)@);
    match find_folder_index(doc, &folder_id) {
        Some(fi) => {
            let kept = retain_tasks(&doc[fi].tasks, &task_id);
            doc[fi].tasks = kept;
            proof {
                let fii = fi as int;
                assert(doc@[fii]@ =~= (FolderView {
                    tasks: without_task(d0[fii].tasks, task_id@),
                    ..d0[fii]
                }));
                assert(doc_view(doc@) =~= d0.update(fii, doc@[fii]@));
                if !has_task(d0[fii].tasks, task_id@) {
                    lemma_without_task_absent(d0[fii].tasks, task_id@);
                    assert(doc_view(doc@) =~= d0);
                }
            }
            Ok(())
        },
        None => Err(DocError::NotFound),
    }
}

/// The tasks of `ts` that do not carry the given id, in order, as copies.
fn retain_tasks(ts: &Vec<Task>, task_id: &String) -> (r: Vec<Task>)
    ensures
        tasks_view(r@) == without_task(tasks_view(ts@), task_id@),
{
    let mut out: Vec<Task> = Vec::new();
    let mut i: usize = 0;
    while i < ts.len()
        invariant
            i <= ts.len(),
            tasks_view(out@) == without_task(tasks_view(ts@.take(i as int)), task_id@),
        decreases ts.len() - i,
    {
        proof {
            reveal(Seq::filter);
            assert(tasks_view(ts@.take(i + 1)) =~= tasks_view(ts@.take(i as int)).push(
                ts@[i as int]@,
            ));
            assert(tasks_view(ts@.take(i + 1)).drop_last() =~= tasks_view(ts@.take(i as int)));
        }
        if ts[i].id != *task_id {
            out.push(clone_task(&ts[i]));
        }
        proof {
            reveal(Seq::filter);
            assert(tasks_view(out@) =~= without_task(tasks_view(ts@.take(i + 1)), task_id@));
        }
        i += 1;
    }
    proof {
        assert(ts@.take(ts@.len() as int) =~= ts@);
    }
    out
}

/// Deep-copies the identified task under the caller-supplied new id and
/// appends it to the same folder's list; `NotFound` if the folder or the
/// task is absent, leaving the document unchanged.
pub fn duplicate_task(
    doc: &mut Vec<TaskFolder>,
    task_id: String,
    clone_task_id: String,
    folder_id: String,
) -> (r: Result<(), DocError>)
    ensures
        ({
            let d0 = doc_view(old(doc)@);
            let d1 = doc_view(final(doc)@);
            let fi = folder_idx(d0, folder_id@);
            let ti = task_idx(d0[fi].tasks, task_id@);
            if has_folder(d0, folder_id@) && has_task(d0[fi].tasks, task_id@) {
                &&& r == Ok::<(), DocError>(())
                &&& d1 == d0.update(
                    fi,
                    (FolderView {
                        tasks: d0[fi].tasks.push(
                            (TaskView { id: clone_task_id@, ..d0[fi].tasks[ti] }),
                        ),
                        ..d0[fi]
                    }),
                )
            } else {
                &&& r == Err::<(), DocError>(DocError::NotFound)
                &&& d1 == d0
            }
        }),
{
    let ghost d0 = doc_view(old(doc)@);
    match find_folder_index(doc, &folder_id) {
        Some(fi) => {
            match find_task_index(&doc[fi].tasks, &task_id) {
                Some(ti) => {
                    let mut c = clone_task(&doc[fi].tasks[ti]);
                    c.id = clone_task_id;
                    doc[fi].tasks.push(c);
                    proof {
                        let fii = fi as int;
                        assert(doc@[fii]@.tasks =~= d0[fii].tasks.push(doc@[fii].tasks@.last()@));
                        assert(doc@[fii]@ =~= (FolderView {
                            tasks: d0[fii].tasks.push(doc@[fii].tasks@.last()@),
                            ..d0[fii]
                        }));
                        assert(doc_view(doc@) =~= d0.update(fii, doc@[fii]@));
                    }
                    Ok(())
                },
                None => Err(DocError::NotFound),
            }
        },
        None => Err(DocError::NotFound),
    }
}

/// Deep-copies the identified folder under the caller-supplied new folder
/// id, its tasks carrying the supplied new task ids positionally, and
/// appends the copy to the document. `ValidationError` if the count of
/// supplied task ids differs from the folder's task count, `NotFound` if
/// the folder is absent; on either failure the document is unchanged.
pub fn duplicate_folder(
    doc: &mut Vec<TaskFolder>,
    folder_id: String,
    folder_clone_id: String,
    task_clone_ids: Vec<String>,
) -> (r: Result<(), DocError>)
    ensures
        ({
            let d0 = doc_view(old(doc)@);
            let d1 = doc_view(final(doc)@);
            let fi = folder_idx(d0, folder_id@);
            if has_folder(d0, folder_id@) {
                if d0[fi].tasks.len() == task_clone_ids@.len() {
                    &&& r == Ok::<(), DocError>(())
                    &&& d1 == d0.push(
                        spec_folder_clone(d0[fi], folder_clone_id@, ids_view(task_clone_ids@)),
                    )
                } else {
                    &&& r == Err::<(), DocError>(DocError::ValidationError)
                    &&& d1 == d0
                }
            } else {
                &&& r == Err::<(), DocError>(DocError::NotFound)
                &&& d1 == d0
            }
        }),
{
    let ghost d0 = doc_view(old(doc)@);
    match find_folder_index(doc, &folder_id) {
        Some(fi) => {
            let ghost fii = fi as int;
            proof {
                assert(d0[fii].tasks.len() == doc@[fii].tasks@.len());
            }
            if doc[fi].tasks.len() != task_clone_ids.len() {
                return Err(DocError::ValidationError);
            }
            let ghost cid = folder_clone_id@;
            let mut cf = clone_folder(&doc[fi]);
            cf.id = folder_clone_id;
            let mut i: usize = 0;
            while i < task_clone_ids.len()
                invariant
                    i <= task_clone_ids.len(),
                    cf.tasks@.len() == task_clone_ids@.len() == d0[fii].tasks.len(),
                    0 <= fii < d0.len(),
                    cf.id@ == cid,
                    cf.name@ == d0[fii].name,
                    cf.colour@ == d0[fii].colour,
                    cf.visible == d0[fii].visible,
                    cf.width as int == d0[fii].width,
                    cf.height as int == d0[fii].height,
                    cf.x as int == d0[fii].x,
                    cf.y as int == d0[fii].y,
                    cf.zindex as int == d0[fii].zindex,
                    forall|j: int| i <= j < cf.tasks@.len() ==> cf.tasks@[j]@ == d0[fii].tasks[j],
                    forall|j: int|
                        0 <= j < i ==> cf.tasks@[j]@ == (TaskView {
                            id: ids_view(task_clone_ids@)[j],
                            ..d0[fii].tasks[j]
                        }),
                decreases task_clone_ids.len() - i,
            {
                let nid = task_clone_ids[i].clone();
                cf.tasks[i].id = nid;
                i += 1;
            }
            proof {
                assert(cf@ =~= spec_folder_clone(d0[fii], cid, ids_view(task_clone_ids@)));
            }
            doc.push(cf);
            proof {
                assert(doc_view(doc@) =~= d0.push(doc@.last()@));
            }
            Ok(())
        },
        None => Err(DocError::NotFound),
    }
}

/// Replaces the text and colour of the identified task; `NotFound` if the
/// folder or the task is absent, leaving the document unchanged.
pub fn edit_task(
    doc: &mut Vec<TaskFolder>,
    task_id: String,
    folder_id: String,
    new_text: String,
    new_colour: String,
) -> (r: Result<(), DocError>)
    ensures
        ({
            let d0 = doc_view(old(doc)@);
            let d1 = doc_view(final(doc)@);
            let fi = folder_idx(d0, folder_id@);
            let ti = task_idx(d0[fi].tasks, task_id@);
            if has_folder(d0, folder_id@) && has_task(d0[fi].tasks, task_id@) {
                &&& r == Ok::<(), DocError>(())
                &&& d1 == with_task(
                    d0,
                    fi,
                    ti,
                    (TaskView { text: new_text@, colour: new_colour@, ..d0[fi].tasks[ti] }),
                )
            } else {
                &&& r == Err::<(), DocError>(DocError::NotFound)
                &&& d1 == d0
            }
        }),
{
    let ghost d0 = doc_view(old(doc)@);
    match find_folder_index(doc, &folder_id) {
        Some(fi) => {
            match find_task_index(&doc[fi].tasks, &task_id) {
                Some(ti) => {
                    doc[fi].tasks[ti].text = new_text;
                    doc[fi].tasks[ti].colour = new_colour;
                    proof {
                        let fii = fi as int;
                        let tii = ti as int;
                        assert(doc@[fii]@.tasks =~= d0[fii].tasks.update(
                            tii,
                            doc@[fii].tasks@[tii]@,
                        ));
                        assert(doc@[fii]@ =~= (FolderView {
                            tasks: d0[fii].tasks.update(tii, doc@[fii].tasks@[tii]@),
                            ..d0[fii]
                        }));
                        assert(doc_view(doc@) =~= with_task(d0, fii, tii, doc@[fii].tasks@[tii]@));
                    }
                    Ok(())
                },
                None => Err(DocError::NotFound),
            }
        },
        None => Err(DocError::NotFound),
    }
}

/// Replaces the name and colour of the identified folder; `NotFound` if it
/// is absent, leaving the document unchanged.
pub fn edit_folder(
    doc: &mut Vec<TaskFolder>,
    folder_id: String,
    new_name: String,
    new_colour: String,
) -> (r: Result<(), DocError>)
    ensures
        ({
            let d0 = doc_view(old(doc)@);
            let d1 = doc_view(final(doc)@);
            let fi = folder_idx(d0, folder_id@);
            if has_folder(d0, folder_id@) {
                &&& r == Ok::<(), DocError>(())
                &&& d1 == d0.update(
                    fi,
                    (FolderView { name: new_name@, colour: new_colour@, ..d0[fi] }),
                )
            } else {
                &&& r == Err::<(), DocError>(DocError::NotFound)
                &&& d1 == d0
            }
        }),
{
    let ghost d0 = doc_view(old(doc)@);
    match find_folder_index(doc, &folder_id) {
        Some(fi) => {
            doc[fi].name = new_name;
            doc[fi].colour = new_colour;
            proof {
                let fii = fi as int;
                assert(doc@[fii]@ =~= (FolderView {
                    name: doc@[fii].name@,
                    colour: doc@[fii].colour@,
                    ..d0[fii]
                }));
                assert(doc_view(doc@) =~= d0.update(fii, doc@[fii]@));
            }
            Ok(())
        },
        None => Err(DocError::NotFound),
    }
}

/// Replaces the width and height of the identified folder; `NotFound` if it
/// is absent, leaving the document unchanged.
pub fn resize_folder(
    doc: &mut Vec<TaskFolder>,
    folder_id: String,
    new_width: i32,
    new_height: i32,
) -> (r: Result<(), DocError>)
    ensures
        ({
            let d0 = doc_view(old(doc)@);
            let d1 = doc_view(final(doc)@);
            let fi = folder_idx(d0, folder_id@);
            if has_folder(d0, folder_id@) {
                &&& r == Ok::<(), DocError>(())
                &&& d1 == d0.update(
                    fi,
                    (FolderView {
                        width: new_width as int,
                        height: new_height as int,
                        ..d0[fi]
                    }),
                )
            } else {
                &&& r == Err::<(), DocError>(DocError::NotFound)
                &&& d1 == d0
            }
        }),
{
    let ghost d0 = doc_view(old(doc)@);
    match find_folder_index(doc, &folder_id) {
        Some(fi) => {
            doc[fi].width = new_width;
            doc[fi].height = new_height;
            proof {
                let fii = fi as int;
                assert(doc@[fii]@ =~= (FolderView {
                    width: new_width as int,
                    height: new_height as int,
                    ..d0[fii]
                }));
                assert(doc_view(doc@) =~= d0.update(fii, doc@[fii]@));
            }
            Ok(())
        },
        None => Err(DocError::NotFound),
    }
}

/// Replaces the canvas position of the identified folder; `NotFound` if it
/// is absent, leaving the document unchanged.
pub fn move_folder(doc: &mut Vec<TaskFolder>, folder_id: String, x: i32, y: i32) -> (r: Result<
    (),
    DocError,
>)
    ensures
        ({
            let d0 = doc_view(old(doc)@);
            let d1 = doc_view(final(doc)@);
            let fi = folder_idx(d0, folder_id@);
            if has_folder(d0, folder_id@) {
                &&& r == Ok::<(), DocError>(())
                &&& d1 == d0.update(fi, (FolderView { x: x as int, y: y as int, ..d0[fi] }))
            } else {
                &&& r == Err::<(), DocError>(DocError::NotFound)
                &&& d1 == d0
            }
        }),
{
    let ghost d0 = doc_view(old(doc)@);
    match find_folder_index(doc, &folder_id) {
        Some(fi) => {
            doc[fi].x = x;
            doc[fi].y = y;
            proof {
                let fii = fi as int;
                assert(doc@[fii]@ =~= (FolderView { x: x as int, y: y as int, ..d0[fii] }));
                assert(doc_view(doc@) =~= d0.update(fii, doc@[fii]@));
            }
            Ok(())
        },
        None => Err(DocError::NotFound),
    }
}

/// Removes the identified task from its position and reinserts it at the
/// given index, clamped to the end of the list; `NotFound` if the folder or
/// the task is absent, leaving the document unchanged.
pub fn move_task_order(
    doc: &mut Vec<TaskFolder>,
    task_id: String,
    folder_id: String,
    new_index: usize,
) -> (r: Result<(), DocError>)
    ensures
        ({
            let d0 = doc_view(old(doc)@);
            let d1 = doc_view(final(doc)@);
            let fi = folder_idx(d0, folder_id@);
            let ti = task_idx(d0[fi].tasks, task_id@);
            let clamped = if new_index < d0[fi].tasks.len() - 1 {
                new_index as int
            } else {
                d0[fi].tasks.len() - 1
            };
            if has_folder(d0, folder_id@) && has_task(d0[fi].tasks, task_id@) {
                &&& r == Ok::<(), DocError>(())
                &&& d1 == spec_move_task_order(d0, fi, ti, clamped)
            } else {
                &&& r == Err::<(), DocError>(DocError::NotFound)
                &&& d1 == d0
            }
        }),
{
    let ghost d0 = doc_view(old(doc)@);
    match find_folder_index(doc, &folder_id) {
        Some(fi) => {
            match find_task_index(&doc[fi].tasks, &task_id) {
                Some(ti) => {
                    let ghost fii = fi as int;
                    let ghost tii = ti as int;
                    let t = doc[fi].tasks.remove(ti);
                    let rest = doc[fi].tasks.len();
                    let at = if new_index < rest {
                        new_index
                    } else {
                        rest
                    };
                    doc[fi].tasks.insert(at, t);
                    proof {
                        assert(doc@[fii]@.tasks =~= d0[fii].tasks.remove(tii).insert(
                            at as int,
                            d0[fii].tasks[tii],
                        ));
                        assert(doc@[fii]@ =~= (FolderView {
                            tasks: d0[fii].tasks.remove(tii).insert(at as int, d0[fii].tasks[tii]),
                            ..d0[fii]
                        }));
                        assert(doc_view(doc@) =~= spec_move_task_order(d0, fii, tii, at as int));
                    }
                    Ok(())
                },
                None => Err(DocError::NotFound),
            }
        },
        None => Err(DocError::NotFound),
    }
}

/// Flips the visibility flag of the identified folder; `NotFound` if it is
/// absent, leaving the document unchanged.
pub fn toggle_folder_visibility(doc: &mut Vec<TaskFolder>, folder_id: String) -> (r: Result<
    (),
    DocError,
>)
    ensures
        ({
            let d0 = doc_view(old(doc)@);
            let d1 = doc_view(final(doc)@);
            let fi = folder_idx(d0, folder_id@);
            if has_folder(d0, folder_id@) {
                &&& r == Ok::<(), DocError>(())
                &&& d1 == spec_toggle_folder_visibility(d0, fi)
            } else {
                &&& r == Err::<(), DocError>(DocError::NotFound)
                &&& d1 == d0
            }
        }),
{
    let ghost d0 = doc_view(old(doc)@);
    match find_folder_index(doc, &folder_id) {
        Some(fi) => {
            let was = doc[fi].visible;
            doc[fi].visible = !was;
            proof {
                let fii = fi as int;
                assert(doc@[fii]@ =~= (FolderView { visible: !d0[fii].visible, ..d0[fii] }));
                assert(doc_view(doc@) =~= spec_toggle_folder_visibility(d0, fii));
            }
            Ok(())
        },
        None => Err(DocError::NotFound),
    }
}

/// Replaces the z-order of the identified folder; `NotFound` if it is
/// absent, leaving the document unchanged.
pub fn change_folder_zindex(doc: &mut Vec<TaskFolder>, folder_id: String, new_zindex: i32) -> (r:
    Result<(), DocError>)
    ensures
        ({
            let d0 = doc_view(old(doc)@);
            let d1 = doc_view(final(doc)@);
            let fi = folder_idx(d0, folder_id@);
            if has_folder(d0, folder_id@) {
                &&& r == Ok::<(), DocError>(())
                &&& d1 == d0.update(fi, (FolderView { zindex: new_zindex as int, ..d0[fi] }))
            } else {
                &&& r == Err::<(), DocError>(DocError::NotFound)
                &&& d1 == d0
            }
        }),
{
    let ghost d0 = doc_view(old(doc)@);
    match find_folder_index(doc, &folder_id) {
        Some(fi) => {
            doc[fi].zindex = new_zindex;
            proof {
                let fii = fi as int;
                assert(doc@[fii]@ =~= (FolderView { zindex: new_zindex as int, ..d0[fii] }));
                assert(doc_view(doc@) =~= d0.update(fii, doc@[fii]@));
            }
            Ok(())
        },
        None => Err(DocError::NotFound),
    }
}

/// Removes every folder carrying the given id, with all its tasks; an
/// absent id is a no-op, not an error.
pub fn delete_folder(doc: &mut Vec<TaskFolder>, folder_id: String)
    ensures
        doc_view(final(doc)@) == without_folder(doc_view(old(doc)@), folder_id@),
        !has_folder(doc_view(old(doc)@), folder_id@) ==> doc_view(final(doc)@) == doc_view(
            old(doc)@,
        ),
{
    let ghost d0 = doc_view(old(doc)@);
    let mut out: Vec<TaskFolder> = Vec::new();
    let mut i: usize = 0;
    while i < doc.len()
        invariant
            i <= doc.len(),
            d0 == doc_view(doc@),
            d0.len() == doc.len(),
            doc_view(out@) == without_folder(d0.take(i as int), folder_id@),
        decreases doc.len() - i,
    {
        proof {
            reveal(Seq::filter);
            assert(d0.take(i + 1) =~= d0.take(i as int).push(d0[i as int]));
            assert(d0.take(i + 1).drop_last() =~= d0.take(i as int));
        }
        if doc[i].id != folder_id {
            out.push(clone_folder(&doc[i]));
        }
        proof {
            reveal(Seq::filter);
            assert(doc_view(out@) =~= without_folder(d0.take(i + 1), folder_id@));
        }
        i += 1;
    }
    proof {
        assert(d0.take(d0.len() as int) =~= d0);
    }
    *doc = out;
    proof {
        if !has_folder(d0, folder_id@) {
            lemma_without_folder_absent(d0, folder_id@);
        }
    }
}

/// Removes the identified task from the source folder and appends it to the
/// destination folder's list. Both folders and the task are located before
/// anything changes: `NotFound` if any of the three is absent, leaving the
/// document unchanged.
pub fn move_task_to_folder(
    doc: &mut Vec<TaskFolder>,
    task_id: String,
    folder_id: String,
    new_folder_id: String,
) -> (r: Result<(), DocError>)
    ensures
        ({
            let d0 = doc_view(old(doc)@);
            let d1 = doc_view(final(doc)@);
            let fi = folder_idx(d0, folder_id@);
            let di = folder_idx(d0, new_folder_id@);
            let ti = task_idx(d0[fi].tasks, task_id@);
            if has_folder(d0, folder_id@) && has_folder(d0, new_folder_id@) && has_task(
                d0[fi].tasks,
                task_id@,
            ) {
                &&& r == Ok::<(), DocError>(())
                &&& d1 == spec_move_task_to_folder(d0, fi, di, ti)
            } else {
                &&& r == Err::<(), DocError>(DocError::NotFound)
                &&& d1 == d0
            }
        }),
{
    let ghost d0 = doc_view(old(doc)@);
    let fi = match find_folder_index(doc, &folder_id) {
        Some(fi) => fi,
        None => {
            return Err(DocError::NotFound);
        },
    };
    let di = match find_folder_index(doc, &new_folder_id) {
        Some(di) => di,
        None => {
            return Err(DocError::NotFound);
        },
    };
    let ti = match find_task_index(&doc[fi].tasks, &task_id) {
        Some(ti) => ti,
        None => {
            return Err(DocError::NotFound);
        },
    };
    let ghost fii = fi as int;
    let ghost dii = di as int;
    let ghost tii = ti as int;
    let t = doc[fi].tasks.remove(ti);
    let ghost mid = doc_view(doc@);
    proof {
        assert(doc@[fii]@.tasks =~= d0[fii].tasks.remove(tii));
        assert(doc@[fii]@ =~= (FolderView { tasks: d0[fii].tasks.remove(tii), ..d0[fii] }));
        assert(mid =~= d0.update(fii, doc@[fii]@));
    }
    doc[di].tasks.push(t);
    proof {
        assert(doc@[dii]@.tasks =~= mid[dii].tasks.push(d0[fii].tasks[tii]));
        assert(doc@[dii]@ =~= (FolderView {
            tasks: mid[dii].tasks.push(d0[fii].tasks[tii]),
            ..mid[dii]
        }));
        assert(doc_view(doc@) =~= spec_move_task_to_folder(d0, fii, dii, tii));
    }
    Ok(())
}

} // verus!
