//! The task repository: an ordered, exclusively owned collection of tasks
//! with name-based lookup, in-place edit, removal, and whole-collection
//! save and load through the persistence format.
//!
//! The repository never touches the file system itself. A save hands the
//! caller the full text to write after the caller has confirmed that the
//! target path is fresh; a load takes the file's contents, or `None` for a
//! missing file, and replaces the held tasks only when the text parses.

use vstd::prelude::*;
use crate::codec::{encode_tasks, parse_tasks, parse_tasks_text, tasks_image, views_of};
use crate::task::{Task, TaskView};
use crate::text::str_eq;
use vstd::pervasive::VecAdditionalExecFns;

verus! {

/// Why a repository operation failed. Persistence failures that arise
/// outside the library (an unreadable disk, a failed create) stay with the
/// caller performing the I/O.
#[derive(Clone, Copy, PartialEq, Eq, Structural, Debug)]
pub enum RepoError {
    /// No task with the requested name.
    TaskNotFound,
    /// The save target already exists; a save never overwrites.
    FileAlreadyExists,
    /// The load source does not exist.
    FileMissing,
    /// The load source is not a well-formed persisted document.
    MalformedData,
}

/// The position of the first task with the given name, if any.
pub open spec fn find_index(ts: Seq<TaskView>, name: Seq<char>) -> Option<int>
    decreases ts.len(),
{
    if ts.len() == 0 {
        None
    } else if ts[0].name == name {
        Some(0int)
    } else {
        match find_index(ts.drop_first(), name) {
            None => None,
            Some(i) => Some(i + 1),
        }
    }
}

/// What `find_index` means: the position it yields holds the first match,
/// and `None` means no position matches.
pub proof fn lemma_find_index(ts: Seq<TaskView>, name: Seq<char>)
    ensures
        match find_index(ts, name) {
            Some(i) => 0 <= i < ts.len() && ts[i].name == name && forall|j: int|
                0 <= j < i ==> ts[j].name != name,
            None => forall|j: int| 0 <= j < ts.len() ==> ts[j].name != name,
        },
    decreases ts.len(),
{
    if ts.len() > 0 && ts[0].name != name {
        lemma_find_index(ts.drop_first(), name);
        let inner = find_index(ts.drop_first(), name);
        if inner is Some {
            let i = inner->0;
            assert(ts.drop_first()[i] == ts[i + 1]);
            assert forall|j: int| 0 <= j < i + 1 implies ts[j].name != name by {
                if j > 0 {
                    assert(ts.drop_first()[j - 1] == ts[j]);
                }
            }
        } else {
            assert forall|j: int| 0 <= j < ts.len() implies ts[j].name != name by {
                if j > 0 {
                    assert(ts.drop_first()[j - 1] == ts[j]);
                }
            }
        }
    }
}

/// The converse: a position holding the first match is what `find_index`
/// yields.
pub proof fn lemma_find_index_is(ts: Seq<TaskView>, name: Seq<char>, i: int)
    requires
        0 <= i < ts.len(),
        ts[i].name == name,
        forall|j: int| 0 <= j < i ==> ts[j].name != name,
    ensures
        find_index(ts, name) == Some(i),
    decreases ts.len(),
{
    if i != 0 {
        assert(ts[0].name != name);
        assert(forall|j: int| 0 <= j < ts.len() - 1 ==> ts.drop_first()[j] == ts[j + 1]);
        lemma_find_index_is(ts.drop_first(), name, i - 1);
    }
}

/// The in-memory task repository: an ordered sequence of tasks in
/// insertion order.
pub struct TasksManager {
    tasks: Vec<Task>,
}

impl View for TasksManager {
    type V = Seq<TaskView>;

    closed spec fn view(&self) -> Seq<TaskView> {
        views_of(self.tasks@)
    }
}

impl TasksManager {
    /// Every held task is representable in the persistence format.
    pub open spec fn wf(&self) -> bool {
        forall|i: int| 0 <= i < self@.len() ==> (#[trigger] self@[i]).wf()
    }

    /// A new, empty repository.
    pub fn new() -> (r: Self)
        ensures
            r@ == Seq::<TaskView>::empty(),
            r.wf(),
    {
        let r = TasksManager { tasks: Vec::new() };
        proof {
            assert(views_of(r.tasks@) =~= Seq::<TaskView>::empty());
        }
        r
    }

    /// Appends unconditionally, keeping insertion order; a duplicate name
    /// coexists with the earlier task, and name lookups keep returning the
    /// first match.
    pub fn add_task(&mut self, task: Task)
        requires
            old(self).wf(),
            task@.wf(),
        ensures
            final(self)@ == old(self)@.push(task@),
            final(self).wf(),
    {
        let ghost before = self.tasks@;
        self.tasks.push(task);
        proof {
            assert(views_of(self.tasks@) =~= views_of(before).push(task@));
        }
    }

    /// The tasks in insertion order, for display.
    pub fn list_all(&self) -> (r: &Vec<Task>)
        ensures
            views_of(r@) == self@,
    {
        &self.tasks
    }

    /// The position of the first task whose name equals `name` exactly.
    pub fn find_task_index(&self, name: &str) -> (r: Option<usize>)
        ensures
            match r {
                Some(i) => find_index(self@, name@) == Some(i as int),
                None => find_index(self@, name@) is None,
            },
    {
        let mut i: usize = 0;
        while i < self.tasks.len()
            invariant
                i <= self.tasks@.len(),
                self@.len() == self.tasks@.len(),
                forall|j: int| 0 <= j < i ==> (#[trigger] self@[j]).name != name@,
            decreases self.tasks@.len() - i,
        {
            assert(self@[i as int] == self.tasks@[i as int]@);
            if str_eq(self.tasks[i].name.as_str(), name) {
                proof {
                    lemma_find_index_is(self@, name@, i as int);
                }
                return Some(i);
            }
            i = i + 1;
        }
        proof {
            if find_index(self@, name@) is Some {
                lemma_find_index(self@, name@);
                assert(false);
            }
        }
        None
    }

    /// A read-only reference to the first task with the given name.
    pub fn find_task(&self, name: &str) -> (r: Option<&Task>)
        ensures
            match r {
                Some(t) => find_index(self@, name@) is Some && t@ == self@[find_index(
                    self@,
                    name@,
                )->0],
                None => find_index(self@, name@) is None,
            },
    {
        match self.find_task_index(name) {
            Some(i) => {
                proof {
                    lemma_find_index(self@, name@);
                    assert(self@[i as int] == self.tasks@[i as int]@);
                }
                Some(&self.tasks[i])
            },
            None => None,
        }
    }

    /// Removes the first task with the given name, shifting the rest up;
    /// fails with `TaskNotFound`, changing nothing, when no name matches.
    pub fn remove_task(&mut self, name: &str) -> (r: Result<(), RepoError>)
        requires
            old(self).wf(),
        ensures
            final(self).wf(),
            match find_index(old(self)@, name@) {
                Some(i) => r == Ok::<(), RepoError>(()) && final(self)@ == old(self)@.remove(i),
                None => r == Err::<(), RepoError>(RepoError::TaskNotFound) && final(self)@ == old(
                    self,
                )@,
            },
    {
        match self.find_task_index(name) {
            Some(i) => {
                proof {
                    lemma_find_index(self@, name@);
                }
                let ghost before = self.tasks@;
                self.tasks.remove(i);
                proof {
                    assert(views_of(self.tasks@) =~= views_of(before).remove(i as int));
                }
                Ok(())
            },
            None => Err(RepoError::TaskNotFound),
        }
    }

    /// Replaces every field of the first task with the given name by the
    /// replacement's fields (the name included, permitting a rename), in
    /// place; fails with `TaskNotFound`, changing nothing, when no name
    /// matches.
    pub fn edit_task(&mut self, name: &str, new_task: Task) -> (r: Result<(), RepoError>)
        requires
            old(self).wf(),
            new_task@.wf(),
        ensures
            final(self).wf(),
            match find_index(old(self)@, name@) {
                Some(i) => r == Ok::<(), RepoError>(()) && final(self)@ == old(self)@.update(
                    i,
                    new_task@,
                ),
                None => r == Err::<(), RepoError>(RepoError::TaskNotFound) && final(self)@ == old(
                    self,
                )@,
            },
    {
        match self.find_task_index(name) {
            Some(i) => {
                proof {
                    lemma_find_index(self@, name@);
                }
                let ghost before = self.tasks@;
                self.tasks.set(i, new_task);
                proof {
                    assert(views_of(self.tasks@) =~= views_of(before).update(i as int, new_task@));
                }
                Ok(())
            },
            None => Err(RepoError::TaskNotFound),
        }
    }

    /// Decides a save. The caller reports whether the target path already
    /// exists: saving is create-only and never overwrites, so an existing
    /// path fails with `FileAlreadyExists` and nothing is produced. For a
    /// fresh path the whole collection's persisted text is returned for the
    /// caller to write in one pass.
    pub fn store_to_file(&self, file_exists: bool) -> (r: Result<String, RepoError>)
        requires
            self.wf(),
        ensures
            file_exists ==> r == Err::<String, RepoError>(RepoError::FileAlreadyExists),
            !file_exists ==> r is Ok && r->Ok_0@ == tasks_image(self@),
    {
        if file_exists {
            Err(RepoError::FileAlreadyExists)
        } else {
            proof {
                assert(forall|i: int|
                    0 <= i < self.tasks@.len() ==> (#[trigger] self.tasks@[i])@ == self@[i]);
            }
            Ok(encode_tasks(&self.tasks))
        }
    }

    /// Applies a load. The caller reports the file's contents, or `None`
    /// when the path does not exist, which fails with `FileMissing`. Text
    /// that is not a well-formed persisted document fails with
    /// `MalformedData`. On either failure the held tasks are exactly as
    /// before; on success they are replaced — not merged — by the parsed
    /// sequence.
    pub fn read_from_file(&mut self, contents: Option<&str>) -> (r: Result<(), RepoError>)
        requires
            old(self).wf(),
        ensures
            final(self).wf(),
            match contents {
                None => r == Err::<(), RepoError>(RepoError::FileMissing) && final(self)@ == old(
                    self,
                )@,
                Some(text) => match parse_tasks(text@) {
                    None => r == Err::<(), RepoError>(RepoError::MalformedData) && final(self)@
                        == old(self)@,
                    Some(ts) => r == Ok::<(), RepoError>(()) && final(self)@ == ts,
                },
            },
    {
        match contents {
            None => Err(RepoError::FileMissing),
            Some(text) => match parse_tasks_text(text) {
                None => Err(RepoError::MalformedData),
                Some(v) => {
                    proof {
                        assert(forall|i: int|
                            0 <= i < v@.len() ==> views_of(v@)[i] == (#[trigger] v@[i])@);
                    }
                    self.tasks = v;
                    Ok(())
                },
            },
        }
    }
}

/// Insertion order is what listing shows: appending a task leaves every
/// earlier position unchanged and places the new task last.
pub proof fn lemma_add_keeps_order(ts: Seq<TaskView>, t: TaskView)
    ensures
        ts.push(t).len() == ts.len() + 1,
        ts.push(t)[ts.len() as int] == t,
        forall|j: int| 0 <= j < ts.len() ==> ts.push(t)[j] == ts[j],
{
}

/// Editing preserves the repository's length and insertion positions,
/// replacing only the matched entry.
pub proof fn lemma_edit_preserves_shape(ts: Seq<TaskView>, i: int, t: TaskView)
    requires
        0 <= i < ts.len(),
    ensures
        ts.update(i, t).len() == ts.len(),
        ts.update(i, t)[i] == t,
        forall|j: int| 0 <= j < ts.len() && j != i ==> ts.update(i, t)[j] == ts[j],
{
}

/// Removing the only task with a name, then looking that name up, finds
/// nothing.
pub proof fn lemma_remove_then_find(ts: Seq<TaskView>, name: Seq<char>, i: int)
    requires
        find_index(ts, name) == Some(i),
        forall|j: int| 0 <= j < ts.len() && (#[trigger] ts[j]).name == name ==> j == i,
    ensures
        find_index(ts.remove(i), name) is None,
{
    lemma_find_index(ts, name);
    let r = ts.remove(i);
    assert(forall|j: int| 0 <= j < i ==> r[j] == ts[j]);
    assert(forall|j: int| i <= j < r.len() ==> r[j] == ts[j + 1]);
    if find_index(r, name) is Some {
        lemma_find_index(r, name);
        let k = find_index(r, name)->0;
        if k < i {
            assert(ts[k].name == name);
        } else {
            assert(ts[k + 1].name == name);
        }
        assert(false);
    }
}

} // verus!
