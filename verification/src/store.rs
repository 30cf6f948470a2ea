//! The task store: the persistent entity, its mathematical model, and the
//! operations the service needs from persistence — create, fetch by id,
//! list with a filter, update fields, complete or reopen, and delete.
//!
//! The store keeps its tasks ordered by id ascending, assigns ids
//! monotonically, and never reuses an id after a deletion.
use vstd::prelude::*;

use crate::TaskError;

verus! {

/// A task: the sole persistent entity.
#[derive(Debug)]
pub struct Todos {
    /// Assigned by the store on creation; immutable, unique, increasing by
    /// insertion order, never reused after deletion.
    pub id: u64,
    /// Display string; the editor workflow keeps it non-empty.
    pub title: String,
    /// Free-form multi-line text; may be empty.
    pub notes: String,
    /// Seconds since the epoch, set once at creation.
    pub created: i64,
    /// Absent while the task is open; present with the completion instant
    /// once it is completed. The timestamp is the flag: the two can never
    /// disagree.
    pub completed: Option<i64>,
}

/// The mathematical view of a task.
pub ghost struct TaskView {
    pub id: u64,
    pub title: Seq<char>,
    pub notes: Seq<char>,
    pub created: i64,
    pub completed: Option<i64>,
}

impl View for Todos {
    type V = TaskView;

    open spec fn view(&self) -> TaskView {
        TaskView {
            id: self.id,
            title: self.title@,
            notes: self.notes@,
            created: self.created,
            completed: self.completed,
        }
    }
}

impl Clone for Todos {
    fn clone(&self) -> (r: Self)
        ensures
            r == *self,
    {
        Todos {
            id: self.id,
            title: self.title.clone(),
            notes: self.notes.clone(),
            created: self.created,
            completed: self.completed,
        }
    }
}

/// The fields of a task to be created; the store assigns the id.
pub struct NewTodo {
    pub title: String,
    pub notes: String,
    pub created: i64,
}

/// Whether some task in the sequence carries the id.
pub open spec fn contains_id(s: Seq<TaskView>, id: u64) -> bool {
    exists|k: int| 0 <= k < s.len() && s[k].id == id
}

/// The first task in the sequence with the id, if any.
pub open spec fn find_task(s: Seq<TaskView>, id: u64) -> Option<TaskView>
    decreases s.len(),
{
    if s.len() == 0 {
        None
    } else if s[0].id == id {
        Some(s[0])
    } else {
        find_task(s.drop_first(), id)
    }
}

/// A task with its completion timestamp replaced.
pub open spec fn with_completed(t: TaskView, ts: Option<i64>) -> TaskView {
    TaskView { completed: ts, ..t }
}

/// A task with its title replaced.
pub open spec fn with_title(t: TaskView, title: Seq<char>) -> TaskView {
    TaskView { title: title, ..t }
}

/// A task with its notes replaced.
pub open spec fn with_notes(t: TaskView, notes: Seq<char>) -> TaskView {
    TaskView { notes: notes, ..t }
}

/// The sequence with the completion timestamp of the task carrying the id
/// replaced; unchanged where the id is absent.
pub open spec fn set_completed_in(s: Seq<TaskView>, id: u64, ts: Option<i64>) -> Seq<TaskView> {
    s.map_values(|t: TaskView| if t.id == id { with_completed(t, ts) } else { t })
}

/// The sequence with the title of the task carrying the id replaced.
pub open spec fn set_title_in(s: Seq<TaskView>, id: u64, title: Seq<char>) -> Seq<TaskView> {
    s.map_values(|t: TaskView| if t.id == id { with_title(t, title) } else { t })
}

/// The sequence with the notes of the task carrying the id replaced.
pub open spec fn set_notes_in(s: Seq<TaskView>, id: u64, notes: Seq<char>) -> Seq<TaskView> {
    s.map_values(|t: TaskView| if t.id == id { with_notes(t, notes) } else { t })
}

/// The sequence without the task carrying the id.
pub open spec fn remove_id(s: Seq<TaskView>, id: u64) -> Seq<TaskView> {
    s.filter(|t: TaskView| t.id != id)
}

/// The listing filter: `None` keeps open tasks (the default), `Some(true)`
/// keeps completed tasks, `Some(false)` keeps everything.
pub open spec fn matches_filter(t: TaskView, show_completed: Option<bool>) -> bool {
    match show_completed {
        Some(true) => t.completed is Some,
        Some(false) => true,
        None => t.completed is None,
    }
}

/// The listing of a store: the tasks that pass the filter, by id descending
/// when the sequence is ascending.
pub open spec fn filtered_tasks(s: Seq<TaskView>, show_completed: Option<bool>) -> Seq<TaskView> {
    s.filter(|t: TaskView| matches_filter(t, show_completed)).reverse()
}

/// Whether the ids of the sequence are strictly ascending.
pub open spec fn ids_ascending(s: Seq<TaskView>) -> bool {
    forall|i: int, j: int| 0 <= i < j < s.len() ==> s[i].id < s[j].id
}

/// Whether every id of the sequence lies below the bound.
pub open spec fn ids_below(s: Seq<TaskView>, bound: u64) -> bool {
    forall|i: int| 0 <= i < s.len() ==> s[i].id < bound
}

/// The task store. Its model is the sequence of task views in store order:
/// id ascending, which is also insertion order.
pub struct TaskStore {
    tasks: Vec<Todos>,
    next_id: u64,
}

impl TaskStore {
    /// The tasks the store holds, in store order.
    pub closed spec fn model(&self) -> Seq<TaskView> {
        self.tasks@.map_values(|t: Todos| t@)
    }

    /// The id the store will assign next.
    pub closed spec fn spec_next_id(&self) -> u64 {
        self.next_id
    }

    /// Well-formedness: ids strictly ascending and all below the next id.
    pub open spec fn wf(&self) -> bool {
        ids_ascending(self.model()) && ids_below(self.model(), self.spec_next_id())
    }

    /// An empty store. Ids start at 1, as the underlying storage engines do.
    pub fn new() -> (r: TaskStore)
        ensures
            r.wf(),
            r.model() == Seq::<TaskView>::empty(),
            r.spec_next_id() == 1u64,
    {
        let r = TaskStore { tasks: Vec::new(), next_id: 1 };
        proof {
            assert(r.model() =~= Seq::<TaskView>::empty());
        }
        r
    }

    /// The id the store will assign next, for callers that must check it
    /// before creating a task.
    pub fn next_id(&self) -> (r: u64)
        ensures
            r == self.spec_next_id(),
    {
        self.next_id
    }

    /// Rebuild a store from tasks that already carry ids, as a persistence
    /// layer hands them back. Succeeds exactly when the rows respect the
    /// store's shape: ids strictly ascending and all below the next id.
    pub fn from_tasks(tasks: Vec<Todos>, next_id: u64) -> (r: Option<TaskStore>)
        ensures
            r matches Some(st) ==> st.wf() && st.model() == tasks@.map_values(|t: Todos| t@)
                && st.spec_next_id() == next_id,
            r is Some <==> ids_ascending(tasks@.map_values(|t: Todos| t@)) && ids_below(
                tasks@.map_values(|t: Todos| t@),
                next_id,
            ),
    {
        let ghost m = tasks@.map_values(|t: Todos| t@);
        let mut i: usize = 0;
        while i < tasks.len()
            invariant
                i <= tasks@.len(),
                m == tasks@.map_values(|t: Todos| t@),
                tasks@.len() == m.len(),
                forall|a: int, b: int| 0 <= a < b < i ==> m[a].id < m[b].id,
                forall|a: int| 0 <= a < i ==> m[a].id < next_id,
            decreases tasks@.len() - i,
        {
            if tasks[i].id >= next_id {
                proof {
                    assert(m[i as int].id >= next_id);
                }
                return None;
            }
            if i > 0 && tasks[i - 1].id >= tasks[i].id {
                proof {
                    assert(m[i as int - 1].id >= m[i as int].id);
                }
                return None;
            }
            i += 1;
        }
        let st = TaskStore { tasks, next_id };
        proof {
            assert(st.model() == m);
        }
        Some(st)
    }

    /// Create a task from the given fields; the store assigns the next id.
    pub fn add_todo(&mut self, todo: &NewTodo) -> (t: Todos)
        requires
            old(self).wf(),
            old(self).spec_next_id() < u64::MAX,
        ensures
            final(self).wf(),
            t@ == (TaskView {
                id: old(self).spec_next_id(),
                title: todo.title@,
                notes: todo.notes@,
                created: todo.created,
                completed: None,
            }),
            final(self).model() == old(self).model().push(t@),
            final(self).spec_next_id() == old(self).spec_next_id() + 1,
    {
        let t = Todos {
            id: self.next_id,
            title: todo.title.clone(),
            notes: todo.notes.clone(),
            created: todo.created,
            completed: None,
        };
        let result = t.clone();
        self.tasks.push(t);
        self.next_id = self.next_id + 1;
        proof {
            assert(self.model() =~= old(self).model().push(result@));
        }
        result
    }

    /// Fetch the task with the id, if the store holds one.
    pub fn find_by_id(&self, id: u64) -> (r: Option<Todos>)
        ensures
            r matches Some(t) ==> find_task(self.model(), id) == Some(t@),
            r is Some <==> contains_id(self.model(), id),
    {
        let ghost m = self.model();
        let mut i: usize = 0;
        proof {
            assert(m.skip(0) =~= m);
        }
        while i < self.tasks.len()
            invariant
                i <= self.tasks@.len(),
                m == self.model(),
                self.tasks@.len() == m.len(),
                forall|k: int| 0 <= k < i ==> m[k].id != id,
                find_task(m, id) == find_task(m.skip(i as int), id),
            decreases self.tasks@.len() - i,
        {
            if self.tasks[i].id == id {
                proof {
                    assert(m.skip(i as int)[0] == m[i as int]);
                    assert(contains_id(m, id));
                }
                return Some(self.tasks[i].clone());
            }
            proof {
                assert(m.skip(i as int)[0] == m[i as int]);
                assert(m.skip(i as int).drop_first() =~= m.skip(i as int + 1));
            }
            i += 1;
        }
        proof {
            assert(m.skip(m.len() as int) =~= Seq::<TaskView>::empty());
            assert(!contains_id(m, id));
        }
        None
    }

    /// All tasks, in store order.
    pub fn get_todos(&self) -> (r: Vec<Todos>)
        ensures
            r@.map_values(|t: Todos| t@) == self.model(),
    {
        let mut r: Vec<Todos> = Vec::new();
        let mut i: usize = 0;
        proof {
            assert(r@.map_values(|t: Todos| t@) =~= self.model().take(0));
        }
        while i < self.tasks.len()
            invariant
                i <= self.tasks@.len(),
                self.tasks@.len() == self.model().len(),
                r@.map_values(|t: Todos| t@) == self.model().take(i as int),
            decreases self.tasks@.len() - i,
        {
            let ghost old_r = r@.map_values(|t: Todos| t@);
            r.push(self.tasks[i].clone());
            proof {
                assert(r@.map_values(|t: Todos| t@) =~= old_r.push(self.model()[i as int]));
                assert(old_r.push(self.model()[i as int]) =~= self.model().take(i as int + 1));
            }
            i += 1;
        }
        proof {
            assert(self.model().take(self.model().len() as int) =~= self.model());
        }
        r
    }

    /// The tasks that pass the filter, ordered by id descending.
    #[verifier::rlimit(50)]
    pub fn list_todos(&self, show_completed: Option<bool>) -> (r: Vec<Todos>)
        requires
            self.wf(),
        ensures
            r@.map_values(|t: Todos| t@) == filtered_tasks(self.model(), show_completed),
    {
        let ghost m = self.model();
        let ghost pred = |t: TaskView| matches_filter(t, show_completed);
        let mut r: Vec<Todos> = Vec::new();
        let mut i: usize = self.tasks.len();
        proof {
            assert(m.subrange(m.len() as int, m.len() as int) =~= Seq::<TaskView>::empty());
            assert(Seq::<TaskView>::empty().filter(pred) =~= Seq::<TaskView>::empty()) by {
                reveal(Seq::filter);
            }
            assert(r@.map_values(|t: Todos| t@) =~= Seq::<TaskView>::empty().reverse());
        }
        while i > 0
            invariant
                i <= self.tasks@.len(),
                m == self.model(),
                self.tasks@.len() == m.len(),
                pred == (|t: TaskView| matches_filter(t, show_completed)),
                r@.map_values(|t: Todos| t@) == m.subrange(i as int, m.len() as int).filter(
                    pred,
                ).reverse(),
            decreases i,
    {
            i = i - 1;
            let t = &self.tasks[i];
            let keep = match show_completed {
                Some(true) => t.completed.is_some(),
                Some(false) => true,
                None => t.completed.is_none(),
            };
            let ghost old_r = r@.map_values(|t: Todos| t@);
            if keep {
                r.push(t.clone());
            }
            proof {
                let tail = m.subrange(i as int + 1, m.len() as int);
                let cur = m.subrange(i as int, m.len() as int);
                assert(cur =~= seq![m[i as int]] + tail);
                Seq::<TaskView>::filter_distributes_over_add(seq![m[i as int]], tail, pred);
                assert(seq![m[i as int]].filter(pred) =~= (if pred(m[i as int]) {
                    seq![m[i as int]]
                } else {
                    Seq::<TaskView>::empty()
                })) by {
                    reveal_with_fuel(Seq::filter, 2);
                    assert(seq![m[i as int]].drop_last() =~= Seq::<TaskView>::empty());
                }
                if keep {
                    assert(r@.map_values(|t: Todos| t@) =~= old_r.push(m[i as int]));
                    assert(old_r.push(m[i as int]) =~= cur.filter(pred).reverse());
                } else {
                    assert(old_r =~= cur.filter(pred).reverse());
                }
            }
        }
        proof {
            assert(m.subrange(0, m.len() as int) =~= m);
        }
        r
    }

    /// Replace the completion timestamp of the task with the id. Fails with
    /// `NotFound`, changing nothing, exactly when the id is absent.
    pub fn set_completed_by_id(&mut self, id: u64, ts: Option<i64>) -> (r: Result<(), TaskError>)
        requires
            old(self).wf(),
        ensures
            final(self).wf(),
            final(self).spec_next_id() == old(self).spec_next_id(),
            final(self).model() == set_completed_in(old(self).model(), id, ts),
            r is Ok <==> contains_id(old(self).model(), id),
            r is Err ==> r == Err::<(), TaskError>(TaskError::NotFound) && final(self).model()
                == old(self).model(),
    {
        let ghost m = self.model();
        let ghost f = |t: TaskView| if t.id == id {
            with_completed(t, ts)
        } else {
            t
        };
        let mut out: Vec<Todos> = Vec::new();
        let mut found = false;
        let mut i: usize = 0;
        proof {
            assert(out@.map_values(|t: Todos| t@) =~= m.take(0).map_values(f));
        }
        while i < self.tasks.len()
            invariant
                i <= self.tasks@.len(),
                m == self.model(),
                self.tasks@.len() == m.len(),
                f == (|t: TaskView| if t.id == id {
                    with_completed(t, ts)
                } else {
                    t
                }),
                out@.map_values(|t: Todos| t@) == m.take(i as int).map_values(f),
                found <==> contains_id(m.take(i as int), id),
            decreases self.tasks@.len() - i,
        {
            let ghost old_out = out@.map_values(|t: Todos| t@);
            let t = &self.tasks[i];
            if t.id == id {
                let mut u = t.clone();
                u.completed = ts;
                out.push(u);
                found = true;
                proof {
                    assert(m.take(i as int + 1)[i as int].id == id);
                }
            } else {
                out.push(t.clone());
            }
            proof {
                assert(out@.map_values(|t: Todos| t@) =~= old_out.push(f(m[i as int])));
                assert(old_out.push(f(m[i as int])) =~= m.take(i as int + 1).map_values(f));
                assert(contains_id(m.take(i as int), id) ==> contains_id(m.take(i as int + 1), id));
                if contains_id(m.take(i as int + 1), id) && m[i as int].id != id {
                    let k = choose|k: int|
                        0 <= k < m.take(i as int + 1).len() && (#[trigger] m.take(i as int + 1)[k]).id
                            == id;
                    assert(0 <= k < i ==> m.take(i as int)[k].id == id);
                }
            }
            i += 1;
        }
        self.tasks = out;
        proof {
            assert(m.take(m.len() as int) =~= m);
            assert(self.model() == set_completed_in(m, id, ts));
            assert(forall|k: int|
                0 <= k < m.len() ==> self.model()[k].id == m[k].id && self.model()[k].created
                    == m[k].created);
            if !found {
                assert(self.model() =~= m);
            }
        }
        if found {
            Ok(())
        } else {
            Err(TaskError::NotFound)
        }
    }

    /// Replace the title of the task with the id. Fails with `NotFound`,
    /// changing nothing, exactly when the id is absent.
    pub fn set_title_by_id(&mut self, id: u64, title: &String) -> (r: Result<(), TaskError>)
        requires
            old(self).wf(),
        ensures
            final(self).wf(),
            final(self).spec_next_id() == old(self).spec_next_id(),
            final(self).model() == set_title_in(old(self).model(), id, title@),
            r is Ok <==> contains_id(old(self).model(), id),
            r is Err ==> r == Err::<(), TaskError>(TaskError::NotFound) && final(self).model()
                == old(self).model(),
    {
        let ghost m = self.model();
        let ghost f = |t: TaskView| if t.id == id {
            with_title(t, title@)
        } else {
            t
        };
        let mut out: Vec<Todos> = Vec::new();
        let mut found = false;
        let mut i: usize = 0;
        proof {
            assert(out@.map_values(|t: Todos| t@) =~= m.take(0).map_values(f));
        }
        while i < self.tasks.len()
            invariant
                i <= self.tasks@.len(),
                m == self.model(),
                self.tasks@.len() == m.len(),
                f == (|t: TaskView| if t.id == id {
                    with_title(t, title@)
                } else {
                    t
                }),
                out@.map_values(|t: Todos| t@) == m.take(i as int).map_values(f),
                found <==> contains_id(m.take(i as int), id),
            decreases self.tasks@.len() - i,
        {
            let ghost old_out = out@.map_values(|t: Todos| t@);
            let t = &self.tasks[i];
            if t.id == id {
                let mut u = t.clone();
                u.title = title.clone();
                out.push(u);
                found = true;
                proof {
                    assert(m.take(i as int + 1)[i as int].id == id);
                }
            } else {
                out.push(t.clone());
            }
            proof {
                assert(out@.map_values(|t: Todos| t@) =~= old_out.push(f(m[i as int])));
                assert(old_out.push(f(m[i as int])) =~= m.take(i as int + 1).map_values(f));
                assert(contains_id(m.take(i as int), id) ==> contains_id(m.take(i as int + 1), id));
                if contains_id(m.take(i as int + 1), id) && m[i as int].id != id {
                    let k = choose|k: int|
                        0 <= k < m.take(i as int + 1).len() && (#[trigger] m.take(i as int + 1)[k]).id
                            == id;
                    assert(0 <= k < i ==> m.take(i as int)[k].id == id);
                }
            }
            i += 1;
        }
        self.tasks = out;
        proof {
            assert(m.take(m.len() as int) =~= m);
            assert(self.model() == set_title_in(m, id, title@));
            assert(forall|k: int| 0 <= k < m.len() ==> self.model()[k].id == m[k].id);
            if !found {
                assert(self.model() =~= m);
            }
        }
        if found {
            Ok(())
        } else {
            Err(TaskError::NotFound)
        }
    }

    /// Replace the notes of the task with the id. Fails with `NotFound`,
    /// changing nothing, exactly when the id is absent.
    pub fn set_notes_by_id(&mut self, id: u64, notes: &String) -> (r: Result<(), TaskError>)
        requires
            old(self).wf(),
        ensures
            final(self).wf(),
            final(self).spec_next_id() == old(self).spec_next_id(),
            final(self).model() == set_notes_in(old(self).model(), id, notes@),
            r is Ok <==> contains_id(old(self).model(), id),
            r is Err ==> r == Err::<(), TaskError>(TaskError::NotFound) && final(self).model()
                == old(self).model(),
    {
        let ghost m = self.model();
        let ghost f = |t: TaskView| if t.id == id {
            with_notes(t, notes@)
        } else {
            t
        };
        let mut out: Vec<Todos> = Vec::new();
        let mut found = false;
        let mut i: usize = 0;
        proof {
            assert(out@.map_values(|t: Todos| t@) =~= m.take(0).map_values(f));
        }
        while i < self.tasks.len()
            invariant
                i <= self.tasks@.len(),
                m == self.model(),
                self.tasks@.len() == m.len(),
                f == (|t: TaskView| if t.id == id {
                    with_notes(t, notes@)
                } else {
                    t
                }),
                out@.map_values(|t: Todos| t@) == m.take(i as int).map_values(f),
                found <==> contains_id(m.take(i as int), id),
            decreases self.tasks@.len() - i,
        {
            let ghost old_out = out@.map_values(|t: Todos| t@);
            let t = &self.tasks[i];
            if t.id == id {
                let mut u = t.clone();
                u.notes = notes.clone();
                out.push(u);
                found = true;
                proof {
                    assert(m.take(i as int + 1)[i as int].id == id);
                }
            } else {
                out.push(t.clone());
            }
            proof {
                assert(out@.map_values(|t: Todos| t@) =~= old_out.push(f(m[i as int])));
                assert(old_out.push(f(m[i as int])) =~= m.take(i as int + 1).map_values(f));
                assert(contains_id(m.take(i as int), id) ==> contains_id(m.take(i as int + 1), id));
                if contains_id(m.take(i as int + 1), id) && m[i as int].id != id {
                    let k = choose|k: int|
                        0 <= k < m.take(i as int + 1).len() && (#[trigger] m.take(i as int + 1)[k]).id
                            == id;
                    assert(0 <= k < i ==> m.take(i as int)[k].id == id);
                }
            }
            i += 1;
        }
        self.tasks = out;
        proof {
            assert(m.take(m.len() as int) =~= m);
            assert(self.model() == set_notes_in(m, id, notes@));
            assert(forall|k: int| 0 <= k < m.len() ==> self.model()[k].id == m[k].id);
            if !found {
                assert(self.model() =~= m);
            }
        }
        if found {
            Ok(())
        } else {
            Err(TaskError::NotFound)
        }
    }

    /// Remove the task with the id. Fails with `NotFound`, changing
    /// nothing, exactly when the id is absent. The removed id is never
    /// assigned again.
    pub fn delete_by_id(&mut self, id: u64) -> (r: Result<(), TaskError>)
        requires
            old(self).wf(),
        ensures
            final(self).wf(),
            final(self).spec_next_id() == old(self).spec_next_id(),
            final(self).model() == remove_id(old(self).model(), id),
            r is Ok <==> contains_id(old(self).model(), id),
            r is Err ==> r == Err::<(), TaskError>(TaskError::NotFound) && final(self).model()
                == old(self).model(),
    {
        let ghost m = self.model();
        let ghost keep = |t: TaskView| t.id != id;
        let mut out: Vec<Todos> = Vec::new();
        let mut found = false;
        let mut i: usize = 0;
        proof {
            assert(m.take(0) =~= Seq::<TaskView>::empty());
            assert(Seq::<TaskView>::empty().filter(keep) =~= Seq::<TaskView>::empty()) by {
                reveal(Seq::filter);
            }
            assert(out@.map_values(|t: Todos| t@) =~= m.take(0).filter(keep));
        }
        while i < self.tasks.len()
            invariant
                i <= self.tasks@.len(),
                m == self.model(),
                self.tasks@.len() == m.len(),
                keep == (|t: TaskView| t.id != id),
                out@.map_values(|t: Todos| t@) == m.take(i as int).filter(keep),
                found <==> contains_id(m.take(i as int), id),
            decreases self.tasks@.len() - i,
        {
            let ghost old_out = out@.map_values(|t: Todos| t@);
            let t = &self.tasks[i];
            if t.id == id {
                found = true;
                proof {
                    assert(m.take(i as int + 1)[i as int].id == id);
                }
            } else {
                out.push(t.clone());
            }
            proof {
                m.take(i as int).lemma_filter_push(m[i as int], keep);
                assert(m.take(i as int).push(m[i as int]) =~= m.take(i as int + 1));
                if m[i as int].id != id {
                    assert(out@.map_values(|t: Todos| t@) =~= old_out.push(m[i as int]));
                }
                assert(contains_id(m.take(i as int), id) ==> contains_id(m.take(i as int + 1), id));
                if contains_id(m.take(i as int + 1), id) && m[i as int].id != id {
                    let k = choose|k: int|
                        0 <= k < m.take(i as int + 1).len() && (#[trigger] m.take(i as int + 1)[k]).id
                            == id;
                    assert(0 <= k < i ==> m.take(i as int)[k].id == id);
                }
            }
            i += 1;
        }
        self.tasks = out;
        proof {
            assert(m.take(m.len() as int) =~= m);
            lemma_filter_ascending(m, keep);
            assert forall|k: int| 0 <= k < self.model().len() implies #[trigger] self.model()[k].id
                < self.next_id by {
                assert(self.model().contains(self.model()[k]));
                m.lemma_filter_contains_rev(keep, self.model()[k]);
                let j = choose|j: int| 0 <= j < m.len() && m[j] == self.model()[k];
                assert(m[j].id < self.next_id);
            }
            if !found {
                assert forall|k: int| 0 <= k < m.len() implies keep(#[trigger] m[k]) by {
                    assert(m.take(m.len() as int)[k].id != id);
                }
                lemma_filter_all_keeps(m, keep);
            }
        }
        if found {
            Ok(())
        } else {
            Err(TaskError::NotFound)
        }
    }
}

/// A task found under an id is a task of the sequence and carries that id;
/// one is found exactly when the sequence contains the id.
pub proof fn lemma_find_task_spec(s: Seq<TaskView>, id: u64)
    ensures
        find_task(s, id) is Some <==> contains_id(s, id),
        find_task(s, id) matches Some(t) ==> s.contains(t) && t.id == id,
    decreases s.len(),
{
    if s.len() > 0 {
        if s[0].id != id {
            lemma_find_task_spec(s.drop_first(), id);
            if contains_id(s, id) {
                let k = choose|k: int| 0 <= k < s.len() && (#[trigger] s[k]).id == id;
                assert(s.drop_first()[k - 1].id == id);
            }
            match find_task(s.drop_first(), id) {
                Some(t) => {
                    let k = choose|k: int|
                        0 <= k < s.drop_first().len() && s.drop_first()[k] == t;
                    assert(s[k + 1] == t);
                },
                None => {},
            }
        }
    }
}

proof fn lemma_find_task_map(s: Seq<TaskView>, id: u64, f: spec_fn(TaskView) -> TaskView)
    requires
        forall|t: TaskView| (#[trigger] f(t)).id == t.id,
    ensures
        find_task(s.map_values(f), id) == match find_task(s, id) {
            Some(t) => Some(f(t)),
            None => None::<TaskView>,
        },
    decreases s.len(),
{
    if s.len() > 0 {
        assert(s.map_values(f)[0] == f(s[0]));
        lemma_find_task_map(s.drop_first(), id, f);
        assert(s.map_values(f).drop_first() =~= s.drop_first().map_values(f));
    } else {
        assert(s.map_values(f).len() == 0);
    }
}

/// Lifecycle: a task created on a store that does not hold its id yet is
/// afterwards found under that id, exactly as it was created.
pub proof fn lemma_add_then_find(s: Seq<TaskView>, t: TaskView)
    requires
        !contains_id(s, t.id),
    ensures
        find_task(s.push(t), t.id) == Some(t),
    decreases s.len(),
{
    if s.len() == 0 {
        assert(s.push(t)[0] == t);
    } else {
        assert(s[0].id != t.id);
        assert(!contains_id(s.drop_first(), t.id)) by {
            if contains_id(s.drop_first(), t.id) {
                let k = choose|k: int|
                    0 <= k < s.drop_first().len() && (#[trigger] s.drop_first()[k]).id == t.id;
                assert(s[k + 1].id == t.id);
            }
        }
        lemma_add_then_find(s.drop_first(), t);
        assert(s.push(t).drop_first() =~= s.drop_first().push(t));
        assert(s.push(t)[0] == s[0]);
    }
}

/// Lifecycle: completing or reopening a task replaces exactly its
/// completion timestamp — with an instant to complete it, with nothing to
/// reopen it — and the task is still found under its id, title, notes and
/// creation instant untouched.
pub proof fn lemma_set_completed_then_find(s: Seq<TaskView>, id: u64, ts: Option<i64>)
    requires
        contains_id(s, id),
    ensures
        find_task(s, id) is Some,
        find_task(set_completed_in(s, id, ts), id) == Some(
            with_completed(find_task(s, id)->0, ts),
        ),
{
    lemma_find_task_spec(s, id);
    let f = |t: TaskView| if t.id == id {
        with_completed(t, ts)
    } else {
        t
    };
    lemma_find_task_map(s, id, f);
}

/// Lifecycle: editing a task replaces exactly its title and notes, and the
/// task is still found under its id, creation and completion instants
/// untouched.
pub proof fn lemma_edit_then_find(s: Seq<TaskView>, id: u64, title: Seq<char>, notes: Seq<char>)
    requires
        contains_id(s, id),
    ensures
        find_task(s, id) is Some,
        find_task(set_notes_in(set_title_in(s, id, title), id, notes), id) == Some(
            with_notes(with_title(find_task(s, id)->0, title), notes),
        ),
{
    lemma_find_task_spec(s, id);
    let f = |t: TaskView| if t.id == id {
        with_title(t, title)
    } else {
        t
    };
    let g = |t: TaskView| if t.id == id {
        with_notes(t, notes)
    } else {
        t
    };
    lemma_find_task_map(s, id, f);
    lemma_find_task_map(set_title_in(s, id, title), id, g);
}

/// Deleting a task removes its id entirely: no task is found under it
/// afterwards, so a later show, edit, completion or deletion of the same id
/// fails with `NotFound`.
pub proof fn lemma_delete_then_not_found(s: Seq<TaskView>, id: u64)
    ensures
        !contains_id(remove_id(s, id), id),
        find_task(remove_id(s, id), id) is None,
{
    let keep = |t: TaskView| t.id != id;
    if contains_id(remove_id(s, id), id) {
        let k = choose|k: int|
            0 <= k < remove_id(s, id).len() && (#[trigger] remove_id(s, id)[k]).id == id;
        s.lemma_filter_pred(keep, k);
    }
    lemma_find_task_spec(remove_id(s, id), id);
}

/// Filter semantics: the listing holds exactly the tasks that pass the
/// filter — the open ones by default, the completed ones on request, all of
/// them on request.
pub proof fn lemma_list_membership(s: Seq<TaskView>, show_completed: Option<bool>, t: TaskView)
    ensures
        filtered_tasks(s, show_completed).contains(t) <==> s.contains(t) && matches_filter(
            t,
            show_completed,
        ),
{
    let pred = |u: TaskView| matches_filter(u, show_completed);
    let fs = s.filter(pred);
    assert(fs.reverse().contains(t) <==> fs.contains(t)) by {
        if fs.reverse().contains(t) {
            let i = choose|i: int| 0 <= i < fs.reverse().len() && fs.reverse()[i] == t;
            assert(fs[fs.len() - 1 - i] == t);
        }
        if fs.contains(t) {
            let i = choose|i: int| 0 <= i < fs.len() && fs[i] == t;
            assert(fs.reverse()[fs.len() - 1 - i] == t);
        }
    }
    if fs.contains(t) {
        let i = choose|i: int| 0 <= i < fs.len() && fs[i] == t;
        s.lemma_filter_pred(pred, i);
        s.lemma_filter_contains_rev(pred, t);
    }
    if s.contains(t) && pred(t) {
        let i = choose|i: int| 0 <= i < s.len() && s[i] == t;
        s.lemma_filter_contains(pred, i);
    }
}

/// Filter order: on a well-formed store the listing comes out by id
/// descending, whatever the filter.
pub proof fn lemma_list_descending(s: Seq<TaskView>, show_completed: Option<bool>)
    requires
        ids_ascending(s),
    ensures
        forall|i: int, j: int|
            0 <= i < j < filtered_tasks(s, show_completed).len() ==> (#[trigger] filtered_tasks(
                s,
                show_completed,
            )[i]).id > (#[trigger] filtered_tasks(s, show_completed)[j]).id,
{
    let pred = |u: TaskView| matches_filter(u, show_completed);
    let fs = s.filter(pred);
    lemma_filter_ascending(s, pred);
    assert forall|i: int, j: int|
        0 <= i < j < filtered_tasks(s, show_completed).len() implies (#[trigger] filtered_tasks(
        s,
        show_completed,
    )[i]).id > (#[trigger] filtered_tasks(s, show_completed)[j]).id by {
        assert(filtered_tasks(s, show_completed)[i] == fs[fs.len() - 1 - i]);
        assert(filtered_tasks(s, show_completed)[j] == fs[fs.len() - 1 - j]);
    }
}

proof fn lemma_filter_all_keeps(s: Seq<TaskView>, pred: spec_fn(TaskView) -> bool)
    requires
        forall|k: int| 0 <= k < s.len() ==> pred(#[trigger] s[k]),
    ensures
        s.filter(pred) == s,
    decreases s.len(),
{
    reveal(Seq::filter);
    if s.len() > 0 {
        let init = s.drop_last();
        lemma_filter_all_keeps(init, pred);
        assert(pred(s.last()));
        assert(init.push(s.last()) =~= s);
    }
}

proof fn lemma_filter_ascending(s: Seq<TaskView>, pred: spec_fn(TaskView) -> bool)
    requires
        ids_ascending(s),
    ensures
        ids_ascending(s.filter(pred)),
    decreases s.len(),
{
    reveal(Seq::filter);
    if s.len() > 0 {
        let init = s.drop_last();
        assert(ids_ascending(init));
        lemma_filter_ascending(init, pred);
        if pred(s.last()) {
            let out = init.filter(pred).push(s.last());
            assert(s.filter(pred) == out);
            assert forall|i: int, j: int| 0 <= i < j < out.len() implies out[i].id < out[j].id by {
                if j < out.len() - 1 {
                    assert(init.filter(pred)[i].id < init.filter(pred)[j].id);
                } else {
                    assert(init.filter(pred).contains(init.filter(pred)[i]));
                    init.lemma_filter_contains_rev(pred, init.filter(pred)[i]);
                    let k = choose|k: int| 0 <= k < init.len() && init[k] == init.filter(pred)[i];
                    assert(s[k] == init[k]);
                    assert(s[k].id < s[s.len() - 1].id);
                }
            }
        }
    }
}

} // verus!

