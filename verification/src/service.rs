//! The user-facing task operations: the store operations with the id codec
//! applied at the boundary. Each takes the short encoded id a user types,
//! decodes it, and reports a malformed id or a missing task as a
//! recoverable error.
use vstd::prelude::*;

use crate::TaskError;
use crate::codec::DecodeError;
use crate::codec::decode_id;
use crate::codec::canonical_id;
use crate::codec::sqids_str;
use crate::store::TaskStore;
use crate::store::Todos;
use crate::store::contains_id;
use crate::store::find_task;
use crate::store::remove_id;
use crate::store::set_completed_in;
use crate::store::set_notes_in;
use crate::store::set_title_in;

verus! {

/// Relies on chrono::Utc::now for the completion instant of a task
/// completed "now", as seconds since the epoch. Nothing is promised of the
/// value: the callers' contracts hold whatever instant comes back.
#[verifier::external_body]
fn now_timestamp() -> i64 {
    chrono::Utc::now().timestamp()
}

/// The placeholder staged as the title when the user gives none.
pub fn default_title(title: Option<String>) -> (r: String)
    ensures
        title matches Some(t) ==> r == t,
        title is None ==> r@ == "<title>"@,
{
    match title {
        Some(t) => t,
        None => String::from_str("<title>"),
    }
}

impl TaskStore {
    /// Fetch the task with the encoded id. Fails with `InvalidId` when the
    /// id does not decode, with `NotFound` when no task carries it.
    pub fn get_todo(&self, get_id: &String) -> (r: Result<Todos, TaskError>)
        ensures
            match canonical_id(get_id@) {
                None => r == Err::<Todos, TaskError>(TaskError::InvalidId),
                Some(n) => if contains_id(self.model(), n) {
                    (r matches Ok(t) && find_task(self.model(), n) == Some(t@))
                } else {
                    r == Err::<Todos, TaskError>(TaskError::NotFound)
                },
            },
            forall|n: u64| #[trigger] sqids_str(n) == Some(get_id@) ==> canonical_id(get_id@)
                == Some(n),
    {
        let n = match decode_id(get_id.as_str()) {
            Ok(n) => n,
            Err(DecodeError::Invalid) => {
                return Err(TaskError::InvalidId);
            },
        };
        match self.find_by_id(n) {
            Some(t) => Ok(t),
            None => Err(TaskError::NotFound),
        }
    }

    /// Mark the task with the encoded id completed, at the given instant or
    /// at the current time when none is given. Completing an
    /// already-completed task overwrites its timestamp, as the store
    /// contract documents.
    pub fn complete_todo(&mut self, show_id: &String, ts: Option<i64>) -> (r: Result<
        (),
        TaskError,
    >)
        requires
            old(self).wf(),
        ensures
            final(self).wf(),
            final(self).spec_next_id() == old(self).spec_next_id(),
            match canonical_id(show_id@) {
                None => r == Err::<(), TaskError>(TaskError::InvalidId) && final(self).model()
                    == old(self).model(),
                Some(n) => if contains_id(old(self).model(), n) {
                    &&& r is Ok
                    &&& (ts matches Some(t) ==> final(self).model() == set_completed_in(
                        old(self).model(),
                        n,
                        Some(t),
                    ))
                    &&& (ts is None ==> exists|t: i64|
                        final(self).model() == set_completed_in(old(self).model(), n, Some(t)))
                } else {
                    r == Err::<(), TaskError>(TaskError::NotFound) && final(self).model() == old(
                        self,
                    ).model()
                },
            },
            forall|n: u64| #[trigger] sqids_str(n) == Some(show_id@) ==> canonical_id(show_id@)
                == Some(n),
    {
        let n = match decode_id(show_id.as_str()) {
            Ok(n) => n,
            Err(DecodeError::Invalid) => {
                return Err(TaskError::InvalidId);
            },
        };
        let completion_ts = match ts {
            Some(t) => t,
            None => now_timestamp(),
        };
        self.set_completed_by_id(n, Some(completion_ts))
    }

    /// Clear the completion timestamp of the task with the encoded id,
    /// reopening it. Reopening an open task leaves it open.
    pub fn reopen_todo(&mut self, show_id: &String) -> (r: Result<(), TaskError>)
        requires
            old(self).wf(),
        ensures
            final(self).wf(),
            final(self).spec_next_id() == old(self).spec_next_id(),
            match canonical_id(show_id@) {
                None => r == Err::<(), TaskError>(TaskError::InvalidId) && final(self).model()
                    == old(self).model(),
                Some(n) => if contains_id(old(self).model(), n) {
                    r is Ok && final(self).model() == set_completed_in(
                        old(self).model(),
                        n,
                        None,
                    )
                } else {
                    r == Err::<(), TaskError>(TaskError::NotFound) && final(self).model() == old(
                        self,
                    ).model()
                },
            },
            forall|n: u64| #[trigger] sqids_str(n) == Some(show_id@) ==> canonical_id(show_id@)
                == Some(n),
    {
        let n = match decode_id(show_id.as_str()) {
            Ok(n) => n,
            Err(DecodeError::Invalid) => {
                return Err(TaskError::InvalidId);
            },
        };
        self.set_completed_by_id(n, None)
    }

    /// Replace the title of the task with the encoded id.
    pub fn set_todo_title(&mut self, update_id: &String, new_title: &String) -> (r: Result<
        (),
        TaskError,
    >)
        requires
            old(self).wf(),
        ensures
            final(self).wf(),
            final(self).spec_next_id() == old(self).spec_next_id(),
            match canonical_id(update_id@) {
                None => r == Err::<(), TaskError>(TaskError::InvalidId) && final(self).model()
                    == old(self).model(),
                Some(n) => if contains_id(old(self).model(), n) {
                    r is Ok && final(self).model() == set_title_in(
                        old(self).model(),
                        n,
                        new_title@,
                    )
                } else {
                    r == Err::<(), TaskError>(TaskError::NotFound) && final(self).model() == old(
                        self,
                    ).model()
                },
            },
            forall|n: u64| #[trigger] sqids_str(n) == Some(update_id@) ==> canonical_id(update_id@)
                == Some(n),
    {
        let n = match decode_id(update_id.as_str()) {
            Ok(n) => n,
            Err(DecodeError::Invalid) => {
                return Err(TaskError::InvalidId);
            },
        };
        self.set_title_by_id(n, new_title)
    }

    /// Replace the notes of the task with the encoded id.
    pub fn set_todo_notes(&mut self, update_id: &String, new_notes: &String) -> (r: Result<
        (),
        TaskError,
    >)
        requires
            old(self).wf(),
        ensures
            final(self).wf(),
            final(self).spec_next_id() == old(self).spec_next_id(),
            match canonical_id(update_id@) {
                None => r == Err::<(), TaskError>(TaskError::InvalidId) && final(self).model()
                    == old(self).model(),
                Some(n) => if contains_id(old(self).model(), n) {
                    r is Ok && final(self).model() == set_notes_in(
                        old(self).model(),
                        n,
                        new_notes@,
                    )
                } else {
                    r == Err::<(), TaskError>(TaskError::NotFound) && final(self).model() == old(
                        self,
                    ).model()
                },
            },
            forall|n: u64| #[trigger] sqids_str(n) == Some(update_id@) ==> canonical_id(update_id@)
                == Some(n),
    {
        let n = match decode_id(update_id.as_str()) {
            Ok(n) => n,
            Err(DecodeError::Invalid) => {
                return Err(TaskError::InvalidId);
            },
        };
        self.set_notes_by_id(n, new_notes)
    }

    /// Remove the task with the encoded id. Its id is never assigned again.
    pub fn delete_todo(&mut self, delete_id: &String) -> (r: Result<(), TaskError>)
        requires
            old(self).wf(),
        ensures
            final(self).wf(),
            final(self).spec_next_id() == old(self).spec_next_id(),
            match canonical_id(delete_id@) {
                None => r == Err::<(), TaskError>(TaskError::InvalidId) && final(self).model()
                    == old(self).model(),
                Some(n) => if contains_id(old(self).model(), n) {
                    r is Ok && final(self).model() == remove_id(
                        old(self).model(),
                        n,
                    )
                } else {
                    r == Err::<(), TaskError>(TaskError::NotFound) && final(self).model() == old(
                        self,
                    ).model()
                },
            },
            forall|n: u64| #[trigger] sqids_str(n) == Some(delete_id@) ==> canonical_id(delete_id@)
                == Some(n),
    {
        let n = match decode_id(delete_id.as_str()) {
            Ok(n) => n,
            Err(DecodeError::Invalid) => {
                return Err(TaskError::InvalidId);
            },
        };
        self.delete_by_id(n)
    }
}

} // verus!
