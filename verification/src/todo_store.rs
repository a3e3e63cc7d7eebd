//! The todo record store: create, read, partial update, delete and filtered
//! queries over a collection of todo records, with unique monotonic ids and
//! timestamp bookkeeping.

use crate::errors::StoreError;
use crate::seq_lemmas::lemma_filter_element_of;
use vstd::pervasive::VecAdditionalExecFns;
use vstd::prelude::*;

verus! {

/// A stored todo record. Timestamps are epoch seconds.
#[derive(Debug, PartialEq)]
pub struct Todo {
    pub id: i64,
    pub title: String,
    pub description: Option<String>,
    pub completed: bool,
    pub created_at: i64,
    pub updated_at: i64,
}

/// Every stored record has a non-empty title and was never updated before it
/// was created.
pub open spec fn todo_wf(t: Todo) -> bool {
    &&& t.title@.len() > 0
    &&& t.created_at <= t.updated_at
}

impl Clone for Todo {
    fn clone(&self) -> (r: Self)
        ensures
            r == *self,
    {
        Todo {
            id: self.id,
            title: self.title.clone(),
            description: match &self.description {
                Some(d) => Some(d.clone()),
                None => None,
            },
            completed: self.completed,
            created_at: self.created_at,
            updated_at: self.updated_at,
        }
    }
}

/// The record with the given id, if any: first match in storage order.
pub open spec fn spec_find_id(s: Seq<Todo>, id: i64) -> Option<Todo>
    decreases s.len(),
{
    if s.len() == 0 {
        None
    } else if s[0].id == id {
        Some(s[0])
    } else {
        spec_find_id(s.subrange(1, s.len() as int), id)
    }
}

/// A partial update leaves every absent field at its stored value, keeps the
/// id and creation time, and refreshes the update time.
pub open spec fn spec_coalesce(
    t: Todo,
    title: Option<String>,
    description: Option<String>,
    completed: Option<bool>,
    now: i64,
) -> Todo {
    Todo {
        id: t.id,
        title: match title {
            Some(x) => x,
            None => t.title,
        },
        description: match description {
            Some(x) => Some(x),
            None => t.description,
        },
        completed: match completed {
            Some(b) => b,
            None => t.completed,
        },
        created_at: t.created_at,
        updated_at: now,
    }
}

/// The store after a partial update of the record with the given id; every
/// other record is untouched.
pub open spec fn spec_update_list(
    s: Seq<Todo>,
    id: i64,
    title: Option<String>,
    description: Option<String>,
    completed: Option<bool>,
    now: i64,
) -> Seq<Todo> {
    s.map_values(
        |t: Todo|
            if t.id == id {
                spec_coalesce(t, title, description, completed, now)
            } else {
                t
            },
    )
}

/// A title that is supplied must be non-empty; an absent one is always fine.
pub open spec fn valid_title(title: Option<String>) -> bool {
    match title {
        Some(t) => t@.len() > 0,
        None => true,
    }
}

/// Keeps every record but the one with the given id.
pub open spec fn pred_other_id(id: i64) -> spec_fn(Todo) -> bool {
    |t: Todo| t.id != id
}

/// Keeps the records with the given completion flag.
pub open spec fn pred_completed(completed: bool) -> spec_fn(Todo) -> bool {
    |t: Todo| t.completed == completed
}

/// Keeps the records created inside the inclusive time range.
pub open spec fn pred_in_range(start: i64, end: i64) -> spec_fn(Todo) -> bool {
    |t: Todo| start <= t.created_at && t.created_at <= end
}

/// No record with the given id was created after `now`.
pub open spec fn created_le(s: Seq<Todo>, id: i64, now: i64) -> bool {
    forall|i: int| 0 <= i < s.len() && (#[trigger] s[i]).id == id ==> s[i].created_at <= now
}

/// The in-memory todo table: records in storage order, and the next id the
/// store will assign.
pub struct TodoStore {
    pub todos: Vec<Todo>,
    pub next_id: i64,
}

impl TodoStore {
    /// Ids are assigned from 1 up, never reused, and stand in storage order;
    /// every stored record is well formed.
    pub open spec fn wf(self) -> bool {
        &&& 1 <= self.next_id
        &&& forall|i: int|
            0 <= i < self.todos@.len() ==> 1 <= (#[trigger] self.todos@[i]).id < self.next_id
                && todo_wf(self.todos@[i])
        &&& forall|i: int, j: int|
            0 <= i < j < self.todos@.len() ==> (#[trigger] self.todos@[i]).id < (
            #[trigger] self.todos@[j]).id
    }

    /// A fresh, empty store.
    pub fn new() -> (s: Self)
        ensures
            s.wf(),
            s.todos@.len() == 0,
            s.next_id == 1,
    {
        TodoStore { todos: Vec::new(), next_id: 1 }
    }

    /// Creates a record from a non-empty title and an optional description:
    /// it gets the next id, starts incomplete, and both timestamps are set to
    /// `now`. An empty title is rejected before anything is stored; a store
    /// whose ids are exhausted reports a storage failure.
    pub fn create_todo(&mut self, title: String, description: Option<String>, now: i64) -> (r:
        Result<Todo, StoreError>)
        requires
            old(self).wf(),
        ensures
            final(self).wf(),
            title@.len() == 0 ==> (r matches Err(e) && e is Validation
                && *final(self) == *old(self)),
            title@.len() > 0 && old(self).next_id == i64::MAX ==> (r matches Err(e) && e is Storage
                && *final(self) == *old(self)),
            title@.len() > 0 && old(self).next_id < i64::MAX ==> (r matches Ok(t)
                && t.id == old(self).next_id && t.title == title && t.description == description
                && t.completed == false && t.created_at == now && t.updated_at == now
                && final(self).todos@ == old(self).todos@.push(t)
                && final(self).next_id == old(self).next_id + 1),
    {
        if title.as_str().is_empty() {
            return Err(StoreError::Validation);
        }
        if self.next_id == i64::MAX {
            return Err(StoreError::Storage);
        }
        let t = Todo {
            id: self.next_id,
            title,
            description,
            completed: false,
            created_at: now,
            updated_at: now,
        };
        let stored = t.clone();
        self.todos.push(stored);
        self.next_id = self.next_id + 1;
        Ok(t)
    }

    /// Every record, in storage order.
    pub fn get_todos(&self) -> (r: Vec<Todo>)
        requires
            self.wf(),
        ensures
            r@ == self.todos@,
    {
        let mut r: Vec<Todo> = Vec::new();
        let mut i: usize = 0;
        while i < self.todos.len()
            invariant
                i <= self.todos@.len(),
                r@ == self.todos@.take(i as int),
            decreases self.todos@.len() - i,
        {
            r.push(self.todos[i].clone());
            proof {
                assert(self.todos@.take(i + 1 as int) =~= self.todos@.take(i as int).push(
                    self.todos@[i as int],
                ));
            }
            i = i + 1;
        }
        proof {
            assert(self.todos@.take(self.todos@.len() as int) =~= self.todos@);
        }
        r
    }

    /// The exact record with the given id, or a not-found error.
    pub fn get_todo_by_id(&self, id: i64) -> (r: Result<Todo, StoreError>)
        requires
            self.wf(),
        ensures
            r matches Ok(t) ==> spec_find_id(self.todos@, id) == Some(t),
            r matches Err(e) ==> e is NotFound && spec_find_id(self.todos@, id) is None,
            r is Ok <==> spec_find_id(self.todos@, id) is Some,
    {
        match find_index(&self.todos, id) {
            Some(i) => Ok(self.todos[i].clone()),
            None => Err(StoreError::NotFound),
        }
    }

    /// Applies a partial update to the record with the given id: absent
    /// fields keep their stored value, the update time is refreshed to `now`,
    /// and the updated record is returned. A supplied empty title is rejected
    /// before anything changes; an absent id is a not-found error.
    pub fn update_todo(
        &mut self,
        id: i64,
        title: Option<String>,
        description: Option<String>,
        completed: Option<bool>,
        now: i64,
    ) -> (r: Result<Todo, StoreError>)
        requires
            old(self).wf(),
            created_le(old(self).todos@, id, now),
        ensures
            final(self).wf(),
            !valid_title(title) ==> (r matches Err(e) && e is Validation
                && *final(self) == *old(self)),
            valid_title(title) && spec_find_id(old(self).todos@, id) is None ==> (r matches Err(e)
                && e is NotFound && *final(self) == *old(self)),
            valid_title(title) ==> (spec_find_id(old(self).todos@, id) matches Some(t0) ==> (
            r matches Ok(t) && t == spec_coalesce(t0, title, description, completed, now)
                && final(self).todos@ == spec_update_list(
                old(self).todos@,
                id,
                title,
                description,
                completed,
                now,
            ) && final(self).next_id == old(self).next_id)),
    {
        let title_ok = match &title {
            Some(t) => !t.as_str().is_empty(),
            None => true,
        };
        if !title_ok {
            return Err(StoreError::Validation);
        }
        match find_index(&self.todos, id) {
            None => Err(StoreError::NotFound),
            Some(i) => {
                let new_title = match title {
                    Some(t) => t,
                    None => self.todos[i].title.clone(),
                };
                let new_description = match description {
                    Some(d) => Some(d),
                    None => match &self.todos[i].description {
                        Some(d) => Some(d.clone()),
                        None => None,
                    },
                };
                let new_completed = match completed {
                    Some(b) => b,
                    None => self.todos[i].completed,
                };
                let t = Todo {
                    id: self.todos[i].id,
                    title: new_title,
                    description: new_description,
                    completed: new_completed,
                    created_at: self.todos[i].created_at,
                    updated_at: now,
                };
                let stored = t.clone();
                self.todos.set(i, stored);
                proof {
                    let ghost s0 = old(self).todos@;
                    assert forall|j: int| 0 <= j < s0.len() && j != i implies s0[j].id != id by {
                        if j < i as int {
                            assert(s0[j].id < s0[i as int].id);
                        } else {
                            assert(s0[i as int].id < s0[j].id);
                        }
                    }
                    assert(self.todos@ =~= spec_update_list(
                        s0,
                        id,
                        title,
                        description,
                        completed,
                        now,
                    ));
                }
                Ok(t)
            },
        }
    }

    /// Removes the record with the given id, if it is there; removing an
    /// absent id changes nothing and is not an error.
    pub fn delete_todo(&mut self, id: i64)
        requires
            old(self).wf(),
        ensures
            final(self).wf(),
            final(self).todos@ == old(self).todos@.filter(pred_other_id(id)),
            final(self).next_id == old(self).next_id,
    {
        let mut kept: Vec<Todo> = Vec::new();
        let mut i: usize = 0;
        while i < self.todos.len()
            invariant
                i <= self.todos@.len(),
                *self == *old(self),
                kept@ == self.todos@.take(i as int).filter(pred_other_id(id)),
            decreases self.todos@.len() - i,
        {
            if self.todos[i].id != id {
                kept.push(self.todos[i].clone());
            }
            proof {
                self.todos@.take(i as int).lemma_filter_push(
                    self.todos@[i as int],
                    pred_other_id(id),
                );
                assert(self.todos@.take(i + 1 as int) =~= self.todos@.take(i as int).push(
                    self.todos@[i as int],
                ));
            }
            i = i + 1;
        }
        proof {
            assert(self.todos@.take(self.todos@.len() as int) =~= self.todos@);
        }
        self.todos = kept;
        proof {
            lemma_filter_keeps_wf(old(self).todos@, pred_other_id(id), old(self).next_id);
        }
    }

    /// The records with the given completion flag, in storage order.
    pub fn get_todos_by_completion(&self, completed: bool) -> (r: Vec<Todo>)
        requires
            self.wf(),
        ensures
            r@ == self.todos@.filter(pred_completed(completed)),
    {
        let mut r: Vec<Todo> = Vec::new();
        let mut i: usize = 0;
        while i < self.todos.len()
            invariant
                i <= self.todos@.len(),
                r@ == self.todos@.take(i as int).filter(pred_completed(completed)),
            decreases self.todos@.len() - i,
        {
            if self.todos[i].completed == completed {
                r.push(self.todos[i].clone());
            }
            proof {
                self.todos@.take(i as int).lemma_filter_push(
                    self.todos@[i as int],
                    pred_completed(completed),
                );
                assert(self.todos@.take(i + 1 as int) =~= self.todos@.take(i as int).push(
                    self.todos@[i as int],
                ));
            }
            i = i + 1;
        }
        proof {
            assert(self.todos@.take(self.todos@.len() as int) =~= self.todos@);
        }
        r
    }

    /// The records created inside the inclusive range `[start, end]`, in
    /// storage order.
    pub fn todos_created_between(&self, start: i64, end: i64) -> (r: Vec<Todo>)
        requires
            self.wf(),
        ensures
            r@ == self.todos@.filter(pred_in_range(start, end)),
    {
        let mut r: Vec<Todo> = Vec::new();
        let mut i: usize = 0;
        while i < self.todos.len()
            invariant
                i <= self.todos@.len(),
                r@ == self.todos@.take(i as int).filter(pred_in_range(start, end)),
            decreases self.todos@.len() - i,
        {
            let t = &self.todos[i];
            if start <= t.created_at && t.created_at <= end {
                r.push(t.clone());
            }
            proof {
                self.todos@.take(i as int).lemma_filter_push(
                    self.todos@[i as int],
                    pred_in_range(start, end),
                );
                assert(self.todos@.take(i + 1 as int) =~= self.todos@.take(i as int).push(
                    self.todos@[i as int],
                ));
            }
            i = i + 1;
        }
        proof {
            assert(self.todos@.take(self.todos@.len() as int) =~= self.todos@);
        }
        r
    }
}

impl TodoStore {
    /// The records created inside the inclusive range given by two date-time
    /// strings (`%Y-%m-%dT%H:%M:%S`); a malformed bound is rejected before
    /// the store is read.
    pub fn get_todos_by_time_range(&self, start: &str, end: &str) -> (r: Result<
        Vec<Todo>,
        StoreError,
    >)
        requires
            self.wf(),
        ensures
            spec_parse_dt(start@) is None || spec_parse_dt(end@) is None ==> (r matches Err(e)
                && e is Validation),
            spec_parse_dt(start@) matches Some(s) ==> (spec_parse_dt(end@) matches Some(e) ==> (
            r matches Ok(v) && v@ == self.todos@.filter(pred_in_range(s, e)))),
    {
        let s = match parse_datetime(start) {
            Some(v) => v,
            None => {
                return Err(StoreError::Validation);
            },
        };
        let e = match parse_datetime(end) {
            Some(v) => v,
            None => {
                return Err(StoreError::Validation);
            },
        };
        Ok(self.todos_created_between(s, e))
    }
}

/// What chrono parses a date-time string to, as epoch seconds, if anything.
pub uninterp spec fn spec_parse_dt(s: Seq<char>) -> Option<i64>;

/// Relies on chrono: `NaiveDateTime`'s `FromStr` (the plain
/// `%Y-%m-%dT%H:%M:%S%.f` format, no zone) and the epoch-second value of its
/// result are both functions of the string alone.
#[verifier::external_body]
fn parse_datetime(s: &str) -> (r: Option<i64>)
    ensures
        r == spec_parse_dt(s@),
{
    s.parse::<chrono::NaiveDateTime>().ok().map(|dt| dt.and_utc().timestamp())
}

/// An update that supplies only a title changes the title, refreshes the
/// update time, and leaves every other field untouched.
pub proof fn lemma_update_title_only(t: Todo, title: String, now: i64)
    ensures
        spec_coalesce(t, Some(title), None, None, now).id == t.id,
        spec_coalesce(t, Some(title), None, None, now).title == title,
        spec_coalesce(t, Some(title), None, None, now).description == t.description,
        spec_coalesce(t, Some(title), None, None, now).completed == t.completed,
        spec_coalesce(t, Some(title), None, None, now).created_at == t.created_at,
        spec_coalesce(t, Some(title), None, None, now).updated_at == now,
{
}

/// After a delete, what is listed holds no record with the deleted id.
pub proof fn lemma_delete_removes_id(s: Seq<Todo>, id: i64)
    ensures
        forall|i: int|
            0 <= i < s.filter(pred_other_id(id)).len() ==> (#[trigger] s.filter(pred_other_id(id))[i]).id
                != id,
{
    assert forall|i: int| 0 <= i < s.filter(pred_other_id(id)).len() implies (#[trigger] s.filter(
        pred_other_id(id),
    )[i]).id != id by {
        s.lemma_filter_pred(pred_other_id(id), i);
    }
}

/// Index of the record with the given id, if any.
fn find_index(todos: &Vec<Todo>, id: i64) -> (r: Option<usize>)
    ensures
        r matches Some(i) ==> i < todos@.len() && todos@[i as int].id == id && spec_find_id(
            todos@,
            id,
        ) == Some(todos@[i as int]),
        r is None ==> spec_find_id(todos@, id) is None,
{
    let mut i: usize = 0;
    proof {
        assert(todos@.subrange(0, todos@.len() as int) =~= todos@);
    }
    while i < todos.len()
        invariant
            i <= todos@.len(),
            spec_find_id(todos@, id) == spec_find_id(
                todos@.subrange(i as int, todos@.len() as int),
                id,
            ),
        decreases todos@.len() - i,
    {
        if todos[i].id == id {
            proof {
                let tail = todos@.subrange(i as int, todos@.len() as int);
                assert(tail[0] == todos@[i as int]);
            }
            return Some(i);
        }
        proof {
            lemma_find_id_step(todos@, i as int, id);
        }
        i = i + 1;
    }
    proof {
        assert(todos@.subrange(todos@.len() as int, todos@.len() as int) =~= Seq::<Todo>::empty());
    }
    None
}

proof fn lemma_find_id_step(s: Seq<Todo>, i: int, id: i64)
    requires
        0 <= i < s.len(),
        s[i].id != id,
    ensures
        spec_find_id(s.subrange(i, s.len() as int), id) == spec_find_id(
            s.subrange(i + 1, s.len() as int),
            id,
        ),
{
    let tail = s.subrange(i, s.len() as int);
    assert(tail[0] == s[i]);
    assert(tail.subrange(1, tail.len() as int) =~= s.subrange(i + 1, s.len() as int));
}

/// Dropping records can break none of the store's invariants.
proof fn lemma_filter_keeps_wf(s: Seq<Todo>, pred: spec_fn(Todo) -> bool, next_id: i64)
    requires
        1 <= next_id,
        forall|i: int| 0 <= i < s.len() ==> 1 <= (#[trigger] s[i]).id < next_id && todo_wf(s[i]),
        forall|i: int, j: int| 0 <= i < j < s.len() ==> (#[trigger] s[i]).id < (#[trigger] s[j]).id,
    ensures
        forall|i: int|
            0 <= i < s.filter(pred).len() ==> 1 <= (#[trigger] s.filter(pred)[i]).id < next_id
                && todo_wf(s.filter(pred)[i]),
        forall|i: int, j: int|
            0 <= i < j < s.filter(pred).len() ==> (#[trigger] s.filter(pred)[i]).id < (
            #[trigger] s.filter(pred)[j]).id,
    decreases s.len(),
{
    reveal(Seq::filter);
    if s.len() > 0 {
        let last = s.last();
        let init = s.drop_last();
        lemma_filter_keeps_wf(init, pred, next_id);
        if pred(last) {
            assert forall|i: int, j: int|
                0 <= i < j < s.filter(pred).len() implies (#[trigger] s.filter(pred)[i]).id < (
            #[trigger] s.filter(pred)[j]).id by {
                if j < s.filter(pred).len() - 1 {
                } else {
                    lemma_filter_element_of(init, pred, i);
                }
            }
        }
    }
}

} // verus!
