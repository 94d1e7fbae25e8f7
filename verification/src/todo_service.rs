use vstd::prelude::*;
use vstd::multiset::Multiset;
use crate::counter::{bump, sat_inc};
use crate::dates::{rfc3339_instant, validate_due_date};
use crate::errors::ServiceError;
use crate::ident::{
    canon_text, id_from_serial, is_canonical_id, is_valid_object_id_text,
    lemma_serial_id_injective, lemma_store_assigned_mono, parse_object_id, serial_id_text,
    store_assigned, RecordId,
};
use crate::models::{CreateTodoRequest, Todo, TodoView, UpdateTodoRequest};

verus! {

broadcast use vstd::seq_lib::group_to_multiset_ensures;

/// The mathematical contents of a sequence of task records.
pub open spec fn todo_views(s: Seq<Todo>) -> Seq<TodoView> {
    Seq::new(s.len(), |i: int| s[i]@)
}

/// Whether a record passes the optional completion filter.
pub open spec fn completed_matches(v: TodoView, filter: Option<bool>) -> bool {
    match filter {
        Some(b) => v.completed == b,
        None => true,
    }
}

/// Newest first: creation times never increase along the sequence.
pub open spec fn sorted_newest_first(s: Seq<TodoView>) -> bool {
    forall|i: int, j: int| 0 <= i < j < s.len() ==> s[i].created_at >= s[j].created_at
}

/// Some record of `recs` carries identifier text `idt`.
pub open spec fn has_todo_id(recs: Seq<TodoView>, idt: Seq<char>) -> bool {
    exists|j: int| 0 <= j < recs.len() && (#[trigger] recs[j].id) == Some(idt)
}

/// The record a create request builds: explicit fields are taken over,
/// absent ones take the documented defaults, and both timestamps are the
/// creation instant.
pub open spec fn todo_created(v: TodoView, req: CreateTodoRequest, now: int, idt: Seq<char>) -> bool {
    &&& v.id == Some(idt)
    &&& v.title == req.title@
    &&& v.description == (match req.description {
        Some(d) => Some(d@),
        None => None::<Seq<char>>,
    })
    &&& v.completed == false
    &&& v.priority == (match req.priority {
        Some(p) => p as int,
        None => 3,
    })
    &&& v.due_date == (match req.due_date {
        Some(s) => match rfc3339_instant(s@) {
            Some(t) => Some(t as int),
            None => None::<int>,
        },
        None => None::<int>,
    })
    &&& v.created_at == now
    &&& v.updated_at == now
    &&& v.tags == (match req.tags {
        Some(ts) => ts.deep_view(),
        None => Seq::<Seq<char>>::empty(),
    })
    &&& v.category == (match req.category {
        Some(c) => c@,
        None => "default"@,
    })
}

/// The record a create request builds before the store assigns an
/// identifier: like [`todo_created`], with no identifier yet.
pub open spec fn todo_built(v: TodoView, req: CreateTodoRequest, now: int) -> bool {
    &&& v.id is None
    &&& v.title == req.title@
    &&& v.description == (match req.description {
        Some(d) => Some(d@),
        None => None::<Seq<char>>,
    })
    &&& v.completed == false
    &&& v.priority == (match req.priority {
        Some(p) => p as int,
        None => 3,
    })
    &&& v.due_date == (match req.due_date {
        Some(s) => match rfc3339_instant(s@) {
            Some(t) => Some(t as int),
            None => None::<int>,
        },
        None => None::<int>,
    })
    &&& v.created_at == now
    &&& v.updated_at == now
    &&& v.tags == (match req.tags {
        Some(ts) => ts.deep_view(),
        None => Seq::<Seq<char>>::empty(),
    })
    &&& v.category == (match req.category {
        Some(c) => c@,
        None => "default"@,
    })
}

/// Build the task record a create request describes: validate the due
/// date, take explicit fields over, give absent ones the documented
/// defaults, and set both timestamps to the creation instant.  The
/// identifier stays absent until the store assigns one.
pub fn build_todo(request: CreateTodoRequest, now: i64) -> (r: Result<Todo, ServiceError>)
    ensures
        match r {
            Ok(t) => todo_built(t@, request, now as int),
            Err(e) => e matches ServiceError::InvalidDateFormat,
        },
        (r is Err) <==> (request.due_date matches Some(s) && rfc3339_instant(s@) is None),
{
    let due = match validate_due_date(&request.due_date) {
        Ok(d) => d,
        Err(e) => {
            return Err(e);
        },
    };
    let todo = Todo {
        id: None,
        title: request.title,
        description: request.description,
        completed: false,
        priority: match request.priority {
            Some(p) => p,
            None => 3,
        },
        due_date: due,
        created_at: now,
        updated_at: now,
        tags: match request.tags {
            Some(ts) => ts,
            None => Vec::new(),
        },
        category: match request.category {
            Some(c) => c,
            None => String::from_str("default"),
        },
    };
    proof {
        if request.tags is None {
            assert(todo@.tags =~= Seq::<Seq<char>>::empty());
        }
    }
    Ok(todo)
}

/// The sparse merge of an update request into a stored record: present
/// fields are overwritten, absent ones are untouched, the update timestamp
/// is always refreshed, identifier and creation time never change.
pub open spec fn todo_updated(v0: TodoView, v1: TodoView, req: UpdateTodoRequest, now: int) -> bool {
    &&& v1.id == v0.id
    &&& v1.title == (match req.title {
        Some(s) => s@,
        None => v0.title,
    })
    &&& v1.description == (match req.description {
        Some(d) => Some(d@),
        None => v0.description,
    })
    &&& v1.completed == (match req.completed {
        Some(c) => c,
        None => v0.completed,
    })
    &&& v1.priority == (match req.priority {
        Some(p) => p as int,
        None => v0.priority,
    })
    &&& v1.due_date == (match req.due_date {
        Some(s) => match rfc3339_instant(s@) {
            Some(t) => Some(t as int),
            None => None::<int>,
        },
        None => v0.due_date,
    })
    &&& v1.created_at == v0.created_at
    &&& v1.updated_at == now
    &&& v1.tags == (match req.tags {
        Some(ts) => ts.deep_view(),
        None => v0.tags,
    })
    &&& v1.category == (match req.category {
        Some(c) => c@,
        None => v0.category,
    })
}

/// Whether the stored document actually changes under the merge: some
/// present field differs, or the refreshed update timestamp does.  This is
/// exactly the store's modified count being positive.
pub open spec fn todo_update_modifies(v0: TodoView, req: UpdateTodoRequest, now: int) -> bool {
    ||| (match req.title {
        Some(s) => s@ != v0.title,
        None => false,
    })
    ||| (match req.description {
        Some(d) => Some(d@) != v0.description,
        None => false,
    })
    ||| (match req.completed {
        Some(c) => c != v0.completed,
        None => false,
    })
    ||| (match req.priority {
        Some(p) => p as int != v0.priority,
        None => false,
    })
    ||| (match req.due_date {
        Some(s) => (match rfc3339_instant(s@) {
            Some(t) => Some(t as int),
            None => None::<int>,
        }) != v0.due_date,
        None => false,
    })
    ||| (match req.tags {
        Some(ts) => ts.deep_view() != v0.tags,
        None => false,
    })
    ||| (match req.category {
        Some(c) => c@ != v0.category,
        None => false,
    })
    ||| now != v0.updated_at
}

/// A toggle writes the negated flag and a refreshed update timestamp and
/// touches nothing else.
pub open spec fn todo_toggled(v0: TodoView, v1: TodoView, now: int) -> bool {
    &&& v1.id == v0.id
    &&& v1.title == v0.title
    &&& v1.description == v0.description
    &&& v1.completed == !v0.completed
    &&& v1.priority == v0.priority
    &&& v1.due_date == v0.due_date
    &&& v1.created_at == v0.created_at
    &&& v1.updated_at == now
    &&& v1.tags == v0.tags
    &&& v1.category == v0.category
}

/// The model of the task collection: the stored records, the serial the
/// store will assign next, and a count of store round trips.
pub struct TodoStore {
    records: Vec<Todo>,
    next_serial: u64,
    ops: u64,
}

impl TodoStore {
    /// The stored records, as mathematical values, in insertion order.
    pub closed spec fn recs(&self) -> Seq<TodoView> {
        todo_views(self.records@)
    }

    /// How many store round trips have been made.
    pub closed spec fn op_count(&self) -> int {
        self.ops as int
    }

    /// The serial the store assigns to the next created record.
    pub closed spec fn serial(&self) -> int {
        self.next_serial as int
    }

    /// Every stored record has a canonical, store-assigned, pairwise
    /// distinct identifier.
    pub open spec fn wf(&self) -> bool {
        &&& (forall|j: int| 0 <= j < self.recs().len() ==> (#[trigger] self.recs()[j].id) is Some
            && is_canonical_id(self.recs()[j].id->0))
        &&& (forall|j: int| 0 <= j < self.recs().len() ==> store_assigned(
            (#[trigger] self.recs()[j].id)->0,
            self.serial(),
        ))
        &&& (forall|j: int, k: int| 0 <= j < k < self.recs().len() ==> (#[trigger] self.recs()[j].id)->0
            != (#[trigger] self.recs()[k].id)->0)
    }

    /// An empty collection.
    pub fn new() -> (s: TodoStore)
        ensures
            s.wf(),
            s.recs() == Seq::<TodoView>::empty(),
            s.op_count() == 0,
            s.serial() == 0,
    {
        let s = TodoStore { records: Vec::new(), next_serial: 0, ops: 0 };
        proof {
            assert(s.recs() =~= Seq::<TodoView>::empty());
        }
        s
    }

    /// How many store round trips have been made, for callers and tests.
    pub fn ops_performed(&self) -> (n: u64)
        ensures
            n as int == self.op_count(),
    {
        self.ops
    }

    /// Create a task record: validate the due date, fill defaults, let the
    /// store assign a fresh identifier, set both timestamps to `now`, and
    /// return the identifier's canonical text.
    pub fn create_todo(&mut self, request: CreateTodoRequest, now: i64) -> (r: Result<
        String,
        ServiceError,
    >)
        requires
            old(self).wf(),
        ensures
            final(self).wf(),
            match r {
                Ok(id_text) => {
                    &&& final(self).recs().len() == old(self).recs().len() + 1
                    &&& final(self).recs().drop_last() == old(self).recs()
                    &&& todo_created(final(self).recs().last(), request, now as int, id_text@)
                    &&& id_text@ == serial_id_text(old(self).serial() as u64)
                    &&& is_canonical_id(id_text@)
                    &&& final(self).serial() == old(self).serial() + 1
                    &&& final(self).op_count() == sat_inc(old(self).op_count())
                },
                Err(e) => {
                    &&& *final(self) == *old(self)
                    &&& match e {
                        ServiceError::InvalidDateFormat => request.due_date matches Some(s)
                            && rfc3339_instant(s@) is None,
                        ServiceError::Store(_) => old(self).serial() == u64::MAX as int && !(
                        request.due_date matches Some(s) && rfc3339_instant(s@) is None),
                        _ => false,
                    }
                },
            },
            (r is Err) <==> ((request.due_date matches Some(s) && rfc3339_instant(s@) is None)
                || old(self).serial() == u64::MAX as int),
    {
        let mut todo = match build_todo(request, now) {
            Ok(t) => t,
            Err(e) => {
                return Err(e);
            },
        };
        if self.next_serial == u64::MAX {
            return Err(ServiceError::Store(String::from_str("identifier space exhausted")));
        }
        let id = id_from_serial(self.next_serial);
        let id_text = id.to_hex();
        todo.id = Some(id);
        self.records.push(todo);
        self.next_serial = self.next_serial + 1;
        self.ops = bump(self.ops);
        proof {
            let orecs = old(self).recs();
            let nrecs = self.recs();
            assert(nrecs =~= orecs.push(todo@));
            assert(nrecs.drop_last() =~= orecs);
            let ghost news: u64 = (old(self).serial()) as u64;
            assert(todo@.id == Some(serial_id_text(news)));
            assert forall|j: int| 0 <= j < nrecs.len() implies (#[trigger] nrecs[j].id) is Some
                && is_canonical_id(nrecs[j].id->0) by {
                if j < orecs.len() {
                    assert(orecs[j].id is Some && is_canonical_id(orecs[j].id->0));
                }
            }
            assert forall|j: int| 0 <= j < nrecs.len() implies store_assigned(
                (#[trigger] nrecs[j].id)->0,
                self.serial(),
            ) by {
                if j < orecs.len() {
                    assert(orecs[j].id is Some);
                    assert(store_assigned(orecs[j].id->0, old(self).serial()));
                    lemma_store_assigned_mono(orecs[j].id->0, old(self).serial(), self.serial());
                } else {
                    assert((news as int) < self.serial() && nrecs[j].id->0 == serial_id_text(news));
                    assert(store_assigned(nrecs[j].id->0, self.serial()));
                }
            }
            assert forall|j: int, k: int| 0 <= j < k < nrecs.len() implies (#[trigger] nrecs[j].id)->0
                != (#[trigger] nrecs[k].id)->0 by {
                if k < orecs.len() {
                    assert(orecs[j].id->0 != orecs[k].id->0);
                } else {
                    assert(orecs[j].id is Some);
                    assert(store_assigned(orecs[j].id->0, old(self).serial()));
                    let s = choose|s: u64| (s as int) < old(self).serial() && orecs[j].id->0
                        == serial_id_text(s);
                    if nrecs[j].id->0 == nrecs[k].id->0 {
                        assert(serial_id_text(s) == serial_id_text(news));
                        lemma_serial_id_injective(s, news);
                        assert(false);
                    }
                }
            }
        }
        Ok(id_text)
    }

    /// List task records, optionally restricted to one completion state,
    /// newest first.
    pub fn get_todos(&mut self, completed: Option<bool>) -> (r: Result<Vec<Todo>, ServiceError>)
        requires
            old(self).wf(),
        ensures
            final(self).wf(),
            final(self).recs() == old(self).recs(),
            final(self).serial() == old(self).serial(),
            final(self).op_count() == sat_inc(old(self).op_count()),
            match r {
                Ok(v) => todo_views(v@).to_multiset() == old(self).recs().filter(
                    |t: TodoView| completed_matches(t, completed),
                ).to_multiset() && sorted_newest_first(todo_views(v@)),
                Err(e) => false,
            },
    {
        self.ops = bump(self.ops);
        proof {
            lemma_todo_wf_same(*old(self), *self);
        }
        let matched = filter_todos(&self.records, completed);
        let sorted = sort_todos(matched);
        Ok(sorted)
    }

    /// Fetch one record by its textual identifier.  A malformed identifier
    /// is rejected without touching the store; an absent record is a
    /// successful `None`, not an error.
    pub fn get_todo_by_id(&mut self, id: String) -> (r: Result<Option<Todo>, ServiceError>)
        requires
            old(self).wf(),
        ensures
            final(self).wf(),
            final(self).recs() == old(self).recs(),
            final(self).serial() == old(self).serial(),
            match r {
                Ok(found) => {
                    &&& is_valid_object_id_text(id@)
                    &&& final(self).op_count() == sat_inc(old(self).op_count())
                    &&& match found {
                        Some(t) => exists|j: int|
                            0 <= j < old(self).recs().len() && (#[trigger] old(self).recs()[j]).id
                                == Some(canon_text(id@)) && t@ == old(self).recs()[j],
                        None => !has_todo_id(old(self).recs(), canon_text(id@)),
                    }
                },
                Err(e) => {
                    &&& e matches ServiceError::InvalidIdentifier
                    &&& !is_valid_object_id_text(id@)
                    &&& *final(self) == *old(self)
                },
            },
            (r is Err) <==> !is_valid_object_id_text(id@),
    {
        let oid = match parse_object_id(id.as_str()) {
            Ok(o) => o,
            Err(e) => {
                return Err(e);
            },
        };
        self.ops = bump(self.ops);
        proof {
            lemma_todo_wf_same(*old(self), *self);
        }
        match find_todo_index(&self.records, &oid) {
            Some(j) => {
                let t = self.records[j].clone();
                Ok(Some(t))
            },
            None => Ok(None),
        }
    }

    /// Apply a sparse update: only fields present in the request are
    /// written, plus a refreshed update timestamp.  The result reports
    /// whether the stored document actually changed; an absent record
    /// yields `false`, not an error.
    pub fn update_todo(&mut self, id: String, request: UpdateTodoRequest, now: i64) -> (r: Result<
        bool,
        ServiceError,
    >)
        requires
            old(self).wf(),
        ensures
            final(self).wf(),
            final(self).serial() == old(self).serial(),
            final(self).recs().len() == old(self).recs().len(),
            match r {
                Ok(modified) => {
                    &&& is_valid_object_id_text(id@)
                    &&& !(request.due_date matches Some(s) && rfc3339_instant(s@) is None)
                    &&& final(self).op_count() == sat_inc(old(self).op_count())
                    &&& (has_todo_id(old(self).recs(), canon_text(id@)) ==> exists|j: int|
                        0 <= j < old(self).recs().len() && (#[trigger] old(self).recs()[j]).id
                            == Some(canon_text(id@)) && todo_updated(
                            old(self).recs()[j],
                            final(self).recs()[j],
                            request,
                            now as int,
                        ) && modified == todo_update_modifies(old(self).recs()[j], request, now as int)
                            && (forall|k: int|
                            0 <= k < old(self).recs().len() && k != j ==> final(self).recs()[k]
                                == old(self).recs()[k]))
                    &&& (!has_todo_id(old(self).recs(), canon_text(id@)) ==> final(self).recs()
                        == old(self).recs() && modified == false)
                },
                Err(e) => {
                    &&& final(self).recs() == old(self).recs()
                    &&& final(self).op_count() == old(self).op_count()
                    &&& match e {
                        ServiceError::InvalidIdentifier => !is_valid_object_id_text(id@),
                        ServiceError::InvalidDateFormat => is_valid_object_id_text(id@) && (
                        request.due_date matches Some(s) && rfc3339_instant(s@) is None),
                        _ => false,
                    }
                },
            },
            (r is Err) <==> (!is_valid_object_id_text(id@) || (request.due_date matches Some(s)
                && rfc3339_instant(s@) is None)),
    {
        let oid = match parse_object_id(id.as_str()) {
            Ok(o) => o,
            Err(e) => {
                return Err(e);
            },
        };
        let due_parsed = match validate_due_date(&request.due_date) {
            Ok(d) => d,
            Err(e) => {
                return Err(e);
            },
        };
        self.ops = bump(self.ops);
        let j = match find_todo_index(&self.records, &oid) {
            Some(j) => j,
            None => {
                proof {
                    lemma_todo_wf_same(*old(self), *self);
                }
                return Ok(false);
            },
        };
        let mut updated = self.records[j].clone();
        let mut changed = now != updated.updated_at;
        updated.updated_at = now;
        match request.title {
            Some(s) => {
                if !s.eq(&updated.title) {
                    changed = true;
                }
                updated.title = s;
            },
            None => {},
        }
        match request.description {
            Some(d) => {
                let same = match &updated.description {
                    Some(cur) => d.eq(cur),
                    None => false,
                };
                if !same {
                    changed = true;
                }
                updated.description = Some(d);
            },
            None => {},
        }
        match request.completed {
            Some(c) => {
                if c != updated.completed {
                    changed = true;
                }
                updated.completed = c;
            },
            None => {},
        }
        match request.priority {
            Some(p) => {
                if p != updated.priority {
                    changed = true;
                }
                updated.priority = p;
            },
            None => {},
        }
        match &request.due_date {
            Some(_) => {
                let same = match (due_parsed, updated.due_date) {
                    (Some(a), Some(b)) => a == b,
                    (None, None) => true,
                    _ => false,
                };
                if !same {
                    changed = true;
                }
                updated.due_date = due_parsed;
            },
            None => {},
        }
        match request.tags {
            Some(ts) => {
                if !crate::models::tags_equal(&ts, &updated.tags) {
                    changed = true;
                }
                updated.tags = ts;
            },
            None => {},
        }
        match request.category {
            Some(c) => {
                if !c.eq(&updated.category) {
                    changed = true;
                }
                updated.category = c;
            },
            None => {},
        }
        let ghost v0 = old(self).recs()[j as int];
        let ghost v1 = updated@;
        self.records[j] = updated;
        proof {
            assert(self.recs() =~= old(self).recs().update(j as int, v1));
            assert(todo_updated(v0, v1, request, now as int));
            assert(changed == todo_update_modifies(v0, request, now as int));
            lemma_todo_wf_replace(*old(self), *self, j as int, v1);
        }
        Ok(changed)
    }

    /// Delete one record by identifier; report whether one was removed.
    pub fn delete_todo(&mut self, id: String) -> (r: Result<bool, ServiceError>)
        requires
            old(self).wf(),
        ensures
            final(self).wf(),
            final(self).serial() == old(self).serial(),
            match r {
                Ok(b) => {
                    &&& is_valid_object_id_text(id@)
                    &&& final(self).op_count() == sat_inc(old(self).op_count())
                    &&& b == has_todo_id(old(self).recs(), canon_text(id@))
                    &&& if b {
                        exists|j: int|
                            0 <= j < old(self).recs().len() && (#[trigger] old(self).recs()[j]).id
                                == Some(canon_text(id@)) && final(self).recs() == old(
                                self,
                            ).recs().remove(j)
                    } else {
                        final(self).recs() == old(self).recs()
                    }
                },
                Err(e) => {
                    &&& e matches ServiceError::InvalidIdentifier
                    &&& !is_valid_object_id_text(id@)
                    &&& *final(self) == *old(self)
                },
            },
            (r is Err) <==> !is_valid_object_id_text(id@),
    {
        let oid = match parse_object_id(id.as_str()) {
            Ok(o) => o,
            Err(e) => {
                return Err(e);
            },
        };
        self.ops = bump(self.ops);
        match find_todo_index(&self.records, &oid) {
            Some(j) => {
                self.records.remove(j);
                proof {
                    assert(self.recs() =~= old(self).recs().remove(j as int));
                    lemma_todo_wf_remove(*old(self), *self, j as int);
                }
                Ok(true)
            },
            None => {
                proof {
                    lemma_todo_wf_same(*old(self), *self);
                }
                Ok(false)
            },
        }
    }

    /// Toggle the completion flag: read the record (absence is a hard
    /// error here), write the negated flag plus a refreshed update
    /// timestamp, and return the new value of the flag.
    pub fn toggle_todo_completion(&mut self, id: String, now: i64) -> (r: Result<
        bool,
        ServiceError,
    >)
        requires
            old(self).wf(),
        ensures
            final(self).wf(),
            final(self).serial() == old(self).serial(),
            final(self).recs().len() == old(self).recs().len(),
            match r {
                Ok(b) => {
                    &&& is_valid_object_id_text(id@)
                    &&& final(self).op_count() == sat_inc(sat_inc(old(self).op_count()))
                    &&& exists|j: int|
                        0 <= j < old(self).recs().len() && (#[trigger] old(self).recs()[j]).id
                            == Some(canon_text(id@)) && b == !old(self).recs()[j].completed
                            && todo_toggled(old(self).recs()[j], final(self).recs()[j], now as int)
                            && (forall|k: int|
                            0 <= k < old(self).recs().len() && k != j ==> final(self).recs()[k]
                                == old(self).recs()[k])
                },
                Err(e) => {
                    &&& final(self).recs() == old(self).recs()
                    &&& match e {
                        ServiceError::InvalidIdentifier => !is_valid_object_id_text(id@)
                            && final(self).op_count() == old(self).op_count(),
                        ServiceError::NotFound => is_valid_object_id_text(id@) && !has_todo_id(
                            old(self).recs(),
                            canon_text(id@),
                        ) && final(self).op_count() == sat_inc(old(self).op_count()),
                        _ => false,
                    }
                },
            },
            (r is Ok) <==> (is_valid_object_id_text(id@) && has_todo_id(
                old(self).recs(),
                canon_text(id@),
            )),
    {
        let oid = match parse_object_id(id.as_str()) {
            Ok(o) => o,
            Err(e) => {
                return Err(e);
            },
        };
        self.ops = bump(self.ops);
        let j = match find_todo_index(&self.records, &oid) {
            Some(j) => j,
            None => {
                proof {
                    lemma_todo_wf_same(*old(self), *self);
                }
                return Err(ServiceError::NotFound);
            },
        };
        let mut updated = self.records[j].clone();
        let new_val = !updated.completed;
        updated.completed = new_val;
        updated.updated_at = now;
        let ghost v0 = old(self).recs()[j as int];
        let ghost v1 = updated@;
        self.records[j] = updated;
        self.ops = bump(self.ops);
        proof {
            assert(self.recs() =~= old(self).recs().update(j as int, v1));
            assert(todo_toggled(v0, v1, now as int));
            lemma_todo_wf_replace(*old(self), *self, j as int, v1);
        }
        Ok(new_val)
    }
}

/// Whether one record carries the given identifier.
fn todo_id_matches(t: &Todo, id: &RecordId) -> (r: bool)
    ensures
        r == (t@.id == Some(id@)),
{
    match &t.id {
        Some(rid) => rid.same_id(id),
        None => false,
    }
}

/// Index of the record carrying the given identifier, if any.
fn find_todo_index(records: &Vec<Todo>, id: &RecordId) -> (r: Option<usize>)
    ensures
        match r {
            Some(j) => (j as int) < records@.len() && todo_views(records@)[j as int].id == Some(
                id@,
            ),
            None => forall|j: int|
                0 <= j < records@.len() ==> (#[trigger] todo_views(records@)[j].id) != Some(id@),
        },
{
    let n = records.len();
    let mut k: usize = 0;
    while k < n
        invariant
            n == records@.len(),
            k <= n,
            forall|j: int|
                0 <= j < k as int ==> (#[trigger] todo_views(records@)[j].id) != Some(id@),
        decreases n - k,
    {
        if todo_id_matches(&records[k], id) {
            return Some(k);
        }
        k += 1;
    }
    None
}

/// The records passing the completion filter, in stored order.
fn filter_todos(records: &Vec<Todo>, completed: Option<bool>) -> (r: Vec<Todo>)
    ensures
        todo_views(r@) == todo_views(records@).filter(
            |t: TodoView| completed_matches(t, completed),
        ),
{
    let ghost pred = |t: TodoView| completed_matches(t, completed);
    let mut r: Vec<Todo> = Vec::new();
    let n = records.len();
    let mut i: usize = 0;
    proof {
        assert(todo_views(r@) =~= todo_views(records@).subrange(0, 0).filter(pred));
    }
    while i < n
        invariant
            n == records@.len(),
            i <= n,
            todo_views(r@) == todo_views(records@).subrange(0, i as int).filter(pred),
            pred == (|t: TodoView| completed_matches(t, completed)),
        decreases n - i,
    {
        let keep = match completed {
            Some(b) => records[i].completed == b,
            None => true,
        };
        let ghost pre_r = todo_views(r@);
        if keep {
            r.push(records[i].clone());
        }
        proof {
            reveal_with_fuel(Seq::<TodoView>::filter, 2);
            let all = todo_views(records@);
            let pre = all.subrange(0, i as int);
            let post = all.subrange(0, i as int + 1);
            assert(post.drop_last() =~= pre);
            assert(post.last() == all[i as int]);
            assert(keep == pred(all[i as int]));
            if keep {
                assert(todo_views(r@) =~= pre_r.push(records@[i as int]@));
                assert(post.filter(pred) == pre.filter(pred).push(all[i as int]));
            } else {
                assert(post.filter(pred) == pre.filter(pred));
            }
        }
        i += 1;
    }
    proof {
        assert(todo_views(records@).subrange(0, n as int) =~= todo_views(records@));
    }
    r
}

/// First position whose record was created no later than `t`, in a
/// newest-first sequence.
fn sorted_position(out: &Vec<Todo>, t: &Todo) -> (p: usize)
    ensures
        p as int <= out@.len(),
        forall|q: int| 0 <= q < p as int ==> #[trigger] out@[q].created_at >= t.created_at,
        (p as int) < out@.len() ==> out@[p as int].created_at < t.created_at,
{
    let n = out.len();
    let mut p: usize = 0;
    while p < n
        invariant
            p <= n,
            n == out@.len(),
            forall|q: int| 0 <= q < p as int ==> #[trigger] out@[q].created_at >= t.created_at,
        decreases n - p,
    {
        if out[p].created_at < t.created_at {
            return p;
        }
        p += 1;
    }
    p
}

/// Insert a record into a newest-first sequence, keeping it sorted.
fn insert_sorted(out: &mut Vec<Todo>, t: Todo)
    requires
        sorted_newest_first(todo_views(old(out)@)),
    ensures
        sorted_newest_first(todo_views(final(out)@)),
        todo_views(final(out)@).to_multiset() == todo_views(old(out)@).to_multiset().insert(t@),
{
    let p = sorted_position(out, &t);
    let ghost pre = todo_views(out@);
    out.insert(p, t);
    proof {
        let pp = p as int;
        let post = todo_views(out@);
        assert(post =~= pre.insert(pp, t@));
        assert(pre.insert(pp, t@).to_multiset() == pre.to_multiset().insert(t@));
        pre.insert_ensures(pp, t@);
        assert forall|q: int| 0 <= q < pp implies pre[q].created_at >= t@.created_at by {
            assert(old(out)@[q].created_at >= t.created_at);
        }
        assert forall|i: int, j: int| 0 <= i < j < post.len() implies post[i].created_at
            >= post[j].created_at by {
            if i < pp {
                assert(post[i] == pre[i]);
            } else if i == pp {
                assert(post[i] == t@);
            } else {
                assert(post[i] == pre[i - 1]);
                assert(pp < pre.len());
            }
            if j < pp {
                assert(post[j] == pre[j]);
            } else if j == pp {
                assert(post[j] == t@);
            } else {
                assert(post[j] == pre[j - 1]);
                assert(pp < pre.len());
                assert(pre[pp].created_at < t@.created_at);
                if pp < j - 1 {
                    assert(pre[pp].created_at >= pre[j - 1].created_at);
                }
            }
        }
    }
}

/// Sort records newest first; the contents are kept exactly.
fn sort_todos(v: Vec<Todo>) -> (r: Vec<Todo>)
    ensures
        sorted_newest_first(todo_views(r@)),
        todo_views(r@).to_multiset() == todo_views(v@).to_multiset(),
{
    broadcast use vstd::multiset::group_multiset_axioms;

    let ghost orig = todo_views(v@);
    let mut rest = v;
    let mut out: Vec<Todo> = Vec::new();
    proof {
        assert(todo_views(out@) =~= Seq::<TodoView>::empty());
        assert forall|a: TodoView| todo_views(out@).to_multiset().count(a) == 0 by {
            assert(!todo_views(out@).contains(a));
        }
        assert(todo_views(out@).to_multiset() =~= Multiset::<TodoView>::empty());
        assert(todo_views(out@).to_multiset().add(todo_views(rest@).to_multiset())
            =~= orig.to_multiset());
    }
    while rest.len() > 0
        invariant
            sorted_newest_first(todo_views(out@)),
            todo_views(out@).to_multiset().add(todo_views(rest@).to_multiset())
                == orig.to_multiset(),
        decreases rest@.len(),
    {
        let ghost pre_rest = rest@;
        let ghost pre_out_ms = todo_views(out@).to_multiset();
        let t = match rest.pop() {
            Some(t) => t,
            None => vstd::pervasive::unreached(),
        };
        insert_sorted(&mut out, t);
        proof {
            assert(todo_views(pre_rest) =~= todo_views(rest@).push(t@));
            assert(todo_views(pre_rest).to_multiset() == todo_views(rest@).to_multiset().insert(
                t@,
            ));
            assert(todo_views(out@).to_multiset().add(todo_views(rest@).to_multiset())
                =~= pre_out_ms.add(todo_views(pre_rest).to_multiset()));
        }
    }
    proof {
        assert forall|a: TodoView| todo_views(rest@).to_multiset().count(a) == 0 by {
            assert(!todo_views(rest@).contains(a));
        }
        assert(todo_views(out@).to_multiset() =~= orig.to_multiset());
    }
    out
}

/// Immediately after creation, the created and updated timestamps are both
/// the creation instant.
pub proof fn lemma_create_timestamps(v: TodoView, req: CreateTodoRequest, now: int, idt: Seq<char>)
    requires
        todo_created(v, req, now, idt),
    ensures
        v.created_at == v.updated_at,
        v.created_at == now,
{
}

/// A sparse update leaves every field absent from the request exactly as it
/// was; only present fields and the update timestamp change.
pub proof fn lemma_update_touches_only_present(
    v0: TodoView,
    v1: TodoView,
    req: UpdateTodoRequest,
    now: int,
)
    requires
        todo_updated(v0, v1, req, now),
    ensures
        v1.id == v0.id,
        v1.created_at == v0.created_at,
        req.title is None ==> v1.title == v0.title,
        req.description is None ==> v1.description == v0.description,
        req.completed is None ==> v1.completed == v0.completed,
        req.priority is None ==> v1.priority == v0.priority,
        req.due_date is None ==> v1.due_date == v0.due_date,
        req.tags is None ==> v1.tags == v0.tags,
        req.category is None ==> v1.category == v0.category,
        v1.updated_at == now,
{
}

/// The update request repeats exactly what the record already holds: every
/// present field equals the stored value.
pub open spec fn todo_request_matches_stored(v0: TodoView, req: UpdateTodoRequest) -> bool {
    &&& (match req.title {
        Some(s) => s@ == v0.title,
        None => true,
    })
    &&& (match req.description {
        Some(d) => Some(d@) == v0.description,
        None => true,
    })
    &&& (match req.completed {
        Some(c) => c == v0.completed,
        None => true,
    })
    &&& (match req.priority {
        Some(p) => p as int == v0.priority,
        None => true,
    })
    &&& (match req.due_date {
        Some(s) => (match rfc3339_instant(s@) {
            Some(t) => Some(t as int),
            None => None::<int>,
        }) == v0.due_date,
        None => true,
    })
    &&& (match req.tags {
        Some(ts) => ts.deep_view() == v0.tags,
        None => true,
    })
    &&& (match req.category {
        Some(c) => c@ == v0.category,
        None => true,
    })
}

/// Updating with the exact values already stored reports "not modified" and
/// leaves the record identical — provided the refreshed update timestamp
/// also repeats the stored one, since the merge always rewrites it.
pub proof fn lemma_update_idempotent(
    v0: TodoView,
    v1: TodoView,
    req: UpdateTodoRequest,
    now: int,
)
    requires
        todo_updated(v0, v1, req, now),
        todo_request_matches_stored(v0, req),
        now == v0.updated_at,
    ensures
        !todo_update_modifies(v0, req, now),
        v1 == v0,
{
    assert(v1 =~= v0);
}

/// Two toggles in sequence restore the flag, and the value the second
/// toggle reports is the flag the record held before the first.
pub proof fn lemma_toggle_self_inverse(
    v0: TodoView,
    v1: TodoView,
    v2: TodoView,
    n1: int,
    n2: int,
)
    requires
        todo_toggled(v0, v1, n1),
        todo_toggled(v1, v2, n2),
    ensures
        v2.completed == v0.completed,
        !v1.completed == v0.completed,
{
}

/// The identifiers carried by the records of a sequence.
pub open spec fn todo_id_set(s: Seq<TodoView>) -> Set<Seq<char>> {
    Set::new(|t: Seq<char>| exists|j: int| 0 <= j < s.len() && (#[trigger] s[j]).id == Some(t))
}

/// A filter that accepts every element returns the sequence unchanged.
proof fn lemma_filter_all(s: Seq<TodoView>, pred: spec_fn(TodoView) -> bool)
    requires
        forall|i: int| 0 <= i < s.len() ==> pred(#[trigger] s[i]),
    ensures
        s.filter(pred) == s,
    decreases s.len(),
{
    reveal_with_fuel(Seq::<_>::filter, 2);
    if s.len() == 0 {
        assert(s.filter(pred) =~= s);
    } else {
        lemma_filter_all(s.drop_last(), pred);
        assert(pred(s.last()));
        assert(s.filter(pred) =~= s);
    }
}

/// The listing filtered to completed records and the one filtered to open
/// records together cover, by identifier, exactly the unfiltered listing.
pub proof fn lemma_list_partition(
    all: Seq<TodoView>,
    rt: Seq<TodoView>,
    rf: Seq<TodoView>,
    ra: Seq<TodoView>,
)
    requires
        rt.to_multiset() == all.filter(|t: TodoView| completed_matches(t, Some(true))).to_multiset(),
        rf.to_multiset() == all.filter(
            |t: TodoView| completed_matches(t, Some(false)),
        ).to_multiset(),
        ra.to_multiset() == all.filter(|t: TodoView| completed_matches(t, None)).to_multiset(),
    ensures
        todo_id_set(rt).union(todo_id_set(rf)) == todo_id_set(ra),
{
    broadcast use vstd::seq_lib::group_filter_ensures;

    let pt = |t: TodoView| completed_matches(t, Some(true));
    let pf = |t: TodoView| completed_matches(t, Some(false));
    let pa = |t: TodoView| completed_matches(t, None);
    lemma_filter_all(all, pa);
    assert forall|x: Seq<char>| todo_id_set(rt).union(todo_id_set(rf)).contains(x)
        implies todo_id_set(ra).contains(x) by {
        let (src, p) = if todo_id_set(rt).contains(x) {
            (rt, pt)
        } else {
            (rf, pf)
        };
        let j = choose|j: int| 0 <= j < src.len() && (#[trigger] src[j]).id == Some(x);
        let v = src[j];
        assert(src.contains(v));
        assert(src.to_multiset().count(v) > 0);
        assert(all.filter(p).contains(v));
        all.lemma_filter_contains_rev(p, v);
        assert(all.contains(v));
        assert(ra.to_multiset().count(v) > 0);
        assert(ra.contains(v));
        let k = choose|k: int| 0 <= k < ra.len() && ra[k] == v;
        assert(ra[k].id == Some(x));
    }
    assert forall|x: Seq<char>| todo_id_set(ra).contains(x) implies todo_id_set(rt).union(
        todo_id_set(rf),
    ).contains(x) by {
        let j = choose|j: int| 0 <= j < ra.len() && (#[trigger] ra[j]).id == Some(x);
        let v = ra[j];
        assert(ra.contains(v));
        assert(ra.to_multiset().count(v) > 0);
        assert(all.contains(v));
        let i = choose|i: int| 0 <= i < all.len() && all[i] == v;
        if v.completed {
            assert(pt(all[i]));
            assert(all.filter(pt).contains(all[i]));
            assert(rt.to_multiset().count(v) > 0);
            assert(rt.contains(v));
            let k = choose|k: int| 0 <= k < rt.len() && rt[k] == v;
            assert(rt[k].id == Some(x));
            assert(todo_id_set(rt).contains(x));
        } else {
            assert(pf(all[i]));
            assert(all.filter(pf).contains(all[i]));
            assert(rf.to_multiset().count(v) > 0);
            assert(rf.contains(v));
            let k = choose|k: int| 0 <= k < rf.len() && rf[k] == v;
            assert(rf[k].id == Some(x));
            assert(todo_id_set(rf).contains(x));
        }
    }
    assert(todo_id_set(rt).union(todo_id_set(rf)) =~= todo_id_set(ra));
}

/// A store with the same records and serial as a well-formed one is well
/// formed.
proof fn lemma_todo_wf_same(s0: TodoStore, s1: TodoStore)
    requires
        s0.wf(),
        s1.recs() == s0.recs(),
        s1.serial() == s0.serial(),
    ensures
        s1.wf(),
{
    assert forall|k: int| 0 <= k < s1.recs().len() implies (#[trigger] s1.recs()[k].id) is Some
        && is_canonical_id(s1.recs()[k].id->0) by {
        assert(s0.recs()[k].id is Some && is_canonical_id(s0.recs()[k].id->0));
    }
    assert forall|k: int| 0 <= k < s1.recs().len() implies store_assigned(
        (#[trigger] s1.recs()[k].id)->0,
        s1.serial(),
    ) by {
        assert(s0.recs()[k].id is Some);
        assert(store_assigned(s0.recs()[k].id->0, s0.serial()));
        assert(s1.recs()[k].id == s0.recs()[k].id);
    }
    assert forall|k: int, l: int| 0 <= k < l < s1.recs().len() implies (#[trigger] s1.recs()[k].id)->0
        != (#[trigger] s1.recs()[l].id)->0 by {
        assert(s0.recs()[k].id->0 != s0.recs()[l].id->0);
    }
}

/// Replacing one record with one carrying the same identifier keeps the
/// store well formed.
proof fn lemma_todo_wf_replace(s0: TodoStore, s1: TodoStore, j: int, v1: TodoView)
    requires
        s0.wf(),
        0 <= j < s0.recs().len(),
        s1.recs() == s0.recs().update(j, v1),
        v1.id == s0.recs()[j].id,
        s1.serial() == s0.serial(),
    ensures
        s1.wf(),
{
    assert forall|k: int| 0 <= k < s1.recs().len() implies (#[trigger] s1.recs()[k].id) is Some
        && is_canonical_id(s1.recs()[k].id->0) by {
        assert(s1.recs()[k].id == s0.recs()[k].id);
        assert(s0.recs()[k].id is Some && is_canonical_id(s0.recs()[k].id->0));
    }
    assert forall|k: int| 0 <= k < s1.recs().len() implies store_assigned(
        (#[trigger] s1.recs()[k].id)->0,
        s1.serial(),
    ) by {
        assert(s0.recs()[k].id is Some);
        assert(store_assigned(s0.recs()[k].id->0, s0.serial()));
        assert(s1.recs()[k].id == s0.recs()[k].id);
    }
    assert forall|k: int, l: int| 0 <= k < l < s1.recs().len() implies (#[trigger] s1.recs()[k].id)->0
        != (#[trigger] s1.recs()[l].id)->0 by {
        assert(s1.recs()[k].id == s0.recs()[k].id);
        assert(s1.recs()[l].id == s0.recs()[l].id);
        assert(s0.recs()[k].id->0 != s0.recs()[l].id->0);
    }
}

/// Removing one record keeps the store well formed.
proof fn lemma_todo_wf_remove(s0: TodoStore, s1: TodoStore, j: int)
    requires
        s0.wf(),
        0 <= j < s0.recs().len(),
        s1.recs() == s0.recs().remove(j),
        s1.serial() == s0.serial(),
    ensures
        s1.wf(),
{
    s0.recs().remove_ensures(j);
    assert(s1.recs().len() == s0.recs().len() - 1);
    assert forall|k: int| 0 <= k < s1.recs().len() implies (#[trigger] s1.recs()[k].id) is Some
        && is_canonical_id(s1.recs()[k].id->0) by {
        let k0 = if k < j { k } else { k + 1 };
        assert(s1.recs()[k] == s0.recs()[k0]);
        assert(s0.recs()[k0].id is Some && is_canonical_id(s0.recs()[k0].id->0));
    }
    assert forall|k: int| 0 <= k < s1.recs().len() implies store_assigned(
        (#[trigger] s1.recs()[k].id)->0,
        s1.serial(),
    ) by {
        let k0 = if k < j { k } else { k + 1 };
        assert(s1.recs()[k] == s0.recs()[k0]);
        assert(s0.recs()[k0].id is Some);
        assert(store_assigned(s0.recs()[k0].id->0, s0.serial()));
    }
    assert forall|k: int, l: int| 0 <= k < l < s1.recs().len() implies (#[trigger] s1.recs()[k].id)->0
        != (#[trigger] s1.recs()[l].id)->0 by {
        let k0 = if k < j { k } else { k + 1 };
        let l0 = if l < j { l } else { l + 1 };
        assert(s1.recs()[k] == s0.recs()[k0]);
        assert(s1.recs()[l] == s0.recs()[l0]);
        assert(s0.recs()[k0].id->0 != s0.recs()[l0].id->0);
    }
}

} // verus!
