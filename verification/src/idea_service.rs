use vstd::prelude::*;
use vstd::multiset::Multiset;
use crate::counter::{bump, sat_inc};
use crate::errors::ServiceError;
use crate::ident::{
    canon_text, id_from_serial, is_canonical_id, is_valid_object_id_text,
    lemma_serial_id_injective, lemma_store_assigned_mono, parse_object_id, serial_id_text,
    store_assigned, RecordId,
};
use crate::models::{CreateIdeaRequest, Idea, IdeaView, UpdateIdeaRequest};
use crate::text::{
    contains_bytes, find_substring, lemma_empty_needle_matches, lower_fold, lower_fold_bytes,
    seq_has_text, vec_has_text,
};

verus! {

broadcast use vstd::seq_lib::group_to_multiset_ensures;

/// The mathematical contents of a sequence of note records.
pub open spec fn idea_views(s: Seq<Idea>) -> Seq<IdeaView> {
    Seq::new(s.len(), |i: int| s[i]@)
}

/// Whether a record passes the optional favorite filter.
pub open spec fn favorite_matches(v: IdeaView, filter: Option<bool>) -> bool {
    match filter {
        Some(b) => v.is_favorite == b,
        None => true,
    }
}

/// Newest first: creation times never increase along the sequence.
pub open spec fn sorted_ideas_newest_first(s: Seq<IdeaView>) -> bool {
    forall|i: int, j: int| 0 <= i < j < s.len() ==> s[i].created_at >= s[j].created_at
}

/// Some record of `recs` carries identifier text `idt`.
pub open spec fn has_idea_id(recs: Seq<IdeaView>, idt: Seq<char>) -> bool {
    exists|j: int| 0 <= j < recs.len() && (#[trigger] recs[j].id) == Some(idt)
}

/// Whether a note matches a search keyword: case-insensitive substring of
/// the title or the content, or an exact tag.  An empty keyword matches
/// everything, since the empty text is a substring of any text.
pub open spec fn idea_matches_keyword(v: IdeaView, kw: Seq<char>) -> bool {
    ||| contains_bytes(lower_fold(v.title), lower_fold(kw))
    ||| contains_bytes(lower_fold(v.content), lower_fold(kw))
    ||| v.tags.contains(kw)
}

/// The record a create request builds: explicit fields are taken over,
/// absent ones take the documented defaults, and both timestamps are the
/// creation instant.
pub open spec fn idea_created(v: IdeaView, req: CreateIdeaRequest, now: int, idt: Seq<char>) -> bool {
    &&& v.id == Some(idt)
    &&& v.title == req.title@
    &&& v.content == req.content@
    &&& v.created_at == now
    &&& v.updated_at == now
    &&& v.tags == (match req.tags {
        Some(ts) => ts.deep_view(),
        None => Seq::<Seq<char>>::empty(),
    })
    &&& v.is_favorite == (match req.is_favorite {
        Some(f) => f,
        None => false,
    })
    &&& v.category == (match req.category {
        Some(c) => c@,
        None => "uncategorized"@,
    })
}

/// The record a create request builds before the store assigns an
/// identifier: like [`idea_created`], with no identifier yet.
pub open spec fn idea_built(v: IdeaView, req: CreateIdeaRequest, now: int) -> bool {
    &&& v.id is None
    &&& v.title == req.title@
    &&& v.content == req.content@
    &&& v.created_at == now
    &&& v.updated_at == now
    &&& v.tags == (match req.tags {
        Some(ts) => ts.deep_view(),
        None => Seq::<Seq<char>>::empty(),
    })
    &&& v.is_favorite == (match req.is_favorite {
        Some(f) => f,
        None => false,
    })
    &&& v.category == (match req.category {
        Some(c) => c@,
        None => "uncategorized"@,
    })
}

/// Build the note record a create request describes: take explicit fields
/// over, give absent ones the documented defaults, and set both timestamps
/// to the creation instant.  The identifier stays absent until the store
/// assigns one.
pub fn build_idea(request: CreateIdeaRequest, now: i64) -> (r: Idea)
    ensures
        idea_built(r@, request, now as int),
{
    let idea = Idea {
        id: None,
        title: request.title,
        content: request.content,
        created_at: now,
        updated_at: now,
        tags: match request.tags {
            Some(ts) => ts,
            None => Vec::new(),
        },
        is_favorite: match request.is_favorite {
            Some(f) => f,
            None => false,
        },
        category: match request.category {
            Some(c) => c,
            None => String::from_str("uncategorized"),
        },
    };
    proof {
        if request.tags is None {
            assert(idea@.tags =~= Seq::<Seq<char>>::empty());
        }
    }
    idea
}

/// The sparse merge of an update request into a stored record.
pub open spec fn idea_updated(v0: IdeaView, v1: IdeaView, req: UpdateIdeaRequest, now: int) -> bool {
    &&& v1.id == v0.id
    &&& v1.title == (match req.title {
        Some(s) => s@,
        None => v0.title,
    })
    &&& v1.content == (match req.content {
        Some(c) => c@,
        None => v0.content,
    })
    &&& v1.created_at == v0.created_at
    &&& v1.updated_at == now
    &&& v1.tags == (match req.tags {
        Some(ts) => ts.deep_view(),
        None => v0.tags,
    })
    &&& v1.is_favorite == (match req.is_favorite {
        Some(f) => f,
        None => v0.is_favorite,
    })
    &&& v1.category == (match req.category {
        Some(c) => c@,
        None => v0.category,
    })
}

/// Whether the stored document actually changes under the merge.
pub open spec fn idea_update_modifies(v0: IdeaView, req: UpdateIdeaRequest, now: int) -> bool {
    ||| (match req.title {
        Some(s) => s@ != v0.title,
        None => false,
    })
    ||| (match req.content {
        Some(c) => c@ != v0.content,
        None => false,
    })
    ||| (match req.tags {
        Some(ts) => ts.deep_view() != v0.tags,
        None => false,
    })
    ||| (match req.is_favorite {
        Some(f) => f != v0.is_favorite,
        None => false,
    })
    ||| (match req.category {
        Some(c) => c@ != v0.category,
        None => false,
    })
    ||| now != v0.updated_at
}

/// A toggle writes the negated favorite flag and a refreshed update
/// timestamp and touches nothing else.
pub open spec fn idea_toggled(v0: IdeaView, v1: IdeaView, now: int) -> bool {
    &&& v1.id == v0.id
    &&& v1.title == v0.title
    &&& v1.content == v0.content
    &&& v1.created_at == v0.created_at
    &&& v1.updated_at == now
    &&& v1.tags == v0.tags
    &&& v1.is_favorite == !v0.is_favorite
    &&& v1.category == v0.category
}

/// The model of the note collection.
pub struct IdeaStore {
    records: Vec<Idea>,
    next_serial: u64,
    ops: u64,
}

impl IdeaStore {
    /// The stored records, as mathematical values, in insertion order.
    pub closed spec fn recs(&self) -> Seq<IdeaView> {
        idea_views(self.records@)
    }

    /// How many store round trips have been made.
    pub closed spec fn op_count(&self) -> int {
        self.ops as int
    }

    /// The serial the store assigns to the next created record.
    pub closed spec fn serial(&self) -> int {
        self.next_serial as int
    }

    /// Every stored record has a canonical, store-assigned, pairwise
    /// distinct identifier.
    pub open spec fn wf(&self) -> bool {
        &&& (forall|j: int| 0 <= j < self.recs().len() ==> (#[trigger] self.recs()[j].id) is Some
            && is_canonical_id(self.recs()[j].id->0))
        &&& (forall|j: int| 0 <= j < self.recs().len() ==> store_assigned(
            (#[trigger] self.recs()[j].id)->0,
            self.serial(),
        ))
        &&& (forall|j: int, k: int| 0 <= j < k < self.recs().len() ==> (#[trigger] self.recs()[j].id)->0
            != (#[trigger] self.recs()[k].id)->0)
    }

    /// An empty collection.
    pub fn new() -> (s: IdeaStore)
        ensures
            s.wf(),
            s.recs() == Seq::<IdeaView>::empty(),
            s.op_count() == 0,
            s.serial() == 0,
    {
        let s = IdeaStore { records: Vec::new(), next_serial: 0, ops: 0 };
        proof {
            assert(s.recs() =~= Seq::<IdeaView>::empty());
        }
        s
    }

    /// How many store round trips have been made, for callers and tests.
    pub fn ops_performed(&self) -> (n: u64)
        ensures
            n as int == self.op_count(),
    {
        self.ops
    }

    /// Create a note record: fill defaults, let the store assign a fresh
    /// identifier, set both timestamps to `now`, and return the
    /// identifier's canonical text.
    pub fn create_idea(&mut self, request: CreateIdeaRequest, now: i64) -> (r: Result<
        String,
        ServiceError,
    >)
        requires
            old(self).wf(),
        ensures
            final(self).wf(),
            match r {
                Ok(id_text) => {
                    &&& final(self).recs().len() == old(self).recs().len() + 1
                    &&& final(self).recs().drop_last() == old(self).recs()
                    &&& idea_created(final(self).recs().last(), request, now as int, id_text@)
                    &&& id_text@ == serial_id_text(old(self).serial() as u64)
                    &&& is_canonical_id(id_text@)
                    &&& final(self).serial() == old(self).serial() + 1
                    &&& final(self).op_count() == sat_inc(old(self).op_count())
                },
                Err(e) => {
                    &&& *final(self) == *old(self)
                    &&& e matches ServiceError::Store(_)
                    &&& old(self).serial() == u64::MAX as int
                },
            },
            (r is Err) <==> old(self).serial() == u64::MAX as int,
    {
        if self.next_serial == u64::MAX {
            return Err(ServiceError::Store(String::from_str("identifier space exhausted")));
        }
        let id = id_from_serial(self.next_serial);
        let id_text = id.to_hex();
        let mut idea = build_idea(request, now);
        idea.id = Some(id);
        self.records.push(idea);
        self.next_serial = self.next_serial + 1;
        self.ops = bump(self.ops);
        proof {
            let orecs = old(self).recs();
            let nrecs = self.recs();
            assert(nrecs =~= orecs.push(idea@));
            if request.tags is None {
                assert(idea@.tags =~= Seq::<Seq<char>>::empty());
            }
            assert(nrecs.drop_last() =~= orecs);
            let ghost news: u64 = (old(self).serial()) as u64;
            assert(idea@.id == Some(serial_id_text(news)));
            assert forall|j: int| 0 <= j < nrecs.len() implies (#[trigger] nrecs[j].id) is Some
                && is_canonical_id(nrecs[j].id->0) by {
                if j < orecs.len() {
                    assert(orecs[j].id is Some && is_canonical_id(orecs[j].id->0));
                }
            }
            assert forall|j: int| 0 <= j < nrecs.len() implies store_assigned(
                (#[trigger] nrecs[j].id)->0,
                self.serial(),
            ) by {
                if j < orecs.len() {
                    assert(orecs[j].id is Some);
                    assert(store_assigned(orecs[j].id->0, old(self).serial()));
                    lemma_store_assigned_mono(orecs[j].id->0, old(self).serial(), self.serial());
                } else {
                    assert((news as int) < self.serial() && nrecs[j].id->0 == serial_id_text(news));
                    assert(store_assigned(nrecs[j].id->0, self.serial()));
                }
            }
            assert forall|j: int, k: int| 0 <= j < k < nrecs.len() implies (#[trigger] nrecs[j].id)->0
                != (#[trigger] nrecs[k].id)->0 by {
                if k < orecs.len() {
                    assert(orecs[j].id->0 != orecs[k].id->0);
                } else {
                    assert(orecs[j].id is Some);
                    assert(store_assigned(orecs[j].id->0, old(self).serial()));
                    let s = choose|s: u64| (s as int) < old(self).serial() && orecs[j].id->0
                        == serial_id_text(s);
                    if nrecs[j].id->0 == nrecs[k].id->0 {
                        assert(serial_id_text(s) == serial_id_text(news));
                        lemma_serial_id_injective(s, news);
                        assert(false);
                    }
                }
            }
        }
        Ok(id_text)
    }

    /// List note records, optionally restricted to one favorite state,
    /// newest first.
    pub fn get_ideas(&mut self, is_favorite: Option<bool>) -> (r: Result<Vec<Idea>, ServiceError>)
        requires
            old(self).wf(),
        ensures
            final(self).wf(),
            final(self).recs() == old(self).recs(),
            final(self).serial() == old(self).serial(),
            final(self).op_count() == sat_inc(old(self).op_count()),
            match r {
                Ok(v) => idea_views(v@).to_multiset() == old(self).recs().filter(
                    |t: IdeaView| favorite_matches(t, is_favorite),
                ).to_multiset() && sorted_ideas_newest_first(idea_views(v@)),
                Err(e) => false,
            },
    {
        self.ops = bump(self.ops);
        proof {
            lemma_idea_wf_same(*old(self), *self);
        }
        let matched = filter_ideas(&self.records, is_favorite);
        let sorted = sort_ideas(matched);
        Ok(sorted)
    }

    /// Fetch one record by its textual identifier.  A malformed identifier
    /// is rejected without touching the store; an absent record is a
    /// successful `None`, not an error.
    pub fn get_idea_by_id(&mut self, id: String) -> (r: Result<Option<Idea>, ServiceError>)
        requires
            old(self).wf(),
        ensures
            final(self).wf(),
            final(self).recs() == old(self).recs(),
            final(self).serial() == old(self).serial(),
            match r {
                Ok(found) => {
                    &&& is_valid_object_id_text(id@)
                    &&& final(self).op_count() == sat_inc(old(self).op_count())
                    &&& match found {
                        Some(t) => exists|j: int|
                            0 <= j < old(self).recs().len() && (#[trigger] old(self).recs()[j]).id
                                == Some(canon_text(id@)) && t@ == old(self).recs()[j],
                        None => !has_idea_id(old(self).recs(), canon_text(id@)),
                    }
                },
                Err(e) => {
                    &&& e matches ServiceError::InvalidIdentifier
                    &&& !is_valid_object_id_text(id@)
                    &&& *final(self) == *old(self)
                },
            },
            (r is Err) <==> !is_valid_object_id_text(id@),
    {
        let oid = match parse_object_id(id.as_str()) {
            Ok(o) => o,
            Err(e) => {
                return Err(e);
            },
        };
        self.ops = bump(self.ops);
        proof {
            lemma_idea_wf_same(*old(self), *self);
        }
        match find_idea_index(&self.records, &oid) {
            Some(j) => {
                let t = self.records[j].clone();
                Ok(Some(t))
            },
            None => Ok(None),
        }
    }

    /// Apply a sparse update: only fields present in the request are
    /// written, plus a refreshed update timestamp.  The result reports
    /// whether the stored document actually changed; an absent record
    /// yields `false`, not an error.
    pub fn update_idea(&mut self, id: String, request: UpdateIdeaRequest, now: i64) -> (r: Result<
        bool,
        ServiceError,
    >)
        requires
            old(self).wf(),
        ensures
            final(self).wf(),
            final(self).serial() == old(self).serial(),
            final(self).recs().len() == old(self).recs().len(),
            match r {
                Ok(modified) => {
                    &&& is_valid_object_id_text(id@)
                    &&& final(self).op_count() == sat_inc(old(self).op_count())
                    &&& (has_idea_id(old(self).recs(), canon_text(id@)) ==> exists|j: int|
                        0 <= j < old(self).recs().len() && (#[trigger] old(self).recs()[j]).id
                            == Some(canon_text(id@)) && idea_updated(
                            old(self).recs()[j],
                            final(self).recs()[j],
                            request,
                            now as int,
                        ) && modified == idea_update_modifies(old(self).recs()[j], request, now as int)
                            && (forall|k: int|
                            0 <= k < old(self).recs().len() && k != j ==> final(self).recs()[k]
                                == old(self).recs()[k]))
                    &&& (!has_idea_id(old(self).recs(), canon_text(id@)) ==> final(self).recs()
                        == old(self).recs() && modified == false)
                },
                Err(e) => {
                    &&& e matches ServiceError::InvalidIdentifier
                    &&& !is_valid_object_id_text(id@)
                    &&& final(self).recs() == old(self).recs()
                    &&& final(self).op_count() == old(self).op_count()
                },
            },
            (r is Err) <==> !is_valid_object_id_text(id@),
    {
        let oid = match parse_object_id(id.as_str()) {
            Ok(o) => o,
            Err(e) => {
                return Err(e);
            },
        };
        self.ops = bump(self.ops);
        let j = match find_idea_index(&self.records, &oid) {
            Some(j) => j,
            None => {
                proof {
                    lemma_idea_wf_same(*old(self), *self);
                }
                return Ok(false);
            },
        };
        let mut updated = self.records[j].clone();
        let mut changed = now != updated.updated_at;
        updated.updated_at = now;
        match request.title {
            Some(s) => {
                if !s.eq(&updated.title) {
                    changed = true;
                }
                updated.title = s;
            },
            None => {},
        }
        match request.content {
            Some(c) => {
                if !c.eq(&updated.content) {
                    changed = true;
                }
                updated.content = c;
            },
            None => {},
        }
        match request.tags {
            Some(ts) => {
                if !crate::models::tags_equal(&ts, &updated.tags) {
                    changed = true;
                }
                updated.tags = ts;
            },
            None => {},
        }
        match request.is_favorite {
            Some(f) => {
                if f != updated.is_favorite {
                    changed = true;
                }
                updated.is_favorite = f;
            },
            None => {},
        }
        match request.category {
            Some(c) => {
                if !c.eq(&updated.category) {
                    changed = true;
                }
                updated.category = c;
            },
            None => {},
        }
        let ghost v0 = old(self).recs()[j as int];
        let ghost v1 = updated@;
        self.records[j] = updated;
        proof {
            assert(self.recs() =~= old(self).recs().update(j as int, v1));
            assert(idea_updated(v0, v1, request, now as int));
            assert(changed == idea_update_modifies(v0, request, now as int));
            lemma_idea_wf_replace(*old(self), *self, j as int, v1);
        }
        Ok(changed)
    }

    /// Delete one record by identifier; report whether one was removed.
    pub fn delete_idea(&mut self, id: String) -> (r: Result<bool, ServiceError>)
        requires
            old(self).wf(),
        ensures
            final(self).wf(),
            final(self).serial() == old(self).serial(),
            match r {
                Ok(b) => {
                    &&& is_valid_object_id_text(id@)
                    &&& final(self).op_count() == sat_inc(old(self).op_count())
                    &&& b == has_idea_id(old(self).recs(), canon_text(id@))
                    &&& if b {
                        exists|j: int|
                            0 <= j < old(self).recs().len() && (#[trigger] old(self).recs()[j]).id
                                == Some(canon_text(id@)) && final(self).recs() == old(
                                self,
                            ).recs().remove(j)
                    } else {
                        final(self).recs() == old(self).recs()
                    }
                },
                Err(e) => {
                    &&& e matches ServiceError::InvalidIdentifier
                    &&& !is_valid_object_id_text(id@)
                    &&& *final(self) == *old(self)
                },
            },
            (r is Err) <==> !is_valid_object_id_text(id@),
    {
        let oid = match parse_object_id(id.as_str()) {
            Ok(o) => o,
            Err(e) => {
                return Err(e);
            },
        };
        self.ops = bump(self.ops);
        match find_idea_index(&self.records, &oid) {
            Some(j) => {
                self.records.remove(j);
                proof {
                    assert(self.recs() =~= old(self).recs().remove(j as int));
                    lemma_idea_wf_remove(*old(self), *self, j as int);
                }
                Ok(true)
            },
            None => {
                proof {
                    lemma_idea_wf_same(*old(self), *self);
                }
                Ok(false)
            },
        }
    }

    /// Toggle the favorite flag: read the record (absence is a hard error
    /// here), write the negated flag plus a refreshed update timestamp, and
    /// return the new value of the flag.
    pub fn toggle_idea_favorite(&mut self, id: String, now: i64) -> (r: Result<bool, ServiceError>)
        requires
            old(self).wf(),
        ensures
            final(self).wf(),
            final(self).serial() == old(self).serial(),
            final(self).recs().len() == old(self).recs().len(),
            match r {
                Ok(b) => {
                    &&& is_valid_object_id_text(id@)
                    &&& final(self).op_count() == sat_inc(sat_inc(old(self).op_count()))
                    &&& exists|j: int|
                        0 <= j < old(self).recs().len() && (#[trigger] old(self).recs()[j]).id
                            == Some(canon_text(id@)) && b == !old(self).recs()[j].is_favorite
                            && idea_toggled(old(self).recs()[j], final(self).recs()[j], now as int)
                            && (forall|k: int|
                            0 <= k < old(self).recs().len() && k != j ==> final(self).recs()[k]
                                == old(self).recs()[k])
                },
                Err(e) => {
                    &&& final(self).recs() == old(self).recs()
                    &&& match e {
                        ServiceError::InvalidIdentifier => !is_valid_object_id_text(id@)
                            && final(self).op_count() == old(self).op_count(),
                        ServiceError::NotFound => is_valid_object_id_text(id@) && !has_idea_id(
                            old(self).recs(),
                            canon_text(id@),
                        ) && final(self).op_count() == sat_inc(old(self).op_count()),
                        _ => false,
                    }
                },
            },
            (r is Ok) <==> (is_valid_object_id_text(id@) && has_idea_id(
                old(self).recs(),
                canon_text(id@),
            )),
    {
        let oid = match parse_object_id(id.as_str()) {
            Ok(o) => o,
            Err(e) => {
                return Err(e);
            },
        };
        self.ops = bump(self.ops);
        let j = match find_idea_index(&self.records, &oid) {
            Some(j) => j,
            None => {
                proof {
                    lemma_idea_wf_same(*old(self), *self);
                }
                return Err(ServiceError::NotFound);
            },
        };
        let mut updated = self.records[j].clone();
        let new_val = !updated.is_favorite;
        updated.is_favorite = new_val;
        updated.updated_at = now;
        let ghost v0 = old(self).recs()[j as int];
        let ghost v1 = updated@;
        self.records[j] = updated;
        self.ops = bump(self.ops);
        proof {
            assert(self.recs() =~= old(self).recs().update(j as int, v1));
            assert(idea_toggled(v0, v1, now as int));
            lemma_idea_wf_replace(*old(self), *self, j as int, v1);
        }
        Ok(new_val)
    }

    /// Search notes by keyword: case-insensitive substring of title or
    /// content, or exact tag membership, newest first.  An empty keyword
    /// returns every note.
    pub fn search_ideas(&mut self, keyword: String) -> (r: Result<Vec<Idea>, ServiceError>)
        requires
            old(self).wf(),
        ensures
            final(self).wf(),
            final(self).recs() == old(self).recs(),
            final(self).serial() == old(self).serial(),
            final(self).op_count() == sat_inc(old(self).op_count()),
            match r {
                Ok(v) => {
                    &&& idea_views(v@).to_multiset() == old(self).recs().filter(
                        |t: IdeaView| idea_matches_keyword(t, keyword@),
                    ).to_multiset()
                    &&& sorted_ideas_newest_first(idea_views(v@))
                    &&& keyword@.len() == 0 ==> idea_views(v@).to_multiset() == old(
                        self,
                    ).recs().to_multiset()
                },
                Err(e) => false,
            },
    {
        self.ops = bump(self.ops);
        proof {
            lemma_idea_wf_same(*old(self), *self);
        }
        let kw_low = lower_fold_bytes(keyword.as_str());
        let matched = filter_ideas_matching(&self.records, &keyword, &kw_low);
        let sorted = sort_ideas(matched);
        proof {
            let pred = |t: IdeaView| idea_matches_keyword(t, keyword@);
            if keyword@.len() == 0 {
                assert(lower_fold(keyword@).len() == 0);
                assert forall|i: int| 0 <= i < self.recs().len() implies pred(
                    #[trigger] self.recs()[i],
                ) by {
                    lemma_empty_needle_matches(
                        lower_fold(self.recs()[i].title),
                        lower_fold(keyword@),
                    );
                }
                lemma_idea_filter_all(self.recs(), pred);
            }
        }
        Ok(sorted)
    }
}

/// Whether one record carries the given identifier.
fn idea_id_matches(t: &Idea, id: &RecordId) -> (r: bool)
    ensures
        r == (t@.id == Some(id@)),
{
    match &t.id {
        Some(rid) => rid.same_id(id),
        None => false,
    }
}

/// Index of the record carrying the given identifier, if any.
fn find_idea_index(records: &Vec<Idea>, id: &RecordId) -> (r: Option<usize>)
    ensures
        match r {
            Some(j) => (j as int) < records@.len() && idea_views(records@)[j as int].id == Some(
                id@,
            ),
            None => forall|j: int|
                0 <= j < records@.len() ==> (#[trigger] idea_views(records@)[j].id) != Some(id@),
        },
{
    let n = records.len();
    let mut k: usize = 0;
    while k < n
        invariant
            n == records@.len(),
            k <= n,
            forall|j: int|
                0 <= j < k as int ==> (#[trigger] idea_views(records@)[j].id) != Some(id@),
        decreases n - k,
    {
        if idea_id_matches(&records[k], id) {
            return Some(k);
        }
        k += 1;
    }
    None
}

/// Whether one note matches the keyword, given the keyword's case-folded
/// bytes.
fn idea_matches(idea: &Idea, keyword: &String, kw_low: &Vec<u8>) -> (r: bool)
    requires
        kw_low@ == lower_fold(keyword@),
    ensures
        r == idea_matches_keyword(idea@, keyword@),
{
    let tl = lower_fold_bytes(idea.title.as_str());
    if find_substring(&tl, kw_low) {
        return true;
    }
    let cl = lower_fold_bytes(idea.content.as_str());
    if find_substring(&cl, kw_low) {
        return true;
    }
    let tagged = vec_has_text(&idea.tags, keyword);
    proof {
        assert(seq_has_text(idea.tags@, keyword@) == idea@.tags.contains(keyword@)) by {
            if seq_has_text(idea.tags@, keyword@) {
                let j = choose|j: int| 0 <= j < idea.tags@.len() && idea.tags@[j]@ == keyword@;
                assert(idea@.tags[j] == keyword@);
            }
            if idea@.tags.contains(keyword@) {
                let j = choose|j: int| 0 <= j < idea@.tags.len() && idea@.tags[j] == keyword@;
                assert(idea.tags@[j]@ == keyword@);
            }
        }
    }
    tagged
}

/// The records passing the favorite filter, in stored order.
fn filter_ideas(records: &Vec<Idea>, is_favorite: Option<bool>) -> (r: Vec<Idea>)
    ensures
        idea_views(r@) == idea_views(records@).filter(
            |t: IdeaView| favorite_matches(t, is_favorite),
        ),
{
    let ghost pred = |t: IdeaView| favorite_matches(t, is_favorite);
    let mut r: Vec<Idea> = Vec::new();
    let n = records.len();
    let mut i: usize = 0;
    proof {
        assert(idea_views(r@) =~= idea_views(records@).subrange(0, 0).filter(pred));
    }
    while i < n
        invariant
            n == records@.len(),
            i <= n,
            idea_views(r@) == idea_views(records@).subrange(0, i as int).filter(pred),
            pred == (|t: IdeaView| favorite_matches(t, is_favorite)),
        decreases n - i,
    {
        let keep = match is_favorite {
            Some(b) => records[i].is_favorite == b,
            None => true,
        };
        let ghost pre_r = idea_views(r@);
        if keep {
            r.push(records[i].clone());
        }
        proof {
            reveal_with_fuel(Seq::<_>::filter, 2);
            let all = idea_views(records@);
            let pre = all.subrange(0, i as int);
            let post = all.subrange(0, i as int + 1);
            assert(post.drop_last() =~= pre);
            assert(post.last() == all[i as int]);
            assert(keep == pred(all[i as int]));
            if keep {
                assert(idea_views(r@) =~= pre_r.push(records@[i as int]@));
                assert(post.filter(pred) == pre.filter(pred).push(all[i as int]));
            } else {
                assert(post.filter(pred) == pre.filter(pred));
            }
        }
        i += 1;
    }
    proof {
        assert(idea_views(records@).subrange(0, n as int) =~= idea_views(records@));
    }
    r
}

/// The records matching the search keyword, in stored order.
fn filter_ideas_matching(records: &Vec<Idea>, keyword: &String, kw_low: &Vec<u8>) -> (r: Vec<Idea>)
    requires
        kw_low@ == lower_fold(keyword@),
    ensures
        idea_views(r@) == idea_views(records@).filter(
            |t: IdeaView| idea_matches_keyword(t, keyword@),
        ),
{
    let ghost pred = |t: IdeaView| idea_matches_keyword(t, keyword@);
    let mut r: Vec<Idea> = Vec::new();
    let n = records.len();
    let mut i: usize = 0;
    proof {
        assert(idea_views(r@) =~= idea_views(records@).subrange(0, 0).filter(pred));
    }
    while i < n
        invariant
            n == records@.len(),
            i <= n,
            kw_low@ == lower_fold(keyword@),
            idea_views(r@) == idea_views(records@).subrange(0, i as int).filter(pred),
            pred == (|t: IdeaView| idea_matches_keyword(t, keyword@)),
        decreases n - i,
    {
        let keep = idea_matches(&records[i], keyword, kw_low);
        let ghost pre_r = idea_views(r@);
        if keep {
            r.push(records[i].clone());
        }
        proof {
            reveal_with_fuel(Seq::<_>::filter, 2);
            let all = idea_views(records@);
            let pre = all.subrange(0, i as int);
            let post = all.subrange(0, i as int + 1);
            assert(post.drop_last() =~= pre);
            assert(post.last() == all[i as int]);
            assert(keep == pred(all[i as int]));
            if keep {
                assert(idea_views(r@) =~= pre_r.push(records@[i as int]@));
                assert(post.filter(pred) == pre.filter(pred).push(all[i as int]));
            } else {
                assert(post.filter(pred) == pre.filter(pred));
            }
        }
        i += 1;
    }
    proof {
        assert(idea_views(records@).subrange(0, n as int) =~= idea_views(records@));
    }
    r
}

/// First position whose record was created no later than `t`, in a
/// newest-first sequence.
fn sorted_idea_position(out: &Vec<Idea>, t: &Idea) -> (p: usize)
    ensures
        p as int <= out@.len(),
        forall|q: int| 0 <= q < p as int ==> #[trigger] out@[q].created_at >= t.created_at,
        (p as int) < out@.len() ==> out@[p as int].created_at < t.created_at,
{
    let n = out.len();
    let mut p: usize = 0;
    while p < n
        invariant
            p <= n,
            n == out@.len(),
            forall|q: int| 0 <= q < p as int ==> #[trigger] out@[q].created_at >= t.created_at,
        decreases n - p,
    {
        if out[p].created_at < t.created_at {
            return p;
        }
        p += 1;
    }
    p
}

/// Insert a record into a newest-first sequence, keeping it sorted.
fn insert_idea_sorted(out: &mut Vec<Idea>, t: Idea)
    requires
        sorted_ideas_newest_first(idea_views(old(out)@)),
    ensures
        sorted_ideas_newest_first(idea_views(final(out)@)),
        idea_views(final(out)@).to_multiset() == idea_views(old(out)@).to_multiset().insert(t@),
{
    let p = sorted_idea_position(out, &t);
    let ghost pre = idea_views(out@);
    out.insert(p, t);
    proof {
        let pp = p as int;
        let post = idea_views(out@);
        assert(post =~= pre.insert(pp, t@));
        assert(pre.insert(pp, t@).to_multiset() == pre.to_multiset().insert(t@));
        pre.insert_ensures(pp, t@);
        assert forall|q: int| 0 <= q < pp implies pre[q].created_at >= t@.created_at by {
            assert(old(out)@[q].created_at >= t.created_at);
        }
        assert forall|i: int, j: int| 0 <= i < j < post.len() implies post[i].created_at
            >= post[j].created_at by {
            if i < pp {
                assert(post[i] == pre[i]);
            } else if i == pp {
                assert(post[i] == t@);
            } else {
                assert(post[i] == pre[i - 1]);
                assert(pp < pre.len());
            }
            if j < pp {
                assert(post[j] == pre[j]);
            } else if j == pp {
                assert(post[j] == t@);
            } else {
                assert(post[j] == pre[j - 1]);
                assert(pp < pre.len());
                assert(pre[pp].created_at < t@.created_at);
                if pp < j - 1 {
                    assert(pre[pp].created_at >= pre[j - 1].created_at);
                }
            }
        }
    }
}

/// Sort records newest first; the contents are kept exactly.
fn sort_ideas(v: Vec<Idea>) -> (r: Vec<Idea>)
    ensures
        sorted_ideas_newest_first(idea_views(r@)),
        idea_views(r@).to_multiset() == idea_views(v@).to_multiset(),
{
    broadcast use vstd::multiset::group_multiset_axioms;

    let ghost orig = idea_views(v@);
    let mut rest = v;
    let mut out: Vec<Idea> = Vec::new();
    proof {
        assert(idea_views(out@) =~= Seq::<IdeaView>::empty());
        assert forall|a: IdeaView| idea_views(out@).to_multiset().count(a) == 0 by {
            assert(!idea_views(out@).contains(a));
        }
        assert(idea_views(out@).to_multiset() =~= Multiset::<IdeaView>::empty());
        assert(idea_views(out@).to_multiset().add(idea_views(rest@).to_multiset())
            =~= orig.to_multiset());
    }
    while rest.len() > 0
        invariant
            sorted_ideas_newest_first(idea_views(out@)),
            idea_views(out@).to_multiset().add(idea_views(rest@).to_multiset())
                == orig.to_multiset(),
        decreases rest@.len(),
    {
        let ghost pre_rest = rest@;
        let ghost pre_out_ms = idea_views(out@).to_multiset();
        let t = match rest.pop() {
            Some(t) => t,
            None => vstd::pervasive::unreached(),
        };
        insert_idea_sorted(&mut out, t);
        proof {
            assert(idea_views(pre_rest) =~= idea_views(rest@).push(t@));
            assert(idea_views(pre_rest).to_multiset() == idea_views(rest@).to_multiset().insert(
                t@,
            ));
            assert(idea_views(out@).to_multiset().add(idea_views(rest@).to_multiset())
                =~= pre_out_ms.add(idea_views(pre_rest).to_multiset()));
        }
    }
    proof {
        assert forall|a: IdeaView| idea_views(rest@).to_multiset().count(a) == 0 by {
            assert(!idea_views(rest@).contains(a));
        }
        assert(idea_views(out@).to_multiset() =~= orig.to_multiset());
    }
    out
}

/// Immediately after creation, the created and updated timestamps are both
/// the creation instant.
pub proof fn lemma_idea_create_timestamps(
    v: IdeaView,
    req: CreateIdeaRequest,
    now: int,
    idt: Seq<char>,
)
    requires
        idea_created(v, req, now, idt),
    ensures
        v.created_at == v.updated_at,
        v.created_at == now,
{
}

/// A sparse update leaves every field absent from the request exactly as it
/// was; only present fields and the update timestamp change.
pub proof fn lemma_idea_update_touches_only_present(
    v0: IdeaView,
    v1: IdeaView,
    req: UpdateIdeaRequest,
    now: int,
)
    requires
        idea_updated(v0, v1, req, now),
    ensures
        v1.id == v0.id,
        v1.created_at == v0.created_at,
        req.title is None ==> v1.title == v0.title,
        req.content is None ==> v1.content == v0.content,
        req.tags is None ==> v1.tags == v0.tags,
        req.is_favorite is None ==> v1.is_favorite == v0.is_favorite,
        req.category is None ==> v1.category == v0.category,
        v1.updated_at == now,
{
}

/// The update request repeats exactly what the record already holds.
pub open spec fn idea_request_matches_stored(v0: IdeaView, req: UpdateIdeaRequest) -> bool {
    &&& (match req.title {
        Some(s) => s@ == v0.title,
        None => true,
    })
    &&& (match req.content {
        Some(c) => c@ == v0.content,
        None => true,
    })
    &&& (match req.tags {
        Some(ts) => ts.deep_view() == v0.tags,
        None => true,
    })
    &&& (match req.is_favorite {
        Some(f) => f == v0.is_favorite,
        None => true,
    })
    &&& (match req.category {
        Some(c) => c@ == v0.category,
        None => true,
    })
}

/// Updating with the exact values already stored reports "not modified" and
/// leaves the record identical — provided the refreshed update timestamp
/// also repeats the stored one, since the merge always rewrites it.
pub proof fn lemma_idea_update_idempotent(
    v0: IdeaView,
    v1: IdeaView,
    req: UpdateIdeaRequest,
    now: int,
)
    requires
        idea_updated(v0, v1, req, now),
        idea_request_matches_stored(v0, req),
        now == v0.updated_at,
    ensures
        !idea_update_modifies(v0, req, now),
        v1 == v0,
{
    assert(v1 =~= v0);
}

/// Two toggles in sequence restore the flag, and the value the second
/// toggle reports is the flag the record held before the first.
pub proof fn lemma_idea_toggle_self_inverse(
    v0: IdeaView,
    v1: IdeaView,
    v2: IdeaView,
    n1: int,
    n2: int,
)
    requires
        idea_toggled(v0, v1, n1),
        idea_toggled(v1, v2, n2),
    ensures
        v2.is_favorite == v0.is_favorite,
        !v1.is_favorite == v0.is_favorite,
{
}

/// The identifiers carried by the records of a sequence.
pub open spec fn idea_id_set(s: Seq<IdeaView>) -> Set<Seq<char>> {
    Set::new(|t: Seq<char>| exists|j: int| 0 <= j < s.len() && (#[trigger] s[j]).id == Some(t))
}

/// A filter that accepts every element returns the sequence unchanged.
proof fn lemma_idea_filter_all(s: Seq<IdeaView>, pred: spec_fn(IdeaView) -> bool)
    requires
        forall|i: int| 0 <= i < s.len() ==> pred(#[trigger] s[i]),
    ensures
        s.filter(pred) == s,
    decreases s.len(),
{
    reveal_with_fuel(Seq::<_>::filter, 2);
    if s.len() == 0 {
        assert(s.filter(pred) =~= s);
    } else {
        lemma_idea_filter_all(s.drop_last(), pred);
        assert(pred(s.last()));
        assert(s.filter(pred) =~= s);
    }
}

/// The listing filtered to favorites and the one filtered to the rest
/// together cover, by identifier, exactly the unfiltered listing.
pub proof fn lemma_idea_list_partition(
    all: Seq<IdeaView>,
    rt: Seq<IdeaView>,
    rf: Seq<IdeaView>,
    ra: Seq<IdeaView>,
)
    requires
        rt.to_multiset() == all.filter(|t: IdeaView| favorite_matches(t, Some(true))).to_multiset(),
        rf.to_multiset() == all.filter(
            |t: IdeaView| favorite_matches(t, Some(false)),
        ).to_multiset(),
        ra.to_multiset() == all.filter(|t: IdeaView| favorite_matches(t, None)).to_multiset(),
    ensures
        idea_id_set(rt).union(idea_id_set(rf)) == idea_id_set(ra),
{
    broadcast use vstd::seq_lib::group_filter_ensures;

    let pt = |t: IdeaView| favorite_matches(t, Some(true));
    let pf = |t: IdeaView| favorite_matches(t, Some(false));
    let pa = |t: IdeaView| favorite_matches(t, None);
    lemma_idea_filter_all(all, pa);
    assert forall|x: Seq<char>| idea_id_set(rt).union(idea_id_set(rf)).contains(x)
        implies idea_id_set(ra).contains(x) by {
        let (src, p) = if idea_id_set(rt).contains(x) {
            (rt, pt)
        } else {
            (rf, pf)
        };
        let j = choose|j: int| 0 <= j < src.len() && (#[trigger] src[j]).id == Some(x);
        let v = src[j];
        assert(src.contains(v));
        assert(src.to_multiset().count(v) > 0);
        assert(all.filter(p).contains(v));
        all.lemma_filter_contains_rev(p, v);
        assert(all.contains(v));
        assert(ra.to_multiset().count(v) > 0);
        assert(ra.contains(v));
        let k = choose|k: int| 0 <= k < ra.len() && ra[k] == v;
        assert(ra[k].id == Some(x));
    }
    assert forall|x: Seq<char>| idea_id_set(ra).contains(x) implies idea_id_set(rt).union(
        idea_id_set(rf),
    ).contains(x) by {
        let j = choose|j: int| 0 <= j < ra.len() && (#[trigger] ra[j]).id == Some(x);
        let v = ra[j];
        assert(ra.contains(v));
        assert(ra.to_multiset().count(v) > 0);
        assert(all.contains(v));
        let i = choose|i: int| 0 <= i < all.len() && all[i] == v;
        if v.is_favorite {
            assert(pt(all[i]));
            assert(all.filter(pt).contains(all[i]));
            assert(rt.to_multiset().count(v) > 0);
            assert(rt.contains(v));
            let k = choose|k: int| 0 <= k < rt.len() && rt[k] == v;
            assert(rt[k].id == Some(x));
            assert(idea_id_set(rt).contains(x));
        } else {
            assert(pf(all[i]));
            assert(all.filter(pf).contains(all[i]));
            assert(rf.to_multiset().count(v) > 0);
            assert(rf.contains(v));
            let k = choose|k: int| 0 <= k < rf.len() && rf[k] == v;
            assert(rf[k].id == Some(x));
            assert(idea_id_set(rf).contains(x));
        }
    }
    assert(idea_id_set(rt).union(idea_id_set(rf)) =~= idea_id_set(ra));
}

/// A store with the same records and serial as a well-formed one is well
/// formed.
proof fn lemma_idea_wf_same(s0: IdeaStore, s1: IdeaStore)
    requires
        s0.wf(),
        s1.recs() == s0.recs(),
        s1.serial() == s0.serial(),
    ensures
        s1.wf(),
{
    assert forall|k: int| 0 <= k < s1.recs().len() implies (#[trigger] s1.recs()[k].id) is Some
        && is_canonical_id(s1.recs()[k].id->0) by {
        assert(s0.recs()[k].id is Some && is_canonical_id(s0.recs()[k].id->0));
    }
    assert forall|k: int| 0 <= k < s1.recs().len() implies store_assigned(
        (#[trigger] s1.recs()[k].id)->0,
        s1.serial(),
    ) by {
        assert(s0.recs()[k].id is Some);
        assert(store_assigned(s0.recs()[k].id->0, s0.serial()));
        assert(s1.recs()[k].id == s0.recs()[k].id);
    }
    assert forall|k: int, l: int| 0 <= k < l < s1.recs().len() implies (#[trigger] s1.recs()[k].id)->0
        != (#[trigger] s1.recs()[l].id)->0 by {
        assert(s0.recs()[k].id->0 != s0.recs()[l].id->0);
    }
}

/// Replacing one record with one carrying the same identifier keeps the
/// store well formed.
proof fn lemma_idea_wf_replace(s0: IdeaStore, s1: IdeaStore, j: int, v1: IdeaView)
    requires
        s0.wf(),
        0 <= j < s0.recs().len(),
        s1.recs() == s0.recs().update(j, v1),
        v1.id == s0.recs()[j].id,
        s1.serial() == s0.serial(),
    ensures
        s1.wf(),
{
    assert forall|k: int| 0 <= k < s1.recs().len() implies (#[trigger] s1.recs()[k].id) is Some
        && is_canonical_id(s1.recs()[k].id->0) by {
        assert(s1.recs()[k].id == s0.recs()[k].id);
        assert(s0.recs()[k].id is Some && is_canonical_id(s0.recs()[k].id->0));
    }
    assert forall|k: int| 0 <= k < s1.recs().len() implies store_assigned(
        (#[trigger] s1.recs()[k].id)->0,
        s1.serial(),
    ) by {
        assert(s0.recs()[k].id is Some);
        assert(store_assigned(s0.recs()[k].id->0, s0.serial()));
        assert(s1.recs()[k].id == s0.recs()[k].id);
    }
    assert forall|k: int, l: int| 0 <= k < l < s1.recs().len() implies (#[trigger] s1.recs()[k].id)->0
        != (#[trigger] s1.recs()[l].id)->0 by {
        assert(s1.recs()[k].id == s0.recs()[k].id);
        assert(s1.recs()[l].id == s0.recs()[l].id);
        assert(s0.recs()[k].id->0 != s0.recs()[l].id->0);
    }
}

/// Removing one record keeps the store well formed.
proof fn lemma_idea_wf_remove(s0: IdeaStore, s1: IdeaStore, j: int)
    requires
        s0.wf(),
        0 <= j < s0.recs().len(),
        s1.recs() == s0.recs().remove(j),
        s1.serial() == s0.serial(),
    ensures
        s1.wf(),
{
    s0.recs().remove_ensures(j);
    assert(s1.recs().len() == s0.recs().len() - 1);
    assert forall|k: int| 0 <= k < s1.recs().len() implies (#[trigger] s1.recs()[k].id) is Some
        && is_canonical_id(s1.recs()[k].id->0) by {
        let k0 = if k < j { k } else { k + 1 };
        assert(s1.recs()[k] == s0.recs()[k0]);
        assert(s0.recs()[k0].id is Some && is_canonical_id(s0.recs()[k0].id->0));
    }
    assert forall|k: int| 0 <= k < s1.recs().len() implies store_assigned(
        (#[trigger] s1.recs()[k].id)->0,
        s1.serial(),
    ) by {
        let k0 = if k < j { k } else { k + 1 };
        assert(s1.recs()[k] == s0.recs()[k0]);
        assert(s0.recs()[k0].id is Some);
        assert(store_assigned(s0.recs()[k0].id->0, s0.serial()));
    }
    assert forall|k: int, l: int| 0 <= k < l < s1.recs().len() implies (#[trigger] s1.recs()[k].id)->0
        != (#[trigger] s1.recs()[l].id)->0 by {
        let k0 = if k < j { k } else { k + 1 };
        let l0 = if l < j { l } else { l + 1 };
        assert(s1.recs()[k] == s0.recs()[k0]);
        assert(s1.recs()[l] == s0.recs()[l0]);
        assert(s0.recs()[k0].id->0 != s0.recs()[l0].id->0);
    }
}

} // verus!
