use vstd::prelude::*;
use crate::ident::RecordId;

verus! {

/// A stored task record.  The identifier is absent until the store assigns
/// one; timestamps are milliseconds since the epoch, UTC.
#[derive(Debug)]
pub struct Todo {
    pub id: Option<RecordId>,
    pub title: String,
    pub description: Option<String>,
    pub completed: bool,
    pub priority: i32,
    pub due_date: Option<i64>,
    pub created_at: i64,
    pub updated_at: i64,
    pub tags: Vec<String>,
    pub category: String,
}

/// A stored note record.
#[derive(Debug)]
pub struct Idea {
    pub id: Option<RecordId>,
    pub title: String,
    pub content: String,
    pub created_at: i64,
    pub updated_at: i64,
    pub tags: Vec<String>,
    pub is_favorite: bool,
    pub category: String,
}

/// The mathematical value of a task record.
#[verifier::ext_equal]
pub ghost struct TodoView {
    pub id: Option<Seq<char>>,
    pub title: Seq<char>,
    pub description: Option<Seq<char>>,
    pub completed: bool,
    pub priority: int,
    pub due_date: Option<int>,
    pub created_at: int,
    pub updated_at: int,
    pub tags: Seq<Seq<char>>,
    pub category: Seq<char>,
}

/// The mathematical value of a note record.
#[verifier::ext_equal]
pub ghost struct IdeaView {
    pub id: Option<Seq<char>>,
    pub title: Seq<char>,
    pub content: Seq<char>,
    pub created_at: int,
    pub updated_at: int,
    pub tags: Seq<Seq<char>>,
    pub is_favorite: bool,
    pub category: Seq<char>,
}

impl View for Todo {
    type V = TodoView;

    open spec fn view(&self) -> TodoView {
        TodoView {
            id: match self.id {
                Some(ref i) => Some(i@),
                None => None,
            },
            title: self.title@,
            description: match self.description {
                Some(ref d) => Some(d@),
                None => None,
            },
            completed: self.completed,
            priority: self.priority as int,
            due_date: match self.due_date {
                Some(t) => Some(t as int),
                None => None,
            },
            created_at: self.created_at as int,
            updated_at: self.updated_at as int,
            tags: self.tags.deep_view(),
            category: self.category@,
        }
    }
}

impl View for Idea {
    type V = IdeaView;

    open spec fn view(&self) -> IdeaView {
        IdeaView {
            id: match self.id {
                Some(ref i) => Some(i@),
                None => None,
            },
            title: self.title@,
            content: self.content@,
            created_at: self.created_at as int,
            updated_at: self.updated_at as int,
            tags: self.tags.deep_view(),
            is_favorite: self.is_favorite,
            category: self.category@,
        }
    }
}

/// Clone a tag list, text for text.
pub fn clone_tags(v: &Vec<String>) -> (r: Vec<String>)
    ensures
        r.deep_view() == v.deep_view(),
        r@.len() == v@.len(),
{
    let mut r: Vec<String> = Vec::new();
    let n = v.len();
    let mut i: usize = 0;
    while i < n
        invariant
            n == v@.len(),
            i <= n,
            r@.len() == i as int,
            forall|j: int| 0 <= j < i as int ==> #[trigger] r@[j]@ == v@[j]@,
        decreases n - i,
    {
        r.push(v[i].clone());
        i += 1;
    }
    proof {
        assert(r.deep_view() =~= v.deep_view());
    }
    r
}

/// Whether two tag lists hold the same texts in the same order.
pub fn tags_equal(a: &Vec<String>, b: &Vec<String>) -> (r: bool)
    ensures
        r == (a.deep_view() == b.deep_view()),
{
    let n = a.len();
    if n != b.len() {
        proof {
            assert(a.deep_view().len() != b.deep_view().len());
        }
        return false;
    }
    let mut i: usize = 0;
    while i < n
        invariant
            n == a@.len(),
            n == b@.len(),
            i <= n,
            forall|j: int| 0 <= j < i as int ==> #[trigger] a@[j]@ == b@[j]@,
        decreases n - i,
    {
        if !a[i].eq(&b[i]) {
            proof {
                assert(a.deep_view()[i as int] != b.deep_view()[i as int]);
            }
            return false;
        }
        i += 1;
    }
    proof {
        assert(a.deep_view() =~= b.deep_view());
    }
    true
}

fn clone_opt_string(o: &Option<String>) -> (r: Option<String>)
    ensures
        match (o, &r) {
            (Some(a), Some(b)) => a@ == b@,
            (None, None) => true,
            _ => false,
        },
{
    match o {
        Some(s) => Some(s.clone()),
        None => None,
    }
}

fn clone_opt_id(o: &Option<RecordId>) -> (r: Option<RecordId>)
    ensures
        r == *o,
{
    match o {
        Some(i) => Some(i.clone()),
        None => None,
    }
}

impl Clone for Todo {
    fn clone(&self) -> (r: Self)
        ensures
            r@ == self@,
    {
        let r = Todo {
            id: clone_opt_id(&self.id),
            title: self.title.clone(),
            description: clone_opt_string(&self.description),
            completed: self.completed,
            priority: self.priority,
            due_date: self.due_date,
            created_at: self.created_at,
            updated_at: self.updated_at,
            tags: clone_tags(&self.tags),
            category: self.category.clone(),
        };
        proof {
            assert(r@ =~= self@);
        }
        r
    }
}

impl Clone for Idea {
    fn clone(&self) -> (r: Self)
        ensures
            r@ == self@,
    {
        let r = Idea {
            id: clone_opt_id(&self.id),
            title: self.title.clone(),
            content: self.content.clone(),
            created_at: self.created_at,
            updated_at: self.updated_at,
            tags: clone_tags(&self.tags),
            is_favorite: self.is_favorite,
            category: self.category.clone(),
        };
        proof {
            assert(r@ =~= self@);
        }
        r
    }
}

/// What a caller supplies to create a task.  Absent fields take the
/// documented defaults.
#[derive(Debug)]
pub struct CreateTodoRequest {
    pub title: String,
    pub description: Option<String>,
    pub priority: Option<i32>,
    pub due_date: Option<String>,
    pub tags: Option<Vec<String>>,
    pub category: Option<String>,
}

/// A sparse task update: only present fields are written.
#[derive(Debug)]
pub struct UpdateTodoRequest {
    pub title: Option<String>,
    pub description: Option<String>,
    pub completed: Option<bool>,
    pub priority: Option<i32>,
    pub due_date: Option<String>,
    pub tags: Option<Vec<String>>,
    pub category: Option<String>,
}

/// What a caller supplies to create a note.
#[derive(Debug)]
pub struct CreateIdeaRequest {
    pub title: String,
    pub content: String,
    pub tags: Option<Vec<String>>,
    pub is_favorite: Option<bool>,
    pub category: Option<String>,
}

/// A sparse note update: only present fields are written.
#[derive(Debug)]
pub struct UpdateIdeaRequest {
    pub title: Option<String>,
    pub content: Option<String>,
    pub tags: Option<Vec<String>>,
    pub is_favorite: Option<bool>,
    pub category: Option<String>,
}

} // verus!
