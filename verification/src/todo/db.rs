//! A list of to-do entries, kept in the order in which they were added, and
//! the path of the file that it is stored in.

use vstd::prelude::*;
use super::todo::{Todo, TodoView};

verus! {

broadcast use vstd::string::group_string_axioms;

/// The entries of a to-do list and the path of the file that holds them.
pub struct TodoDb {
    path: String,
    todos: Vec<Todo>,
}

/// A to-do list as a value.
pub struct TodoDbView {
    pub path: Seq<char>,
    pub todos: Seq<TodoView>,
}

/// The values of a sequence of entries.
pub open spec fn todo_views(todos: Seq<Todo>) -> Seq<TodoView> {
    todos.map_values(|t: Todo| t@)
}

/// Whether some entry has the identifier `id`.
pub open spec fn has_id(todos: Seq<TodoView>, id: u32) -> bool {
    exists|k: int| 0 <= k < todos.len() && (#[trigger] todos[k]).id == id
}

/// Whether position `at` holds the first entry with the identifier `id`.
pub open spec fn is_first(todos: Seq<TodoView>, id: u32, at: int) -> bool {
    &&& 0 <= at < todos.len()
    &&& todos[at].id == id
    &&& forall|k: int| 0 <= k < at ==> (#[trigger] todos[k]).id != id
}

/// The identifier for the next entry: one more than that of the last entry,
/// or one for an empty list.
pub open spec fn next_id(todos: Seq<TodoView>) -> int {
    if todos.len() == 0 {
        1
    } else {
        todos.last().id + 1
    }
}

/// The entries whose identifier is not among `ids`, in their order.
pub open spec fn without(todos: Seq<TodoView>, ids: Seq<u32>) -> Seq<TodoView> {
    todos.filter(|t: TodoView| !ids.contains(t.id))
}

/// The entry at position `at` after marking: for each of `ids`, the first
/// entry with that identifier gets the mark, every other entry stays as it is.
pub open spec fn marked_at(todos: Seq<TodoView>, ids: Seq<u32>, completed: bool, at: int)
    -> TodoView {
    if ids.contains(todos[at].id) && is_first(todos, todos[at].id, at) {
        todos[at].marked(completed)
    } else {
        todos[at]
    }
}

/// The list after marking, for each of `ids`, the first entry with that
/// identifier.
pub open spec fn marked_all(todos: Seq<TodoView>, ids: Seq<u32>, completed: bool) -> Seq<
    TodoView,
> {
    Seq::new(todos.len(), |at: int| marked_at(todos, ids, completed, at))
}

impl View for TodoDb {
    type V = TodoDbView;

    closed spec fn view(&self) -> TodoDbView {
        TodoDbView { path: self.path@, todos: todo_views(self.todos@) }
    }
}

impl TodoDb {
    /// A list with the given entries, stored at `path`, or at
    /// `db/todos.json` where no path is given.
    pub fn new(path: Option<&str>, todos: Vec<Todo>) -> (db: Self)
        ensures
            db@.path == match path {
                Some(p) => p@,
                None => "db/todos.json"@,
            },
            db@.todos == todo_views(todos@),
    {
        let path = path.unwrap_or("db/todos.json").to_string();
        Self { path, todos }
    }

    /// The path of the file that the list is stored in.
    pub fn path(&self) -> (path: &String)
        ensures
            path@ == self@.path,
    {
        &self.path
    }

    /// The position of the first entry with the identifier `id`.
    fn position(&self, id: u32) -> (found: Option<usize>)
        ensures
            match found {
                Some(at) => is_first(self@.todos, id, at as int),
                None => !has_id(self@.todos, id),
            },
    {
        let mut at: usize = 0;
        while at < self.todos.len()
            invariant
                at <= self.todos.len(),
                forall|k: int| 0 <= k < at ==> (#[trigger] self@.todos[k]).id != id,
            decreases self.todos.len() - at,
        {
            if self.todos[at].get_id() == id {
                return Some(at);
            }
            at = at + 1;
        }
        None
    }

    /// Adds a copy of `todo` at the end, unless an entry with its identifier
    /// is already there.
    pub fn add_todo(&mut self, todo: &Todo)
        ensures
            final(self)@.path == old(self)@.path,
            final(self)@.todos == if has_id(old(self)@.todos, todo@.id) {
                old(self)@.todos
            } else {
                old(self)@.todos.push(todo@)
            },
    {
        if self.position(todo.get_id()).is_some() {
            return ;
        }
        let ghost before = self.todos@;
        self.todos.push(todo.clone());
        assert(todo_views(self.todos@) =~= todo_views(before).push(todo@));
    }

    /// The identifier to give to the next entry.
    pub fn get_current_id(&self) -> (id: u32)
        requires
            next_id(self@.todos) <= u32::MAX,
        ensures
            id == next_id(self@.todos),
    {
        let last: u32 = if self.todos.len() == 0 {
            0
        } else {
            self.todos[self.todos.len() - 1].get_id()
        };
        last + 1
    }

    /// A copy of the entries, in their order.
    pub fn get_todos(&self) -> (todos: Vec<Todo>)
        ensures
            todo_views(todos@) == self@.todos,
    {
        let mut todos: Vec<Todo> = Vec::new();
        let mut at: usize = 0;
        while at < self.todos.len()
            invariant
                at <= self.todos.len(),
                todo_views(todos@) == self@.todos.take(at as int),
            decreases self.todos.len() - at,
        {
            let ghost before = todos@;
            todos.push(self.todos[at].clone());
            assert(todo_views(todos@) =~= todo_views(before).push(self.todos@[at as int]@));
            at = at + 1;
            assert(todo_views(todos@) =~= self@.todos.take(at as int));
        }
        assert(self@.todos.take(at as int) =~= self@.todos);
        todos
    }

    /// The first entry with the identifier `id`, if there is one.
    pub fn get_todo(&self, id: u32) -> (todo: Option<&Todo>)
        ensures
            match todo {
                Some(found) => exists|at: int|
                    is_first(self@.todos, id, at) && found@ == self@.todos[at],
                None => !has_id(self@.todos, id),
            },
    {
        match self.position(id) {
            Some(at) => Some(&self.todos[at]),
            None => None,
        }
    }

    /// Puts a copy of `todo` in the place of the first entry with its
    /// identifier. Without such an entry the list stays as it is.
    pub fn update_todo(&mut self, todo: &Todo)
        ensures
            final(self)@.path == old(self)@.path,
            !has_id(old(self)@.todos, todo@.id) ==> final(self)@.todos == old(self)@.todos,
            forall|at: int|
                is_first(old(self)@.todos, todo@.id, at) ==> final(self)@.todos == old(
                    self,
                )@.todos.update(at, todo@),
    {
        if let Some(index) = self.position(todo.get_id()) {
            let ghost before = self.todos@;
            self.todos.set(index, todo.clone());
            assert(todo_views(self.todos@) =~= todo_views(before).update(index as int, todo@));
        }
    }

    /// Sets the completion mark of the first entry with each of the given
    /// identifiers. Every identifier must be that of an entry.
    pub fn set_completed(&mut self, ids: Vec<u32>, completed: bool)
        requires
            forall|k: int| 0 <= k < ids@.len() ==> has_id(old(self)@.todos, #[trigger] ids@[k]),
        ensures
            final(self)@.path == old(self)@.path,
            final(self)@.todos == marked_all(old(self)@.todos, ids@, completed),
    {
        let ghost before = self@.todos;
        let mut at: usize = 0;
        assert(self@.todos =~= marked_all(before, ids@.take(0), completed));
        while at < ids.len()
            invariant
                at <= ids.len(),
                self@.path == old(self)@.path,
                before == old(self)@.todos,
                forall|k: int| 0 <= k < ids@.len() ==> has_id(before, #[trigger] ids@[k]),
                self@.todos == marked_all(before, ids@.take(at as int), completed),
            decreases ids.len() - at,
        {
            let id = ids[at];
            let ghost done = ids@.take(at as int);
            proof {
                assert(has_id(before, ids@[at as int]));
                lemma_marking_keeps_ids(before, done, completed, id);
            }
            let index = self.position(id).unwrap();
            let mut todo = self.todos[index].clone();
            todo.set_completed(completed);
            let ghost entries = self.todos@;
            self.todos.set(index, todo);
            proof {
                assert(todo_views(self.todos@) =~= todo_views(entries).update(
                    index as int,
                    todo_views(entries)[index as int].marked(completed),
                ));
                assert(ids@.take(at + 1) =~= done.push(id));
                lemma_marked_one_more(before, done, id, completed, index as int);
            }
            at = at + 1;
        }
        assert(ids@.take(at as int) =~= ids@);
    }

    /// Removes every entry whose identifier is among `ids`.
    pub fn delete_todos(&mut self, ids: Vec<u32>)
        ensures
            final(self)@.path == old(self)@.path,
            final(self)@.todos == without(old(self)@.todos, ids@),
    {
        let ghost before = self@.todos;
        let mut kept: Vec<Todo> = Vec::new();
        let mut at: usize = 0;
        proof {
            reveal(Seq::filter);
            assert(before.take(0) =~= Seq::<TodoView>::empty());
        }
        while at < self.todos.len()
            invariant
                at <= self.todos.len(),
                *self == *old(self),
                before == self@.todos,
                todo_views(kept@) == without(before.take(at as int), ids@),
            decreases self.todos.len() - at,
        {
            let ghost so_far = kept@;
            let id = self.todos[at].get_id();
            proof {
                assert(before.take(at + 1) =~= before.take(at as int).push(before[at as int]));
                before.take(at as int).lemma_filter_push(
                    before[at as int],
                    |t: TodoView| !ids@.contains(t.id),
                );
            }
            if !contains_id(&ids, id) {
                kept.push(self.todos[at].clone());
                assert(todo_views(kept@) =~= todo_views(so_far).push(before[at as int]));
            }
            at = at + 1;
        }
        assert(before.take(at as int) =~= before);
        self.todos = kept;
    }
}

/// Marking changes no identifier: the list has the same entries with an
/// identifier, and the same first entry with it, before and after.
proof fn lemma_marking_keeps_ids(todos: Seq<TodoView>, ids: Seq<u32>, completed: bool, id: u32)
    ensures
        has_id(todos, id) <==> has_id(marked_all(todos, ids, completed), id),
        forall|at: int|
            is_first(marked_all(todos, ids, completed), id, at) <==> is_first(todos, id, at),
{
    let after = marked_all(todos, ids, completed);
    assert forall|k: int| 0 <= k < todos.len() implies (#[trigger] after[k]).id
        == todos[k].id by {
        assert(after[k] == marked_at(todos, ids, completed, k));
    }
    if has_id(todos, id) {
        let k = choose|k: int| 0 <= k < todos.len() && (#[trigger] todos[k]).id == id;
        assert(after[k].id == id);
    }
    if has_id(after, id) {
        let k = choose|k: int| 0 <= k < after.len() && (#[trigger] after[k]).id == id;
        assert(todos[k].id == id);
    }
    assert forall|at: int| is_first(after, id, at) <==> is_first(todos, id, at) by {
        if is_first(after, id, at) {
            assert forall|k: int| 0 <= k < at implies (#[trigger] todos[k]).id != id by {
                assert(after[k].id == todos[k].id);
            }
        }
        if is_first(todos, id, at) {
            assert(after[at].id == todos[at].id);
            assert forall|k: int| 0 <= k < at implies (#[trigger] after[k]).id != id by {
                assert(after[k].id == todos[k].id);
            }
        }
    }
}

/// Marking for one more identifier marks, on top of the others, the first
/// entry with that identifier.
proof fn lemma_marked_one_more(
    todos: Seq<TodoView>,
    done: Seq<u32>,
    id: u32,
    completed: bool,
    at: int,
)
    requires
        is_first(todos, id, at),
    ensures
        marked_all(todos, done.push(id), completed) == marked_all(todos, done, completed).update(
            at,
            marked_all(todos, done, completed)[at].marked(completed),
        ),
{
    let more = done.push(id);
    let before = marked_all(todos, done, completed);
    let after = before.update(at, before[at].marked(completed));
    assert forall|j: int| 0 <= j < todos.len() implies marked_at(todos, more, completed, j)
        == #[trigger] after[j] by {
        assert(before[j] == marked_at(todos, done, completed, j));
        lemma_contains_push(done, id, todos[j].id);
        if j != at && todos[j].id == id {
            assert(!is_first(todos, id, j)) by {
                if j < at {
                    assert(todos[j].id != id);
                }
            }
        }
    }
    assert(marked_all(todos, more, completed) =~= after);
}

/// An identifier is among some identifiers and one more exactly when it is
/// among the former or is the latter.
proof fn lemma_contains_push(ids: Seq<u32>, added: u32, id: u32)
    ensures
        ids.push(added).contains(id) <==> (ids.contains(id) || id == added),
{
    let more = ids.push(added);
    if ids.contains(id) {
        let w = choose|w: int| 0 <= w < ids.len() && ids[w] == id;
        assert(more[w] == id);
    }
    if id == added {
        assert(more[ids.len() as int] == id);
    }
    if more.contains(id) {
        let w = choose|w: int| 0 <= w < more.len() && more[w] == id;
        if w < ids.len() {
            assert(ids[w] == id);
        }
    }
}

/// Whether `id` is among `ids`.
fn contains_id(ids: &Vec<u32>, id: u32) -> (found: bool)
    ensures
        found == ids@.contains(id),
{
    let mut at: usize = 0;
    while at < ids.len()
        invariant
            at <= ids.len(),
            forall|k: int| 0 <= k < at ==> ids@[k] != id,
        decreases ids.len() - at,
    {
        if ids[at] == id {
            return true;
        }
        at = at + 1;
    }
    false
}

} // verus!
