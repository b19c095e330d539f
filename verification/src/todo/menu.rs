//! What the list screen offers for a selection of entries, and what each
//! choice does to the list.

use vstd::prelude::*;
use super::db::{has_id, is_first, marked_all, todo_views, without, TodoDb};
use super::todo::{Todo, TodoView};

verus! {

broadcast use vstd::string::group_string_axioms;

/// What can be done with the selected entries.
#[derive(Debug, Clone, Copy, PartialEq, Eq, Structural)]
pub enum Operation {
    Edit,
    MarkCompleted,
    MarkNotCompleted,
    Delete,
    Cancel,
}

impl Operation {
    /// The words that the menu shows for the operation.
    pub open spec fn spec_label(self) -> Seq<char> {
        match self {
            Operation::Edit => "Edit"@,
            Operation::MarkCompleted => "Mark as completed"@,
            Operation::MarkNotCompleted => "Mark as not completed"@,
            Operation::Delete => "Delete"@,
            Operation::Cancel => "Cancel"@,
        }
    }

    /// The words that the menu shows for the operation.
    pub fn label(self) -> (label: &'static str)
        ensures
            label@ == self.spec_label(),
    {
        match self {
            Operation::Edit => "Edit",
            Operation::MarkCompleted => "Mark as completed",
            Operation::MarkNotCompleted => "Mark as not completed",
            Operation::Delete => "Delete",
            Operation::Cancel => "Cancel",
        }
    }
}

/// The operations on offer for `selected` entries: marking, deleting and
/// cancelling for any number of them, and before those editing for exactly one.
pub open spec fn operations_for(selected: nat) -> Seq<Operation> {
    let always = seq![
        Operation::MarkCompleted,
        Operation::MarkNotCompleted,
        Operation::Delete,
        Operation::Cancel,
    ];
    if selected == 1 {
        seq![Operation::Edit] + always
    } else {
        always
    }
}

/// The operations on offer for `selected` entries, in the order of the menu.
pub fn operations(selected: usize) -> (offered: Vec<Operation>)
    ensures
        offered@ == operations_for(selected as nat),
{
    let mut offered: Vec<Operation> = Vec::new();
    offered.push(Operation::MarkCompleted);
    offered.push(Operation::MarkNotCompleted);
    offered.push(Operation::Delete);
    offered.push(Operation::Cancel);
    if selected == 1 {
        offered.insert(0, Operation::Edit);
    }
    assert(offered@ =~= operations_for(selected as nat));
    offered
}

/// The lines that the list screen shows, one for each entry.
pub fn lines(todos: &Vec<Todo>) -> (shown: Vec<String>)
    ensures
        shown@.len() == todos@.len(),
        forall|k: int| 0 <= k < todos@.len() ==> (#[trigger] shown@[k])@ == todos@[k]@.line(),
{
    let mut shown: Vec<String> = Vec::new();
    let mut at: usize = 0;
    while at < todos.len()
        invariant
            at <= todos.len(),
            shown@.len() == at,
            forall|k: int| 0 <= k < at ==> (#[trigger] shown@[k])@ == todos@[k]@.line(),
        decreases todos.len() - at,
    {
        shown.push(todos[at].to_string());
        at = at + 1;
    }
    shown
}

/// The identifiers of the entries at the selected positions, in the order
/// of the selection.
pub fn selected_ids(todos: &Vec<Todo>, selections: &Vec<u8>) -> (ids: Vec<u32>)
    requires
        forall|k: int| 0 <= k < selections@.len() ==> (#[trigger] selections@[k]) < todos@.len(),
    ensures
        ids@.len() == selections@.len(),
        forall|k: int|
            0 <= k < selections@.len() ==> (#[trigger] ids@[k]) == todos@[selections@[k] as int]@.id,
        forall|k: int| 0 <= k < ids@.len() ==> has_id(todo_views(todos@), #[trigger] ids@[k]),
{
    let mut ids: Vec<u32> = Vec::new();
    let mut at: usize = 0;
    while at < selections.len()
        invariant
            at <= selections.len(),
            ids@.len() == at,
            forall|k: int|
                0 <= k < selections@.len() ==> (#[trigger] selections@[k]) < todos@.len(),
            forall|k: int| 0 <= k < at ==> (#[trigger] ids@[k]) == todos@[selections@[k] as int]@.id,
        decreases selections.len() - at,
    {
        let position: usize = selections[at] as usize;
        ids.push(todos[position].get_id());
        at = at + 1;
    }
    assert forall|k: int| 0 <= k < ids@.len() implies has_id(
        todo_views(todos@),
        #[trigger] ids@[k],
    ) by {
        assert(todo_views(todos@)[selections@[k] as int].id == ids@[k]);
    }
    ids
}

/// The entries of a list after an operation on the entries with the given
/// identifiers. Editing puts the edited entry, where there is one, in the
/// place of the first entry with its identifier; cancelling changes nothing.
pub open spec fn applied(
    todos: Seq<TodoView>,
    operation: Operation,
    ids: Seq<u32>,
    edited: Option<TodoView>,
    after: Seq<TodoView>,
) -> bool {
    match operation {
        Operation::Edit => match edited {
            Some(todo) => {
                &&& !has_id(todos, todo.id) ==> after == todos
                &&& forall|at: int|
                    is_first(todos, todo.id, at) ==> after == todos.update(at, todo)
            },
            None => after == todos,
        },
        Operation::MarkCompleted => after == marked_all(todos, ids, true),
        Operation::MarkNotCompleted => after == marked_all(todos, ids, false),
        Operation::Delete => after == without(todos, ids),
        Operation::Cancel => after == todos,
    }
}

/// Carries out the chosen operation on the entries with the given
/// identifiers. For marking, every identifier must be that of an entry.
pub fn apply(db: &mut TodoDb, operation: Operation, ids: Vec<u32>, edited: Option<Todo>)
    requires
        operation == Operation::MarkCompleted || operation == Operation::MarkNotCompleted
            ==> forall|k: int| 0 <= k < ids@.len() ==> has_id(old(db)@.todos, #[trigger] ids@[k]),
    ensures
        final(db)@.path == old(db)@.path,
        applied(
            old(db)@.todos,
            operation,
            ids@,
            match edited {
                Some(todo) => Some(todo@),
                None => None,
            },
            final(db)@.todos,
        ),
{
    match operation {
        Operation::Edit => {
            match edited {
                Some(todo) => db.update_todo(&todo),
                None => {},
            }
        },
        Operation::MarkCompleted => db.set_completed(ids, true),
        Operation::MarkNotCompleted => db.set_completed(ids, false),
        Operation::Delete => db.delete_todos(ids),
        Operation::Cancel => {},
    }
}

} // verus!
