//! One entry of a to-do list.

use vstd::prelude::*;
use vstd::string::StringExecFns;

verus! {

broadcast use vstd::string::group_string_axioms;

/// A task with a due date, and whether it is done.
#[derive(Debug)]
pub struct Todo {
    id: u32,
    title: String,
    description: String,
    due_date: String,
    completed: bool,
}

/// A to-do entry as a value.
pub struct TodoView {
    pub id: u32,
    pub title: Seq<char>,
    pub description: Seq<char>,
    pub due_date: Seq<char>,
    pub completed: bool,
}

impl TodoView {
    /// The entry with its completion mark set to `completed`.
    pub open spec fn marked(self, completed: bool) -> TodoView {
        TodoView { completed, ..self }
    }

    /// The line that shows the entry: title, due date in parentheses, and a
    /// note when the entry is completed.
    pub open spec fn line(self) -> Seq<char> {
        let open = self.title + " ("@ + self.due_date + ")"@;
        if self.completed {
            open + " [Completed]"@
        } else {
            open
        }
    }
}

impl View for Todo {
    type V = TodoView;

    closed spec fn view(&self) -> TodoView {
        TodoView {
            id: self.id,
            title: self.title@,
            description: self.description@,
            due_date: self.due_date@,
            completed: self.completed,
        }
    }
}

impl Clone for Todo {
    fn clone(&self) -> (copy: Self)
        ensures
            copy@ == self@,
    {
        Todo {
            id: self.id,
            title: self.title.clone(),
            description: self.description.clone(),
            due_date: self.due_date.clone(),
            completed: self.completed,
        }
    }
}

impl Todo {
    pub fn new(
        id: u32,
        title: String,
        description: String,
        due_date: String,
        completed: bool,
    ) -> (todo: Self)
        ensures
            todo@ == (TodoView {
                id,
                title: title@,
                description: description@,
                due_date: due_date@,
                completed,
            }),
    {
        Self { id, title, description, due_date, completed }
    }

    pub fn get_id(&self) -> (id: u32)
        ensures
            id == self@.id,
    {
        self.id
    }

    pub fn set_completed(&mut self, completed: bool)
        ensures
            final(self)@ == old(self)@.marked(completed),
    {
        self.completed = completed;
    }

    pub fn get_title(&self) -> (title: String)
        ensures
            title@ == self@.title,
    {
        self.title.clone()
    }

    pub fn get_description(&self) -> (description: String)
        ensures
            description@ == self@.description,
    {
        self.description.clone()
    }

    pub fn get_due_date(&self) -> (due_date: String)
        ensures
            due_date@ == self@.due_date,
    {
        self.due_date.clone()
    }

    #[allow(dead_code)]
    pub fn get_completed(&self) -> (completed: bool)
        ensures
            completed == self@.completed,
    {
        self.completed
    }

    /// The line that shows the entry in a list.
    pub fn to_string(&self) -> (line: String)
        ensures
            line@ == self@.line(),
    {
        let mut line = self.title.clone();
        line.append(" (");
        line.append(self.due_date.as_str());
        line.append(")");
        if self.completed {
            line.append(" [Completed]");
        }
        line
    }
}

} // verus!
