//! The records the node stores and the request bodies its API accepts.

use vstd::prelude::*;

verus! {

/// One todo row, as stored and as exchanged between replicas.
#[derive(Debug, Clone)]
pub struct Todo {
    pub id: String,
    pub title: String,
    pub completed: bool,
    pub deleted: bool,
    pub updated_at: i64,
    pub node_id: String,
}

/// The mathematical value of a todo row.
pub struct TodoRecord {
    pub id: Seq<char>,
    pub title: Seq<char>,
    pub completed: bool,
    pub deleted: bool,
    pub updated_at: int,
    pub node_id: Seq<char>,
}

impl View for Todo {
    type V = TodoRecord;

    open spec fn view(&self) -> TodoRecord {
        TodoRecord {
            id: self.id@,
            title: self.title@,
            completed: self.completed,
            deleted: self.deleted,
            updated_at: self.updated_at as int,
            node_id: self.node_id@,
        }
    }
}

impl Todo {
    /// A copy of the row.
    pub fn duplicate(&self) -> (res: Todo)
        ensures
            res@ == self@,
    {
        Todo {
            id: self.id.clone(),
            title: self.title.clone(),
            completed: self.completed,
            deleted: self.deleted,
            updated_at: self.updated_at,
            node_id: self.node_id.clone(),
        }
    }
}

/// The views of a list of rows.
pub open spec fn records(v: Seq<Todo>) -> Seq<TodoRecord> {
    v.map_values(|t: Todo| t@)
}

/// The body of a request that creates a todo.
#[derive(Debug)]
pub struct CreateTodo {
    pub title: String,
}

/// The body of a request that marks a todo done or not done.
#[derive(Debug)]
pub struct UpdateTodo {
    pub completed: bool,
}

/// The body of a request that registers a peer by URL.
#[derive(Debug)]
pub struct PeerReq {
    pub url: String,
}

} // verus!
