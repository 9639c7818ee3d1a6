use vstd::prelude::*;

pub mod laws;
pub mod space;
pub mod store;
pub mod types;

pub use store::{ListModel, TodoListAccountData};
pub use types::{Identity, Todo, TodoError, MAX_CONTENT_LEN, MAX_TODO_LIST_LENGTH};

verus! {

} // verus!
