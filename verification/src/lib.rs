//! An in-memory todo list: a task store that hands out strictly increasing
//! numeric ids, together with the pure dispatch logic of its console menu.

pub mod command;
pub mod store;
