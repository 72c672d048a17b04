//! A verified in-memory model of a todont table: rows of `{id, description,
//! done}` with server-assigned unique ids, offering list, get-by-id, create,
//! update and delete, each with an exact contract.

pub mod service;
pub mod todonts;
