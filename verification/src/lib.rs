//! An in-memory skills directory: participants register the skills they
//! teach and the skills they want to learn, look for participants who teach
//! what they want, and share learning resources grouped by category.

pub mod error;
pub mod ident;
pub mod laws;
pub mod model;
pub mod records;
mod shelves;
pub mod skill_set;
pub mod store;
