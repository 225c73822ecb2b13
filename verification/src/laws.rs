//! What the operations are for: laws that say of the functions what comes of their inputs.

pub mod answers;
pub mod forms;
pub mod frames;
pub mod listening;
pub mod replies;
pub mod reports;
pub mod rings;
pub mod serving;
pub mod settings;
pub mod start;
pub mod texts;
pub mod traffic;
pub mod viewing;
pub mod work;
