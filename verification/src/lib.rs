//! Verified core of `recall`: session models, the OpenCode session builders,
//! session locators and the incremental index bookkeeping.

pub mod clock;
pub mod index;
pub mod json;
pub mod order;
pub mod parser;
pub mod paths;
pub mod session;
pub mod text;

pub use session::{Message, Role, Session, SessionSource};
