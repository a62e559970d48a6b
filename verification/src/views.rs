//! The values the page templates are rendered from.

pub mod edit;
pub mod index;
pub mod jump;
pub mod layout;
pub mod new;
pub mod search;
