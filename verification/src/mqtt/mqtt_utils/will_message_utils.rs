//! What an agent's will says: which application died.

pub mod app_type;
pub mod will_content;
