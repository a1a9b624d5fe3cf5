//! Verified core of a small static blog: the article header parser, the
//! splitting of a post into its header and body, the page assembly around
//! the markdown and template engines, and the choice of replies of the web
//! handlers.

pub mod text;
pub mod timestamp;
pub mod article;
pub mod template;
pub mod generator;
pub mod handler;
pub mod state;
