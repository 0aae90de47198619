//! Comment-thread retrieval and trust resolution for an embeddable comment
//! widget: who is asking, what they may see, how threads are paged, and who
//! may change a comment.
pub mod api;
pub mod cli;
pub mod db;
