pub mod app;
pub mod git;
pub mod numstat;
pub mod pipeline;
pub mod ranking;
pub mod share;
pub mod summary;
