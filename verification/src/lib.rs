pub mod backend;
pub mod cli;
pub mod event;
pub mod model;
pub mod text;
pub mod app;
