pub mod text;
pub mod ipc;
pub mod refcount;
pub mod progress;
pub mod ui;
pub mod time;
pub mod cli;
pub mod daemon;
pub mod install;
pub mod session;
