pub mod backend;
pub mod buffer;
pub mod dispatch;
pub mod file;
pub mod hooks;
pub mod lenient;
pub mod msg;
pub mod task;
pub mod text;
