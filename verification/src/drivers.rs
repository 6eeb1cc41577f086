//! Device drivers.
pub mod tty;
