//! The text terminal driver.
pub mod io;
