//! A small x86_64 kernel's logic: the text screen and its writers, the
//! command line of the terminal, the physical frame allocator and the
//! heap layout.

pub mod screen;
pub mod tty;
pub mod drivers;
pub mod terminal;
pub mod memory;
pub mod allocator;
pub mod cpu;
pub mod log;
