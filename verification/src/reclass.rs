//! The reclass overlay engine: a recursive, user-authored schema of
//! scalars, padding, pointer indirection and nested structs, evaluated
//! against a live remote address into a mirror-shaped result tree.
pub mod config_file;
pub mod display;
pub mod runner;
pub mod scripting;
