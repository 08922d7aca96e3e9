//! Checks that the declarations at the top of a module (external crates,
//! out-of-line sub-modules and `use` items) stand in alphabetical order, and
//! builds the warning, with a ready reordering, for a group that does not.
pub mod attrs;
pub mod check;
pub mod classify;
pub mod imports;
pub mod order;
pub mod sorty;
pub mod text;

pub use sorty::Sorty;
