//! Core of a hot-reloadable runtime: type descriptors with name-derived identity,
//! a mark-sweep heap addressed through stable handles, reflection checks and
//! marshaling at the native-call boundary, and layout migration on reload.

pub mod diff;
pub mod gc;
pub mod layout;
pub mod marshal;
pub mod reflection;
pub mod reload;
pub mod struct_ref;
pub mod table;
pub mod type_info;
