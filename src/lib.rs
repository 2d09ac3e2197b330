//! An API backward-compatibility checker for a library package: it resolves the
//! module tree of an old and a new revision of the sources, extracts the public
//! surface of every module, and reports declarations whose shape changed in a way
//! that breaks external callers.
pub mod model;
pub mod surface;
pub mod compat;
pub mod run;
pub mod laws;
pub mod syntax;
pub mod resolve;
pub mod layout;
