//! A source-code assembly library.
//!
//! Callers build an in-memory model of declarations (constants, modules,
//! structures, traits, enumerations, implementations, imports, comments,
//! documentation, license headers) inside a [`Scope`], and the library renders
//! that model into consistently indented text through an indentation-aware
//! [`Formatter`]. Every rendering function carries a contract that pins the
//! emitted text down to the exact sequence of characters.

pub mod comment;
pub mod consts;
pub mod docs;
pub mod formatter;
pub mod import;
pub mod item;
pub mod license;
pub mod module;
pub mod scope;
pub mod text;

pub use comment::Comment;
pub use consts::{Const, Type};
pub use docs::Docs;
pub use formatter::Formatter;
pub use import::{Import, ImportGroup};
pub use item::{Enum, Function, Impl, Item, Struct, Trait};
pub use license::{License, LicenseType};
pub use module::Module;
pub use scope::Scope;
