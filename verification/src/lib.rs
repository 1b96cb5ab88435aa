//! A reflective property-mutation command engine.
//!
//! An interactive host (an editor with an inspector view and an undo/redo
//! stack) describes edits to a live, deeply nested object graph as reversible
//! commands. A command carries a textual path; the path is resolved against
//! the graph at every `execute`/`revert` call, so a path that has gone stale
//! never panics: the mutation is skipped, an error is logged, and the state
//! is left untouched.
//!
//! - [`value`] holds the tagged dynamic value model of the graph.
//! - [`path`] parses and renders the textual paths.
//! - [`reflect`] resolves paths and performs all-or-nothing mutations.
//! - [`command`] holds the three reversible commands and their factory.
//! - [`log`] is the injected error sink.
//! - [`laws`] proves the engine's global guarantees.

pub mod command;
pub mod laws;
pub mod log;
pub mod path;
pub mod reflect;
pub mod value;

pub use command::AddCollectionItemCommand;
pub use command::EntityGraph;
pub use command::EntityHandle;
pub use command::PropertyAction;
pub use command::PropertyChanged;
pub use command::PropertyCommand;
pub use command::RemoveCollectionItemCommand;
pub use command::SetPropertyCommand;
pub use command::make_command;
pub use log::ErrorLog;
pub use path::PathSeg;
pub use path::PropertyPath;
pub use reflect::ErrorKind;
pub use reflect::MutOp;
pub use reflect::MutationError;
pub use value::FieldEntry;
pub use value::Kind;
pub use value::Value;
