//! Execution core of an embeddable structured-data command language.
//!
//! The crate covers three subsystems:
//! - a scope tree that resolves variable names along a lexical parent chain
//!   and propagates break/continue signals along a separate dynamic caller
//!   chain (`scope`);
//! - the command abstraction and the closure pipeline driver that runs a
//!   closure's ordered stages with row streams wired between them
//!   (`command`, `control`, `stream`);
//! - records with an ordered field table and prototype-style delegation to a
//!   parent record (`record`).
//!
//! Scopes and records are shared structures: many holders may refer to one
//! mutable backing. They are therefore kept in arenas (`ScopeTree`,
//! `StructHeap`) and addressed through copyable handles. Scope edges point
//! at earlier arena slots, so both scope chains are acyclic by construction;
//! record delegation chains are kept acyclic as a heap invariant, with
//! cycle-forming re-targets rejected explicitly.

pub mod errors;
pub mod value;
pub mod scope;
pub mod record;
pub mod stream;
pub mod command;
pub mod vm;
pub mod control;
