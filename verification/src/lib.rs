//! A netlist synthesis library: circuit blocks (entities) with multiple
//! architectures are bound to a target simulator backend and synthesized
//! into a dependency-ordered, deduplicated sequence of textual definitions.
#![verifier::loop_isolation(false)]

pub mod assoc;
pub mod config;
pub mod data;
pub mod laws;
pub mod model;
pub mod simulator;
pub mod template;

pub use crate::assoc::map_get;
pub use crate::config::Configuration;
pub use crate::simulator::Ngspice;
pub use crate::simulator::Simulator;
pub use crate::data::Arch;
pub use crate::data::def_eq;
pub use crate::data::defs_contains;
pub use crate::data::CodeArch;
pub use crate::data::CodeDialectArch;
pub use crate::data::CodeError;
pub use crate::data::DefView;
pub use crate::data::Definition;
pub use crate::data::Design;
pub use crate::data::Entity;
pub use crate::data::Instance;
pub use crate::data::Schematic;
pub use crate::data::Symbol;
