//! Synthesizes a relocatable ELF object that carries DWARF debug information
//! for a binary that has none, from a catalogue of type definitions and a
//! table of global variables.
//!
//! - `catalogue`: the type definitions and global variables.
//! - `tree`, `typemap`: the arena of debug-information entries and the
//!   record of which type name owns which entry.
//! - `resolve`: gives every definition a placeholder entry, registered before
//!   its referents are visited, so that cyclic type graphs terminate.
//! - `populate`: fills in attributes and children, then the variables and the
//!   compilation unit's root.
//! - `soundness`: a tree built from a complete catalogue has parents before
//!   children and references to existing entries.
//! - `encode`: hands the tree to `gimli`, which writes the DWARF sections.
//! - `strtab`, `elf`, `assemble`: string tables, the ELF64 record layouts
//!   (written through `goblin`), and the layout of the whole file.
//! - `object`: the whole run, from catalogue to file bytes.

pub mod catalogue;
pub mod tree;
pub mod typemap;
pub mod resolve;
pub mod populate;
pub mod elf;
pub mod strtab;
pub mod assemble;
pub mod encode;
pub mod object;
pub mod soundness;
