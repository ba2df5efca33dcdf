//! Verified core of a Rowhammer research toolkit.
//!
//! The crate holds the placement and hammering engine's logic: the
//! physical/DRAM address translation, the attack-configuration data model and
//! its validation, the frame-acquisition bookkeeping, the planner that moves a
//! binary's pages into chosen victim frames, the generator for the unrolled
//! hammer code, and the bit-flip verification primitives.  Everything that
//! touches the operating system (page mapping, pagemap reads, running the
//! generated code, configuration files) lives outside this crate and talks to
//! it through plain values.

pub mod allocation;
pub mod config;
pub mod dram;
pub mod flip_checks;
pub mod hammer;
pub mod host;
pub mod mem_init;
pub mod placement;
pub mod prehammer;
pub mod proc;
pub mod serialize;
pub mod templater;
pub mod text;
pub mod utils;
