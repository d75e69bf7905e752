//! Procedural layout generation for a destructible-block arena.
//!
//! The library builds, for a given level id, a set of non-overlapping
//! axis-aligned rectangles (a `Layout`), classifies them into movable blocks
//! and static walls, and derives per-level metadata (completion threshold,
//! duration, spawn point, colors). All geometry is integral: every size the
//! generator draws is a multiple of five units and every translation is a
//! whole number of units, so integer coordinates represent the produced
//! layouts exactly.

#![verifier::loop_isolation(false)]

pub mod builder;
pub mod cache;
pub mod geom;
pub mod layout;
pub mod level;
pub mod rng;
