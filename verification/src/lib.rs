//! Triangulated molecular surfaces: the combinatorial kernel.
//!
//! A molecule is a union of spheres. Its solvent-accessible and
//! solvent-excluded surfaces are extracted as indexed triangle meshes from a
//! clamped distance field sampled on a uniform lattice. This crate holds the
//! lattice bookkeeping, the cube tables, the hash-consed surface extractor and
//! the component filter, each with a contract that is proved of it.
//!
//! Field values are handled by rank: a 32-bit integer that orders exactly as
//! the single-precision value it stands for, with the rank of a negated value
//! being the negated rank. Everything here compares and moves ranks; it never
//! computes with the values themselves.

pub mod atom_hash;
pub mod components;
pub mod error;
pub mod extract;
pub mod filter;
pub mod grid;
pub mod mesh;
pub mod pipeline;
pub mod rank;
pub mod tables;
