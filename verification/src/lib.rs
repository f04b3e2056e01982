//! Topological kernel for cantellating a polygon mesh.
//!
//! Cantellation bevels a mesh: every face is moved out along its normal, every vertex is
//! expanded into one corner per incident face, and new faces fill the gaps that open at the
//! former vertices and edges. This crate decides the connectivity of the result, and Verus
//! proves that it does so as the contracts say. Positions and distances are the caller's
//! business: the caller says which corners of a vertex fall together, and learns from which
//! vertex and face every vertex of the result is derived.
//!
//! A caller with a mesh in hand
//! - asks [`cantellate::near_tables`] to collect, for every vertex, which of its corners
//!   fall together (a corner is the vertex moved along the normal of one of its faces);
//! - hands the tables to [`cantellate::cantellate`], which returns the cantellated mesh with
//!   a [`mesh::Corner`] in place of each position;
//! - computes the position of each corner.
//!
//! The modules: [`mesh`] holds the mesh, [`index_list`] its lists of indices, [`fan`] the
//! record of a vertex with its sorted fan and its expansion, [`edges`] and [`faces`] the
//! faces built on the expanded vertices, [`cantellate`] the whole pipeline, and
//! [`fan_theorems`] and [`theorems`] what holds of every result.
//!
//! Two things are taken on trust: that `smallvec` keeps a list as [`index_list`] says, and
//! that `rayon` calls a job once for every index and returns the results in order.

pub mod cantellate;
pub mod edges;
pub mod faces;
pub mod fan;
pub mod fan_theorems;
pub mod index_list;
pub mod mesh;
mod parallel;
pub mod theorems;
