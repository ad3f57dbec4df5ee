//! Finds the water polygons that intersect a set of target geometries.
//!
//! The library holds the decisions of the tool and proves them with Verus;
//! it does not touch a file, the network or a database, and it does not
//! compute with coordinates. Its caller reads and decodes the sources, tells
//! it which shapes intersect, and writes what it returns.
//!
//! - [`geometry`]: the geometry model and its mathematical views.
//! - [`rings`]: one polygon out of the tagged rings of a shapefile record.
//! - [`source`]: the reader that a path selects, and what a reader keeps of
//!   the records it is given.
//! - [`acquire`]: the download of the water dataset, step by step, and the
//!   names of what it stores and removes.
//! - [`intersect`]: the water geometries that intersect a target.
//! - [`output`]: the result as features, or the word that nothing was found.
//! - [`path`]: file names and extensions.
pub mod acquire;
pub mod geometry;
pub mod intersect;
pub mod output;
pub mod path;
pub mod rings;
pub mod source;
