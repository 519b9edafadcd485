//! Extraction and normalization of anatomical landmark coordinates.
//!
//! The library parses structured markup documents, validates their
//! three-letter anatomical axis codes, converts raw positions into the
//! canonical RAS (Right/Anterior/Superior positive) convention, aggregates
//! landmarks across source files, orders names with a natural collation,
//! and lays the result out as two rectangular report tables.

pub mod aggregate;
pub mod archive;
pub mod collate;
pub mod errors;
pub mod json;
pub mod label;
pub mod markup;
pub mod normalize;
pub mod pipeline;
pub mod report;
pub mod scalar;
