//! Geometric features of floor plans and similarity ranking over them.
//!
//! Floor plans are measured into bounding boxes and flattened into floor and
//! room structure records; stores keep those records unique by id, and
//! similarity queries filter, score and rank stored records against a
//! reference. Every measured quantity is an integer count of millionths
//! (see `fixed`), so that each result is exact and stated by a contract.

use vstd::prelude::*;

pub mod assets;
pub mod config;
pub mod currency;
pub mod enums;
pub mod error;
pub mod fixed;
pub mod floorplan;
pub mod geometry;
pub mod image;
pub mod ingest;
pub mod ranking;
pub mod records;
pub mod room_items;
pub mod similarity;
pub mod store;
pub mod text;
