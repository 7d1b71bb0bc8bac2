//! Verified core of the voxel lab: codecs, voxel-coordinate geometry,
//! replayable cleanup edits, deterministic fusion passes, and authored-layout
//! validation.

pub mod text;
pub mod adapter;
pub mod base64;
pub mod voxel;
pub mod cellmap;
pub mod fusion;
pub mod cleanup;
pub mod cellstore;
pub mod region;
pub mod replay;
pub mod connect;
pub mod apply;
pub mod origins;
pub mod candidate;
pub mod project;
pub mod edit;
pub mod kit;
pub mod assemble;
pub mod model;
pub mod churn;
pub mod sprite;
pub mod directional;
pub mod repair;
pub mod components;
pub mod structural;
pub mod canonical;
pub mod bundle;
pub mod policy;
pub mod downsample;
pub mod posed;
pub mod raster;
pub mod sheet;
pub mod runs;
pub mod shell;
pub mod kit_bake;
pub mod carve;
pub mod placement;
pub mod anchors;
