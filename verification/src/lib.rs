//! Fastnote: the verified core of a note-taking application whose notebooks
//! are trees of folders, files and pages stored on disk.

pub mod backup;
pub mod chunks;
pub mod color;
pub mod errors;
pub mod create;
pub mod fingers;
pub mod flat;
pub mod modal;
pub mod names;
pub mod navigate;
pub mod order;
pub mod palette;
pub mod projects;
pub mod region_cache;
pub mod region_name;
pub mod state;
pub mod strokes;
pub mod stylet;
pub mod tree;
pub mod tree_order;
pub mod zoom;
