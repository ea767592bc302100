//! An in-memory folder tree: folders own named files and named subfolders,
//! can be searched by name, and can reconstruct their slash-joined path.
//! A navigation session tracks the folder and file a user is looking at.

pub mod model;
pub mod folder;
pub mod naming;
pub mod session;
pub mod laws;
