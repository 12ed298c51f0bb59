//! Manzar's viewer core: which files count as viewable images, how an image
//! sequence is ordered and navigated, which files the image protocol may
//! serve, and what the frontend is told.
//!
//! Filesystem access stays with the caller: the functions here take what the
//! caller read from disk as plain values and decide what follows from it.

pub mod fs_facts;
pub mod path_text;
pub mod supported_image;
pub mod sequence_ordering;
pub mod image_sequence;
pub mod image_registry;
pub mod metadata_preflight;
pub mod image_protocol;
pub mod file_actions;
pub mod viewed_image_descriptor;
pub mod viewer_session;
pub mod settings;
pub mod commands;
