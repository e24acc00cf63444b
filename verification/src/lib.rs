//! Publishing a local tree of authored content to a remote hierarchical
//! document store.
//!
//! The library holds the decisions of a synchronization run: which folders
//! and documents to create and in what order, what every source file
//! renders to, and whether rendered content has to be uploaded. Reading
//! files, rendering templates and talking to the remote store are left to
//! the caller, who hands their results in as plain values.

// Text, numbers and paths.
pub mod text;
pub mod numbers;
pub mod path;
pub mod keyed;
pub mod json;

// The project and its files.
pub mod config;
pub mod project;
pub mod ignore_file;
pub mod front_matter;
pub mod project_files;

// Fingerprints and the decision to upload.
pub mod fingerprint;
pub mod stamp;
pub mod upload_files;
pub mod prepared_document;

// Links.
pub mod markdown_tree;
pub mod links;

// The processors and what they make.
pub mod tim_document;
pub mod processors;
pub mod markdown_processor;
pub mod task_processor;
pub mod style_theme_processor;
pub mod global_ctx;
pub mod helpers;
pub mod pipeline;

// The remote store.
pub mod tim_client;
pub mod tree;
pub mod sync;
