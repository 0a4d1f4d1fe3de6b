//! Verified core of the Dolphin toolchain: IR types and layout, the IR
//! verifier, and the package-model logic.
pub mod text;
pub mod order;
pub mod paths;
pub mod names;
pub mod manifest;
pub mod package;
pub mod lockfile;
pub mod linker;
pub mod mono;
pub mod resolve;
pub mod digest;
pub mod cache;
pub mod archive;
pub mod dlib;
pub mod modules;
pub mod definitions;
pub mod templates;
pub mod ir;
pub mod layout;
pub mod type_graph;
pub mod verify;
pub mod lower;
pub mod registry;
pub mod lsp;
pub mod resolution;
