//! Facts about a codebase, and the standards it is held to.

pub mod accord;
pub mod anchored;
pub mod config;
pub mod edit;
pub mod extract;
pub mod facts;
pub mod frame;
pub mod history;
pub mod json;
pub mod manifest;
pub mod mcp;
pub mod measure;
pub mod metrics;
pub mod pieces;
pub mod prepass;
pub mod query;
pub mod ratchet;
pub mod said;
pub mod sarif;
pub mod scan;
pub mod schema;
pub mod score;
pub mod settings;
pub mod stable;
pub mod summary;
pub mod syntax;
pub mod table;
pub mod text;
pub mod tree;
pub mod vfs;
pub mod view;
pub mod visit;
pub mod wire;
pub mod writer;
pub mod written;
