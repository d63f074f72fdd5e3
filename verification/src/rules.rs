//! The lint rules, one module per kind of node or concern.
pub mod best_practices;
pub mod code_node;
pub mod extract_from_file;
pub mod gotchas;
pub mod ntfy;
pub mod ssh;
