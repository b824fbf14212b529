//! Compact rendering of a working directory for a shell prompt.
//!
//! Every directory above the current one is cut to the shortest prefix that
//! no sibling directory shares, the current directory is shown in full, and
//! the home directory is shown as `~`.

pub mod chain;
pub mod error;
pub mod names;
pub mod position;
pub mod prefix;
pub mod render;
pub mod siblings;

pub use error::RenderError;
pub use names::path_file_name_to_string;
pub use position::{display_role, DisplayRole, Position};
pub use prefix::shortest_unique_prefix;
pub use render::{render, start, Renderer, Step};
pub use siblings::{dirs_in, shortest_unique_path_prefix, Child, Listing};
