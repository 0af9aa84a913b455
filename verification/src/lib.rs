//! Language models of a local MLX server: the server's life, the models that it
//! offers, what it is sent and what its replies mean; and a tool with which such
//! a model edits files.
pub mod diff;
pub mod json;
pub mod line_mode;
pub mod lines;
pub mod model_discovery;
pub mod number;
pub mod process_manager;
pub mod provider;
pub mod replace_lines_tool;
pub mod request;
pub mod rows;
pub mod search;
pub mod text;
pub mod util;

pub use model_discovery::ModelInfo;
pub use process_manager::ProcessManager;
pub use request::{ExtraBody, LocalMlxMessage, LocalMlxRequest};
