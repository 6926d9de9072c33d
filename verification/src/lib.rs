pub mod codec;
pub mod config;
pub mod error;
pub mod imports;
pub mod merge;
pub mod paths;
pub mod scrolling;
pub mod session;
pub mod tree;

pub use crate::codec::{deserialize_config, prune_yaml_nulls};
pub use crate::config::{after_loading, load, load_from, read_config, reload, Config, Overrides};
pub use crate::error::{Diagnostic, Error, Severity};
pub use crate::imports::{imports, IMPORT_RECURSION_LIMIT};
pub use crate::merge::merge;
pub use crate::paths::{installed_config_candidates, normalize_import};
pub use crate::scrolling::{default_true, Scrolling, MAX_SCROLLBACK_LINES};
pub use crate::session::{LoadSession, ReadOutcome, Step};
pub use crate::tree::TreeValue;
