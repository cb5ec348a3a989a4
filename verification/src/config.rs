use vstd::prelude::*;

verus! {

/// The optional settings of `config.toml`. A field left out keeps the
/// default path.
#[derive(Debug)]
pub struct AppConfig {
    /// The history file: an absolute path, or one that starts with `~/`.
    pub history_file: Option<String>,
    /// Where backups go, relative to the state directory of the tool.
    pub backup_dir: Option<String>,
}

impl Default for AppConfig {
    /// No setting: every path keeps its default.
    fn default() -> (c: AppConfig)
        ensures
            c.history_file is None,
            c.backup_dir is None,
    {
        AppConfig { history_file: None, backup_dir: None }
    }
}

} // verus!
