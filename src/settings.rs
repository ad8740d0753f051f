//! The user's settings: where data lives and how tasks are displayed.
use vstd::prelude::*;

use crate::formatting::{valid_format, valid_task_format};

verus! {

/// The task format used when the configured one is not valid.
pub open spec fn fallback_task_format() -> Seq<char> {
    "%b %d"@
}

#[derive(Debug)]
pub struct Settings {
    pub data_file_path: String,
    pub config_file_path: String,
    pub task_format: String,
}

impl Settings {
    /// Settings from what the configuration source holds. A configured data
    /// directory that does not exist gives way to the default one, and a task
    /// format with an unknown `%` escape gives way to `%b %d`.
    pub fn new(
        config_file_path: String,
        default_data_path: String,
        configured_data_path: String,
        configured_path_exists: bool,
        configured_task_format: String,
    ) -> (r: Settings)
        ensures
            r.config_file_path@ == config_file_path@,
            r.data_file_path@ == if configured_path_exists {
                configured_data_path@
            } else {
                default_data_path@
            },
            r.task_format@ == if valid_format(configured_task_format@) {
                configured_task_format@
            } else {
                fallback_task_format()
            },
    {
        let data_file_path = if configured_path_exists {
            configured_data_path
        } else {
            default_data_path
        };
        let task_format = if valid_task_format(&configured_task_format) {
            configured_task_format
        } else {
            String::from_str("%b %d")
        };
        Settings { data_file_path, config_file_path, task_format }
    }
}

} // verus!
