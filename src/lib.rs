//! Runs checking and formatting commands against staged files: selecting
//! the commands for each file, the lifecycle of each command run, and the
//! pool that groups runs into units, orders them, and reports on them.
pub mod config;
pub mod dispatch;
pub mod error;
pub mod file;
pub mod matching;
pub mod model;
pub mod package_json;
pub mod plan;
pub mod pool;
pub mod report;
pub mod status;
pub mod task;
pub mod text;

pub use config::{
    config_candidates, parse_groups_from_config, select_config_source, Config, ConfigSource,
    ExecutionOrder, Group, GroupConfig,
};
pub use dispatch::{dispatch, execute_commands};
pub use error::AppError;
pub use file::{is_space_char, program_name, staged_files, FileCommand};
pub use matching::{match_files_to_commands, match_files_with};
pub use model::{App, KeyCode, KeyPress, StateModel};
pub use package_json::package_json_section;
pub use pool::{ExecutionUnit, TaskPool};
pub use report::{sort_by_keys, sorted_summaries, task_line, CommandStat};
pub use status::{CommandStatus, StatusColor};
pub use task::{has_bounded_exponents, CommandOutcome, TaskState, TimeLimit};
pub use text::decimal_text;
