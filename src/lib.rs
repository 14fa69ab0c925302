//! Summary of an emerge log: which builds are running, how long each has been
//! running, and how long it may still take, from the durations of earlier
//! builds of the same package.
pub mod config;
pub mod package;
pub mod parse_file;
pub mod report;
pub mod text;
pub mod theorems;

pub use crate::config::{correct_path, get_path_mtimedb, Arguments, EmergeResume, Format};
pub use crate::package::{Atom, Over, PackageInfo};
pub use crate::parse_file::{
    act_on_line, get_info, get_info_3equal, get_size_cpn, is_line_merging_binary, last_line, read_file,
    read_file_test, select_line_type, set_last_time, LineStatus, LineType,
};
pub use crate::report::{
    add_time, compile_resumelist, emerge_package, format_time, get_emerges, get_time,
    get_time_emerge, get_time_package, log_path_with_stamp, ninja_log_paths, ninja_progress, ninja_read, status_package,
};
pub use crate::text::is_digit;
