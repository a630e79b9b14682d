//! Path-query service: parent-directory lookup, path joining, filename
//! extraction, and directory scans for the `.list` and `.table` file
//! categories. The string operations are pure and proved against a
//! character-sequence model of paths; the scans read the filesystem
//! through the `glob` crate. No operation ever surfaces an error:
//! every edge case degrades to an empty string or an empty list.

pub mod paths;
pub mod scan;

pub use paths::get_dir;
pub use paths::get_file_name_from_path;
pub use paths::join_path;
pub use scan::get_list_file_names;
pub use scan::get_table_file_names;
pub use scan::list_by_suffix;
