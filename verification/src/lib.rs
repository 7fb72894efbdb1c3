pub mod alias;
pub mod archive;
pub mod choose_version;
pub mod config;
pub mod installer;
pub mod ls_remote;
pub mod remote_index;
pub mod semver_range;
pub mod shell_binding;
pub mod strutil;
pub mod system_info;
pub mod system_version;
pub mod url_util;
pub mod user_version;
pub mod version;
