//! What the proxy keeps in files: its settings, its messages and the two
//! lists of addresses. Reading and writing the files is the caller's part;
//! here is what the files hold.

pub mod config_file;
pub mod ip_filter_file;
pub mod lang_file;
