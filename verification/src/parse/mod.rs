//! The parsers of the log formats, and what puts their sources together.

pub mod datetime_utils;
pub mod glog;
pub mod io;
pub mod rds_log;
pub mod scanlib_log;
pub mod sfile;
pub mod xlog;

pub use self::io::from_file;
