//! The settings of a database: where its state lives, where the server
//! listens, when to save, and its limits.

use vstd::prelude::*;
use crate::text::{owned, parse_unsigned, unsigned_value};

verus! {

/// The settings of a database.
#[derive(Debug, Clone)]
pub struct Config {
    pub data_dir: String,
    pub listen_addr: String,
    pub auto_save_interval_secs: u64,
    pub auto_save_write_threshold: u64,
    pub max_file_size: usize,
    pub max_inodes: usize,
    pub max_dir_depth: usize,
}

/// A number setting: its text read as a decimal number that fits below
/// `max`, or the default when it is absent or is not one.
pub open spec fn setting_value(text: Option<Seq<char>>, max: u64, default: u64) -> u64 {
    match text {
        Some(t) => match unsigned_value(t, 10) {
            Some(v) => if v <= max {
                v as u64
            } else {
                default
            },
            None => default,
        },
        None => default,
    }
}

/// The value of an optional text.
pub open spec fn opt_str(o: Option<&str>) -> Option<Seq<char>> {
    match o {
        Some(s) => Some(s@),
        None => None,
    }
}

/// Reads a number setting.
fn setting(text: Option<&str>, max: u64, default: u64) -> (r: u64)
    ensures
        r == setting_value(opt_str(text), max, default),
{
    match text {
        Some(t) => match parse_unsigned(t, 10, max) {
            Some(v) => v,
            None => default,
        },
        None => default,
    }
}

impl Config {
    /// The settings from their texts, as the environment gives them: the
    /// server listens on 127.0.0.1:3000 unless told otherwise, saves every
    /// 5 seconds or after 100 writes, and allows files of 10 MiB, a
    /// million inodes and 256 levels of directories, unless a setting reads
    /// as another number.
    pub fn from_settings(
        data_dir: &str,
        listen: Option<&str>,
        autosave_secs: Option<&str>,
        autosave_writes: Option<&str>,
        max_file_size: Option<&str>,
        max_inodes: Option<&str>,
        max_depth: Option<&str>,
    ) -> (r: Self)
        ensures
            r.data_dir@ == data_dir@,
            r.listen_addr@ == (match listen {
                Some(l) => l@,
                None => "127.0.0.1:3000"@,
            }),
            r.auto_save_interval_secs == setting_value(opt_str(autosave_secs), u64::MAX, 5),
            r.auto_save_write_threshold == setting_value(opt_str(autosave_writes), u64::MAX, 100),
            r.max_file_size == setting_value(opt_str(max_file_size), usize::MAX as u64, 10485760),
            r.max_inodes == setting_value(opt_str(max_inodes), usize::MAX as u64, 1_000_000),
            r.max_dir_depth == setting_value(opt_str(max_depth), usize::MAX as u64, 256),
    {
        let listen_addr = match listen {
            Some(l) => owned(l),
            None => owned("127.0.0.1:3000"),
        };
        Config {
            data_dir: owned(data_dir),
            listen_addr,
            auto_save_interval_secs: setting(autosave_secs, u64::MAX, 5),
            auto_save_write_threshold: setting(autosave_writes, u64::MAX, 100),
            max_file_size: setting(max_file_size, usize::MAX as u64, 10485760) as usize,
            max_inodes: setting(max_inodes, usize::MAX as u64, 1_000_000) as usize,
            max_dir_depth: setting(max_depth, usize::MAX as u64, 256) as usize,
        }
    }

    /// The same settings with another data directory.
    pub fn with_data_dir(self, dir: &str) -> (r: Self)
        ensures
            r.data_dir@ == dir@,
            r.listen_addr == self.listen_addr,
            r.auto_save_interval_secs == self.auto_save_interval_secs,
            r.auto_save_write_threshold == self.auto_save_write_threshold,
            r.max_file_size == self.max_file_size,
            r.max_inodes == self.max_inodes,
            r.max_dir_depth == self.max_dir_depth,
    {
        let mut c = self;
        c.data_dir = owned(dir);
        c
    }

    /// The same settings with another listening address.
    pub fn with_listen_addr(self, addr: &str) -> (r: Self)
        ensures
            r.listen_addr@ == addr@,
            r.data_dir == self.data_dir,
            r.auto_save_interval_secs == self.auto_save_interval_secs,
            r.auto_save_write_threshold == self.auto_save_write_threshold,
            r.max_file_size == self.max_file_size,
            r.max_inodes == self.max_inodes,
            r.max_dir_depth == self.max_dir_depth,
    {
        let mut c = self;
        c.listen_addr = owned(addr);
        c
    }
}

} // verus!
