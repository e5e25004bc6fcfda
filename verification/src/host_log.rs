//! The debug log of the native host: where it is written and how a line looks.
use crate::auto_rename::{path_join, path_join_spec};
use crate::text::{append_chars, chars_of, decimal, decimal_of, string_of};
use vstd::prelude::*;

verus! {

/// The log file of the host in a directory: `_darkdm_debug.log` there.
pub fn init(dir: &str) -> (r: String)
    ensures
        r@ == path_join_spec(dir@, "_darkdm_debug.log"@),
{
    path_join(dir, "_darkdm_debug.log")
}

/// `[TIMESTAMP] MESSAGE` and a line feed.
pub open spec fn log_line_spec(timestamp: nat, msg: Seq<char>) -> Seq<char> {
    "["@ + decimal(timestamp) + "] "@ + msg + "\n"@
}

/// One line of the log, stamped with seconds since the Unix epoch.
pub fn log_line(timestamp: u64, msg: &str) -> (r: String)
    ensures
        r@ == log_line_spec(timestamp as nat, msg@),
{
    let mut v = chars_of("[");
    append_chars(&mut v, &decimal_of(timestamp));
    append_chars(&mut v, &chars_of("] "));
    append_chars(&mut v, &chars_of(msg));
    append_chars(&mut v, &chars_of("\n"));
    string_of(&v)
}

/// The log directory of the download manager: `XDG_DATA_HOME/darkdm`, else
/// `HOME/.local/share/darkdm`, else `/tmp/darkdm`.
pub open spec fn app_log_dir_spec(xdg: Option<Seq<char>>, home: Option<Seq<char>>) -> Seq<char> {
    match xdg {
        Some(x) => path_join_spec(x, "darkdm"@),
        None => match home {
            Some(h) => path_join_spec(h, ".local/share/darkdm"@),
            None => "/tmp/darkdm"@,
        },
    }
}

/// The log directory, from the values of `XDG_DATA_HOME` and `HOME`.
pub fn app_log_dir(xdg_data_home: Option<&str>, home: Option<&str>) -> (r: String)
    ensures
        r@ == app_log_dir_spec(
            match xdg_data_home {
                Some(x) => Some(x@),
                None => None,
            },
            match home {
                Some(h) => Some(h@),
                None => None,
            },
        ),
{
    match xdg_data_home {
        Some(x) => path_join(x, "darkdm"),
        None => match home {
            Some(h) => path_join(h, ".local/share/darkdm"),
            None => "/tmp/darkdm".to_string(),
        },
    }
}

/// The log file of a day: `darkdm.DATE.log` in the log directory.
pub fn app_log_file(dir: &str, date: &str) -> (r: String)
    ensures
        r@ == path_join_spec(dir@, "darkdm."@ + date@ + ".log"@),
{
    let mut v = chars_of("darkdm.");
    append_chars(&mut v, &chars_of(date));
    append_chars(&mut v, &chars_of(".log"));
    path_join(dir, string_of(&v).as_str())
}

} // verus!
