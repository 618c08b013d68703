//! Where the file manager writes its log.

use vstd::prelude::*;
use crate::path::{join, join_spec};

verus! {

/// The log folder: `wayland-file-manager/logs` under `$XDG_DATA_HOME` when
/// set, else under `~/.local/share` for the home folder `$HOME`, else under
/// `/tmp`.
pub open spec fn log_directory_in(xdg_data_home: Option<Seq<char>>, home: Option<Seq<char>>) -> Seq<char> {
    match xdg_data_home {
        Some(d) => join_spec(join_spec(d, "wayland-file-manager"@), "logs"@),
        None => match home {
            Some(h) => join_spec(
                join_spec(join_spec(join_spec(h, ".local"@), "share"@), "wayland-file-manager"@),
                "logs"@,
            ),
            None => join_spec(join_spec("/tmp"@, "wayland-file-manager"@), "logs"@),
        },
    }
}

/// `Option<String>` as an optional character sequence.
pub open spec fn opt_chars(o: Option<String>) -> Option<Seq<char>> {
    match o {
        Some(s) => Some(s@),
        None => None,
    }
}

/// The log folder for the given environment values (see `log_directory_in`).
pub fn log_directory_for(xdg_data_home: Option<String>, home: Option<String>) -> (r: String)
    ensures
        r@ == log_directory_in(opt_chars(xdg_data_home), opt_chars(home)),
{
    match xdg_data_home {
        Some(d) => join(join(d.as_str(), "wayland-file-manager").as_str(), "logs"),
        None => match home {
            Some(h) => {
                let a = join(h.as_str(), ".local");
                let b = join(a.as_str(), "share");
                let c = join(b.as_str(), "wayland-file-manager");
                join(c.as_str(), "logs")
            },
            None => join(join("/tmp", "wayland-file-manager").as_str(), "logs"),
        },
    }
}

/// The log file for the given environment values: `wayland-file-manager.log`
/// in the log folder.
pub fn log_file_path_for(xdg_data_home: Option<String>, home: Option<String>) -> (r: String)
    ensures
        r@ == join_spec(
            log_directory_in(opt_chars(xdg_data_home), opt_chars(home)),
            "wayland-file-manager.log"@,
        ),
{
    let dir = log_directory_for(xdg_data_home, home);
    join(dir.as_str(), "wayland-file-manager.log")
}

} // verus!
