//! The folder the window starts from.

use vstd::prelude::*;
use crate::places::home_dir;

verus! {

/// The current folder: the one that was set, else the home folder, else
/// `/home`.
pub fn current_dir_for(stored: Option<String>, home: Option<String>) -> (r: String)
    ensures
        r@ == match stored {
            Some(p) => p@,
            None => match home {
                Some(h) => h@,
                None => "/home"@,
            },
        },
{
    match stored {
        Some(p) => p,
        None => match home {
            Some(h) => h,
            None => String::from_str("/home"),
        },
    }
}

/// The current folder, falling back on the user's home folder (looked up
/// only when no folder was set; see `current_dir_for`).
pub fn current_dir_or_home(stored: Option<String>) -> (r: String)
    ensures
        stored matches Some(p) ==> r@ == p@,
        stored is None ==> exists|home: Option<String>| r@ == current_dir_for_spec(home),
{
    match stored {
        Some(p) => p,
        None => {
            let home = home_dir();
            let ghost h = home;
            let r = current_dir_for(None, home);
            assert(r@ == current_dir_for_spec(h));
            r
        },
    }
}

/// The fallback folder when none was set (see `current_dir_for`).
pub open spec fn current_dir_for_spec(home: Option<String>) -> Seq<char> {
    match home {
        Some(h) => h@,
        None => "/home"@,
    }
}

} // verus!
