//! Daemon configuration: the terminate timeout handed to interface children,
//! and working-directory resolution for spawned commands.

use vstd::prelude::*;

use crate::strutil::str_chars;

verus! {

/// How a working directory is resolved: an absolute override wins, a
/// relative one resolves against the unit file's directory, and without an
/// override the unit file's directory is used.
pub open spec fn resolve_wd(unit_dir: Seq<char>, wd: Option<Seq<char>>) -> Seq<char> {
    match wd {
        None => unit_dir,
        Some(w) => if w.len() > 0 && w[0] == '/' {
            w
        } else {
            unit_dir + "/"@ + w
        },
    }
}

/// Daemon-wide settings.
pub struct Config {
    terminate_timeout_ms: u64,
}

impl Config {
    pub fn new(terminate_timeout_ms: u64) -> (r: Config)
        ensures
            r.terminate_timeout() == terminate_timeout_ms,
    {
        Config { terminate_timeout_ms }
    }

    /// How long a child gets to exit after termination is requested.
    pub closed spec fn terminate_timeout(self) -> u64 {
        self.terminate_timeout_ms
    }

    pub fn terminate_timeout_ms(&self) -> (r: u64)
        ensures
            r == self.terminate_timeout(),
    {
        self.terminate_timeout_ms
    }

    /// Resolves a working-directory override against a unit directory.
    pub fn working_directory(&self, unit_dir: &str, wd: &Option<String>) -> (r: String)
        ensures
            r@ == resolve_wd(unit_dir@, match wd {
                Some(w) => Some(w@),
                None => None,
            }),
    {
        match wd {
            None => String::from_str(unit_dir),
            Some(w) => {
                let wc = str_chars(w.as_str());
                if wc.len() > 0 && wc[0] == '/' {
                    w.clone()
                } else {
                    String::from_str(unit_dir).concat("/").concat(w.as_str())
                }
            },
        }
    }
}

} // verus!
