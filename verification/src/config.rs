//! Where the configuration file is looked for.
//!
//! The configuration holds the auth token and nothing else the core
//! needs; without it the session cannot start. Reading the file is the
//! application's task; the core only decides the path.

use vstd::prelude::*;

verus! {

/// The path of the configuration file: under the home directory when
/// one is known, otherwise the working directory.
pub fn config_path(home: Option<&str>) -> (path: String)
    ensures
        home is Some ==> path@ == home->0@ + "/.gitter_gtk/config.yaml"@,
        home is None ==> path@ == "./config.yaml"@,
{
    match home {
        Some(base) => {
            let mut path = String::from_str(base);
            path.append("/.gitter_gtk/config.yaml");
            path
        },
        None => String::from_str("./config.yaml"),
    }
}

} // verus!
