//! Where the table of a diary is kept.

use vstd::prelude::*;
use crate::error::StoreError;

verus! {

/// How the place of the table was found.
#[derive(Clone, Copy, Debug, PartialEq, Eq, Structural)]
pub enum Source {
    /// The configuration names the place.
    Configured,
    /// The place is the default file in the user's home directory.
    Home,
}

/// The place of a table.
#[derive(Debug)]
pub struct Location {
    pub path: String,
    pub source: Source,
}

/// The name of the configuration value that names the place of the table.
pub fn variable_name() -> (out: &'static str)
    ensures
        out@ == "DIDI_URL"@,
{
    "DIDI_URL"
}

/// The name of the default file in the user's home directory.
pub fn default_file_name() -> (out: &'static str)
    ensures
        out@ == "digital_diary.sqlite"@,
{
    "digital_diary.sqlite"
}

/// Chooses the place of the table: the configured one where there is one,
/// else the default file in the home directory, `home_file`; without either
/// there is no place to read or write.
pub fn choose_location(
    configured: Option<String>,
    home_file: Option<String>,
) -> (out: Result<Location, StoreError>)
    ensures
        configured is Some ==> out is Ok && out->Ok_0.path@ == configured->Some_0@
            && out->Ok_0.source == Source::Configured,
        configured is None && home_file is Some ==> out is Ok && out->Ok_0.path@
            == home_file->Some_0@ && out->Ok_0.source == Source::Home,
        configured is None && home_file is None ==> out is Err && out->Err_0 == StoreError::Io,
{
    match configured {
        Some(path) => Ok(Location { path, source: Source::Configured }),
        None => match home_file {
            Some(path) => Ok(Location { path, source: Source::Home }),
            None => Err(StoreError::Io),
        },
    }
}

/// What to tell the user where no table is found at a place of this source.
pub fn missing_message(source: Source) -> (out: &'static str)
    ensures
        source == Source::Configured ==> out@
            == "Error: database specified in DIDI_URL doesn't exist maybe use `didi create`"@,
        source == Source::Home ==> out@
            == "Error: no database file found. Specify DIDI_URL or use `didi create`"@,
{
    match source {
        Source::Configured => {
            "Error: database specified in DIDI_URL doesn't exist maybe use `didi create`"
        },
        Source::Home => "Error: no database file found. Specify DIDI_URL or use `didi create`",
    }
}

/// What to tell the user where no home directory is known.
pub fn no_home_message() -> (out: &'static str)
    ensures
        out@ == "Error: couldn't retrieve home directory"@,
{
    "Error: couldn't retrieve home directory"
}

} // verus!
