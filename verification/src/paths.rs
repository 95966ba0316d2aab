//! Where the appearance file lives: the copy installed with the application,
//! and the copy under the machine's program data directory that overrides it.

use vstd::prelude::*;
use vstd::string::StringExecFns;

verus! {

/// Path of the file installed with the application.
pub open spec fn default_style_path() -> Seq<char> {
    "C:\\Program Files\\AviUtl2\\style.conf"@
}

/// Path of the overriding file: under `program_data`, or under
/// `C:\ProgramData` where no such directory is given.
pub open spec fn user_style_path(program_data: Option<Seq<char>>) -> Seq<char> {
    let base = match program_data {
        Some(dir) => dir,
        None => "C:\\ProgramData"@,
    };
    base + "\\aviutl2\\style.conf"@
}

/// Path of the file installed with the application.
pub fn get_default_style_path() -> (path: String)
    ensures
        path@ == default_style_path(),
{
    "C:\\Program Files\\AviUtl2\\style.conf".to_owned()
}

/// Path of the overriding file, given the machine's program data directory
/// if it is known.
pub fn get_user_style_path(program_data: Option<String>) -> (path: String)
    ensures
        path@ == user_style_path(
            match program_data {
                Some(dir) => Some(dir@),
                None => None,
            },
        ),
{
    let mut path = match program_data {
        Some(dir) => dir,
        None => "C:\\ProgramData".to_owned(),
    };
    path.append("\\aviutl2\\style.conf");
    path
}

} // verus!
