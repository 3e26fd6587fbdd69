//! Installing an app on this Mac: the names of the places it goes through.
use vstd::prelude::*;
use crate::error::{other, Error};
use crate::host::{random_upper_id, uuid_text};
use crate::text::uppered;

verus! {

/// The directory in the outer bundle that holds the app.
pub const WRAPPER: &'static str = "Wrapper";

/// The link in the outer bundle that leads to the app.
pub const WRAPPED_BUNDLE: &'static str = "WrappedBundle";

/// Where installed apps are kept.
pub const APPLICATIONS_DIRECTORY: &'static str = "/Applications/iOS";

pub const INVALID_APP_PATH: &'static str = "Invalid app path";

/// The name of the directory that an app is put together in.
pub fn stage_directory_name(id: &str) -> (r: String)
    ensures
        r@ == "plume_mac_stage_"@ + id@,
{
    let mut name = "plume_mac_stage_".to_string();
    name.append(id);
    name
}

/// A name for that directory that is not likely to be in use.
pub fn new_stage_directory_name() -> (r: String)
    ensures
        exists|id: Seq<char>| #[trigger] uuid_text(id) && r@ == "plume_mac_stage_"@ + uppered(id),
{
    let id = random_upper_id();
    stage_directory_name(id.as_str())
}

/// The name of the app's bundle, which its path has to end with.
pub fn bundle_file_name<N>(file_name: Option<N>) -> (r: Result<N, Error>)
    ensures
        match file_name {
            Some(name) => r == Result::<N, Error>::Ok(name),
            None => r is Err && r->Err_0.says(INVALID_APP_PATH@),
        },
{
    match file_name {
        Some(name) => Ok(name),
        None => Err(other(INVALID_APP_PATH)),
    }
}

/// What is done with an entry of a directory that is copied.
#[derive(Debug, Clone, Copy, PartialEq, Eq, Structural)]
pub enum CopyAction {
    /// Make a link to the same target.
    Link,
    /// Copy the directory and what is in it.
    Descend,
    /// Copy the file.
    Copy,
    /// Leave it out.
    Skip,
}

/// A link is made anew rather than followed, and what is neither link, directory
/// nor file is left out.
pub fn copy_action(is_symlink: bool, is_dir: bool, is_file: bool) -> (r: CopyAction)
    ensures
        r == (if is_symlink {
            CopyAction::Link
        } else if is_dir {
            CopyAction::Descend
        } else if is_file {
            CopyAction::Copy
        } else {
            CopyAction::Skip
        }),
{
    if is_symlink {
        CopyAction::Link
    } else if is_dir {
        CopyAction::Descend
    } else if is_file {
        CopyAction::Copy
    } else {
        CopyAction::Skip
    }
}

} // verus!
