//! What an app bundle says of itself.
use vstd::prelude::*;

verus! {

/// The entries of an app's information list that the library reads.
pub trait PlistInfoTrait {
    fn get_name(&self) -> Option<String>;

    fn get_executable(&self) -> Option<String>;

    fn get_bundle_identifier(&self) -> Option<String>;

    fn get_bundle_name(&self) -> Option<String>;

    fn get_version(&self) -> Option<String>;

    fn get_build_version(&self) -> Option<String>;
}

} // verus!
