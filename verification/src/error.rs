//! What the library fails with.
use plist::Error as PlistError;
use std::io::Error as IoError;
use vstd::prelude::*;

verus! {

/// What file operations fail with.
#[verifier::external_type_specification]
#[verifier::external_body]
pub struct ExIoError(IoError);

/// What calls into the device protocols fail with.
#[verifier::external_type_specification]
#[verifier::external_body]
pub struct ExIdeviceError(idevice::IdeviceError);

/// What archives fail to be read with.
#[verifier::external_type_specification]
#[verifier::external_body]
pub struct ExZipError(zip::result::ZipError);

/// What images fail to be read with.
#[verifier::external_type_specification]
#[verifier::external_body]
pub struct ExImageError(image::ImageError);

#[derive(Debug)]
pub enum Error {
    BundleInfoPlistMissing,
    BundleFailedToCopy(String),
    TweakInvalidPath,
    TweakExtractionFailed(String),
    UnsupportedFileType(String),
    Zip(zip::result::ZipError),
    PackageInfoPlistMissing,
    Io(IoError),
    Plist(PlistError),
    Idevice(idevice::IdeviceError),
    Other(String),
    Image(image::ImageError),
}

impl Error {
    /// Whether this is the free-text error with this message.
    pub open spec fn says(self, message: Seq<char>) -> bool {
        self matches Error::Other(m) && m@ == message
    }
}

/// The free-text error with this message.
pub fn other(message: &str) -> (r: Error)
    ensures
        r.says(message@),
{
    Error::Other(message.to_string())
}

/// A free-text error says its whole message and nothing else, and no other error says
/// anything in words.
pub proof fn lemma_what_an_error_says(error: Error, text: String, message: Seq<char>)
    ensures
        Error::Other(text).says(message) <==> text@ == message,
        error.says(message) ==> error is Other,
{
}

} // verus!
