//! The error taxonomy of the install pipeline. Every failure surfaces as one
//! of these; none is retried past the mirror fallback, and any of them makes
//! the coordinator roll the staging profile back.
use vstd::prelude::*;

verus! {

/// What went wrong during an install. `InvalidInput`-class errors
/// (`InvalidManifest`, `UnsupportedGame`, `MissingPlatformVersion`,
/// `MissingArtifact`) are raised before any file transfer begins.
#[derive(Clone, Copy, Debug, PartialEq, Eq, Structural)]
pub enum InstallError {
    /// The pack archive could not be opened as a zip container.
    CorruptArchive,
    /// The archive holds no manifest entry.
    MissingManifest,
    /// The manifest entry is not a well-formed pack manifest.
    InvalidManifest,
    /// The manifest names a game other than the supported one.
    UnsupportedGame,
    /// The manifest carries no game-platform dependency entry.
    MissingPlatformVersion,
    /// A remote version record lists no downloadable files.
    MissingArtifact,
    /// Every candidate URL for one artifact failed transport or hash check.
    FetchExhausted,
    /// A verified payload could not be written into the profile directory.
    WriteFailed,
}

impl InstallError {
    /// A short description, one line per variant.
    pub fn message(&self) -> (r: &'static str)
        ensures
            *self == InstallError::CorruptArchive ==> r@ == "failed to read input modpack zip"@,
            *self == InstallError::MissingManifest ==> r@ == "no pack manifest found in mrpack"@,
            *self == InstallError::InvalidManifest ==> r@ == "pack manifest is malformed"@,
            *self == InstallError::UnsupportedGame ==> r@ == "pack does not support minecraft"@,
            *self == InstallError::MissingPlatformVersion ==> r@
                == "pack did not specify minecraft version"@,
            *self == InstallError::MissingArtifact ==> r@ == "specified version has no files"@,
            *self == InstallError::FetchExhausted ==> r@ == "no download candidate succeeded"@,
            *self == InstallError::WriteFailed ==> r@ == "could not write file into profile"@,
    {
        match self {
            InstallError::CorruptArchive => "failed to read input modpack zip",
            InstallError::MissingManifest => "no pack manifest found in mrpack",
            InstallError::InvalidManifest => "pack manifest is malformed",
            InstallError::UnsupportedGame => "pack does not support minecraft",
            InstallError::MissingPlatformVersion => "pack did not specify minecraft version",
            InstallError::MissingArtifact => "specified version has no files",
            InstallError::FetchExhausted => "no download candidate succeeded",
            InstallError::WriteFailed => "could not write file into profile",
        }
    }
}

} // verus!
