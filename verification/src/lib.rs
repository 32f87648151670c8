//! Verified core of a modpack installer: manifest model and codec,
//! dependency resolution, safe path handling, mirrored fetching with
//! content-hash verification, and transactional install coordination.
use vstd::prelude::*;

pub mod codec;
pub mod error;
pub mod hashing;
pub mod install;
pub mod manifest;
pub mod mirror;
pub mod paths;
pub mod progress;
pub mod strutil;

verus! {

/// Supported game identifier that every manifest must name.
pub open spec fn supported_game() -> Seq<char> {
    "minecraft"@
}

} // verus!
