//! The typed pack-manifest model: the structures a `modrinth.index.json`
//! entry describes, with the lookups the installer needs. Maps are kept as
//! ordered pair lists; a lookup takes the first matching key, and the loader
//! resolution takes the last, mirroring a read-modify fold.
use vstd::prelude::*;
use crate::strutil::str_eq;

verus! {

/// Hash algorithm tag on a pack file entry. Unrecognized tags are preserved
/// verbatim so forward-compatible manifests still parse.
#[derive(Debug, Clone, PartialEq, Eq)]
pub enum PackFileHash {
    Sha1,
    Sha512,
    Unknown(String),
}

/// Which algorithm a manifest tag names: the two known tags map to their
/// variants, anything else is kept as `Unknown`.
pub open spec fn spec_hash_from_tag(tag: String) -> PackFileHash {
    if tag@ == "sha1"@ {
        PackFileHash::Sha1
    } else if tag@ == "sha512"@ {
        PackFileHash::Sha512
    } else {
        PackFileHash::Unknown(tag)
    }
}

impl PackFileHash {
    /// The tag this algorithm is written as in a manifest.
    pub open spec fn spec_tag(self) -> Seq<char> {
        match self {
            PackFileHash::Sha1 => "sha1"@,
            PackFileHash::Sha512 => "sha512"@,
            PackFileHash::Unknown(s) => s@,
        }
    }

    /// An `Unknown` tag never shadows a recognized one; such a value can only
    /// be built by hand, never read from a manifest.
    pub open spec fn canonical(self) -> bool {
        self matches PackFileHash::Unknown(s) ==> s@ != "sha1"@ && s@ != "sha512"@
    }
}

/// Equivalence of hash algorithms up to string identity: same variant and
/// the same written tag.
pub open spec fn hash_eqv(a: PackFileHash, b: PackFileHash) -> bool {
    &&& a.spec_tag() == b.spec_tag()
    &&& (a is Unknown <==> b is Unknown)
    &&& (a is Sha1 <==> b is Sha1)
    &&& (a is Sha512 <==> b is Sha512)
}

impl From<String> for PackFileHash {
    fn from(s: String) -> (r: Self) {
        if str_eq(s.as_str(), "sha1") {
            PackFileHash::Sha1
        } else if str_eq(s.as_str(), "sha512") {
            PackFileHash::Sha512
        } else {
            PackFileHash::Unknown(s)
        }
    }
}

impl vstd::std_specs::convert::FromSpecImpl<String> for PackFileHash {
    open spec fn obeys_from_spec() -> bool {
        true
    }

    open spec fn from_spec(s: String) -> Self {
        spec_hash_from_tag(s)
    }
}

/// Reading a tag back from the name it is written as gives the algorithm
/// back, for every canonical algorithm value.
pub proof fn lemma_hash_tag_round_trip(h: PackFileHash, s: String)
    requires
        h.canonical(),
        s@ == h.spec_tag(),
    ensures
        hash_eqv(spec_hash_from_tag(s), h),
        spec_hash_from_tag(s).canonical(),
{
    reveal_strlit("sha1");
    reveal_strlit("sha512");
    match h {
        PackFileHash::Sha1 => {}
        PackFileHash::Sha512 => {
            assert("sha512"@.len() == 6);
            assert("sha1"@.len() == 4);
        }
        PackFileHash::Unknown(t) => {
            assert(spec_hash_from_tag(s) == PackFileHash::Unknown(s));
        }
    }
}

/// Which side of the game a file entry concerns.
#[derive(Debug, Clone, Copy, PartialEq, Eq, Structural)]
pub enum EnvType {
    Client,
    Server,
}

/// How strongly one side supports a file entry.
#[derive(Debug, Clone, Copy, PartialEq, Eq, Structural)]
pub enum SideType {
    Required,
    Optional,
    Unsupported,
}

/// A dependency key of the manifest: one loader entry at most, and exactly
/// one game-platform (`Minecraft`) entry in a valid manifest.
#[derive(Debug, Clone, Copy, PartialEq, Eq, Structural)]
pub enum PackDependency {
    Forge,
    FabricLoader,
    QuiltLoader,
    Minecraft,
}

/// The mod-loading runtime an install resolves to.
#[derive(Debug, Clone, Copy, PartialEq, Eq, Structural)]
pub enum ModLoader {
    Vanilla,
    Forge,
    Fabric,
    Quilt,
}

/// One remotely hosted file of the pack.
#[derive(Debug, Clone, PartialEq, Eq)]
pub struct PackFile {
    /// Destination below the profile directory, slash-separated.
    pub path: String,
    /// Content hashes by algorithm; the first entry per algorithm counts.
    pub hashes: Vec<(PackFileHash, String)>,
    /// Per-side support levels, when the pack distinguishes sides.
    pub env: Option<Vec<(EnvType, SideType)>>,
    /// Candidate URLs hosting identical content, tried in order.
    pub downloads: Vec<String>,
    /// Expected payload size in bytes.
    pub file_size: u32,
}

/// The pack manifest.
#[derive(Debug, Clone, PartialEq, Eq)]
pub struct PackFormat {
    /// Game identifier; must equal the supported game.
    pub game: String,
    /// Manifest format revision.
    pub format_version: i32,
    /// Version identifier of the pack itself.
    pub version_id: String,
    /// Display name of the pack.
    pub name: String,
    /// Optional description.
    pub summary: Option<String>,
    /// The files to install.
    pub files: Vec<PackFile>,
    /// Dependency entries: platform version and loader version.
    pub dependencies: Vec<(PackDependency, String)>,
}

/// First value stored under the given hash algorithm.
pub open spec fn spec_lookup_hash(pairs: Seq<(PackFileHash, String)>, key: PackFileHash) -> Option<
    String,
>
    decreases pairs.len(),
{
    if pairs.len() == 0 {
        None
    } else if pairs[0].0 == key {
        Some(pairs[0].1)
    } else {
        spec_lookup_hash(pairs.drop_first(), key)
    }
}

/// First support level stored under the given side.
pub open spec fn spec_lookup_env(pairs: Seq<(EnvType, SideType)>, key: EnvType) -> Option<SideType>
    decreases pairs.len(),
{
    if pairs.len() == 0 {
        None
    } else if pairs[0].0 == key {
        Some(pairs[0].1)
    } else {
        spec_lookup_env(pairs.drop_first(), key)
    }
}

impl PackFile {
    /// The sha1 hex string this entry is verified against, if it names one.
    pub open spec fn spec_sha1(self) -> Option<String> {
        spec_lookup_hash(self.hashes@, PackFileHash::Sha1)
    }

    /// A file whose client-side support is `Unsupported` is skipped entirely:
    /// no download, no write.
    pub open spec fn spec_client_unsupported(self) -> bool {
        self.env matches Some(env) && spec_lookup_env(env@, EnvType::Client) == Some(
            SideType::Unsupported,
        )
    }

    /// First sha1 hash entry, cloned out of the map.
    pub fn sha1(&self) -> (r: Option<String>)
        ensures
            r == self.spec_sha1(),
    {
        let n = self.hashes.len();
        proof {
            assert(self.hashes@.skip(0) =~= self.hashes@);
        }
        let mut i: usize = 0;
        while i < n
            invariant
                n == self.hashes.len(),
                i <= n,
                spec_lookup_hash(self.hashes@.skip(i as int), PackFileHash::Sha1)
                    == self.spec_sha1(),
            decreases n - i,
        {
            proof {
                assert(self.hashes@.skip(i as int)[0] == self.hashes@[i as int]);
                assert(self.hashes@.skip(i as int).drop_first() =~= self.hashes@.skip(i + 1));
            }
            let pair = &self.hashes[i];
            match &pair.0 {
                PackFileHash::Sha1 => {
                    return Some(pair.1.clone());
                }
                _ => {}
            }
            i += 1;
        }
        proof {
            assert(self.hashes@.skip(n as int) =~= Seq::<(PackFileHash, String)>::empty());
        }
        None
    }

    /// Whether installation must skip this entry, per its client-side level.
    pub fn client_unsupported(&self) -> (r: bool)
        ensures
            r == self.spec_client_unsupported(),
    {
        match self.env {
            None => false,
            Some(ref env) => {
                let n = env.len();
                proof {
                    assert(env@.skip(0) =~= env@);
                }
                let mut i: usize = 0;
                while i < n
                    invariant
                        self.env == Some(*env),
                        n == env.len(),
                        i <= n,
                        spec_lookup_env(env@.skip(i as int), EnvType::Client) == spec_lookup_env(
                            env@,
                            EnvType::Client,
                        ),
                    decreases n - i,
                {
                    proof {
                        assert(env@.skip(i as int)[0] == env@[i as int]);
                        assert(env@.skip(i as int).drop_first() =~= env@.skip(i + 1));
                    }
                    let pair = &env[i];
                    if pair.0 == EnvType::Client {
                        proof {
                            assert(spec_lookup_env(env@.skip(i as int), EnvType::Client) == Some(
                                env@[i as int].1,
                            ));
                        }
                        return pair.1 == SideType::Unsupported;
                    }
                    i += 1;
                }
                proof {
                    assert(env@.skip(n as int) =~= Seq::<(EnvType, SideType)>::empty());
                }
                false
            }
        }
    }
}

} // verus!
