//! The install pipeline's decisions: locating the manifest entry, validating
//! the game, resolving the dependency map to platform and loader versions,
//! planning which files are downloaded and where they land, and the
//! transactional guard that deletes the staging profile on any failure.
use vstd::prelude::*;
use vstd::string::StrSliceExecFns;
use crate::error::InstallError;
use crate::manifest::{PackDependency, PackFile, PackFormat};
use crate::paths::{safe_relative_path, spec_safe_relative_path};
use crate::strutil::{clone_strings, str_eq};

verus! {

/// The manifest entry every pack archive must hold.
pub open spec fn manifest_entry_name() -> Seq<char> {
    "modrinth.index.json"@
}

/// Index of the first archive entry named like the manifest, if any —
/// its absence is `MissingManifest`.
pub fn find_manifest_entry(names: &Vec<String>) -> (r: Option<usize>)
    ensures
        r matches Some(i) ==> i < names@.len() && names@[i as int]@ == manifest_entry_name()
            && (forall|k: int| 0 <= k < i ==> names@[k]@ != manifest_entry_name()),
        r is None ==> forall|k: int| 0 <= k < names@.len() ==> names@[k]@ != manifest_entry_name(),
{
    let n = names.len();
    let mut i: usize = 0;
    while i < n
        invariant
            n == names@.len(),
            i <= n,
            forall|k: int| 0 <= k < i ==> names@[k]@ != manifest_entry_name(),
        decreases n - i,
    {
        if str_eq(names[i].as_str(), "modrinth.index.json") {
            return Some(i);
        }
        i += 1;
    }
    None
}

/// The mod-loading runtime and versions one manifest resolves to.
pub struct ResolvedPack {
    /// Target platform (game) version, from the one `Minecraft` entry.
    pub game_version: String,
    /// The loader the pack asks for; `Vanilla` when no loader entry exists.
    pub loader: crate::manifest::ModLoader,
    /// Requested loader version or alias, absent for a vanilla install.
    pub loader_version: Option<String>,
}

/// The game version a dependency list settles on: the value of its last
/// `Minecraft` entry.
pub open spec fn spec_resolved_game(deps: Seq<(PackDependency, String)>) -> Option<String>
    decreases deps.len(),
{
    if deps.len() == 0 {
        None
    } else if deps.last().0 == PackDependency::Minecraft {
        Some(deps.last().1)
    } else {
        spec_resolved_game(deps.drop_last())
    }
}

/// The loader a dependency list settles on: kind and version of its last
/// loader entry, or nothing for a loader-less pack.
pub open spec fn spec_resolved_loader(deps: Seq<(PackDependency, String)>) -> Option<
    (crate::manifest::ModLoader, String),
>
    decreases deps.len(),
{
    if deps.len() == 0 {
        None
    } else {
        match deps.last().0 {
            PackDependency::Forge => Some((crate::manifest::ModLoader::Forge, deps.last().1)),
            PackDependency::FabricLoader => Some(
                (crate::manifest::ModLoader::Fabric, deps.last().1),
            ),
            PackDependency::QuiltLoader => Some(
                (crate::manifest::ModLoader::Quilt, deps.last().1),
            ),
            PackDependency::Minecraft => spec_resolved_loader(deps.drop_last()),
        }
    }
}

/// Resolve the dependency map: the platform version is owed exactly when a
/// `Minecraft` entry exists; without one the manifest is rejected before any
/// network traffic, with `MissingPlatformVersion`.
pub fn resolve_dependencies(deps: &Vec<(PackDependency, String)>) -> (r: Result<
    ResolvedPack,
    InstallError,
>)
    ensures
        r is Ok <==> spec_resolved_game(deps@) is Some,
        r is Err ==> r == Err::<ResolvedPack, InstallError>(InstallError::MissingPlatformVersion),
        r matches Ok(p) ==> Some(p.game_version) == spec_resolved_game(deps@) && (match
        spec_resolved_loader(deps@) {
            None => p.loader == crate::manifest::ModLoader::Vanilla && p.loader_version is None,
            Some((l, v)) => p.loader == l && p.loader_version == Some(v),
        }),
{
    let n = deps.len();
    let mut game: Option<String> = None;
    let mut loader: Option<(crate::manifest::ModLoader, String)> = None;
    proof {
        assert(deps@.take(0) =~= Seq::<(PackDependency, String)>::empty());
    }
    let mut i: usize = 0;
    while i < n
        invariant
            n == deps@.len(),
            i <= n,
            game == spec_resolved_game(deps@.take(i as int)),
            loader == spec_resolved_loader(deps@.take(i as int)),
        decreases n - i,
    {
        proof {
            assert(deps@.take(i + 1).drop_last() =~= deps@.take(i as int));
            assert(deps@.take(i + 1).last() == deps@[i as int]);
        }
        let pair = &deps[i];
        match pair.0 {
            PackDependency::Forge => {
                loader = Some((crate::manifest::ModLoader::Forge, pair.1.clone()));
            }
            PackDependency::FabricLoader => {
                loader = Some((crate::manifest::ModLoader::Fabric, pair.1.clone()));
            }
            PackDependency::QuiltLoader => {
                loader = Some((crate::manifest::ModLoader::Quilt, pair.1.clone()));
            }
            PackDependency::Minecraft => {
                game = Some(pair.1.clone());
            }
        }
        i += 1;
    }
    proof {
        assert(deps@.take(n as int) =~= deps@);
    }
    match game {
        None => Err(InstallError::MissingPlatformVersion),
        Some(game_version) => {
            match loader {
                None => Ok(
                    ResolvedPack {
                        game_version,
                        loader: crate::manifest::ModLoader::Vanilla,
                        loader_version: None,
                    },
                ),
                Some((l, v)) => Ok(
                    ResolvedPack { game_version, loader: l, loader_version: Some(v) },
                ),
            }
        }
    }
}

/// One planned download: candidate URLs, the hash the bytes must carry, and
/// the destination below the profile directory — absent when the entry's
/// path is unsafe, in which case the write is skipped.
pub struct FileJob {
    /// Mirrors hosting the payload, tried in order.
    pub urls: Vec<String>,
    /// Expected sha1 hex, when the manifest names one.
    pub expected_sha1: Option<String>,
    /// Safe relative destination, or nothing for a skipped write.
    pub dest: Option<String>,
    /// Expected payload size.
    pub size: u32,
}

/// The job a single manifest entry plans to.
pub open spec fn spec_job_of(f: PackFile) -> FileJob {
    FileJob {
        urls: f.downloads,
        expected_sha1: f.spec_sha1(),
        dest: if spec_safe_relative_path(f.path@) {
            Some(f.path)
        } else {
            None
        },
        size: f.file_size,
    }
}

/// Field-wise agreement of two jobs, up to string identity.
pub open spec fn job_eqv(a: FileJob, b: FileJob) -> bool {
    &&& a.urls@ == b.urls@
    &&& a.expected_sha1 == b.expected_sha1
    &&& a.dest == b.dest
    &&& a.size == b.size
}

/// The downloads a manifest plans: one job per file entry, except entries
/// whose client side is unsupported, which are skipped entirely.
pub open spec fn spec_plan(files: Seq<PackFile>) -> Seq<FileJob>
    decreases files.len(),
{
    if files.len() == 0 {
        seq![]
    } else {
        spec_plan(files.drop_last()) + (if files.last().spec_client_unsupported() {
            seq![]
        } else {
            seq![spec_job_of(files.last())]
        })
    }
}

/// Law: a manifest with an empty file list plans no downloads at all.
pub proof fn lemma_empty_files_no_jobs(files: Seq<PackFile>)
    requires
        files.len() == 0,
    ensures
        spec_plan(files).len() == 0,
{
}

/// Plan the per-file downloads of a manifest.
pub fn plan_files(files: &Vec<PackFile>) -> (r: Vec<FileJob>)
    ensures
        r@.len() == spec_plan(files@).len(),
        forall|i: int| 0 <= i < r@.len() ==> job_eqv(r@[i], spec_plan(files@)[i]),
{
    let n = files.len();
    let mut jobs: Vec<FileJob> = Vec::new();
    proof {
        assert(files@.take(0) =~= Seq::<PackFile>::empty());
    }
    let mut i: usize = 0;
    while i < n
        invariant
            n == files@.len(),
            i <= n,
            jobs@.len() == spec_plan(files@.take(i as int)).len(),
            forall|j: int| 0 <= j < jobs@.len() ==> job_eqv(
                jobs@[j],
                spec_plan(files@.take(i as int))[j],
            ),
        decreases n - i,
    {
        proof {
            assert(files@.take(i + 1).drop_last() =~= files@.take(i as int));
            assert(files@.take(i + 1).last() == files@[i as int]);
        }
        let f = &files[i];
        if !f.client_unsupported() {
            let dest: Option<String> = if safe_relative_path(f.path.as_str()) {
                Some(f.path.clone())
            } else {
                None
            };
            let job = FileJob {
                urls: clone_strings(&f.downloads),
                expected_sha1: f.sha1(),
                dest,
                size: f.file_size,
            };
            proof {
                assert(job_eqv(job, spec_job_of(files@[i as int])));
            }
            jobs.push(job);
        }
        i += 1;
    }
    proof {
        assert(files@.take(n as int) =~= files@);
    }
    jobs
}

/// Everything the pipeline decides from the manifest alone, before any
/// transfer: the resolved versions and the planned downloads.
pub struct InstallPlan {
    /// Platform and loader resolution.
    pub resolved: ResolvedPack,
    /// The downloads to perform.
    pub jobs: Vec<FileJob>,
    /// The pack's display name, for the profile metadata edit.
    pub name: String,
}

/// Validate a parsed manifest and plan its install. Rejection happens here,
/// before any network call: a manifest for another game is
/// `UnsupportedGame`; one without a platform version entry is
/// `MissingPlatformVersion`.
pub fn plan_install(m: &PackFormat) -> (r: Result<InstallPlan, InstallError>)
    ensures
        m.game@ != crate::supported_game() ==> r == Err::<InstallPlan, InstallError>(
            InstallError::UnsupportedGame,
        ),
        m.game@ == crate::supported_game() && spec_resolved_game(m.dependencies@) is None ==> r
            == Err::<InstallPlan, InstallError>(InstallError::MissingPlatformVersion),
        r is Ok <==> (m.game@ == crate::supported_game() && spec_resolved_game(
            m.dependencies@,
        ) is Some),
        r matches Ok(p) ==> ({
            &&& Some(p.resolved.game_version) == spec_resolved_game(m.dependencies@)
            &&& (match spec_resolved_loader(m.dependencies@) {
                None => p.resolved.loader == crate::manifest::ModLoader::Vanilla
                    && p.resolved.loader_version is None,
                Some((l, v)) => p.resolved.loader == l && p.resolved.loader_version == Some(v),
            })
            &&& p.jobs@.len() == spec_plan(m.files@).len()
            &&& (forall|i: int|
                0 <= i < p.jobs@.len() ==> job_eqv(p.jobs@[i], spec_plan(m.files@)[i]))
            &&& p.name == m.name
        }),
{
    if !str_eq(m.game.as_str(), "minecraft") {
        return Err(InstallError::UnsupportedGame);
    }
    let resolved = match resolve_dependencies(&m.dependencies) {
        Ok(resolved) => resolved,
        Err(e) => {
            return Err(e);
        }
    };
    let jobs = plan_files(&m.files);
    Ok(InstallPlan { resolved, jobs, name: m.name.clone() })
}

/// A remote version record's file: where it is hosted, whether it is the
/// primary artifact, and its hash set.
pub struct VersionFile {
    /// Download location.
    pub url: String,
    /// Flagged as the version's primary artifact.
    pub primary: bool,
    /// Hash set by algorithm tag.
    pub hashes: Vec<(String, String)>,
}

/// First value stored under a string key.
pub open spec fn spec_lookup_str(pairs: Seq<(String, String)>, key: Seq<char>) -> Option<String>
    decreases pairs.len(),
{
    if pairs.len() == 0 {
        None
    } else if pairs[0].0@ == key {
        Some(pairs[0].1)
    } else {
        spec_lookup_str(pairs.drop_first(), key)
    }
}

fn lookup_str(pairs: &Vec<(String, String)>, key: &str) -> (r: Option<String>)
    ensures
        r == spec_lookup_str(pairs@, key@),
{
    let n = pairs.len();
    proof {
        assert(pairs@.skip(0) =~= pairs@);
    }
    let mut i: usize = 0;
    while i < n
        invariant
            n == pairs@.len(),
            i <= n,
            spec_lookup_str(pairs@.skip(i as int), key@) == spec_lookup_str(pairs@, key@),
        decreases n - i,
    {
        proof {
            assert(pairs@.skip(i as int)[0] == pairs@[i as int]);
            assert(pairs@.skip(i as int).drop_first() =~= pairs@.skip(i + 1));
        }
        let pair = &pairs[i];
        if str_eq(pair.0.as_str(), key) {
            return Some(pair.1.clone());
        }
        i += 1;
    }
    proof {
        assert(pairs@.skip(n as int) =~= Seq::<(String, String)>::empty());
    }
    None
}

/// Index of the first file flagged primary, or the length when none is.
pub open spec fn spec_primary_idx(files: Seq<VersionFile>) -> nat
    decreases files.len(),
{
    if files.len() == 0 {
        0
    } else if files[0].primary {
        0
    } else {
        1 + spec_primary_idx(files.drop_first())
    }
}

/// The file a version record selects for download: the first primary one,
/// else the first listed.
pub open spec fn spec_selected_idx(files: Seq<VersionFile>) -> int {
    if spec_primary_idx(files) < files.len() {
        spec_primary_idx(files) as int
    } else {
        0
    }
}

proof fn lemma_primary_idx(files: Seq<VersionFile>)
    ensures
        spec_primary_idx(files) <= files.len(),
        forall|k: int| 0 <= k < spec_primary_idx(files) ==> !files[k].primary,
        spec_primary_idx(files) < files.len() ==> files[spec_primary_idx(files) as int].primary,
    decreases files.len(),
{
    if files.len() > 0 && !files[0].primary {
        lemma_primary_idx(files.drop_first());
        assert forall|k: int| 0 <= k < spec_primary_idx(files) implies !files[k].primary by {
            if k > 0 {
                assert(!files.drop_first()[k - 1].primary);
            }
        }
    }
}

/// The archive a version record points at: URL and optional sha1 of the
/// selected file. An empty file list is `MissingArtifact`, raised before any
/// fetch of the archive body.
pub fn select_primary_file(files: &Vec<VersionFile>) -> (r: Result<
    (String, Option<String>),
    InstallError,
>)
    ensures
        r is Ok <==> files@.len() > 0,
        r is Err ==> r == Err::<(String, Option<String>), InstallError>(
            InstallError::MissingArtifact,
        ),
        r matches Ok((url, h)) ==> url == files@[spec_selected_idx(files@)].url && h
            == spec_lookup_str(files@[spec_selected_idx(files@)].hashes@, "sha1"@),
{
    let n = files.len();
    if n == 0 {
        return Err(InstallError::MissingArtifact);
    }
    proof {
        lemma_primary_idx(files@);
    }
    let mut i: usize = 0;
    while i < n
        invariant
            n == files@.len(),
            i <= n,
            forall|k: int| 0 <= k < i ==> !files@[k].primary,
            spec_primary_idx(files@) <= files@.len(),
            forall|k: int| 0 <= k < spec_primary_idx(files@) ==> !files@[k].primary,
            spec_primary_idx(files@) < files@.len() ==> files@[spec_primary_idx(
                files@,
            ) as int].primary,
        decreases n - i,
    {
        let f = &files[i];
        if f.primary {
            proof {
                assert(spec_primary_idx(files@) == i) by {
                    if spec_primary_idx(files@) < i {
                        assert(!files@[spec_primary_idx(files@) as int].primary);
                    }
                    if spec_primary_idx(files@) > i {
                        assert(!files@[i as int].primary);
                    }
                }
            }
            return Ok((f.url.clone(), lookup_str(&f.hashes, "sha1")));
        }
        i += 1;
    }
    proof {
        assert(spec_primary_idx(files@) >= n);
        assert(spec_selected_idx(files@) == 0);
    }
    let f = &files[0];
    Ok((f.url.clone(), lookup_str(&f.hashes, "sha1")))
}


/// Index of the last slash, or `-1` when there is none.
pub open spec fn last_slash_idx(s: Seq<char>) -> int
    decreases s.len(),
{
    if s.len() == 0 {
        -1
    } else if s.last() == '/' {
        s.len() - 1
    } else {
        last_slash_idx(s.drop_last())
    }
}

/// The name an icon is cached under: the final path segment of its URL.
/// A URL with an empty final segment yields none; icon retrieval is
/// best-effort, so the install proceeds without an icon in that case.
pub open spec fn spec_icon_filename(s: Seq<char>) -> Option<Seq<char>> {
    let seg = s.skip(last_slash_idx(s) + 1);
    if seg.len() == 0 {
        None
    } else {
        Some(seg)
    }
}

/// Decide the icon cache filename for an icon URL.
pub fn icon_cache_filename(url: &str) -> (r: Option<String>)
    ensures
        r matches Some(name) ==> spec_icon_filename(url@) == Some(name@),
        r is None ==> spec_icon_filename(url@) is None,
{
    let n = url.unicode_len();
    let mut cut: usize = 0;
    proof {
        assert(url@.take(0) =~= Seq::<char>::empty());
    }
    let mut i: usize = 0;
    while i < n
        invariant
            n == url@.len(),
            i <= n,
            cut as int == last_slash_idx(url@.take(i as int)) + 1,
            cut <= i,
        decreases n - i,
    {
        proof {
            assert(url@.take(i + 1).drop_last() =~= url@.take(i as int));
            assert(url@.take(i + 1).last() == url@[i as int]);
        }
        if url.get_char(i) == '/' {
            cut = i + 1;
        }
        i += 1;
    }
    proof {
        assert(url@.take(n as int) =~= url@);
    }
    if cut == n {
        return None;
    }
    let seg = url.substring_char(cut, n);
    proof {
        assert(seg@ =~= url@.skip(last_slash_idx(url@) + 1));
    }
    Some(seg.to_owned())
}

/// The installation target's lifecycle stage.
#[derive(Debug, Clone, Copy, PartialEq, Eq, Structural)]
pub enum InstallStage {
    /// Created, nothing resolved or written yet.
    Staging,
    /// Metadata committed, content being written.
    Installing,
    /// Terminal success: all files and overrides written.
    Installed,
}

/// The transactional guard around one install: the staging profile is the
/// guarded resource, and the only exit paths are `Installed` or deletion.
pub struct InstallTransaction {
    stage: InstallStage,
    profile_present: bool,
    failed: bool,
}

impl InstallTransaction {
    /// Current lifecycle stage.
    pub closed spec fn spec_stage(self) -> InstallStage {
        self.stage
    }

    /// Whether the target profile exists on disk.
    pub closed spec fn spec_profile_present(self) -> bool {
        self.profile_present
    }

    /// Whether any step has failed.
    pub closed spec fn spec_failed(self) -> bool {
        self.failed
    }

    /// A failed transaction holds no profile; an unfailed one does; and a
    /// transaction never both completes and fails.
    pub closed spec fn wf(self) -> bool {
        &&& (self.failed <==> !self.profile_present)
        &&& (self.stage == InstallStage::Installed ==> !self.failed)
    }

    /// Current stage, observable.
    pub fn stage(&self) -> (r: InstallStage)
        ensures
            r == self.spec_stage(),
    {
        self.stage
    }

    /// Whether the target profile exists, observable.
    pub fn profile_present(&self) -> (r: bool)
        ensures
            r == self.spec_profile_present(),
    {
        self.profile_present
    }

    /// Whether any step has failed, observable.
    pub fn failed(&self) -> (r: bool)
        ensures
            r == self.spec_failed(),
    {
        self.failed
    }

    /// Create the staging profile: the transaction now owns it.
    pub fn begin() -> (r: Self)
        ensures
            r.wf(),
            r.spec_stage() == InstallStage::Staging,
            r.spec_profile_present(),
            !r.spec_failed(),
    {
        InstallTransaction { stage: InstallStage::Staging, profile_present: true, failed: false }
    }

    /// Metadata resolved and committed; content writing begins. Only a
    /// staging transaction can take this step.
    pub fn start_installing(&mut self)
        requires
            old(self).wf(),
            old(self).spec_stage() == InstallStage::Staging,
            !old(self).spec_failed(),
        ensures
            final(self).wf(),
            final(self).spec_stage() == InstallStage::Installing,
            final(self).spec_profile_present(),
            !final(self).spec_failed(),
    {
        self.stage = InstallStage::Installing;
    }

    /// All files and overrides written: terminal success, the profile stays.
    pub fn complete(&mut self)
        requires
            old(self).wf(),
            old(self).spec_stage() == InstallStage::Installing,
            !old(self).spec_failed(),
        ensures
            final(self).wf(),
            final(self).spec_stage() == InstallStage::Installed,
            final(self).spec_profile_present(),
            !final(self).spec_failed(),
    {
        self.stage = InstallStage::Installed;
    }

    /// Any error before terminal success: the guard deletes the staging
    /// profile before the error is re-raised — the system's only rollback.
    pub fn fail(&mut self)
        requires
            old(self).wf(),
            old(self).spec_stage() != InstallStage::Installed,
        ensures
            final(self).wf(),
            final(self).spec_failed(),
            !final(self).spec_profile_present(),
            final(self).spec_stage() == old(self).spec_stage(),
    {
        self.failed = true;
        self.profile_present = false;
    }
}

/// Law (rollback): once any step of a transaction has failed, the target
/// profile is absent, no matter how much had already succeeded.
pub proof fn lemma_rollback_leaves_no_profile(t: InstallTransaction)
    requires
        t.wf(),
        t.spec_failed(),
    ensures
        !t.spec_profile_present(),
{
}

/// Law (terminal success): an installed transaction kept its profile and
/// never failed.
pub proof fn lemma_installed_profile_present(t: InstallTransaction)
    requires
        t.wf(),
        t.spec_stage() == InstallStage::Installed,
    ensures
        t.spec_profile_present(),
        !t.spec_failed(),
{
}

} // verus!
