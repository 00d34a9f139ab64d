//! One prepared release: its configuration, its artifacts, the Maven
//! metadata and POM, and the targets it goes to.

use crate::export::strings_view;
use crate::fetch::{hex, sha512_digest, sha512_hex};
use crate::error::{failure, outcome, Error, ErrorKind, Failure};
use crate::order::{is_permutation, seq_lt, stable_order, stably_sorted, str_lt};
use crate::resolve::{lock_matches, lock_matches_spec};
use crate::spec::{as_result, check_pack_path, pack_path_result, Lockfile, PackSpec};
use crate::text::{escaped, push_escaped, seq_starts_with, starts_with, str_eq, Escape};
use crate::versions::{is_version_after, version_after, version_numbers};
use vstd::prelude::*;

verus! {

#[derive(Debug, Clone, Copy, PartialEq, Eq, Structural)]
pub enum PublishMode {
    DryRun,
    Publish,
}

/// The `[publish]` table of `pack.toml`.
#[derive(Debug, Clone)]
pub struct PublishConfig {
    pub description: Option<String>,
    pub changelog: Option<String>,
    pub modrinth: Option<ModrinthConfig>,
    pub curseforge: Option<CurseForgeConfig>,
    pub github: Option<GitHubConfig>,
    pub maven: Option<MavenConfig>,
}

impl Default for PublishConfig {
    fn default() -> (r: Self)
        ensures
            r.description is None,
            r.changelog is None,
            r.modrinth is None,
            r.curseforge is None,
            r.github is None,
            r.maven is None,
    {
        PublishConfig {
            description: None,
            changelog: None,
            modrinth: None,
            curseforge: None,
            github: None,
            maven: None,
        }
    }
}

#[derive(Debug, Clone)]
pub struct ModrinthConfig {
    pub project: String,
    pub release_type: String,
    pub loaders: Vec<String>,
    pub game_versions: Vec<String>,
}

#[derive(Debug, Clone)]
pub struct CurseForgeConfig {
    pub project: u64,
    pub game_versions: Vec<String>,
}

#[derive(Debug, Clone)]
pub struct GitHubConfig {
    pub repository: String,
    pub draft: bool,
    pub prerelease: bool,
}

#[derive(Debug, Clone)]
pub struct MavenConfig {
    pub repository: String,
}

/// The Modrinth release type used when none is given.
pub fn default_release_type() -> (r: String)
    ensures
        r@ == "release"@,
{
    "release".to_owned()
}

/// A Modrinth release type that Modrinth knows.
pub open spec fn known_release_type(t: Seq<char>) -> bool {
    t == "release"@ || t == "beta"@ || t == "alpha"@
}

/// Checks the publish configuration as loading it does: a Modrinth target
/// must use the release type `release`, `beta` or `alpha`.
pub fn check_publish_config(config: &PublishConfig) -> (r: Result<(), Error>)
    ensures
        match config.modrinth {
            Some(m) => if known_release_type(m.release_type@) {
                r is Ok
            } else {
                r matches Err(e) && e@ == failure(ErrorKind::BadReleaseType, seq![m.release_type@])
            },
            None => r is Ok,
        },
{
    match &config.modrinth {
        Some(m) => {
            let t = m.release_type.as_str();
            if str_eq(t, "release") || str_eq(t, "beta") || str_eq(t, "alpha") {
                Ok(())
            } else {
                Err(Error::new1(ErrorKind::BadReleaseType, m.release_type.clone()))
            }
        },
        None => Ok(()),
    }
}

/// The Maven repository, when configured, must be reached over HTTPS.
pub fn check_maven_repository(maven: &MavenConfig) -> (r: Result<(), Error>)
    ensures
        if seq_starts_with(maven.repository@, "https://"@) {
            r is Ok
        } else {
            r matches Err(e) && e@ == failure(ErrorKind::MavenNotHttps, seq![])
        },
{
    if starts_with(maven.repository.as_str(), "https://") {
        Ok(())
    } else {
        Err(Error::new0(ErrorKind::MavenNotHttps))
    }
}

/// What an artifact is for.
#[derive(Debug, Clone, Copy, PartialEq, Eq, Structural)]
pub enum ArtifactKind {
    Modrinth,
    CurseForge,
    Maven,
    MavenMetadata,
    Manifest,
}

/// The name under which `Debug` writes a kind.
pub open spec fn kind_name(k: ArtifactKind) -> Seq<char> {
    match k {
        ArtifactKind::Modrinth => "Modrinth"@,
        ArtifactKind::CurseForge => "CurseForge"@,
        ArtifactKind::Maven => "Maven"@,
        ArtifactKind::MavenMetadata => "MavenMetadata"@,
        ArtifactKind::Manifest => "Manifest"@,
    }
}

fn kind_name_string(k: ArtifactKind) -> (r: String)
    ensures
        r@ == kind_name(k),
{
    match k {
        ArtifactKind::Modrinth => "Modrinth".to_owned(),
        ArtifactKind::CurseForge => "CurseForge".to_owned(),
        ArtifactKind::Maven => "Maven".to_owned(),
        ArtifactKind::MavenMetadata => "MavenMetadata".to_owned(),
        ArtifactKind::Manifest => "Manifest".to_owned(),
    }
}

/// A prepared release file, its checksum file, size and SHA-512.
#[derive(Debug, Clone)]
pub struct Artifact {
    pub name: String,
    pub path: String,
    pub checksum: String,
    pub kind: ArtifactKind,
    pub bytes: u64,
    pub sha512: String,
}

/// Everything a publisher sends, prepared once.
#[derive(Debug, Clone)]
pub struct PreparedRelease {
    pub lock: Lockfile,
    pub config: PublishConfig,
    pub artifacts: Vec<Artifact>,
    pub manifest: String,
}

/// The index of the first artifact of a kind.
pub open spec fn first_of_kind(artifacts: Seq<Artifact>, kind: ArtifactKind) -> Option<int> {
    if exists|i: int| 0 <= i < artifacts.len() && artifacts[i].kind == kind {
        Some(
            choose|i: int|
                0 <= i < artifacts.len() && artifacts[i].kind == kind && forall|j: int|
                    0 <= j < i ==> artifacts[j].kind != kind,
        )
    } else {
        None
    }
}

impl PreparedRelease {
    /// The first prepared artifact of a kind.
    pub fn artifact(&self, kind: ArtifactKind) -> (r: Result<&Artifact, Error>)
        ensures
            match r {
                Ok(a) => exists|i: int|
                    0 <= i < self.artifacts@.len() && self.artifacts@[i] == *a && a.kind == kind
                        && forall|j: int| 0 <= j < i ==> self.artifacts@[j].kind != kind,
                Err(e) => (forall|i: int|
                    0 <= i < self.artifacts@.len() ==> self.artifacts@[i].kind != kind) && e@
                    == failure(ErrorKind::MissingArtifact, seq![kind_name(kind)]),
            },
    {
        let mut i: usize = 0;
        while i < self.artifacts.len()
            invariant
                i <= self.artifacts@.len(),
                forall|j: int| 0 <= j < i ==> self.artifacts@[j].kind != kind,
            decreases self.artifacts@.len() - i,
        {
            if self.artifacts[i].kind == kind {
                return Ok(&self.artifacts[i]);
            }
            i = i + 1;
        }
        Err(Error::new1(ErrorKind::MissingArtifact, kind_name_string(kind)))
    }
}

/// `artifacts` sorted by name, as a stable sort orders them.
pub fn sort_artifacts(artifacts: Vec<Artifact>) -> (r: Vec<Artifact>)
    ensures
        exists|p: Seq<usize>|
            {
                &&& is_permutation(p, artifacts@.len())
                &&& stably_sorted(p, artifacts@.map_values(|a: Artifact| a.name@))
                &&& r@.len() == p.len()
                &&& forall|k: int| 0 <= k < p.len() ==> r@[k] == artifacts@[p[k] as int]
            },
{
    let mut keys: Vec<String> = Vec::new();
    let mut k: usize = 0;
    while k < artifacts.len()
        invariant
            k <= artifacts@.len(),
            keys@.len() == k,
            forall|t: int| 0 <= t < k ==> #[trigger] keys@[t]@ == artifacts@[t].name@,
        decreases artifacts@.len() - k,
    {
        keys.push(artifacts[k].name.clone());
        k = k + 1;
    }
    assert(strings_view(keys@) =~= artifacts@.map_values(|a: Artifact| a.name@));
    let order = stable_order(&keys);
    let mut out: Vec<Artifact> = Vec::new();
    let mut k: usize = 0;
    while k < order.len()
        invariant
            k <= order@.len(),
            is_permutation(order@, artifacts@.len()),
            out@.len() == k,
            forall|t: int| 0 <= t < k ==> out@[t] == artifacts@[order@[t] as int],
        decreases order@.len() - k,
    {
        let a = &artifacts[order[k]];
        out.push(
            Artifact {
                name: a.name.clone(),
                path: a.path.clone(),
                checksum: a.checksum.clone(),
                kind: a.kind,
                bytes: a.bytes,
                sha512: a.sha512.clone(),
            },
        );
        k = k + 1;
    }
    out
}

// ---------------------------------------------------------------- Maven

/// The POM of the pack, with every value escaped for XML.
pub open spec fn pom_text(
    group: Seq<char>,
    artifact: Seq<char>,
    version: Seq<char>,
    name: Seq<char>,
    description: Seq<char>,
) -> Seq<char> {
    "<?xml version=\"1.0\" encoding=\"UTF-8\"?>\n<project xmlns=\"http://maven.apache.org/POM/4.0.0\"\n         xmlns:xsi=\"http://www.w3.org/2001/XMLSchema-instance\"\n         xsi:schemaLocation=\"http://maven.apache.org/POM/4.0.0 https://maven.apache.org/xsd/maven-4.0.0.xsd\">\n  <modelVersion>4.0.0</modelVersion>\n  <groupId>"@
        + escaped(group, Escape::Xml) + "</groupId>\n  <artifactId>"@ + escaped(
        artifact,
        Escape::Xml,
    ) + "</artifactId>\n  <version>"@ + escaped(version, Escape::Xml)
        + "</version>\n  <packaging>pom</packaging>\n  <name>"@ + escaped(name, Escape::Xml)
        + "</name>\n  <description>"@ + escaped(description, Escape::Xml)
        + "</description>\n</project>\n"@
}

/// The description used when the configuration gives none.
pub open spec fn pom_description(description: Option<Seq<char>>) -> Seq<char> {
    match description {
        Some(d) => d,
        None => "Minecraft modpack (.mrpack)"@,
    }
}

/// A minimal Maven POM for the pack.
pub fn minimal_pom(
    group: &str,
    artifact: &str,
    version: &str,
    name: &str,
    description: Option<&str>,
) -> (r: String)
    ensures
        r@ == pom_text(
            group@,
            artifact@,
            version@,
            name@,
            pom_description(
                match description {
                    Some(d) => Some(d@),
                    None => None,
                },
            ),
        ),
{
    let description = match description {
        Some(d) => d,
        None => "Minecraft modpack (.mrpack)",
    };
    let mut out = "<?xml version=\"1.0\" encoding=\"UTF-8\"?>\n<project xmlns=\"http://maven.apache.org/POM/4.0.0\"\n         xmlns:xsi=\"http://www.w3.org/2001/XMLSchema-instance\"\n         xsi:schemaLocation=\"http://maven.apache.org/POM/4.0.0 https://maven.apache.org/xsd/maven-4.0.0.xsd\">\n  <modelVersion>4.0.0</modelVersion>\n  <groupId>".to_owned();
    push_escaped(&mut out, group, Escape::Xml);
    out.append("</groupId>\n  <artifactId>");
    push_escaped(&mut out, artifact, Escape::Xml);
    out.append("</artifactId>\n  <version>");
    push_escaped(&mut out, version, Escape::Xml);
    out.append("</version>\n  <packaging>pom</packaging>\n  <name>");
    push_escaped(&mut out, name, Escape::Xml);
    out.append("</name>\n  <description>");
    push_escaped(&mut out, description, Escape::Xml);
    out.append("</description>\n</project>\n");
    out
}

/// One `<version>` row.
pub open spec fn version_row(v: Seq<char>) -> Seq<char> {
    "      <version>"@ + escaped(v, Escape::Xml) + "</version>\n"@
}

/// A row for each version, in order.
pub open spec fn version_rows(versions: Seq<Seq<char>>) -> Seq<char>
    decreases versions.len(),
{
    if versions.len() == 0 {
        Seq::empty()
    } else {
        version_rows(versions.drop_last()) + version_row(versions.last())
    }
}

/// `maven-metadata.xml` naming `version` as latest and release.
pub open spec fn metadata_text(
    group: Seq<char>,
    artifact: Seq<char>,
    version: Seq<char>,
    versions: Seq<Seq<char>>,
) -> Seq<char> {
    "<?xml version=\"1.0\" encoding=\"UTF-8\"?>\n<metadata>\n  <groupId>"@ + escaped(
        group,
        Escape::Xml,
    ) + "</groupId>\n  <artifactId>"@ + escaped(artifact, Escape::Xml)
        + "</artifactId>\n  <versioning>\n    <latest>"@ + escaped(version, Escape::Xml)
        + "</latest>\n    <release>"@ + escaped(version, Escape::Xml)
        + "</release>\n    <versions>\n"@ + version_rows(versions)
        + "    </versions>\n  </versioning>\n</metadata>\n"@
}

/// The Maven metadata of the pack.
pub fn metadata_xml(group: &str, artifact: &str, version: &str, versions: &Vec<String>) -> (r:
    String)
    ensures
        r@ == metadata_text(group@, artifact@, version@, strings_view(versions@)),
{
    let mut out = "<?xml version=\"1.0\" encoding=\"UTF-8\"?>\n<metadata>\n  <groupId>".to_owned();
    push_escaped(&mut out, group, Escape::Xml);
    out.append("</groupId>\n  <artifactId>");
    push_escaped(&mut out, artifact, Escape::Xml);
    out.append("</artifactId>\n  <versioning>\n    <latest>");
    push_escaped(&mut out, version, Escape::Xml);
    out.append("</latest>\n    <release>");
    push_escaped(&mut out, version, Escape::Xml);
    out.append("</release>\n    <versions>\n");
    let ghost head = out@;
    let mut i: usize = 0;
    while i < versions.len()
        invariant
            i <= versions@.len(),
            out@ == head + version_rows(versions@.subrange(0, i as int).map_values(|s: String| s@)),
        decreases versions@.len() - i,
    {
        let ghost pre = versions@.subrange(0, i + 1).map_values(|s: String| s@);
        assert(pre.drop_last() =~= versions@.subrange(0, i as int).map_values(|s: String| s@));
        out.append("      <version>");
        push_escaped(&mut out, versions[i].as_str(), Escape::Xml);
        out.append("</version>\n");
        i = i + 1;
        assert(out@ =~= head + version_rows(
            versions@.subrange(0, i as int).map_values(|s: String| s@),
        ));
    }
    assert(versions@.subrange(0, i as int) =~= versions@);
    out.append("    </versions>\n  </versioning>\n</metadata>\n");
    out
}

} // verus!

verus! {

/// The index that `Iterator::max_by` with `compare_pack_versions` picks:
/// the last of the greatest, as a fold that keeps the later of two equals.
pub open spec fn latest_index(vs: Seq<Seq<char>>) -> int
    decreases vs.len(),
{
    if vs.len() <= 1 {
        0
    } else {
        let m = latest_index(vs.drop_last());
        if version_after(vs[m], vs.last()) {
            m
        } else {
            vs.len() - 1
        }
    }
}

proof fn lemma_latest_index_bounds(vs: Seq<Seq<char>>)
    requires
        vs.len() > 0,
    ensures
        0 <= latest_index(vs) < vs.len(),
    decreases vs.len(),
{
    if vs.len() > 1 {
        lemma_latest_index_bounds(vs.drop_last());
    }
}

/// The latest of the versions, as `max_by(compare_pack_versions)` finds it.
pub fn latest_version(versions: &Vec<String>) -> (r: usize)
    requires
        versions@.len() > 0,
    ensures
        r == latest_index(strings_view(versions@)),
        r < versions@.len(),
{
    let ghost vs = strings_view(versions@);
    let mut m: usize = 0;
    let mut i: usize = 1;
    while i < versions.len()
        invariant
            1 <= i <= versions@.len(),
            vs == strings_view(versions@),
            m < i,
            m == latest_index(vs.subrange(0, i as int)),
        decreases versions@.len() - i,
    {
        let ghost pre = vs.subrange(0, i + 1);
        assert(pre.drop_last() =~= vs.subrange(0, i as int));
        assert(pre[m as int] == versions@[m as int]@);
        assert(pre.last() == versions@[i as int]@);
        if !is_version_after(versions[m].as_str(), versions[i].as_str()) {
            m = i;
        }
        i = i + 1;
    }
    assert(vs.subrange(0, i as int) =~= vs);
    m
}

/// Strictly increasing in `str` order, so without repeats.
pub open spec fn strictly_sorted(vs: Seq<Seq<char>>) -> bool {
    forall|i: int, j: int| 0 <= i < j < vs.len() ==> seq_lt(vs[i], vs[j])
}

/// The published versions with this one added, sorted and without repeats,
/// as a `BTreeSet` holds them.
pub fn version_set(existing: &Vec<String>, version: &str) -> (r: Vec<String>)
    ensures
        strictly_sorted(strings_view(r@)),
        forall|x: Seq<char>|
            #[trigger] strings_view(r@).contains(x) <==> (x == version@ || strings_view(existing@).contains(x)),
{
    let ghost ex = strings_view(existing@);
    let mut all: Vec<String> = Vec::new();
    let mut k: usize = 0;
    while k < existing.len()
        invariant
            k <= existing@.len(),
            all@.len() == k,
            forall|t: int| 0 <= t < k ==> #[trigger] all@[t]@ == existing@[t]@,
        decreases existing@.len() - k,
    {
        all.push(existing[k].clone());
        k = k + 1;
    }
    all.push(version.to_owned());
    let ghost keys = strings_view(all@);
    assert forall|x: Seq<char>| #[trigger] keys.contains(x) implies (x == version@ || ex.contains(x)) by {
        let t = choose|t: int| 0 <= t < keys.len() && keys[t] == x;
        if t < existing@.len() {
            assert(ex[t] == x);
        }
    }
    assert forall|x: Seq<char>| x == version@ || #[trigger] ex.contains(x) implies #[trigger] keys.contains(x) by {
        if x == version@ {
            assert(keys[existing@.len() as int] == x);
        } else {
            let t = choose|t: int| 0 <= t < ex.len() && ex[t] == x;
            assert(keys[t] == x);
        }
    }
    assert(keys.contains(version@)) by {
        assert(keys[existing@.len() as int] == version@);
    }
    let order = stable_order(&all);
    let mut out: Vec<String> = Vec::new();
    let mut k: usize = 0;
    while k < order.len()
        invariant
            k <= order@.len(),
            keys == strings_view(all@),
            is_permutation(order@, all@.len()),
            stably_sorted(order@, keys),
            strictly_sorted(strings_view(out@)),
            k > 0 ==> out@.len() > 0 && out@.last()@ == keys[order@[k - 1] as int],
            k == 0 ==> out@.len() == 0,
            forall|x: Seq<char>|
                #[trigger] strings_view(out@).contains(x) <==> exists|t: int|
                    0 <= t < k && keys[order@[t] as int] == x,
        decreases order@.len() - k,
    {
        let ghost ov = strings_view(out@);
        let cur = &all[order[k]];
        let keep = out.len() == 0 || !str_eq(out[out.len() - 1].as_str(), cur.as_str());
        if keep {
            out.push(cur.clone());
            proof {
                let nv = strings_view(out@);
                assert(nv == ov.push(keys[order@[k as int] as int]));
                if k > 0 {
                    // the previous key sorts no later than this one, and differs from it
                    assert(seq_lt(keys[order@[k - 1] as int], keys[order@[k as int] as int])
                        || keys[order@[k - 1] as int] == keys[order@[k as int] as int]);
                    assert forall|i: int, j: int| 0 <= i < j < nv.len() implies seq_lt(
                        nv[i],
                        nv[j],
                    ) by {
                        if j == nv.len() - 1 && i < j - 1 {
                            crate::order::lemma_lt_transitive(nv[i], nv[j - 1], nv[j]);
                        }
                    }
                }
                assert forall|x: Seq<char>| #[trigger] nv.contains(x) <==> exists|t: int|
                    0 <= t < k + 1 && keys[order@[t] as int] == x by {
                    if nv.contains(x) {
                        let i = choose|i: int| 0 <= i < nv.len() && nv[i] == x;
                        if i < ov.len() {
                            assert(ov.contains(x));
                        } else {
                            assert(keys[order@[k as int] as int] == x);
                        }
                    }
                    if exists|t: int| 0 <= t < k + 1 && keys[order@[t] as int] == x {
                        let t = choose|t: int| 0 <= t < k + 1 && keys[order@[t] as int] == x;
                        if t < k {
                            assert(ov.contains(x));
                            let i = choose|i: int| 0 <= i < ov.len() && ov[i] == x;
                            assert(nv[i] == x);
                        } else {
                            assert(nv[nv.len() - 1] == x);
                        }
                    }
                }
            }
        } else {
            proof {
                assert forall|x: Seq<char>| #[trigger] ov.contains(x) <==> exists|t: int|
                    0 <= t < k + 1 && keys[order@[t] as int] == x by {
                    if exists|t: int| 0 <= t < k + 1 && keys[order@[t] as int] == x {
                        let t = choose|t: int| 0 <= t < k + 1 && keys[order@[t] as int] == x;
                        if t == k {
                            assert(ov[ov.len() - 1] == x);
                        }
                    }
                }
            }
        }
        k = k + 1;
    }
    proof {
        let ov = strings_view(out@);
        assert forall|x: Seq<char>| #[trigger] ov.contains(x) <==> keys.contains(x) by {
            if keys.contains(x) {
                let t = choose|t: int| 0 <= t < keys.len() && keys[t] == x;
                crate::export::lemma_permutation_covers(order@, all@.len() as nat, t);
                let q = choose|q: int| 0 <= q < order@.len() && order@[q] == t;
                assert(keys[order@[q] as int] == x);
            }
        }
    }
    out
}

/// `s` without trailing slashes (`trim_end_matches('/')`).
pub open spec fn trim_slashes(s: Seq<char>) -> Seq<char>
    decreases s.len(),
{
    if s.len() > 0 && s.last() == '/' {
        trim_slashes(s.drop_last())
    } else {
        s
    }
}

/// Where the pack's Maven metadata lives in a repository.
pub open spec fn metadata_url(repository: Seq<char>, lock: Lockfile) -> Seq<char> {
    trim_slashes(repository) + "/"@ + escaped(lock.pack.group@, Escape::Dots) + "/"@
        + lock.pack.slug@ + "/maven-metadata.xml"@
}

/// The pack's directory in a Maven repository:
/// `<repository>/<group as path>/<slug>`.
pub open spec fn maven_dir(repository: Seq<char>, lock: Lockfile) -> Seq<char> {
    trim_slashes(repository) + "/"@ + escaped(lock.pack.group@, Escape::Dots) + "/"@ + lock.pack.slug@
}

fn maven_dir_string(repository: &str, lock: &Lockfile) -> (r: String)
    ensures
        r@ == maven_dir(repository@, *lock),
{
    let v = crate::text::chars_of(repository);
    let mut n = v.len();
    assert(v@.subrange(0, n as int) =~= v@);
    while n > 0 && v[n - 1] == '/'
        invariant
            n <= v@.len(),
            v@ == repository@,
            trim_slashes(repository@) == trim_slashes(v@.subrange(0, n as int)),
        decreases n,
    {
        assert(v@.subrange(0, n as int).drop_last() =~= v@.subrange(0, n - 1));
        n = n - 1;
    }
    let whole = v.as_slice();
    let head = &whole[0..n];
    let mut out = crate::text::string_from(head);
    proof {
        let t = v@.subrange(0, n as int);
        if n > 0 {
            assert(t.last() == v@[n - 1]);
        }
    }
    out.append("/");
    push_escaped(&mut out, lock.pack.group.as_str(), Escape::Dots);
    out.append("/");
    out.append(lock.pack.slug.as_str());
    out
}

pub fn maven_metadata_url(repository: &str, lock: &Lockfile) -> (r: String)
    ensures
        r@ == metadata_url(repository@, *lock),
{
    let mut out = maven_dir_string(repository, lock);
    out.append("/maven-metadata.xml");
    out
}

/// The Maven metadata for this release: the published versions with this
/// one added, sorted and without repeats, the latest of them by
/// `compare_pack_versions` as latest and release.
pub fn maven_metadata(lock: &Lockfile, existing: &Vec<String>) -> (r: String)
    ensures
        exists|vs: Seq<Seq<char>>|
            {
                &&& strictly_sorted(vs)
                &&& forall|x: Seq<char>|
                    #[trigger] vs.contains(x) <==> (x == lock.pack.version@ || strings_view(existing@).contains(x))
                &&& vs.len() > 0
                &&& r@ == metadata_text(
                    lock.pack.group@,
                    lock.pack.slug@,
                    vs[latest_index(vs)],
                    vs,
                )
            },
{
    let versions = version_set(existing, lock.pack.version.as_str());
    let ghost vs = strings_view(versions@);
    assert(vs.contains(lock.pack.version@));
    let m = latest_version(&versions);
    let r = metadata_xml(
        lock.pack.group.as_str(),
        lock.pack.slug.as_str(),
        versions[m].as_str(),
        &versions,
    );
    assert(vs[m as int] == versions@[m as int]@);
    r
}

} // verus!

verus! {

/// The relative path of the release's changelog: the configured one, or
/// `CHANGELOG.md`; it must be a clean pack path.
pub open spec fn changelog_of(config: PublishConfig) -> Seq<char> {
    match config.changelog {
        Some(c) => c@,
        None => "CHANGELOG.md"@,
    }
}

impl PreparedRelease {
    /// The path, relative to the pack, of the changelog that publishers
    /// send; it must be a clean pack path.
    pub fn changelog_path(&self) -> (r: Result<String, Error>)
        ensures
            match pack_path_result(changelog_of(self.config)) {
                Ok(_) => r matches Ok(p) && p@ == changelog_of(self.config),
                Err(e) => r matches Err(x) && x@ == e,
            },
    {
        let relative = match &self.config.changelog {
            Some(c) => c.clone(),
            None => "CHANGELOG.md".to_owned(),
        };
        match check_pack_path(relative.as_str()) {
            Ok(()) => Ok(relative),
            Err(e) => Err(e),
        }
    }
}

/// A place a release goes to.
#[derive(Debug, Clone, Copy, PartialEq, Eq, Structural)]
pub enum PublishTarget {
    Modrinth,
    CurseForge,
    GitHub,
    Maven,
}

/// The configured targets, in the order they are published to.
pub open spec fn targets_of(config: PublishConfig) -> Seq<PublishTarget> {
    (if config.modrinth is Some { seq![PublishTarget::Modrinth] } else { Seq::empty() })
        + (if config.curseforge is Some { seq![PublishTarget::CurseForge] } else { Seq::empty() })
        + (if config.github is Some { seq![PublishTarget::GitHub] } else { Seq::empty() })
        + (if config.maven is Some { seq![PublishTarget::Maven] } else { Seq::empty() })
}

/// The targets a release goes to: Modrinth, CurseForge, GitHub, then Maven,
/// each where it is configured.
pub fn publish_targets(config: &PublishConfig) -> (r: Vec<PublishTarget>)
    ensures
        r@ == targets_of(*config),
{
    let mut r: Vec<PublishTarget> = Vec::new();
    if config.modrinth.is_some() {
        r.push(PublishTarget::Modrinth);
    }
    if config.curseforge.is_some() {
        r.push(PublishTarget::CurseForge);
    }
    if config.github.is_some() {
        r.push(PublishTarget::GitHub);
    }
    if config.maven.is_some() {
        r.push(PublishTarget::Maven);
    }
    assert(r@ =~= targets_of(*config));
    r
}

/// The lines of every target's report, in order.
pub open spec fn flattened(reports: Seq<Seq<Seq<char>>>) -> Seq<Seq<char>>
    decreases reports.len(),
{
    if reports.len() == 0 {
        Seq::empty()
    } else {
        flattened(reports.drop_last()) + reports.last()
    }
}

/// The report of a publish: what each target reported, in target order, or
/// one line saying that the release was only prepared.
pub open spec fn publish_report(reports: Seq<Seq<Seq<char>>>) -> Seq<Seq<char>> {
    if flattened(reports).len() == 0 {
        seq!["prepared release locally; no publish targets are configured"@]
    } else {
        flattened(reports)
    }
}

/// `pack publish`, once every target of `publish_targets` has been sent the
/// prepared release (or shown it, in a dry run): their reports, in order,
/// as one list.
pub fn publish(reports: Vec<Vec<String>>) -> (r: Vec<String>)
    ensures
        r@.map_values(|s: String| s@) == publish_report(
            reports@.map_values(|v: Vec<String>| v@.map_values(|s: String| s@)),
        ),
{
    let ghost rv = reports@.map_values(|v: Vec<String>| v@.map_values(|s: String| s@));
    let mut out: Vec<String> = Vec::new();
    let mut i: usize = 0;
    while i < reports.len()
        invariant
            i <= reports@.len(),
            rv == reports@.map_values(|v: Vec<String>| v@.map_values(|s: String| s@)),
            out@.map_values(|s: String| s@) == flattened(rv.subrange(0, i as int)),
        decreases reports@.len() - i,
    {
        let ghost before = out@.map_values(|s: String| s@);
        let mut j: usize = 0;
        while j < reports[i].len()
            invariant
                i < reports@.len(),
                j <= reports@[i as int]@.len(),
                out@.map_values(|s: String| s@) == before + rv[i as int].subrange(0, j as int),
                rv == reports@.map_values(|v: Vec<String>| v@.map_values(|s: String| s@)),
            decreases reports@[i as int]@.len() - j,
        {
            let ghost mid = out@.map_values(|s: String| s@);
            assert(rv[i as int][j as int] == reports@[i as int]@[j as int]@);
            out.push(reports[i][j].clone());
            assert(out@.map_values(|s: String| s@) =~= mid.push(rv[i as int][j as int]));
            j = j + 1;
            assert(out@.map_values(|s: String| s@) =~= before + rv[i as int].subrange(0, j as int));
        }
        assert(rv.subrange(0, i + 1).drop_last() =~= rv.subrange(0, i as int));
        assert(rv[i as int].subrange(0, j as int) =~= rv[i as int]);
        i = i + 1;
    }
    assert(rv.subrange(0, i as int) =~= rv);
    if out.len() == 0 {
        out.push("prepared release locally; no publish targets are configured".to_owned());
        assert(out@.map_values(|s: String| s@) =~= publish_report(rv));
    }
    out
}

/// The lock that a release is prepared from: it must match the current
/// spec.
pub fn release_lock(spec: &PackSpec, lock: Lockfile) -> (r: Result<Lockfile, Error>)
    ensures
        if lock_matches(*spec, lock) {
            r == Ok::<Lockfile, Error>(lock)
        } else {
            r matches Err(e) && e@ == failure(ErrorKind::LockChangedBeforePublish, seq![])
        },
{
    if lock_matches_spec(spec, &lock) {
        Ok(lock)
    } else {
        Err(Error::new0(ErrorKind::LockChangedBeforePublish))
    }
}

} // verus!

verus! {

/// The text of a checksum file: the SHA-512 of the data in hex, two spaces,
/// the file's name and a newline.
pub open spec fn checksum_line(data: Seq<u8>, name: Seq<char>) -> Seq<char> {
    hex(sha512_digest(data)) + "  "@ + name + "\n"@
}

pub fn checksum_text(data: &[u8], name: &str) -> (r: String)
    ensures
        r@ == checksum_line(data@, name@),
{
    let mut out = sha512_hex(data);
    out.append("  ");
    out.append(name);
    out.append("\n");
    out
}

/// The name of the checksum file written beside an artifact.
pub fn checksum_name(name: &str) -> (r: String)
    ensures
        r@ == name@ + ".sha512"@,
{
    let mut out = name.to_owned();
    out.append(".sha512");
    out
}

} // verus!

verus! {

/// Where every version is `major.minor.patch`, the version that the Maven
/// metadata names as latest is not older than any version it lists.
pub proof fn law_latest_version_is_newest(vs: Seq<Seq<char>>)
    requires
        vs.len() > 0,
        forall|i: int| 0 <= i < vs.len() ==> #[trigger] version_numbers(vs[i]) is Some,
    ensures
        0 <= latest_index(vs) < vs.len(),
        forall|j: int| 0 <= j < vs.len() ==> !version_after(#[trigger] vs[j], vs[latest_index(vs)]),
    decreases vs.len(),
{
    lemma_latest_index_bounds(vs);
    if vs.len() > 1 {
        let p = vs.drop_last();
        assert forall|i: int| 0 <= i < p.len() implies #[trigger] version_numbers(p[i]) is Some by {
            assert(p[i] == vs[i]);
        }
        law_latest_version_is_newest(p);
        let m = latest_index(p);
        assert(p[m] == vs[m]);
        let last = vs.last();
        assert(version_numbers(vs[m]) is Some);
        assert(version_numbers(vs[vs.len() - 1]) is Some);
        assert forall|j: int| 0 <= j < vs.len() implies !version_after(
            #[trigger] vs[j],
            vs[latest_index(vs)],
        ) by {
            assert(version_numbers(vs[j]) is Some);
            if j < vs.len() - 1 {
                assert(p[j] == vs[j]);
                assert(!version_after(p[j], p[m]));
            }
        }
    }
}

} // verus!

verus! {

/// The artifacts a release is prepared with: the Modrinth pack; the
/// CurseForge archive where CurseForge is a target; the POM and the Maven
/// metadata where Maven is.
pub open spec fn planned_artifacts(config: PublishConfig) -> Seq<ArtifactKind> {
    seq![ArtifactKind::Modrinth] + (if config.curseforge is Some {
        seq![ArtifactKind::CurseForge]
    } else {
        Seq::empty()
    }) + (if config.maven is Some {
        seq![ArtifactKind::Maven, ArtifactKind::MavenMetadata]
    } else {
        Seq::empty()
    })
}

pub fn artifact_plan(config: &PublishConfig) -> (r: Vec<ArtifactKind>)
    ensures
        r@ == planned_artifacts(*config),
{
    let mut r: Vec<ArtifactKind> = Vec::new();
    r.push(ArtifactKind::Modrinth);
    if config.curseforge.is_some() {
        r.push(ArtifactKind::CurseForge);
    }
    if config.maven.is_some() {
        r.push(ArtifactKind::Maven);
        r.push(ArtifactKind::MavenMetadata);
    }
    assert(r@ =~= planned_artifacts(*config));
    r
}

/// The name of the release's POM: `<slug>-<version>.pom`.
pub fn pom_name(lock: &Lockfile) -> (r: String)
    ensures
        r@ == lock.pack.slug@ + "-"@ + lock.pack.version@ + ".pom"@,
{
    let mut out = lock.pack.slug.clone();
    out.append("-");
    out.append(lock.pack.version.as_str());
    out.append(".pom");
    out
}

/// Where an artifact goes in a Maven repository: the metadata beside the
/// versions, the POM under the version, and the Modrinth pack under the
/// version as `<slug>-<version>-client.mrpack`; the CurseForge archive and
/// the release summary do not go to Maven.
pub open spec fn maven_upload(
    repository: Seq<char>,
    lock: Lockfile,
    kind: ArtifactKind,
    name: Seq<char>,
) -> Option<Seq<char>> {
    let dir = maven_dir(repository, lock);
    match kind {
        ArtifactKind::MavenMetadata => Some(dir + "/"@ + name),
        ArtifactKind::Maven => Some(dir + "/"@ + lock.pack.version@ + "/"@ + name),
        ArtifactKind::Modrinth => Some(
            dir + "/"@ + lock.pack.version@ + "/"@ + lock.pack.slug@ + "-"@ + lock.pack.version@
                + "-client.mrpack"@,
        ),
        _ => None,
    }
}

pub fn maven_target(repository: &str, lock: &Lockfile, artifact: &Artifact) -> (r: Option<String>)
    ensures
        match maven_upload(repository@, *lock, artifact.kind, artifact.name@) {
            Some(u) => r matches Some(s) && s@ == u,
            None => r is None,
        },
{
    let mut out = maven_dir_string(repository, lock);
    match artifact.kind {
        ArtifactKind::MavenMetadata => {
            out.append("/");
            out.append(artifact.name.as_str());
            Some(out)
        },
        ArtifactKind::Maven => {
            out.append("/");
            out.append(lock.pack.version.as_str());
            out.append("/");
            out.append(artifact.name.as_str());
            Some(out)
        },
        ArtifactKind::Modrinth => {
            out.append("/");
            out.append(lock.pack.version.as_str());
            out.append("/");
            out.append(lock.pack.slug.as_str());
            out.append("-");
            out.append(lock.pack.version.as_str());
            out.append("-client.mrpack");
            Some(out)
        },
        _ => None,
    }
}

/// The bytes of a prepared artifact, read again before they are sent, must
/// still have the size and SHA-512 recorded when it was prepared.
pub open spec fn artifact_unchanged(artifact: Artifact, data: Seq<u8>) -> bool {
    data.len() == artifact.bytes && hex(sha512_digest(data)) == artifact.sha512@
}

pub fn recheck_artifact(artifact: &Artifact, data: &[u8]) -> (r: Result<(), Error>)
    ensures
        artifact_unchanged(*artifact, data@) ==> r is Ok,
        !artifact_unchanged(*artifact, data@) ==> (r matches Err(e) && e@ == failure(
            ErrorKind::ArtifactChanged,
            seq![artifact.name@],
        )),
{
    if data.len() as u64 == artifact.bytes && str_eq(sha512_hex(data).as_str(), artifact.sha512.as_str()) {
        Ok(())
    } else {
        Err(Error::new1(ErrorKind::ArtifactChanged, artifact.name.clone()))
    }
}

} // verus!

verus! {

/// A release whose major version is greater than that of every other
/// listed version (a Minecraft version bump) is the one the Maven metadata
/// names as latest.
pub proof fn law_major_bump_is_latest(vs: Seq<Seq<char>>, j: int)
    requires
        0 <= j < vs.len(),
        forall|i: int| 0 <= i < vs.len() ==> #[trigger] version_numbers(vs[i]) is Some,
        forall|i: int|
            0 <= i < vs.len() && i != j ==> (#[trigger] version_numbers(vs[i]))->Some_0.0
                < version_numbers(vs[j])->Some_0.0,
    ensures
        latest_index(vs) == j,
{
    law_latest_version_is_newest(vs);
    let m = latest_index(vs);
    if m != j {
        assert(version_numbers(vs[m]) is Some);
        assert(version_numbers(vs[j]) is Some);
        crate::versions::law_versions_compare_major_then_minor_then_patch(vs[j], vs[m]);
        assert(!version_after(vs[j], vs[m]));
    }
}

} // verus!
