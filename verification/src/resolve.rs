//! Choosing the exact Modrinth version and file that a pack entry asks for.

use crate::curseforge::comma_joined;
use crate::error::{failure, Error, ErrorKind, Failure};
use crate::export::strings_view;
use crate::fetch::{hex, sha1_digest, sha1_hex, sha512_digest, sha512_hex};
use crate::spec::{
    kind_folder, side_env, ContentKind, ContentSide, EnvSpec, FileSpec, Lockfile, PackMeta,
    PackSpec,
};
use crate::text::str_eq;
use crate::verify::same_strings;
use vstd::prelude::*;

verus! {

/// A version of a Modrinth project, as the Modrinth API lists it.
#[derive(Debug, Clone)]
pub struct ModrinthVersion {
    pub id: String,
    pub version_number: String,
    pub files: Vec<ModrinthFile>,
}

/// A file of a Modrinth version.
#[derive(Debug, Clone)]
pub struct ModrinthFile {
    pub hashes: ModrinthHashes,
    pub url: String,
    pub filename: String,
    pub primary: bool,
    pub size: u64,
}

#[derive(Debug, Clone)]
pub struct ModrinthHashes {
    pub sha1: String,
    pub sha512: String,
}

/// The files marked primary.
pub open spec fn primaries(files: Seq<ModrinthFile>) -> Seq<ModrinthFile> {
    files.filter(|f: ModrinthFile| f.primary)
}

/// The file that stands for a version: its only primary file, or its only
/// file when none is marked primary.
pub open spec fn primary_of(files: Seq<ModrinthFile>) -> Option<ModrinthFile> {
    let p = primaries(files);
    if p.len() == 1 {
        Some(p[0])
    } else if p.len() == 0 && files.len() == 1 {
        Some(files[0])
    } else {
        None
    }
}

/// Why a version has no file that stands for it.
pub open spec fn primary_error(files: Seq<ModrinthFile>) -> ErrorKind {
    if primaries(files).len() == 0 {
        ErrorKind::NoPrimaryFile
    } else {
        ErrorKind::MultiplePrimaryFiles
    }
}

/// The primary file of a version; names `project` and `version` when there
/// is none or more than one.
pub fn primary_file<'a>(project: &str, version: &str, files: &'a Vec<ModrinthFile>) -> (r: Result<
    &'a ModrinthFile,
    Error,
>)
    ensures
        match primary_of(files@) {
            Some(f) => r matches Ok(x) && *x == f,
            None => r matches Err(e) && e@ == failure(
                primary_error(files@),
                seq![project@, version@],
            ),
        },
{
    let ghost pred = |f: ModrinthFile| f.primary;
    let mut count: usize = 0;
    let mut found: usize = 0;
    let mut i: usize = 0;
    while i < files.len()
        invariant
            i <= files@.len(),
            pred == (|f: ModrinthFile| f.primary),
            count <= i,
            count == files@.subrange(0, i as int).filter(pred).len(),
            count >= 1 ==> found < i && files@.subrange(0, i as int).filter(pred)[0]
                == files@[found as int],
        decreases files@.len() - i,
    {
        proof {
            reveal_with_fuel(Seq::<_>::filter, 1);
            assert(files@.subrange(0, i + 1).drop_last() =~= files@.subrange(0, i as int));
        }
        if files[i].primary {
            if count == 0 {
                found = i;
            }
            count = count + 1;
        }
        i = i + 1;
    }
    assert(files@.subrange(0, i as int) =~= files@);
    if count == 1 {
        Ok(&files[found])
    } else if count == 0 && files.len() == 1 {
        Ok(&files[0])
    } else if count == 0 {
        Err(Error::new2(ErrorKind::NoPrimaryFile, project.to_owned(), version.to_owned()))
    } else {
        Err(Error::new2(ErrorKind::MultiplePrimaryFiles, project.to_owned(), version.to_owned()))
    }
}

/// The versions whose version number is `requested`, in order.
pub open spec fn named_versions(versions: Seq<ModrinthVersion>, requested: Seq<char>) -> Seq<
    ModrinthVersion,
> {
    versions.filter(|v: ModrinthVersion| v.version_number@ == requested)
}

/// Every version after the first of `vs` has a primary file with the
/// SHA-512 `sha512`.
pub open spec fn same_file_after_first(vs: Seq<ModrinthVersion>, sha512: Seq<char>) -> bool {
    forall|k: int|
        1 <= k < vs.len() ==> (primary_of(#[trigger] vs[k].files@) matches Some(g)
            && g.hashes.sha512@ == sha512)
}

/// The version that a pack entry pins, or why there is none: exactly one
/// version named `requested`; or several that all carry the same primary
/// file, of which the first is taken.
pub open spec fn exact_choice(
    project: Seq<char>,
    requested: Seq<char>,
    versions: Seq<ModrinthVersion>,
) -> Result<ModrinthVersion, Failure> {
    let m = named_versions(versions, requested);
    if m.len() == 1 {
        Ok(m[0])
    } else if m.len() == 0 {
        Err(failure(ErrorKind::NoCompatibleVersion, seq![project, requested]))
    } else {
        match primary_of(m[0].files@) {
            None => Err(failure(primary_error(m[0].files@), seq![project, requested])),
            Some(first) => if same_file_after_first(m, first.hashes.sha512@) {
                Ok(m[0])
            } else {
                Err(
                    failure(
                        ErrorKind::AmbiguousVersions,
                        seq![
                            project,
                            requested,
                            comma_joined(m.map_values(|v: ModrinthVersion| v.id@)),
                        ],
                    ),
                )
            },
        }
    }
}

/// Picks the version named `requested` from what Modrinth lists.
#[verifier::loop_isolation(false)]
pub fn exact_version<'a>(project: &str, requested: &str, versions: &'a Vec<ModrinthVersion>) -> (r: Result<
    &'a ModrinthVersion,
    Error,
>)
    ensures
        match exact_choice(project@, requested@, versions@) {
            Ok(v) => r matches Ok(x) && *x == v,
            Err(e) => r matches Err(x) && x@ == e,
        },
{
    let ghost pred = |v: ModrinthVersion| v.version_number@ == requested@;
    let mut idx: Vec<usize> = Vec::new();
    let mut i: usize = 0;
    while i < versions.len()
        invariant
            i <= versions@.len(),
            pred == (|v: ModrinthVersion| v.version_number@ == requested@),
            forall|k: int| 0 <= k < idx@.len() ==> idx@[k] < i,
            idx@.map_values(|j: usize| versions@[j as int]) == versions@.subrange(0, i as int).filter(
                pred,
            ),
        decreases versions@.len() - i,
    {
        proof {
            reveal_with_fuel(Seq::<_>::filter, 1);
            assert(versions@.subrange(0, i + 1).drop_last() =~= versions@.subrange(0, i as int));
        }
        let ghost before = versions@.subrange(0, i as int).filter(pred);
        let ghost after = versions@.subrange(0, i + 1).filter(pred);
        let ghost old_idx = idx@;
        if str_eq(versions[i].version_number.as_str(), requested) {
            assert(after == before.push(versions@[i as int]));
            idx.push(i);
            assert(idx@.map_values(|j: usize| versions@[j as int]) =~= old_idx.map_values(
                |j: usize| versions@[j as int],
            ).push(versions@[i as int]));
        } else {
            assert(after == before);
        }
        i = i + 1;
    }
    assert(versions@.subrange(0, i as int) =~= versions@);
    assert forall|k: int| 0 <= k < idx@.len() implies versions@[idx@[k] as int] == versions@.filter(
        pred,
    )[k] by {
        assert(idx@.map_values(|j: usize| versions@[j as int])[k] == versions@[idx@[k] as int]);
    }
    let ghost m = named_versions(versions@, requested@);
    assert(m == versions@.filter(pred));
    if idx.len() == 1 {
        return Ok(&versions[idx[0]]);
    }
    if idx.len() == 0 {
        return Err(Error::new2(ErrorKind::NoCompatibleVersion, project.to_owned(), requested.to_owned()));
    }
    let first = &versions[idx[0]];
    let first_file = match primary_file(project, requested, &first.files) {
        Err(e) => return Err(e),
        Ok(f) => f,
    };
    let mut same = true;
    let mut k: usize = 1;
    while k < idx.len()
        invariant
            1 <= k <= idx@.len(),
            same == forall|t: int|
                1 <= t < k ==> (primary_of(#[trigger] m[t].files@) matches Some(g)
                    && g.hashes.sha512@ == first_file.hashes.sha512@),
        decreases idx@.len() - k,
    {
        let v = &versions[idx[k]];
        assert(*v == m[k as int]);
        let ok = match primary_file(project, requested, &v.files) {
            Ok(f) => str_eq(f.hashes.sha512.as_str(), first_file.hashes.sha512.as_str()),
            Err(_) => false,
        };
        same = same && ok;
        k = k + 1;
    }
    if same {
        return Ok(first);
    }
    let mut ids = String::new();
    let mut k: usize = 0;
    while k < idx.len()
        invariant
            k <= idx@.len(),
            ids@ == comma_joined(m.subrange(0, k as int).map_values(|v: ModrinthVersion| v.id@)),
        decreases idx@.len() - k,
    {
        let ghost pre = m.subrange(0, k + 1).map_values(|v: ModrinthVersion| v.id@);
        assert(pre.drop_last() =~= m.subrange(0, k as int).map_values(|v: ModrinthVersion| v.id@));
        assert(pre.last() == versions@[idx@[k as int] as int].id@);
        if k > 0 {
            ids.append(", ");
        }
        ids.append(versions[idx[k]].id.as_str());
        k = k + 1;
    }
    assert(m.subrange(0, k as int) =~= m);
    Err(Error::new3(ErrorKind::AmbiguousVersions, project.to_owned(), requested.to_owned(), ids))
}

} // verus!

verus! {

// ------------------------------------------------------ lock against spec

/// The values of a pack's identity, field by field.
pub open spec fn meta_view(m: PackMeta) -> Seq<Seq<char>> {
    seq![m.name@, m.slug@, m.version@, m.group@, m.minecraft@, m.loader@, m.loader_version@]
}

/// The values of a pinned file, field by field.
pub open spec fn file_view(f: FileSpec) -> (Seq<char>, u64, Seq<char>, Seq<char>, EnvSpec, Seq<Seq<char>>) {
    (f.path@, f.file_size, f.sha1@, f.sha512@, f.env, strings_view(f.downloads@))
}

/// The lock was made from this spec: the same pack and the same files, in
/// the same order.
pub open spec fn lock_matches(spec: PackSpec, lock: Lockfile) -> bool {
    &&& meta_view(spec.pack) == meta_view(lock.pack)
    &&& spec.file.len() == lock.file.len()
    &&& forall|i: int| 0 <= i < spec.file.len() ==> file_view(spec.file[i]) == file_view(lock.file[i])
}

fn same_meta(a: &PackMeta, b: &PackMeta) -> (r: bool)
    ensures
        r == (meta_view(*a) == meta_view(*b)),
{
    let r = str_eq(a.name.as_str(), b.name.as_str()) && str_eq(a.slug.as_str(), b.slug.as_str())
        && str_eq(a.version.as_str(), b.version.as_str()) && str_eq(a.group.as_str(), b.group.as_str())
        && str_eq(a.minecraft.as_str(), b.minecraft.as_str()) && str_eq(a.loader.as_str(), b.loader.as_str())
        && str_eq(a.loader_version.as_str(), b.loader_version.as_str());
    proof {
        if r {
            assert(meta_view(*a) =~= meta_view(*b));
        } else {
            if meta_view(*a) == meta_view(*b) {
                assert(meta_view(*a)[0] == meta_view(*b)[0]);
                assert(meta_view(*a)[1] == meta_view(*b)[1]);
                assert(meta_view(*a)[2] == meta_view(*b)[2]);
                assert(meta_view(*a)[3] == meta_view(*b)[3]);
                assert(meta_view(*a)[4] == meta_view(*b)[4]);
                assert(meta_view(*a)[5] == meta_view(*b)[5]);
                assert(meta_view(*a)[6] == meta_view(*b)[6]);
            }
        }
    }
    r
}

fn same_file(a: &FileSpec, b: &FileSpec) -> (r: bool)
    ensures
        r == (file_view(*a) == file_view(*b)),
{
    str_eq(a.path.as_str(), b.path.as_str()) && a.file_size == b.file_size && str_eq(
        a.sha1.as_str(),
        b.sha1.as_str(),
    ) && str_eq(a.sha512.as_str(), b.sha512.as_str()) && a.env == b.env && same_strings(
        &a.downloads,
        &b.downloads,
    )
}

/// Whether the lock was made from this spec (see [`lock_matches`]).
pub fn lock_matches_spec(spec: &PackSpec, lock: &Lockfile) -> (r: bool)
    ensures
        r == lock_matches(*spec, *lock),
{
    if !same_meta(&spec.pack, &lock.pack) || spec.file.len() != lock.file.len() {
        return false;
    }
    let mut i: usize = 0;
    while i < spec.file.len()
        invariant
            spec.file@.len() == lock.file@.len(),
            meta_view(spec.pack) == meta_view(lock.pack),
            i <= spec.file@.len(),
            forall|j: int| 0 <= j < i ==> file_view(spec.file@[j]) == file_view(lock.file@[j]),
        decreases spec.file@.len() - i,
    {
        if !same_file(&spec.file[i], &lock.file[i]) {
            return false;
        }
        i = i + 1;
    }
    true
}

} // verus!

verus! {

// ------------------------------------------------------- resolved entries

/// Where a file of a kind goes in the pack: the kind's folder, then the
/// file name.
pub open spec fn content_path(kind: ContentKind, filename: Seq<char>) -> Seq<char> {
    kind_folder(kind) + "/"@ + filename
}

fn content_path_string(kind: ContentKind, filename: &str) -> (r: String)
    ensures
        r@ == content_path(kind, filename@),
{
    let mut p = kind.folder().to_owned();
    p.append("/");
    p.append(filename);
    p
}

/// The pinned file of a Modrinth entry: the primary file of the version it
/// asks for, under the kind's folder, loading on the entry's side.
pub open spec fn modrinth_pin(kind: ContentKind, side: ContentSide, f: ModrinthFile) -> (
    Seq<char>,
    u64,
    Seq<char>,
    Seq<char>,
    EnvSpec,
    Seq<Seq<char>>,
) {
    (
        content_path(kind, f.filename@),
        f.size,
        f.hashes.sha1@,
        f.hashes.sha512@,
        side_env(side),
        seq![f.url@],
    )
}

/// Resolves a Modrinth entry from the versions that Modrinth lists for its
/// project: the exact version asked for, its primary file, pinned.
pub fn modrinth_file_spec(
    kind: ContentKind,
    side: ContentSide,
    project: &str,
    requested: &str,
    versions: &Vec<ModrinthVersion>,
) -> (r: Result<FileSpec, Error>)
    ensures
        match exact_choice(project@, requested@, versions@) {
            Err(e) => r matches Err(x) && x@ == e,
            Ok(v) => match primary_of(v.files@) {
                None => r matches Err(x) && x@ == failure(
                    primary_error(v.files@),
                    seq![project@, requested@],
                ),
                Some(f) => r matches Ok(spec) && file_view(spec) == modrinth_pin(kind, side, f),
            },
        },
{
    let version = match exact_version(project, requested, versions) {
        Ok(v) => v,
        Err(e) => return Err(e),
    };
    let file = match primary_file(project, requested, &version.files) {
        Ok(f) => f,
        Err(e) => return Err(e),
    };
    let mut downloads: Vec<String> = Vec::new();
    downloads.push(file.url.clone());
    let spec = FileSpec {
        path: content_path_string(kind, file.filename.as_str()),
        file_size: file.size,
        sha1: file.hashes.sha1.clone(),
        sha512: file.hashes.sha512.clone(),
        env: side.env(),
        downloads,
    };
    assert(strings_view(spec.downloads@) =~= seq![file.url@]);
    Ok(spec)
}

/// The pinned file of a direct entry, made from the bytes downloaded from
/// its URL: their size and digests, under the kind's folder.
pub fn direct_file_spec(
    kind: ContentKind,
    side: ContentSide,
    filename: &str,
    url: &str,
    bytes: &[u8],
) -> (r: FileSpec)
    ensures
        file_view(r) == (
            content_path(kind, filename@),
            bytes@.len() as u64,
            hex(sha1_digest(bytes@)),
            hex(sha512_digest(bytes@)),
            side_env(side),
            seq![url@],
        ),
{
    let mut downloads: Vec<String> = Vec::new();
    downloads.push(url.to_owned());
    let spec = FileSpec {
        path: content_path_string(kind, filename),
        file_size: bytes.len() as u64,
        sha1: sha1_hex(bytes),
        sha512: sha512_hex(bytes),
        env: side.env(),
        downloads,
    };
    assert(strings_view(spec.downloads@) =~= seq![url@]);
    spec
}

} // verus!
