//! The pack manifest (`pack.toml`), its lockfile (`pack.lock.toml`) and the
//! rules that both must keep.

use crate::error::{failure, outcome, Error, ErrorKind, Failure};
use crate::text::{
    chars_of, decimal, decimal_string, is_blank, seq_has_char, seq_is_blank, seq_starts_with,
    starts_with, str_eq,
};
use vstd::prelude::*;
use vstd::utf8::encode_utf8;

verus! {

/// Whether a file loads on one side of the game.
#[derive(Debug, Clone, Copy, PartialEq, Eq, Structural)]
pub enum SideRequirement {
    Required,
    Optional,
    Unsupported,
}

/// The lowercase name under which a requirement is written.
pub open spec fn side_name(s: SideRequirement) -> Seq<char> {
    match s {
        SideRequirement::Required => "required"@,
        SideRequirement::Optional => "optional"@,
        SideRequirement::Unsupported => "unsupported"@,
    }
}

impl SideRequirement {
    pub fn as_str(self) -> (r: &'static str)
        ensures
            r@ == side_name(self),
    {
        match self {
            SideRequirement::Required => "required",
            SideRequirement::Optional => "optional",
            SideRequirement::Unsupported => "unsupported",
        }
    }
}

/// Where a file loads.
#[derive(Debug, Clone, Copy, PartialEq, Eq, Structural)]
pub struct EnvSpec {
    pub client: SideRequirement,
    pub server: SideRequirement,
}

/// The pack's identity and the game it targets.
#[derive(Debug, Clone, PartialEq, Eq)]
pub struct PackMeta {
    pub name: String,
    pub slug: String,
    pub version: String,
    pub group: String,
    pub minecraft: String,
    pub loader: String,
    pub loader_version: String,
}

/// The Maven group used when `pack.toml` names none.
pub fn default_group() -> (r: String)
    ensures
        r@ == "com.iamkaf.modpacks"@,
{
    "com.iamkaf.modpacks".to_owned()
}

/// One pinned file of the pack.
#[derive(Debug, Clone, PartialEq, Eq)]
pub struct FileSpec {
    pub path: String,
    pub file_size: u64,
    pub sha1: String,
    pub sha512: String,
    pub env: EnvSpec,
    pub downloads: Vec<String>,
}

/// `pack.toml`: the pack and its files.
#[derive(Debug, Clone, PartialEq, Eq)]
pub struct PackSpec {
    pub pack: PackMeta,
    pub file: Vec<FileSpec>,
}

/// `pack.lock.toml`: the installed files and their CurseForge IDs.
#[derive(Debug, Clone, PartialEq, Eq)]
pub struct Lockfile {
    pub version: u32,
    pub pack: PackMeta,
    pub file: Vec<FileSpec>,
    pub curseforge: Vec<CurseForgeFile>,
}

/// The CurseForge project and file that stand for one pinned file.
#[derive(Debug, Clone, PartialEq, Eq)]
pub struct CurseForgeFile {
    pub path: String,
    pub sha1: String,
    pub project_id: u32,
    pub file_id: u32,
}

impl CurseForgeFile {
    /// An equal copy.
    pub fn copy(&self) -> (r: Self)
        ensures
            r == *self,
    {
        CurseForgeFile {
            path: self.path.clone(),
            sha1: self.sha1.clone(),
            project_id: self.project_id,
            file_id: self.file_id,
        }
    }
}

/// What kind of content a pack entry is.
#[derive(Debug, Clone, Copy, PartialEq, Eq, Structural)]
pub enum ContentKind {
    Mod,
    Shader,
}

/// The folder in the game directory that holds content of a kind.
pub open spec fn kind_folder(k: ContentKind) -> Seq<char> {
    match k {
        ContentKind::Mod => "mods"@,
        ContentKind::Shader => "shaderpacks"@,
    }
}

impl ContentKind {
    pub fn folder(self) -> (r: &'static str)
        ensures
            r@ == kind_folder(self),
    {
        match self {
            ContentKind::Mod => "mods",
            ContentKind::Shader => "shaderpacks",
        }
    }
}

/// On which sides a pack entry loads.
#[derive(Debug, Clone, Copy, PartialEq, Eq, Structural)]
pub enum ContentSide {
    Both,
    Client,
    Server,
}

/// The environment that a side choice gives a file.
pub open spec fn side_env(s: ContentSide) -> EnvSpec {
    match s {
        ContentSide::Both => EnvSpec {
            client: SideRequirement::Required,
            server: SideRequirement::Required,
        },
        ContentSide::Client => EnvSpec {
            client: SideRequirement::Required,
            server: SideRequirement::Unsupported,
        },
        ContentSide::Server => EnvSpec {
            client: SideRequirement::Unsupported,
            server: SideRequirement::Required,
        },
    }
}

impl ContentSide {
    pub fn env(self) -> (r: EnvSpec)
        ensures
            r == side_env(self),
    {
        match self {
            ContentSide::Both => EnvSpec {
                client: SideRequirement::Required,
                server: SideRequirement::Required,
            },
            ContentSide::Client => EnvSpec {
                client: SideRequirement::Required,
                server: SideRequirement::Unsupported,
            },
            ContentSide::Server => EnvSpec {
                client: SideRequirement::Unsupported,
                server: SideRequirement::Required,
            },
        }
    }
}

// ---------------------------------------------------------------- pack paths

/// A `/`-separated part of `p` starts at `i`.
pub open spec fn part_starts(p: Seq<char>, i: int) -> bool {
    i == 0 || p[i - 1] == '/'
}

/// A `/`-separated part of `p` ends at `j`.
pub open spec fn part_ends(p: Seq<char>, j: int) -> bool {
    j == p.len() || p[j] == '/'
}

/// The part of `p` that starts at `i` is empty, `.` or `..`.
pub open spec fn bad_part_at(p: Seq<char>, i: int) -> bool {
    part_starts(p, i) && (part_ends(p, i) || (i < p.len() && p[i] == '.' && part_ends(p, i + 1))
        || (i + 1 < p.len() && p[i] == '.' && p[i + 1] == '.' && part_ends(p, i + 2)))
}

/// Some part of `p`, split at `/`, is empty, `.` or `..`.
pub open spec fn has_bad_part(p: Seq<char>) -> bool {
    exists|i: int| 0 <= i <= p.len() && bad_part_at(p, i)
}

/// The first part of `p` is `world`, the server's save.
pub open spec fn is_world_path(p: Seq<char>) -> bool {
    seq_starts_with(p, "world"@) && (p.len() == 5 || p[5] == '/')
}

/// What is wrong with `p` as a path inside the pack, if anything; checked in
/// this order.
pub open spec fn pack_path_problem(p: Seq<char>) -> Option<ErrorKind> {
    if p.len() == 0 {
        Some(ErrorKind::PathEmpty)
    } else if seq_has_char(p, '\0') || seq_has_char(p, '\\') {
        Some(ErrorKind::PathNotSlashRelative)
    } else if p[0] == '/' {
        Some(ErrorKind::PathAbsolute)
    } else if has_bad_part(p) {
        Some(ErrorKind::PathBadParts)
    } else if is_world_path(p) {
        Some(ErrorKind::PathWorld)
    } else {
        None
    }
}

/// `p` is a clean relative path that may stand in the pack.
pub open spec fn valid_pack_path(p: Seq<char>) -> bool {
    pack_path_problem(p) is None
}

/// The result of checking `p` as a pack path.
pub open spec fn pack_path_result(p: Seq<char>) -> Result<(), Failure> {
    match pack_path_problem(p) {
        None => Ok(()),
        Some(ErrorKind::PathEmpty) => Err(failure(ErrorKind::PathEmpty, seq![])),
        Some(k) => Err(failure(k, seq![p])),
    }
}

fn bad_part_exec(v: &Vec<char>, i: usize) -> (r: bool)
    requires
        i <= v@.len(),
    ensures
        r == bad_part_at(v@, i as int),
{
    let n = v.len();
    let starts = i == 0 || v[i - 1] == '/';
    if !starts {
        return false;
    }
    let empty = i == n || v[i] == '/';
    let dot = i < n && v[i] == '.' && (n - i == 1 || v[i + 1] == '/');
    let dotdot = i < n && n - i >= 2 && v[i] == '.' && v[i + 1] == '.' && (n - i == 2 || v[i
        + 2] == '/');
    empty || dot || dotdot
}

/// Checks that `path` is a clean, slash-separated relative path that does
/// not reach outside the pack and does not replace the server world.
pub fn check_pack_path(path: &str) -> (r: Result<(), Error>)
    ensures
        outcome(r) == pack_path_result(path@),
{
    let v = chars_of(path);
    if v.len() == 0 {
        return Err(Error::new0(ErrorKind::PathEmpty));
    }
    let mut i: usize = 0;
    while i < v.len()
        invariant
            v@ == path@,
            i <= v@.len(),
            forall|j: int| 0 <= j < i ==> v@[j] != '\0' && v@[j] != '\\',
        decreases v@.len() - i,
    {
        if v[i] == '\0' || v[i] == '\\' {
            assert(seq_has_char(path@, v@[i as int]));
            return Err(Error::new1(ErrorKind::PathNotSlashRelative, path.to_owned()));
        }
        i = i + 1;
    }
    if v[0] == '/' {
        return Err(Error::new1(ErrorKind::PathAbsolute, path.to_owned()));
    }
    let mut i: usize = 0;
    while i < v.len()
        invariant
            v@ == path@,
            i <= v@.len(),
            forall|j: int| 0 <= j < i ==> !bad_part_at(v@, j),
            v@.len() > 0,
            v@[0] != '/',
            !seq_has_char(path@, '\0'),
            !seq_has_char(path@, '\\'),
        decreases v@.len() - i,
    {
        if bad_part_exec(&v, i) {
            assert(bad_part_at(path@, i as int));
            return Err(Error::new1(ErrorKind::PathBadParts, path.to_owned()));
        }
        i = i + 1;
    }
    if bad_part_exec(&v, i) {
        assert(bad_part_at(path@, i as int));
        return Err(Error::new1(ErrorKind::PathBadParts, path.to_owned()));
    }
    let world = v.len() >= 5 && v[0] == 'w' && v[1] == 'o' && v[2] == 'r' && v[3] == 'l' && v[4]
        == 'd' && (v.len() == 5 || v[5] == '/');
    proof {
        reveal_strlit("world");
        if v@.len() >= 5 {
            assert(world == is_world_path(path@)) by {
                if v@[0] == 'w' && v@[1] == 'o' && v@[2] == 'r' && v@[3] == 'l' && v@[4] == 'd' {
                    assert(v@.subrange(0, 5) =~= "world"@);
                } else {
                    assert(v@.subrange(0, 5) != "world"@) by {
                        assert(v@.subrange(0, 5)[0] == v@[0]);
                        assert(v@.subrange(0, 5)[1] == v@[1]);
                        assert(v@.subrange(0, 5)[2] == v@[2]);
                        assert(v@.subrange(0, 5)[3] == v@[3]);
                        assert(v@.subrange(0, 5)[4] == v@[4]);
                    }
                }
            }
        }
    }
    if world {
        return Err(Error::new1(ErrorKind::PathWorld, path.to_owned()));
    }
    Ok(())
}

} // verus!

verus! {

// ---------------------------------------------------------------- validation

/// The result that a list of problems in order gives: the first, or none.
pub open spec fn as_result(p: Option<Failure>) -> Result<(), Failure> {
    match p {
        None => Ok(()),
        Some(f) => Err(f),
    }
}

/// The number of bytes of a string in UTF-8, as `str::len` returns it.
pub open spec fn byte_len(s: Seq<char>) -> usize {
    encode_utf8(s).len() as usize
}

/// A download that the pack accepts: HTTPS, or a local `file:` URL.
pub open spec fn download_ok(url: Seq<char>) -> bool {
    seq_starts_with(url, "https://"@) || seq_starts_with(url, "file:"@)
}

/// The first download of `urls` that the pack does not accept.
pub open spec fn first_bad_download(urls: Seq<String>) -> Option<Seq<char>>
    decreases urls.len(),
{
    if urls.len() == 0 {
        None
    } else {
        match first_bad_download(urls.drop_last()) {
            Some(u) => Some(u),
            None => if download_ok(urls.last()@) {
                None
            } else {
                Some(urls.last()@)
            },
        }
    }
}

/// The first required field of `m` that is blank, or an unsupported loader.
pub open spec fn meta_problem(m: PackMeta) -> Option<Failure> {
    if seq_is_blank(m.name@) {
        Some(failure(ErrorKind::FieldRequired, seq!["pack.name"@]))
    } else if seq_is_blank(m.slug@) {
        Some(failure(ErrorKind::FieldRequired, seq!["pack.slug"@]))
    } else if seq_is_blank(m.version@) {
        Some(failure(ErrorKind::FieldRequired, seq!["pack.version"@]))
    } else if seq_is_blank(m.group@) {
        Some(failure(ErrorKind::FieldRequired, seq!["pack.group"@]))
    } else if seq_is_blank(m.minecraft@) {
        Some(failure(ErrorKind::FieldRequired, seq!["pack.minecraft"@]))
    } else if seq_is_blank(m.loader_version@) {
        Some(failure(ErrorKind::FieldRequired, seq!["pack.loader_version"@]))
    } else if m.loader@ != "fabric"@ {
        Some(failure(ErrorKind::UnsupportedLoader, seq![m.loader@]))
    } else {
        None
    }
}

/// Some file of `files` has the path `p`.
pub open spec fn has_path(files: Seq<FileSpec>, p: Seq<char>) -> bool {
    exists|j: int| 0 <= j < files.len() && files[j].path@ == p
}

/// What is wrong with file `f`, given the files listed before it.
pub open spec fn file_problem(f: FileSpec, earlier: Seq<FileSpec>) -> Option<Failure> {
    match pack_path_result(f.path@) {
        Err(e) => Some(e),
        Ok(_) => if f.downloads@.len() == 0 {
            Some(failure(ErrorKind::NoDownloads, seq![f.path@]))
        } else if first_bad_download(f.downloads@) is Some {
            Some(
                failure(
                    ErrorKind::DownloadNotHttps,
                    seq![f.path@, first_bad_download(f.downloads@)->0],
                ),
            )
        } else if byte_len(f.sha1@) != 40 || byte_len(f.sha512@) != 128 {
            Some(failure(ErrorKind::MissingPins, seq![f.path@]))
        } else if has_path(earlier, f.path@) {
            Some(failure(ErrorKind::DuplicatePath, seq![f.path@]))
        } else {
            None
        },
    }
}

/// The first problem among `files`, each checked against those before it.
pub open spec fn files_problem(files: Seq<FileSpec>) -> Option<Failure>
    decreases files.len(),
{
    if files.len() == 0 {
        None
    } else {
        match files_problem(files.drop_last()) {
            Some(e) => Some(e),
            None => file_problem(files.last(), files.drop_last()),
        }
    }
}

/// The first problem of a pack with metadata `m` and files `files`.
pub open spec fn pack_problem(m: PackMeta, files: Seq<FileSpec>) -> Option<Failure> {
    match meta_problem(m) {
        Some(e) => Some(e),
        None => if files.len() == 0 {
            Some(failure(ErrorKind::NoFiles, seq![]))
        } else {
            files_problem(files)
        },
    }
}

fn field_required(name: &str) -> (e: Error)
    ensures
        e@ == failure(ErrorKind::FieldRequired, seq![name@]),
{
    Error::new1(ErrorKind::FieldRequired, name.to_owned())
}

fn check_meta(m: &PackMeta) -> (r: Result<(), Error>)
    ensures
        outcome(r) == as_result(meta_problem(*m)),
{
    if is_blank(m.name.as_str()) {
        return Err(field_required("pack.name"));
    }
    if is_blank(m.slug.as_str()) {
        return Err(field_required("pack.slug"));
    }
    if is_blank(m.version.as_str()) {
        return Err(field_required("pack.version"));
    }
    if is_blank(m.group.as_str()) {
        return Err(field_required("pack.group"));
    }
    if is_blank(m.minecraft.as_str()) {
        return Err(field_required("pack.minecraft"));
    }
    if is_blank(m.loader_version.as_str()) {
        return Err(field_required("pack.loader_version"));
    }
    if !str_eq(m.loader.as_str(), "fabric") {
        return Err(Error::new1(ErrorKind::UnsupportedLoader, m.loader.clone()));
    }
    Ok(())
}

#[verifier::loop_isolation(false)]
fn check_file(files: &Vec<FileSpec>, i: usize) -> (r: Result<(), Error>)
    requires
        i < files@.len(),
    ensures
        outcome(r) == as_result(file_problem(files@[i as int], files@.subrange(0, i as int))),
{
    let f = &files[i];
    match check_pack_path(f.path.as_str()) {
        Err(e) => return Err(e),
        Ok(()) => {},
    }
    if f.downloads.len() == 0 {
        return Err(Error::new1(ErrorKind::NoDownloads, f.path.clone()));
    }
    let mut k: usize = 0;
    while k < f.downloads.len()
        invariant
            k <= f.downloads@.len(),
            first_bad_download(f.downloads@.subrange(0, k as int)) is None,
        decreases f.downloads@.len() - k,
    {
        let url = f.downloads[k].as_str();
        assert(f.downloads@.subrange(0, k + 1).drop_last() =~= f.downloads@.subrange(0, k as int));
        if !(starts_with(url, "https://") || starts_with(url, "file:")) {
            proof {
                lemma_first_bad_prefix(f.downloads@, k as int + 1);
            }
            return Err(Error::new2(ErrorKind::DownloadNotHttps, f.path.clone(), f.downloads[k].clone()));
        }
        k = k + 1;
    }
    proof {
        assert(f.downloads@.subrange(0, k as int) =~= f.downloads@);
    }
    if f.sha1.as_str().len() != 40 || f.sha512.as_str().len() != 128 {
        return Err(Error::new1(ErrorKind::MissingPins, f.path.clone()));
    }
    let mut j: usize = 0;
    while j < i
        invariant
            i < files@.len(),
            j <= i,
            f == files@[i as int],
            forall|t: int| 0 <= t < j ==> files@[t].path@ != f.path@,
        decreases i - j,
    {
        if str_eq(files[j].path.as_str(), f.path.as_str()) {
            assert(files@.subrange(0, i as int)[j as int] == files@[j as int]);
            return Err(Error::new1(ErrorKind::DuplicatePath, f.path.clone()));
        }
        j = j + 1;
    }
    assert(!has_path(files@.subrange(0, i as int), f.path@));
    Ok(())
}

/// When a prefix of `urls` holds a bad download, the whole list's first bad
/// download is the prefix's.
proof fn lemma_first_bad_prefix(urls: Seq<String>, n: int)
    requires
        0 <= n <= urls.len(),
        first_bad_download(urls.subrange(0, n)) is Some,
    ensures
        first_bad_download(urls) == first_bad_download(urls.subrange(0, n)),
    decreases urls.len() - n,
{
    if n < urls.len() {
        assert(urls.drop_last().subrange(0, n) =~= urls.subrange(0, n));
        lemma_first_bad_prefix(urls.drop_last(), n);
    } else {
        assert(urls.subrange(0, n) =~= urls);
    }
}

/// Checks a pack: its metadata, then each file in order.
#[verifier::loop_isolation(false)]
fn check_pack(m: &PackMeta, files: &Vec<FileSpec>) -> (r: Result<(), Error>)
    ensures
        outcome(r) == as_result(pack_problem(*m, files@)),
{
    match check_meta(m) {
        Err(e) => return Err(e),
        Ok(()) => {},
    }
    if files.len() == 0 {
        return Err(Error::new0(ErrorKind::NoFiles));
    }
    let mut i: usize = 0;
    while i < files.len()
        invariant
            i <= files@.len(),
            files_problem(files@.subrange(0, i as int)) is None,
        decreases files@.len() - i,
    {
        assert(files@.subrange(0, i + 1).drop_last() =~= files@.subrange(0, i as int));
        match check_file(files, i) {
            Err(e) => {
                proof {
                    lemma_files_problem_prefix(files@, i + 1);
                }
                return Err(e);
            },
            Ok(()) => {},
        }
        i = i + 1;
    }
    assert(files@.subrange(0, i as int) =~= files@);
    Ok(())
}

/// When a prefix of `files` has a problem, it is the first problem of all.
proof fn lemma_files_problem_prefix(files: Seq<FileSpec>, n: int)
    requires
        0 <= n <= files.len(),
        files_problem(files.subrange(0, n)) is Some,
    ensures
        files_problem(files) == files_problem(files.subrange(0, n)),
    decreases files.len() - n,
{
    if n < files.len() {
        assert(files.drop_last().subrange(0, n) =~= files.subrange(0, n));
        lemma_files_problem_prefix(files.drop_last(), n);
    } else {
        assert(files.subrange(0, n) =~= files);
    }
}

impl PackSpec {
    /// Checks the pack: required fields, Fabric as loader, at least one file,
    /// and for each file a clean pack path, a download over HTTPS or from a
    /// local file, full SHA-1 and SHA-512 pins, and no path twice.
    pub fn validate(&self) -> (r: Result<(), Error>)
        ensures
            outcome(r) == as_result(pack_problem(self.pack, self.file@)),
    {
        check_pack(&self.pack, &self.file)
    }

    pub fn mrpack_name(&self) -> (r: String)
        ensures
            r@ == mrpack_file_name(self.pack),
    {
        self.pack.mrpack_name()
    }
}

/// `<slug>-<version>.mrpack`.
pub open spec fn mrpack_file_name(m: PackMeta) -> Seq<char> {
    m.slug@ + "-"@ + m.version@ + ".mrpack"@
}

impl PackMeta {
    pub fn mrpack_name(&self) -> (r: String)
        ensures
            r@ == mrpack_file_name(*self),
    {
        let mut s = self.slug.clone();
        s.append("-");
        s.append(self.version.as_str());
        s.append(".mrpack");
        s
    }
}

// ---------------------------------------------------------------- the lockfile

/// Some file of `files` is pinned at `path` with SHA-1 `sha1`.
pub open spec fn pinned(files: Seq<FileSpec>, path: Seq<char>, sha1: Seq<char>) -> bool {
    exists|j: int| 0 <= j < files.len() && files[j].path@ == path && files[j].sha1@ == sha1
}

/// Some mapping of `maps` is for the path `p`.
pub open spec fn maps_path(maps: Seq<CurseForgeFile>, p: Seq<char>) -> bool {
    exists|j: int| 0 <= j < maps.len() && maps[j].path@ == p
}

/// What is wrong with CurseForge mapping `m`, given the pinned files and the
/// mappings listed before it.
pub open spec fn mapping_problem(
    m: CurseForgeFile,
    earlier: Seq<CurseForgeFile>,
    files: Seq<FileSpec>,
) -> Option<Failure> {
    match pack_path_result(m.path@) {
        Err(e) => Some(e),
        Ok(_) => if m.project_id == 0 || m.file_id == 0 {
            Some(failure(ErrorKind::InvalidCurseForgeId, seq![m.path@]))
        } else if !pinned(files, m.path@, m.sha1@) {
            Some(failure(ErrorKind::StaleMapping, seq![m.path@]))
        } else if maps_path(earlier, m.path@) {
            Some(failure(ErrorKind::DuplicateMapping, seq![m.path@]))
        } else {
            None
        },
    }
}

/// The first problem among the mappings `maps`.
pub open spec fn mappings_problem(maps: Seq<CurseForgeFile>, files: Seq<FileSpec>) -> Option<
    Failure,
>
    decreases maps.len(),
{
    if maps.len() == 0 {
        None
    } else {
        match mappings_problem(maps.drop_last(), files) {
            Some(e) => Some(e),
            None => mapping_problem(maps.last(), maps.drop_last(), files),
        }
    }
}

/// The first problem of a lockfile.
/// The lockfile formats this tool reads: version 1, and version 2, which
/// the pack's current lockfile uses.
pub open spec fn supported_lock_version(v: u32) -> bool {
    v == 1 || v == 2
}

pub open spec fn lock_problem(l: Lockfile) -> Option<Failure> {
    if !supported_lock_version(l.version) {
        Some(failure(ErrorKind::UnsupportedLockVersion, seq![decimal(l.version as nat)]))
    } else {
        match pack_problem(l.pack, l.file@) {
            Some(e) => Some(e),
            None => mappings_problem(l.curseforge@, l.file@),
        }
    }
}

proof fn lemma_mappings_problem_prefix(maps: Seq<CurseForgeFile>, files: Seq<FileSpec>, n: int)
    requires
        0 <= n <= maps.len(),
        mappings_problem(maps.subrange(0, n), files) is Some,
    ensures
        mappings_problem(maps, files) == mappings_problem(maps.subrange(0, n), files),
    decreases maps.len() - n,
{
    if n < maps.len() {
        assert(maps.drop_last().subrange(0, n) =~= maps.subrange(0, n));
        lemma_mappings_problem_prefix(maps.drop_last(), files, n);
    } else {
        assert(maps.subrange(0, n) =~= maps);
    }
}

/// Whether some file is pinned at `path` with `sha1`.
fn is_pinned(files: &Vec<FileSpec>, path: &str, sha1: &str) -> (r: bool)
    ensures
        r == pinned(files@, path@, sha1@),
{
    let mut j: usize = 0;
    while j < files.len()
        invariant
            j <= files@.len(),
            forall|t: int| 0 <= t < j ==> !(files@[t].path@ == path@ && files@[t].sha1@ == sha1@),
        decreases files@.len() - j,
    {
        if str_eq(files[j].path.as_str(), path) && str_eq(files[j].sha1.as_str(), sha1) {
            return true;
        }
        j = j + 1;
    }
    false
}

#[verifier::loop_isolation(false)]
fn check_mapping(maps: &Vec<CurseForgeFile>, i: usize, files: &Vec<FileSpec>) -> (r: Result<
    (),
    Error,
>)
    requires
        i < maps@.len(),
    ensures
        outcome(r) == as_result(
            mapping_problem(maps@[i as int], maps@.subrange(0, i as int), files@),
        ),
{
    let m = &maps[i];
    match check_pack_path(m.path.as_str()) {
        Err(e) => return Err(e),
        Ok(()) => {},
    }
    if m.project_id == 0 || m.file_id == 0 {
        return Err(Error::new1(ErrorKind::InvalidCurseForgeId, m.path.clone()));
    }
    if !is_pinned(files, m.path.as_str(), m.sha1.as_str()) {
        return Err(Error::new1(ErrorKind::StaleMapping, m.path.clone()));
    }
    let mut j: usize = 0;
    while j < i
        invariant
            i < maps@.len(),
            j <= i,
            m == maps@[i as int],
            forall|t: int| 0 <= t < j ==> maps@[t].path@ != m.path@,
        decreases i - j,
    {
        if str_eq(maps[j].path.as_str(), m.path.as_str()) {
            assert(maps@.subrange(0, i as int)[j as int] == maps@[j as int]);
            return Err(Error::new1(ErrorKind::DuplicateMapping, m.path.clone()));
        }
        j = j + 1;
    }
    assert(!maps_path(maps@.subrange(0, i as int), m.path@));
    Ok(())
}

impl Lockfile {
    /// The lockfile of a freshly resolved pack: version 1, no CurseForge IDs.
    pub fn from_spec(spec: PackSpec) -> (r: Self)
        ensures
            r.version == 1,
            r.pack == spec.pack,
            r.file == spec.file,
            r.curseforge@.len() == 0,
    {
        Lockfile { version: 1, pack: spec.pack, file: spec.file, curseforge: Vec::new() }
    }

    /// Keeps those CurseForge mappings of `previous` whose path and SHA-1 are
    /// still pinned by this lockfile's files, in their order.
    pub fn retain_curseforge_from(&mut self, previous: &Self)
        ensures
            final(self).version == old(self).version,
            final(self).pack == old(self).pack,
            final(self).file == old(self).file,
            final(self).curseforge@ == previous.curseforge@.filter(
                |m: CurseForgeFile| pinned(old(self).file@, m.path@, m.sha1@),
            ),
    {
        let ghost keep = |m: CurseForgeFile| pinned(self.file@, m.path@, m.sha1@);
        let mut kept: Vec<CurseForgeFile> = Vec::new();
        let mut i: usize = 0;
        while i < previous.curseforge.len()
            invariant
                i <= previous.curseforge@.len(),
                keep == (|m: CurseForgeFile| pinned(self.file@, m.path@, m.sha1@)),
                kept@ == previous.curseforge@.subrange(0, i as int).filter(keep),
            decreases previous.curseforge@.len() - i,
        {
            let m = &previous.curseforge[i];
            proof {
                reveal_with_fuel(Seq::<_>::filter, 1);
                assert(previous.curseforge@.subrange(0, i + 1).drop_last()
                    =~= previous.curseforge@.subrange(0, i as int));
            }
            if is_pinned(&self.file, m.path.as_str(), m.sha1.as_str()) {
                kept.push(m.copy());
            }
            i = i + 1;
        }
        assert(previous.curseforge@.subrange(0, i as int) =~= previous.curseforge@);
        self.curseforge = kept;
    }

    /// Checks a lockfile read from disk: version 1 or 2, the full pack validation,
    /// then each CurseForge mapping: a clean path, nonzero IDs, a path and
    /// SHA-1 still pinned, and no path mapped twice.
    #[verifier::loop_isolation(false)]
    pub fn validate(&self) -> (r: Result<(), Error>)
        ensures
            outcome(r) == as_result(lock_problem(*self)),
    {
        if !(self.version == 1 || self.version == 2) {
            return Err(
                Error::new1(ErrorKind::UnsupportedLockVersion, decimal_string(self.version as u64)),
            );
        }
        match check_pack(&self.pack, &self.file) {
            Err(e) => return Err(e),
            Ok(()) => {},
        }
        let mut i: usize = 0;
        while i < self.curseforge.len()
            invariant
                i <= self.curseforge@.len(),
                mappings_problem(self.curseforge@.subrange(0, i as int), self.file@) is None,
            decreases self.curseforge@.len() - i,
        {
            assert(self.curseforge@.subrange(0, i + 1).drop_last() =~= self.curseforge@.subrange(
                0,
                i as int,
            ));
            match check_mapping(&self.curseforge, i, &self.file) {
                Err(e) => {
                    proof {
                        lemma_mappings_problem_prefix(self.curseforge@, self.file@, i + 1);
                    }
                    return Err(e);
                },
                Ok(()) => {},
            }
            i = i + 1;
        }
        assert(self.curseforge@.subrange(0, i as int) =~= self.curseforge@);
        Ok(())
    }
}

/// The file loads on the dedicated server.
pub open spec fn is_server_file(f: FileSpec) -> bool {
    f.env.server != SideRequirement::Unsupported
}

/// The file loads on the client.
pub open spec fn is_client_file(f: FileSpec) -> bool {
    f.env.client != SideRequirement::Unsupported
}

pub fn server_file(file: &FileSpec) -> (r: bool)
    ensures
        r == is_server_file(*file),
{
    file.env.server != SideRequirement::Unsupported
}

pub fn client_file(file: &FileSpec) -> (r: bool)
    ensures
        r == is_client_file(*file),
{
    file.env.client != SideRequirement::Unsupported
}

} // verus!

verus! {

// ---------------------------------------------------------------- laws

/// A lockfile made from a pack that validates, as `Lockfile::from_spec` makes
/// it, validates too.
pub proof fn law_fresh_lock_validates(spec: PackSpec, lock: Lockfile)
    requires
        pack_problem(spec.pack, spec.file@) is None,
        supported_lock_version(lock.version),
        lock.pack == spec.pack,
        lock.file == spec.file,
        lock.curseforge@.len() == 0,
    ensures
        lock_problem(lock) is None,
{
}

/// No two mappings name the same path.
pub open spec fn distinct_mapping_paths(maps: Seq<CurseForgeFile>) -> bool {
    forall|i: int, j: int| 0 <= i < j < maps.len() ==> maps[i].path@ != maps[j].path@
}

/// Each mapping has a clean path, nonzero IDs and a pin among `files`.
pub open spec fn mappings_sound(maps: Seq<CurseForgeFile>, files: Seq<FileSpec>) -> bool {
    forall|i: int|
        0 <= i < maps.len() ==> {
            &&& valid_pack_path(#[trigger] maps[i].path@)
            &&& maps[i].project_id != 0
            &&& maps[i].file_id != 0
            &&& pinned(files, maps[i].path@, maps[i].sha1@)
        }
}

proof fn lemma_mappings_problem_none(maps: Seq<CurseForgeFile>, files: Seq<FileSpec>)
    requires
        distinct_mapping_paths(maps),
        mappings_sound(maps, files),
    ensures
        mappings_problem(maps, files) is None,
    decreases maps.len(),
{
    if maps.len() > 0 {
        let init = maps.drop_last();
        assert(mappings_sound(init, files)) by {
            assert forall|i: int| 0 <= i < init.len() implies {
                &&& valid_pack_path(#[trigger] init[i].path@)
                &&& init[i].project_id != 0
                &&& init[i].file_id != 0
                &&& pinned(files, init[i].path@, init[i].sha1@)
            } by {
                assert(init[i] == maps[i]);
            }
        }
        lemma_mappings_problem_none(init, files);
        let last = maps.last();
        assert(valid_pack_path(maps[maps.len() - 1].path@));
        assert(!maps_path(init, last.path@)) by {
            if maps_path(init, last.path@) {
                let j = choose|j: int| 0 <= j < init.len() && init[j].path@ == last.path@;
                assert(maps[j].path@ != maps[maps.len() - 1].path@);
            }
        }
    }
}

proof fn lemma_mappings_problem_none_conv(maps: Seq<CurseForgeFile>, files: Seq<FileSpec>)
    requires
        mappings_problem(maps, files) is None,
    ensures
        distinct_mapping_paths(maps),
        mappings_sound(maps, files),
    decreases maps.len(),
{
    if maps.len() > 0 {
        let init = maps.drop_last();
        lemma_mappings_problem_none_conv(init, files);
        let n = maps.len() - 1;
        assert forall|i: int, j: int| 0 <= i < j < maps.len() implies maps[i].path@
            != maps[j].path@ by {
            if j == n {
                assert(init[i] == maps[i]);
                if maps[i].path@ == maps[j].path@ {
                    assert(maps_path(init, maps.last().path@));
                }
            } else {
                assert(init[i] == maps[i] && init[j] == maps[j]);
            }
        }
        assert forall|i: int| 0 <= i < maps.len() implies {
            &&& valid_pack_path(#[trigger] maps[i].path@)
            &&& maps[i].project_id != 0
            &&& maps[i].file_id != 0
            &&& pinned(files, maps[i].path@, maps[i].sha1@)
        } by {
            if i < n {
                assert(init[i] == maps[i]);
            }
        }
    }
}

proof fn lemma_filter_keeps_distinct(
    maps: Seq<CurseForgeFile>,
    keep: spec_fn(CurseForgeFile) -> bool,
)
    requires
        distinct_mapping_paths(maps),
    ensures
        distinct_mapping_paths(maps.filter(keep)),
        forall|i: int|
            0 <= i < maps.filter(keep).len() ==> maps.contains(#[trigger] maps.filter(keep)[i]),
    decreases maps.len(),
{
    reveal_with_fuel(Seq::<_>::filter, 1);
    if maps.len() > 0 {
        let init = maps.drop_last();
        assert(distinct_mapping_paths(init)) by {
            assert forall|i: int, j: int| 0 <= i < j < init.len() implies init[i].path@
                != init[j].path@ by {
                assert(init[i] == maps[i] && init[j] == maps[j]);
            }
        }
        lemma_filter_keeps_distinct(init, keep);
        let fi = init.filter(keep);
        let f = maps.filter(keep);
        assert forall|i: int| 0 <= i < f.len() implies maps.contains(#[trigger] f[i]) by {
            if i < fi.len() {
                assert(f[i] == fi[i]);
                assert(init.contains(fi[i]));
                let k = choose|k: int| 0 <= k < init.len() && init[k] == fi[i];
                assert(maps[k] == init[k]);
            } else {
                assert(f[i] == maps[maps.len() - 1]);
            }
        }
        assert forall|i: int, j: int| 0 <= i < j < f.len() implies f[i].path@ != f[j].path@ by {
            if j < fi.len() {
                assert(f[i] == fi[i] && f[j] == fi[j]);
            } else {
                assert(f[j] == maps.last());
                assert(f[i] == fi[i]);
                assert(init.contains(fi[i]));
                let k = choose|k: int| 0 <= k < init.len() && init[k] == fi[i];
                assert(maps[k] == init[k]);
            }
        }
    }
}

/// Retaining the CurseForge IDs of a valid lockfile for a pack that
/// validates, as `Lockfile::retain_curseforge_from` does, gives a lockfile
/// that validates: no retained mapping is stale or repeated.
pub proof fn law_retained_mappings_validate(previous: Lockfile, lock: Lockfile)
    requires
        lock_problem(previous) is None,
        lock.version == 1,
        pack_problem(lock.pack, lock.file@) is None,
        lock.curseforge@ == previous.curseforge@.filter(
            |m: CurseForgeFile| pinned(lock.file@, m.path@, m.sha1@),
        ),
    ensures
        lock_problem(lock) is None,
{
    let keep = |m: CurseForgeFile| pinned(lock.file@, m.path@, m.sha1@);
    lemma_mappings_problem_none_conv(previous.curseforge@, previous.file@);
    lemma_filter_keeps_distinct(previous.curseforge@, keep);
    let maps = lock.curseforge@;
    assert forall|i: int| 0 <= i < maps.len() implies {
        &&& valid_pack_path(#[trigger] maps[i].path@)
        &&& maps[i].project_id != 0
        &&& maps[i].file_id != 0
        &&& pinned(lock.file@, maps[i].path@, maps[i].sha1@)
    } by {
        previous.curseforge@.lemma_filter_pred(keep, i);
        assert(previous.curseforge@.contains(maps[i]));
        let k = choose|k: int|
            0 <= k < previous.curseforge@.len() && previous.curseforge@[k] == maps[i];
        assert(valid_pack_path(previous.curseforge@[k].path@));
    }
    lemma_mappings_problem_none(maps, lock.file@);
}

} // verus!

verus! {

/// A lockfile is held to every rule of `pack.toml`: where its pack and files
/// would fail as a spec, the lockfile fails too.
pub proof fn law_lock_checks_include_spec_checks(lock: Lockfile)
    requires
        pack_problem(lock.pack, lock.file@) is Some,
    ensures
        lock_problem(lock) is Some,
{
}

} // verus!
