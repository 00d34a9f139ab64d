//! The CurseForge edition: which files `platforms.toml` adds or excludes,
//! the IDs that Packwiz found, and the CurseForge pack index made from the lock.

use crate::error::{failure, outcome, Error, ErrorKind, Failure};
use crate::text::file_name;
use crate::order::{
    is_permutation, stable_order, stable_order_u64, stably_sorted, stably_sorted_nat,
};
use crate::spec::{
    as_result, check_pack_path, client_file, is_client_file, pack_path_result, CurseForgeFile,
    FileSpec, Lockfile, SideRequirement,
};
use crate::text::{is_blank, path_file_name, seq_is_blank, str_eq, string_from};
use crate::verify::{entries_view, find_entry_named, has_entry, ArchiveEntry};
use crate::authoring::{find_from, find_from_exec};
use crate::text::{chars_of, decimal, decimal_string, push_toml_string, toml_quoted};
use vstd::prelude::*;

verus! {

/// The `[curseforge]` table of `platforms.toml`.
#[derive(Debug, Clone)]
pub struct Config {
    pub packwiz_commit: String,
    pub author: String,
    pub add: Vec<ExplicitFile>,
    pub exclude: Vec<ExcludedFile>,
}

/// A file whose CurseForge IDs are given by hand.
#[derive(Debug, Clone)]
pub struct ExplicitFile {
    pub path: String,
    pub project_id: u32,
    pub file_id: u32,
}

/// A client-only file left out of the CurseForge edition, with the reason.
#[derive(Debug, Clone)]
pub struct ExcludedFile {
    pub path: String,
    pub reason: String,
}

/// The last client file of `files` at `path`, as a map from path to the
/// lockfile's client files holds it.
pub open spec fn client_entry(files: Seq<FileSpec>, path: Seq<char>) -> Option<FileSpec>
    decreases files.len(),
{
    if files.len() == 0 {
        None
    } else if is_client_file(files.last()) && files.last().path@ == path {
        Some(files.last())
    } else {
        client_entry(files.drop_last(), path)
    }
}

fn find_client_file(files: &Vec<FileSpec>, path: &str) -> (r: Option<usize>)
    ensures
        match r {
            Some(i) => i < files@.len() && client_entry(files@, path@) == Some(files@[i as int]),
            None => client_entry(files@, path@) is None,
        },
{
    let mut n = files.len();
    assert(files@.subrange(0, n as int) =~= files@);
    while n > 0
        invariant
            n <= files@.len(),
            client_entry(files@, path@) == client_entry(files@.subrange(0, n as int), path@),
        decreases n,
    {
        let ghost pre = files@.subrange(0, n as int);
        assert(pre.last() == files@[n - 1]);
        if client_file(&files[n - 1]) && str_eq(files[n - 1].path.as_str(), path) {
            return Some(n - 1);
        }
        assert(pre.drop_last() =~= files@.subrange(0, n - 1));
        n = n - 1;
    }
    None
}

/// Some addition of `adds` is for `path`.
pub open spec fn adds_path(adds: Seq<ExplicitFile>, path: Seq<char>) -> bool {
    exists|j: int| 0 <= j < adds.len() && adds[j].path@ == path
}

/// Some exclusion of `xs` is for `path`.
pub open spec fn excludes_path(xs: Seq<ExcludedFile>, path: Seq<char>) -> bool {
    exists|j: int| 0 <= j < xs.len() && xs[j].path@ == path
}

/// What is wrong with an addition, given the additions before it.
pub open spec fn add_problem(a: ExplicitFile, earlier: Seq<ExplicitFile>, files: Seq<FileSpec>) -> Option<
    Failure,
> {
    match pack_path_result(a.path@) {
        Err(e) => Some(e),
        Ok(_) => if client_entry(files, a.path@) is None {
            Some(failure(ErrorKind::AddNotClientFile, seq![a.path@]))
        } else if a.project_id == 0 || a.file_id == 0 {
            Some(failure(ErrorKind::AddInvalidId, seq![a.path@]))
        } else if adds_path(earlier, a.path@) {
            Some(failure(ErrorKind::AddDuplicate, seq![a.path@]))
        } else {
            None
        },
    }
}

/// The first problem among the additions.
pub open spec fn adds_problem(adds: Seq<ExplicitFile>, files: Seq<FileSpec>) -> Option<Failure>
    decreases adds.len(),
{
    if adds.len() == 0 {
        None
    } else {
        match adds_problem(adds.drop_last(), files) {
            Some(e) => Some(e),
            None => add_problem(adds.last(), adds.drop_last(), files),
        }
    }
}

/// What is wrong with an exclusion, given all additions and the exclusions
/// before it.
pub open spec fn exclude_problem(
    x: ExcludedFile,
    earlier: Seq<ExcludedFile>,
    adds: Seq<ExplicitFile>,
    files: Seq<FileSpec>,
) -> Option<Failure> {
    match pack_path_result(x.path@) {
        Err(e) => Some(e),
        Ok(_) => match client_entry(files, x.path@) {
            None => Some(failure(ErrorKind::ExcludeNotClientFile, seq![x.path@])),
            Some(locked) => if locked.env.server != SideRequirement::Unsupported {
                Some(failure(ErrorKind::ExcludeServerFile, seq![x.path@]))
            } else if seq_is_blank(x.reason@) {
                Some(failure(ErrorKind::ExcludeNoReason, seq![x.path@]))
            } else if adds_path(adds, x.path@) {
                Some(failure(ErrorKind::AddAndExclude, seq![x.path@]))
            } else if excludes_path(earlier, x.path@) {
                Some(failure(ErrorKind::ExcludeDuplicate, seq![x.path@]))
            } else {
                None
            },
        },
    }
}

/// The first problem among the exclusions.
pub open spec fn excludes_problem(
    xs: Seq<ExcludedFile>,
    adds: Seq<ExplicitFile>,
    files: Seq<FileSpec>,
) -> Option<Failure>
    decreases xs.len(),
{
    if xs.len() == 0 {
        None
    } else {
        match excludes_problem(xs.drop_last(), adds, files) {
            Some(e) => Some(e),
            None => exclude_problem(xs.last(), xs.drop_last(), adds, files),
        }
    }
}

/// The first problem of `platforms.toml` against the lockfile: additions
/// first, then exclusions.
pub open spec fn config_problem(c: Config, lock: Lockfile) -> Option<Failure> {
    match adds_problem(c.add@, lock.file@) {
        Some(e) => Some(e),
        None => excludes_problem(c.exclude@, c.add@, lock.file@),
    }
}

/// `out` is `keys` as a stable sort orders them.
pub open spec fn sorted_copy(out: Seq<Seq<char>>, keys: Seq<Seq<char>>) -> bool {
    exists|p: Seq<usize>|
        {
            &&& is_permutation(p, keys.len())
            &&& stably_sorted(p, keys)
            &&& out.len() == p.len()
            &&& forall|k: int| 0 <= k < p.len() ==> out[k] == keys[p[k] as int]
        }
}

proof fn lemma_adds_prefix(adds: Seq<ExplicitFile>, files: Seq<FileSpec>, n: int)
    requires
        0 <= n <= adds.len(),
        adds_problem(adds.subrange(0, n), files) is Some,
    ensures
        adds_problem(adds, files) == adds_problem(adds.subrange(0, n), files),
    decreases adds.len() - n,
{
    if n < adds.len() {
        assert(adds.drop_last().subrange(0, n) =~= adds.subrange(0, n));
        lemma_adds_prefix(adds.drop_last(), files, n);
    } else {
        assert(adds.subrange(0, n) =~= adds);
    }
}

proof fn lemma_excludes_prefix(
    xs: Seq<ExcludedFile>,
    adds: Seq<ExplicitFile>,
    files: Seq<FileSpec>,
    n: int,
)
    requires
        0 <= n <= xs.len(),
        excludes_problem(xs.subrange(0, n), adds, files) is Some,
    ensures
        excludes_problem(xs, adds, files) == excludes_problem(xs.subrange(0, n), adds, files),
    decreases xs.len() - n,
{
    if n < xs.len() {
        assert(xs.drop_last().subrange(0, n) =~= xs.subrange(0, n));
        lemma_excludes_prefix(xs.drop_last(), adds, files, n);
    } else {
        assert(xs.subrange(0, n) =~= xs);
    }
}

#[verifier::loop_isolation(false)]
fn check_add(adds: &Vec<ExplicitFile>, i: usize, files: &Vec<FileSpec>) -> (r: Result<(), Error>)
    requires
        i < adds@.len(),
    ensures
        outcome(r) == as_result(add_problem(adds@[i as int], adds@.subrange(0, i as int), files@)),
{
    let a = &adds[i];
    match check_pack_path(a.path.as_str()) {
        Err(e) => return Err(e),
        Ok(()) => {},
    }
    if find_client_file(files, a.path.as_str()).is_none() {
        return Err(Error::new1(ErrorKind::AddNotClientFile, a.path.clone()));
    }
    if a.project_id == 0 || a.file_id == 0 {
        return Err(Error::new1(ErrorKind::AddInvalidId, a.path.clone()));
    }
    let mut j: usize = 0;
    while j < i
        invariant
            j <= i,
            forall|t: int| 0 <= t < j ==> adds@[t].path@ != a.path@,
        decreases i - j,
    {
        if str_eq(adds[j].path.as_str(), a.path.as_str()) {
            assert(adds@.subrange(0, i as int)[j as int] == adds@[j as int]);
            return Err(Error::new1(ErrorKind::AddDuplicate, a.path.clone()));
        }
        j = j + 1;
    }
    assert(!adds_path(adds@.subrange(0, i as int), a.path@));
    Ok(())
}

fn has_add(adds: &Vec<ExplicitFile>, path: &str) -> (r: bool)
    ensures
        r == adds_path(adds@, path@),
{
    let mut j: usize = 0;
    while j < adds.len()
        invariant
            j <= adds@.len(),
            forall|t: int| 0 <= t < j ==> adds@[t].path@ != path@,
        decreases adds@.len() - j,
    {
        if str_eq(adds[j].path.as_str(), path) {
            return true;
        }
        j = j + 1;
    }
    false
}

#[verifier::loop_isolation(false)]
fn check_exclude(
    xs: &Vec<ExcludedFile>,
    i: usize,
    adds: &Vec<ExplicitFile>,
    files: &Vec<FileSpec>,
) -> (r: Result<(), Error>)
    requires
        i < xs@.len(),
    ensures
        outcome(r) == as_result(
            exclude_problem(xs@[i as int], xs@.subrange(0, i as int), adds@, files@),
        ),
{
    let x = &xs[i];
    match check_pack_path(x.path.as_str()) {
        Err(e) => return Err(e),
        Ok(()) => {},
    }
    let locked = match find_client_file(files, x.path.as_str()) {
        None => return Err(Error::new1(ErrorKind::ExcludeNotClientFile, x.path.clone())),
        Some(k) => &files[k],
    };
    if locked.env.server != SideRequirement::Unsupported {
        return Err(Error::new1(ErrorKind::ExcludeServerFile, x.path.clone()));
    }
    if is_blank(x.reason.as_str()) {
        return Err(Error::new1(ErrorKind::ExcludeNoReason, x.path.clone()));
    }
    if has_add(adds, x.path.as_str()) {
        return Err(Error::new1(ErrorKind::AddAndExclude, x.path.clone()));
    }
    let mut j: usize = 0;
    while j < i
        invariant
            j <= i,
            forall|t: int| 0 <= t < j ==> xs@[t].path@ != x.path@,
        decreases i - j,
    {
        if str_eq(xs[j].path.as_str(), x.path.as_str()) {
            assert(xs@.subrange(0, i as int)[j as int] == xs@[j as int]);
            return Err(Error::new1(ErrorKind::ExcludeDuplicate, x.path.clone()));
        }
        j = j + 1;
    }
    assert(!excludes_path(xs@.subrange(0, i as int), x.path@));
    Ok(())
}

/// Checks `platforms.toml` against the lockfile. Each addition must name a
/// locked client file by a clean path, with nonzero IDs, once; each
/// exclusion must name a locked client-only file, give a reason, not also be
/// added, and come once. Returns the excluded paths, sorted.
#[verifier::loop_isolation(false)]
pub fn validate_config(config: &Config, lock: &Lockfile) -> (r: Result<Vec<String>, Error>)
    ensures
        match config_problem(*config, *lock) {
            Some(e) => r matches Err(x) && x@ == e,
            None => r matches Ok(v) && sorted_copy(
                v@.map_values(|s: String| s@),
                config.exclude@.map_values(|x: ExcludedFile| x.path@),
            ),
        },
{
    let mut i: usize = 0;
    while i < config.add.len()
        invariant
            i <= config.add@.len(),
            adds_problem(config.add@.subrange(0, i as int), lock.file@) is None,
        decreases config.add@.len() - i,
    {
        assert(config.add@.subrange(0, i + 1).drop_last() =~= config.add@.subrange(0, i as int));
        match check_add(&config.add, i, &lock.file) {
            Err(e) => {
                proof {
                    lemma_adds_prefix(config.add@, lock.file@, i + 1);
                }
                return Err(e);
            },
            Ok(()) => {},
        }
        i = i + 1;
    }
    assert(config.add@.subrange(0, i as int) =~= config.add@);
    let mut keys: Vec<String> = Vec::new();
    let mut i: usize = 0;
    while i < config.exclude.len()
        invariant
            i <= config.exclude@.len(),
            adds_problem(config.add@, lock.file@) is None,
            excludes_problem(config.exclude@.subrange(0, i as int), config.add@, lock.file@)
                is None,
            keys@.len() == i,
            forall|k: int| 0 <= k < i ==> #[trigger] keys@[k]@ == config.exclude@[k].path@,
        decreases config.exclude@.len() - i,
    {
        assert(config.exclude@.subrange(0, i + 1).drop_last() =~= config.exclude@.subrange(
            0,
            i as int,
        ));
        match check_exclude(&config.exclude, i, &config.add, &lock.file) {
            Err(e) => {
                proof {
                    lemma_excludes_prefix(config.exclude@, config.add@, lock.file@, i + 1);
                }
                return Err(e);
            },
            Ok(()) => {},
        }
        keys.push(config.exclude[i].path.clone());
        i = i + 1;
    }
    assert(config.exclude@.subrange(0, i as int) =~= config.exclude@);
    let ghost paths = config.exclude@.map_values(|x: ExcludedFile| x.path@);
    assert(keys@.map_values(|k: String| k@) =~= paths);
    let order = stable_order(&keys);
    let mut out: Vec<String> = Vec::new();
    let mut k: usize = 0;
    while k < order.len()
        invariant
            k <= order@.len(),
            is_permutation(order@, keys@.len()),
            out@.len() == k,
            forall|t: int| 0 <= t < k ==> #[trigger] out@[t]@ == paths[order@[t] as int],
        decreases order@.len() - k,
    {
        out.push(keys[order[k]].clone());
        k = k + 1;
    }
    assert(sorted_copy(out@.map_values(|s: String| s@), paths)) by {
        assert(forall|t: int|
            0 <= t < order@.len() ==> out@.map_values(|s: String| s@)[t] == paths[order@[t] as int]);
    }
    Ok(out)
}

} // verus!

verus! {

/// The CurseForge pack index of the edition.
#[derive(Debug, Clone, PartialEq, Eq)]
pub struct Manifest {
    pub minecraft: Minecraft,
    pub manifest_type: String,
    pub manifest_version: u32,
    pub name: String,
    pub version: String,
    pub author: String,
    pub files: Vec<ManifestFile>,
    pub overrides: String,
}

#[derive(Debug, Clone, PartialEq, Eq)]
pub struct Minecraft {
    pub version: String,
    pub mod_loaders: Vec<ModLoader>,
}

#[derive(Debug, Clone, PartialEq, Eq)]
pub struct ModLoader {
    pub id: String,
    pub primary: bool,
}

/// One CurseForge file of the edition.
#[derive(Debug, Clone, Copy, PartialEq, Eq, Structural)]
pub struct ManifestFile {
    pub project_id: u32,
    pub file_id: u32,
    pub required: bool,
}

/// The mapping for `path`: the last one, as a map keyed by path keeps it.
pub open spec fn mapping_for(maps: Seq<CurseForgeFile>, path: Seq<char>) -> Option<CurseForgeFile>
    decreases maps.len(),
{
    if maps.len() == 0 {
        None
    } else if maps.last().path@ == path {
        Some(maps.last())
    } else {
        mapping_for(maps.drop_last(), path)
    }
}

fn find_mapping(maps: &Vec<CurseForgeFile>, path: &str) -> (r: Option<usize>)
    ensures
        match r {
            Some(i) => i < maps@.len() && mapping_for(maps@, path@) == Some(maps@[i as int]),
            None => mapping_for(maps@, path@) is None,
        },
{
    let mut n = maps.len();
    assert(maps@.subrange(0, n as int) =~= maps@);
    while n > 0
        invariant
            n <= maps@.len(),
            mapping_for(maps@, path@) == mapping_for(maps@.subrange(0, n as int), path@),
        decreases n,
    {
        let ghost pre = maps@.subrange(0, n as int);
        assert(pre.last() == maps@[n - 1]);
        if str_eq(maps[n - 1].path.as_str(), path) {
            return Some(n - 1);
        }
        assert(pre.drop_last() =~= maps@.subrange(0, n - 1));
        n = n - 1;
    }
    None
}

fn contains_string(v: &Vec<String>, s: &str) -> (r: bool)
    ensures
        r == v@.map_values(|x: String| x@).contains(s@),
{
    let ghost vs = v@.map_values(|x: String| x@);
    let mut j: usize = 0;
    while j < v.len()
        invariant
            j <= v@.len(),
            vs == v@.map_values(|x: String| x@),
            forall|t: int| 0 <= t < j ==> v@[t]@ != s@,
        decreases v@.len() - j,
    {
        if str_eq(v[j].as_str(), s) {
            assert(vs[j as int] == s@);
            return true;
        }
        j = j + 1;
    }
    false
}

/// A client file that the edition must carry: not excluded.
pub open spec fn carried(f: FileSpec, excluded: Seq<Seq<char>>) -> bool {
    is_client_file(f) && !excluded.contains(f.path@)
}

/// The carried files that have no CurseForge mapping, by path, in order.
pub open spec fn unmapped(files: Seq<FileSpec>, maps: Seq<CurseForgeFile>, excluded: Seq<Seq<char>>) -> Seq<
    Seq<char>,
>
    decreases files.len(),
{
    if files.len() == 0 {
        Seq::empty()
    } else {
        unmapped(files.drop_last(), maps, excluded) + if carried(files.last(), excluded)
            && mapping_for(maps, files.last().path@) is None {
            seq![files.last().path@]
        } else {
            Seq::empty()
        }
    }
}

/// The CurseForge IDs of the carried files, in lockfile order.
pub open spec fn carried_ids(files: Seq<FileSpec>, maps: Seq<CurseForgeFile>, excluded: Seq<Seq<char>>) -> Seq<
    (u32, u32),
>
    decreases files.len(),
{
    if files.len() == 0 {
        Seq::empty()
    } else {
        carried_ids(files.drop_last(), maps, excluded) + if carried(files.last(), excluded) {
            match mapping_for(maps, files.last().path@) {
                Some(m) => seq![(m.project_id, m.file_id)],
                None => Seq::empty(),
            }
        } else {
            Seq::empty()
        }
    }
}

/// Strings separated by `, `.
pub open spec fn comma_joined(items: Seq<Seq<char>>) -> Seq<char>
    decreases items.len(),
{
    if items.len() == 0 {
        Seq::empty()
    } else if items.len() == 1 {
        items[0]
    } else {
        comma_joined(items.drop_last()) + ", "@ + items.last()
    }
}

/// The order key of a CurseForge file: project ID, then file ID.
pub open spec fn id_key(ids: (u32, u32)) -> u64 {
    ((ids.0 as u64) * 0x1_0000_0000 + ids.1 as u64) as u64
}

/// `files` lists `ids`, each required, ordered by project ID then file ID
/// as a stable sort orders them.
pub open spec fn sorted_manifest_files(files: Seq<ManifestFile>, ids: Seq<(u32, u32)>) -> bool {
    exists|p: Seq<usize>|
        {
            &&& is_permutation(p, ids.len())
            &&& stably_sorted_nat(p, ids.map_values(|x: (u32, u32)| id_key(x)))
            &&& files.len() == p.len()
            &&& forall|k: int|
                0 <= k < p.len() ==> files[k] == (ManifestFile {
                    project_id: ids[p[k] as int].0,
                    file_id: ids[p[k] as int].1,
                    required: true,
                })
        }
}

fn join_comma(items: &Vec<String>) -> (r: String)
    ensures
        r@ == comma_joined(items@.map_values(|s: String| s@)),
{
    let mut out = String::new();
    let mut i: usize = 0;
    while i < items.len()
        invariant
            i <= items@.len(),
            out@ == comma_joined(items@.subrange(0, i as int).map_values(|s: String| s@)),
        decreases items@.len() - i,
    {
        let ghost pre = items@.subrange(0, i + 1).map_values(|s: String| s@);
        assert(pre.drop_last() =~= items@.subrange(0, i as int).map_values(|s: String| s@));
        if i > 0 {
            out.append(", ");
        }
        out.append(items[i].as_str());
        i = i + 1;
        assert(out@ =~= comma_joined(items@.subrange(0, i as int).map_values(|s: String| s@)));
    }
    assert(items@.subrange(0, i as int) =~= items@);
    out
}

/// The CurseForge manifest of a lockfile: every client file that is not
/// excluded must have a CurseForge mapping, else the unmapped paths are
/// reported; the files are those mappings, required, ordered by project and
/// file ID, and the loader is `<loader>-<loader_version>`.
pub fn manifest_from_lock(lock: &Lockfile, author: &str, excluded: &Vec<String>) -> (r: Result<
    Manifest,
    Error,
>)
    ensures
        ({
            let ex = excluded@.map_values(|s: String| s@);
            let missing = unmapped(lock.file@, lock.curseforge@, ex);
            if missing.len() > 0 {
                r matches Err(e) && e@ == failure(
                    ErrorKind::UnresolvedClientFiles,
                    seq![comma_joined(missing)],
                )
            } else {
                r matches Ok(m) && {
                    &&& m.minecraft.version@ == lock.pack.minecraft@
                    &&& m.minecraft.mod_loaders@.len() == 1
                    &&& m.minecraft.mod_loaders@[0].id@ == lock.pack.loader@ + "-"@
                        + lock.pack.loader_version@
                    &&& m.minecraft.mod_loaders@[0].primary
                    &&& m.manifest_type@ == "minecraftModpack"@
                    &&& m.manifest_version == 1
                    &&& m.name@ == lock.pack.name@
                    &&& m.version@ == lock.pack.version@
                    &&& m.author@ == author@
                    &&& m.overrides@ == "overrides"@
                    &&& sorted_manifest_files(
                        m.files@,
                        carried_ids(lock.file@, lock.curseforge@, ex),
                    )
                }
            }
        }),
{
    let ghost ex = excluded@.map_values(|s: String| s@);
    let mut missing: Vec<String> = Vec::new();
    let mut ids: Vec<(u32, u32)> = Vec::new();
    let mut i: usize = 0;
    while i < lock.file.len()
        invariant
            i <= lock.file@.len(),
            ex == excluded@.map_values(|s: String| s@),
            missing@.map_values(|s: String| s@) == unmapped(
                lock.file@.subrange(0, i as int),
                lock.curseforge@,
                ex,
            ),
            ids@ == carried_ids(lock.file@.subrange(0, i as int), lock.curseforge@, ex),
        decreases lock.file@.len() - i,
    {
        let f = &lock.file[i];
        let ghost pre = lock.file@.subrange(0, i + 1);
        assert(pre.drop_last() =~= lock.file@.subrange(0, i as int));
        assert(pre.last() == lock.file@[i as int]);
        if client_file(f) && !contains_string(excluded, f.path.as_str()) {
            match find_mapping(&lock.curseforge, f.path.as_str()) {
                None => {
                    missing.push(f.path.clone());
                },
                Some(k) => {
                    ids.push((lock.curseforge[k].project_id, lock.curseforge[k].file_id));
                },
            }
        }
        i = i + 1;
        assert(missing@.map_values(|s: String| s@) =~= unmapped(
            lock.file@.subrange(0, i as int),
            lock.curseforge@,
            ex,
        ));
        assert(ids@ =~= carried_ids(lock.file@.subrange(0, i as int), lock.curseforge@, ex));
    }
    assert(lock.file@.subrange(0, i as int) =~= lock.file@);
    if missing.len() > 0 {
        return Err(Error::new1(ErrorKind::UnresolvedClientFiles, join_comma(&missing)));
    }
    let mut keys: Vec<u64> = Vec::new();
    let mut k: usize = 0;
    while k < ids.len()
        invariant
            k <= ids@.len(),
            keys@ == ids@.subrange(0, k as int).map_values(|x: (u32, u32)| id_key(x)),
        decreases ids@.len() - k,
    {
        keys.push((ids[k].0 as u64) * 0x1_0000_0000 + ids[k].1 as u64);
        k = k + 1;
        assert(keys@ =~= ids@.subrange(0, k as int).map_values(|x: (u32, u32)| id_key(x)));
    }
    assert(ids@.subrange(0, k as int) =~= ids@);
    let order = stable_order_u64(&keys);
    let mut files: Vec<ManifestFile> = Vec::new();
    let mut k: usize = 0;
    while k < order.len()
        invariant
            k <= order@.len(),
            is_permutation(order@, ids@.len()),
            files@.len() == k,
            forall|t: int|
                0 <= t < k ==> files@[t] == (ManifestFile {
                    project_id: ids@[order@[t] as int].0,
                    file_id: ids@[order@[t] as int].1,
                    required: true,
                }),
        decreases order@.len() - k,
    {
        let (project_id, file_id) = ids[order[k]];
        files.push(ManifestFile { project_id, file_id, required: true });
        k = k + 1;
    }
    let mut loader_id = lock.pack.loader.clone();
    loader_id.append("-");
    loader_id.append(lock.pack.loader_version.as_str());
    let mut mod_loaders: Vec<ModLoader> = Vec::new();
    mod_loaders.push(ModLoader { id: loader_id, primary: true });
    let m = Manifest {
        minecraft: Minecraft { version: lock.pack.minecraft.clone(), mod_loaders },
        manifest_type: "minecraftModpack".to_owned(),
        manifest_version: 1,
        name: lock.pack.name.clone(),
        version: lock.pack.version.clone(),
        author: author.to_owned(),
        files,
        overrides: "overrides".to_owned(),
    };
    assert(sorted_manifest_files(m.files@, ids@));
    Ok(m)
}

/// The IDs that `carried_ids` lists are those of the mapped, not excluded
/// files whose client side is not unsupported, in lockfile order: the server
/// side plays no part.
proof fn lemma_carried_ids_are_mapped_client_files(
    files: Seq<FileSpec>,
    maps: Seq<CurseForgeFile>,
    excluded: Seq<Seq<char>>,
)
    ensures
        carried_ids(files, maps, excluded) == files.filter(
            |f: FileSpec|
                f.env.client != SideRequirement::Unsupported && !excluded.contains(f.path@)
                    && mapping_for(maps, f.path@) is Some,
        ).map_values(
            |f: FileSpec|
                (
                    mapping_for(maps, f.path@).unwrap().project_id,
                    mapping_for(maps, f.path@).unwrap().file_id,
                ),
        ),
    decreases files.len(),
{
    reveal_with_fuel(Seq::<_>::filter, 1);
    let pred = |f: FileSpec|
        f.env.client != SideRequirement::Unsupported && !excluded.contains(f.path@) && mapping_for(
            maps,
            f.path@,
        ) is Some;
    let ids_of = |f: FileSpec|
        (mapping_for(maps, f.path@).unwrap().project_id, mapping_for(maps, f.path@).unwrap().file_id);
    if files.len() > 0 {
        lemma_carried_ids_are_mapped_client_files(files.drop_last(), maps, excluded);
        let fi = files.drop_last().filter(pred);
        if pred(files.last()) {
            assert(files.filter(pred) == fi.push(files.last()));
            assert(fi.push(files.last()).map_values(ids_of) =~= fi.map_values(ids_of).push(
                ids_of(files.last()),
            ));
        } else {
            assert(files.filter(pred) == fi);
        }
    }
}

/// The CurseForge edition carries every client file: for a manifest built
/// from a lockfile (its files as `manifest_from_lock` lists them), each
/// lockfile file whose client side is not unsupported, that is not excluded
/// and that has a mapping, appears as a required entry with that mapping's
/// project and file ID, whatever its server side (client-only mods
/// included); each entry comes from such a file; and there is one entry per
/// such file.
pub proof fn law_edition_carries_every_client_file(
    lock: Lockfile,
    excluded: Seq<Seq<char>>,
    files: Seq<ManifestFile>,
)
    requires
        sorted_manifest_files(files, carried_ids(lock.file@, lock.curseforge@, excluded)),
    ensures
        forall|i: int|
            #![trigger lock.file@[i]]
            0 <= i < lock.file@.len() && lock.file@[i].env.client != SideRequirement::Unsupported
                && !excluded.contains(lock.file@[i].path@) && mapping_for(
                lock.curseforge@,
                lock.file@[i].path@,
            ) is Some ==> exists|k: int|
                0 <= k < files.len() && files[k].required && files[k].project_id == mapping_for(
                    lock.curseforge@,
                    lock.file@[i].path@,
                ).unwrap().project_id && files[k].file_id == mapping_for(
                    lock.curseforge@,
                    lock.file@[i].path@,
                ).unwrap().file_id,
        forall|k: int| 0 <= k < files.len() ==> #[trigger] files[k].required,
        forall|m: ManifestFile|
            #![trigger files.contains(m)]
            files.contains(m) ==> exists|i: int|
                #![trigger lock.file@[i]]
                0 <= i < lock.file@.len() && lock.file@[i].env.client
                    != SideRequirement::Unsupported && !excluded.contains(lock.file@[i].path@)
                    && mapping_for(lock.curseforge@, lock.file@[i].path@) is Some
                    && m.project_id == mapping_for(
                    lock.curseforge@,
                    lock.file@[i].path@,
                ).unwrap().project_id && m.file_id == mapping_for(
                    lock.curseforge@,
                    lock.file@[i].path@,
                ).unwrap().file_id,
        files.len() == lock.file@.filter(
            |f: FileSpec|
                f.env.client != SideRequirement::Unsupported && !excluded.contains(f.path@)
                    && mapping_for(lock.curseforge@, f.path@) is Some,
        ).len(),
{
    let maps = lock.curseforge@;
    let pred = |f: FileSpec|
        f.env.client != SideRequirement::Unsupported && !excluded.contains(f.path@) && mapping_for(
            lock.curseforge@,
            f.path@,
        ) is Some;
    let ids_of = |f: FileSpec|
        (mapping_for(maps, f.path@).unwrap().project_id, mapping_for(maps, f.path@).unwrap().file_id);
    let chosen = lock.file@.filter(pred);
    let ids = carried_ids(lock.file@, maps, excluded);
    lemma_carried_ids_are_mapped_client_files(lock.file@, maps, excluded);
    assert(ids == chosen.map_values(ids_of));
    let p = choose|p: Seq<usize>|
        {
            &&& is_permutation(p, ids.len())
            &&& stably_sorted_nat(p, ids.map_values(|x: (u32, u32)| id_key(x)))
            &&& files.len() == p.len()
            &&& forall|k: int|
                0 <= k < p.len() ==> files[k] == (ManifestFile {
                    project_id: ids[p[k] as int].0,
                    file_id: ids[p[k] as int].1,
                    required: true,
                })
        };
    assert forall|i: int|
        #![trigger lock.file@[i]]
        0 <= i < lock.file@.len() && lock.file@[i].env.client != SideRequirement::Unsupported
            && !excluded.contains(lock.file@[i].path@) && mapping_for(
            lock.curseforge@,
            lock.file@[i].path@,
        ) is Some implies exists|k: int|
        0 <= k < files.len() && files[k].required && files[k].project_id == mapping_for(
            lock.curseforge@,
            lock.file@[i].path@,
        ).unwrap().project_id && files[k].file_id == mapping_for(
            lock.curseforge@,
            lock.file@[i].path@,
        ).unwrap().file_id by {
        assert(pred(lock.file@[i]));
        lock.file@.lemma_filter_contains(pred, i);
        let j = choose|j: int| 0 <= j < chosen.len() && chosen[j] == lock.file@[i];
        assert(ids[j] == ids_of(lock.file@[i]));
        crate::export::lemma_permutation_covers(p, ids.len(), j);
        let k = choose|k: int| 0 <= k < p.len() && p[k] == j;
        assert(files[k] == (ManifestFile {
            project_id: ids[p[k] as int].0,
            file_id: ids[p[k] as int].1,
            required: true,
        }));
    }
    assert forall|m: ManifestFile|
        #![trigger files.contains(m)]
        files.contains(m) implies exists|i: int|
            #![trigger lock.file@[i]]
        0 <= i < lock.file@.len() && lock.file@[i].env.client != SideRequirement::Unsupported
            && !excluded.contains(lock.file@[i].path@) && mapping_for(
            lock.curseforge@,
            lock.file@[i].path@,
        ) is Some && m.project_id == mapping_for(
            lock.curseforge@,
            lock.file@[i].path@,
        ).unwrap().project_id && m.file_id == mapping_for(
            lock.curseforge@,
            lock.file@[i].path@,
        ).unwrap().file_id by {
        let k = choose|k: int| 0 <= k < files.len() && files[k] == m;
        let j = p[k] as int;
        assert(0 <= j < chosen.len());
        assert(files[k] == (ManifestFile {
            project_id: ids[j].0,
            file_id: ids[j].1,
            required: true,
        }));
        assert(ids[j] == ids_of(chosen[j]));
        lock.file@.lemma_filter_pred(pred, j);
        assert(chosen.contains(chosen[j]));
        lock.file@.lemma_filter_contains_rev(pred, chosen[j]);
        let i = choose|i: int| 0 <= i < lock.file@.len() && lock.file@[i] == chosen[j];
        assert(pred(lock.file@[i]));
    }
}

} // verus!

verus! {

/// What Packwiz wrote for one file it identified on CurseForge.
#[derive(Debug, Clone)]
pub struct PackwizMeta {
    /// The metadata file, for messages.
    pub source: String,
    pub filename: String,
    pub hash_format: String,
    pub hash: String,
    pub project_id: u32,
    pub file_id: u32,
}

/// The pinned files whose file name is `name`.
pub open spec fn files_named(files: Seq<FileSpec>, name: Seq<char>) -> Seq<FileSpec> {
    files.filter(|f: FileSpec| file_name(f.path@) == Some(name))
}

/// The characters of a mapping.
pub open spec fn mapping_view(m: CurseForgeFile) -> (Seq<char>, Seq<char>, u32, u32) {
    (m.path@, m.sha1@, m.project_id, m.file_id)
}

/// Some of `mapped` is for `path`.
pub open spec fn mapped_path(mapped: Seq<(Seq<char>, Seq<char>, u32, u32)>, path: Seq<char>) -> bool {
    exists|j: int| 0 <= j < mapped.len() && mapped[j].0 == path
}

/// The mapping that one Packwiz metadata file gives, given those before it.
pub open spec fn meta_mapping(
    m: PackwizMeta,
    files: Seq<FileSpec>,
    mapped: Seq<(Seq<char>, Seq<char>, u32, u32)>,
) -> Result<(Seq<char>, Seq<char>, u32, u32), Failure> {
    let named = files_named(files, m.filename@);
    if m.hash_format@ != "sha1"@ {
        Err(failure(ErrorKind::UnsupportedHashFormat, seq![m.source@, m.hash_format@]))
    } else if named.len() != 1 {
        Err(failure(ErrorKind::NotExactlyOneFile, seq![m.source@, m.filename@]))
    } else if named[0].sha1@ != m.hash@ {
        Err(failure(ErrorKind::PackwizHashMismatch, seq![named[0].path@]))
    } else if mapped_path(mapped, named[0].path@) {
        Err(failure(ErrorKind::MappedTwice, seq![named[0].path@]))
    } else {
        Ok((named[0].path@, named[0].sha1@, m.project_id, m.file_id))
    }
}

/// The mappings that Packwiz's metadata give, in order, or the first problem.
pub open spec fn metas_mappings(metas: Seq<PackwizMeta>, files: Seq<FileSpec>) -> Result<
    Seq<(Seq<char>, Seq<char>, u32, u32)>,
    Failure,
>
    decreases metas.len(),
{
    if metas.len() == 0 {
        Ok(Seq::empty())
    } else {
        match metas_mappings(metas.drop_last(), files) {
            Err(e) => Err(e),
            Ok(mapped) => match meta_mapping(metas.last(), files, mapped) {
                Err(e) => Err(e),
                Ok(x) => Ok(mapped.push(x)),
            },
        }
    }
}

proof fn lemma_metas_prefix(metas: Seq<PackwizMeta>, files: Seq<FileSpec>, n: int)
    requires
        0 <= n <= metas.len(),
        metas_mappings(metas.subrange(0, n), files) is Err,
    ensures
        metas_mappings(metas, files) == metas_mappings(metas.subrange(0, n), files),
    decreases metas.len() - n,
{
    if n < metas.len() {
        assert(metas.drop_last().subrange(0, n) =~= metas.subrange(0, n));
        lemma_metas_prefix(metas.drop_last(), files, n);
    } else {
        assert(metas.subrange(0, n) =~= metas);
    }
}

/// The index of the only pinned file named `name`, if exactly one is.
fn only_file_named(files: &Vec<FileSpec>, name: &str) -> (r: Option<usize>)
    ensures
        match r {
            Some(i) => i < files@.len() && files_named(files@, name@).len() == 1
                && files_named(files@, name@)[0] == files@[i as int],
            None => files_named(files@, name@).len() != 1,
        },
{
    let ghost pred = |f: FileSpec| file_name(f.path@) == Some(name@);
    let mut count: usize = 0;
    let mut found: usize = 0;
    let mut i: usize = 0;
    while i < files.len()
        invariant
            i <= files@.len(),
            pred == (|f: FileSpec| file_name(f.path@) == Some(name@)),
            count <= i,
            count == files@.subrange(0, i as int).filter(pred).len(),
            count >= 1 ==> found < i && files@.subrange(0, i as int).filter(pred)[0]
                == files@[found as int],
        decreases files@.len() - i,
    {
        proof {
            reveal_with_fuel(Seq::<_>::filter, 1);
            assert(files@.subrange(0, i + 1).drop_last() =~= files@.subrange(0, i as int));
        }
        let named = match path_file_name(files[i].path.as_str()) {
            Some(v) => {
                let n = string_from(v.as_slice());
                str_eq(n.as_str(), name)
            },
            None => false,
        };
        assert(named == pred(files@[i as int]));
        if named {
            if count == 0 {
                found = i;
            }
            count = count + 1;
        }
        i = i + 1;
    }
    assert(files@.subrange(0, i as int) =~= files@);
    if count == 1 {
        Some(found)
    } else {
        None
    }
}

/// The CurseForge mappings that Packwiz's metadata give: each must use
/// SHA-1, name exactly one pinned file, carry that file's SHA-1, and map no
/// file twice.
#[verifier::loop_isolation(false)]
pub fn mappings_from_metadata(metas: &Vec<PackwizMeta>, lock: &Lockfile) -> (r: Result<
    Vec<CurseForgeFile>,
    Error,
>)
    ensures
        match metas_mappings(metas@, lock.file@) {
            Err(e) => r matches Err(x) && x@ == e,
            Ok(v) => r matches Ok(maps) && maps@.map_values(|m: CurseForgeFile| mapping_view(m))
                == v,
        },
{
    let mut maps: Vec<CurseForgeFile> = Vec::new();
    let mut i: usize = 0;
    assert(metas@.subrange(0, 0) =~= Seq::<PackwizMeta>::empty());
    assert(maps@.map_values(|m: CurseForgeFile| mapping_view(m)) =~= Seq::empty());
    while i < metas.len()
        invariant
            i <= metas@.len(),
            metas_mappings(metas@.subrange(0, i as int), lock.file@) == Ok::<
                Seq<(Seq<char>, Seq<char>, u32, u32)>,
                Failure,
            >(maps@.map_values(|m: CurseForgeFile| mapping_view(m))),
        decreases metas@.len() - i,
    {
        let m = &metas[i];
        let ghost mapped = maps@.map_values(|m: CurseForgeFile| mapping_view(m));
        let ghost pre = metas@.subrange(0, i + 1);
        assert(pre.drop_last() =~= metas@.subrange(0, i as int));
        assert(pre.last() == metas@[i as int]);
        if !str_eq(m.hash_format.as_str(), "sha1") {
            proof {
                lemma_metas_prefix(metas@, lock.file@, i + 1);
            }
            return Err(
                Error::new2(ErrorKind::UnsupportedHashFormat, m.source.clone(), m.hash_format.clone()),
            );
        }
        let k = match only_file_named(&lock.file, m.filename.as_str()) {
            None => {
                proof {
                    lemma_metas_prefix(metas@, lock.file@, i + 1);
                }
                return Err(
                    Error::new2(ErrorKind::NotExactlyOneFile, m.source.clone(), m.filename.clone()),
                );
            },
            Some(k) => k,
        };
        let file = &lock.file[k];
        if !str_eq(file.sha1.as_str(), m.hash.as_str()) {
            proof {
                lemma_metas_prefix(metas@, lock.file@, i + 1);
            }
            return Err(Error::new1(ErrorKind::PackwizHashMismatch, file.path.clone()));
        }
        let mut j: usize = 0;
        while j < maps.len()
            invariant
                j <= maps@.len(),
                mapped == maps@.map_values(|m: CurseForgeFile| mapping_view(m)),
                forall|t: int| 0 <= t < j ==> mapped[t].0 != file.path@,
            decreases maps@.len() - j,
        {
            if str_eq(maps[j].path.as_str(), file.path.as_str()) {
                assert(mapped[j as int].0 == file.path@);
                proof {
                    lemma_metas_prefix(metas@, lock.file@, i + 1);
                }
                return Err(Error::new1(ErrorKind::MappedTwice, file.path.clone()));
            }
            j = j + 1;
        }
        assert(!mapped_path(mapped, file.path@));
        maps.push(
            CurseForgeFile {
                path: file.path.clone(),
                sha1: file.sha1.clone(),
                project_id: m.project_id,
                file_id: m.file_id,
            },
        );
        i = i + 1;
        assert(maps@.map_values(|m: CurseForgeFile| mapping_view(m)) =~= mapped.push(
            (file.path@, file.sha1@, m.project_id, m.file_id),
        ));
    }
    assert(metas@.subrange(0, i as int) =~= metas@);
    Ok(maps)
}

} // verus!

verus! {

/// What a CurseForge resolution found.
#[derive(Debug, PartialEq, Eq)]
pub struct ResolveReport {
    pub resolved: usize,
    pub excluded: Vec<String>,
    pub unresolved: Vec<String>,
}

/// A file that Packwiz is shown for detection: a carried client jar under
/// `mods/`.
pub open spec fn packwiz_input(f: FileSpec, excluded: Seq<Seq<char>>) -> bool {
    &&& carried(f, excluded)
    &&& crate::text::seq_starts_with(f.path@, "mods/"@)
    &&& crate::text::seq_ends_with(f.path@, ".jar"@)
}

/// The indices of the files that Packwiz is shown, in lockfile order.
pub fn packwiz_inputs(lock: &Lockfile, excluded: &Vec<String>) -> (r: Vec<usize>)
    ensures
        forall|k: int| 0 <= k < r@.len() ==> r@[k] < lock.file@.len(),
        forall|k: int, l: int| 0 <= k < l < r@.len() ==> r@[k] < r@[l],
        forall|i: int|
            0 <= i < lock.file@.len() ==> (packwiz_input(
                #[trigger] lock.file@[i],
                excluded@.map_values(|s: String| s@),
            ) <==> r@.contains(i as usize)),
{
    let ghost ex = excluded@.map_values(|s: String| s@);
    let mut r: Vec<usize> = Vec::new();
    let mut i: usize = 0;
    while i < lock.file.len()
        invariant
            i <= lock.file@.len(),
            ex == excluded@.map_values(|s: String| s@),
            forall|k: int| 0 <= k < r@.len() ==> r@[k] < i,
            forall|k: int, l: int| 0 <= k < l < r@.len() ==> r@[k] < r@[l],
            forall|t: int|
                0 <= t < i ==> (packwiz_input(#[trigger] lock.file@[t], ex) <==> r@.contains(
                    t as usize,
                )),
        decreases lock.file@.len() - i,
    {
        let f = &lock.file[i];
        let ghost old_r = r@;
        let take = client_file(f) && !contains_string(excluded, f.path.as_str())
            && crate::text::starts_with(f.path.as_str(), "mods/") && crate::text::ends_with(
            f.path.as_str(),
            ".jar",
        );
        if take {
            r.push(i);
        }
        assert(take == packwiz_input(lock.file@[i as int], ex));
        assert forall|t: int| 0 <= t < i + 1 implies (packwiz_input(#[trigger] lock.file@[t], ex)
            <==> r@.contains(t as usize)) by {
            if take {
                assert(r@ == old_r.push(i));
                if t < i {
                    if r@.contains(t as usize) {
                        let k = choose|k: int| 0 <= k < r@.len() && r@[k] == t as usize;
                        assert(k < old_r.len());
                        assert(old_r[k] == t as usize);
                    }
                    if old_r.contains(t as usize) {
                        let k = choose|k: int| 0 <= k < old_r.len() && old_r[k] == t as usize;
                        assert(r@[k] == t as usize);
                    }
                } else {
                    assert(r@[old_r.len() as int] == i);
                }
            } else {
                if t == i && r@.contains(t as usize) {
                    let k = choose|k: int| 0 <= k < r@.len() && r@[k] == t as usize;
                    assert(r@[k] < i);
                }
            }
        }
        i = i + 1;
    }
    r
}

/// Records what Packwiz found: the lockfile takes the mappings sorted by
/// path, and the report gives how many resolved, the exclusions, and the
/// carried client files left without a mapping.
pub fn record_resolution(lock: &mut Lockfile, mappings: Vec<CurseForgeFile>, excluded: Vec<String>) -> (r: ResolveReport)
    ensures
        final(lock).version == old(lock).version,
        final(lock).pack == old(lock).pack,
        final(lock).file == old(lock).file,
        exists|p: Seq<usize>|
            {
                &&& is_permutation(p, mappings@.len())
                &&& stably_sorted(p, mappings@.map_values(|m: CurseForgeFile| m.path@))
                &&& final(lock).curseforge@.len() == p.len()
                &&& forall|k: int|
                    0 <= k < p.len() ==> final(lock).curseforge@[k] == mappings@[p[k] as int]
            },
        r.resolved == mappings@.len(),
        r.excluded@ == excluded@,
        r.unresolved@.map_values(|s: String| s@) == unmapped(
            old(lock).file@,
            mappings@,
            excluded@.map_values(|s: String| s@),
        ),
{
    let ghost ex = excluded@.map_values(|s: String| s@);
    let mut keys: Vec<String> = Vec::new();
    let mut k: usize = 0;
    while k < mappings.len()
        invariant
            k <= mappings@.len(),
            keys@.len() == k,
            forall|t: int| 0 <= t < k ==> #[trigger] keys@[t]@ == mappings@[t].path@,
        decreases mappings@.len() - k,
    {
        keys.push(mappings[k].path.clone());
        k = k + 1;
    }
    assert(keys@.map_values(|s: String| s@) =~= mappings@.map_values(|m: CurseForgeFile| m.path@));
    let order = stable_order(&keys);
    let mut sorted: Vec<CurseForgeFile> = Vec::new();
    let mut k: usize = 0;
    while k < order.len()
        invariant
            k <= order@.len(),
            is_permutation(order@, mappings@.len()),
            sorted@.len() == k,
            forall|t: int| 0 <= t < k ==> sorted@[t] == mappings@[order@[t] as int],
        decreases order@.len() - k,
    {
        sorted.push(mappings[order[k]].copy());
        k = k + 1;
    }
    let mut unresolved: Vec<String> = Vec::new();
    let mut i: usize = 0;
    while i < lock.file.len()
        invariant
            i <= lock.file@.len(),
            lock.file == old(lock).file,
            ex == excluded@.map_values(|s: String| s@),
            unresolved@.map_values(|s: String| s@) == unmapped(
                lock.file@.subrange(0, i as int),
                mappings@,
                ex,
            ),
        decreases lock.file@.len() - i,
    {
        let f = &lock.file[i];
        let ghost pre = lock.file@.subrange(0, i + 1);
        assert(pre.drop_last() =~= lock.file@.subrange(0, i as int));
        assert(pre.last() == lock.file@[i as int]);
        if client_file(f) && !contains_string(&excluded, f.path.as_str()) && find_mapping(
            &mappings,
            f.path.as_str(),
        ).is_none() {
            unresolved.push(f.path.clone());
        }
        i = i + 1;
        assert(unresolved@.map_values(|s: String| s@) =~= unmapped(
            lock.file@.subrange(0, i as int),
            mappings@,
            ex,
        ));
    }
    assert(lock.file@.subrange(0, i as int) =~= lock.file@);
    let resolved = sorted.len();
    lock.curseforge = sorted;
    ResolveReport { resolved, excluded, unresolved }
}

} // verus!

verus! {

/// Adds one override file to the CurseForge archive's overrides; a path
/// taken twice is refused and the list is left as it was.
pub fn add_override(overrides: &mut Vec<ArchiveEntry>, path: String, contents: Vec<u8>) -> (r: Result<
    (),
    Error,
>)
    ensures
        if has_entry(entries_view(old(overrides)@), path@) {
            &&& r matches Err(e) && e@ == failure(ErrorKind::OverrideDuplicate, seq![path@])
            &&& final(overrides)@ == old(overrides)@
        } else {
            &&& r is Ok
            &&& entries_view(final(overrides)@) == entries_view(old(overrides)@).push((path@, contents@))
        },
{
    if let Some(k) = find_entry_named(overrides, path.as_str()) {
        assert(entries_view(overrides@)[k as int].0 == path@);
        return Err(Error::new1(ErrorKind::OverrideDuplicate, path));
    }
    let ghost before = entries_view(overrides@);
    overrides.push(ArchiveEntry { name: path, contents });
    assert(entries_view(overrides@) =~= before.push((path@, contents@)));
    Ok(())
}

} // verus!

verus! {

/// `pat` occurs somewhere in `s` (`str::contains`).
pub open spec fn seq_contains(s: Seq<char>, pat: Seq<char>) -> bool {
    find_from(s, pat, 0) is Some
}

/// The Packwiz build that `go version -m` describes in `metadata` must be
/// Packwiz itself, built from the pinned commit.
pub fn check_packwiz_build(metadata: &str, commit: &str) -> (r: Result<(), Error>)
    ensures
        (seq_contains(metadata@, "github.com/packwiz/packwiz"@) && seq_contains(metadata@, commit@))
            ==> r is Ok,
        !(seq_contains(metadata@, "github.com/packwiz/packwiz"@) && seq_contains(metadata@, commit@))
            ==> (r matches Err(e) && e@ == failure(ErrorKind::PackwizNotPinned, seq![commit@])),
{
    let m = chars_of(metadata);
    let name = chars_of("github.com/packwiz/packwiz");
    let c = chars_of(commit);
    if find_from_exec(&m, &name, 0).is_some() && find_from_exec(&m, &c, 0).is_some() {
        Ok(())
    } else {
        Err(Error::new1(ErrorKind::PackwizNotPinned, commit.to_owned()))
    }
}

/// The `pack.toml` of the scratch Packwiz pack that detects CurseForge IDs.
pub open spec fn packwiz_pack_text(lock: Lockfile) -> Seq<char> {
    "name = "@ + toml_quoted(lock.pack.name@) + "\nauthor = \"iamkaf\"\nversion = "@ + toml_quoted(
        lock.pack.version@,
    ) + "\npack-format = \"packwiz:1.1.0\"\n\n[index]\nfile = \"index.toml\"\nhash-format = \"sha256\"\nhash = \"\"\n\n[versions]\nfabric = "@
        + toml_quoted(lock.pack.loader_version@) + "\nminecraft = "@ + toml_quoted(
        lock.pack.minecraft@,
    ) + "\n"@
}

pub fn packwiz_pack_toml(lock: &Lockfile) -> (r: String)
    ensures
        r@ == packwiz_pack_text(*lock),
{
    let mut out = "name = ".to_owned();
    push_toml_string(&mut out, lock.pack.name.as_str());
    out.append("\nauthor = \"iamkaf\"\nversion = ");
    push_toml_string(&mut out, lock.pack.version.as_str());
    out.append(
        "\npack-format = \"packwiz:1.1.0\"\n\n[index]\nfile = \"index.toml\"\nhash-format = \"sha256\"\nhash = \"\"\n\n[versions]\nfabric = ",
    );
    push_toml_string(&mut out, lock.pack.loader_version.as_str());
    out.append("\nminecraft = ");
    push_toml_string(&mut out, lock.pack.minecraft.as_str());
    out.append("\n");
    out
}

/// The name of the CurseForge archive: `<slug>-<version>-curseforge.zip`.
pub fn archive_name(lock: &Lockfile) -> (r: String)
    ensures
        r@ == lock.pack.slug@ + "-"@ + lock.pack.version@ + "-curseforge.zip"@,
{
    let mut out = lock.pack.slug.clone();
    out.append("-");
    out.append(lock.pack.version.as_str());
    out.append("-curseforge.zip");
    out
}

/// What CurseForge is told of an upload, besides the changelog: the display
/// name `<name> <version>`, the game versions `Fabric` and the Minecraft
/// version, and the release type.
pub struct UploadFacts {
    pub display_name: String,
    pub game_version_names: Vec<String>,
    pub release_type: String,
}

pub fn upload_facts(lock: &Lockfile) -> (r: UploadFacts)
    ensures
        r.display_name@ == lock.pack.name@ + " "@ + lock.pack.version@,
        r.game_version_names@.map_values(|s: String| s@) == seq!["Fabric"@, lock.pack.minecraft@],
        r.release_type@ == "release"@,
{
    let mut display_name = lock.pack.name.clone();
    display_name.append(" ");
    display_name.append(lock.pack.version.as_str());
    let mut game_version_names: Vec<String> = Vec::new();
    game_version_names.push("Fabric".to_owned());
    game_version_names.push(lock.pack.minecraft.clone());
    let r = UploadFacts { display_name, game_version_names, release_type: "release".to_owned() };
    assert(r.game_version_names@.map_values(|s: String| s@) =~= seq!["Fabric"@, lock.pack.minecraft@]);
    r
}

} // verus!

verus! {

/// The first pinned file at `path`, as `Iterator::find` finds it.
pub open spec fn first_with_path(files: Seq<FileSpec>, path: Seq<char>) -> Option<FileSpec>
    decreases files.len(),
{
    if files.len() == 0 {
        None
    } else if files[0].path@ == path {
        Some(files[0])
    } else {
        first_with_path(files.drop_first(), path)
    }
}

/// The folder of a slash-separated path (`Path::parent`): everything before
/// its last `/`, or nothing when it has none.
pub open spec fn parent_folder(p: Seq<char>) -> Seq<char>
    decreases p.len(),
{
    if p.len() == 0 {
        p
    } else if p.last() == '/' {
        p.drop_last()
    } else {
        parent_folder(p.drop_last())
    }
}

/// The Packwiz arguments that pin the CurseForge IDs that `platforms.toml`
/// gives by hand for one file, run in the scratch pack after detection:
/// `--meta-folder <folder> --yes curseforge add --addon-id <project>
/// --file-id <file>`. The file must have a clean path, be locked and load on
/// the client. A clean path always has a folder (`Path::parent` fails only
/// on an empty or root path), so no error stands for a missing one.
pub open spec fn add_args(add: ExplicitFile, lock: Lockfile) -> Result<Seq<Seq<char>>, Failure> {
    match pack_path_result(add.path@) {
        Err(e) => Err(e),
        Ok(_) => match first_with_path(lock.file@, add.path@) {
            None => Err(failure(ErrorKind::NotInLock, seq![add.path@])),
            Some(f) => if !is_client_file(f) {
                Err(failure(ErrorKind::NotClientFile, seq![add.path@]))
            } else {
                Ok(
                    seq![
                        "--meta-folder"@,
                        parent_folder(add.path@),
                        "--yes"@,
                        "curseforge"@,
                        "add"@,
                        "--addon-id"@,
                        decimal(add.project_id as nat),
                        "--file-id"@,
                        decimal(add.file_id as nat),
                    ],
                )
            },
        },
    }
}

fn parent_folder_string(path: &str) -> (r: String)
    ensures
        r@ == parent_folder(path@),
{
    let v = chars_of(path);
    let mut e = v.len();
    assert(v@.subrange(0, e as int) =~= v@);
    while e > 0
        invariant
            e <= v@.len(),
            v@ == path@,
            parent_folder(path@) == parent_folder(v@.subrange(0, e as int)),
        decreases e,
    {
        let ghost sub = v@.subrange(0, e as int);
        assert(sub.drop_last() =~= v@.subrange(0, e - 1));
        assert(sub.last() == v@[e - 1]);
        if v[e - 1] == '/' {
            let whole = v.as_slice();
            let head = &whole[0..e - 1];
            assert(head@ == v@.subrange(0, e - 1));
            return string_from(head);
        }
        e = e - 1;
    }
    proof {
        reveal_strlit("");
        assert(v@.subrange(0, 0) =~= Seq::<char>::empty());
    }
    "".to_owned()
}

/// The Packwiz arguments for one `[[curseforge.add]]` entry (see
/// [`add_args`]).
pub fn packwiz_add_args(add: &ExplicitFile, lock: &Lockfile) -> (r: Result<Vec<String>, Error>)
    ensures
        match add_args(*add, *lock) {
            Ok(args) => r matches Ok(v) && v@.map_values(|s: String| s@) == args,
            Err(e) => r matches Err(x) && x@ == e,
        },
{
    if let Err(e) = check_pack_path(add.path.as_str()) {
        return Err(e);
    }
    let mut i: usize = 0;
    assert(lock.file@.subrange(0, lock.file@.len() as int) =~= lock.file@);
    while i < lock.file.len()
        invariant
            i <= lock.file@.len(),
            pack_path_result(add.path@) is Ok,
            first_with_path(lock.file@, add.path@) == first_with_path(
                lock.file@.subrange(i as int, lock.file@.len() as int),
                add.path@,
            ),
        decreases lock.file@.len() - i,
    {
        let ghost rest = lock.file@.subrange(i as int, lock.file@.len() as int);
        assert(rest.drop_first() =~= lock.file@.subrange(i + 1, lock.file@.len() as int));
        assert(rest[0] == lock.file@[i as int]);
        if str_eq(lock.file[i].path.as_str(), add.path.as_str()) {
            assert(first_with_path(lock.file@, add.path@) == Some(lock.file@[i as int]));
            if !client_file(&lock.file[i]) {
                return Err(Error::new1(ErrorKind::NotClientFile, add.path.clone()));
            }
            let mut args: Vec<String> = Vec::new();
            args.push("--meta-folder".to_owned());
            args.push(parent_folder_string(add.path.as_str()));
            args.push("--yes".to_owned());
            args.push("curseforge".to_owned());
            args.push("add".to_owned());
            args.push("--addon-id".to_owned());
            args.push(decimal_string(add.project_id as u64));
            args.push("--file-id".to_owned());
            args.push(decimal_string(add.file_id as u64));
            assert(args@.map_values(|s: String| s@) =~= add_args(*add, *lock)->Ok_0);
            return Ok(args);
        }
        i = i + 1;
    }
    assert(lock.file@.subrange(i as int, lock.file@.len() as int) =~= Seq::<FileSpec>::empty());
    Err(Error::new1(ErrorKind::NotInLock, add.path.clone()))
}

} // verus!
