//! The Modrinth pack index (`modrinth.index.json`) made from the lockfile.

use crate::error::{failure, outcome, Error, ErrorKind, Failure};
use crate::order::{is_permutation, seq_lt, stable_order, stably_sorted, str_lt};
use crate::spec::{
    check_pack_path, pack_path_result, FileSpec, Lockfile, SideRequirement,
};
use crate::text::str_eq;
use vstd::prelude::*;

verus! {

/// Where a file of the index loads.
#[derive(Debug, Clone, Copy, PartialEq, Eq, Structural)]
pub struct MrpackEnv {
    pub client: SideRequirement,
    pub server: SideRequirement,
}

/// One file of the index. `hashes` maps algorithm to digest, sorted by key.
#[derive(Debug, Clone)]
pub struct MrpackFile {
    pub path: String,
    pub hashes: Vec<(String, String)>,
    pub env: MrpackEnv,
    pub downloads: Vec<String>,
    pub file_size: u64,
}

/// The index. `dependencies` maps a dependency to its version, sorted by key.
#[derive(Debug, Clone)]
pub struct MrpackIndex {
    pub format_version: u32,
    pub game: String,
    pub version_id: String,
    pub name: String,
    pub files: Vec<MrpackFile>,
    pub dependencies: Vec<(String, String)>,
}

/// The characters of a list of string pairs.
pub open spec fn pairs_view(v: Seq<(String, String)>) -> Seq<(Seq<char>, Seq<char>)> {
    v.map_values(|p: (String, String)| (p.0@, p.1@))
}

/// The characters of a list of strings.
pub open spec fn strings_view(v: Seq<String>) -> Seq<Seq<char>> {
    v.map_values(|s: String| s@)
}

/// `m` is the index entry for the pinned file `f`.
pub open spec fn index_entry(m: MrpackFile, f: FileSpec) -> bool {
    &&& m.path@ == f.path@
    &&& pairs_view(m.hashes@) == seq![("sha1"@, f.sha1@), ("sha512"@, f.sha512@)]
    &&& m.env == MrpackEnv { client: f.env.client, server: f.env.server }
    &&& strings_view(m.downloads@) == strings_view(f.downloads@)
    &&& m.file_size == f.file_size
}

/// A copy of a list of strings.
pub fn copy_strings(v: &Vec<String>) -> (r: Vec<String>)
    ensures
        r@ == v@,
{
    let mut r: Vec<String> = Vec::new();
    let mut i: usize = 0;
    while i < v.len()
        invariant
            i <= v@.len(),
            r@ == v@.subrange(0, i as int),
        decreases v@.len() - i,
    {
        r.push(v[i].clone());
        i = i + 1;
        assert(r@ =~= v@.subrange(0, i as int));
    }
    assert(v@.subrange(0, i as int) =~= v@);
    r
}

/// A copy of a list of string pairs.
pub fn copy_pairs(v: &Vec<(String, String)>) -> (r: Vec<(String, String)>)
    ensures
        r@ == v@,
{
    let mut r: Vec<(String, String)> = Vec::new();
    let mut i: usize = 0;
    while i < v.len()
        invariant
            i <= v@.len(),
            r@ == v@.subrange(0, i as int),
        decreases v@.len() - i,
    {
        r.push((v[i].0.clone(), v[i].1.clone()));
        i = i + 1;
        assert(r@ =~= v@.subrange(0, i as int));
    }
    assert(v@.subrange(0, i as int) =~= v@);
    r
}

impl MrpackFile {
    /// A copy with the same contents.
    pub fn copy(&self) -> (r: Self)
        ensures
            r.path == self.path,
            r.hashes@ == self.hashes@,
            r.env == self.env,
            r.downloads@ == self.downloads@,
            r.file_size == self.file_size,
    {
        MrpackFile {
            path: self.path.clone(),
            hashes: copy_pairs(&self.hashes),
            env: self.env,
            downloads: copy_strings(&self.downloads),
            file_size: self.file_size,
        }
    }
}

/// The index entry for a pinned file, once its path is checked.
fn mrpack_file(file: &FileSpec) -> (r: Result<MrpackFile, Error>)
    ensures
        match r {
            Ok(m) => pack_path_result(file.path@) is Ok && index_entry(m, *file),
            Err(e) => pack_path_result(file.path@) == Err::<(), Failure>(e@),
        },
{
    match check_pack_path(file.path.as_str()) {
        Err(e) => return Err(e),
        Ok(()) => {},
    }
    let mut hashes: Vec<(String, String)> = Vec::new();
    hashes.push(("sha1".to_owned(), file.sha1.clone()));
    hashes.push(("sha512".to_owned(), file.sha512.clone()));
    let m = MrpackFile {
        path: file.path.clone(),
        hashes,
        env: MrpackEnv { client: file.env.client, server: file.env.server },
        downloads: copy_strings(&file.downloads),
        file_size: file.file_size,
    };
    assert(pairs_view(m.hashes@) =~= seq![("sha1"@, file.sha1@), ("sha512"@, file.sha512@)]);
    Ok(m)
}

/// The dependency key under which the index names a loader.
pub open spec fn loader_key(loader: Seq<char>) -> Option<Seq<char>> {
    if loader == "fabric"@ {
        Some("fabric-loader"@)
    } else if loader == "forge"@ {
        Some("forge"@)
    } else if loader == "neoforge"@ {
        Some("neoforge"@)
    } else {
        None
    }
}

fn loader_dependency_key(loader: &str) -> (r: Result<&'static str, Error>)
    ensures
        match r {
            Ok(k) => loader_key(loader@) == Some(k@),
            Err(e) => loader_key(loader@) is None && e@ == failure(
                ErrorKind::UnsupportedLoaderKey,
                seq![loader@],
            ),
        },
{
    if str_eq(loader, "fabric") {
        Ok("fabric-loader")
    } else if str_eq(loader, "forge") {
        Ok("forge")
    } else if str_eq(loader, "neoforge") {
        Ok("neoforge")
    } else {
        Err(Error::new1(ErrorKind::UnsupportedLoaderKey, loader.to_owned()))
    }
}

/// The first file of `files` whose path is not a clean pack path.
pub open spec fn first_path_failure(files: Seq<FileSpec>) -> Option<Failure>
    decreases files.len(),
{
    if files.len() == 0 {
        None
    } else {
        match first_path_failure(files.drop_last()) {
            Some(e) => Some(e),
            None => match pack_path_result(files.last().path@) {
                Err(e) => Some(e),
                Ok(_) => None,
            },
        }
    }
}

/// The dependencies of a pack: Minecraft and its loader, sorted by key.
pub open spec fn dependency_pairs(minecraft: Seq<char>, key: Seq<char>, loader_version: Seq<
    char,
>) -> Seq<(Seq<char>, Seq<char>)> {
    if seq_lt(key, "minecraft"@) {
        seq![(key, loader_version), ("minecraft"@, minecraft)]
    } else {
        seq![("minecraft"@, minecraft), (key, loader_version)]
    }
}

/// The keys of a list of pairs strictly increase: the list holds a map as a
/// `BTreeMap` iterates it, each key once, in order.
pub open spec fn keys_sorted(pairs: Seq<(Seq<char>, Seq<char>)>) -> bool {
    forall|i: int, j: int| 0 <= i < j < pairs.len() ==> seq_lt(pairs[i].0, pairs[j].0)
}

/// The index's maps (the dependencies, and each file's hashes) are held as
/// sorted lists without repeated keys.
pub open spec fn index_well_formed(index: MrpackIndex) -> bool {
    &&& keys_sorted(pairs_view(index.dependencies@))
    &&& forall|k: int|
        0 <= k < index.files@.len() ==> keys_sorted(pairs_view(#[trigger] index.files@[k].hashes@))
}

proof fn lemma_hash_keys_sorted(a: Seq<char>, b: Seq<char>)
    ensures
        keys_sorted(seq![("sha1"@, a), ("sha512"@, b)]),
{
    reveal_strlit("sha1");
    reveal_strlit("sha512");
    let x = "sha1"@;
    let y = "sha512"@;
    assert(x.drop_first().drop_first().drop_first() =~= seq!['1']);
    assert(y.drop_first().drop_first().drop_first() =~= seq!['5', '1', '2']);
    assert(seq_lt(x.drop_first().drop_first().drop_first(), y.drop_first().drop_first().drop_first()));
    assert(seq_lt(x.drop_first().drop_first(), y.drop_first().drop_first()));
    assert(seq_lt(x.drop_first(), y.drop_first()));
    assert(seq_lt(x, y));
}

proof fn lemma_dependency_keys_sorted(minecraft: Seq<char>, loader: Seq<char>, version: Seq<char>)
    requires
        loader_key(loader) is Some,
    ensures
        keys_sorted(dependency_pairs(minecraft, loader_key(loader)->Some_0, version)),
{
    let key = loader_key(loader)->Some_0;
    reveal_strlit("minecraft");
    reveal_strlit("fabric-loader");
    reveal_strlit("forge");
    reveal_strlit("neoforge");
    assert(key[0] != 'm');
    assert("minecraft"@[0] == 'm');
    crate::order::lemma_lt_total(key, "minecraft"@);
}

/// `files` holds the index entries of `pinned`, ordered as a stable sort by
/// path orders them.
pub open spec fn sorted_entries(files: Seq<MrpackFile>, pinned: Seq<FileSpec>) -> bool {
    exists|p: Seq<usize>|
        {
            &&& is_permutation(p, pinned.len())
            &&& stably_sorted(p, pinned.map_values(|f: FileSpec| f.path@))
            &&& files.len() == p.len()
            &&& forall|k: int| 0 <= k < p.len() ==> index_entry(files[k], pinned[p[k] as int])
        }
}

proof fn lemma_first_path_failure_prefix(files: Seq<FileSpec>, n: int)
    requires
        0 <= n <= files.len(),
        first_path_failure(files.subrange(0, n)) is Some,
    ensures
        first_path_failure(files) == first_path_failure(files.subrange(0, n)),
    decreases files.len() - n,
{
    if n < files.len() {
        assert(files.drop_last().subrange(0, n) =~= files.subrange(0, n));
        lemma_first_path_failure_prefix(files.drop_last(), n);
    } else {
        assert(files.subrange(0, n) =~= files);
    }
}

/// The Modrinth index of a lockfile: format 1 for Minecraft, the pack's
/// version and name, an entry for every pinned file (SHA-1 and SHA-512,
/// environment, downloads, size) sorted by path, and Minecraft and the loader
/// as dependencies. Fails on the first file whose path is not a clean pack
/// path, then on a loader that the index cannot name.
pub fn index_from_lock(lock: &Lockfile) -> (r: Result<MrpackIndex, Error>)
    ensures
        match first_path_failure(lock.file@) {
            Some(e) => r matches Err(x) && x@ == e,
            None => match loader_key(lock.pack.loader@) {
                None => r matches Err(x) && x@ == failure(
                    ErrorKind::UnsupportedLoaderKey,
                    seq![lock.pack.loader@],
                ),
                Some(key) => r matches Ok(index) && {
                    &&& index.format_version == 1
                    &&& index.game@ == "minecraft"@
                    &&& index.version_id@ == lock.pack.version@
                    &&& index.name@ == lock.pack.name@
                    &&& sorted_entries(index.files@, lock.file@)
                    &&& index_well_formed(index)
                    &&& pairs_view(index.dependencies@) == dependency_pairs(
                        lock.pack.minecraft@,
                        key,
                        lock.pack.loader_version@,
                    )
                },
            },
        },
{
    let mut entries: Vec<MrpackFile> = Vec::new();
    let mut keys: Vec<String> = Vec::new();
    let mut i: usize = 0;
    while i < lock.file.len()
        invariant
            i <= lock.file@.len(),
            first_path_failure(lock.file@.subrange(0, i as int)) is None,
            entries@.len() == i,
            keys@.len() == i,
            forall|k: int|
                0 <= k < i ==> index_entry(entries@[k], lock.file@[k]) && keys@[k]@
                    == lock.file@[k].path@,
        decreases lock.file@.len() - i,
    {
        assert(lock.file@.subrange(0, i + 1).drop_last() =~= lock.file@.subrange(0, i as int));
        match mrpack_file(&lock.file[i]) {
            Err(e) => {
                proof {
                    lemma_first_path_failure_prefix(lock.file@, i + 1);
                }
                return Err(e);
            },
            Ok(m) => {
                entries.push(m);
                keys.push(lock.file[i].path.clone());
            },
        }
        i = i + 1;
    }
    assert(lock.file@.subrange(0, i as int) =~= lock.file@);
    let key = match loader_dependency_key(lock.pack.loader.as_str()) {
        Err(e) => return Err(e),
        Ok(k) => k,
    };
    let order = stable_order(&keys);
    let ghost paths = lock.file@.map_values(|f: FileSpec| f.path@);
    assert(keys@.map_values(|k: String| k@) =~= paths);
    let mut files: Vec<MrpackFile> = Vec::new();
    let mut k: usize = 0;
    while k < order.len()
        invariant
            is_permutation(order@, lock.file@.len()),
            entries@.len() == lock.file@.len(),
            forall|t: int| 0 <= t < lock.file@.len() ==> index_entry(entries@[t], lock.file@[t]),
            k <= order@.len(),
            files@.len() == k,
            forall|t: int|
                0 <= t < k ==> index_entry(files@[t], lock.file@[order@[t] as int]),
        decreases order@.len() - k,
    {
        files.push(entries[order[k]].copy());
        k = k + 1;
    }
    let mut dependencies: Vec<(String, String)> = Vec::new();
    if str_lt(key, "minecraft") {
        dependencies.push((key.to_owned(), lock.pack.loader_version.clone()));
        dependencies.push(("minecraft".to_owned(), lock.pack.minecraft.clone()));
    } else {
        dependencies.push(("minecraft".to_owned(), lock.pack.minecraft.clone()));
        dependencies.push((key.to_owned(), lock.pack.loader_version.clone()));
    }
    let index = MrpackIndex {
        format_version: 1,
        game: "minecraft".to_owned(),
        version_id: lock.pack.version.clone(),
        name: lock.pack.name.clone(),
        files,
        dependencies,
    };
    assert(pairs_view(index.dependencies@) =~= dependency_pairs(
        lock.pack.minecraft@,
        key@,
        lock.pack.loader_version@,
    ));
    assert(sorted_entries(index.files@, lock.file@));
    proof {
        lemma_dependency_keys_sorted(lock.pack.minecraft@, lock.pack.loader@, lock.pack.loader_version@);
        assert forall|k: int| 0 <= k < index.files@.len() implies keys_sorted(
            pairs_view(#[trigger] index.files@[k].hashes@),
        ) by {
            let f = lock.file@[order@[k] as int];
            lemma_hash_keys_sorted(f.sha1@, f.sha512@);
        }
    }
    Ok(index)
}

} // verus!

verus! {

/// Some entry of `files` is the one for `f`.
pub open spec fn has_entry(files: Seq<MrpackFile>, f: FileSpec) -> bool {
    exists|k: int| 0 <= k < files.len() && index_entry(files[k], f)
}

/// The index omits nothing and sorts: each pinned file has exactly the entry
/// for it, and the entries come in path order.
pub proof fn law_index_omits_nothing_and_sorts(files: Seq<MrpackFile>, pinned: Seq<FileSpec>)
    requires
        sorted_entries(files, pinned),
    ensures
        files.len() == pinned.len(),
        forall|i: int| 0 <= i < pinned.len() ==> has_entry(files, #[trigger] pinned[i]),
        forall|k: int, l: int|
            0 <= k < l < files.len() ==> !seq_lt(files[l].path@, files[k].path@),
{
    let p = choose|p: Seq<usize>|
        {
            &&& is_permutation(p, pinned.len())
            &&& stably_sorted(p, pinned.map_values(|f: FileSpec| f.path@))
            &&& files.len() == p.len()
            &&& forall|k: int| 0 <= k < p.len() ==> index_entry(files[k], pinned[p[k] as int])
        };
    let keys = pinned.map_values(|f: FileSpec| f.path@);
    assert forall|i: int| 0 <= i < pinned.len() implies has_entry(files, #[trigger] pinned[i]) by {
        // p is injective on indices below n, so it also covers them
        lemma_permutation_covers(p, pinned.len(), i);
        let k = choose|k: int| 0 <= k < p.len() && p[k] == i;
        assert(index_entry(files[k], pinned[p[k] as int]));
        assert(p[k] as int == i);
        assert(0 <= k < files.len() && index_entry(files[k], pinned[i]));
    }
    assert forall|k: int, l: int| 0 <= k < l < files.len() implies !seq_lt(
        files[l].path@,
        files[k].path@,
    ) by {
        assert(seq_lt(keys[p[k] as int], keys[p[l] as int]) || keys[p[k] as int] == keys[p[l] as int]);
        assert(index_entry(files[k], pinned[p[k] as int]));
        assert(index_entry(files[l], pinned[p[l] as int]));
        crate::order::lemma_lt_asymmetric(keys[p[k] as int], keys[p[l] as int]);
        crate::order::lemma_lt_irreflexive(keys[p[k] as int]);
    }
}

/// An injective list of `n` indices below `n` holds every index below `n`.
pub proof fn lemma_permutation_covers(p: Seq<usize>, n: nat, i: int)
    requires
        is_permutation(p, n),
        0 <= i < n,
    ensures
        exists|k: int| 0 <= k < p.len() && p[k] == i,
{
    let q = p.map_values(|x: usize| x as int);
    if !(exists|k: int| 0 <= k < p.len() && p[k] == i) {
        assert(q.no_duplicates()) by {
            assert forall|a: int, b: int| 0 <= a < q.len() && 0 <= b < q.len() && a != b implies q[a]
                != q[b] by {
                if a < b {
                    assert(p[a] != p[b]);
                } else {
                    assert(p[b] != p[a]);
                }
            }
        }
        q.unique_seq_to_set();
        let range = vstd::set_lib::set_int_range(0, n as int);
        vstd::set_lib::lemma_int_range(0, n as int);
        let rest = range.remove(i);
        assert(q.to_set().subset_of(rest)) by {
            assert forall|x: int| q.to_set().contains(x) implies rest.contains(x) by {
                let k = choose|k: int| 0 <= k < q.len() && q[k] == x;
                assert(p[k] < n);
                assert(p[k] != i);
            }
        }
        vstd::set_lib::lemma_len_subset(q.to_set(), rest);
        assert(range.contains(i));
        assert(false);
    }
}

} // verus!

verus! {

// ------------------------------------------------------------ overrides

/// A directory entry that the override walks leave out: macOS metadata and
/// editor backups.
pub open spec fn skipped_name(name: Seq<char>) -> bool {
    name == ".DS_Store"@ || crate::text::seq_starts_with(name, "._"@)
        || crate::text::seq_ends_with(name, ".bak"@)
}

/// The archive path of the override entry `name` under `prefix`, or
/// nothing for an entry that is left out; an archive path must be a clean
/// pack path.
pub fn override_entry(prefix: &str, name: &str) -> (r: Result<Option<String>, Error>)
    ensures
        ({
            let path = prefix@ + "/"@ + name@;
            if skipped_name(name@) {
                r matches Ok(None)
            } else {
                match pack_path_result(path) {
                    Ok(_) => r matches Ok(Some(p)) && p@ == path,
                    Err(e) => r matches Err(x) && x@ == e,
                }
            }
        }),
{
    if str_eq(name, ".DS_Store") || crate::text::starts_with(name, "._") || crate::text::ends_with(
        name,
        ".bak",
    ) {
        return Ok(None);
    }
    let mut path = prefix.to_owned();
    path.append("/");
    path.append(name);
    match check_pack_path(path.as_str()) {
        Ok(()) => Ok(Some(path)),
        Err(e) => Err(e),
    }
}

} // verus!
