//! Comparing our Modrinth index and archive with a published pack.

use crate::error::{failure, outcome, Error, ErrorKind, Failure};
use crate::export::{
    index_well_formed, keys_sorted, pairs_view, strings_view, MrpackFile, MrpackIndex,
};
use crate::order::{seq_lt, str_lt};
use crate::spec::{
    as_result, check_pack_path, pack_path_result, side_name, Lockfile, PackMeta,
};
use crate::text::{
    chars_of, decimal, decimal_string, escaped, push_char, push_escaped, str_eq, Escape,
};
use vstd::prelude::*;

verus! {

/// The environment of a published index entry, as written there.
#[derive(Debug, Clone)]
pub struct ParsedEnv {
    pub client: String,
    pub server: String,
}

/// One file of a published index. `hashes` is sorted by key.
#[derive(Debug, Clone)]
pub struct ParsedFile {
    pub path: String,
    pub hashes: Vec<(String, String)>,
    pub env: ParsedEnv,
    pub downloads: Vec<String>,
    pub file_size: u64,
}

/// A published Modrinth index. `dependencies` is sorted by key.
#[derive(Debug, Clone)]
pub struct ParsedIndex {
    pub format_version: u32,
    pub game: String,
    pub version_id: String,
    pub name: String,
    pub files: Vec<ParsedFile>,
    pub dependencies: Vec<(String, String)>,
}

/// The value of `key` in a list of pairs read as a map: the last pair with
/// that key, as inserting them in order leaves it.
pub open spec fn lookup(pairs: Seq<(Seq<char>, Seq<char>)>, key: Seq<char>) -> Option<Seq<char>>
    decreases pairs.len(),
{
    if pairs.len() == 0 {
        None
    } else if pairs.last().0 == key {
        Some(pairs.last().1)
    } else {
        lookup(pairs.drop_last(), key)
    }
}

fn lookup_exec(pairs: &Vec<(String, String)>, key: &str) -> (r: Option<usize>)
    ensures
        match r {
            Some(i) => i < pairs@.len() && lookup(pairs_view(pairs@), key@) == Some(
                pairs@[i as int].1@,
            ),
            None => lookup(pairs_view(pairs@), key@) is None,
        },
{
    let mut n = pairs.len();
    assert(pairs@.subrange(0, n as int) =~= pairs@);
    while n > 0
        invariant
            n <= pairs@.len(),
            lookup(pairs_view(pairs@), key@) == lookup(pairs_view(pairs@.subrange(0, n as int)), key@),
        decreases n,
    {
        let ghost pre = pairs_view(pairs@.subrange(0, n as int));
        assert(pre.last() == (pairs@[n - 1].0@, pairs@[n - 1].1@));
        if str_eq(pairs[n - 1].0.as_str(), key) {
            return Some(n - 1);
        }
        assert(pre.drop_last() =~= pairs_view(pairs@.subrange(0, n - 1)));
        n = n - 1;
    }
    assert(pairs_view(pairs@.subrange(0, 0)) =~= Seq::empty());
    None
}

fn same_lookup(a: &Vec<(String, String)>, b: &Vec<(String, String)>, key: &str) -> (r: bool)
    ensures
        r == (lookup(pairs_view(a@), key@) == lookup(pairs_view(b@), key@)),
{
    match (lookup_exec(a, key), lookup_exec(b, key)) {
        (None, None) => true,
        (Some(i), Some(j)) => str_eq(a[i].1.as_str(), b[j].1.as_str()),
        _ => false,
    }
}

pub(crate) fn same_strings(a: &Vec<String>, b: &Vec<String>) -> (r: bool)
    ensures
        r == (strings_view(a@) == strings_view(b@)),
{
    if a.len() != b.len() {
        assert(strings_view(a@).len() != strings_view(b@).len());
        return false;
    }
    let mut i: usize = 0;
    while i < a.len()
        invariant
            a@.len() == b@.len(),
            i <= a@.len(),
            forall|j: int| 0 <= j < i ==> a@[j]@ == b@[j]@,
        decreases a@.len() - i,
    {
        if !str_eq(a[i].as_str(), b[i].as_str()) {
            assert(strings_view(a@)[i as int] != strings_view(b@)[i as int]);
            return false;
        }
        i = i + 1;
    }
    assert(strings_view(a@) =~= strings_view(b@));
    true
}

fn same_pairs(a: &Vec<(String, String)>, b: &Vec<(String, String)>) -> (r: bool)
    ensures
        r == (pairs_view(a@) == pairs_view(b@)),
{
    if a.len() != b.len() {
        assert(pairs_view(a@).len() != pairs_view(b@).len());
        return false;
    }
    let mut i: usize = 0;
    while i < a.len()
        invariant
            a@.len() == b@.len(),
            i <= a@.len(),
            forall|j: int| 0 <= j < i ==> a@[j].0@ == b@[j].0@ && a@[j].1@ == b@[j].1@,
        decreases a@.len() - i,
    {
        if !str_eq(a[i].0.as_str(), b[i].0.as_str()) || !str_eq(a[i].1.as_str(), b[i].1.as_str()) {
            assert(pairs_view(a@)[i as int] != pairs_view(b@)[i as int]);
            return false;
        }
        i = i + 1;
    }
    assert(pairs_view(a@) =~= pairs_view(b@));
    true
}

/// `"k": "v"` pairs as `Debug` writes a map of strings, without the braces.
pub open spec fn debug_entries(pairs: Seq<(Seq<char>, Seq<char>)>) -> Seq<char>
    decreases pairs.len(),
{
    if pairs.len() == 0 {
        Seq::empty()
    } else {
        let entry = seq!['"'] + escaped(pairs.last().0, Escape::Debug) + "\": \""@ + escaped(
            pairs.last().1,
            Escape::Debug,
        ) + seq!['"'];
        if pairs.len() == 1 {
            entry
        } else {
            debug_entries(pairs.drop_last()) + ", "@ + entry
        }
    }
}

/// A map of strings as `Debug` writes it.
pub open spec fn debug_map(pairs: Seq<(Seq<char>, Seq<char>)>) -> Seq<char> {
    seq!['{'] + debug_entries(pairs) + seq!['}']
}

fn debug_map_string(pairs: &Vec<(String, String)>) -> (r: String)
    ensures
        r@ == debug_map(pairs_view(pairs@)),
{
    let mut out = String::new();
    push_char(&mut out, '{');
    let mut i: usize = 0;
    while i < pairs.len()
        invariant
            i <= pairs@.len(),
            out@ == seq!['{'] + debug_entries(pairs_view(pairs@.subrange(0, i as int))),
        decreases pairs@.len() - i,
    {
        let ghost before = out@;
        if i > 0 {
            out.append(", ");
        }
        push_char(&mut out, '"');
        push_escaped(&mut out, pairs[i].0.as_str(), Escape::Debug);
        out.append("\": \"");
        push_escaped(&mut out, pairs[i].1.as_str(), Escape::Debug);
        push_char(&mut out, '"');
        let ghost pre = pairs_view(pairs@.subrange(0, i + 1));
        assert(pre.drop_last() =~= pairs_view(pairs@.subrange(0, i as int)));
        assert(pre.last() == (pairs@[i as int].0@, pairs@[i as int].1@));
        i = i + 1;
        assert(out@ =~= seq!['{'] + debug_entries(pairs_view(pairs@.subrange(0, i as int))));
    }
    assert(pairs@.subrange(0, i as int) =~= pairs@);
    push_char(&mut out, '}');
    assert(out@ =~= debug_map(pairs_view(pairs@)));
    out
}

/// The first difference between one of our index entries and the published
/// entry for the same path.
pub open spec fn file_mismatch(ours: MrpackFile, published: ParsedFile) -> Option<Failure> {
    let path = ours.path@;
    if ours.file_size != published.file_size {
        Some(
            failure(
                ErrorKind::SizeMismatch,
                seq![path, decimal(ours.file_size as nat), decimal(published.file_size as nat)],
            ),
        )
    } else if strings_view(ours.downloads@) != strings_view(published.downloads@) {
        Some(failure(ErrorKind::DownloadsDiffer, seq![path]))
    } else if lookup(pairs_view(ours.hashes@), "sha1"@) != lookup(
        pairs_view(published.hashes@),
        "sha1"@,
    ) {
        Some(failure(ErrorKind::Sha1Differs, seq![path]))
    } else if lookup(pairs_view(ours.hashes@), "sha512"@) != lookup(
        pairs_view(published.hashes@),
        "sha512"@,
    ) {
        Some(failure(ErrorKind::Sha512Differs, seq![path]))
    } else if side_name(ours.env.client) != published.env.client@ {
        Some(
            failure(
                ErrorKind::ClientEnvMismatch,
                seq![path, side_name(ours.env.client), published.env.client@],
            ),
        )
    } else if side_name(ours.env.server) != published.env.server@ {
        Some(
            failure(
                ErrorKind::ServerEnvMismatch,
                seq![path, side_name(ours.env.server), published.env.server@],
            ),
        )
    } else {
        None
    }
}

fn compare_file(ours: &MrpackFile, published: &ParsedFile) -> (r: Result<(), Error>)
    ensures
        outcome(r) == as_result(file_mismatch(*ours, *published)),
{
    if ours.file_size != published.file_size {
        return Err(
            Error::new3(
                ErrorKind::SizeMismatch,
                ours.path.clone(),
                decimal_string(ours.file_size),
                decimal_string(published.file_size),
            ),
        );
    }
    if !same_strings(&ours.downloads, &published.downloads) {
        return Err(Error::new1(ErrorKind::DownloadsDiffer, ours.path.clone()));
    }
    if !same_lookup(&ours.hashes, &published.hashes, "sha1") {
        return Err(Error::new1(ErrorKind::Sha1Differs, ours.path.clone()));
    }
    if !same_lookup(&ours.hashes, &published.hashes, "sha512") {
        return Err(Error::new1(ErrorKind::Sha512Differs, ours.path.clone()));
    }
    let client = ours.env.client.as_str();
    let server = ours.env.server.as_str();
    if !str_eq(client, published.env.client.as_str()) {
        return Err(
            Error::new3(
                ErrorKind::ClientEnvMismatch,
                ours.path.clone(),
                client.to_owned(),
                published.env.client.clone(),
            ),
        );
    }
    if !str_eq(server, published.env.server.as_str()) {
        return Err(
            Error::new3(
                ErrorKind::ServerEnvMismatch,
                ours.path.clone(),
                server.to_owned(),
                published.env.server.clone(),
            ),
        );
    }
    Ok(())
}

/// The published entry for `path`: the last one with that path, as a map
/// keyed by path built in order keeps it.
pub open spec fn published_entry(files: Seq<ParsedFile>, path: Seq<char>) -> Option<ParsedFile>
    decreases files.len(),
{
    if files.len() == 0 {
        None
    } else if files.last().path@ == path {
        Some(files.last())
    } else {
        published_entry(files.drop_last(), path)
    }
}

fn find_published(files: &Vec<ParsedFile>, path: &str) -> (r: Option<usize>)
    ensures
        match r {
            Some(i) => i < files@.len() && published_entry(files@, path@) == Some(files@[i as int]),
            None => published_entry(files@, path@) is None,
        },
{
    let mut n = files.len();
    assert(files@.subrange(0, n as int) =~= files@);
    while n > 0
        invariant
            n <= files@.len(),
            published_entry(files@, path@) == published_entry(files@.subrange(0, n as int), path@),
        decreases n,
    {
        let ghost pre = files@.subrange(0, n as int);
        assert(pre.last() == files@[n - 1]);
        if str_eq(files[n - 1].path.as_str(), path) {
            return Some(n - 1);
        }
        assert(pre.drop_last() =~= files@.subrange(0, n - 1));
        n = n - 1;
    }
    None
}

/// The first of our entries, in order, that the published index lacks or
/// that differs from it.
pub open spec fn files_mismatch(ours: Seq<MrpackFile>, published: Seq<ParsedFile>) -> Option<
    Failure,
>
    decreases ours.len(),
{
    if ours.len() == 0 {
        None
    } else {
        match files_mismatch(ours.drop_last(), published) {
            Some(e) => Some(e),
            None => match published_entry(published, ours.last().path@) {
                None => Some(failure(ErrorKind::ExtraFile, seq![ours.last().path@])),
                Some(p) => file_mismatch(ours.last(), p),
            },
        }
    }
}

/// The first difference between our index and a published one, checked in
/// this order: format, game, name, version, dependencies, file count, files.
pub open spec fn index_mismatch(ours: MrpackIndex, published: ParsedIndex) -> Option<Failure> {
    if published.format_version != ours.format_version {
        Some(
            failure(
                ErrorKind::FormatVersionMismatch,
                seq![
                    decimal(ours.format_version as nat),
                    decimal(published.format_version as nat),
                ],
            ),
        )
    } else if published.game@ != ours.game@ {
        Some(failure(ErrorKind::GameMismatch, seq![ours.game@, published.game@]))
    } else if published.name@ != ours.name@ {
        Some(failure(ErrorKind::NameMismatch, seq![ours.name@, published.name@]))
    } else if published.version_id@ != ours.version_id@ {
        Some(failure(ErrorKind::VersionIdMismatch, seq![ours.version_id@, published.version_id@]))
    } else if pairs_view(published.dependencies@) != pairs_view(ours.dependencies@) {
        Some(
            failure(
                ErrorKind::DependenciesMismatch,
                seq![
                    debug_map(pairs_view(ours.dependencies@)),
                    debug_map(pairs_view(published.dependencies@)),
                ],
            ),
        )
    } else if ours.files@.len() != published.files@.len() {
        Some(
            failure(
                ErrorKind::FileCountMismatch,
                seq![decimal(ours.files@.len()), decimal(published.files@.len())],
            ),
        )
    } else {
        files_mismatch(ours.files@, published.files@)
    }
}

proof fn lemma_files_mismatch_prefix(ours: Seq<MrpackFile>, published: Seq<ParsedFile>, n: int)
    requires
        0 <= n <= ours.len(),
        files_mismatch(ours.subrange(0, n), published) is Some,
    ensures
        files_mismatch(ours, published) == files_mismatch(ours.subrange(0, n), published),
    decreases ours.len() - n,
{
    if n < ours.len() {
        assert(ours.drop_last().subrange(0, n) =~= ours.subrange(0, n));
        lemma_files_mismatch_prefix(ours.drop_last(), published, n);
    } else {
        assert(ours.subrange(0, n) =~= ours);
    }
}

/// Compares our index with a published one: the same format, game, name,
/// version and dependencies, as many files, and for each of our files a
/// published entry at its path with the same size, downloads, hashes and
/// environment.
#[verifier::loop_isolation(false)]
pub fn compare(ours: &MrpackIndex, published: &ParsedIndex) -> (r: Result<(), Error>)
    requires
        index_well_formed(*ours),
        parsed_well_formed(*published),
    ensures
        outcome(r) == as_result(index_mismatch(*ours, *published)),
{
    if published.format_version != ours.format_version {
        return Err(
            Error::new2(
                ErrorKind::FormatVersionMismatch,
                decimal_string(ours.format_version as u64),
                decimal_string(published.format_version as u64),
            ),
        );
    }
    if !str_eq(published.game.as_str(), ours.game.as_str()) {
        return Err(Error::new2(ErrorKind::GameMismatch, ours.game.clone(), published.game.clone()));
    }
    if !str_eq(published.name.as_str(), ours.name.as_str()) {
        return Err(Error::new2(ErrorKind::NameMismatch, ours.name.clone(), published.name.clone()));
    }
    if !str_eq(published.version_id.as_str(), ours.version_id.as_str()) {
        return Err(
            Error::new2(
                ErrorKind::VersionIdMismatch,
                ours.version_id.clone(),
                published.version_id.clone(),
            ),
        );
    }
    if !same_pairs(&published.dependencies, &ours.dependencies) {
        return Err(
            Error::new2(
                ErrorKind::DependenciesMismatch,
                debug_map_string(&ours.dependencies),
                debug_map_string(&published.dependencies),
            ),
        );
    }
    if ours.files.len() != published.files.len() {
        return Err(
            Error::new2(
                ErrorKind::FileCountMismatch,
                decimal_string(ours.files.len() as u64),
                decimal_string(published.files.len() as u64),
            ),
        );
    }
    let mut i: usize = 0;
    while i < ours.files.len()
        invariant
            i <= ours.files@.len(),
            files_mismatch(ours.files@.subrange(0, i as int), published.files@) is None,
        decreases ours.files@.len() - i,
    {
        let f = &ours.files[i];
        assert(ours.files@.subrange(0, i + 1).drop_last() =~= ours.files@.subrange(0, i as int));
        assert(ours.files@.subrange(0, i + 1).last() == ours.files@[i as int]);
        match find_published(&published.files, f.path.as_str()) {
            None => {
                proof {
                    lemma_files_mismatch_prefix(ours.files@, published.files@, i + 1);
                }
                return Err(Error::new1(ErrorKind::ExtraFile, f.path.clone()));
            },
            Some(j) => match compare_file(f, &published.files[j]) {
                Err(e) => {
                    proof {
                        lemma_files_mismatch_prefix(ours.files@, published.files@, i + 1);
                    }
                    return Err(e);
                },
                Ok(()) => {},
            },
        }
        i = i + 1;
    }
    assert(ours.files@.subrange(0, i as int) =~= ours.files@);
    Ok(())
}

/// `https://maven.kaf.sh/<group as path>/<slug>/<version>/<slug>-<version>-client.mrpack`,
/// the client pack that the Maven repository publishes.
pub open spec fn default_against_url(m: PackMeta) -> Seq<char> {
    "https://maven.kaf.sh/"@ + escaped(m.group@, Escape::Dots) + "/"@ + m.slug@ + "/"@
        + m.version@ + "/"@ + m.slug@ + "-"@ + m.version@ + "-client.mrpack"@
}

/// Where the published pack of this version lives on the Kaf Maven.
pub fn default_against(lock: &Lockfile) -> (r: String)
    ensures
        r@ == default_against_url(lock.pack),
{
    let mut s = "https://maven.kaf.sh/".to_owned();
    push_escaped(&mut s, lock.pack.group.as_str(), Escape::Dots);
    s.append("/");
    s.append(lock.pack.slug.as_str());
    s.append("/");
    s.append(lock.pack.version.as_str());
    s.append("/");
    s.append(lock.pack.slug.as_str());
    s.append("-");
    s.append(lock.pack.version.as_str());
    s.append("-client.mrpack");
    s
}

} // verus!

verus! {

/// `p` is how the published index writes our entry `m`.
pub open spec fn mirrors(p: ParsedFile, m: MrpackFile) -> bool {
    &&& p.path@ == m.path@
    &&& pairs_view(p.hashes@) == pairs_view(m.hashes@)
    &&& p.env.client@ == side_name(m.env.client)
    &&& p.env.server@ == side_name(m.env.server)
    &&& strings_view(p.downloads@) == strings_view(m.downloads@)
    &&& p.file_size == m.file_size
}

proof fn lemma_published_entry_at(files: Seq<ParsedFile>, k: int)
    requires
        0 <= k < files.len(),
        forall|i: int, j: int| 0 <= i < j < files.len() ==> files[i].path@ != files[j].path@,
    ensures
        published_entry(files, files[k].path@) == Some(files[k]),
    decreases files.len(),
{
    if k < files.len() - 1 {
        let init = files.drop_last();
        assert(files.last().path@ != files[k].path@);
        assert forall|i: int, j: int| 0 <= i < j < init.len() implies init[i].path@
            != init[j].path@ by {
            assert(init[i] == files[i] && init[j] == files[j]);
        }
        lemma_published_entry_at(init, k);
        assert(init[k] == files[k]);
    }
}

/// Our index compared with its own faithful publication finds no
/// difference, provided no two of its files share a path (which a lockfile
/// that validates guarantees).
pub proof fn law_index_matches_its_publication(ours: MrpackIndex, published: ParsedIndex)
    requires
        published.format_version == ours.format_version,
        published.game@ == ours.game@,
        published.name@ == ours.name@,
        published.version_id@ == ours.version_id@,
        pairs_view(published.dependencies@) == pairs_view(ours.dependencies@),
        published.files@.len() == ours.files@.len(),
        forall|k: int|
            0 <= k < ours.files@.len() ==> mirrors(published.files@[k], #[trigger] ours.files@[k]),
        forall|i: int, j: int|
            0 <= i < j < ours.files@.len() ==> ours.files@[i].path@ != ours.files@[j].path@,
    ensures
        index_mismatch(ours, published) is None,
{
    let pf = published.files@;
    assert forall|i: int, j: int| 0 <= i < j < pf.len() implies pf[i].path@ != pf[j].path@ by {
        assert(mirrors(pf[i], ours.files@[i]) && mirrors(pf[j], ours.files@[j]));
    }
    assert forall|n: int| 0 <= n <= ours.files@.len() implies files_mismatch(
        #[trigger] ours.files@.subrange(0, n),
        pf,
    ) is None by {
        lemma_prefix_matches(ours.files@, pf, n);
    }
    assert(ours.files@.subrange(0, ours.files@.len() as int) =~= ours.files@);
}

proof fn lemma_prefix_matches(ours: Seq<MrpackFile>, pf: Seq<ParsedFile>, n: int)
    requires
        0 <= n <= ours.len(),
        pf.len() == ours.len(),
        forall|k: int| 0 <= k < ours.len() ==> mirrors(pf[k], #[trigger] ours[k]),
        forall|i: int, j: int| 0 <= i < j < pf.len() ==> pf[i].path@ != pf[j].path@,
    ensures
        files_mismatch(ours.subrange(0, n), pf) is None,
    decreases n,
{
    if n > 0 {
        lemma_prefix_matches(ours, pf, n - 1);
        let pre = ours.subrange(0, n);
        assert(pre.drop_last() =~= ours.subrange(0, n - 1));
        assert(pre.last() == ours[n - 1]);
        assert(mirrors(pf[n - 1], ours[n - 1]));
        lemma_published_entry_at(pf, n - 1);
    }
}

} // verus!

verus! {

// ------------------------------------------------------------- archives

/// What the zip crate reads from an archive: how many entries its central
/// directory lists, or the message of the error that stopped it.
pub uninterp spec fn zip_entry_count(bytes: Seq<u8>) -> Result<nat, Seq<char>>;

/// What the zip crate reads as the name of entry `index`, or the message of
/// the error that stopped it.
pub uninterp spec fn zip_entry_name(bytes: Seq<u8>, index: nat) -> Result<Seq<char>, Seq<char>>;

/// What the zip crate reads as the uncompressed contents of entry `index`,
/// or the message of the error that stopped it.
pub uninterp spec fn zip_entry_data(bytes: Seq<u8>, index: nat) -> Result<Seq<u8>, Seq<char>>;

/// `zip::ZipArchive::new` then `ZipArchive::len`, trusted: what it returns
/// (the entry count, or the error's message) is `zip_entry_count` of the
/// bytes; nothing more about the archive is claimed.
#[verifier::external_body]
fn read_entry_count(bytes: &[u8]) -> (r: Result<usize, String>)
    ensures
        match r {
            Ok(n) => zip_entry_count(bytes@) == Ok::<nat, Seq<char>>(n as nat),
            Err(m) => zip_entry_count(bytes@) == Err::<nat, Seq<char>>(m@),
        },
{
    match zip::ZipArchive::new(std::io::Cursor::new(bytes)) {
        Ok(archive) => Ok(archive.len()),
        Err(error) => Err(error.to_string()),
    }
}

/// `zip::ZipArchive::by_index` then `ZipFile::name`, trusted: what it
/// returns (the entry's name, or the error's message) is `zip_entry_name` of
/// the bytes and the index; nothing more is claimed.
#[verifier::external_body]
fn read_entry_name(bytes: &[u8], index: usize) -> (r: Result<String, String>)
    ensures
        match r {
            Ok(n) => zip_entry_name(bytes@, index as nat) == Ok::<Seq<char>, Seq<char>>(n@),
            Err(m) => zip_entry_name(bytes@, index as nat) == Err::<Seq<char>, Seq<char>>(m@),
        },
{
    let mut archive = match zip::ZipArchive::new(std::io::Cursor::new(bytes)) {
        Ok(archive) => archive,
        Err(error) => return Err(error.to_string()),
    };
    let name = match archive.by_index(index) {
        Ok(file) => Ok(file.name().to_string()),
        Err(error) => Err(error.to_string()),
    };
    name
}

/// `zip::ZipArchive::by_index` then `Read::read_to_end`, trusted: what it
/// returns (the entry's uncompressed bytes, or the error's message) is
/// `zip_entry_data` of the bytes and the index; nothing more is claimed.
#[verifier::external_body]
fn read_entry_data(bytes: &[u8], index: usize) -> (r: Result<Vec<u8>, String>)
    ensures
        match r {
            Ok(d) => zip_entry_data(bytes@, index as nat) == Ok::<Seq<u8>, Seq<char>>(d@),
            Err(m) => zip_entry_data(bytes@, index as nat) == Err::<Seq<u8>, Seq<char>>(m@),
        },
{
    let mut archive = match zip::ZipArchive::new(std::io::Cursor::new(bytes)) {
        Ok(archive) => archive,
        Err(error) => return Err(error.to_string()),
    };
    let mut file = match archive.by_index(index) {
        Ok(file) => file,
        Err(error) => return Err(error.to_string()),
    };
    let mut contents = Vec::new();
    let read = match std::io::Read::read_to_end(&mut file, &mut contents) {
        Ok(_) => Ok(contents),
        Err(error) => Err(error.to_string()),
    };
    read
}

/// A zip entry names a directory: its name ends in `/` or `\`.
pub open spec fn names_dir(name: Seq<char>) -> bool {
    name.len() > 0 && (name.last() == '/' || name.last() == '\\')
}

/// The entry list already holds `name`.
pub open spec fn has_entry(es: Seq<(Seq<char>, Seq<u8>)>, name: Seq<char>) -> bool {
    exists|i: int| 0 <= i < es.len() && es[i].0 == name
}

/// The failure of a read that the zip crate could not do.
pub open spec fn unreadable(message: Seq<char>) -> Failure {
    failure(ErrorKind::ArchiveUnreadable, seq![message])
}

/// Reading entry `i` into the entries read so far: directories are
/// skipped; other names must be clean pack paths (the index file aside) and
/// must not repeat.
pub open spec fn read_step(bytes: Seq<u8>, i: nat, acc: Seq<(Seq<char>, Seq<u8>)>) -> Result<
    Seq<(Seq<char>, Seq<u8>)>,
    Failure,
> {
    match zip_entry_name(bytes, i) {
        Err(m) => Err(unreadable(m)),
        Ok(name) => match entry_kept(name) {
            Err(e) => Err(e),
            Ok(false) => Ok(acc),
            Ok(true) => match zip_entry_data(bytes, i) {
                Err(m) => Err(unreadable(m)),
                Ok(data) => entry_added(acc, name, data),
            },
        },
    }
}

/// Whether an archive entry of this name is read: directories are skipped;
/// every other name must be a clean pack path, the Modrinth index aside.
pub open spec fn entry_kept(name: Seq<char>) -> Result<bool, Failure> {
    if names_dir(name) {
        Ok(false)
    } else if name != "modrinth.index.json"@ && pack_path_result(name) is Err {
        Err(pack_path_result(name)->Err_0)
    } else {
        Ok(true)
    }
}

/// The entries read so far with one more file: its name must be new.
pub open spec fn entry_added(acc: Seq<(Seq<char>, Seq<u8>)>, name: Seq<char>, data: Seq<u8>) -> Result<
    Seq<(Seq<char>, Seq<u8>)>,
    Failure,
> {
    if has_entry(acc, name) {
        Err(failure(ErrorKind::ArchiveDuplicate, seq![name]))
    } else {
        Ok(acc.push((name, data)))
    }
}

/// The entries of the first `k` archive records, in archive order.
pub open spec fn read_first(bytes: Seq<u8>, k: nat) -> Result<Seq<(Seq<char>, Seq<u8>)>, Failure>
    decreases k,
{
    if k == 0 {
        Ok(Seq::empty())
    } else {
        match read_first(bytes, (k - 1) as nat) {
            Err(e) => Err(e),
            Ok(acc) => read_step(bytes, (k - 1) as nat, acc),
        }
    }
}

/// Once reading stops on an error, reading further records gives the same
/// error.
pub proof fn lemma_read_first_stops(bytes: Seq<u8>, k: nat, k2: nat)
    requires
        read_first(bytes, k) is Err,
        k <= k2,
    ensures
        read_first(bytes, k2) == read_first(bytes, k),
    decreases k2,
{
    if k2 > k {
        lemma_read_first_stops(bytes, k, (k2 - 1) as nat);
    }
}

/// The files of an archive: each name with its contents.
pub open spec fn archive_view(bytes: Seq<u8>) -> Result<Seq<(Seq<char>, Seq<u8>)>, Failure> {
    match zip_entry_count(bytes) {
        Err(m) => Err(unreadable(m)),
        Ok(n) => read_first(bytes, n),
    }
}

/// An archive entry read into plain values.
#[derive(Debug, Clone)]
pub struct ArchiveEntry {
    pub name: String,
    pub contents: Vec<u8>,
}

pub open spec fn entries_view(es: Seq<ArchiveEntry>) -> Seq<(Seq<char>, Seq<u8>)> {
    es.map_values(|e: ArchiveEntry| (e.name@, e.contents@))
}

fn ends_dir(name: &str) -> (r: bool)
    ensures
        r == names_dir(name@),
{
    let v = chars_of(name);
    v.len() > 0 && (v[v.len() - 1] == '/' || v[v.len() - 1] == '\\')
}

pub(crate) fn find_entry_named(es: &Vec<ArchiveEntry>, name: &str) -> (r: Option<usize>)
    ensures
        match r {
            Some(i) => i < es@.len() && es@[i as int].name@ == name@,
            None => !has_entry(entries_view(es@), name@),
        },
{
    let mut i: usize = 0;
    while i < es.len()
        invariant
            i <= es@.len(),
            forall|j: int| 0 <= j < i ==> es@[j].name@ != name@,
        decreases es@.len() - i,
    {
        if str_eq(es[i].name.as_str(), name) {
            return Some(i);
        }
        i = i + 1;
    }
    assert forall|j: int| 0 <= j < entries_view(es@).len() implies entries_view(es@)[j].0 != name@ by {
        assert(entries_view(es@)[j].0 == es@[j].name@);
    }
    None
}

/// Whether an archive entry named `name` is read (see [`entry_kept`]).
pub fn keep_archive_entry(name: &str) -> (r: Result<bool, Error>)
    ensures
        match entry_kept(name@) {
            Ok(b) => r == Ok::<bool, Error>(b),
            Err(e) => r matches Err(x) && x@ == e,
        },
{
    if ends_dir(name) {
        return Ok(false);
    }
    if !str_eq(name, "modrinth.index.json") {
        if let Err(e) = check_pack_path(name) {
            return Err(e);
        }
    }
    Ok(true)
}

/// Adds one file read from an archive; a name read twice is refused and the
/// list is left as it was (see [`entry_added`]).
pub fn add_archive_entry(entries: &mut Vec<ArchiveEntry>, name: String, contents: Vec<u8>) -> (r:
    Result<(), Error>)
    ensures
        match entry_added(entries_view(old(entries)@), name@, contents@) {
            Ok(es) => r is Ok && entries_view(final(entries)@) == es,
            Err(e) => r matches Err(x) && x@ == e && final(entries)@ == old(entries)@,
        },
{
    if let Some(k) = find_entry_named(entries, name.as_str()) {
        assert(entries_view(entries@)[k as int].0 == name@);
        return Err(Error::new1(ErrorKind::ArchiveDuplicate, name));
    }
    let ghost before = entries_view(entries@);
    let ghost nv = name@;
    let ghost cv = contents@;
    entries.push(ArchiveEntry { name, contents });
    assert(entries_view(entries@) =~= before.push((nv, cv)));
    Ok(())
}

/// The files of a zip archive, in archive order: directories left out,
/// every other name a clean pack path (the Modrinth index aside), no name
/// twice.
pub fn archive_entries(bytes: &[u8]) -> (r: Result<Vec<ArchiveEntry>, Error>)
    ensures
        match archive_view(bytes@) {
            Ok(es) => r matches Ok(v) && entries_view(v@) == es,
            Err(e) => r matches Err(x) && x@ == e,
        },
{
    let n = match read_entry_count(bytes) {
        Ok(n) => n,
        Err(m) => return Err(Error::new1(ErrorKind::ArchiveUnreadable, m)),
    };
    let mut out: Vec<ArchiveEntry> = Vec::new();
    assert(entries_view(out@) =~= Seq::<(Seq<char>, Seq<u8>)>::empty());
    let mut i: usize = 0;
    while i < n
        invariant
            i <= n,
            zip_entry_count(bytes@) == Ok::<nat, Seq<char>>(n as nat),
            read_first(bytes@, i as nat) == Ok::<Seq<(Seq<char>, Seq<u8>)>, Failure>(
                entries_view(out@),
            ),
        decreases n - i,
    {
        let ghost acc = entries_view(out@);
        let name = match read_entry_name(bytes, i) {
            Ok(name) => name,
            Err(m) => {
                proof {
                    lemma_read_first_stops(bytes@, (i + 1) as nat, n as nat);
                }
                return Err(Error::new1(ErrorKind::ArchiveUnreadable, m));
            },
        };
        let kept = match keep_archive_entry(name.as_str()) {
            Ok(k) => k,
            Err(e) => {
                proof {
                    lemma_read_first_stops(bytes@, (i + 1) as nat, n as nat);
                }
                return Err(e);
            },
        };
        if kept {
            let contents = match read_entry_data(bytes, i) {
                Ok(d) => d,
                Err(m) => {
                    proof {
                        lemma_read_first_stops(bytes@, (i + 1) as nat, n as nat);
                    }
                    return Err(Error::new1(ErrorKind::ArchiveUnreadable, m));
                },
            };
            if let Err(e) = add_archive_entry(&mut out, name, contents) {
                proof {
                    lemma_read_first_stops(bytes@, (i + 1) as nat, n as nat);
                }
                return Err(e);
            }
        }
        i = i + 1;
    }
    Ok(out)
}

/// `n` is the least name, in string order, that meets `p`.
pub open spec fn least(p: spec_fn(Seq<char>) -> bool, n: Seq<char>) -> bool {
    p(n) && forall|m: Seq<char>| #[trigger] p(m) ==> !seq_lt(m, n)
}

/// A name of `a` that `b` lacks.
pub open spec fn lacking(a: Seq<(Seq<char>, Seq<u8>)>, b: Seq<(Seq<char>, Seq<u8>)>) -> spec_fn(
    Seq<char>,
) -> bool {
    |n: Seq<char>| has_entry(a, n) && !has_entry(b, n)
}

/// A name that both have, with different contents.
pub open spec fn changed(a: Seq<(Seq<char>, Seq<u8>)>, b: Seq<(Seq<char>, Seq<u8>)>) -> spec_fn(
    Seq<char>,
) -> bool {
    |n: Seq<char>|
        exists|i: int, j: int|
            0 <= i < a.len() && 0 <= j < b.len() && a[i].0 == n && b[j].0 == n && a[i].1 != b[j].1
}

/// How two archives' files compare: the least name ours has and the
/// published one lacks, else the least name the published one has and ours
/// lacks, else the least name whose contents differ.
pub open spec fn entries_agree(
    a: Seq<(Seq<char>, Seq<u8>)>,
    b: Seq<(Seq<char>, Seq<u8>)>,
    r: Result<(), Failure>,
) -> bool {
    if exists|n: Seq<char>| #[trigger] lacking(a, b)(n) {
        r matches Err(e) && e.kind == ErrorKind::ArchiveMissing && e.args.len() == 1 && least(
            lacking(a, b),
            e.args[0],
        )
    } else if exists|n: Seq<char>| #[trigger] lacking(b, a)(n) {
        r matches Err(e) && e.kind == ErrorKind::ArchiveExtra && e.args.len() == 1 && least(
            lacking(b, a),
            e.args[0],
        )
    } else if exists|n: Seq<char>| #[trigger] changed(a, b)(n) {
        r matches Err(e) && e.kind == ErrorKind::ArchiveDiffers && e.args.len() == 1 && least(
            changed(a, b),
            e.args[0],
        )
    } else {
        r is Ok
    }
}

} // verus!

verus! {

fn same_bytes(x: &Vec<u8>, y: &Vec<u8>) -> (r: bool)
    ensures
        r == (x@ == y@),
{
    if x.len() != y.len() {
        return false;
    }
    let mut i: usize = 0;
    while i < x.len()
        invariant
            x@.len() == y@.len(),
            i <= x@.len(),
            forall|j: int| 0 <= j < i ==> x@[j] == y@[j],
        decreases x@.len() - i,
    {
        if x[i] != y[i] {
            return false;
        }
        i = i + 1;
    }
    assert(x@ =~= y@);
    true
}

/// Whether some entry of `b` has the name of `a[i]` and other contents.
fn differs_at(a: &Vec<ArchiveEntry>, b: &Vec<ArchiveEntry>, i: usize) -> (r: bool)
    requires
        i < a@.len(),
    ensures
        r == (exists|j: int|
            0 <= j < b@.len() && b@[j].name@ == a@[i as int].name@ && b@[j].contents@
                != a@[i as int].contents@),
{
    let mut j: usize = 0;
    while j < b.len()
        invariant
            i < a@.len(),
            j <= b@.len(),
            forall|k: int|
                0 <= k < j ==> !(b@[k].name@ == a@[i as int].name@ && b@[k].contents@
                    != a@[i as int].contents@),
        decreases b@.len() - j,
    {
        if str_eq(b[j].name.as_str(), a[i].name.as_str()) && !same_bytes(&b[j].contents, &a[i].contents) {
            return true;
        }
        j = j + 1;
    }
    false
}

/// The entry of `a` whose name is the least that `b` lacks.
fn least_lacking(a: &Vec<ArchiveEntry>, b: &Vec<ArchiveEntry>) -> (r: Option<usize>)
    ensures
        ({
            let p = lacking(entries_view(a@), entries_view(b@));
            match r {
                Some(k) => k < a@.len() && least(p, a@[k as int].name@),
                None => !exists|n: Seq<char>| #[trigger] p(n),
            }
        }),
{
    let ghost p = lacking(entries_view(a@), entries_view(b@));
    let mut best: Option<usize> = None;
    let mut i: usize = 0;
    while i < a.len()
        invariant
            i <= a@.len(),
            p == lacking(entries_view(a@), entries_view(b@)),
            match best {
                Some(k) => k < i && p(a@[k as int].name@) && forall|j: int|
                    0 <= j < i && #[trigger] p(a@[j].name@) ==> !seq_lt(a@[j].name@, a@[k as int].name@),
                None => forall|j: int| 0 <= j < i ==> !#[trigger] p(a@[j].name@),
            },
        decreases a@.len() - i,
    {
        assert(entries_view(a@)[i as int].0 == a@[i as int].name@);
        let found = find_entry_named(b, a[i].name.as_str());
        if found.is_none() {
            assert(p(a@[i as int].name@));
            match best {
                None => {
                    best = Some(i);
                    proof {
                        assert forall|j: int|
                            0 <= j < i + 1 && #[trigger] p(a@[j].name@) implies !seq_lt(
                            a@[j].name@,
                            a@[i as int].name@,
                        ) by {
                            if j == i {
                                crate::order::lemma_lt_irreflexive(a@[j].name@);
                            }
                        }
                    }
                },
                Some(k) => {
                    if str_lt(a[i].name.as_str(), a[k].name.as_str()) {
                        best = Some(i);
                        proof {
                            assert forall|j: int|
                                0 <= j < i + 1 && #[trigger] p(a@[j].name@) implies !seq_lt(
                                a@[j].name@,
                                a@[i as int].name@,
                            ) by {
                                if j == i {
                                    crate::order::lemma_lt_irreflexive(a@[j].name@);
                                } else if seq_lt(a@[j].name@, a@[i as int].name@) {
                                    crate::order::lemma_lt_transitive(
                                        a@[j].name@,
                                        a@[i as int].name@,
                                        a@[k as int].name@,
                                    );
                                }
                            }
                        }
                    }
                },
            }
        } else {
            proof {
                let x = found->Some_0;
                assert(entries_view(b@)[x as int].0 == a@[i as int].name@);
            }
        }
        i = i + 1;
    }
    proof {
        let a_v = entries_view(a@);
        match best {
            Some(k) => {
                assert forall|m: Seq<char>| #[trigger] p(m) implies !seq_lt(m, a@[k as int].name@) by {
                    let j = choose|j: int| 0 <= j < a_v.len() && a_v[j].0 == m;
                    assert(a@[j].name@ == m);
                }
            },
            None => {
                assert forall|m: Seq<char>| !#[trigger] p(m) by {
                    if p(m) {
                        let j = choose|j: int| 0 <= j < a_v.len() && a_v[j].0 == m;
                        assert(a@[j].name@ == m);
                    }
                }
            },
        }
    }
    best
}

} // verus!

verus! {

/// `a[j]` has a namesake in `b` with other contents.
pub open spec fn differs_from(a: Seq<ArchiveEntry>, b: Seq<ArchiveEntry>, j: int) -> bool {
    exists|x: int|
        0 <= x < b.len() && b[x].name@ == a[j].name@ && b[x].contents@ != a[j].contents@
}

/// The entry of `a` whose name is the least that both have with different
/// contents.
fn least_changed(a: &Vec<ArchiveEntry>, b: &Vec<ArchiveEntry>) -> (r: Option<usize>)
    ensures
        ({
            let p = changed(entries_view(a@), entries_view(b@));
            match r {
                Some(k) => k < a@.len() && least(p, a@[k as int].name@),
                None => !exists|n: Seq<char>| #[trigger] p(n),
            }
        }),
{
    let ghost av = entries_view(a@);
    let ghost bv = entries_view(b@);
    let ghost p = changed(av, bv);
    let mut best: Option<usize> = None;
    let mut i: usize = 0;
    while i < a.len()
        invariant
            i <= a@.len(),
            match best {
                Some(k) => k < i && differs_from(a@, b@, k as int) && forall|j: int|
                    0 <= j < i && #[trigger] differs_from(a@, b@, j) ==> !seq_lt(
                        a@[j].name@,
                        a@[k as int].name@,
                    ),
                None => forall|j: int| 0 <= j < i ==> !#[trigger] differs_from(a@, b@, j),
            },
        decreases a@.len() - i,
    {
        if differs_at(a, b, i) {
            assert(differs_from(a@, b@, i as int));
            match best {
                None => {
                    best = Some(i);
                    proof {
                        crate::order::lemma_lt_irreflexive(a@[i as int].name@);
                    }
                },
                Some(k) => {
                    if str_lt(a[i].name.as_str(), a[k].name.as_str()) {
                        best = Some(i);
                        proof {
                            assert forall|j: int|
                                0 <= j < i + 1 && #[trigger] differs_from(a@, b@, j) implies !seq_lt(
                                a@[j].name@,
                                a@[i as int].name@,
                            ) by {
                                if j == i {
                                    crate::order::lemma_lt_irreflexive(a@[j].name@);
                                } else if seq_lt(a@[j].name@, a@[i as int].name@) {
                                    crate::order::lemma_lt_transitive(
                                        a@[j].name@,
                                        a@[i as int].name@,
                                        a@[k as int].name@,
                                    );
                                }
                            }
                        }
                    }
                },
            }
        }
        i = i + 1;
    }
    proof {
        assert forall|m: Seq<char>| #[trigger] p(m) implies exists|j: int|
            0 <= j < a@.len() && a@[j].name@ == m && differs_from(a@, b@, j) by {
            let (y, x) = choose|y: int, x: int|
                0 <= y < av.len() && 0 <= x < bv.len() && av[y].0 == m && bv[x].0 == m && av[y].1
                    != bv[x].1;
            assert(b@[x].name@ == a@[y].name@ && b@[x].contents@ != a@[y].contents@);
            assert(differs_from(a@, b@, y));
        }
        match best {
            Some(k) => {
                assert(p(a@[k as int].name@)) by {
                    let x = choose|x: int|
                        0 <= x < b@.len() && b@[x].name@ == a@[k as int].name@ && b@[x].contents@
                            != a@[k as int].contents@;
                    assert(av[k as int].0 == a@[k as int].name@ && bv[x].0 == b@[x].name@);
                }
            },
            None => {},
        }
    }
    best
}

} // verus!

verus! {

/// Compares every file of our archive with the published one: the same
/// names, with the same uncompressed contents.
pub fn compare_archive_entries(ours: &[u8], published: &[u8]) -> (r: Result<(), Error>)
    ensures
        match archive_view(ours@) {
            Err(e) => r matches Err(x) && x@ == e,
            Ok(a) => match archive_view(published@) {
                Err(e) => r matches Err(x) && x@ == e,
                Ok(b) => entries_agree(a, b, outcome(r)),
            },
        },
{
    let a = match archive_entries(ours) {
        Ok(a) => a,
        Err(e) => return Err(e),
    };
    let b = match archive_entries(published) {
        Ok(b) => b,
        Err(e) => return Err(e),
    };
    if let Some(k) = least_lacking(&a, &b) {
        let e = Error::new1(ErrorKind::ArchiveMissing, a[k].name.clone());
        return Err(e);
    }
    if let Some(k) = least_lacking(&b, &a) {
        let e = Error::new1(ErrorKind::ArchiveExtra, b[k].name.clone());
        return Err(e);
    }
    if let Some(k) = least_changed(&a, &b) {
        let e = Error::new1(ErrorKind::ArchiveDiffers, a[k].name.clone());
        return Err(e);
    }
    Ok(())
}

} // verus!

verus! {

/// The default published pack to verify against, for the lock that was
/// loaded.
pub fn default_against_from_root(loaded: Result<Lockfile, Error>) -> (r: Result<String, Error>)
    ensures
        match loaded {
            Ok(lock) => r matches Ok(u) && u@ == default_against_url(lock.pack),
            Err(e) => r matches Err(x) && x == e,
        },
{
    match loaded {
        Ok(lock) => Ok(default_against(&lock)),
        Err(e) => Err(e),
    }
}

} // verus!

verus! {

/// No two files read from an archive share a name.
pub open spec fn distinct_names(es: Seq<(Seq<char>, Seq<u8>)>) -> bool {
    forall|i: int, j: int| 0 <= i < j < es.len() ==> es[i].0 != es[j].0
}

proof fn lemma_read_first_distinct(bytes: Seq<u8>, k: nat)
    ensures
        read_first(bytes, k) matches Ok(acc) ==> distinct_names(acc),
    decreases k,
{
    if k > 0 {
        lemma_read_first_distinct(bytes, (k - 1) as nat);
        if let Ok(acc) = read_first(bytes, (k - 1) as nat) {
            if let Ok(next) = read_step(bytes, (k - 1) as nat, acc) {
                if next != acc {
                    let name = next.last().0;
                    assert forall|i: int, j: int| 0 <= i < j < next.len() implies next[i].0
                        != next[j].0 by {
                        if j == next.len() - 1 {
                            assert(next[i] == acc[i]);
                            if acc[i].0 == name {
                                assert(has_entry(acc, name));
                            }
                        } else {
                            assert(next[i] == acc[i] && next[j] == acc[j]);
                        }
                    }
                }
            }
        }
    }
}

/// A pack's archive agrees with itself: comparing an archive that reads
/// with its own bytes finds no missing, extra or changed file.
pub proof fn law_archive_agrees_with_itself(bytes: Seq<u8>)
    requires
        archive_view(bytes) is Ok,
    ensures
        entries_agree(archive_view(bytes)->Ok_0, archive_view(bytes)->Ok_0, Ok(())),
{
    let a = archive_view(bytes)->Ok_0;
    lemma_read_first_distinct(bytes, zip_entry_count(bytes)->Ok_0);
    assert forall|n: Seq<char>| !#[trigger] lacking(a, a)(n) by {}
    assert forall|n: Seq<char>| !#[trigger] changed(a, a)(n) by {
        if changed(a, a)(n) {
            let (i, j) = choose|i: int, j: int|
                0 <= i < a.len() && 0 <= j < a.len() && a[i].0 == n && a[j].0 == n && a[i].1 != a[j].1;
            if i < j {
            } else if j < i {
            }
        }
    }
}

} // verus!

verus! {

/// The published index's maps (the dependencies, and each file's hashes)
/// are held as sorted lists without repeated keys, as parsing them into
/// `BTreeMap`s leaves them.
pub open spec fn parsed_well_formed(p: ParsedIndex) -> bool {
    &&& keys_sorted(pairs_view(p.dependencies@))
    &&& forall|k: int|
        0 <= k < p.files@.len() ==> keys_sorted(pairs_view(#[trigger] p.files@[k].hashes@))
}

/// Whether the keys of `pairs` strictly increase.
pub fn pairs_sorted(pairs: &Vec<(String, String)>) -> (r: bool)
    ensures
        r == keys_sorted(pairs_view(pairs@)),
{
    let ghost v = pairs_view(pairs@);
    let mut i: usize = 0;
    while i < pairs.len()
        invariant
            v == pairs_view(pairs@),
            i <= pairs@.len(),
            forall|a: int, b: int| 0 <= a < b < v.len() && a < i ==> seq_lt(v[a].0, v[b].0),
        decreases pairs@.len() - i,
    {
        let mut j: usize = i + 1;
        while j < pairs.len()
            invariant
                v == pairs_view(pairs@),
                i < pairs@.len(),
                i < j <= pairs@.len(),
                forall|a: int, b: int| 0 <= a < b < v.len() && a < i ==> seq_lt(v[a].0, v[b].0),
                forall|b: int| i < b < j ==> seq_lt(v[i as int].0, v[b].0),
            decreases pairs@.len() - j,
        {
            assert(v[i as int].0 == pairs@[i as int].0@ && v[j as int].0 == pairs@[j as int].0@);
            if !str_lt(pairs[i].0.as_str(), pairs[j].0.as_str()) {
                return false;
            }
            j = j + 1;
        }
        i = i + 1;
    }
    true
}

/// Whether a published index holds its maps as sorted lists without
/// repeated keys (see [`parsed_well_formed`]).
pub fn parsed_index_well_formed(p: &ParsedIndex) -> (r: bool)
    ensures
        r == parsed_well_formed(*p),
{
    if !pairs_sorted(&p.dependencies) {
        return false;
    }
    let mut k: usize = 0;
    while k < p.files.len()
        invariant
            k <= p.files@.len(),
            forall|t: int| 0 <= t < k ==> keys_sorted(pairs_view(#[trigger] p.files@[t].hashes@)),
        decreases p.files@.len() - k,
    {
        if !pairs_sorted(&p.files[k].hashes) {
            return false;
        }
        k = k + 1;
    }
    true
}

} // verus!

verus! {

/// What the zip crate reads as the text of the entry named `name`: `None`
/// where the archive has no such entry it can open, or the message of the
/// error that stopped opening the archive or reading the entry as text.
pub uninterp spec fn zip_named_text(bytes: Seq<u8>, name: Seq<char>) -> Result<
    Option<Seq<char>>,
    Seq<char>,
>;

/// `zip::ZipArchive::new`, `ZipArchive::by_name` and
/// `Read::read_to_string`, trusted: what it returns (the entry's text, no
/// entry where `by_name` fails, or the message of the error from opening or
/// reading) is `zip_named_text` of the bytes and the name; nothing more is
/// claimed.
#[verifier::external_body]
fn read_named_text(bytes: &[u8], name: &str) -> (r: Result<Option<String>, String>)
    ensures
        match r {
            Ok(t) => zip_named_text(bytes@, name@) == Ok::<Option<Seq<char>>, Seq<char>>(
                match t {
                    Some(s) => Some(s@),
                    None => None,
                },
            ),
            Err(m) => zip_named_text(bytes@, name@) == Err::<Option<Seq<char>>, Seq<char>>(m@),
        },
{
    let mut archive = match zip::ZipArchive::new(std::io::Cursor::new(bytes)) {
        Ok(archive) => archive,
        Err(error) => return Err(error.to_string()),
    };
    let mut file = match archive.by_name(name) {
        Ok(file) => file,
        Err(_) => return Ok(None),
    };
    let mut text = String::new();
    let read = match std::io::Read::read_to_string(&mut file, &mut text) {
        Ok(_) => Ok(Some(text)),
        Err(error) => Err(error.to_string()),
    };
    read
}

/// The text of `modrinth.index.json` in a published pack: an archive that
/// cannot be opened or an entry that cannot be read as text gives the
/// zip crate's message; an archive without the entry is a missing index.
pub fn mrpack_index_text(bytes: &[u8]) -> (r: Result<String, Error>)
    ensures
        match zip_entry_count(bytes@) {
            Err(m) => r matches Err(x) && x@ == unreadable(m),
            Ok(_) => match zip_named_text(bytes@, "modrinth.index.json"@) {
                Ok(Some(t)) => r matches Ok(s) && s@ == t,
                Ok(None) => r matches Err(x) && x@ == failure(ErrorKind::IndexMissing, seq![]),
                Err(m) => r matches Err(x) && x@ == unreadable(m),
            },
        },
{
    if let Err(m) = read_entry_count(bytes) {
        return Err(Error::new1(ErrorKind::ArchiveUnreadable, m));
    }
    match read_named_text(bytes, "modrinth.index.json") {
        Ok(Some(t)) => Ok(t),
        Ok(None) => Err(Error::new0(ErrorKind::IndexMissing)),
        Err(m) => Err(Error::new1(ErrorKind::ArchiveUnreadable, m)),
    }
}

} // verus!

verus! {

/// Our index entry and a published one describe the same file: the same
/// path, size, downloads, SHA-1 and SHA-512, and environment.
pub open spec fn same_published_file(m: MrpackFile, p: ParsedFile) -> bool {
    &&& p.path@ == m.path@
    &&& p.file_size == m.file_size
    &&& strings_view(p.downloads@) == strings_view(m.downloads@)
    &&& lookup(pairs_view(p.hashes@), "sha1"@) == lookup(pairs_view(m.hashes@), "sha1"@)
    &&& lookup(pairs_view(p.hashes@), "sha512"@) == lookup(pairs_view(m.hashes@), "sha512"@)
    &&& p.env.client@ == side_name(m.env.client)
    &&& p.env.server@ == side_name(m.env.server)
}

proof fn lemma_published_entry_in(files: Seq<ParsedFile>, path: Seq<char>)
    ensures
        published_entry(files, path) matches Some(p) ==> exists|j: int|
            0 <= j < files.len() && files[j] == p,
    decreases files.len(),
{
    if files.len() > 0 && files.last().path@ != path {
        lemma_published_entry_in(files.drop_last(), path);
        if let Some(p) = published_entry(files.drop_last(), path) {
            let j = choose|j: int| 0 <= j < files.drop_last().len() && files.drop_last()[j] == p;
            assert(files[j] == p);
        }
    } else if files.len() > 0 {
        assert(files[files.len() - 1] == files.last());
    }
}

proof fn lemma_files_match(ours: Seq<MrpackFile>, published: Seq<ParsedFile>)
    requires
        files_mismatch(ours, published) is None,
    ensures
        forall|i: int|
            0 <= i < ours.len() ==> exists|j: int|
                0 <= j < published.len() && same_published_file(#[trigger] ours[i], published[j]),
    decreases ours.len(),
{
    if ours.len() > 0 {
        let init = ours.drop_last();
        lemma_files_match(init, published);
        let last = ours.last();
        lemma_published_entry_in(published, last.path@);
        let p = published_entry(published, last.path@)->Some_0;
        assert(published_entry(published, last.path@) matches Some(q) && q.path@ == last.path@) by {
            lemma_published_entry_path(published, last.path@);
        }
        let jl = choose|j: int| 0 <= j < published.len() && published[j] == p;
        assert(same_published_file(last, published[jl]));
        assert forall|i: int| 0 <= i < ours.len() implies exists|j: int|
            0 <= j < published.len() && same_published_file(#[trigger] ours[i], published[j]) by {
            if i < ours.len() - 1 {
                assert(ours[i] == init[i]);
            } else {
                assert(ours[i] == last);
            }
        }
    }
}

proof fn lemma_published_entry_path(files: Seq<ParsedFile>, path: Seq<char>)
    ensures
        published_entry(files, path) matches Some(p) ==> p.path@ == path,
    decreases files.len(),
{
    if files.len() > 0 && files.last().path@ != path {
        lemma_published_entry_path(files.drop_last(), path);
    }
}

/// A published pack passes the index comparison only when it describes the
/// same pack, and every one of our files, at whatever position, has a
/// published entry at its path with the same size, downloads, hashes and
/// environment.
pub proof fn law_verified_index_matches_every_file(ours: MrpackIndex, published: ParsedIndex)
    requires
        index_mismatch(ours, published) is None,
    ensures
        published.format_version == ours.format_version,
        published.game@ == ours.game@,
        published.name@ == ours.name@,
        published.version_id@ == ours.version_id@,
        pairs_view(published.dependencies@) == pairs_view(ours.dependencies@),
        published.files@.len() == ours.files@.len(),
        forall|i: int|
            0 <= i < ours.files@.len() ==> exists|j: int|
                0 <= j < published.files@.len() && same_published_file(
                    #[trigger] ours.files@[i],
                    published.files@[j],
                ),
{
    lemma_files_match(ours.files@, published.files@);
}

} // verus!
