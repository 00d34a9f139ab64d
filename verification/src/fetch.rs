//! The download cache and the checks that downloaded bytes meet their pins.

use crate::error::{failure, outcome, Error, ErrorKind, Failure};
use crate::root::PackRoot;
use crate::spec::{as_result, FileSpec};
use crate::text::{chars_of, decimal, decimal_string, file_name, join, path_file_name, path_join, push_char, str_eq, string_from};
use vstd::prelude::*;

verus! {

/// The name under which a file is cached: its file name, or `file.bin`.
pub open spec fn cache_name(path: Seq<char>) -> Seq<char> {
    match file_name(path) {
        Some(n) => n,
        None => "file.bin"@,
    }
}

pub fn cache_name_string(path: &str) -> (r: String)
    ensures
        r@ == cache_name(path@),
{
    match path_file_name(path) {
        Some(v) => string_from(v.as_slice()),
        None => "file.bin".to_owned(),
    }
}

/// `<cache>/objects/<sha512>/<file name>`.
pub open spec fn cached_path(cache_dir: Seq<char>, f: FileSpec) -> Seq<char> {
    path_join(path_join(path_join(cache_dir, "objects"@), f.sha512@), cache_name(f.path@))
}

/// Where the cache keeps a pinned file: under its SHA-512, by file name.
pub fn cached_file(root: &PackRoot, file: &FileSpec) -> (r: String)
    ensures
        r@ == cached_path(path_join(root.path@, ".cache"@), *file),
{
    let name = cache_name_string(file.path.as_str());
    let objects = join(root.cache_dir().as_str(), "objects");
    let dir = join(objects.as_str(), file.sha512.as_str());
    join(dir.as_str(), name.as_str())
}

/// The SHA-1 digest of `data`.
pub uninterp spec fn sha1_digest(data: Seq<u8>) -> Seq<u8>;

/// The SHA-512 digest of `data`.
pub uninterp spec fn sha512_digest(data: Seq<u8>) -> Seq<u8>;

/// `sha1::Sha1::digest`: the 20-byte SHA-1 digest of `data`, named
/// `sha1_digest` and otherwise unstated.
#[verifier::external_body]
fn sha1_bytes(data: &[u8]) -> (r: Vec<u8>)
    ensures
        r@ == sha1_digest(data@),
        r@.len() == 20,
{
    <sha1::Sha1 as sha1::Digest>::digest(data).to_vec()
}

/// `sha2::Sha512::digest`: the 64-byte SHA-512 digest of `data`, named
/// `sha512_digest` and otherwise unstated.
#[verifier::external_body]
fn sha512_bytes(data: &[u8]) -> (r: Vec<u8>)
    ensures
        r@ == sha512_digest(data@),
        r@.len() == 64,
{
    <sha2::Sha512 as sha2::Digest>::digest(data).to_vec()
}

/// The lowercase hexadecimal digit for `d < 16`.
pub open spec fn hex_digit(d: u8) -> char {
    if d < 10 {
        ((48 + d) as u8) as char
    } else {
        ((87 + d) as u8) as char
    }
}

/// Bytes in lowercase hexadecimal, two digits each.
pub open spec fn hex(bytes: Seq<u8>) -> Seq<char>
    decreases bytes.len(),
{
    if bytes.len() == 0 {
        Seq::empty()
    } else {
        hex(bytes.drop_last()) + seq![hex_digit(bytes.last() / 16), hex_digit(bytes.last() % 16)]
    }
}

fn hex_digit_exec(d: u8) -> (c: char)
    requires
        d < 16,
    ensures
        c == hex_digit(d),
{
    if d < 10 {
        (48u8 + d) as char
    } else {
        (87u8 + d) as char
    }
}

pub fn hex_string(bytes: &[u8]) -> (r: String)
    ensures
        r@ == hex(bytes@),
{
    let mut out = String::new();
    let mut i: usize = 0;
    while i < bytes.len()
        invariant
            i <= bytes@.len(),
            out@ == hex(bytes@.subrange(0, i as int)),
        decreases bytes@.len() - i,
    {
        let b = bytes[i];
        push_char(&mut out, hex_digit_exec(b / 16));
        push_char(&mut out, hex_digit_exec(b % 16));
        assert(bytes@.subrange(0, i + 1).drop_last() =~= bytes@.subrange(0, i as int));
        i = i + 1;
        assert(out@ =~= hex(bytes@.subrange(0, i as int)));
    }
    assert(bytes@.subrange(0, i as int) =~= bytes@);
    out
}

/// The SHA-1 of `data` in lowercase hexadecimal.
pub fn sha1_hex(data: &[u8]) -> (r: String)
    ensures
        r@ == hex(sha1_digest(data@)),
{
    let d = sha1_bytes(data);
    hex_string(d.as_slice())
}

/// The SHA-512 of `data` in lowercase hexadecimal.
pub fn sha512_hex(data: &[u8]) -> (r: String)
    ensures
        r@ == hex(sha512_digest(data@)),
{
    let d = sha512_bytes(data);
    hex_string(d.as_slice())
}

/// The first way in which `bytes` miss the pins of `f`: size, SHA-1, SHA-512.
pub open spec fn pin_mismatch(f: FileSpec, bytes: Seq<u8>) -> Option<Failure> {
    if bytes.len() != f.file_size {
        Some(
            failure(
                ErrorKind::SizeNotPinned,
                seq![f.path@, decimal(bytes.len()), decimal(f.file_size as nat)],
            ),
        )
    } else if hex(sha1_digest(bytes)) != f.sha1@ {
        Some(failure(ErrorKind::Sha1NotPinned, seq![f.path@, hex(sha1_digest(bytes)), f.sha1@]))
    } else if hex(sha512_digest(bytes)) != f.sha512@ {
        Some(failure(ErrorKind::Sha512NotPinned, seq![f.path@, f.sha512@]))
    } else {
        None
    }
}

/// Checks downloaded bytes against the file's pinned size and hashes.
pub fn verify_bytes(file: &FileSpec, bytes: &[u8]) -> (r: Result<(), Error>)
    ensures
        outcome(r) == as_result(pin_mismatch(*file, bytes@)),
{
    if bytes.len() as u64 != file.file_size {
        return Err(
            Error::new3(
                ErrorKind::SizeNotPinned,
                file.path.clone(),
                decimal_string(bytes.len() as u64),
                decimal_string(file.file_size),
            ),
        );
    }
    let sha1 = sha1_hex(bytes);
    if !str_eq(sha1.as_str(), file.sha1.as_str()) {
        return Err(Error::new3(ErrorKind::Sha1NotPinned, file.path.clone(), sha1, file.sha1.clone()));
    }
    let sha512 = sha512_hex(bytes);
    if !str_eq(sha512.as_str(), file.sha512.as_str()) {
        return Err(Error::new2(ErrorKind::Sha512NotPinned, file.path.clone(), file.sha512.clone()));
    }
    Ok(())
}

} // verus!

verus! {

/// Progress through a file's download mirrors, tried in order until one
/// gives bytes that meet the pins.
pub struct MirrorWalk {
    /// The index of the next mirror to try.
    pub next: usize,
    /// Why the last mirror tried was not used.
    pub last_error: Option<Error>,
}

impl MirrorWalk {
    pub fn new() -> (w: Self)
        ensures
            w.next == 0,
            w.last_error is None,
    {
        MirrorWalk { next: 0, last_error: None }
    }

    /// The index of the next download of `file` to try, if any is left.
    pub fn next_mirror(&self, file: &FileSpec) -> (r: Option<usize>)
        ensures
            match r {
                Some(i) => i == self.next && i < file.downloads@.len(),
                None => self.next >= file.downloads@.len(),
            },
    {
        if self.next < file.downloads.len() {
            Some(self.next)
        } else {
            None
        }
    }

    /// Takes what the mirror `self.next` gave: bytes that meet the pins are
    /// handed back; anything else is kept as the last error and the walk
    /// moves to the next mirror.
    pub fn record(&mut self, file: &FileSpec, fetched: Result<Vec<u8>, Error>) -> (r: Option<
        Vec<u8>,
    >)
        requires
            old(self).next < file.downloads@.len(),
        ensures
            match fetched {
                Ok(b) => match pin_mismatch(*file, b@) {
                    None => r == Some(b) && final(self).next == old(self).next,
                    Some(e) => {
                        &&& r is None
                        &&& final(self).next == old(self).next + 1
                        &&& final(self).last_error matches Some(x) && x@ == e
                    },
                },
                Err(e) => r is None && final(self).next == old(self).next + 1
                    && final(self).last_error == Some(e),
            },
    {
        let _n = file.downloads.len();
        match fetched {
            Ok(bytes) => match verify_bytes(file, bytes.as_slice()) {
                Ok(()) => Some(bytes),
                Err(e) => {
                    self.last_error = Some(e);
                    self.next = self.next + 1;
                    None
                },
            },
            Err(e) => {
                self.last_error = Some(e);
                self.next = self.next + 1;
                None
            },
        }
    }

    /// Why no mirror of `file` could be used: the last error, or that the
    /// file has no download at all.
    pub fn exhausted(self, file: &FileSpec) -> (e: Error)
        ensures
            match self.last_error {
                Some(x) => e == x,
                None => e@ == failure(ErrorKind::NoUsableDownload, seq![file.path@]),
            },
    {
        match self.last_error {
            Some(x) => x,
            None => Error::new1(ErrorKind::NoUsableDownload, file.path.clone()),
        }
    }
}

} // verus!
