//! The library's errors: a kind and the values that the message names.

use vstd::prelude::*;

verus! {

/// What went wrong.
#[derive(Clone, Copy, PartialEq, Eq, Debug)]
pub enum ErrorKind {
    // pack.toml and pack.lock.toml
    FieldRequired,
    UnsupportedLoader,
    NoFiles,
    NoDownloads,
    DownloadNotHttps,
    MissingPins,
    DuplicatePath,
    PathEmpty,
    PathNotSlashRelative,
    PathAbsolute,
    PathBadParts,
    PathWorld,
    UnsupportedLockVersion,
    InvalidCurseForgeId,
    StaleMapping,
    DuplicateMapping,
    // the Modrinth index
    UnsupportedLoaderKey,
    FormatVersionMismatch,
    GameMismatch,
    NameMismatch,
    VersionIdMismatch,
    DependenciesMismatch,
    FileCountMismatch,
    ExtraFile,
    SizeMismatch,
    DownloadsDiffer,
    Sha1Differs,
    Sha512Differs,
    ClientEnvMismatch,
    ServerEnvMismatch,
    ArchiveMissing,
    ArchiveExtra,
    ArchiveDiffers,
    ArchiveDuplicate,
    ArchiveUnreadable,
    IndexMissing,
    // downloads
    SizeNotPinned,
    Sha1NotPinned,
    Sha512NotPinned,
    NoUsableDownload,
    DownloadFailed,
    // what a file read, a parse or a service reported
    Reported,
    // CurseForge
    AddNotClientFile,
    AddInvalidId,
    AddDuplicate,
    ExcludeNotClientFile,
    ExcludeServerFile,
    ExcludeNoReason,
    AddAndExclude,
    ExcludeDuplicate,
    UnresolvedClientFiles,
    UnsupportedHashFormat,
    NotExactlyOneFile,
    PackwizHashMismatch,
    MappedTwice,
    // Modrinth resolution
    NoCompatibleVersion,
    AmbiguousVersions,
    NoPrimaryFile,
    MultiplePrimaryFiles,
    // publishing
    MissingArtifact,
    MavenNotHttps,
    BadReleaseType,
    // authoring
    AlreadyInPack,
    NotInPack,
    LockChanged,
    LockChangedBeforePublish,
    ArtifactChanged,
    NotInstalled,
    // overrides
    OverrideDuplicate,
    SymlinkOverride,
    // Packwiz
    PackwizNotPinned,
    NotInLock,
    NotClientFile,
    // the command line
    BadPublishArgs,
    SideConflict,
    KindConflict,
    VersionNeedsValue,
    UnknownAddOption,
    UnexpectedAddArgument,
    AddUsage,
    RemoveUsage,
    RunUsage,
    UnknownRunTarget,
    UnknownCommand,
    NoArguments,
}

/// An error: its kind and the values that its message names, in order.
#[derive(Clone, Debug)]
pub struct Error {
    pub kind: ErrorKind,
    pub args: Vec<String>,
}

/// The mathematical value of an [`Error`].
pub struct Failure {
    pub kind: ErrorKind,
    pub args: Seq<Seq<char>>,
}

impl View for Error {
    type V = Failure;

    open spec fn view(&self) -> Failure {
        Failure { kind: self.kind, args: self.args@.map_values(|s: String| s@) }
    }
}

/// A library result, with the error taken by its view.
pub open spec fn outcome<T>(r: Result<T, Error>) -> Result<T, Failure> {
    match r {
        Ok(v) => Ok(v),
        Err(e) => Err(e@),
    }
}

/// The failure of kind `kind` that names `args`.
pub open spec fn failure(kind: ErrorKind, args: Seq<Seq<char>>) -> Failure {
    Failure { kind, args }
}

impl Error {
    pub fn new0(kind: ErrorKind) -> (e: Error)
        ensures
            e@ == failure(kind, seq![]),
    {
        let e = Error { kind, args: Vec::new() };
        assert(e@.args =~= seq![]);
        e
    }

    pub fn new1(kind: ErrorKind, a: String) -> (e: Error)
        ensures
            e@ == failure(kind, seq![a@]),
    {
        let mut args = Vec::new();
        args.push(a);
        let e = Error { kind, args };
        assert(e@.args =~= seq![a@]);
        e
    }

    pub fn new2(kind: ErrorKind, a: String, b: String) -> (e: Error)
        ensures
            e@ == failure(kind, seq![a@, b@]),
    {
        let mut args = Vec::new();
        args.push(a);
        args.push(b);
        let e = Error { kind, args };
        assert(e@.args =~= seq![a@, b@]);
        e
    }

    pub fn new3(kind: ErrorKind, a: String, b: String, c: String) -> (e: Error)
        ensures
            e@ == failure(kind, seq![a@, b@, c@]),
    {
        let mut args = Vec::new();
        args.push(a);
        args.push(b);
        args.push(c);
        let e = Error { kind, args };
        assert(e@.args =~= seq![a@, b@, c@]);
        e
    }
}

} // verus!

verus! {

/// The fixed text of a message of each kind, around its values: the text
/// before the first value, between the values and after the last, and how
/// many values the message names.
pub open spec fn pieces(kind: ErrorKind) -> (Seq<char>, Seq<char>, Seq<char>, Seq<char>, nat) {
    match kind {
        ErrorKind::FieldRequired => (""@, " is required"@, ""@, ""@, 1),
        ErrorKind::UnsupportedLoader => ("pack.loader `"@, "` is not supported yet; Forever World is Fabric-only"@, ""@, ""@, 1),
        ErrorKind::NoFiles => ("pack.toml has no [[file]] entries"@, ""@, ""@, ""@, 0),
        ErrorKind::NoDownloads => (""@, " has no downloads"@, ""@, ""@, 1),
        ErrorKind::DownloadNotHttps => (""@, " download is not https or file: "@, ""@, ""@, 2),
        ErrorKind::MissingPins => (""@, " is missing a full sha1/sha512 pin"@, ""@, ""@, 1),
        ErrorKind::DuplicatePath => ("duplicate pack path "@, ""@, ""@, ""@, 1),
        ErrorKind::PathEmpty => ("pack path is empty"@, ""@, ""@, ""@, 0),
        ErrorKind::PathNotSlashRelative => ("pack path `"@, "` must be a slash-separated relative path"@, ""@, ""@, 1),
        ErrorKind::PathAbsolute => ("pack path `"@, "` must not be absolute"@, ""@, ""@, 1),
        ErrorKind::PathBadParts => ("pack path `"@, "` must not contain empty, `.` or `..` parts"@, ""@, ""@, 1),
        ErrorKind::PathWorld => ("pack path `"@, "` must not replace a server world"@, ""@, ""@, 1),
        ErrorKind::UnsupportedLockVersion => ("unsupported lock version "@, ""@, ""@, ""@, 1),
        ErrorKind::InvalidCurseForgeId => (""@, " has an invalid CurseForge ID"@, ""@, ""@, 1),
        ErrorKind::StaleMapping => (""@, " has a stale CurseForge mapping"@, ""@, ""@, 1),
        ErrorKind::DuplicateMapping => ("duplicate CurseForge mapping for "@, ""@, ""@, ""@, 1),
        ErrorKind::UnsupportedLoaderKey => ("unsupported loader `"@, "`"@, ""@, ""@, 1),
        ErrorKind::FormatVersionMismatch => ("formatVersion "@, " != "@, ""@, ""@, 2),
        ErrorKind::GameMismatch => ("game "@, " != "@, ""@, ""@, 2),
        ErrorKind::NameMismatch => ("name "@, " != "@, ""@, ""@, 2),
        ErrorKind::VersionIdMismatch => ("versionId "@, " != "@, ""@, ""@, 2),
        ErrorKind::DependenciesMismatch => ("dependencies "@, " != "@, ""@, ""@, 2),
        ErrorKind::FileCountMismatch => ("file count "@, " != "@, ""@, ""@, 2),
        ErrorKind::ExtraFile => ("exported extra file "@, ""@, ""@, ""@, 1),
        ErrorKind::SizeMismatch => (""@, " size "@, " != "@, ""@, 3),
        ErrorKind::DownloadsDiffer => (""@, " download URLs differ"@, ""@, ""@, 1),
        ErrorKind::Sha1Differs => (""@, " sha1 differs"@, ""@, ""@, 1),
        ErrorKind::Sha512Differs => (""@, " sha512 differs"@, ""@, ""@, 1),
        ErrorKind::ClientEnvMismatch => (""@, " client env "@, " != "@, ""@, 3),
        ErrorKind::ServerEnvMismatch => (""@, " server env "@, " != "@, ""@, 3),
        ErrorKind::ArchiveMissing => ("published archive is missing "@, ""@, ""@, ""@, 1),
        ErrorKind::ArchiveExtra => ("published archive has extra entry "@, ""@, ""@, ""@, 1),
        ErrorKind::ArchiveDiffers => ("archive entry "@, " differs"@, ""@, ""@, 1),
        ErrorKind::ArchiveDuplicate => ("archive contains duplicate entry "@, ""@, ""@, ""@, 1),
        ErrorKind::ArchiveUnreadable => (""@, ""@, ""@, ""@, 1),
        ErrorKind::IndexMissing => ("published pack is missing modrinth.index.json"@, ""@, ""@, ""@, 0),
        ErrorKind::SizeNotPinned => (""@, " size "@, " did not match pin "@, ""@, 3),
        ErrorKind::Sha1NotPinned => (""@, " sha1 "@, " did not match pin "@, ""@, 3),
        ErrorKind::Sha512NotPinned => (""@, " sha512 did not match pin "@, ""@, ""@, 2),
        ErrorKind::NoUsableDownload => (""@, " had no usable download"@, ""@, ""@, 1),
        ErrorKind::DownloadFailed => (""@, ""@, ""@, ""@, 1),
        ErrorKind::Reported => (""@, ""@, ""@, ""@, 1),
        ErrorKind::AddNotClientFile => ("platforms.toml [[curseforge.add]] path is not a locked client file: "@, ""@, ""@, ""@, 1),
        ErrorKind::AddInvalidId => ("platforms.toml [[curseforge.add]] has an invalid ID: "@, ""@, ""@, ""@, 1),
        ErrorKind::AddDuplicate => ("duplicate platforms.toml [[curseforge.add]] path: "@, ""@, ""@, ""@, 1),
        ErrorKind::ExcludeNotClientFile => ("platforms.toml [[curseforge.exclude]] path is not a locked client file: "@, ""@, ""@, ""@, 1),
        ErrorKind::ExcludeServerFile => ("platforms.toml may exclude only client-only files: "@, ""@, ""@, ""@, 1),
        ErrorKind::ExcludeNoReason => ("platforms.toml [[curseforge.exclude]] reason is required: "@, ""@, ""@, ""@, 1),
        ErrorKind::AddAndExclude => ("platforms.toml cannot add and exclude the same file: "@, ""@, ""@, ""@, 1),
        ErrorKind::ExcludeDuplicate => ("duplicate platforms.toml [[curseforge.exclude]] path: "@, ""@, ""@, ""@, 1),
        ErrorKind::UnresolvedClientFiles => ("CurseForge has no locked file for: "@, "; run `pack curseforge resolve` and do not publish until every client file resolves"@, ""@, ""@, 1),
        ErrorKind::UnsupportedHashFormat => (""@, " used unsupported Packwiz hash format "@, ""@, ""@, 2),
        ErrorKind::NotExactlyOneFile => (""@, " did not identify exactly one locked file named "@, ""@, ""@, 2),
        ErrorKind::PackwizHashMismatch => ("Packwiz hash did not match the pin for "@, ""@, ""@, ""@, 1),
        ErrorKind::MappedTwice => ("Packwiz mapped "@, " more than once"@, ""@, ""@, 1),
        ErrorKind::NoCompatibleVersion => ("Modrinth project "@, " has no compatible version `"@, "`"@, ""@, 2),
        ErrorKind::AmbiguousVersions => ("Modrinth project "@, " has multiple compatible versions named `"@, "`: "@, ""@, 3),
        ErrorKind::NoPrimaryFile => ("Modrinth project "@, " version `"@, "` has no primary file"@, ""@, 2),
        ErrorKind::MultiplePrimaryFiles => ("Modrinth project "@, " version `"@, "` has multiple primary files"@, ""@, 2),
        ErrorKind::MissingArtifact => ("prepared release is missing a "@, " artifact"@, ""@, ""@, 1),
        ErrorKind::MavenNotHttps => ("publish.maven.repository must use HTTPS"@, ""@, ""@, ""@, 0),
        ErrorKind::BadReleaseType => ("publish.modrinth.release_type must be release, beta, or alpha, not `"@, "`"@, ""@, ""@, 1),
        ErrorKind::AlreadyInPack => (""@, " is already in pack.toml"@, ""@, ""@, 1),
        ErrorKind::NotInPack => (""@, " is not in pack.toml"@, ""@, ""@, 1),
        ErrorKind::LockChanged => ("pack.toml changed since the last install; run `pack install`"@, ""@, ""@, ""@, 0),
        ErrorKind::ArtifactChanged => ("prepared artifact "@, " no longer matches its recorded size and SHA-512"@, ""@, ""@, 1),
        ErrorKind::LockChangedBeforePublish => ("pack.toml changed since the last install; run `pack install` before publishing"@, ""@, ""@, ""@, 0),
        ErrorKind::NotInstalled => (""@, "; run `pack install` before running the pack"@, ""@, ""@, 1),
        ErrorKind::OverrideDuplicate => ("duplicate CurseForge override "@, ""@, ""@, ""@, 1),
        ErrorKind::SymlinkOverride => ("refusing symbolic link in pack overrides: "@, ""@, ""@, ""@, 1),
        ErrorKind::PackwizNotPinned => ("PACKWIZ_BIN was not built from pinned commit "@, ""@, ""@, ""@, 1),
        ErrorKind::NotInLock => (""@, " is not in pack.lock.toml"@, ""@, ""@, 1),
        ErrorKind::NotClientFile => (""@, " is not a client file"@, ""@, ""@, 1),
        ErrorKind::BadPublishArgs => ("invalid publish arguments; use `pack publish` or `pack publish --dry-run`"@, ""@, ""@, ""@, 0),
        ErrorKind::SideConflict => ("--client and --server cannot be used together"@, ""@, ""@, ""@, 0),
        ErrorKind::KindConflict => ("--shader and --mod cannot be used together"@, ""@, ""@, ""@, 0),
        ErrorKind::VersionNeedsValue => ("--version requires a value"@, ""@, ""@, ""@, 0),
        ErrorKind::UnknownAddOption => ("unknown add option `"@, "`"@, ""@, ""@, 1),
        ErrorKind::UnexpectedAddArgument => ("unexpected add argument `"@, "`"@, ""@, ""@, 1),
        ErrorKind::AddUsage => ("usage: pack add <project> [--version <version>] [--client|--server|--shader]"@, ""@, ""@, ""@, 0),
        ErrorKind::RemoveUsage => ("usage: pack remove <project>"@, ""@, ""@, ""@, 0),
        ErrorKind::RunUsage => ("usage: pack run client|server|pair"@, ""@, ""@, ""@, 0),
        ErrorKind::UnknownRunTarget => ("unknown run target `"@, "`; use client, server, or pair"@, ""@, ""@, 1),
        ErrorKind::UnknownCommand => ("unknown command `"@, "`"@, ""@, ""@, 1),
        ErrorKind::NoArguments => ("`pack "@, "` does not accept arguments"@, ""@, ""@, 1),
    }
}

fn pieces_of(kind: ErrorKind) -> (r: (&'static str, &'static str, &'static str, &'static str, usize))
    ensures
        r.0@ == pieces(kind).0,
        r.1@ == pieces(kind).1,
        r.2@ == pieces(kind).2,
        r.3@ == pieces(kind).3,
        r.4 == pieces(kind).4,
{
    match kind {
        ErrorKind::FieldRequired => ("", " is required", "", "", 1),
        ErrorKind::UnsupportedLoader => ("pack.loader `", "` is not supported yet; Forever World is Fabric-only", "", "", 1),
        ErrorKind::NoFiles => ("pack.toml has no [[file]] entries", "", "", "", 0),
        ErrorKind::NoDownloads => ("", " has no downloads", "", "", 1),
        ErrorKind::DownloadNotHttps => ("", " download is not https or file: ", "", "", 2),
        ErrorKind::MissingPins => ("", " is missing a full sha1/sha512 pin", "", "", 1),
        ErrorKind::DuplicatePath => ("duplicate pack path ", "", "", "", 1),
        ErrorKind::PathEmpty => ("pack path is empty", "", "", "", 0),
        ErrorKind::PathNotSlashRelative => ("pack path `", "` must be a slash-separated relative path", "", "", 1),
        ErrorKind::PathAbsolute => ("pack path `", "` must not be absolute", "", "", 1),
        ErrorKind::PathBadParts => ("pack path `", "` must not contain empty, `.` or `..` parts", "", "", 1),
        ErrorKind::PathWorld => ("pack path `", "` must not replace a server world", "", "", 1),
        ErrorKind::UnsupportedLockVersion => ("unsupported lock version ", "", "", "", 1),
        ErrorKind::InvalidCurseForgeId => ("", " has an invalid CurseForge ID", "", "", 1),
        ErrorKind::StaleMapping => ("", " has a stale CurseForge mapping", "", "", 1),
        ErrorKind::DuplicateMapping => ("duplicate CurseForge mapping for ", "", "", "", 1),
        ErrorKind::UnsupportedLoaderKey => ("unsupported loader `", "`", "", "", 1),
        ErrorKind::FormatVersionMismatch => ("formatVersion ", " != ", "", "", 2),
        ErrorKind::GameMismatch => ("game ", " != ", "", "", 2),
        ErrorKind::NameMismatch => ("name ", " != ", "", "", 2),
        ErrorKind::VersionIdMismatch => ("versionId ", " != ", "", "", 2),
        ErrorKind::DependenciesMismatch => ("dependencies ", " != ", "", "", 2),
        ErrorKind::FileCountMismatch => ("file count ", " != ", "", "", 2),
        ErrorKind::ExtraFile => ("exported extra file ", "", "", "", 1),
        ErrorKind::SizeMismatch => ("", " size ", " != ", "", 3),
        ErrorKind::DownloadsDiffer => ("", " download URLs differ", "", "", 1),
        ErrorKind::Sha1Differs => ("", " sha1 differs", "", "", 1),
        ErrorKind::Sha512Differs => ("", " sha512 differs", "", "", 1),
        ErrorKind::ClientEnvMismatch => ("", " client env ", " != ", "", 3),
        ErrorKind::ServerEnvMismatch => ("", " server env ", " != ", "", 3),
        ErrorKind::ArchiveMissing => ("published archive is missing ", "", "", "", 1),
        ErrorKind::ArchiveExtra => ("published archive has extra entry ", "", "", "", 1),
        ErrorKind::ArchiveDiffers => ("archive entry ", " differs", "", "", 1),
        ErrorKind::ArchiveDuplicate => ("archive contains duplicate entry ", "", "", "", 1),
        ErrorKind::ArchiveUnreadable => ("", "", "", "", 1),
        ErrorKind::IndexMissing => ("published pack is missing modrinth.index.json", "", "", "", 0),
        ErrorKind::SizeNotPinned => ("", " size ", " did not match pin ", "", 3),
        ErrorKind::Sha1NotPinned => ("", " sha1 ", " did not match pin ", "", 3),
        ErrorKind::Sha512NotPinned => ("", " sha512 did not match pin ", "", "", 2),
        ErrorKind::NoUsableDownload => ("", " had no usable download", "", "", 1),
        ErrorKind::DownloadFailed => ("", "", "", "", 1),
        ErrorKind::Reported => ("", "", "", "", 1),
        ErrorKind::AddNotClientFile => ("platforms.toml [[curseforge.add]] path is not a locked client file: ", "", "", "", 1),
        ErrorKind::AddInvalidId => ("platforms.toml [[curseforge.add]] has an invalid ID: ", "", "", "", 1),
        ErrorKind::AddDuplicate => ("duplicate platforms.toml [[curseforge.add]] path: ", "", "", "", 1),
        ErrorKind::ExcludeNotClientFile => ("platforms.toml [[curseforge.exclude]] path is not a locked client file: ", "", "", "", 1),
        ErrorKind::ExcludeServerFile => ("platforms.toml may exclude only client-only files: ", "", "", "", 1),
        ErrorKind::ExcludeNoReason => ("platforms.toml [[curseforge.exclude]] reason is required: ", "", "", "", 1),
        ErrorKind::AddAndExclude => ("platforms.toml cannot add and exclude the same file: ", "", "", "", 1),
        ErrorKind::ExcludeDuplicate => ("duplicate platforms.toml [[curseforge.exclude]] path: ", "", "", "", 1),
        ErrorKind::UnresolvedClientFiles => ("CurseForge has no locked file for: ", "; run `pack curseforge resolve` and do not publish until every client file resolves", "", "", 1),
        ErrorKind::UnsupportedHashFormat => ("", " used unsupported Packwiz hash format ", "", "", 2),
        ErrorKind::NotExactlyOneFile => ("", " did not identify exactly one locked file named ", "", "", 2),
        ErrorKind::PackwizHashMismatch => ("Packwiz hash did not match the pin for ", "", "", "", 1),
        ErrorKind::MappedTwice => ("Packwiz mapped ", " more than once", "", "", 1),
        ErrorKind::NoCompatibleVersion => ("Modrinth project ", " has no compatible version `", "`", "", 2),
        ErrorKind::AmbiguousVersions => ("Modrinth project ", " has multiple compatible versions named `", "`: ", "", 3),
        ErrorKind::NoPrimaryFile => ("Modrinth project ", " version `", "` has no primary file", "", 2),
        ErrorKind::MultiplePrimaryFiles => ("Modrinth project ", " version `", "` has multiple primary files", "", 2),
        ErrorKind::MissingArtifact => ("prepared release is missing a ", " artifact", "", "", 1),
        ErrorKind::MavenNotHttps => ("publish.maven.repository must use HTTPS", "", "", "", 0),
        ErrorKind::BadReleaseType => ("publish.modrinth.release_type must be release, beta, or alpha, not `", "`", "", "", 1),
        ErrorKind::AlreadyInPack => ("", " is already in pack.toml", "", "", 1),
        ErrorKind::NotInPack => ("", " is not in pack.toml", "", "", 1),
        ErrorKind::LockChanged => ("pack.toml changed since the last install; run `pack install`", "", "", "", 0),
        ErrorKind::ArtifactChanged => ("prepared artifact ", " no longer matches its recorded size and SHA-512", "", "", 1),
        ErrorKind::LockChangedBeforePublish => ("pack.toml changed since the last install; run `pack install` before publishing", "", "", "", 0),
        ErrorKind::NotInstalled => ("", "; run `pack install` before running the pack", "", "", 1),
        ErrorKind::OverrideDuplicate => ("duplicate CurseForge override ", "", "", "", 1),
        ErrorKind::SymlinkOverride => ("refusing symbolic link in pack overrides: ", "", "", "", 1),
        ErrorKind::PackwizNotPinned => ("PACKWIZ_BIN was not built from pinned commit ", "", "", "", 1),
        ErrorKind::NotInLock => ("", " is not in pack.lock.toml", "", "", 1),
        ErrorKind::NotClientFile => ("", " is not a client file", "", "", 1),
        ErrorKind::BadPublishArgs => ("invalid publish arguments; use `pack publish` or `pack publish --dry-run`", "", "", "", 0),
        ErrorKind::SideConflict => ("--client and --server cannot be used together", "", "", "", 0),
        ErrorKind::KindConflict => ("--shader and --mod cannot be used together", "", "", "", 0),
        ErrorKind::VersionNeedsValue => ("--version requires a value", "", "", "", 0),
        ErrorKind::UnknownAddOption => ("unknown add option `", "`", "", "", 1),
        ErrorKind::UnexpectedAddArgument => ("unexpected add argument `", "`", "", "", 1),
        ErrorKind::AddUsage => ("usage: pack add <project> [--version <version>] [--client|--server|--shader]", "", "", "", 0),
        ErrorKind::RemoveUsage => ("usage: pack remove <project>", "", "", "", 0),
        ErrorKind::RunUsage => ("usage: pack run client|server|pair", "", "", "", 0),
        ErrorKind::UnknownRunTarget => ("unknown run target `", "`; use client, server, or pair", "", "", 1),
        ErrorKind::UnknownCommand => ("unknown command `", "`", "", "", 1),
        ErrorKind::NoArguments => ("`pack ", "` does not accept arguments", "", "", 1),
    }
}

/// The value at `i`, or nothing where the error names fewer values.
pub open spec fn arg_at(args: Seq<Seq<char>>, i: int) -> Seq<char> {
    if 0 <= i < args.len() {
        args[i]
    } else {
        Seq::empty()
    }
}

/// The message of a failure: its fixed text with its values put in.
pub open spec fn message_of(f: Failure) -> Seq<char> {
    let p = pieces(f.kind);
    let n = p.4;
    p.0 + if n > 0 {
        arg_at(f.args, 0) + p.1 + if n > 1 {
            arg_at(f.args, 1) + p.2 + if n > 2 {
                arg_at(f.args, 2) + p.3
            } else {
                Seq::empty()
            }
        } else {
            Seq::empty()
        }
    } else {
        Seq::empty()
    }
}

impl Error {
    fn arg(&self, i: usize) -> (r: &str)
        ensures
            r@ == arg_at(self@.args, i as int),
    {
        if i < self.args.len() {
            self.args[i].as_str()
        } else {
            proof {
                reveal_strlit("");
            }
            ""
        }
    }

    /// The error's message, as the command line shows it.
    pub fn message(&self) -> (r: String)
        ensures
            r@ == message_of(self@),
    {
        let (p0, p1, p2, p3, n) = pieces_of(self.kind);
        let mut out = String::new();
        out.append(p0);
        if n > 0 {
            out.append(self.arg(0));
            out.append(p1);
            if n > 1 {
                out.append(self.arg(1));
                out.append(p2);
                if n > 2 {
                    out.append(self.arg(2));
                    out.append(p3);
                }
            }
        }
        proof {
            reveal_strlit("");
        }
        assert(out@ =~= message_of(self@));
        out
    }
}

} // verus!
