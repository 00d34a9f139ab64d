//! The `pack` command line: which command runs, and what its arguments ask
//! for.

use crate::authoring::{AddOptions, RunTarget};
use crate::error::{failure, Error, ErrorKind, Failure};
use crate::publish::PublishMode;
use crate::spec::{ContentKind, ContentSide};
use crate::text::{chars_of, seq_starts_with, starts_with, str_eq, string_from};
use vstd::prelude::*;

verus! {

/// The arguments as character sequences.
pub open spec fn args_view(args: Seq<String>) -> Seq<Seq<char>> {
    args.map_values(|s: String| s@)
}

/// `pack publish` takes no argument, or `--dry-run` alone.
pub open spec fn publish_mode_of(args: Seq<Seq<char>>) -> Result<PublishMode, Failure> {
    if args.len() == 1 && args[0] == "--dry-run"@ {
        Ok(PublishMode::DryRun)
    } else if args.len() == 0 {
        Ok(PublishMode::Publish)
    } else {
        Err(failure(ErrorKind::BadPublishArgs, seq![]))
    }
}

pub fn parse_publish_mode(args: &Vec<String>) -> (r: Result<PublishMode, Error>)
    ensures
        match publish_mode_of(args_view(args@)) {
            Ok(m) => r == Ok::<PublishMode, Error>(m),
            Err(e) => r matches Err(x) && x@ == e,
        },
{
    if args.len() == 1 && str_eq(args[0].as_str(), "--dry-run") {
        Ok(PublishMode::DryRun)
    } else if args.len() == 0 {
        Ok(PublishMode::Publish)
    } else {
        proof {
            if args@.len() == 1 {
                assert(args_view(args@)[0] == args@[0]@);
            }
        }
        Err(Error::new0(ErrorKind::BadPublishArgs))
    }
}

/// A command that takes no argument was given some.
pub fn require_no_args(args: &Vec<String>, command: &str) -> (r: Result<(), Error>)
    ensures
        args@.len() == 0 ==> r is Ok,
        args@.len() > 0 ==> (r matches Err(e) && e@ == failure(ErrorKind::NoArguments, seq![command@])),
{
    if args.len() == 0 {
        Ok(())
    } else {
        Err(Error::new1(ErrorKind::NoArguments, command.to_owned()))
    }
}

/// `pack run` takes one target: `client`, `server` or `pair`.
pub open spec fn run_target_of(args: Seq<Seq<char>>) -> Result<RunTarget, Failure> {
    if args.len() != 1 {
        Err(failure(ErrorKind::RunUsage, seq![]))
    } else if args[0] == "client"@ {
        Ok(RunTarget::Client)
    } else if args[0] == "server"@ {
        Ok(RunTarget::Server)
    } else if args[0] == "pair"@ {
        Ok(RunTarget::Pair)
    } else {
        Err(failure(ErrorKind::UnknownRunTarget, seq![args[0]]))
    }
}

pub fn parse_run_target(args: &Vec<String>) -> (r: Result<RunTarget, Error>)
    ensures
        match run_target_of(args_view(args@)) {
            Ok(t) => r == Ok::<RunTarget, Error>(t),
            Err(e) => r matches Err(x) && x@ == e,
        },
{
    if args.len() != 1 {
        return Err(Error::new0(ErrorKind::RunUsage));
    }
    assert(args_view(args@)[0] == args@[0]@);
    let a = args[0].as_str();
    if str_eq(a, "client") {
        Ok(RunTarget::Client)
    } else if str_eq(a, "server") {
        Ok(RunTarget::Server)
    } else if str_eq(a, "pair") {
        Ok(RunTarget::Pair)
    } else {
        Err(Error::new1(ErrorKind::UnknownRunTarget, args[0].clone()))
    }
}

/// What `pack add` has read of its arguments so far.
pub struct AddScan {
    pub query: Option<Seq<char>>,
    pub version: Option<Seq<char>>,
    pub kind: Option<ContentKind>,
    pub side: Option<ContentSide>,
}

/// Nothing read yet.
pub open spec fn scan_start() -> AddScan {
    AddScan { query: None, version: None, kind: None, side: None }
}

/// The index of the first `@` in `s`.
pub open spec fn first_at(s: Seq<char>) -> Option<int> {
    if exists|p: int| 0 <= p < s.len() && s[p] == '@' {
        Some(choose|p: int| 0 <= p < s.len() && s[p] == '@' && forall|q: int| 0 <= q < p ==> s[q] != '@')
    } else {
        None
    }
}

/// Reads argument `i`: the scan after it, or the failure it causes; and
/// whether it took the next argument as its value.
pub open spec fn add_step(args: Seq<Seq<char>>, i: int, st: AddScan) -> (Result<AddScan, Failure>, bool) {
    let a = args[i];
    if a == "--client"@ || a == "--server"@ {
        let v = if a == "--client"@ { ContentSide::Client } else { ContentSide::Server };
        if st.side matches Some(s) && s != v {
            (Err(failure(ErrorKind::SideConflict, seq![])), false)
        } else {
            (Ok(AddScan { side: Some(v), ..st }), false)
        }
    } else if a == "--shader"@ || a == "--mod"@ {
        let v = if a == "--shader"@ { ContentKind::Shader } else { ContentKind::Mod };
        if st.kind matches Some(k) && k != v {
            (Err(failure(ErrorKind::KindConflict, seq![])), false)
        } else {
            (Ok(AddScan { kind: Some(v), ..st }), false)
        }
    } else if a == "--version"@ {
        if i + 1 < args.len() {
            (Ok(AddScan { version: Some(args[i + 1]), ..st }), true)
        } else {
            (Err(failure(ErrorKind::VersionNeedsValue, seq![])), false)
        }
    } else if seq_starts_with(a, "--version="@) {
        (Ok(AddScan { version: Some(a.subrange(10, a.len() as int)), ..st }), false)
    } else if a.len() > 0 && a[0] == '-' {
        (Err(failure(ErrorKind::UnknownAddOption, seq![a])), false)
    } else if st.query is None {
        match first_at(a) {
            Some(p) => (
                Ok(
                    AddScan {
                        query: Some(a.subrange(0, p)),
                        version: if st.version is None {
                            Some(a.subrange(p + 1, a.len() as int))
                        } else {
                            st.version
                        },
                        ..st
                    },
                ),
                false,
            ),
            None => (Ok(AddScan { query: Some(a), ..st }), false),
        }
    } else {
        (Err(failure(ErrorKind::UnexpectedAddArgument, seq![a])), false)
    }
}

/// Reads the arguments from `i` on.
pub open spec fn scan_add(args: Seq<Seq<char>>, i: int, st: AddScan) -> Result<AddScan, Failure>
    decreases args.len() - i,
{
    if i < 0 || i >= args.len() {
        Ok(st)
    } else {
        let (r, two) = add_step(args, i, st);
        match r {
            Err(e) => Err(e),
            Ok(next) => scan_add(args, i + 1 + if two { 1int } else { 0int }, next),
        }
    }
}

/// The options a finished scan asks for: a shader is always client-side.
pub open spec fn scan_options(st: AddScan) -> AddOptions {
    let kind = match st.kind {
        Some(k) => k,
        None => ContentKind::Mod,
    };
    AddOptions {
        kind,
        side: if kind == ContentKind::Shader {
            Some(ContentSide::Client)
        } else {
            st.side
        },
    }
}

/// What `pack add` was asked: the project, the version where one was
/// given, and how to file it.
#[derive(Debug, Clone)]
pub struct AddRequest {
    pub query: String,
    pub version: Option<String>,
    pub options: AddOptions,
}

/// The scan in executable form.
struct Scan {
    query: Option<String>,
    version: Option<String>,
    kind: Option<ContentKind>,
    side: Option<ContentSide>,
}

/// An optional string by its characters.
pub open spec fn opt_view(o: Option<String>) -> Option<Seq<char>> {
    match o {
        Some(s) => Some(s@),
        None => None,
    }
}

spec fn scan_view(s: Scan) -> AddScan {
    AddScan { query: opt_view(s.query), version: opt_view(s.version), kind: s.kind, side: s.side }
}

fn find_at(a: &Vec<char>) -> (r: Option<usize>)
    ensures
        match r {
            Some(p) => first_at(a@) == Some(p as int),
            None => first_at(a@) is None,
        },
        r matches Some(p) ==> p < a.len(),
{
    let mut i: usize = 0;
    while i < a.len()
        invariant
            i <= a@.len(),
            forall|q: int| 0 <= q < i ==> a@[q] != '@',
        decreases a@.len() - i,
    {
        if a[i] == '@' {
            assert(first_at(a@) == Some(i as int)) by {
                let c = choose|p: int|
                    0 <= p < a@.len() && a@[p] == '@' && forall|q: int| 0 <= q < p ==> a@[q] != '@';
                if c < i {
                } else if c > i {
                }
            }
            return Some(i);
        }
        i = i + 1;
    }
    None
}

/// Reads the arguments of `pack add`: one project (`project@version` gives
/// the version too, unless `--version` already did), `--version <v>` or
/// `--version=<v>`, and at most one of `--client` and `--server`, and of
/// `--mod` and `--shader`; a shader is always client-side.
pub fn parse_add_args(args: &Vec<String>) -> (r: Result<AddRequest, Error>)
    ensures
        match scan_add(args_view(args@), 0, scan_start()) {
            Err(e) => r matches Err(x) && x@ == e,
            Ok(st) => match st.query {
                None => r matches Err(x) && x@ == failure(ErrorKind::AddUsage, seq![]),
                Some(q) => r matches Ok(req) && {
                    &&& req.query@ == q
                    &&& opt_view(req.version) == st.version
                    &&& req.options == scan_options(st)
                },
            },
        },
{
    let ghost av = args_view(args@);
    let mut st = Scan { query: None, version: None, kind: None, side: None };
    let mut i: usize = 0;
    while i < args.len()
        invariant
            av == args_view(args@),
            i <= args@.len(),
            scan_add(av, 0, scan_start()) == scan_add(av, i as int, scan_view(st)),
        decreases args@.len() - i,
    {
        assert(av[i as int] == args@[i as int]@);
        proof {
            reveal_strlit("--client");
            reveal_strlit("--server");
            reveal_strlit("--shader");
            reveal_strlit("--mod");
            reveal_strlit("--version");
            reveal_strlit("--version=");
            reveal_strlit("-");
        }
        let ghost s0 = scan_view(st);
        let ghost i0 = i as int;
        let a = args[i].as_str();
        if str_eq(a, "--client") || str_eq(a, "--server") {
            let v = if str_eq(a, "--client") {
                ContentSide::Client
            } else {
                ContentSide::Server
            };
            if let Some(s) = st.side {
                if s != v {
                    return Err(Error::new0(ErrorKind::SideConflict));
                }
            }
            st.side = Some(v);
            assert(add_step(av, i0, s0).0 == Ok::<AddScan, Failure>(scan_view(st)));
        } else if str_eq(a, "--shader") || str_eq(a, "--mod") {
            let v = if str_eq(a, "--shader") {
                ContentKind::Shader
            } else {
                ContentKind::Mod
            };
            if let Some(k) = st.kind {
                if k != v {
                    return Err(Error::new0(ErrorKind::KindConflict));
                }
            }
            st.kind = Some(v);
            assert(add_step(av, i0, s0).0 == Ok::<AddScan, Failure>(scan_view(st)));
        } else if str_eq(a, "--version") {
            if i + 1 < args.len() {
                assert(av[i + 1] == args@[i + 1]@);
                st.version = Some(args[i + 1].clone());
                assert(add_step(av, i0, s0) == (Ok::<AddScan, Failure>(scan_view(st)), true));
                i = i + 1;
            } else {
                return Err(Error::new0(ErrorKind::VersionNeedsValue));
            }
        } else if starts_with(a, "--version=") {
            let cs = chars_of(a);
            proof {
                reveal_strlit("--version=");
            }
            let whole = cs.as_slice();
            let rest = &whole[10..cs.len()];
            st.version = Some(string_from(rest));
            assert(add_step(av, i0, s0).0 == Ok::<AddScan, Failure>(scan_view(st)));
        } else if starts_with(a, "-") {
            proof {
                reveal_strlit("-");
                assert(a@.subrange(0, 1)[0] == a@[0]);
            }
            return Err(Error::new1(ErrorKind::UnknownAddOption, args[i].clone()));
        } else if st.query.is_none() {
            let cs = chars_of(a);
            proof {
                if cs@.len() > 0 && cs@[0] == '-' {
                    assert(cs@.subrange(0, 1) =~= "-"@);
                }
                assert(!(a@.len() > 0 && a@[0] == '-'));
                assert(a@ != "--client"@ && a@ != "--server"@ && a@ != "--shader"@);
                assert(a@ != "--mod"@ && a@ != "--version"@);
            }
            match find_at(&cs) {
                Some(p) => {
                    let whole = cs.as_slice();
                    let head = &whole[0..p];
                    assert(head@ == a@.subrange(0, p as int));
                    st.query = Some(string_from(head));
                    if st.version.is_none() {
                        let tail = &whole[p + 1..cs.len()];
                        assert(tail@ == a@.subrange(p + 1, a@.len() as int));
                        st.version = Some(string_from(tail));
                    }
                    assert(first_at(av[i0]) == Some(p as int));
                },
                None => {
                    st.query = Some(args[i].clone());
                    assert(first_at(av[i0]) is None);
                },
            }
            assert(add_step(av, i0, s0).0 == Ok::<AddScan, Failure>(scan_view(st)));
        } else {
            proof {
                reveal_strlit("-");
                let cs = a@;
                if cs.len() > 0 && cs[0] == '-' {
                    assert(cs.subrange(0, 1) =~= "-"@);
                }
            }
            return Err(Error::new1(ErrorKind::UnexpectedAddArgument, args[i].clone()));
        }
        assert(scan_add(av, i0, s0) == scan_add(av, i + 1, scan_view(st)));
        i = i + 1;
    }
    match st.query {
        None => Err(Error::new0(ErrorKind::AddUsage)),
        Some(q) => {
            let kind = match st.kind {
                Some(k) => k,
                None => ContentKind::Mod,
            };
            let side = if kind == ContentKind::Shader {
                Some(ContentSide::Client)
            } else {
                st.side
            };
            Ok(AddRequest { query: q, version: st.version, options: AddOptions { kind, side } })
        },
    }
}

} // verus!

verus! {

/// A `pack` command.
#[derive(Debug, Clone, Copy, PartialEq, Eq)]
pub enum Command {
    Add,
    Remove,
    Install,
    Run,
    Publish,
    Help,
}

/// The command a name selects.
pub open spec fn command_of(name: Seq<char>) -> Result<Command, Failure> {
    if name == "add"@ {
        Ok(Command::Add)
    } else if name == "remove"@ {
        Ok(Command::Remove)
    } else if name == "install"@ {
        Ok(Command::Install)
    } else if name == "run"@ {
        Ok(Command::Run)
    } else if name == "publish"@ {
        Ok(Command::Publish)
    } else if name == "-h"@ || name == "--help"@ || name == "help"@ {
        Ok(Command::Help)
    } else {
        Err(failure(ErrorKind::UnknownCommand, seq![name]))
    }
}

pub fn parse_command(name: &str) -> (r: Result<Command, Error>)
    ensures
        match command_of(name@) {
            Ok(c) => r == Ok::<Command, Error>(c),
            Err(e) => r matches Err(x) && x@ == e,
        },
{
    if str_eq(name, "add") {
        Ok(Command::Add)
    } else if str_eq(name, "remove") {
        Ok(Command::Remove)
    } else if str_eq(name, "install") {
        Ok(Command::Install)
    } else if str_eq(name, "run") {
        Ok(Command::Run)
    } else if str_eq(name, "publish") {
        Ok(Command::Publish)
    } else if str_eq(name, "-h") || str_eq(name, "--help") || str_eq(name, "help") {
        Ok(Command::Help)
    } else {
        Err(Error::new1(ErrorKind::UnknownCommand, name.to_owned()))
    }
}

/// `pack remove` takes exactly one project.
pub fn remove_query(args: &Vec<String>) -> (r: Result<String, Error>)
    ensures
        args@.len() == 1 ==> (r matches Ok(q) && q@ == args@[0]@),
        args@.len() != 1 ==> (r matches Err(e) && e@ == failure(ErrorKind::RemoveUsage, seq![])),
{
    if args.len() != 1 {
        return Err(Error::new0(ErrorKind::RemoveUsage));
    }
    Ok(args[0].clone())
}

} // verus!
