//! The launcher overlay (`generated/modstage.toml`): a server, a client and a
//! client/server pair instance made from the lockfile.

use crate::fetch::{cache_name, cache_name_string};
use crate::spec::{is_client_file, is_server_file, client_file, server_file, FileSpec, Lockfile, PackMeta};
use crate::text::{chars_of, push_toml_string, seq_starts_with, toml_quoted};
use vstd::prelude::*;

verus! {

/// Test-only extra. Never export this into the `.mrpack`.
pub const TEAKIT_FABRIC: &'static str = "maven:com.iamkaf.teakit:teakit-fabric:0.14.0+26.2";

/// The first `/`-separated part of `path` is `name` (`Path::starts_with`
/// with a single component).
pub open spec fn first_part_is(path: Seq<char>, name: Seq<char>) -> bool {
    seq_starts_with(path, name) && (path.len() == name.len() || path[name.len() as int] == '/')
}

fn first_part_is_exec(path: &str, name: &str) -> (r: bool)
    ensures
        r == first_part_is(path@, name@),
{
    let p = chars_of(path);
    let n = chars_of(name);
    if n.len() > p.len() {
        return false;
    }
    let mut i: usize = 0;
    while i < n.len()
        invariant
            p@ == path@,
            n@ == name@,
            n@.len() <= p@.len(),
            i <= n@.len(),
            forall|j: int| 0 <= j < i ==> p@[j] == n@[j],
        decreases n@.len() - i,
    {
        if p[i] != n[i] {
            assert(p@.subrange(0, n@.len() as int)[i as int] != n@[i as int]);
            return false;
        }
        i = i + 1;
    }
    assert(p@.subrange(0, n@.len() as int) =~= n@);
    p.len() == n.len() || p[n.len()] == '/'
}

/// Which of the lockfile's files a list takes.
#[derive(Debug, Clone, Copy, PartialEq, Eq)]
pub enum Pick {
    /// Files that load on the dedicated server.
    ServerFiles,
    /// Client mods.
    ClientMods,
    /// Client shader packs.
    ClientShaders,
    /// Mods that load on the client but not on the server.
    ClientOnlyMods,
}

pub open spec fn picks(p: Pick, f: FileSpec) -> bool {
    match p {
        Pick::ServerFiles => is_server_file(f),
        Pick::ClientMods => is_client_file(f) && first_part_is(f.path@, "mods"@),
        Pick::ClientShaders => is_client_file(f) && first_part_is(f.path@, "shaderpacks"@),
        Pick::ClientOnlyMods => is_client_file(f) && !is_server_file(f) && first_part_is(
            f.path@,
            "mods"@,
        ),
    }
}

fn picks_exec(p: Pick, f: &FileSpec) -> (r: bool)
    ensures
        r == picks(p, *f),
{
    match p {
        Pick::ServerFiles => server_file(f),
        Pick::ClientMods => client_file(f) && first_part_is_exec(f.path.as_str(), "mods"),
        Pick::ClientShaders => client_file(f) && first_part_is_exec(f.path.as_str(), "shaderpacks"),
        Pick::ClientOnlyMods => client_file(f) && !server_file(f) && first_part_is_exec(
            f.path.as_str(),
            "mods",
        ),
    }
}

/// Where the overlay finds a cached file, relative to `generated/`.
pub open spec fn cache_relative(f: FileSpec) -> Seq<char> {
    "../.cache/objects/"@ + f.sha512@ + "/"@ + cache_name(f.path@)
}

fn cache_relative_string(file: &FileSpec) -> (r: String)
    ensures
        r@ == cache_relative(*file),
{
    let mut s = "../.cache/objects/".to_owned();
    s.append(file.sha512.as_str());
    s.append("/");
    let name = cache_name_string(file.path.as_str());
    s.append(name.as_str());
    s
}

/// One entry of a `mods` list.
pub open spec fn mod_line(value: Seq<char>) -> Seq<char> {
    "  "@ + toml_quoted(value) + ",\n"@
}

/// The `mods` entries for the files that `p` picks, in lockfile order.
pub open spec fn mod_lines(files: Seq<FileSpec>, p: Pick) -> Seq<char>
    decreases files.len(),
{
    if files.len() == 0 {
        Seq::empty()
    } else {
        mod_lines(files.drop_last(), p) + if picks(p, files.last()) {
            mod_line(cache_relative(files.last()))
        } else {
            Seq::empty()
        }
    }
}

/// The `mods` entries for extra artifacts.
pub open spec fn extra_lines(extras: Seq<&str>) -> Seq<char>
    decreases extras.len(),
{
    if extras.len() == 0 {
        Seq::empty()
    } else {
        extra_lines(extras.drop_last()) + mod_line(extras.last()@)
    }
}

/// The quoted sides, separated by `, `.
pub open spec fn side_list(sides: Seq<&str>) -> Seq<char>
    decreases sides.len(),
{
    if sides.len() == 0 {
        Seq::empty()
    } else if sides.len() == 1 {
        toml_quoted(sides[0]@)
    } else {
        side_list(sides.drop_last()) + ", "@ + toml_quoted(sides.last()@)
    }
}

/// The opening of an `[[instance]]` table: name, game, loader and sides.
pub open spec fn instance_head(name: Seq<char>, pack: PackMeta, sides: Seq<&str>) -> Seq<char> {
    "\n[[instance]]\n"@ + ("name = "@ + toml_quoted(name) + "\n"@) + ("minecraft = "@
        + toml_quoted(pack.minecraft@) + "\n"@) + ("loader = "@ + toml_quoted(pack.loader@)
        + "\n"@) + ("loader_version = "@ + toml_quoted(pack.loader_version@) + "\n"@) + (
    "sides = ["@ + side_list(sides) + "]\n"@)
}

/// The server properties that let the instance run offline.
pub open spec fn properties_line(server_properties: bool) -> Seq<char> {
    if server_properties {
        "server_properties = { online-mode = \"false\", enforce-secure-profile = \"false\" }\n"@
    } else {
        Seq::empty()
    }
}

/// The `mods` list: the picked files, then the extras.
pub open spec fn mods_block(files: Seq<FileSpec>, p: Pick, extras: Seq<&str>) -> Seq<char> {
    "mods = [\n"@ + mod_lines(files, p) + extra_lines(extras) + "]\n"@
}

/// A `[[instance]]` table.
pub open spec fn instance_text(
    name: Seq<char>,
    pack: PackMeta,
    sides: Seq<&str>,
    files: Seq<FileSpec>,
    p: Pick,
    extras: Seq<&str>,
    server_properties: bool,
) -> Seq<char> {
    instance_head(name, pack, sides) + properties_line(server_properties) + mods_block(
        files,
        p,
        extras,
    )
}

/// A client fixture that puts a cached file at its pack path.
pub open spec fn fixture_text(f: FileSpec) -> Seq<char> {
    "\n[[instance.fixture]]\n"@ + "from = "@ + toml_quoted(cache_relative(f)) + "\n"@ + "to = "@
        + toml_quoted(f.path@) + "\n"@ + "side = \"client\"\n"@ + "replace = true\n"@
}

/// The fixtures for the files that `p` picks, in lockfile order.
pub open spec fn fixtures_text(files: Seq<FileSpec>, p: Pick) -> Seq<char>
    decreases files.len(),
{
    if files.len() == 0 {
        Seq::empty()
    } else {
        fixtures_text(files.drop_last(), p) + if picks(p, files.last()) {
            fixture_text(files.last())
        } else {
            Seq::empty()
        }
    }
}

/// The overlay's opening: where it comes from, the project and repositories.
pub open spec fn overlay_header() -> Seq<char> {
    "# Generated from pack.lock.toml. Do not edit; do not commit.\n[project]\nname = \"forever-world\"\n\n[repositories]\nmavenLocal = \"mavenLocal\"\nkaf = \"https://maven.kaf.sh\"\n"@
}

/// The whole overlay: the server instance with the server files; the client
/// instance with the client mods and the shader packs as fixtures; the pair
/// instance with the server files and TeaKit, the client-only mods and the
/// shader packs as client fixtures.
pub open spec fn overlay_text(lock: Lockfile) -> Seq<char> {
    let files = lock.file@;
    overlay_header() + instance_text(
        "forever-world-server"@,
        lock.pack,
        seq!["server"],
        files,
        Pick::ServerFiles,
        seq![],
        true,
    ) + instance_text(
        "forever-world-client"@,
        lock.pack,
        seq!["client"],
        files,
        Pick::ClientMods,
        seq![],
        false,
    ) + fixtures_text(files, Pick::ClientShaders) + instance_text(
        "forever-world-pair"@,
        lock.pack,
        seq!["client", "server"],
        files,
        Pick::ServerFiles,
        seq![TEAKIT_FABRIC],
        true,
    ) + fixtures_text(files, Pick::ClientOnlyMods) + fixtures_text(files, Pick::ClientShaders)
}

fn write_key(out: &mut String, key: &str, value: &str)
    ensures
        final(out)@ == old(out)@ + (key@ + toml_quoted(value@) + "\n"@),
{
    let ghost start = out@;
    out.append(key);
    push_toml_string(out, value);
    out.append("\n");
    assert(out@ =~= start + (key@ + toml_quoted(value@) + "\n"@));
}

fn write_sides(out: &mut String, sides: &[&str])
    ensures
        final(out)@ == old(out)@ + ("sides = ["@ + side_list(sides@) + "]\n"@),
{
    let ghost start = out@;
    out.append("sides = [");
    let ghost before_sides = out@;
    let mut i: usize = 0;
    while i < sides.len()
        invariant
            i <= sides@.len(),
            out@ == before_sides + side_list(sides@.subrange(0, i as int)),
        decreases sides@.len() - i,
    {
        let ghost pre = sides@.subrange(0, i + 1);
        assert(pre.drop_last() =~= sides@.subrange(0, i as int));
        if i > 0 {
            out.append(", ");
        }
        push_toml_string(out, sides[i]);
        i = i + 1;
        assert(out@ =~= before_sides + side_list(sides@.subrange(0, i as int)));
    }
    assert(sides@.subrange(0, i as int) =~= sides@);
    out.append("]\n");
    assert(out@ =~= start + ("sides = ["@ + side_list(sides@) + "]\n"@));
}

fn write_head(out: &mut String, name: &str, pack: &PackMeta, sides: &[&str])
    ensures
        final(out)@ == old(out)@ + instance_head(name@, *pack, sides@),
{
    let ghost start = out@;
    out.append("\n[[instance]]\n");
    write_key(out, "name = ", name);
    write_key(out, "minecraft = ", pack.minecraft.as_str());
    write_key(out, "loader = ", pack.loader.as_str());
    write_key(out, "loader_version = ", pack.loader_version.as_str());
    write_sides(out, sides);
    assert(out@ =~= start + instance_head(name@, *pack, sides@));
}

fn write_mod_lines(out: &mut String, files: &Vec<FileSpec>, p: Pick)
    ensures
        final(out)@ == old(out)@ + mod_lines(files@, p),
{
    let mut i: usize = 0;
    while i < files.len()
        invariant
            i <= files@.len(),
            out@ == old(out)@ + mod_lines(files@.subrange(0, i as int), p),
        decreases files@.len() - i,
    {
        let ghost pre = files@.subrange(0, i + 1);
        assert(pre.drop_last() =~= files@.subrange(0, i as int));
        assert(pre.last() == files@[i as int]);
        let ghost before = out@;
        if picks_exec(p, &files[i]) {
            out.append("  ");
            let rel = cache_relative_string(&files[i]);
            push_toml_string(out, rel.as_str());
            out.append(",\n");
            assert(out@ =~= before + mod_line(cache_relative(files@[i as int])));
        }
        i = i + 1;
        assert(out@ =~= old(out)@ + mod_lines(files@.subrange(0, i as int), p));
    }
    assert(files@.subrange(0, i as int) =~= files@);
}

fn write_extra_lines(out: &mut String, extra_mods: &[&str])
    ensures
        final(out)@ == old(out)@ + extra_lines(extra_mods@),
{
    let mut i: usize = 0;
    while i < extra_mods.len()
        invariant
            i <= extra_mods@.len(),
            out@ == old(out)@ + extra_lines(extra_mods@.subrange(0, i as int)),
        decreases extra_mods@.len() - i,
    {
        let ghost pre = extra_mods@.subrange(0, i + 1);
        assert(pre.drop_last() =~= extra_mods@.subrange(0, i as int));
        let ghost before = out@;
        out.append("  ");
        push_toml_string(out, extra_mods[i]);
        out.append(",\n");
        assert(out@ =~= before + mod_line(extra_mods@[i as int]@));
        i = i + 1;
        assert(out@ =~= old(out)@ + extra_lines(extra_mods@.subrange(0, i as int)));
    }
    assert(extra_mods@.subrange(0, i as int) =~= extra_mods@);
}

fn write_instance(
    out: &mut String,
    name: &str,
    lock: &Lockfile,
    sides: &[&str],
    p: Pick,
    extra_mods: &[&str],
    server_properties: bool,
)
    ensures
        final(out)@ == old(out)@ + instance_text(
            name@,
            lock.pack,
            sides@,
            lock.file@,
            p,
            extra_mods@,
            server_properties,
        ),
{
    let ghost start = out@;
    write_head(out, name, &lock.pack, sides);
    let ghost after_head = out@;
    if server_properties {
        out.append(
            "server_properties = { online-mode = \"false\", enforce-secure-profile = \"false\" }\n",
        );
    }
    assert(out@ =~= after_head + properties_line(server_properties));
    let ghost before_mods = out@;
    out.append("mods = [\n");
    write_mod_lines(out, &lock.file, p);
    write_extra_lines(out, extra_mods);
    out.append("]\n");
    assert(out@ =~= before_mods + mods_block(lock.file@, p, extra_mods@));
    assert(out@ =~= start + instance_text(
        name@,
        lock.pack,
        sides@,
        lock.file@,
        p,
        extra_mods@,
        server_properties,
    ));
}

fn write_fixture(out: &mut String, file: &FileSpec)
    ensures
        final(out)@ == old(out)@ + fixture_text(*file),
{
    let ghost start = out@;
    out.append("\n[[instance.fixture]]\n");
    out.append("from = ");
    let rel = cache_relative_string(file);
    push_toml_string(out, rel.as_str());
    out.append("\n");
    out.append("to = ");
    push_toml_string(out, file.path.as_str());
    out.append("\n");
    out.append("side = \"client\"\n");
    out.append("replace = true\n");
    assert(out@ =~= start + fixture_text(*file));
}

fn write_fixtures(out: &mut String, files: &Vec<FileSpec>, p: Pick)
    ensures
        final(out)@ == old(out)@ + fixtures_text(files@, p),
{
    let mut i: usize = 0;
    while i < files.len()
        invariant
            i <= files@.len(),
            out@ == old(out)@ + fixtures_text(files@.subrange(0, i as int), p),
        decreases files@.len() - i,
    {
        let ghost pre = files@.subrange(0, i + 1);
        assert(pre.drop_last() =~= files@.subrange(0, i as int));
        assert(pre.last() == files@[i as int]);
        if picks_exec(p, &files[i]) {
            write_fixture(out, &files[i]);
        }
        i = i + 1;
        assert(out@ =~= old(out)@ + fixtures_text(files@.subrange(0, i as int), p));
    }
    assert(files@.subrange(0, i as int) =~= files@);
}

/// The launcher overlay for a lockfile.
pub fn overlay_toml(lock: &Lockfile) -> (r: String)
    ensures
        r@ == overlay_text(*lock),
{
    let mut out = "# Generated from pack.lock.toml. Do not edit; do not commit.\n[project]\nname = \"forever-world\"\n\n[repositories]\nmavenLocal = \"mavenLocal\"\nkaf = \"https://maven.kaf.sh\"\n".to_owned();
    let server_side: [&str; 1] = ["server"];
    let client_side: [&str; 1] = ["client"];
    let both_sides: [&str; 2] = ["client", "server"];
    let no_extras: [&str; 0] = [];
    let teakit: [&str; 1] = [TEAKIT_FABRIC];
    assert(server_side@ =~= seq!["server"]);
    assert(client_side@ =~= seq!["client"]);
    assert(both_sides@ =~= seq!["client", "server"]);
    assert(no_extras@ =~= seq![]);
    assert(teakit@ =~= seq![TEAKIT_FABRIC]);
    write_instance(&mut out, "forever-world-server", lock, &server_side, Pick::ServerFiles, &no_extras, true);
    write_instance(&mut out, "forever-world-client", lock, &client_side, Pick::ClientMods, &no_extras, false);
    write_fixtures(&mut out, &lock.file, Pick::ClientShaders);
    write_instance(&mut out, "forever-world-pair", lock, &both_sides, Pick::ServerFiles, &teakit, true);
    write_fixtures(&mut out, &lock.file, Pick::ClientOnlyMods);
    write_fixtures(&mut out, &lock.file, Pick::ClientShaders);
    out
}

} // verus!

verus! {

/// A `mods` entry for every file of `files`.
pub open spec fn all_mod_lines(files: Seq<FileSpec>) -> Seq<char>
    decreases files.len(),
{
    if files.len() == 0 {
        Seq::empty()
    } else {
        all_mod_lines(files.drop_last()) + mod_line(cache_relative(files.last()))
    }
}

/// A client fixture for every file of `files`.
pub open spec fn all_fixtures(files: Seq<FileSpec>) -> Seq<char>
    decreases files.len(),
{
    if files.len() == 0 {
        Seq::empty()
    } else {
        all_fixtures(files.drop_last()) + fixture_text(files.last())
    }
}

proof fn lemma_picked_lines(files: Seq<FileSpec>, p: Pick)
    ensures
        mod_lines(files, p) == all_mod_lines(files.filter(|f: FileSpec| picks(p, f))),
        fixtures_text(files, p) == all_fixtures(files.filter(|f: FileSpec| picks(p, f))),
    decreases files.len(),
{
    reveal_with_fuel(Seq::<_>::filter, 1);
    if files.len() > 0 {
        lemma_picked_lines(files.drop_last(), p);
        let pred = |f: FileSpec| picks(p, f);
        let fi = files.drop_last().filter(pred);
        if picks(p, files.last()) {
            assert(files.filter(pred) == fi.push(files.last()));
            assert(fi.push(files.last()).drop_last() =~= fi);
        } else {
            assert(files.filter(pred) == fi);
        }
    }
}

/// Client-only files stay off the dedicated server: the server instance and
/// the pair's shared `mods` list hold an entry for exactly the lockfile's
/// files that load on the server, in lockfile order, and the pair gets the
/// client-only mods and the shader packs only as client fixtures.
pub proof fn law_client_only_files_stay_off_the_server(lock: Lockfile)
    ensures
        mod_lines(lock.file@, Pick::ServerFiles) == all_mod_lines(
            lock.file@.filter(|f: FileSpec| is_server_file(f)),
        ),
        fixtures_text(lock.file@, Pick::ClientOnlyMods) == all_fixtures(
            lock.file@.filter(|f: FileSpec| picks(Pick::ClientOnlyMods, f)),
        ),
        forall|f: FileSpec| picks(Pick::ClientOnlyMods, f) ==> !is_server_file(f),
{
    lemma_picked_lines(lock.file@, Pick::ServerFiles);
    lemma_picked_lines(lock.file@, Pick::ClientOnlyMods);
    assert(lock.file@.filter(|f: FileSpec| picks(Pick::ServerFiles, f)) =~= lock.file@.filter(
        |f: FileSpec| is_server_file(f),
    )) by {
        assert((|f: FileSpec| picks(Pick::ServerFiles, f)) =~= (|f: FileSpec| is_server_file(f)));
    }
}

} // verus!

verus! {

/// The client instance runs every mod that loads on the client, whatever
/// its server side: its `mods` list holds an entry for exactly the
/// lockfile's files under `mods/` whose client side is not unsupported, in
/// lockfile order. Mods that also load on the server are among them.
pub proof fn law_client_instance_takes_every_client_mod(lock: Lockfile)
    ensures
        mod_lines(lock.file@, Pick::ClientMods) == all_mod_lines(
            lock.file@.filter(
                |f: FileSpec|
                    f.env.client != crate::spec::SideRequirement::Unsupported && first_part_is(
                        f.path@,
                        "mods"@,
                    ),
            ),
        ),
        forall|f: FileSpec|
            f.env.client != crate::spec::SideRequirement::Unsupported && f.env.server
                != crate::spec::SideRequirement::Unsupported && first_part_is(f.path@, "mods"@)
                ==> picks(Pick::ClientMods, f) && picks(Pick::ServerFiles, f),
{
    lemma_picked_lines(lock.file@, Pick::ClientMods);
    assert(lock.file@.filter(|f: FileSpec| picks(Pick::ClientMods, f)) =~= lock.file@.filter(
        |f: FileSpec|
            f.env.client != crate::spec::SideRequirement::Unsupported && first_part_is(
                f.path@,
                "mods"@,
            ),
    )) by {
        assert((|f: FileSpec| picks(Pick::ClientMods, f)) =~= (|f: FileSpec|
            f.env.client != crate::spec::SideRequirement::Unsupported && first_part_is(
                f.path@,
                "mods"@,
            )));
    }
}

} // verus!
