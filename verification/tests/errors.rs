use forever_world::cli::{remove_query, require_no_args};
use forever_world::curseforge::{mappings_from_metadata, validate_config, Config, ExcludedFile, ExplicitFile, PackwizMeta};
use forever_world::error::ErrorKind;
use forever_world::export::index_from_lock;
use forever_world::fetch::{sha1_hex, verify_bytes, MirrorWalk};
use forever_world::publish::release_lock;
use forever_world::resolve::{primary_file, ModrinthFile, ModrinthHashes};
use forever_world::spec::{CurseForgeFile, EnvSpec, FileSpec, Lockfile, PackMeta, PackSpec, SideRequirement};
use forever_world::verify::{compare, ParsedEnv, ParsedFile, ParsedIndex};

fn meta() -> PackMeta {
    PackMeta {
        name: "P".into(),
        slug: "p".into(),
        version: "1.0.0".into(),
        group: "g".into(),
        minecraft: "26.2".into(),
        loader: "fabric".into(),
        loader_version: "0.19.3".into(),
    }
}

fn pinned(path: &str, server: SideRequirement) -> FileSpec {
    FileSpec {
        path: path.into(),
        file_size: 1,
        sha1: "a".repeat(40),
        sha512: "b".repeat(128),
        env: EnvSpec { client: SideRequirement::Required, server },
        downloads: vec!["https://example.invalid/x".into()],
    }
}

fn lock(files: Vec<FileSpec>) -> Lockfile {
    Lockfile { version: 1, pack: meta(), file: files, curseforge: Vec::new() }
}

#[test]
fn spec_and_lock_errors() {
    let mut f = pinned("mods/a.jar", SideRequirement::Required);
    f.downloads.clear();
    let spec = PackSpec { pack: meta(), file: vec![f] };
    assert_eq!(spec.validate().expect_err("no downloads").message(), "mods/a.jar has no downloads");
    let mut l = lock(vec![pinned("mods/a.jar", SideRequirement::Required)]);
    l.curseforge.push(CurseForgeFile { path: "mods/a.jar".into(), sha1: "a".repeat(40), project_id: 0, file_id: 1 });
    assert_eq!(l.validate().expect_err("zero id").kind, ErrorKind::InvalidCurseForgeId);
    l.curseforge[0].project_id = 5;
    l.curseforge.push(l.curseforge[0].clone());
    assert_eq!(
        l.validate().expect_err("twice").message(),
        "duplicate CurseForge mapping for mods/a.jar"
    );
}

fn published(ours_lock: &Lockfile) -> ParsedIndex {
    let ours = index_from_lock(ours_lock).expect("index");
    ParsedIndex {
        format_version: 1,
        game: "minecraft".into(),
        version_id: ours.version_id.clone(),
        name: ours.name.clone(),
        dependencies: ours.dependencies.clone(),
        files: ours
            .files
            .iter()
            .map(|f| ParsedFile {
                path: f.path.clone(),
                hashes: f.hashes.clone(),
                env: ParsedEnv { client: "required".into(), server: "required".into() },
                downloads: f.downloads.clone(),
                file_size: f.file_size,
            })
            .collect(),
    }
}

#[test]
fn index_comparison_errors() {
    let l = lock(vec![pinned("mods/a.jar", SideRequirement::Required)]);
    let ours = index_from_lock(&l).expect("index");
    let base = published(&l);
    assert!(compare(&ours, &base).is_ok());
    let mut p = base.clone();
    p.format_version = 2;
    assert_eq!(compare(&ours, &p).expect_err("format").message(), "formatVersion 1 != 2");
    let mut p = base.clone();
    p.game = "other".into();
    assert_eq!(compare(&ours, &p).expect_err("game").message(), "game minecraft != other");
    let mut p = base.clone();
    p.name = "Q".into();
    assert_eq!(compare(&ours, &p).expect_err("name").message(), "name P != Q");
    let mut p = base.clone();
    p.dependencies.pop();
    assert_eq!(compare(&ours, &p).expect_err("deps").kind, ErrorKind::DependenciesMismatch);
    let mut p = base.clone();
    p.files.clear();
    assert_eq!(compare(&ours, &p).expect_err("count").message(), "file count 1 != 0");
    let mut p = base.clone();
    p.files[0].path = "mods/b.jar".into();
    assert_eq!(compare(&ours, &p).expect_err("extra").message(), "exported extra file mods/a.jar");
    let mut p = base.clone();
    p.files[0].downloads.push("https://mirror/x".into());
    assert_eq!(compare(&ours, &p).expect_err("downloads").message(), "mods/a.jar download URLs differ");
    let mut p = base.clone();
    p.files[0].hashes[0].1 = "c".repeat(40);
    assert_eq!(compare(&ours, &p).expect_err("sha1").message(), "mods/a.jar sha1 differs");
    let mut p = base.clone();
    p.files[0].hashes[1].1 = "c".repeat(128);
    assert_eq!(compare(&ours, &p).expect_err("sha512").message(), "mods/a.jar sha512 differs");
    let mut p = base.clone();
    p.files[0].env.client = "optional".into();
    assert_eq!(compare(&ours, &p).expect_err("client").message(), "mods/a.jar client env required != optional");
}

#[test]
fn download_errors() {
    let mut f = pinned("mods/a.jar", SideRequirement::Required);
    f.file_size = 3;
    f.sha1 = sha1_hex(b"abc");
    assert_eq!(verify_bytes(&f, b"abc").expect_err("sha512").kind, ErrorKind::Sha512NotPinned);
    f.downloads.clear();
    let walk = MirrorWalk::new();
    assert!(walk.next_mirror(&f).is_none());
    assert_eq!(walk.exhausted(&f).message(), "mods/a.jar had no usable download");
}

fn config(add: Vec<ExplicitFile>, exclude: Vec<ExcludedFile>) -> Config {
    Config { packwiz_commit: "c".into(), author: "a".into(), add, exclude }
}

#[test]
fn platform_config_errors() {
    let l = lock(vec![
        pinned("mods/a.jar", SideRequirement::Required),
        pinned("mods/client.jar", SideRequirement::Unsupported),
    ]);
    let add = |path: &str| ExplicitFile { path: path.into(), project_id: 1, file_id: 2 };
    let exclude = |path: &str, reason: &str| ExcludedFile { path: path.into(), reason: reason.into() };
    let kind = |c: Config| validate_config(&c, &l).expect_err("refused").kind;
    assert_eq!(kind(config(vec![add("mods/missing.jar")], Vec::new())), ErrorKind::AddNotClientFile);
    assert_eq!(kind(config(vec![add("mods/a.jar"), add("mods/a.jar")], Vec::new())), ErrorKind::AddDuplicate);
    assert_eq!(kind(config(Vec::new(), vec![exclude("mods/client.jar", " ")])), ErrorKind::ExcludeNoReason);
    assert_eq!(
        kind(config(vec![add("mods/client.jar")], vec![exclude("mods/client.jar", "gone")])),
        ErrorKind::AddAndExclude
    );
    assert_eq!(
        kind(config(Vec::new(), vec![exclude("mods/client.jar", "gone"), exclude("mods/client.jar", "gone")])),
        ErrorKind::ExcludeDuplicate
    );
    let excluded = validate_config(&config(Vec::new(), vec![exclude("mods/client.jar", "gone")]), &l)
        .expect("valid exclusion");
    assert_eq!(excluded, vec!["mods/client.jar".to_string()]);
}

fn packwiz(filename: &str, format: &str, hash: &str) -> PackwizMeta {
    PackwizMeta {
        source: format!("mods/{filename}.pw.toml"),
        filename: filename.into(),
        hash_format: format.into(),
        hash: hash.into(),
        project_id: 7,
        file_id: 8,
    }
}

#[test]
fn packwiz_metadata_errors() {
    let l = lock(vec![pinned("mods/a.jar", SideRequirement::Required)]);
    let sha1 = "a".repeat(40);
    let error = mappings_from_metadata(&vec![packwiz("a.jar", "sha256", &sha1)], &l).expect_err("format");
    assert_eq!(error.message(), "mods/a.jar.pw.toml used unsupported Packwiz hash format sha256");
    let error = mappings_from_metadata(&vec![packwiz("b.jar", "sha1", &sha1)], &l).expect_err("none");
    assert_eq!(error.kind, ErrorKind::NotExactlyOneFile);
    let error = mappings_from_metadata(&vec![packwiz("a.jar", "sha1", "x")], &l).expect_err("hash");
    assert_eq!(error.message(), "Packwiz hash did not match the pin for mods/a.jar");
    let twice = vec![packwiz("a.jar", "sha1", &sha1), packwiz("a.jar", "sha1", &sha1)];
    assert_eq!(mappings_from_metadata(&twice, &l).expect_err("twice").message(), "Packwiz mapped mods/a.jar more than once");
    let found = mappings_from_metadata(&vec![packwiz("a.jar", "sha1", &sha1)], &l).expect("mapped");
    assert_eq!(found[0].project_id, 7);
    assert_eq!(found[0].file_id, 8);
}

#[test]
fn modrinth_file_errors() {
    let file = |primary: bool| ModrinthFile {
        hashes: ModrinthHashes { sha1: "a".repeat(40), sha512: "b".repeat(128) },
        url: "https://x".into(),
        filename: "x.jar".into(),
        primary,
        size: 1,
    };
    let error = primary_file("p", "1", &vec![file(true), file(true)]).expect_err("two primaries");
    assert_eq!(error.message(), "Modrinth project p version `1` has multiple primary files");
    assert!(primary_file("p", "1", &vec![file(false)]).is_ok());
}

#[test]
fn publishing_and_command_line_errors() {
    let l = lock(vec![pinned("mods/a.jar", SideRequirement::Required)]);
    let mut spec = PackSpec { pack: meta(), file: l.file.clone() };
    assert!(release_lock(&spec, l.clone()).is_ok());
    spec.file.clear();
    assert_eq!(
        release_lock(&spec, l).expect_err("changed").message(),
        "pack.toml changed since the last install; run `pack install` before publishing"
    );
    assert_eq!(remove_query(&Vec::new()).expect_err("usage").message(), "usage: pack remove <project>");
    assert_eq!(remove_query(&vec!["x".to_string()]).expect("one"), "x");
    assert_eq!(
        require_no_args(&vec!["x".to_string()], "install").expect_err("args").message(),
        "`pack install` does not accept arguments"
    );
}
