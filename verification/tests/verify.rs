use forever_world::export::index_from_lock;
use forever_world::spec::{EnvSpec, FileSpec, Lockfile, PackMeta, SideRequirement};
use forever_world::verify::{
    archive_entries, compare, compare_archive_entries, default_against, ParsedEnv, ParsedFile,
    ParsedIndex,
};
use std::io::Write;
use zip::write::SimpleFileOptions;
use zip::ZipWriter;

fn archive(entries: &[(&str, &[u8])]) -> Vec<u8> {
    let cursor = std::io::Cursor::new(Vec::new());
    let mut zip = ZipWriter::new(cursor);
    for (name, contents) in entries {
        zip.start_file(*name, SimpleFileOptions::default()).expect("archive entry");
        zip.write_all(contents).expect("archive contents");
    }
    zip.finish().expect("archive").into_inner()
}

fn lock() -> Lockfile {
    Lockfile {
        version: 1,
        pack: PackMeta {
            name: "FOREVER WORLD".into(),
            slug: "forever-world".into(),
            version: "1.1.1".into(),
            group: "com.iamkaf.modpacks".into(),
            minecraft: "26.2".into(),
            loader: "fabric".into(),
            loader_version: "0.19.3".into(),
        },
        file: vec![FileSpec {
            path: "mods/a.jar".into(),
            file_size: 1,
            sha1: "a".repeat(40),
            sha512: "b".repeat(128),
            env: EnvSpec { client: SideRequirement::Required, server: SideRequirement::Unsupported },
            downloads: vec!["https://example.invalid/a.jar".into()],
        }],
        curseforge: Vec::new(),
    }
}

#[test]
fn reports_env_mismatch() {
    let ours = index_from_lock(&lock()).expect("index");
    let published = ParsedIndex {
        format_version: 1,
        game: "minecraft".into(),
        version_id: "1.1.1".into(),
        name: "FOREVER WORLD".into(),
        dependencies: ours.dependencies.clone(),
        files: vec![ParsedFile {
            path: "mods/a.jar".into(),
            hashes: ours.files[0].hashes.clone(),
            env: ParsedEnv { client: "required".into(), server: "required".into() },
            downloads: ours.files[0].downloads.clone(),
            file_size: 1,
        }],
    };
    let error = compare(&ours, &published).expect_err("env mismatch");
    assert!(error.message().contains("server env"));
}

#[test]
fn an_index_matches_its_own_publication() {
    let ours = index_from_lock(&lock()).expect("index");
    let mut published = ParsedIndex {
        format_version: 1,
        game: "minecraft".into(),
        version_id: "1.1.1".into(),
        name: "FOREVER WORLD".into(),
        dependencies: ours.dependencies.clone(),
        files: vec![ParsedFile {
            path: "mods/a.jar".into(),
            hashes: ours.files[0].hashes.clone(),
            env: ParsedEnv { client: "required".into(), server: "unsupported".into() },
            downloads: ours.files[0].downloads.clone(),
            file_size: 1,
        }],
    };
    assert!(compare(&ours, &published).is_ok());
    published.files[0].file_size = 2;
    assert_eq!(compare(&ours, &published).expect_err("size").message(), "mods/a.jar size 1 != 2");
    published.files[0].file_size = 1;
    published.version_id = "1.1.2".into();
    assert_eq!(compare(&ours, &published).expect_err("version").message(), "versionId 1.1.1 != 1.1.2");
}

#[test]
fn compares_every_uncompressed_archive_entry() {
    let ours = archive(&[
        ("modrinth.index.json", b"{}"),
        ("overrides/config/example.toml", b"enabled = true\n"),
    ]);
    let same_contents = archive(&[
        ("modrinth.index.json", b"{}"),
        ("overrides/config/example.toml", b"enabled = true\n"),
    ]);
    compare_archive_entries(&ours, &same_contents).expect("matching entries");

    let changed = archive(&[
        ("modrinth.index.json", b"{}"),
        ("overrides/config/example.toml", b"enabled = false\n"),
    ]);
    let error = compare_archive_entries(&ours, &changed).expect_err("changed override");
    assert!(error.message().contains("example.toml differs"));

    let extra = archive(&[
        ("modrinth.index.json", b"{}"),
        ("overrides/config/example.toml", b"enabled = true\n"),
        ("overrides/options.txt", b"extra"),
    ]);
    let error = compare_archive_entries(&ours, &extra).expect_err("extra entry");
    assert!(error.message().contains("extra entry"));
}

#[test]
fn archives_report_missing_entries_and_bad_names() {
    let ours = archive(&[("b.txt", b"b"), ("a.txt", b"a"), ("dir/", b"")]);
    let fewer = archive(&[("a.txt", b"a")]);
    let error = compare_archive_entries(&ours, &fewer).expect_err("missing");
    assert_eq!(error.message(), "published archive is missing b.txt");
    let entries = archive_entries(&ours).expect("entries");
    assert_eq!(entries.len(), 2);
    assert_eq!(entries[0].name, "b.txt");
    let bad = archive(&[("world/level.dat", b"x")]);
    assert!(archive_entries(&bad).is_err());
    assert!(archive_entries(b"not a zip").is_err());
    assert!(compare_archive_entries(&ours, &ours).is_ok());
}

#[test]
fn default_target_is_the_kaf_maven() {
    assert_eq!(
        default_against(&lock()),
        "https://maven.kaf.sh/com/iamkaf/modpacks/forever-world/1.1.1/forever-world-1.1.1-client.mrpack"
    );
}

#[test]
fn default_target_is_the_client_pack_on_the_kaf_maven() {
    let mut lock = lock();
    lock.pack.version = "1.2.0".into();
    assert_eq!(
        default_against(&lock),
        "https://maven.kaf.sh/com/iamkaf/modpacks/forever-world/1.2.0/forever-world-1.2.0-client.mrpack"
    );
}

#[test]
fn the_published_index_is_read_from_the_archive() {
    let pack = archive(&[("modrinth.index.json", b"{\"game\":\"minecraft\"}"), ("overrides/a.txt", b"a")]);
    assert_eq!(
        forever_world::verify::mrpack_index_text(&pack).expect("index"),
        "{\"game\":\"minecraft\"}"
    );
    let bare = archive(&[("overrides/a.txt", b"a")]);
    assert_eq!(
        forever_world::verify::mrpack_index_text(&bare).expect_err("missing").message(),
        "published pack is missing modrinth.index.json"
    );
    assert!(forever_world::verify::mrpack_index_text(b"not a zip").is_err());
}

#[test]
fn archive_entries_are_kept_and_added_one_by_one() {
    assert_eq!(forever_world::verify::keep_archive_entry("config/").expect("dir"), false);
    assert_eq!(forever_world::verify::keep_archive_entry("modrinth.index.json").expect("index"), true);
    assert!(forever_world::verify::keep_archive_entry("../x").is_err());
    let mut entries = Vec::new();
    assert!(forever_world::verify::add_archive_entry(&mut entries, "a".into(), b"1".to_vec()).is_ok());
    let error = forever_world::verify::add_archive_entry(&mut entries, "a".into(), b"2".to_vec())
        .expect_err("twice");
    assert_eq!(error.message(), "archive contains duplicate entry a");
    assert_eq!(entries.len(), 1);
}
