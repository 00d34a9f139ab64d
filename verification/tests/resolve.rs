use forever_world::resolve::{
    direct_file_spec, exact_version, lock_matches_spec, modrinth_file_spec, primary_file,
    ModrinthFile, ModrinthHashes, ModrinthVersion,
};
use forever_world::spec::{ContentKind, ContentSide, Lockfile, PackMeta, PackSpec, SideRequirement};

fn file(name: &str, primary: bool) -> ModrinthFile {
    ModrinthFile {
        hashes: ModrinthHashes { sha1: "a".repeat(40), sha512: "b".repeat(128) },
        url: format!("https://example.invalid/{name}"),
        filename: name.into(),
        primary,
        size: 1,
    }
}

#[test]
fn exact_versions_and_primary_files_must_be_unambiguous() {
    let versions = vec![ModrinthVersion {
        id: "version-id".into(),
        version_number: "1.2.3".into(),
        files: vec![file("main.jar", true), file("sources.jar", false)],
    }];
    let version = exact_version("example", "1.2.3", &versions).expect("exact version");
    assert_eq!(
        primary_file("example", "1.2.3", &version.files).expect("primary file").filename,
        "main.jar"
    );
    assert!(exact_version("example", "latest", &versions).is_err());

    let duplicate = ModrinthVersion {
        id: "duplicate-version-id".into(),
        version_number: "1.2.3".into(),
        files: vec![file("main.jar", true)],
    };
    let mut versions = vec![versions.into_iter().next().expect("version"), duplicate];
    assert_eq!(
        exact_version("example", "1.2.3", &versions)
            .expect("duplicate metadata for the same file")
            .id,
        "version-id"
    );

    let mut conflicting = file("other.jar", true);
    conflicting.hashes.sha512 = "c".repeat(128);
    let conflict = ModrinthVersion {
        id: "conflicting-version-id".into(),
        version_number: "1.2.3".into(),
        files: vec![conflicting],
    };
    assert!(exact_version("example", "1.2.3", &vec![versions.remove(0), conflict]).is_err());
}

#[test]
fn resolution_errors_name_the_project() {
    let versions = vec![ModrinthVersion {
        id: "v".into(),
        version_number: "1.0".into(),
        files: vec![file("a.jar", false), file("b.jar", false)],
    }];
    let error = exact_version("example", "2.0", &versions).expect_err("no such version");
    assert_eq!(error.message(), "Modrinth project example has no compatible version `2.0`");
    let error = modrinth_file_spec(ContentKind::Mod, ContentSide::Both, "example", "1.0", &versions)
        .expect_err("no primary");
    assert_eq!(error.message(), "Modrinth project example version `1.0` has no primary file");
    let single = vec![ModrinthVersion {
        id: "v".into(),
        version_number: "1.0".into(),
        files: vec![file("only.zip", false)],
    }];
    let spec = modrinth_file_spec(ContentKind::Shader, ContentSide::Client, "bsl", "1.0", &single)
        .expect("resolved");
    assert_eq!(spec.path, "shaderpacks/only.zip");
    assert_eq!(spec.env.server, SideRequirement::Unsupported);
    assert_eq!(spec.downloads, vec!["https://example.invalid/only.zip".to_string()]);
}

#[test]
fn direct_files_pin_what_was_downloaded() {
    let spec = direct_file_spec(ContentKind::Mod, ContentSide::Server, "x.jar", "https://h/x.jar", b"abc");
    assert_eq!(spec.path, "mods/x.jar");
    assert_eq!(spec.file_size, 3);
    assert_eq!(spec.sha1, "a9993e364706816aba3e25717850c26c9cd0d89d");
    assert!(spec.sha512.starts_with("ddaf35a193617aba"));
    assert_eq!(spec.env.client, SideRequirement::Unsupported);
}

#[test]
fn a_lock_matches_the_spec_it_was_made_from() {
    let pack = PackMeta {
        name: "n".into(),
        slug: "s".into(),
        version: "1".into(),
        group: "g".into(),
        minecraft: "26.2".into(),
        loader: "fabric".into(),
        loader_version: "0.19.3".into(),
    };
    let spec = PackSpec { pack: pack.clone(), file: Vec::new() };
    let lock = Lockfile::from_spec(spec.clone());
    assert!(lock_matches_spec(&spec, &lock));
    let mut other = spec.clone();
    other.pack.loader_version = "0.19.4".into();
    assert!(!lock_matches_spec(&other, &lock));
}
