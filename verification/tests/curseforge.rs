use forever_world::curseforge::{
    add_override, archive_name, check_packwiz_build, manifest_from_lock, packwiz_pack_toml,
    upload_facts, validate_config, Config, ExcludedFile, ExplicitFile,
};
use forever_world::error::ErrorKind;
use forever_world::spec::{CurseForgeFile, EnvSpec, FileSpec, Lockfile, PackMeta, SideRequirement};

fn lock(mapped: bool) -> Lockfile {
    let file = FileSpec {
        path: "mods/example.jar".into(),
        file_size: 1,
        sha1: "a".repeat(40),
        sha512: "b".repeat(128),
        env: EnvSpec { client: SideRequirement::Required, server: SideRequirement::Required },
        downloads: vec!["https://example.invalid/example.jar".into()],
    };
    let mut curseforge = Vec::new();
    if mapped {
        curseforge.push(CurseForgeFile {
            path: file.path.clone(),
            sha1: file.sha1.clone(),
            project_id: 123,
            file_id: 456,
        });
    }
    Lockfile {
        version: 1,
        pack: PackMeta {
            name: "FOREVER WORLD".into(),
            slug: "forever-world".into(),
            version: "1.2.0".into(),
            group: "com.iamkaf.modpacks".into(),
            minecraft: "26.2".into(),
            loader: "fabric".into(),
            loader_version: "0.19.3".into(),
        },
        file: vec![file],
        curseforge,
    }
}

fn no_exclusions() -> Vec<String> {
    Vec::new()
}

#[test]
fn manifest_uses_locked_ids_and_loader() {
    let manifest = manifest_from_lock(&lock(true), "iamkaf", &no_exclusions()).expect("manifest");
    assert_eq!(manifest.files[0].project_id, 123);
    assert_eq!(manifest.files[0].file_id, 456);
    assert_eq!(manifest.minecraft.mod_loaders[0].id, "fabric-0.19.3");
}

#[test]
fn manifest_rejects_an_unresolved_client_file() {
    let error = manifest_from_lock(&lock(false), "iamkaf", &no_exclusions())
        .expect_err("unresolved mapping")
        .message();
    assert!(error.contains("mods/example.jar"));
}

#[test]
fn manifest_omits_an_explicitly_excluded_file() {
    let excluded = vec!["mods/example.jar".to_string()];
    let manifest =
        manifest_from_lock(&lock(false), "iamkaf", &excluded).expect("manifest with exclusion");
    assert!(manifest.files.is_empty());
}

#[test]
fn config_rejects_a_stale_exclusion() {
    let config = Config {
        packwiz_commit: "commit".into(),
        author: "iamkaf".into(),
        add: Vec::new(),
        exclude: vec![ExcludedFile { path: "mods/missing.jar".into(), reason: "Unavailable".into() }],
    };
    let error = validate_config(&config, &lock(false)).expect_err("stale exclusion").message();
    assert!(error.contains("mods/missing.jar"));
}

#[test]
fn config_rejects_excluding_a_server_file() {
    let config = Config {
        packwiz_commit: "commit".into(),
        author: "iamkaf".into(),
        add: Vec::new(),
        exclude: vec![ExcludedFile { path: "mods/example.jar".into(), reason: "Unavailable".into() }],
    };
    let error = validate_config(&config, &lock(false)).expect_err("server file exclusion").message();
    assert!(error.contains("client-only"));
}

#[test]
fn config_rejects_bad_additions() {
    let config = Config {
        packwiz_commit: "commit".into(),
        author: "iamkaf".into(),
        add: vec![ExplicitFile { path: "mods/example.jar".into(), project_id: 0, file_id: 1 }],
        exclude: Vec::new(),
    };
    let error = validate_config(&config, &lock(false)).expect_err("zero id");
    assert_eq!(error.kind, ErrorKind::AddInvalidId);
    assert_eq!(
        error.message(),
        "platforms.toml [[curseforge.add]] has an invalid ID: mods/example.jar"
    );
}

#[test]
fn packwiz_must_be_the_pinned_build() {
    let metadata = "path github.com/packwiz/packwiz\nbuild vcs.revision=abc123\n";
    assert!(check_packwiz_build(metadata, "abc123").is_ok());
    let error = check_packwiz_build(metadata, "def456").expect_err("other commit");
    assert_eq!(error.message(), "PACKWIZ_BIN was not built from pinned commit def456");
    assert!(check_packwiz_build("path example.com/other abc123", "abc123").is_err());
}

#[test]
fn packwiz_scratch_pack_and_upload_names() {
    let l = lock(true);
    let text = packwiz_pack_toml(&l);
    assert!(text.starts_with("name = \"FOREVER WORLD\"\nauthor = \"iamkaf\"\nversion = \"1.2.0\"\n"));
    assert!(text.ends_with("[versions]\nfabric = \"0.19.3\"\nminecraft = \"26.2\"\n"));
    assert_eq!(archive_name(&l), "forever-world-1.2.0-curseforge.zip");
    let facts = upload_facts(&l);
    assert_eq!(facts.display_name, "FOREVER WORLD 1.2.0");
    assert_eq!(facts.game_version_names, vec!["Fabric".to_string(), "26.2".to_string()]);
    assert_eq!(facts.release_type, "release");
}

#[test]
fn overrides_are_taken_once() {
    let mut overrides = Vec::new();
    assert!(add_override(&mut overrides, "overrides/a.txt".into(), b"a".to_vec()).is_ok());
    let error = add_override(&mut overrides, "overrides/a.txt".into(), b"b".to_vec())
        .expect_err("duplicate");
    assert_eq!(error.message(), "duplicate CurseForge override overrides/a.txt");
    assert_eq!(overrides.len(), 1);
    assert_eq!(overrides[0].contents, b"a".to_vec());
}

#[test]
fn explicit_ids_become_packwiz_arguments() {
    let l = lock(false);
    let add = ExplicitFile { path: "mods/example.jar".into(), project_id: 123, file_id: 456 };
    let args = forever_world::curseforge::packwiz_add_args(&add, &l).expect("arguments");
    assert_eq!(
        args,
        vec!["--meta-folder", "mods", "--yes", "curseforge", "add", "--addon-id", "123", "--file-id", "456"]
    );
    let missing = ExplicitFile { path: "mods/other.jar".into(), project_id: 1, file_id: 2 };
    assert_eq!(
        forever_world::curseforge::packwiz_add_args(&missing, &l).expect_err("not locked").message(),
        "mods/other.jar is not in pack.lock.toml"
    );
    let mut client_less = lock(false);
    client_less.file[0].env.client = SideRequirement::Unsupported;
    assert_eq!(
        forever_world::curseforge::packwiz_add_args(&add, &client_less).expect_err("server only").message(),
        "mods/example.jar is not a client file"
    );
}
