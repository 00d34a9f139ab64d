use forever_world::error::ErrorKind;
use forever_world::spec::{
    check_pack_path, client_file, server_file, CurseForgeFile, EnvSpec, FileSpec, Lockfile,
    PackMeta, PackSpec, SideRequirement,
};

#[test]
fn rejects_world_and_traversal() {
    assert!(check_pack_path("world/level.dat").is_err());
    assert!(check_pack_path("../mods/x.jar").is_err());
    assert!(check_pack_path("/mods/x.jar").is_err());
    assert!(check_pack_path("mods\\x.jar").is_err());
    assert!(check_pack_path("mods//x.jar").is_err());
    assert!(check_pack_path("mods/./x.jar").is_err());
    assert!(check_pack_path("mods/x.jar/").is_err());
    assert!(check_pack_path("mods/sodium.jar").is_ok());
}

fn meta() -> PackMeta {
    PackMeta {
        name: "FOREVER WORLD".into(),
        slug: "forever-world".into(),
        version: "1.1.1".into(),
        group: "com.iamkaf.modpacks".into(),
        minecraft: "26.2".into(),
        loader: "fabric".into(),
        loader_version: "0.19.3".into(),
    }
}

fn pinned(path: &str) -> FileSpec {
    FileSpec {
        path: path.into(),
        file_size: 1,
        sha1: "a".repeat(40),
        sha512: "b".repeat(128),
        env: EnvSpec { client: SideRequirement::Required, server: SideRequirement::Required },
        downloads: vec!["https://example.invalid/level.dat".into()],
    }
}

#[test]
fn lockfiles_receive_full_spec_validation() {
    let lock = Lockfile {
        version: 1,
        pack: meta(),
        file: vec![pinned("world/level.dat")],
        curseforge: Vec::new(),
    };
    assert!(lock.validate().is_err());
}

#[test]
fn path_errors_say_what_is_wrong() {
    assert_eq!(check_pack_path("").expect_err("empty").message(), "pack path is empty");
    assert_eq!(
        check_pack_path("world/level.dat").expect_err("world").message(),
        "pack path `world/level.dat` must not replace a server world"
    );
    assert_eq!(check_pack_path("mods\\x.jar").expect_err("backslash").kind, ErrorKind::PathNotSlashRelative);
    assert_eq!(check_pack_path("/x").expect_err("absolute").kind, ErrorKind::PathAbsolute);
    assert_eq!(check_pack_path("a/../b").expect_err("parent").kind, ErrorKind::PathBadParts);
    assert!(check_pack_path("worlds/x").is_ok());
}

#[test]
fn specs_need_every_field_and_full_pins() {
    let mut spec = PackSpec { pack: meta(), file: vec![pinned("mods/a.jar")] };
    assert!(spec.validate().is_ok());
    spec.pack.slug = "  ".into();
    assert_eq!(spec.validate().expect_err("slug").message(), "pack.slug is required");
    spec.pack.slug = "s".into();
    spec.pack.loader = "forge".into();
    assert_eq!(
        spec.validate().expect_err("loader").message(),
        "pack.loader `forge` is not supported yet; Forever World is Fabric-only"
    );
    spec.pack.loader = "fabric".into();
    spec.file.push(pinned("mods/a.jar"));
    assert_eq!(spec.validate().expect_err("duplicate").message(), "duplicate pack path mods/a.jar");
    spec.file.pop();
    spec.file[0].downloads = vec!["http://x".into()];
    assert_eq!(
        spec.validate().expect_err("http").message(),
        "mods/a.jar download is not https or file: http://x"
    );
    spec.file[0].downloads = vec!["file:/tmp/x".into()];
    spec.file[0].sha1 = "a".repeat(39);
    assert_eq!(
        spec.validate().expect_err("short pin").message(),
        "mods/a.jar is missing a full sha1/sha512 pin"
    );
    spec.file.clear();
    assert_eq!(spec.validate().expect_err("empty").message(), "pack.toml has no [[file]] entries");
}

#[test]
fn lock_mappings_must_be_current() {
    let mut lock = Lockfile::from_spec(PackSpec { pack: meta(), file: vec![pinned("mods/a.jar")] });
    assert_eq!(lock.version, 1);
    assert!(lock.validate().is_ok());
    lock.curseforge.push(CurseForgeFile {
        path: "mods/a.jar".into(),
        sha1: "c".repeat(40),
        project_id: 1,
        file_id: 2,
    });
    assert_eq!(lock.validate().expect_err("stale").message(), "mods/a.jar has a stale CurseForge mapping");
    let previous = lock.clone();
    let mut fresh = Lockfile::from_spec(PackSpec { pack: meta(), file: vec![pinned("mods/a.jar")] });
    fresh.retain_curseforge_from(&previous);
    assert!(fresh.curseforge.is_empty());
    lock.curseforge[0].sha1 = "a".repeat(40);
    fresh.retain_curseforge_from(&lock);
    assert_eq!(fresh.curseforge.len(), 1);
    assert!(fresh.validate().is_ok());
    lock.version = 2;
    assert!(lock.validate().is_ok());
    lock.version = 3;
    assert_eq!(lock.validate().expect_err("version").message(), "unsupported lock version 3");
}

#[test]
fn sides_and_names() {
    let mut f = pinned("mods/a.jar");
    f.env.server = SideRequirement::Unsupported;
    assert!(client_file(&f));
    assert!(!server_file(&f));
    assert_eq!(SideRequirement::Optional.as_str(), "optional");
    assert_eq!(meta().mrpack_name(), "forever-world-1.1.1.mrpack");
}

#[test]
fn the_current_lock_format_is_read() {
    let files: Vec<FileSpec> = (0..48).map(|i| pinned(&format!("mods/m{i}.jar"))).collect();
    let lock = Lockfile { version: 2, pack: meta(), file: files, curseforge: Vec::new() };
    assert!(lock.validate().is_ok());
    assert_eq!(lock.file.len(), 48);
}
