use forever_world::export::{index_from_lock, override_entry};
use forever_world::spec::{EnvSpec, FileSpec, Lockfile, PackMeta, SideRequirement};

fn dependency<'a>(pairs: &'a [(String, String)], key: &str) -> Option<&'a str> {
    pairs.iter().rev().find(|(k, _)| k == key).map(|(_, v)| v.as_str())
}

fn two_file_lock(loader: &str) -> Lockfile {
    Lockfile {
        version: 1,
        pack: PackMeta {
            name: "FOREVER WORLD".into(),
            slug: "forever-world".into(),
            version: "1.1.1".into(),
            group: "com.iamkaf.modpacks".into(),
            minecraft: "26.2".into(),
            loader: loader.into(),
            loader_version: "0.19.3".into(),
        },
        file: vec![
            FileSpec {
                path: "mods/b.jar".into(),
                file_size: 1,
                sha1: "a".repeat(40),
                sha512: "b".repeat(128),
                env: EnvSpec { client: SideRequirement::Required, server: SideRequirement::Unsupported },
                downloads: vec!["https://cdn.modrinth.com/b.jar".into()],
            },
            FileSpec {
                path: "mods/a.jar".into(),
                file_size: 1,
                sha1: "a".repeat(40),
                sha512: "b".repeat(128),
                env: EnvSpec { client: SideRequirement::Required, server: SideRequirement::Required },
                downloads: vec!["https://cdn.modrinth.com/a.jar".into()],
            },
        ],
        curseforge: Vec::new(),
    }
}

#[test]
fn index_omits_nothing_and_sorts() {
    let lock = two_file_lock("fabric");
    let index = index_from_lock(&lock).expect("index");
    assert_eq!(index.files[0].path, "mods/a.jar");
    assert_eq!(index.files[1].env.server, SideRequirement::Unsupported);
    assert_eq!(dependency(&index.dependencies, "minecraft"), Some("26.2"));
    assert_eq!(dependency(&index.dependencies, "fabric-loader"), Some("0.19.3"));
}

#[test]
fn index_names_each_loader_or_refuses_it() {
    let neoforge = index_from_lock(&two_file_lock("neoforge")).expect("neoforge index");
    assert_eq!(dependency(&neoforge.dependencies, "neoforge"), Some("0.19.3"));
    let error = index_from_lock(&two_file_lock("rift")).expect_err("unknown loader");
    assert_eq!(error.message(), "unsupported loader `rift`");
    assert_eq!(index_from_lock(&two_file_lock("fabric")).expect("index").files.len(), 2);
}

#[test]
fn override_entries_skip_metadata_and_check_paths() {
    assert_eq!(override_entry("overrides", ".DS_Store").expect("skipped"), None);
    assert_eq!(override_entry("overrides", "._x").expect("skipped"), None);
    assert_eq!(override_entry("overrides", "a.bak").expect("skipped"), None);
    assert_eq!(
        override_entry("overrides/config", "a.toml").expect("kept"),
        Some("overrides/config/a.toml".to_string())
    );
    assert!(override_entry("overrides", "..").is_err());
}
