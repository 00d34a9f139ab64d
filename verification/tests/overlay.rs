use forever_world::overlay::{overlay_toml, TEAKIT_FABRIC};
use forever_world::spec::{EnvSpec, FileSpec, Lockfile, PackMeta, SideRequirement};

fn sample_lock() -> Lockfile {
    Lockfile {
        version: 1,
        pack: PackMeta {
            name: "FOREVER WORLD".into(),
            slug: "forever-world".into(),
            version: "1.1.1".into(),
            group: "com.iamkaf.modpacks".into(),
            minecraft: "26.2".into(),
            loader: "fabric".into(),
            loader_version: "0.19.3".into(),
        },
        file: vec![
            file(
                "mods/amber-fabric-11.1.2+26.2.jar",
                SideRequirement::Required,
                SideRequirement::Required,
                "aa".repeat(64),
            ),
            file(
                "mods/sodium-fabric-0.9.1+mc26.2.jar",
                SideRequirement::Required,
                SideRequirement::Unsupported,
                "bb".repeat(64),
            ),
            file(
                "shaderpacks/BSL_v10.1.3.zip",
                SideRequirement::Required,
                SideRequirement::Unsupported,
                "cc".repeat(64),
            ),
        ],
        curseforge: Vec::new(),
    }
}

fn file(path: &str, client: SideRequirement, server: SideRequirement, sha512: String) -> FileSpec {
    FileSpec {
        path: path.into(),
        file_size: 1,
        sha1: "a".repeat(40),
        sha512,
        env: EnvSpec { client, server },
        downloads: vec!["https://cdn.modrinth.com/x".into()],
    }
}

#[test]
fn pair_layers_teakit_without_putting_client_only_jars_on_the_server() {
    let toml = overlay_toml(&sample_lock());
    assert!(toml.contains("name = \"forever-world-pair\""));
    assert!(toml.contains(TEAKIT_FABRIC));
    assert!(toml.contains("sides = [\"client\", \"server\"]"));
    assert!(toml.contains("loader_version = \"0.19.3\""));
    let pair = toml.split("name = \"forever-world-pair\"").nth(1).expect("pair instance");
    assert!(pair.contains("amber-fabric-11.1.2+26.2.jar"));
    assert!(pair.contains("to = \"mods/sodium-fabric-0.9.1+mc26.2.jar\""));
    let pair_mods = pair.split("[[instance.fixture]]").next().expect("mods");
    assert!(
        !pair_mods.contains("sodium-fabric"),
        "sodium must be a client fixture, not a shared mod:\n{pair_mods}"
    );
    let server = toml
        .split("name = \"forever-world-server\"")
        .nth(1)
        .expect("server")
        .split("[[instance]]")
        .next()
        .expect("server body");
    assert!(!server.contains(TEAKIT_FABRIC));
    assert!(!server.contains("sodium-fabric"));
    assert!(!server.contains("shaderpacks"));
}

#[test]
fn cached_mods_point_into_the_object_store() {
    let toml = overlay_toml(&sample_lock());
    let cached = format!("../.cache/objects/{}/amber-fabric-11.1.2+26.2.jar", "aa".repeat(64));
    assert!(toml.contains(&cached));
}
