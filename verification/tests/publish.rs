use forever_world::publish::{
    check_maven_repository, check_publish_config, checksum_name, checksum_text, maven_metadata,
    metadata_xml, minimal_pom, publish, publish_targets, sort_artifacts, Artifact, ArtifactKind,
    GitHubConfig, MavenConfig, ModrinthConfig, PreparedRelease, PublishConfig, PublishTarget,
};
use forever_world::spec::{Lockfile, PackMeta};
use forever_world::versions::compare_pack_versions;

#[test]
fn pom_does_not_mention_the_server_launcher() {
    let pom = minimal_pom("com.example", "pack", "1.0.0", "Pack", None);
    assert!(pom.contains("Minecraft modpack"));
    assert!(!pom.contains("Pastel"));
}

#[test]
fn maven_metadata_keeps_existing_versions() {
    let metadata = metadata_xml(
        "com.example",
        "pack",
        "1.2.0",
        &vec!["1.1.1".into(), "1.2.0".into()],
    );
    assert!(metadata.contains("<version>1.1.1</version>"));
    assert!(metadata.contains("<latest>1.2.0</latest>"));
    assert_eq!(compare_pack_versions("1.10.0", "1.9.0"), std::cmp::Ordering::Greater);
}

fn lock(version: &str) -> Lockfile {
    Lockfile {
        version: 1,
        pack: PackMeta {
            name: "Pack & Co".into(),
            slug: "pack".into(),
            version: version.into(),
            group: "com.example".into(),
            minecraft: "26.2".into(),
            loader: "fabric".into(),
            loader_version: "0.19.3".into(),
        },
        file: Vec::new(),
        curseforge: Vec::new(),
    }
}

#[test]
fn release_metadata_sorts_versions_and_picks_the_newest() {
    let existing = vec!["1.9.0".to_string(), "1.10.0".to_string(), "1.9.0".to_string()];
    let text = maven_metadata(&lock("1.2.0"), &existing);
    assert!(text.contains("<latest>1.10.0</latest>"));
    assert!(text.contains("<release>1.10.0</release>"));
    assert!(text.contains(
        "      <version>1.10.0</version>\n      <version>1.2.0</version>\n      <version>1.9.0</version>\n"
    ));
    assert_eq!(text.matches("<version>1.9.0</version>").count(), 1);
}

#[test]
fn pom_escapes_xml() {
    let pom = minimal_pom("g", "a", "1", "Pack & Co", Some("<b>"));
    assert!(pom.contains("<name>Pack &amp; Co</name>"));
    assert!(pom.contains("<description>&lt;b&gt;</description>"));
}

#[test]
fn publish_config_checks() {
    let mut config = PublishConfig::default();
    assert!(check_publish_config(&config).is_ok());
    config.modrinth = Some(ModrinthConfig {
        project: "x".into(),
        release_type: "nightly".into(),
        loaders: Vec::new(),
        game_versions: Vec::new(),
    });
    let error = check_publish_config(&config).expect_err("bad release type");
    assert_eq!(
        error.message(),
        "publish.modrinth.release_type must be release, beta, or alpha, not `nightly`"
    );
    assert!(check_maven_repository(&MavenConfig { repository: "http://x".into() }).is_err());
    assert!(check_maven_repository(&MavenConfig { repository: "https://x".into() }).is_ok());
}

#[test]
fn targets_follow_the_configuration() {
    let mut config = PublishConfig::default();
    assert!(publish_targets(&config).is_empty());
    config.maven = Some(MavenConfig { repository: "https://x".into() });
    config.github = Some(GitHubConfig { repository: "a/b".into(), draft: false, prerelease: false });
    assert_eq!(publish_targets(&config), vec![PublishTarget::GitHub, PublishTarget::Maven]);
    assert_eq!(
        publish(Vec::new()),
        vec!["prepared release locally; no publish targets are configured".to_string()]
    );
    assert_eq!(
        publish(vec![vec!["a".to_string()], Vec::new(), vec!["b".to_string(), "c".to_string()]]),
        vec!["a".to_string(), "b".to_string(), "c".to_string()]
    );
}

fn artifact(name: &str, kind: ArtifactKind) -> Artifact {
    Artifact {
        name: name.into(),
        path: format!("dist/{name}"),
        checksum: format!("dist/{name}.sha512"),
        kind,
        bytes: 1,
        sha512: "0".repeat(128),
    }
}

#[test]
fn artifacts_sort_by_name_and_are_found_by_kind() {
    let sorted = sort_artifacts(vec![
        artifact("b.pom", ArtifactKind::Maven),
        artifact("a.mrpack", ArtifactKind::Modrinth),
    ]);
    assert_eq!(sorted[0].name, "a.mrpack");
    let release = PreparedRelease {
        lock: lock("1.0.0"),
        config: PublishConfig::default(),
        artifacts: sorted,
        manifest: "dist/release.json".into(),
    };
    assert_eq!(release.artifact(ArtifactKind::Maven).expect("pom").name, "b.pom");
    let error = release.artifact(ArtifactKind::MavenMetadata).expect_err("no metadata");
    assert_eq!(error.message(), "prepared release is missing a MavenMetadata artifact");
    assert_eq!(release.changelog_path().expect("default changelog"), "CHANGELOG.md");
}

#[test]
fn checksum_files_name_their_artifact() {
    let text = checksum_text(b"abc", "pack.mrpack");
    assert!(text.starts_with("ddaf35a193617aba"));
    assert!(text.ends_with("  pack.mrpack\n"));
    assert_eq!(text.len(), 128 + 2 + "pack.mrpack".len() + 1);
    assert_eq!(checksum_name("pack.mrpack"), "pack.mrpack.sha512");
}

#[test]
fn release_plan_and_maven_places() {
    let mut config = PublishConfig::default();
    assert_eq!(forever_world::publish::artifact_plan(&config), vec![ArtifactKind::Modrinth]);
    config.maven = Some(MavenConfig { repository: "https://maven.example/releases/".into() });
    assert_eq!(
        forever_world::publish::artifact_plan(&config),
        vec![ArtifactKind::Modrinth, ArtifactKind::Maven, ArtifactKind::MavenMetadata]
    );
    let l = lock("1.2.0");
    assert_eq!(forever_world::publish::pom_name(&l), "pack-1.2.0.pom");
    let repo = "https://maven.example/releases/";
    assert_eq!(
        forever_world::publish::maven_target(repo, &l, &artifact("pack-1.2.0.mrpack", ArtifactKind::Modrinth)),
        Some("https://maven.example/releases/com/example/pack/1.2.0/pack-1.2.0-client.mrpack".to_string())
    );
    assert_eq!(
        forever_world::publish::maven_target(repo, &l, &artifact("maven-metadata.xml", ArtifactKind::MavenMetadata)),
        Some("https://maven.example/releases/com/example/pack/maven-metadata.xml".to_string())
    );
    assert_eq!(
        forever_world::publish::maven_target(repo, &l, &artifact("x.zip", ArtifactKind::CurseForge)),
        None
    );
}

#[test]
fn prepared_artifacts_are_checked_again() {
    let mut a = artifact("a.mrpack", ArtifactKind::Modrinth);
    a.bytes = 3;
    a.sha512 = forever_world::fetch::sha512_hex(b"abc");
    assert!(forever_world::publish::recheck_artifact(&a, b"abc").is_ok());
    assert_eq!(
        forever_world::publish::recheck_artifact(&a, b"abd").expect_err("changed").message(),
        "prepared artifact a.mrpack no longer matches its recorded size and SHA-512"
    );
}
