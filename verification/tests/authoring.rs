use forever_world::authoring::{
    add, check_absent, content_section, section_name, explicit_version, insert_entry, installed_lock, remove, remove_entry,
    run, AddLookup, AddOptions, RunTarget,
};
use forever_world::error::ErrorKind;
use forever_world::spec::{
    ContentKind, ContentSide, EnvSpec, FileSpec, Lockfile, PackMeta, PackSpec, SideRequirement,
};

#[test]
fn keeps_unknown_content_when_removing_missing_project() {
    let text = "format = 1\n\n[mods]\nsodium = \"1\"\n";
    let (updated, removed) = remove_entry(text, "iris");
    assert!(!removed);
    assert_eq!(updated, text);
}

#[test]
fn removes_a_project_from_the_keyed_manifest() {
    let text = "format = 1\n\n[mods]\ncreate = \"1\"\n\n[client_mods]\nsodium = \"2\"\n\n[shaders]\ncomplementary-unbound = \"3\"\n";
    let (updated, removed) = remove_entry(text, "sodium");
    assert!(removed);
    assert!(!updated.contains("sodium"));
    assert!(updated.contains("create = \"1\""));
    assert!(updated.contains("complementary-unbound"));
}

#[test]
fn removal_ignores_case_quotes_and_other_tables() {
    let text = "[pack]\nsodium = \"x\"\n\n[mods]\n\"Sodium\" = \"1\"\nlithium = \"2\"\n";
    let (updated, removed) = remove_entry(text, "  SODIUM ");
    assert!(removed);
    assert_eq!(updated, "[pack]\nsodium = \"x\"\n\n[mods]\nlithium = \"2\"\n");
}

#[test]
fn remove_reports_a_missing_project() {
    let error = remove("[mods]\na = \"1\"\n", "b").expect_err("missing project");
    assert_eq!(error.kind, ErrorKind::NotInPack);
    assert_eq!(error.message(), "b is not in pack.toml");
    assert_eq!(remove("[mods]\na = \"1\"\nb = \"2\"\n", "a").expect("removed"), "[mods]\nb = \"2\"\n");
}

#[test]
fn entries_go_before_the_next_table() {
    let text = "format = 1\n\n[mods]\ncreate = \"1\"\n\n[shaders]\nbsl = \"2\"\n";
    let updated = insert_entry(text, ContentKind::Mod, "lithium", "0.1", ContentSide::Both);
    assert_eq!(
        updated,
        "format = 1\n\n[mods]\ncreate = \"1\"\n\nlithium = \"0.1\"\n[shaders]\nbsl = \"2\"\n"
    );
}

#[test]
fn a_missing_section_is_appended() {
    let updated = insert_entry("format = 1", ContentKind::Mod, "sodium", "a\"b", ContentSide::Client);
    assert_eq!(updated, "format = 1\n\n[client_mods]\nsodium = \"a\\\"b\"\n");
    let shader = insert_entry("x = 1\n", ContentKind::Shader, "bsl", "9", ContentSide::Client);
    assert_eq!(shader, "x = 1\n\n[shaders]\nbsl = \"9\"\n");
}

fn lookup(project: &str, latest: Option<&str>, side: ContentSide) -> AddLookup {
    AddLookup {
        project: project.to_string(),
        latest_version: latest.map(|v| v.to_string()),
        detected_side: side,
    }
}

#[test]
fn add_refuses_what_the_pack_already_has() {
    let ids = vec!["Sodium".to_string(), "create".to_string()];
    let error = check_absent(&ids, "SODIUM").expect_err("same id up to case");
    assert_eq!(error.message(), "SODIUM is already in pack.toml");
    assert!(check_absent(&ids, " sodium ").is_ok());
    let error = add("", &ids, "crt", Some("1"), AddOptions::default(), &lookup("create", None, ContentSide::Both))
        .expect_err("same project");
    assert_eq!(error.message(), "create is already in pack.toml");
}

#[test]
fn add_uses_the_detected_side_and_latest_version() {
    let ids: Vec<String> = Vec::new();
    let (project, text) = add(
        "[mods]\n",
        &ids,
        "Iris",
        Some("  "),
        AddOptions::default(),
        &lookup("iris", Some("1.8.0"), ContentSide::Client),
    )
    .expect("added");
    assert_eq!(project, "iris");
    assert_eq!(text, "[mods]\n\n[client_mods]\niris = \"1.8.0\"\n");
    let options = AddOptions { kind: ContentKind::Shader, side: Some(ContentSide::Both) };
    let (_, text) = add("", &ids, "bsl", Some("10"), options, &lookup("bsl", None, ContentSide::Both))
        .expect("added shader");
    assert_eq!(text, "\n\n[shaders]\nbsl = \"10\"\n");
    assert_eq!(explicit_version(Some(" ")), None);
    assert_eq!(explicit_version(Some("2.0")), Some("2.0".to_string()));
}

fn sample_lock() -> Lockfile {
    Lockfile {
        version: 1,
        pack: PackMeta {
            name: "FOREVER WORLD".into(),
            slug: "forever-world".into(),
            version: "1.2.0".into(),
            group: "com.iamkaf.modpacks".into(),
            minecraft: "26.2".into(),
            loader: "fabric".into(),
            loader_version: "0.19.3".into(),
        },
        file: vec![FileSpec {
            path: "mods/a.jar".into(),
            file_size: 1,
            sha1: "a".repeat(40),
            sha512: "b".repeat(128),
            env: EnvSpec { client: SideRequirement::Required, server: SideRequirement::Required },
            downloads: vec!["https://example.invalid/a.jar".into()],
        }],
        curseforge: Vec::new(),
    }
}

#[test]
fn runs_need_an_installed_lock_that_matches() {
    let lock = sample_lock();
    let spec = PackSpec { pack: lock.pack.clone(), file: lock.file.clone() };
    assert!(installed_lock(&spec, Ok(lock.clone())).is_ok());
    let mut changed = spec.clone();
    changed.pack.version = "1.2.1".into();
    let error = installed_lock(&changed, Ok(lock.clone())).expect_err("stale lock");
    assert_eq!(error.message(), "pack.toml changed since the last install; run `pack install`");
    let missing = forever_world::error::Error::new1(ErrorKind::NotInPack, "x".to_string());
    let error = installed_lock(&spec, Err(missing)).expect_err("no lock");
    assert_eq!(error.message(), "x is not in pack.toml; run `pack install` before running the pack");
}

#[test]
fn run_plans_name_the_instance() {
    let lock = sample_lock();
    let client = run(&lock, RunTarget::Client, "generated/modstage.toml");
    assert_eq!(client.program, "modstage");
    assert_eq!(
        client.args,
        vec!["--config", "generated/modstage.toml", "run", "client", "forever-world-client", "--timeout", "180s"]
    );
    let pair = run(&lock, RunTarget::Pair, "ignored");
    assert_eq!(pair.program, "./teakitw");
    assert_eq!(pair.args[3], "26.2-fabric");
    assert_eq!(pair.args[7], "forever-world-pair");
}

#[test]
fn sections_give_back_the_kind_and_side_they_were_filed_for() {
    for (kind, side) in [
        (ContentKind::Mod, ContentSide::Both),
        (ContentKind::Mod, ContentSide::Client),
        (ContentKind::Mod, ContentSide::Server),
        (ContentKind::Shader, ContentSide::Client),
    ] {
        assert_eq!(content_section(section_name(kind, side)), Some((kind, side)));
    }
    assert_eq!(section_name(ContentKind::Mod, ContentSide::Server), "server_mods");
    assert_eq!(content_section("server_mods"), Some((ContentKind::Mod, ContentSide::Server)));
    assert_eq!(content_section("pack"), None);
}

#[test]
fn server_only_entries_are_added_and_removed() {
    let text = insert_entry("[mods]\na = \"1\"\n", ContentKind::Mod, "lithium", "1", ContentSide::Server);
    assert_eq!(text, "[mods]\na = \"1\"\n\n[server_mods]\nlithium = \"1\"\n");
    let (updated, removed) = remove_entry("[server_mods]\nlithium = \"1\"\n", "lithium");
    assert!(removed);
    assert_eq!(updated, "[server_mods]\n");
}

#[test]
fn declared_sides_and_known_projects() {
    let side = forever_world::authoring::declared_side;
    assert_eq!(side(ContentKind::Mod, "required", "unsupported"), ContentSide::Client);
    assert_eq!(side(ContentKind::Mod, "unsupported", "required"), ContentSide::Server);
    assert_eq!(side(ContentKind::Mod, "optional", "required"), ContentSide::Both);
    assert_eq!(side(ContentKind::Shader, "unsupported", "required"), ContentSide::Client);
    let ids = vec!["sodium".to_string()];
    assert!(forever_world::authoring::check_project_absent(&ids, "Sodium").is_ok());
    assert_eq!(
        forever_world::authoring::check_project_absent(&ids, "sodium").expect_err("present").message(),
        "sodium is already in pack.toml"
    );
}
