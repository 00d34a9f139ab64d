use forever_world::authoring::RunTarget;
use forever_world::cli::{parse_add_args, parse_command, parse_publish_mode, parse_run_target, Command};
use forever_world::publish::PublishMode;
use forever_world::spec::{ContentKind, ContentSide};

fn args(values: &[&str]) -> Vec<String> {
    values.iter().map(|value| (*value).to_string()).collect()
}

#[test]
fn publishing_accepts_dry_run_or_publish() {
    assert_eq!(parse_publish_mode(&args(&["--dry-run"])).expect("dry run"), PublishMode::DryRun);
    assert_eq!(parse_publish_mode(&Vec::new()).expect("publish"), PublishMode::Publish);
    assert!(parse_publish_mode(&args(&["--dry-rnu"])).is_err());
}

#[test]
fn add_rejects_conflicting_content_options() {
    assert!(parse_add_args(&args(&["sodium", "--client", "--server"])).is_err());
    assert!(parse_add_args(&args(&["sodium", "--mod", "--shader"])).is_err());
}

#[test]
fn add_reads_versions_and_sides() {
    let request = parse_add_args(&args(&["sodium@0.6", "--client"])).expect("request");
    assert_eq!(request.query, "sodium");
    assert_eq!(request.version, Some("0.6".to_string()));
    assert_eq!(request.options.kind, ContentKind::Mod);
    assert_eq!(request.options.side, Some(ContentSide::Client));
    let request = parse_add_args(&args(&["--version", "1", "iris@2"])).expect("request");
    assert_eq!(request.query, "iris");
    assert_eq!(request.version, Some("1".to_string()));
    let request = parse_add_args(&args(&["bsl", "--shader", "--version=10"])).expect("shader");
    assert_eq!(request.options.side, Some(ContentSide::Client));
    assert_eq!(request.version, Some("10".to_string()));
    assert_eq!(
        parse_add_args(&args(&["a", "b"])).expect_err("two projects").message(),
        "unexpected add argument `b`"
    );
    assert_eq!(parse_add_args(&args(&["a", "--x"])).expect_err("unknown").message(), "unknown add option `--x`");
    assert_eq!(
        parse_add_args(&args(&["--client"])).expect_err("no project").message(),
        "usage: pack add <project> [--version <version>] [--client|--server|--shader]"
    );
    assert!(parse_add_args(&args(&["a", "--version"])).is_err());
}

#[test]
fn commands_and_run_targets() {
    assert_eq!(parse_command("install").expect("install"), Command::Install);
    assert_eq!(parse_command("--help").expect("help"), Command::Help);
    assert_eq!(parse_command("build").expect_err("unknown").message(), "unknown command `build`");
    assert_eq!(parse_run_target(&args(&["pair"])).expect("pair"), RunTarget::Pair);
    assert_eq!(
        parse_run_target(&args(&["both"])).expect_err("unknown").message(),
        "unknown run target `both`; use client, server, or pair"
    );
    assert!(parse_run_target(&Vec::new()).is_err());
}
