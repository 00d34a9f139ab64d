use forever_world::error::{Error, ErrorKind};
use forever_world::fetch::{cached_file, sha1_hex, sha512_hex, verify_bytes, MirrorWalk};
use forever_world::root::PackRoot;
use forever_world::spec::{EnvSpec, FileSpec, SideRequirement};

fn example() -> FileSpec {
    FileSpec {
        path: "mods/example.jar".into(),
        file_size: 5,
        sha1: sha1_hex(b"right"),
        sha512: sha512_hex(b"right"),
        env: EnvSpec { client: SideRequirement::Required, server: SideRequirement::Required },
        downloads: vec!["file:bad.jar".into(), "file:good.jar".into()],
    }
}

#[test]
fn tries_the_next_mirror_after_invalid_bytes() {
    let file = example();
    let mut walk = MirrorWalk::new();
    let mut found = None;
    while let Some(index) = walk.next_mirror(&file) {
        let bytes = if index == 0 { b"wrong".to_vec() } else { b"right".to_vec() };
        if let Some(good) = walk.record(&file, Ok(bytes)) {
            found = Some(good);
            break;
        }
    }
    assert_eq!(found.expect("valid mirror"), b"right");
}

#[test]
fn a_walk_without_good_bytes_reports_the_last_error() {
    let file = example();
    let mut walk = MirrorWalk::new();
    assert!(walk.record(&file, Err(Error::new1(ErrorKind::DownloadFailed, "timeout".into()))).is_none());
    assert!(walk.record(&file, Ok(b"bad".to_vec())).is_none());
    assert!(walk.next_mirror(&file).is_none());
    assert_eq!(walk.exhausted(&file).message(), "mods/example.jar size 3 did not match pin 5");
}

#[test]
fn pins_are_checked_in_order() {
    let file = example();
    assert!(verify_bytes(&file, b"right").is_ok());
    assert_eq!(
        verify_bytes(&file, b"abc").expect_err("size").message(),
        "mods/example.jar size 3 did not match pin 5"
    );
    let error = verify_bytes(&file, b"wrong").expect_err("sha1");
    assert!(error.message().starts_with("mods/example.jar sha1 "));
    let root = PackRoot { path: "/pack".into() };
    assert!(cached_file(&root, &file).starts_with("/pack/.cache/objects/"));
}
