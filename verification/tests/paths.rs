use zerotrace::error::Error;
use zerotrace::paths::{part_path, sanitize_relative_path, scratch_path, split_bundle_path};
use zerotrace::vault::purge::{overwrites_first, purge_targets, wipes_first, Removal};
use zerotrace::vault::Vault;

fn clean(p: &str) -> Result<String, Error> {
    sanitize_relative_path(p, 4)
}

#[test]
fn ordinary_paths_are_kept() {
    assert_eq!(clean("a.txt").unwrap(), "a.txt");
    assert_eq!(clean("a/b/c").unwrap(), "a/b/c");
    assert_eq!(clean("a\\b\\c").unwrap(), "a/b/c");
    assert_eq!(clean("./a//b/./c/").unwrap(), "a/b/c");
    assert_eq!(clean("...").unwrap(), "...");
    assert_eq!(clean("..a/b..").unwrap(), "..a/b..");
    assert_eq!(clean("é/ü").unwrap(), "é/ü");
    assert_eq!(clean("a:b/c").unwrap_err(), Error::Format("unsafe path in vault: a:b/c".to_string()));
    assert_eq!(clean("notes/a:b").unwrap(), "notes/a:b");
}

#[test]
fn paths_that_lead_out_are_refused() {
    for p in [
        "/etc/passwd",
        "\\windows",
        "..",
        "../x",
        "a/../b",
        "a\\..\\b",
        "a/..",
        "C:",
        "c:\\x",
        "Z:x",
        "./C:/x",
    ] {
        assert_eq!(clean(p).unwrap_err(), Error::Format(format!("unsafe path in vault: {p}")));
    }
}

#[test]
fn empty_and_deep_paths_are_refused() {
    for p in ["", ".", "./.", "./", ".\\."] {
        assert_eq!(clean(p).unwrap_err(), Error::Format("entry has an empty path".to_string()));
    }
    assert!(clean("a/b/c/d").is_ok());
    assert_eq!(
        clean("a/b/c/d/e").unwrap_err(),
        Error::LimitExceeded("entry path is nested too deeply".to_string())
    );
    // Leading out is worse than being deep.
    assert_eq!(
        clean("a/b/c/d/e/..").unwrap_err(),
        Error::Format("unsafe path in vault: a/b/c/d/e/..".to_string())
    );
}

#[test]
fn sanitizing_twice_changes_nothing() {
    for p in ["a.txt", "./a\\b//c", "x/./y", "..a/b"] {
        let once = clean(p).unwrap();
        assert_eq!(clean(&once).unwrap(), once);
    }
}

#[test]
fn files_beside_a_vault_are_named_after_it() {
    assert_eq!(split_bundle_path("dir/v.azv"), "dir/v.azv.split");
    assert_eq!(scratch_path("dir/v.azv"), "dir/v.azv.decoy-build");
}

#[test]
fn an_unfinished_export_has_a_name_of_its_own() {
    assert_eq!(part_path("a.txt"), "a.txt.zt-part");
    assert_eq!(part_path("a"), "a..zt-part");
    assert_eq!(part_path(".bashrc"), ".bashrc..zt-part");
    assert_eq!(part_path("a."), "a..zt-part");
    assert_eq!(part_path("dir.d/a"), "dir.d/a..zt-part");
    assert_eq!(part_path("dir/a.tar.gz"), "dir/a.tar.gz.zt-part");
}

#[test]
fn a_purge_reaches_everything_beside_the_vault() {
    assert_eq!(
        purge_targets("v"),
        [
            "v",
            "v.audit",
            "v.journal",
            "v.policy",
            "v.split",
            "v.custodian",
            "v.watch",
            "v.watch.stop",
            "v.decoy-build"
        ]
    );
}

#[test]
fn a_purge_reports_what_survived() {
    let mut outcomes = vec![Removal::Removed; 9];
    assert!(Vault::<()>::purge_all("v", &outcomes).is_empty());
    outcomes[1] = Removal::Failed;
    outcomes[2] = Removal::Absent;
    outcomes[8] = Removal::Failed;
    assert_eq!(Vault::<()>::purge_all("v", &outcomes), ["v.audit", "v.decoy-build"]);
}

#[test]
fn only_files_of_ordinary_size_are_overwritten() {
    assert!(!overwrites_first(true, 0));
    assert!(overwrites_first(true, 1));
    assert!(overwrites_first(true, 64 * 1024 * 1024 - 1));
    assert!(!overwrites_first(true, 64 * 1024 * 1024));
    assert!(!overwrites_first(false, 1));
    assert!(!wipes_first(0));
    assert!(wipes_first(512 * 1024 * 1024 - 1));
    assert!(!wipes_first(512 * 1024 * 1024));
}
