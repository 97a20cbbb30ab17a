use asset_eject::eject::{AssetSources, DestPlatforms, Eject, EjectError, ErrorKind, Platform};
use asset_eject::tree::FsTree;

fn file(bytes: &[u8]) -> FsTree {
    FsTree::File { data: bytes.to_vec() }
}

fn dir(entries: Vec<(&str, FsTree)>) -> FsTree {
    FsTree::Dir { entries: entries.into_iter().map(|(n, t)| (n.to_string(), t)).collect() }
}

fn tree_eq(a: &FsTree, b: &FsTree) -> bool {
    match (a, b) {
        (FsTree::File { data: da }, FsTree::File { data: db }) => da == db,
        (FsTree::Dir { entries: ea }, FsTree::Dir { entries: eb }) => {
            ea.len() == eb.len()
                && ea.iter().zip(eb.iter()).all(|(x, y)| x.0 == y.0 && tree_eq(&x.1, &y.1))
        }
        _ => false,
    }
}

fn get<'a>(t: &'a FsTree, name: &str) -> Option<&'a FsTree> {
    match t {
        FsTree::Dir { entries } => entries.iter().find(|e| e.0 == name).map(|e| &e.1),
        FsTree::File { .. } => None,
    }
}

fn file_bytes(t: &FsTree) -> &Vec<u8> {
    match t {
        FsTree::File { data } => data,
        FsTree::Dir { .. } => panic!("expected a file"),
    }
}

fn android_source() -> FsTree {
    dir(vec![
        ("manifest.xml", file(b"<manifest/>")),
        ("res", dir(vec![("values", dir(vec![("strings.xml", file(b"<resources/>"))]))])),
    ])
}

fn request(android: bool, ios: bool, force: bool) -> Eject {
    Eject { output_dir: Some("/tmp/proj".to_string()), android, ios, force }
}

#[test]
fn eject_into_empty_project_copies_everything() {
    let req = request(true, false, false);
    let sources = AssetSources { android: Some(android_source()), ios: None };
    let dest = DestPlatforms { android: None, ios: None };
    let out = req.eject(&sources, &dest).unwrap();
    assert!(out.ios.is_none());
    assert!(out.skipped.is_empty());
    let android = out.android.as_ref().unwrap();
    assert!(tree_eq(android, &android_source()));
    let manifest = get(android, "manifest.xml").unwrap();
    assert_eq!(file_bytes(manifest), &b"<manifest/>".to_vec());
    let strings = get(get(get(android, "res").unwrap(), "values").unwrap(), "strings.xml").unwrap();
    assert_eq!(file_bytes(strings), &b"<resources/>".to_vec());
}

#[test]
fn existing_file_skipped_without_force() {
    let req = request(true, false, false);
    let sources = AssetSources { android: Some(android_source()), ios: None };
    let dest = DestPlatforms {
        android: Some(dir(vec![("manifest.xml", file(b"customized"))])),
        ios: None,
    };
    let out = req.eject(&sources, &dest).unwrap();
    let android = out.android.as_ref().unwrap();
    let manifest = get(android, "manifest.xml").unwrap();
    assert_eq!(file_bytes(manifest), &b"customized".to_vec());
    assert!(get(android, "res").is_some());
    assert_eq!(out.skipped, vec!["android/manifest.xml".to_string()]);
}

#[test]
fn existing_file_overwritten_with_force() {
    let req = request(true, false, true);
    let sources = AssetSources { android: Some(android_source()), ios: None };
    let dest = DestPlatforms {
        android: Some(dir(vec![("manifest.xml", file(b"customized"))])),
        ios: None,
    };
    let out = req.eject(&sources, &dest).unwrap();
    let android = out.android.as_ref().unwrap();
    let manifest = get(android, "manifest.xml").unwrap();
    assert_eq!(file_bytes(manifest), &b"<manifest/>".to_vec());
    assert!(out.skipped.is_empty());
}

#[test]
fn missing_ios_source_fails_with_source_missing() {
    let req = request(false, true, false);
    let sources = AssetSources { android: Some(android_source()), ios: None };
    let dest = DestPlatforms { android: None, ios: None };
    let err = req.eject(&sources, &dest).unwrap_err();
    assert_eq!(err, EjectError { platform: Platform::Ios, kind: ErrorKind::SourceMissing });
}

#[test]
fn selective_eject_creates_only_android() {
    let req = request(true, false, false);
    let sources = AssetSources {
        android: Some(android_source()),
        ios: Some(dir(vec![("info.plist", file(b"<plist/>"))])),
    };
    let dest = DestPlatforms { android: None, ios: None };
    let out = req.eject(&sources, &dest).unwrap();
    assert!(out.android.is_some());
    assert!(out.ios.is_none());
}

#[test]
fn eject_twice_without_force_is_idempotent() {
    let req = request(true, false, false);
    let sources = AssetSources { android: Some(android_source()), ios: None };
    let dest = DestPlatforms {
        android: Some(dir(vec![("manifest.xml", file(b"customized"))])),
        ios: None,
    };
    let once = req.eject(&sources, &dest).unwrap();
    let dest2 = DestPlatforms { android: once.android.as_ref().map(|t| t.duplicate()), ios: None };
    let twice = req.eject(&sources, &dest2).unwrap();
    assert!(tree_eq(twice.android.as_ref().unwrap(), once.android.as_ref().unwrap()));
    // the second run overwrites nothing and skips every source entry
    assert_eq!(
        twice.skipped,
        vec!["android/manifest.xml".to_string(), "android/res".to_string()]
    );
}

#[test]
fn eject_twice_with_force_is_idempotent() {
    let req = request(true, false, true);
    let sources = AssetSources { android: Some(android_source()), ios: None };
    let dest = DestPlatforms {
        android: Some(dir(vec![
            ("manifest.xml", file(b"customized")),
            ("extra.txt", file(b"kept")),
        ])),
        ios: None,
    };
    let once = req.eject(&sources, &dest).unwrap();
    let dest2 = DestPlatforms { android: once.android.as_ref().map(|t| t.duplicate()), ios: None };
    let twice = req.eject(&sources, &dest2).unwrap();
    assert!(tree_eq(twice.android.as_ref().unwrap(), once.android.as_ref().unwrap()));
    assert!(twice.skipped.is_empty());
    // an entry the source does not mention survives the forced merge
    let extra = get(once.android.as_ref().unwrap(), "extra.txt").unwrap();
    assert_eq!(file_bytes(extra), &b"kept".to_vec());
}

#[test]
fn both_platforms_ejected_in_order() {
    let req = request(true, true, false);
    let sources = AssetSources {
        android: Some(android_source()),
        ios: Some(dir(vec![("info.plist", file(b"<plist/>"))])),
    };
    let dest = DestPlatforms {
        android: Some(dir(vec![("manifest.xml", file(b"mine"))])),
        ios: Some(dir(vec![("info.plist", file(b"mine too"))])),
    };
    let out = req.eject(&sources, &dest).unwrap();
    assert!(out.android.is_some());
    assert!(out.ios.is_some());
    assert_eq!(
        out.skipped,
        vec!["android/manifest.xml".to_string(), "ios/info.plist".to_string()]
    );
}

#[test]
fn android_failure_stops_before_ios() {
    let req = request(true, true, false);
    let sources = AssetSources {
        android: None,
        ios: Some(dir(vec![("info.plist", file(b"<plist/>"))])),
    };
    let dest = DestPlatforms { android: None, ios: None };
    let err = req.eject(&sources, &dest).unwrap_err();
    assert_eq!(err, EjectError { platform: Platform::Android, kind: ErrorKind::SourceMissing });
}

#[test]
fn destination_file_blocks_platform_directory() {
    let req = request(true, false, false);
    let sources = AssetSources { android: Some(android_source()), ios: None };
    let dest = DestPlatforms { android: Some(file(b"a plain file")), ios: None };
    let err = req.eject(&sources, &dest).unwrap_err();
    assert_eq!(
        err,
        EjectError { platform: Platform::Android, kind: ErrorKind::DirectoryCreationFailed }
    );
}

#[test]
fn kind_conflict_under_force_fails_copy() {
    let req = request(true, false, true);
    let sources = AssetSources {
        android: Some(dir(vec![("res", file(b"not a directory"))])),
        ios: None,
    };
    let dest = DestPlatforms { android: Some(dir(vec![("res", dir(vec![]))])), ios: None };
    let err = req.eject(&sources, &dest).unwrap_err();
    assert_eq!(err, EjectError { platform: Platform::Android, kind: ErrorKind::CopyFailed });
}

#[test]
fn kind_conflict_without_force_is_skipped() {
    let req = request(true, false, false);
    let sources = AssetSources {
        android: Some(dir(vec![("res", file(b"not a directory"))])),
        ios: None,
    };
    let dest = DestPlatforms { android: Some(dir(vec![("res", dir(vec![]))])), ios: None };
    let out = req.eject(&sources, &dest).unwrap();
    assert_eq!(out.skipped, vec!["android/res".to_string()]);
}

#[test]
fn source_root_that_is_a_file_fails_copy() {
    let req = request(true, false, false);
    let sources = AssetSources { android: Some(file(b"oops")), ios: None };
    let dest = DestPlatforms { android: None, ios: None };
    let err = req.eject(&sources, &dest).unwrap_err();
    assert_eq!(err, EjectError { platform: Platform::Android, kind: ErrorKind::CopyFailed });
}

#[test]
fn nothing_requested_does_nothing() {
    let req = request(false, false, false);
    let sources = AssetSources { android: None, ios: None };
    let dest = DestPlatforms { android: None, ios: None };
    let out = req.eject(&sources, &dest).unwrap();
    assert!(out.android.is_none());
    assert!(out.ios.is_none());
    assert!(out.skipped.is_empty());
}

#[test]
fn nested_merge_under_force_recurses() {
    let req = request(true, false, true);
    let sources = AssetSources { android: Some(android_source()), ios: None };
    let dest = DestPlatforms {
        android: Some(dir(vec![(
            "res",
            dir(vec![
                ("values", dir(vec![("strings.xml", file(b"old"))])),
                ("mine", dir(vec![])),
            ]),
        )])),
        ios: None,
    };
    let out = req.eject(&sources, &dest).unwrap();
    let android = out.android.as_ref().unwrap();
    let strings = get(get(get(android, "res").unwrap(), "values").unwrap(), "strings.xml").unwrap();
    assert_eq!(file_bytes(strings), &b"<resources/>".to_vec());
    assert!(get(get(android, "res").unwrap(), "mine").is_some());
}

#[test]
fn copy_directory_contents_reports_skips() {
    let req = request(true, true, false);
    let src = dir(vec![("a.txt", file(b"new")), ("b.txt", file(b"fresh"))]);
    let dst = dir(vec![("a.txt", file(b"old"))]);
    let (merged, skipped) = req.copy_directory_contents(&src, &dst).unwrap();
    assert_eq!(file_bytes(get(&merged, "a.txt").unwrap()), &b"old".to_vec());
    assert_eq!(file_bytes(get(&merged, "b.txt").unwrap()), &b"fresh".to_vec());
    assert_eq!(skipped, vec!["a.txt".to_string()]);
}

#[test]
fn resolved_output_dir_defaults_to_current() {
    let with = request(true, true, false);
    assert_eq!(with.resolved_output_dir(), "/tmp/proj".to_string());
    let without = Eject { output_dir: None, android: true, ios: true, force: false };
    assert_eq!(without.resolved_output_dir(), ".".to_string());
}

#[test]
fn eject_android_assets_method() {
    let req = request(true, false, false);
    let (tree, skipped) = req.eject_android_assets(&Some(android_source()), &None).unwrap();
    assert!(tree_eq(&tree, &android_source()));
    assert!(skipped.is_empty());
}

#[test]
fn eject_ios_assets_method_missing_source() {
    let req = request(false, true, false);
    let err = req.eject_ios_assets(&None, &None).unwrap_err();
    assert_eq!(err, EjectError { platform: Platform::Ios, kind: ErrorKind::SourceMissing });
}

#[test]
fn duplicate_is_a_deep_copy() {
    let tree = android_source();
    let copy = tree.duplicate();
    assert!(tree_eq(&tree, &copy));
}
