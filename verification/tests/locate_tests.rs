use asset_eject::locate::EjectedAssets;
use asset_eject::tree::FsTree;

fn file(bytes: &[u8]) -> FsTree {
    FsTree::File { data: bytes.to_vec() }
}

fn dir(entries: Vec<(&str, FsTree)>) -> FsTree {
    FsTree::Dir { entries: entries.into_iter().map(|(n, t)| (n.to_string(), t)).collect() }
}

#[test]
fn has_ejected_assets_false_without_platform_dirs() {
    let project = dir(vec![("src", dir(vec![])), ("readme.txt", file(b"hi"))]);
    assert!(!EjectedAssets::has_ejected_assets(&project));
    let empty = dir(vec![]);
    assert!(!EjectedAssets::has_ejected_assets(&empty));
}

#[test]
fn has_ejected_assets_true_with_android() {
    let project = dir(vec![("android", dir(vec![]))]);
    assert!(EjectedAssets::has_ejected_assets(&project));
}

#[test]
fn has_ejected_assets_true_with_ios() {
    let project = dir(vec![("src", dir(vec![])), ("ios", dir(vec![]))]);
    assert!(EjectedAssets::has_ejected_assets(&project));
}

#[test]
fn android_assets_dir_present_and_absent() {
    let with = dir(vec![("android", dir(vec![]))]);
    let without = dir(vec![("ios", dir(vec![]))]);
    assert_eq!(EjectedAssets::android_assets_dir("proj", &with), Some("proj/android".to_string()));
    assert_eq!(EjectedAssets::android_assets_dir("proj", &without), None);
}

#[test]
fn ios_assets_dir_present_and_absent() {
    let with = dir(vec![("ios", dir(vec![]))]);
    let without = dir(vec![("android", dir(vec![]))]);
    assert_eq!(EjectedAssets::ios_assets_dir("proj", &with), Some("proj/ios".to_string()));
    assert_eq!(EjectedAssets::ios_assets_dir("proj", &without), None);
}

#[test]
fn platform_assets_dir_known_platforms() {
    let project = dir(vec![("android", dir(vec![])), ("ios", dir(vec![]))]);
    assert_eq!(
        EjectedAssets::platform_assets_dir("proj", &project, "android"),
        Some("proj/android".to_string())
    );
    assert_eq!(
        EjectedAssets::platform_assets_dir("proj", &project, "ios"),
        Some("proj/ios".to_string())
    );
}

#[test]
fn platform_assets_dir_unknown_platform_is_none() {
    let project = dir(vec![("android", dir(vec![])), ("ios", dir(vec![]))]);
    assert_eq!(EjectedAssets::platform_assets_dir("proj", &project, "web"), None);
    assert_eq!(EjectedAssets::platform_assets_dir("proj", &project, ""), None);
    assert_eq!(EjectedAssets::platform_assets_dir("proj", &project, "Android"), None);
}

#[test]
fn platform_assets_dir_missing_platform_is_none() {
    let project = dir(vec![("src", dir(vec![]))]);
    assert_eq!(EjectedAssets::platform_assets_dir("proj", &project, "android"), None);
    assert_eq!(EjectedAssets::platform_assets_dir("proj", &project, "ios"), None);
}

#[test]
fn path_join_handles_separators() {
    let with = dir(vec![("android", dir(vec![]))]);
    assert_eq!(EjectedAssets::android_assets_dir("", &with), Some("android".to_string()));
    assert_eq!(EjectedAssets::android_assets_dir("proj/", &with), Some("proj/android".to_string()));
    assert_eq!(
        EjectedAssets::android_assets_dir("/tmp/proj", &with),
        Some("/tmp/proj/android".to_string())
    );
}
