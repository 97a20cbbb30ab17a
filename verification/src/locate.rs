use vstd::prelude::*;
use crate::tree::{FsTree, TreeModel, entries_model, lemma_entries_model};
use crate::model::{has_name, find_entry, lemma_find_entry};
use crate::eject::find_named;

verus! {

/// Does the tree `t`, as a directory, have an entry named `name`?
pub open spec fn dir_has_entry(t: TreeModel, name: Seq<char>) -> bool {
    t is Dir && has_name(t->entries, name)
}

/// The path of `name` under `base`: the two joined with a single separator
/// (no separator is added when `base` is empty or already ends in one).
pub open spec fn joined_path(base: Seq<char>, name: Seq<char>) -> Seq<char> {
    if base.len() == 0 {
        name
    } else if base.last() == '/' {
        base + name
    } else {
        base + seq!['/'] + name
    }
}

/// Whether two string slices hold the same characters.
fn str_eq(a: &str, b: &str) -> (r: bool)
    ensures
        r == (a@ == b@),
{
    let x = String::from_str(a);
    let y = String::from_str(b);
    x == y
}

/// Join `name` onto the directory path `base`.
fn join_path(base: &str, name: &str) -> (r: String)
    ensures
        r@ == joined_path(base@, name@),
{
    if base.is_empty() {
        String::from_str(name)
    } else {
        let l = base.unicode_len();
        let last = base.get_char(l - 1);
        let mut r = String::from_str(base);
        if last != '/' {
            r.append("/");
        }
        r.append(name);
        proof {
            reveal_strlit("/");
            if base@.last() != '/' {
                assert(r@ =~= base@ + seq!['/'] + name@);
            }
        }
        r
    }
}

/// Utility functions to handle ejected assets.
pub struct EjectedAssets;

impl EjectedAssets {
    /// Check if there are ejected assets in the project directory: true when
    /// an "android" or an "ios" entry stands at its top level.
    pub fn has_ejected_assets(project_dir: &FsTree) -> (r: bool)
        ensures
            r == (dir_has_entry(project_dir@, "android"@) || dir_has_entry(project_dir@, "ios"@)),
    {
        match project_dir {
            FsTree::File { .. } => false,
            FsTree::Dir { entries } => {
                let a = find_named(entries, "android");
                let i = find_named(entries, "ios");
                proof {
                    lemma_find_entry(entries_model(entries@), "android"@);
                    lemma_find_entry(entries_model(entries@), "ios"@);
                }
                match (a, i) {
                    (Option::None, Option::None) => false,
                    _ => true,
                }
            }
        }
    }

    /// Get the path to the ejected Android assets directory if it exists.
    pub fn android_assets_dir(project_path: &str, project_dir: &FsTree) -> (r: Option<String>)
        ensures
            r is Some <==> dir_has_entry(project_dir@, "android"@),
            r matches Option::Some(p) ==> p@ == joined_path(project_path@, "android"@),
    {
        match project_dir {
            FsTree::File { .. } => Option::None,
            FsTree::Dir { entries } => {
                let found = find_named(entries, "android");
                proof {
                    lemma_find_entry(entries_model(entries@), "android"@);
                }
                match found {
                    Option::Some(_) => Option::Some(join_path(project_path, "android")),
                    Option::None => Option::None,
                }
            }
        }
    }

    /// Get the path to the ejected iOS assets directory if it exists.
    pub fn ios_assets_dir(project_path: &str, project_dir: &FsTree) -> (r: Option<String>)
        ensures
            r is Some <==> dir_has_entry(project_dir@, "ios"@),
            r matches Option::Some(p) ==> p@ == joined_path(project_path@, "ios"@),
    {
        match project_dir {
            FsTree::File { .. } => Option::None,
            FsTree::Dir { entries } => {
                let found = find_named(entries, "ios");
                proof {
                    lemma_find_entry(entries_model(entries@), "ios"@);
                }
                match found {
                    Option::Some(_) => Option::Some(join_path(project_path, "ios")),
                    Option::None => Option::None,
                }
            }
        }
    }

    /// Get the path to the ejected assets directory for a specific platform
    /// if it exists; any platform name other than "android" and "ios" yields
    /// nothing.
    pub fn platform_assets_dir(project_path: &str, project_dir: &FsTree, platform: &str) -> (r:
        Option<String>)
        ensures
            platform@ == "android"@ ==> ((r is Some <==> dir_has_entry(project_dir@, "android"@))
                && (r matches Option::Some(p) ==> p@ == joined_path(project_path@, "android"@))),
            platform@ == "ios"@ ==> ((r is Some <==> dir_has_entry(project_dir@, "ios"@))
                && (r matches Option::Some(p) ==> p@ == joined_path(project_path@, "ios"@))),
            platform@ != "android"@ && platform@ != "ios"@ ==> r is None,
    {
        if str_eq(platform, "android") {
            Self::android_assets_dir(project_path, project_dir)
        } else if str_eq(platform, "ios") {
            Self::ios_assets_dir(project_path, project_dir)
        } else {
            Option::None
        }
    }
}

} // verus!
