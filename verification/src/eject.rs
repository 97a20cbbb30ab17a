use vstd::prelude::*;
use crate::tree::{
    FsTree, TreeModel, entries_model, entry_model, lemma_entries_model,
    lemma_entries_model_push, lemma_entries_model_update, clone_bytes, duplicate_entries,
};
use crate::model::{find_entry, lemma_find_entry, MergeOut, merge_one, merge_entries};

verus! {

/// One of the two supported asset platforms.
#[derive(Clone, Copy, PartialEq, Eq, Structural, Debug)]
pub enum Platform {
    Android,
    Ios,
}

/// What went wrong during an ejection.
#[derive(Clone, Copy, PartialEq, Eq, Structural, Debug)]
pub enum ErrorKind {
    /// A destination directory could not be created (an existing file stands
    /// where a directory is needed).
    DirectoryCreationFailed,
    /// The bundled source root for a requested platform is missing.
    SourceMissing,
    /// A source/destination file-versus-directory conflict under force.
    CopyFailed,
}

/// An ejection failure: the platform being processed and the kind of failure.
#[derive(Clone, Copy, PartialEq, Eq, Structural, Debug)]
pub struct EjectError {
    pub platform: Platform,
    pub kind: ErrorKind,
}

/// An ejection request: which platforms to eject, where, and whether
/// existing entries are overwritten.
pub struct Eject {
    /// The directory to eject assets to; `None` means the current directory.
    pub output_dir: Option<String>,
    /// Eject Android assets.
    pub android: bool,
    /// Eject iOS assets.
    pub ios: bool,
    /// Force overwrite of existing files.
    pub force: bool,
}

/// The bundled template trees, one per platform; `None` when the bundled
/// root for that platform does not exist on disk (a packaging defect).
pub struct AssetSources {
    pub android: Option<FsTree>,
    pub ios: Option<FsTree>,
}

/// What already lies under the output directory's "android" and "ios"
/// names; `None` when the name is absent.
pub struct DestPlatforms {
    pub android: Option<FsTree>,
    pub ios: Option<FsTree>,
}

/// The result of a successful ejection: for each requested platform the full
/// tree that must now stand under the output directory's platform name, and
/// the destination paths that were skipped because they already existed.
#[derive(Debug)]
pub struct EjectOutcome {
    pub android: Option<FsTree>,
    pub ios: Option<FsTree>,
    pub skipped: Vec<String>,
}

/// The model of an optional tree.
pub open spec fn opt_model(o: Option<FsTree>) -> Option<TreeModel> {
    match o {
        Option::None => Option::None,
        Option::Some(t) => Option::Some(t@),
    }
}

/// Find the entry of `es` whose name is `name`.
pub fn find_named(es: &Vec<(String, FsTree)>, name: &str) -> (r: Option<usize>)
    ensures
        ({
            let j = find_entry(entries_model(es@), name@);
            match r {
                Option::Some(k) => j == k,
                Option::None => j == -1,
            }
        }),
{
    let name_s = String::from_str(name);
    let mut k: usize = 0;
    while k < es.len()
        invariant
            k <= es@.len(),
            name_s@ == name@,
            forall|i: int| 0 <= i < k ==> #[trigger] entries_model(es@)[i].0 != name@,
        decreases es@.len() - k,
    {
        proof {
            lemma_entries_model(es@);
        }
        if es[k].0 == name_s {
            proof {
                lemma_find_entry(entries_model(es@), name@);
                let m = entries_model(es@);
                assert(m[k as int].0 == name@);
                let j = find_entry(m, name@);
                if j == -1 {
                    assert(m[k as int].0 == name@);
                    assert(false);
                }
            }
            return Option::Some(k);
        }
        proof {
            assert(entries_model(es@)[k as int].0 != name@);
        }
        k = k + 1;
    }
    proof {
        lemma_entries_model(es@);
        lemma_find_entry(entries_model(es@), name@);
        let m = entries_model(es@);
        let j = find_entry(m, name@);
        if j != -1 {
            assert(m[j].0 != name@);
            assert(false);
        }
    }
    Option::None
}

/// Merge one source entry `(name, sub)` into the destination entry list,
/// following the skip-existing-unless-forced policy.
fn copy_entry(
    force: bool,
    name: &String,
    sub: &FsTree,
    dst: Vec<(String, FsTree)>,
    prefix: &String,
) -> (r: Result<(Vec<(String, FsTree)>, Vec<String>), ErrorKind>)
    ensures
        ({
            let out = merge_one(name@, sub@, entries_model(dst@), force, prefix@);
            match r {
                Result::Ok(p) => out.ok && entries_model(p.0@) == out.entries
                    && p.1.deep_view() == out.skipped,
                Result::Err(k) => !out.ok && k == ErrorKind::CopyFailed,
            }
        }),
    decreases *sub, 0int,
{
    let ghost m0 = entries_model(dst@);
    let j_opt = find_named(&dst, name.as_str());
    proof {
        lemma_entries_model(dst@);
        lemma_find_entry(m0, name@);
    }
    match j_opt {
        Option::None => {
            let mut d = dst;
            let copied = sub.duplicate();
            let name_c = name.clone();
            d.push((name_c, copied));
            let sk: Vec<String> = Vec::new();
            proof {
                lemma_entries_model_push(dst@, (name_c, copied));
                assert(entry_model((name_c, copied)) == (name@, sub@));
                assert(entries_model(d@) == m0.push((name@, sub@)));
                assert(sk.deep_view() =~= Seq::<Seq<char>>::empty());
            }
            Result::Ok((d, sk))
        }
        Option::Some(j) => {
            if !force {
                let mut p = prefix.clone();
                p.append(name.as_str());
                let mut sk: Vec<String> = Vec::new();
                sk.push(p);
                proof {
                    assert(sk.deep_view() =~= seq![prefix@ + name@]);
                }
                Result::Ok((dst, sk))
            } else {
                let sub_is_dir = sub.is_dir();
                let dst_is_dir = dst[j].1.is_dir();
                if sub_is_dir && dst_is_dir {
                    let mut d = dst;
                    let removed = d.remove(j);
                    let (nj, tj) = removed;
                    match (sub, tj) {
                        (FsTree::Dir { entries: s_es }, FsTree::Dir { entries: d_es }) => {
                            let mut p = prefix.clone();
                            p.append(name.as_str());
                            p.append("/");
                            proof {
                                reveal_strlit("/");
                                assert(p@ =~= prefix@ + name@ + seq!['/']);
                                assert(decreases_to!(*sub => *s_es));
                                assert(decreases_to!(*s_es => s_es@));
                            }
                            match copy_entries(force, s_es, 0, d_es, &p) {
                                Result::Err(k) => Result::Err(k),
                                Result::Ok(inner) => {
                                    let (m_es, sk) = inner;
                                    let node = FsTree::Dir { entries: m_es };
                                    d.insert(j, (nj, node));
                                    proof {
                                        let e = (nj, node);
                                        assert(d@ =~= dst@.update(j as int, e));
                                        lemma_entries_model_update(dst@, j as int, e);
                                        assert(m0[j as int] == entry_model(dst@[j as int]));
                                        assert(nj@ == name@);
                                        let spec_e = (
                                            name@,
                                            TreeModel::Dir { entries: entries_model(m_es@) },
                                        );
                                        assert(entry_model(e) == spec_e);
                                    }
                                    Result::Ok((d, sk))
                                }
                            }
                        }
                        _ => {
                            proof {
                                assert(false);
                            }
                            vstd::pervasive::unreached()
                        }
                    }
                } else if !sub_is_dir && !dst_is_dir {
                    match sub {
                        FsTree::File { data } => {
                            let nd = clone_bytes(data);
                            let mut d = dst;
                            let removed = d.remove(j);
                            let (nj, _old) = removed;
                            let node = FsTree::File { data: nd };
                            d.insert(j, (nj, node));
                            proof {
                                let e = (nj, node);
                                assert(d@ =~= dst@.update(j as int, e));
                                lemma_entries_model_update(dst@, j as int, e);
                                assert(m0[j as int] == entry_model(dst@[j as int]));
                                assert(nj@ == name@);
                                assert(entry_model(e) == (name@, sub@));
                            }
                            let sk: Vec<String> = Vec::new();
                            proof {
                                assert(sk.deep_view() =~= Seq::<Seq<char>>::empty());
                            }
                            Result::Ok((d, sk))
                        }
                        FsTree::Dir { .. } => {
                            proof {
                                assert(false);
                            }
                            vstd::pervasive::unreached()
                        }
                    }
                } else {
                    Result::Err(ErrorKind::CopyFailed)
                }
            }
        }
    }
}

/// Merge the source entries `src[i..]` into the destination entry list,
/// in order, stopping at the first conflict.
fn copy_entries(
    force: bool,
    src: &Vec<(String, FsTree)>,
    i: usize,
    dst: Vec<(String, FsTree)>,
    prefix: &String,
) -> (r: Result<(Vec<(String, FsTree)>, Vec<String>), ErrorKind>)
    ensures
        ({
            let out = merge_entries(entries_model(src@), i as int, entries_model(dst@), force, prefix@);
            match r {
                Result::Ok(p) => out.ok && entries_model(p.0@) == out.entries
                    && p.1.deep_view() == out.skipped,
                Result::Err(k) => !out.ok && k == ErrorKind::CopyFailed,
            }
        }),
    decreases src@, src@.len() - i as int,
{
    proof {
        lemma_entries_model(src@);
    }
    if i >= src.len() {
        let sk: Vec<String> = Vec::new();
        proof {
            assert(sk.deep_view() =~= Seq::<Seq<char>>::empty());
        }
        return Result::Ok((dst, sk));
    }
    let e = &src[i];
    proof {
        assert(decreases_to!(src@ => src@[i as int]));
        assert(decreases_to!(src@[i as int] => src@[i as int].1));
        assert(entries_model(src@)[i as int] == entry_model(src@[i as int]));
    }
    match copy_entry(force, &e.0, &e.1, dst, prefix) {
        Result::Err(k) => Result::Err(k),
        Result::Ok(stepr) => {
            let (d1, mut sk1) = stepr;
            let ghost step = merge_one(e.0@, e.1@, entries_model(dst@), force, prefix@);
            match copy_entries(force, src, i + 1, d1, prefix) {
                Result::Err(k) => Result::Err(k),
                Result::Ok(restr) => {
                    let (d2, mut sk2) = restr;
                    let ghost rest = merge_entries(
                        entries_model(src@),
                        i + 1 as int,
                        entries_model(d1@),
                        force,
                        prefix@,
                    );
                    sk1.append(&mut sk2);
                    proof {
                        assert(sk1.deep_view() =~= step.skipped + rest.skipped);
                    }
                    Result::Ok((d2, sk1))
                }
            }
        }
    }
}

/// The plan for one platform: merge the bundled source tree into what
/// already stands under the platform name at the destination.
///
/// - An existing destination file where the platform directory must be
///   created fails with `DirectoryCreationFailed`.
/// - A missing bundled source root fails with `SourceMissing`.
/// - A bundled source root that is not a directory, or a file/directory
///   conflict under force, fails with `CopyFailed`.
pub open spec fn platform_plan(
    src: Option<TreeModel>,
    dst: Option<TreeModel>,
    force: bool,
    prefix: Seq<char>,
) -> Result<MergeOut, ErrorKind> {
    let dst_blocked = match dst {
        Option::Some(d) => !(d is Dir),
        Option::None => false,
    };
    if dst_blocked {
        Result::Err(ErrorKind::DirectoryCreationFailed)
    } else {
        match src {
            Option::None => Result::Err(ErrorKind::SourceMissing),
            Option::Some(s) => {
                if !(s is Dir) {
                    Result::Err(ErrorKind::CopyFailed)
                } else {
                    let d_es = match dst {
                        Option::Some(d) => d->entries,
                        Option::None => Seq::empty(),
                    };
                    let out = merge_entries(s->entries, 0, d_es, force, prefix);
                    if out.ok {
                        Result::Ok(out)
                    } else {
                        Result::Err(ErrorKind::CopyFailed)
                    }
                }
            }
        }
    }
}

/// The model of a whole ejection: the resulting tree for each requested
/// platform (android first), the skipped paths of both in order, or the
/// first failure.
pub open spec fn eject_model(
    android: bool,
    ios: bool,
    force: bool,
    src_a: Option<TreeModel>,
    src_i: Option<TreeModel>,
    dst_a: Option<TreeModel>,
    dst_i: Option<TreeModel>,
) -> Result<(Option<TreeModel>, Option<TreeModel>, Seq<Seq<char>>), EjectError> {
    if android {
        match platform_plan(src_a, dst_a, force, "android/"@) {
            Result::Err(k) => Result::Err(EjectError { platform: Platform::Android, kind: k }),
            Result::Ok(out_a) => {
                if ios {
                    match platform_plan(src_i, dst_i, force, "ios/"@) {
                        Result::Err(k) => Result::Err(
                            EjectError { platform: Platform::Ios, kind: k },
                        ),
                        Result::Ok(out_i) => Result::Ok(
                            (
                                Option::Some(TreeModel::Dir { entries: out_a.entries }),
                                Option::Some(TreeModel::Dir { entries: out_i.entries }),
                                out_a.skipped + out_i.skipped,
                            ),
                        ),
                    }
                } else {
                    Result::Ok(
                        (
                            Option::Some(TreeModel::Dir { entries: out_a.entries }),
                            Option::None,
                            out_a.skipped,
                        ),
                    )
                }
            }
        }
    } else if ios {
        match platform_plan(src_i, dst_i, force, "ios/"@) {
            Result::Err(k) => Result::Err(EjectError { platform: Platform::Ios, kind: k }),
            Result::Ok(out_i) => Result::Ok(
                (
                    Option::None,
                    Option::Some(TreeModel::Dir { entries: out_i.entries }),
                    out_i.skipped,
                ),
            ),
        }
    } else {
        Result::Ok((Option::None, Option::None, Seq::empty()))
    }
}

impl Eject {
    /// The output directory of the request; the current directory when none
    /// was given.
    pub fn resolved_output_dir(&self) -> (r: String)
        ensures
            r@ == match self.output_dir {
                Option::Some(s) => s@,
                Option::None => "."@,
            },
    {
        match &self.output_dir {
            Option::Some(s) => s.clone(),
            Option::None => String::from_str("."),
        }
    }

    /// Merge the contents of the source directory into the destination
    /// directory, returning the resulting tree and the skipped paths
    /// (relative to the destination root).
    pub fn copy_directory_contents(&self, src: &FsTree, dst: &FsTree) -> (r: Result<
        (FsTree, Vec<String>),
        ErrorKind,
    >)
        requires
            src@ is Dir,
            dst@ is Dir,
        ensures
            ({
                let out = merge_entries(
                    src@->entries,
                    0,
                    dst@->entries,
                    self.force,
                    Seq::<char>::empty(),
                );
                match r {
                    Result::Ok(p) => out.ok && p.0@ == (TreeModel::Dir { entries: out.entries })
                        && p.1.deep_view() == out.skipped,
                    Result::Err(k) => !out.ok && k == ErrorKind::CopyFailed,
                }
            }),
    {
        match (src, dst) {
            (FsTree::Dir { entries: s_es }, FsTree::Dir { entries: d_es }) => {
                let d_copy = duplicate_entries(d_es);
                let empty_p = String::new();
                proof {
                    assert(empty_p@ =~= Seq::<char>::empty());
                    crate::tree::lemma_entries_model_pointwise(d_copy@, d_es@);
                }
                match copy_entries(self.force, s_es, 0, d_copy, &empty_p) {
                    Result::Err(k) => Result::Err(k),
                    Result::Ok(p) => {
                        let (m_es, sk) = p;
                        Result::Ok((FsTree::Dir { entries: m_es }, sk))
                    }
                }
            }
            _ => {
                proof {
                    assert(false);
                }
                vstd::pervasive::unreached()
            }
        }
    }

    /// Eject one platform: refuse a destination file where the platform
    /// directory must stand, require the bundled source root, and merge it
    /// into what is already there.
    pub fn eject_platform_assets(
        &self,
        src: &Option<FsTree>,
        dst: &Option<FsTree>,
        platform: Platform,
        prefix: &str,
    ) -> (r: Result<(FsTree, Vec<String>), EjectError>)
        ensures
            ({
                let plan = platform_plan(opt_model(*src), opt_model(*dst), self.force, prefix@);
                match r {
                    Result::Ok(p) => plan matches Result::Ok(out)
                        && p.0@ == (TreeModel::Dir { entries: out.entries })
                        && p.1.deep_view() == out.skipped,
                    Result::Err(e) => e.platform == platform
                        && (plan matches Result::Err(k) && e.kind == k),
                }
            }),
    {
        match dst {
            Option::Some(t) => {
                if !t.is_dir() {
                    return Result::Err(
                        EjectError { platform, kind: ErrorKind::DirectoryCreationFailed },
                    );
                }
            }
            Option::None => {}
        }
        match src {
            Option::None => Result::Err(EjectError { platform, kind: ErrorKind::SourceMissing }),
            Option::Some(s) => {
                if !s.is_dir() {
                    return Result::Err(EjectError { platform, kind: ErrorKind::CopyFailed });
                }
                let d_es: Vec<(String, FsTree)> = match dst {
                    Option::Some(t) => match t {
                        FsTree::Dir { entries } => duplicate_entries(entries),
                        FsTree::File { .. } => {
                            proof {
                                assert(false);
                            }
                            vstd::pervasive::unreached()
                        }
                    },
                    Option::None => Vec::new(),
                };
                proof {
                    match dst {
                        Option::Some(t) => {
                            crate::tree::lemma_entries_model_pointwise(d_es@, t->entries@);
                        }
                        Option::None => {
                            assert(entries_model(d_es@) =~= Seq::<(Seq<char>, TreeModel)>::empty());
                        }
                    }
                }
                match s {
                    FsTree::Dir { entries: s_es } => {
                        let p = String::from_str(prefix);
                        match copy_entries(self.force, s_es, 0, d_es, &p) {
                            Result::Err(k) => Result::Err(EjectError { platform, kind: k }),
                            Result::Ok(out) => {
                                let (m_es, sk) = out;
                                Result::Ok((FsTree::Dir { entries: m_es }, sk))
                            }
                        }
                    }
                    FsTree::File { .. } => {
                        proof {
                            assert(false);
                        }
                        vstd::pervasive::unreached()
                    }
                }
            }
        }
    }

    /// Eject the Android assets into what stands under the "android" name.
    pub fn eject_android_assets(&self, src: &Option<FsTree>, dst: &Option<FsTree>) -> (r: Result<
        (FsTree, Vec<String>),
        EjectError,
    >)
        ensures
            ({
                let plan = platform_plan(opt_model(*src), opt_model(*dst), self.force, "android/"@);
                match r {
                    Result::Ok(p) => plan matches Result::Ok(out)
                        && p.0@ == (TreeModel::Dir { entries: out.entries })
                        && p.1.deep_view() == out.skipped,
                    Result::Err(e) => e.platform == Platform::Android
                        && (plan matches Result::Err(k) && e.kind == k),
                }
            }),
    {
        self.eject_platform_assets(src, dst, Platform::Android, "android/")
    }

    /// Eject the iOS assets into what stands under the "ios" name.
    pub fn eject_ios_assets(&self, src: &Option<FsTree>, dst: &Option<FsTree>) -> (r: Result<
        (FsTree, Vec<String>),
        EjectError,
    >)
        ensures
            ({
                let plan = platform_plan(opt_model(*src), opt_model(*dst), self.force, "ios/"@);
                match r {
                    Result::Ok(p) => plan matches Result::Ok(out)
                        && p.0@ == (TreeModel::Dir { entries: out.entries })
                        && p.1.deep_view() == out.skipped,
                    Result::Err(e) => e.platform == Platform::Ios
                        && (plan matches Result::Err(k) && e.kind == k),
                }
            }),
    {
        self.eject_platform_assets(src, dst, Platform::Ios, "ios/")
    }

    /// Perform the whole ejection described by this request on the given
    /// snapshot of the bundled sources and of the destination.
    pub fn eject(&self, sources: &AssetSources, dest: &DestPlatforms) -> (r: Result<
        EjectOutcome,
        EjectError,
    >)
        ensures
            ({
                let m = eject_model(
                    self.android,
                    self.ios,
                    self.force,
                    opt_model(sources.android),
                    opt_model(sources.ios),
                    opt_model(dest.android),
                    opt_model(dest.ios),
                );
                match r {
                    Result::Ok(out) => m == Result::<
                        (Option<TreeModel>, Option<TreeModel>, Seq<Seq<char>>),
                        EjectError,
                    >::Ok((opt_model(out.android), opt_model(out.ios), out.skipped.deep_view())),
                    Result::Err(e) => m == Result::<
                        (Option<TreeModel>, Option<TreeModel>, Seq<Seq<char>>),
                        EjectError,
                    >::Err(e),
                }
            }),
    {
        let mut skipped: Vec<String> = Vec::new();
        let mut android_tree: Option<FsTree> = Option::None;
        let mut ios_tree: Option<FsTree> = Option::None;
        if self.android {
            match self.eject_android_assets(&sources.android, &dest.android) {
                Result::Err(e) => {
                    return Result::Err(e);
                }
                Result::Ok(p) => {
                    let (t, mut sk) = p;
                    android_tree = Option::Some(t);
                    skipped.append(&mut sk);
                }
            }
        }
        if self.ios {
            match self.eject_ios_assets(&sources.ios, &dest.ios) {
                Result::Err(e) => {
                    return Result::Err(e);
                }
                Result::Ok(p) => {
                    let (t, mut sk) = p;
                    ios_tree = Option::Some(t);
                    skipped.append(&mut sk);
                }
            }
        }
        proof {
            assert(skipped.deep_view() =~= match (
                self.android,
                self.ios,
            ) {
                (true, true) => platform_plan(
                    opt_model(sources.android),
                    opt_model(dest.android),
                    self.force,
                    "android/"@,
                )->Ok_0.skipped + platform_plan(
                    opt_model(sources.ios),
                    opt_model(dest.ios),
                    self.force,
                    "ios/"@,
                )->Ok_0.skipped,
                (true, false) => platform_plan(
                    opt_model(sources.android),
                    opt_model(dest.android),
                    self.force,
                    "android/"@,
                )->Ok_0.skipped,
                (false, true) => platform_plan(
                    opt_model(sources.ios),
                    opt_model(dest.ios),
                    self.force,
                    "ios/"@,
                )->Ok_0.skipped,
                (false, false) => Seq::<Seq<char>>::empty(),
            });
        }
        Result::Ok(EjectOutcome { android: android_tree, ios: ios_tree, skipped })
    }
}

} // verus!
