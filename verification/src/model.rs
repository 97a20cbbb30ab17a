use vstd::prelude::*;
use crate::tree::TreeModel;

verus! {

/// Does the entry list `es` contain an entry named `name`?
pub open spec fn has_name(es: Seq<(Seq<char>, TreeModel)>, name: Seq<char>) -> bool {
    exists|i: int| 0 <= i < es.len() && es[i].0 == name
}

/// Index of the first entry of `es` named `name`, or -1 if there is none.
pub open spec fn find_entry(es: Seq<(Seq<char>, TreeModel)>, name: Seq<char>) -> int
    decreases es.len(),
{
    if es.len() == 0 {
        -1
    } else if es[0].0 == name {
        0
    } else {
        let r: int = find_entry(es.subrange(1, es.len() as int), name);
        if r == -1 {
            -1
        } else {
            r + 1
        }
    }
}

/// `find_entry` returns -1 exactly when the name is absent, and otherwise
/// the first index holding the name.
pub proof fn lemma_find_entry(es: Seq<(Seq<char>, TreeModel)>, name: Seq<char>)
    ensures
        find_entry(es, name) == -1 <==> !has_name(es, name),
        find_entry(es, name) != -1 ==> 0 <= find_entry(es, name) < es.len()
            && es[find_entry(es, name)].0 == name
            && (forall|k: int| 0 <= k < find_entry(es, name) ==> es[k].0 != name),
    decreases es.len(),
{
    if es.len() == 0 {
        assert(!has_name(es, name));
    } else if es[0].0 == name {
        assert(has_name(es, name));
    } else {
        let tail = es.subrange(1, es.len() as int);
        lemma_find_entry(tail, name);
        assert forall|i: int| 0 <= i < es.len() && es[i].0 == name implies has_name(tail, name) by {
            assert(tail[i - 1] == es[i]);
        }
        if has_name(tail, name) {
            let w = choose|i: int| 0 <= i < tail.len() && tail[i].0 == name;
            assert(es[w + 1] == tail[w]);
            assert(has_name(es, name));
        }
        let r: int = find_entry(tail, name);
        if r != -1 {
            assert(es[r + 1] == tail[r]);
            assert forall|k: int| 0 <= k < r + 1 implies es[k].0 != name by {
                if k >= 1 {
                    assert(tail[k - 1] == es[k]);
                }
            }
        }
    }
}

/// The outcome of merging a source tree into a destination tree: whether the
/// merge succeeded, the resulting entry list, and the paths that were skipped
/// because they already existed and force was not set.
pub struct MergeOut {
    pub ok: bool,
    pub entries: Seq<(Seq<char>, TreeModel)>,
    pub skipped: Seq<Seq<char>>,
}

/// Merge one source entry `(name, sub)` into the destination entry list
/// `dst`, following the conflict policy:
/// - the name is absent from `dst`: the source subtree is copied whole;
/// - the name is present and force is unset: the destination entry is left
///   untouched (a shallow skip) and its path is recorded;
/// - the name is present and force is set: files are overwritten, directories
///   are merged recursively, and a file/directory kind mismatch fails.
pub open spec fn merge_one(
    name: Seq<char>,
    sub: TreeModel,
    dst: Seq<(Seq<char>, TreeModel)>,
    force: bool,
    prefix: Seq<char>,
) -> MergeOut
    decreases sub, 0int,
{
    let j: int = find_entry(dst, name);
    if j == -1 {
        MergeOut { ok: true, entries: dst.push((name, sub)), skipped: Seq::empty() }
    } else if !force {
        MergeOut { ok: true, entries: dst, skipped: seq![prefix + name] }
    } else if sub is File && dst[j].1 is File {
        MergeOut { ok: true, entries: dst.update(j, (name, sub)), skipped: Seq::empty() }
    } else if sub is Dir && dst[j].1 is Dir {
        let inner: MergeOut = merge_entries(
            sub->entries,
            0,
            dst[j].1->entries,
            force,
            prefix + name + seq!['/'],
        );
        if inner.ok {
            MergeOut {
                ok: true,
                entries: dst.update(j, (name, TreeModel::Dir { entries: inner.entries })),
                skipped: inner.skipped,
            }
        } else {
            MergeOut { ok: false, entries: dst, skipped: Seq::empty() }
        }
    } else {
        MergeOut { ok: false, entries: dst, skipped: Seq::empty() }
    }
}

/// Merge the source entries `src[i..]` into the destination entry list `dst`,
/// processing them in order and stopping at the first failure.
pub open spec fn merge_entries(
    src: Seq<(Seq<char>, TreeModel)>,
    i: int,
    dst: Seq<(Seq<char>, TreeModel)>,
    force: bool,
    prefix: Seq<char>,
) -> MergeOut
    decreases src, src.len() - i,
{
    if i < 0 || i >= src.len() {
        MergeOut { ok: true, entries: dst, skipped: Seq::empty() }
    } else {
        proof {
            assert(decreases_to!(src => src[i]));
        }
        let step: MergeOut = merge_one(src[i].0, src[i].1, dst, force, prefix);
        if !step.ok {
            MergeOut { ok: false, entries: dst, skipped: Seq::empty() }
        } else {
            let rest: MergeOut = merge_entries(src, i + 1, step.entries, force, prefix);
            if !rest.ok {
                MergeOut { ok: false, entries: dst, skipped: Seq::empty() }
            } else {
                MergeOut { ok: true, entries: rest.entries, skipped: step.skipped + rest.skipped }
            }
        }
    }
}

} // verus!
