use vstd::prelude::*;
use crate::tree::TreeModel;
use crate::eject::{platform_plan, eject_model};
use crate::model::{has_name, find_entry, lemma_find_entry, MergeOut, merge_one, merge_entries};

verus! {

/// Without force the merge always succeeds, keeps every destination name,
/// and ends with every processed source name present.
pub proof fn lemma_merge_no_force_total(
    src: Seq<(Seq<char>, TreeModel)>,
    i: int,
    dst: Seq<(Seq<char>, TreeModel)>,
    prefix: Seq<char>,
)
    requires
        0 <= i <= src.len(),
    ensures
        ({
            let out = merge_entries(src, i, dst, false, prefix);
            out.ok && (forall|n: Seq<char>| has_name(dst, n) ==> has_name(out.entries, n)) && (
            forall|j: int| i <= j < src.len() ==> has_name(out.entries, #[trigger] src[j].0))
        }),
    decreases src.len() - i,
{
    if i < src.len() {
        let name = src[i].0;
        let sub = src[i].1;
        lemma_find_entry(dst, name);
        let j = find_entry(dst, name);
        let step = merge_one(name, sub, dst, false, prefix);
        if j == -1 {
            assert(step.entries == dst.push((name, sub)));
            assert forall|n: Seq<char>| has_name(dst, n) implies has_name(step.entries, n) by {
                let w = choose|w: int| 0 <= w < dst.len() && dst[w].0 == n;
                assert(step.entries[w] == dst[w]);
            }
            assert(step.entries[dst.len() as int].0 == name);
            assert(has_name(step.entries, name));
        } else {
            assert(step.entries == dst);
            assert(has_name(dst, name));
        }
        lemma_merge_no_force_total(src, i + 1, step.entries, prefix);
    }
}

/// When every remaining source name is already present, a merge without
/// force leaves the destination untouched and skips every source entry.
pub proof fn lemma_merge_no_force_skips(
    src: Seq<(Seq<char>, TreeModel)>,
    i: int,
    dst: Seq<(Seq<char>, TreeModel)>,
    prefix: Seq<char>,
)
    requires
        0 <= i <= src.len(),
        forall|j: int| i <= j < src.len() ==> has_name(dst, #[trigger] src[j].0),
    ensures
        ({
            let out = merge_entries(src, i, dst, false, prefix);
            out.ok && out.entries == dst && out.skipped == Seq::new(
                (src.len() - i) as nat,
                |k: int| prefix + src[i + k].0,
            )
        }),
    decreases src.len() - i,
{
    let out = merge_entries(src, i, dst, false, prefix);
    if i >= src.len() {
        assert(out.skipped =~= Seq::new((src.len() - i) as nat, |k: int| prefix + src[i + k].0));
    } else {
        lemma_find_entry(dst, src[i].0);
        assert(has_name(dst, src[i].0));
        let step = merge_one(src[i].0, src[i].1, dst, false, prefix);
        assert(step.entries == dst);
        lemma_merge_no_force_skips(src, i + 1, dst, prefix);
        assert(out.skipped =~= Seq::new((src.len() - i) as nat, |k: int| prefix + src[i + k].0));
    }
}

/// Ejecting twice without force is idempotent: the second merge returns the
/// first merge's tree unchanged and reports every source entry as skipped,
/// overwriting nothing.
pub proof fn lemma_eject_idempotent_without_force(
    src: Seq<(Seq<char>, TreeModel)>,
    dst: Seq<(Seq<char>, TreeModel)>,
    prefix: Seq<char>,
)
    ensures
        ({
            let once = merge_entries(src, 0, dst, false, prefix);
            let twice = merge_entries(src, 0, once.entries, false, prefix);
            once.ok && twice.ok && twice.entries == once.entries && twice.skipped == Seq::new(
                src.len(),
                |k: int| prefix + src[k].0,
            )
        }),
{
    lemma_merge_no_force_total(src, 0, dst, prefix);
    let once = merge_entries(src, 0, dst, false, prefix);
    lemma_merge_no_force_skips(src, 0, once.entries, prefix);
    assert(Seq::new((src.len() - 0) as nat, |k: int| prefix + src[0 + k].0) =~= Seq::new(
        src.len(),
        |k: int| prefix + src[k].0,
    ));
}

/// The names of a directory-entry list are pairwise distinct.
pub open spec fn names_distinct(es: Seq<(Seq<char>, TreeModel)>) -> bool {
    forall|a: int, b: int| 0 <= a < b < es.len() ==> es[a].0 != es[b].0
}

/// Entry names are pairwise distinct in every directory of the tree.
pub open spec fn wf_node(t: TreeModel) -> bool
    decreases t, 0int,
{
    match t {
        TreeModel::File { .. } => true,
        TreeModel::Dir { entries } => names_distinct(entries) && wf_entries(entries, 0),
    }
}

/// All of `es[i..]` hold well-formed subtrees.
pub open spec fn wf_entries(es: Seq<(Seq<char>, TreeModel)>, i: int) -> bool
    decreases es, es.len() - i + 1,
{
    if i < 0 || i >= es.len() {
        true
    } else {
        proof {
            assert(decreases_to!(es => es[i]));
        }
        wf_node(es[i].1) && wf_entries(es, i + 1)
    }
}

/// Does `src[lo..hi]` contain an entry named `name`?
pub open spec fn name_in_range(
    src: Seq<(Seq<char>, TreeModel)>,
    lo: int,
    hi: int,
    name: Seq<char>,
) -> bool {
    exists|j: int| lo <= j < hi && src[j].0 == name
}

/// The destination node `d` already holds everything in the source node
/// `s`: equal file contents, and recursively every entry of a directory.
pub open spec fn covers_node(s: TreeModel, d: TreeModel) -> bool
    decreases s, 0int,
{
    match s {
        TreeModel::File { .. } => d == s,
        TreeModel::Dir { entries } => d is Dir && covers_entries(entries, 0, d->entries),
    }
}

/// The source entry `(name, sub)` is present, and covered, in `dst`.
pub open spec fn covers_one(
    name: Seq<char>,
    sub: TreeModel,
    dst: Seq<(Seq<char>, TreeModel)>,
) -> bool
    decreases sub, 1int,
{
    let j = find_entry(dst, name);
    j != -1 && covers_node(sub, dst[j].1)
}

/// All of `src[i..]` are present, and covered, in `dst`.
pub open spec fn covers_entries(
    src: Seq<(Seq<char>, TreeModel)>,
    i: int,
    dst: Seq<(Seq<char>, TreeModel)>,
) -> bool
    decreases src, src.len() - i + 2,
{
    if i < 0 || i >= src.len() {
        true
    } else {
        proof {
            assert(decreases_to!(src => src[i]));
        }
        covers_one(src[i].0, src[i].1, dst) && covers_entries(src, i + 1, dst)
    }
}

/// `covers_entries` is the conjunction of `covers_one` over the range.
pub proof fn lemma_covers_entries_iff(
    src: Seq<(Seq<char>, TreeModel)>,
    i: int,
    dst: Seq<(Seq<char>, TreeModel)>,
)
    requires
        0 <= i <= src.len(),
    ensures
        covers_entries(src, i, dst) <==> (forall|j: int|
            i <= j < src.len() ==> covers_one(#[trigger] src[j].0, src[j].1, dst)),
    decreases src.len() - i,
{
    if i < src.len() {
        lemma_covers_entries_iff(src, i + 1, dst);
    }
}

/// A well-formed node covers itself.
pub proof fn lemma_covers_node_refl(s: TreeModel)
    requires
        wf_node(s),
    ensures
        covers_node(s, s),
    decreases s, 0int,
{
    match s {
        TreeModel::File { .. } => {}
        TreeModel::Dir { entries } => {
            lemma_covers_entries_refl(entries, 0);
        }
    }
}

/// A list whose names are distinct and whose subtrees are well-formed
/// covers its own tail.
pub proof fn lemma_covers_entries_refl(es: Seq<(Seq<char>, TreeModel)>, i: int)
    requires
        0 <= i <= es.len(),
        names_distinct(es),
        wf_entries(es, i),
    ensures
        covers_entries(es, i, es),
    decreases es, es.len() - i + 1,
{
    if i < es.len() {
        let name = es[i].0;
        lemma_find_entry(es, name);
        let j = find_entry(es, name);
        assert(has_name(es, name));
        assert(j == i);
        assert(decreases_to!(es => es[i]));
        assert(decreases_to!(es[i] => es[i].1));
        assert(wf_node(es[i].1));
        lemma_covers_node_refl(es[i].1);
        assert(covers_node(es[i].1, es[i].1));
        assert(covers_one(es[i].0, es[i].1, es));
        lemma_covers_entries_refl(es, i + 1);
        assert(covers_entries(es, i, es));
    }
}

/// `find_entry` looks only at names, position by position: extending a list
/// whose prefix carries the same names does not move a hit.
pub proof fn lemma_find_entry_prefix(
    a: Seq<(Seq<char>, TreeModel)>,
    b: Seq<(Seq<char>, TreeModel)>,
    name: Seq<char>,
)
    requires
        a.len() <= b.len(),
        forall|k: int| 0 <= k < a.len() ==> (#[trigger] a[k]).0 == b[k].0,
    ensures
        find_entry(a, name) != -1 ==> find_entry(b, name) == find_entry(a, name),
{
    lemma_find_entry(a, name);
    lemma_find_entry(b, name);
    let fa = find_entry(a, name);
    let fb = find_entry(b, name);
    if fa != -1 {
        assert(b[fa].0 == name);
        assert(has_name(b, name));
        if fb < fa {
            assert(a[fb].0 == b[fb].0);
            assert(false);
        }
        if fb > fa {
            assert(false);
        }
    }
}

/// Merging a source that the destination already covers, with force, is a
/// no-op: the destination is unchanged and nothing is skipped.
pub proof fn lemma_merge_force_noop(
    src: Seq<(Seq<char>, TreeModel)>,
    i: int,
    dst: Seq<(Seq<char>, TreeModel)>,
    prefix: Seq<char>,
)
    requires
        0 <= i <= src.len(),
        covers_entries(src, i, dst),
    ensures
        merge_entries(src, i, dst, true, prefix) == (MergeOut {
            ok: true,
            entries: dst,
            skipped: Seq::<Seq<char>>::empty(),
        }),
    decreases src, src.len() - i,
{
    let out = merge_entries(src, i, dst, true, prefix);
    if i >= src.len() {
        assert(out.skipped =~= Seq::<Seq<char>>::empty());
    } else {
        let name = src[i].0;
        let sub = src[i].1;
        lemma_find_entry(dst, name);
        let j = find_entry(dst, name);
        assert(covers_one(name, sub, dst));
        assert(j != -1);
        assert(dst[j].0 == name);
        let step = merge_one(name, sub, dst, true, prefix);
        match sub {
            TreeModel::File { .. } => {
                assert(dst[j].1 == sub);
                assert((name, sub) == dst[j]);
                assert(dst.update(j, (name, sub)) =~= dst);
            }
            TreeModel::Dir { entries: s_es } => {
                assert(covers_node(sub, dst[j].1));
                assert(dst[j].1 is Dir);
                assert(decreases_to!(src => src[i]));
                assert(decreases_to!(src[i] => src[i].1));
                assert(decreases_to!(src[i].1 => s_es));
                lemma_merge_force_noop(s_es, 0, dst[j].1->entries, prefix + name + seq!['/']);
                assert(dst[j].1 == (TreeModel::Dir { entries: dst[j].1->entries }));
                assert((name, TreeModel::Dir { entries: dst[j].1->entries }) == dst[j]);
                assert(dst.update(j, (name, TreeModel::Dir { entries: dst[j].1->entries })) =~= dst);
            }
        }
        assert(step.ok && step.entries == dst && step.skipped == Seq::<Seq<char>>::empty());
        lemma_merge_force_noop(src, i + 1, dst, prefix);
        assert(out.skipped =~= Seq::<Seq<char>>::empty());
    }
}

/// A successful merge with force covers every processed source entry and
/// touches nothing else: destination names keep their positions, and
/// destination entries whose names the source does not mention are
/// unchanged.
pub proof fn lemma_merge_force_covers(
    src: Seq<(Seq<char>, TreeModel)>,
    i: int,
    dst: Seq<(Seq<char>, TreeModel)>,
    prefix: Seq<char>,
)
    requires
        0 <= i <= src.len(),
        names_distinct(src),
        wf_entries(src, i),
    ensures
        ({
            let out = merge_entries(src, i, dst, true, prefix);
            out.ok ==> out.entries.len() >= dst.len() && (forall|k: int|
                0 <= k < dst.len() ==> (#[trigger] out.entries[k]).0 == dst[k].0) && (forall|
                k: int,
            |
                0 <= k < dst.len() && !name_in_range(src, i, src.len() as int, dst[k].0)
                    ==> out.entries[k] == dst[k]) && (forall|j: int|
                i <= j < src.len() ==> covers_one(#[trigger] src[j].0, src[j].1, out.entries))
        }),
    decreases src, src.len() - i,
{
    let out = merge_entries(src, i, dst, true, prefix);
    if i >= src.len() || !out.ok {
    } else {
        let name = src[i].0;
        let sub = src[i].1;
        lemma_find_entry(dst, name);
        let j = find_entry(dst, name);
        let step = merge_one(name, sub, dst, true, prefix);
        assert(step.ok);
        let d1 = step.entries;
        // no later source entry bears this name
        assert forall|jj: int| i < jj < src.len() implies src[jj].0 != name by {
            assert(0 <= i < jj < src.len());
        }
        assert(!name_in_range(src, i + 1, src.len() as int, name));
        // the step covers src[i] and preserves names and other entries
        if j == -1 {
            assert(d1 == dst.push((name, sub)));
            lemma_find_entry(d1, name);
            let f1 = find_entry(d1, name);
            assert(d1[dst.len() as int].0 == name);
            assert(has_name(d1, name));
            assert(f1 != -1);
            if f1 < dst.len() {
                assert(d1[f1] == dst[f1]);
                assert(has_name(dst, name));
                assert(false);
            }
            assert(f1 == dst.len());
            lemma_covers_node_refl(sub);
            assert(covers_one(name, sub, d1));
            assert(forall|k: int| 0 <= k < dst.len() ==> #[trigger] d1[k] == dst[k]);
        } else {
            assert(dst[j].0 == name);
            if sub is File && dst[j].1 is File {
                assert(d1 == dst.update(j, (name, sub)));
                lemma_covers_node_refl(sub);
                assert(forall|k: int| 0 <= k < dst.len() ==> (#[trigger] d1[k]).0 == dst[k].0);
                lemma_find_entry_prefix(dst, d1, name);
                assert(find_entry(d1, name) == j);
                assert(d1[j].1 == sub);
                assert(covers_one(name, sub, d1));
            } else {
                assert(sub is Dir && dst[j].1 is Dir);
                let s_es = sub->entries;
                let d_es = dst[j].1->entries;
                let inner = merge_entries(s_es, 0, d_es, true, prefix + name + seq!['/']);
                assert(inner.ok);
                assert(decreases_to!(src => src[i]));
                assert(decreases_to!(src[i] => src[i].1));
                assert(decreases_to!(src[i].1 => s_es));
                assert(wf_node(sub));
                assert(names_distinct(s_es) && wf_entries(s_es, 0));
                lemma_merge_force_covers(s_es, 0, d_es, prefix + name + seq!['/']);
                lemma_covers_entries_iff(s_es, 0, inner.entries);
                assert(covers_entries(s_es, 0, inner.entries));
                assert(covers_node(sub, TreeModel::Dir { entries: inner.entries }));
                assert(d1 == dst.update(j, (name, TreeModel::Dir { entries: inner.entries })));
                assert(forall|k: int| 0 <= k < dst.len() ==> (#[trigger] d1[k]).0 == dst[k].0);
                lemma_find_entry_prefix(dst, d1, name);
                assert(find_entry(d1, name) == j);
                assert(covers_one(name, sub, d1));
            }
            assert(forall|k: int| 0 <= k < dst.len() && k != j ==> #[trigger] d1[k] == dst[k]);
        }
        assert(d1.len() >= dst.len());
        assert(forall|k: int| 0 <= k < dst.len() ==> (#[trigger] d1[k]).0 == dst[k].0);
        lemma_merge_force_covers(src, i + 1, d1, prefix);
        let rest = merge_entries(src, i + 1, d1, true, prefix);
        assert(rest.ok && out.entries == rest.entries);
        // untouched entries: not mentioned from i on means not the current
        // name and not mentioned later
        assert forall|k: int|
            0 <= k < dst.len() && !name_in_range(src, i, src.len() as int, dst[k].0)
        implies #[trigger] out.entries[k] == dst[k] by {
            assert(src[i].0 == name);
            if dst[k].0 == name {
                assert(name_in_range(src, i, src.len() as int, dst[k].0));
            }
            if name_in_range(src, i + 1, src.len() as int, dst[k].0) {
                let w = choose|w: int|
                    i + 1 <= w < src.len() && src[w].0 == dst[k].0;
                assert(name_in_range(src, i, src.len() as int, dst[k].0));
            }
            assert(d1[k] == dst[k]);
            assert(out.entries[k] == d1[k]);
        }
        // src[i] stays covered through the rest of the merge
        assert(covers_one(name, sub, d1));
        lemma_find_entry(d1, name);
        let f = find_entry(d1, name);
        assert(f != -1 && 0 <= f < d1.len() && d1[f].0 == name);
        lemma_find_entry_prefix(d1, out.entries, name);
        assert(find_entry(out.entries, name) == f);
        assert(!name_in_range(src, i + 1, src.len() as int, d1[f].0));
        assert(out.entries[f] == d1[f]);
        assert(covers_one(name, sub, out.entries));
    }
}

/// Ejecting twice with force is idempotent: when the first merge succeeds,
/// the second returns the same tree and skips nothing.
pub proof fn lemma_eject_idempotent_with_force(
    src: Seq<(Seq<char>, TreeModel)>,
    dst: Seq<(Seq<char>, TreeModel)>,
    prefix: Seq<char>,
)
    requires
        names_distinct(src),
        wf_entries(src, 0),
    ensures
        ({
            let once = merge_entries(src, 0, dst, true, prefix);
            once.ok ==> merge_entries(src, 0, once.entries, true, prefix) == (MergeOut {
                ok: true,
                entries: once.entries,
                skipped: Seq::<Seq<char>>::empty(),
            })
        }),
{
    let once = merge_entries(src, 0, dst, true, prefix);
    if once.ok {
        lemma_merge_force_covers(src, 0, dst, prefix);
        lemma_covers_entries_iff(src, 0, once.entries);
        lemma_merge_force_noop(src, 0, once.entries, prefix);
    }
}

/// Running a platform eject twice is idempotent: feeding the tree a
/// successful run produced back in as the destination yields the same tree
/// again, and with force set the second run skips nothing.
pub proof fn lemma_platform_plan_idempotent(
    src: Option<TreeModel>,
    dst: Option<TreeModel>,
    force: bool,
    prefix: Seq<char>,
)
    requires
        match src {
            Option::Some(s) => wf_node(s),
            Option::None => true,
        },
    ensures
        ({
            let first = platform_plan(src, dst, force, prefix);
            first matches Result::Ok(out) ==> (platform_plan(
                src,
                Option::Some(TreeModel::Dir { entries: out.entries }),
                force,
                prefix,
            ) matches Result::Ok(again) && again.entries == out.entries && (force
                ==> again.skipped == Seq::<Seq<char>>::empty()))
        }),
{
    let first = platform_plan(src, dst, force, prefix);
    if first is Ok {
        let s = src->0;
        let d_es = match dst {
            Option::Some(d) => d->entries,
            Option::None => Seq::<(Seq<char>, TreeModel)>::empty(),
        };
        if force {
            lemma_merge_force_covers(s->entries, 0, d_es, prefix);
            let once = merge_entries(s->entries, 0, d_es, true, prefix);
            lemma_covers_entries_iff(s->entries, 0, once.entries);
            lemma_merge_force_noop(s->entries, 0, once.entries, prefix);
        } else {
            lemma_eject_idempotent_without_force(s->entries, d_es, prefix);
        }
    }
}

/// Running a whole ejection twice is idempotent: feeding the trees a
/// successful run produced back in as the destination yields the same trees
/// again, and with force set the second run skips nothing.
pub proof fn lemma_eject_model_idempotent(
    android: bool,
    ios: bool,
    force: bool,
    src_a: Option<TreeModel>,
    src_i: Option<TreeModel>,
    dst_a: Option<TreeModel>,
    dst_i: Option<TreeModel>,
)
    requires
        match src_a {
            Option::Some(s) => wf_node(s),
            Option::None => true,
        },
        match src_i {
            Option::Some(s) => wf_node(s),
            Option::None => true,
        },
    ensures
        ({
            let first = eject_model(android, ios, force, src_a, src_i, dst_a, dst_i);
            first matches Result::Ok(out) ==> (eject_model(
                android,
                ios,
                force,
                src_a,
                src_i,
                out.0,
                out.1,
            ) matches Result::Ok(again) && again.0 == out.0 && again.1 == out.1 && (force
                ==> again.2 == Seq::<Seq<char>>::empty()))
        }),
{
    let first = eject_model(android, ios, force, src_a, src_i, dst_a, dst_i);
    if first is Ok {
        if android {
            lemma_platform_plan_idempotent(src_a, dst_a, force, "android/"@);
        }
        if ios {
            lemma_platform_plan_idempotent(src_i, dst_i, force, "ios/"@);
        }
        let out = first->Ok_0;
        let again = eject_model(android, ios, force, src_a, src_i, out.0, out.1);
        if force {
            assert(again->Ok_0.2 =~= Seq::<Seq<char>>::empty());
        }
    }
}

} // verus!
