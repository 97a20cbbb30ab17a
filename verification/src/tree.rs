use vstd::prelude::*;

verus! {

/// A file-system tree held in memory: either a file with its byte contents,
/// or a directory with named entries.
///
/// The surrounding program reads a real directory into a value of this type
/// and materializes a value of this type back onto disk; the library itself
/// never touches the file system.
#[derive(Debug)]
pub enum FsTree {
    File { data: Vec<u8> },
    Dir { entries: Vec<(String, FsTree)> },
}

/// The mathematical model of a tree: file contents as byte sequences and
/// directory entries as an ordered sequence of (name, subtree) pairs.
pub enum TreeModel {
    File { data: Seq<u8> },
    Dir { entries: Seq<(Seq<char>, TreeModel)> },
}

/// The model of one directory entry.
pub open spec fn entry_model(e: (String, FsTree)) -> (Seq<char>, TreeModel)
    decreases e,
{
    (e.0@, tree_model(e.1))
}

/// The model of one directory-entry list.
pub open spec fn entries_model(es: Seq<(String, FsTree)>) -> Seq<(Seq<char>, TreeModel)>
    decreases es,
{
    if es.len() == 0 {
        Seq::empty()
    } else {
        seq![entry_model(es[0])] + entries_model(es.subrange(1, es.len() as int))
    }
}

/// `entries_model` maps the list pointwise.
pub proof fn lemma_entries_model(es: Seq<(String, FsTree)>)
    ensures
        entries_model(es).len() == es.len(),
        forall|i: int| 0 <= i < es.len() ==> entries_model(es)[i] == entry_model(es[i]),
    decreases es.len(),
{
    if es.len() > 0 {
        lemma_entries_model(es.subrange(1, es.len() as int));
    }
}

/// The model of a tree.
pub open spec fn tree_model(t: FsTree) -> TreeModel
    decreases t,
{
    match t {
        FsTree::File { data } => TreeModel::File { data: data@ },
        FsTree::Dir { entries } => TreeModel::Dir { entries: entries_model(entries@) },
    }
}

impl View for FsTree {
    type V = TreeModel;

    open spec fn view(&self) -> TreeModel {
        tree_model(*self)
    }
}

/// Two entry lists with pointwise equal models have equal models.
pub proof fn lemma_entries_model_pointwise(a: Seq<(String, FsTree)>, b: Seq<(String, FsTree)>)
    requires
        a.len() == b.len(),
        forall|i: int| 0 <= i < a.len() ==> #[trigger] entry_model(a[i]) == entry_model(b[i]),
    ensures
        entries_model(a) == entries_model(b),
{
    lemma_entries_model(a);
    lemma_entries_model(b);
    assert(entries_model(a) =~= entries_model(b));
}

/// `entries_model` distributes over `push`.
pub proof fn lemma_entries_model_push(es: Seq<(String, FsTree)>, e: (String, FsTree))
    ensures
        entries_model(es.push(e)) == entries_model(es).push(entry_model(e)),
{
    lemma_entries_model(es.push(e));
    lemma_entries_model(es);
    assert(entries_model(es.push(e)) =~= entries_model(es).push(entry_model(e)));
}

/// `entries_model` distributes over `update`.
pub proof fn lemma_entries_model_update(es: Seq<(String, FsTree)>, j: int, e: (String, FsTree))
    requires
        0 <= j < es.len(),
    ensures
        entries_model(es.update(j, e)) == entries_model(es).update(j, entry_model(e)),
{
    lemma_entries_model(es.update(j, e));
    lemma_entries_model(es);
    assert(entries_model(es.update(j, e)) =~= entries_model(es).update(j, entry_model(e)));
}

/// Copy the bytes of a file.
pub fn clone_bytes(data: &Vec<u8>) -> (r: Vec<u8>)
    ensures
        r@ == data@,
{
    let mut r: Vec<u8> = Vec::new();
    let mut k: usize = 0;
    while k < data.len()
        invariant
            k <= data.len(),
            r@ == data@.subrange(0, k as int),
        decreases data.len() - k,
    {
        r.push(data[k]);
        assert(r@ =~= data@.subrange(0, k + 1 as int));
        k = k + 1;
    }
    assert(r@ =~= data@);
    r
}

impl FsTree {
    /// Whether this node is a directory.
    pub fn is_dir(&self) -> (b: bool)
        ensures
            b == (self@ is Dir),
    {
        match self {
            FsTree::File { .. } => false,
            FsTree::Dir { .. } => true,
        }
    }

    /// A deep copy of the tree.
    pub fn duplicate(&self) -> (r: FsTree)
        ensures
            r@ == self@,
        decreases *self,
    {
        match self {
            FsTree::File { data } => FsTree::File { data: clone_bytes(data) },
            FsTree::Dir { entries } => {
                proof {
                    assert(decreases_to!(*self => *entries));
                    assert(decreases_to!(*entries => entries@));
                }
                let copied = duplicate_entries(entries);
                proof {
                    lemma_entries_model_pointwise(copied@, entries@);
                }
                FsTree::Dir { entries: copied }
            }
        }
    }
}

/// A deep copy of a directory-entry list.
pub fn duplicate_entries(es: &Vec<(String, FsTree)>) -> (r: Vec<(String, FsTree)>)
    ensures
        r@.len() == es@.len(),
        forall|i: int| 0 <= i < es@.len() ==> #[trigger] entry_model(r@[i]) == entry_model(es@[i]),
    decreases es@,
{
    let mut r: Vec<(String, FsTree)> = Vec::new();
    let mut k: usize = 0;
    while k < es.len()
        invariant
            k <= es@.len(),
            r@.len() == k,
            forall|i: int| 0 <= i < k ==> #[trigger] entry_model(r@[i]) == entry_model(es@[i]),
        decreases es@.len() - k,
    {
        let e = &es[k];
        proof {
            assert(decreases_to!(es@ => es@[k as int]));
            assert(decreases_to!(es@[k as int] => es@[k as int].1));
        }
        let copied = e.1.duplicate();
        r.push((e.0.clone(), copied));
        k = k + 1;
    }
    r
}

} // verus!
