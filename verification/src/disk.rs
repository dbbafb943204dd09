//! What was found on disk: folders with their entries, and archives with their
//! members, as read before any rule is applied.
use crate::error::{ErrorModel, LocalError};
use crate::natural::{natural_key, natural_key_of_text};
use crate::order::{
    index_views, ints, key_views, lemma_stable_order, reordered, sort_indices, sorted_by, stable_order,
};
use crate::path::LocalPath;
use crate::text::chars_of;
use vstd::prelude::*;

verus! {

/// What was found at a path: what it is, and what came of reading it as a folder
/// and as an archive.
#[derive(Debug)]
pub struct FsEntry {
    pub path: LocalPath,
    pub kind: FsKind,
    pub listing: DirListing,
    pub members: ArchiveListing,
}

#[derive(Clone, Copy, PartialEq, Eq, Structural, Debug)]
pub enum FsKind {
    Directory,
    /// A regular file and its size.
    File(u64),
    /// Neither a folder nor a regular file.
    Other,
    /// Nothing, as behind a broken link.
    Missing,
}

/// The entries of a folder, in any order, or the message of the system where
/// there is no folder that can be read.
#[derive(Debug)]
pub enum DirListing {
    Entries(Vec<FsEntry>),
    Unreadable(String),
}

/// The members of an archive, in the order in which it stores them, or the
/// message of the reader where there is no archive that can be read.
#[derive(Debug)]
pub enum ArchiveListing {
    Members(Vec<ArchiveMember>),
    Unreadable(String),
}

#[derive(Debug)]
pub struct ArchiveMember {
    pub name: String,
    pub is_directory: bool,
}

/// How many folders lie within each other in `e`.
pub open spec fn depth(e: FsEntry) -> nat
    decreases e, 0nat,
{
    match e.listing {
        DirListing::Entries(v) => 1 + max_depth(v@, v@.len()),
        DirListing::Unreadable(_) => 0,
    }
}

pub open spec fn max_depth(v: Seq<FsEntry>, n: nat) -> nat
    decreases v, n,
{
    if n == 0 || n > v.len() {
        0
    } else {
        let rest = max_depth(v, (n - 1) as nat);
        let last = depth(v[n - 1]);
        if last > rest {
            last
        } else {
            rest
        }
    }
}

proof fn lemma_max_depth(v: Seq<FsEntry>, n: nat, i: int)
    requires
        0 <= i < n <= v.len(),
    ensures
        depth(v[i]) <= max_depth(v, n),
    decreases n,
{
    if i < n - 1 {
        lemma_max_depth(v, (n - 1) as nat, i);
    }
}

/// Whether an entry is listed: hidden ones, whose names start with a dot, are
/// not.
pub open spec fn is_visible(e: FsEntry) -> bool {
    !(e.path@.name_is_text && e.path@.name.len() > 0 && e.path@.name[0] == '.')
}

pub open spec fn visible_entries(v: Seq<FsEntry>) -> Seq<FsEntry> {
    v.filter(|e: FsEntry| is_visible(e))
}

pub open spec fn name_keys(v: Seq<FsEntry>) -> Seq<Seq<int>> {
    Seq::new(v.len(), |i: int| natural_key(v[i].path@.name))
}

pub open spec fn path_keys(v: Seq<FsEntry>) -> Seq<Seq<int>> {
    Seq::new(v.len(), |i: int| natural_key(v[i].path@.text))
}

/// The visible entries in natural order of their names.
pub open spec fn sorted_entries(v: Seq<FsEntry>) -> Seq<FsEntry> {
    sorted_by(visible_entries(v), name_keys(visible_entries(v)))
}

/// The entries of a folder as they are listed, or why it could not be read.
pub open spec fn listing(e: FsEntry) -> Result<Seq<FsEntry>, ErrorModel> {
    match e.listing {
        DirListing::Entries(v) => Ok(sorted_entries(v@)),
        DirListing::Unreadable(message) => Err(ErrorModel::Io(message@)),
    }
}

/// What is listed of a folder was found in it, and lies less deep.
pub proof fn lemma_listing(e: FsEntry)
    ensures
        listing(e) matches Ok(l) ==> forall|i: int|
            0 <= i < l.len() ==> depth(#[trigger] l[i]) < depth(e) && is_visible(l[i]),
{
    if let DirListing::Entries(v) = e.listing {
        let pred = |e: FsEntry| is_visible(e);
        let w = visible_entries(v@);
        let l = sorted_entries(v@);
        let order = stable_order(name_keys(w));
        lemma_stable_order(name_keys(w), w.len());
        assert forall|i: int| 0 <= i < l.len() implies depth(#[trigger] l[i]) < depth(e)
            && is_visible(l[i]) by {
            assert(0 <= order[i] < w.len());
            assert(l[i] == w[order[i]]);
            assert(w.contains(l[i]));
            v@.lemma_filter_contains_rev(pred, l[i]);
            v@.lemma_filter_pred(pred, order[i]);
            let j = choose|j: int| 0 <= j < v@.len() && v@[j] == l[i];
            lemma_max_depth(v@, v@.len(), j);
        }
    }
}

pub open spec fn refs(v: Seq<&FsEntry>) -> Seq<FsEntry> {
    Seq::new(v.len(), |i: int| *v[i])
}

/// `v` in the given order.
fn reorder<'a>(v: &Vec<&'a FsEntry>, order: &Vec<usize>) -> (r: Vec<&'a FsEntry>)
    requires
        order.len() == v.len(),
        forall|i: int| 0 <= i < order.len() ==> #[trigger] order@[i] < v.len(),
    ensures
        refs(r@) == reordered(refs(v@), index_views(order@)),
{
    let mut r: Vec<&'a FsEntry> = Vec::new();
    let mut i: usize = 0;
    while i < order.len()
        invariant
            i <= order.len(),
            order.len() == v.len(),
            forall|k: int| 0 <= k < order.len() ==> #[trigger] order@[k] < v.len(),
            refs(r@) == reordered(refs(v@), index_views(order@)).take(i as int),
        decreases order.len() - i,
    {
        let ghost before = refs(r@);
        r.push(v[order[i]]);
        assert(refs(r@) == before.push(*v@[order@[i as int] as int]));
        i += 1;
    }
    assert(reordered(refs(v@), index_views(order@)).take(i as int) == reordered(
        refs(v@),
        index_views(order@),
    ));
    r
}

/// `v` in natural order of the whole paths.
pub fn sort_by_path<'a>(v: Vec<&'a FsEntry>) -> (r: Vec<&'a FsEntry>)
    ensures
        refs(r@) == sorted_by(refs(v@), path_keys(refs(v@))),
{
    let mut keys: Vec<Vec<u128>> = Vec::new();
    let mut i: usize = 0;
    while i < v.len()
        invariant
            i <= v.len(),
            key_views(keys@) == path_keys(refs(v@)).take(i as int),
        decreases v.len() - i,
    {
        let ghost before = key_views(keys@);
        let key: Vec<u128> = natural_key_of_text(v[i].path.text.as_str());
        keys.push(key);
        assert(key_views(keys@) == before.push(ints(key@)));
        i += 1;
    }
    assert(path_keys(refs(v@)).take(i as int) == path_keys(refs(v@)));
    reorder(&v, &sort_indices(&keys))
}

/// `v` in natural order of the names.
fn sort_by_name<'a>(v: Vec<&'a FsEntry>) -> (r: Vec<&'a FsEntry>)
    ensures
        refs(r@) == sorted_by(refs(v@), name_keys(refs(v@))),
{
    let mut keys: Vec<Vec<u128>> = Vec::new();
    let mut i: usize = 0;
    while i < v.len()
        invariant
            i <= v.len(),
            key_views(keys@) == name_keys(refs(v@)).take(i as int),
        decreases v.len() - i,
    {
        let ghost before = key_views(keys@);
        let key: Vec<u128> = natural_key_of_text(v[i].path.name.as_str());
        keys.push(key);
        assert(key_views(keys@) == before.push(ints(key@)));
        i += 1;
    }
    assert(name_keys(refs(v@)).take(i as int) == name_keys(refs(v@)));
    reorder(&v, &sort_indices(&keys))
}

/// Whether `e` is listed.
fn visible(e: &FsEntry) -> (r: bool)
    ensures
        r == is_visible(*e),
{
    if !e.path.name_is_text {
        return true;
    }
    let chars: Vec<char> = chars_of(e.path.name.as_str());
    !(chars.len() > 0 && chars[0] == '.')
}

/// The entries of a folder as they are listed.
pub fn sorted_dir_entries<'a>(e: &'a FsEntry) -> (r: Result<Vec<&'a FsEntry>, LocalError>)
    ensures
        match r {
            Ok(v) => listing(*e) == Ok::<Seq<FsEntry>, ErrorModel>(refs(v@)),
            Err(error) => listing(*e) == Err::<Seq<FsEntry>, ErrorModel>(error@),
        },
{
    match &e.listing {
        DirListing::Entries(entries) => {
            let mut kept: Vec<&'a FsEntry> = Vec::new();
            let mut i: usize = 0;
            while i < entries.len()
                invariant
                    i <= entries.len(),
                    refs(kept@) == visible_entries(entries@.take(i as int)),
                decreases entries.len() - i,
            {
                let ghost before = refs(kept@);
                proof {
                    reveal(Seq::filter);
                    assert(entries@.take(i + 1).drop_last() == entries@.take(i as int));
                }
                if visible(&entries[i]) {
                    kept.push(&entries[i]);
                    assert(refs(kept@) == before.push(entries@[i as int]));
                }
                i += 1;
            }
            proof {
                reveal(Seq::filter);
            }
            assert(entries@.take(i as int) == entries@);
            Ok(sort_by_name(kept))
        },
        DirListing::Unreadable(message) => Err(LocalError::Io(message.clone())),
    }
}

} // verus!
