//! Reading mangas out of folders and archives.
use crate::disk::{
    depth, lemma_listing, listing, max_depth, path_keys, refs, sort_by_path, sorted_dir_entries, FsEntry, FsKind,
};
use crate::error::{ErrorModel, LocalError};
use crate::formats::{is_archive, is_image, is_supported_archive, is_supported_image_path};
use crate::numbering::{looks_like_volume_path, names_volume, title_of};
use crate::order::sorted_by;
use vstd::prelude::*;

verus! {

pub open spec fn is_dir(e: FsEntry) -> bool {
    e.kind is Directory
}

pub open spec fn is_file(e: FsEntry) -> bool {
    e.kind is File
}

/// The size of a regular file, zero for anything else.
pub open spec fn size_of_entry(e: FsEntry) -> u64 {
    match e.kind {
        FsKind::File(bytes) => bytes,
        _ => 0,
    }
}

impl FsEntry {
    pub fn is_dir(&self) -> (r: bool)
        ensures
            r == is_dir(*self),
    {
        match self.kind {
            FsKind::Directory => true,
            _ => false,
        }
    }

    pub fn is_file(&self) -> (r: bool)
        ensures
            r == is_file(*self),
    {
        match self.kind {
            FsKind::File(_) => true,
            _ => false,
        }
    }

    /// The size of a regular file, zero for anything else.
    pub fn file_size(&self) -> (r: u64)
        ensures
            r == size_of_entry(*self),
    {
        match self.kind {
            FsKind::File(bytes) => bytes,
            _ => 0,
        }
    }
}

pub open spec fn entries_view(r: Result<Vec<&FsEntry>, LocalError>) -> Result<Seq<FsEntry>, ErrorModel> {
    match r {
        Ok(v) => Ok(refs(v@)),
        Err(e) => Err(e@),
    }
}

/// The images among the listed files.
pub open spec fn image_files(l: Seq<FsEntry>) -> Seq<FsEntry> {
    l.filter(|e: FsEntry| is_file(e) && is_image(e.path@))
}

/// The archives among the listed files.
pub open spec fn archive_files(l: Seq<FsEntry>) -> Seq<FsEntry> {
    l.filter(|e: FsEntry| is_file(e) && is_archive(e.path@))
}

/// The images directly in a folder.
pub open spec fn images_shallow(e: FsEntry) -> Result<Seq<FsEntry>, ErrorModel> {
    match listing(e) {
        Ok(l) => Ok(image_files(l)),
        Err(x) => Err(x),
    }
}

/// The archives directly in a folder.
pub open spec fn archives_shallow(e: FsEntry) -> Result<Seq<FsEntry>, ErrorModel> {
    match listing(e) {
        Ok(l) => Ok(archive_files(l)),
        Err(x) => Err(x),
    }
}

/// The images directly in a folder, as they are listed.
pub fn collect_images_shallow<'a>(e: &'a FsEntry) -> (r: Result<Vec<&'a FsEntry>, LocalError>)
    ensures
        entries_view(r) == images_shallow(*e),
{
    let l: Vec<&'a FsEntry> = match sorted_dir_entries(e) {
        Ok(l) => l,
        Err(x) => {
            return Err(x);
        },
    };
    let mut r: Vec<&'a FsEntry> = Vec::new();
    let mut i: usize = 0;
    while i < l.len()
        invariant
            i <= l.len(),
            refs(r@) == image_files(refs(l@).take(i as int)),
        decreases l.len() - i,
    {
        let ghost before = refs(r@);
        proof {
            reveal(Seq::filter);
            assert(refs(l@).take(i + 1).drop_last() == refs(l@).take(i as int));
        }
        if l[i].is_file() && is_supported_image_path(&l[i].path) {
            r.push(l[i]);
            assert(refs(r@) == before.push(*l@[i as int]));
        }
        i += 1;
    }
    proof {
        reveal(Seq::filter);
    }
    assert(refs(l@).take(i as int) == refs(l@));
    Ok(r)
}

/// The archives directly in a folder, as they are listed.
pub fn collect_archives_shallow<'a>(e: &'a FsEntry) -> (r: Result<Vec<&'a FsEntry>, LocalError>)
    ensures
        entries_view(r) == archives_shallow(*e),
{
    let l: Vec<&'a FsEntry> = match sorted_dir_entries(e) {
        Ok(l) => l,
        Err(x) => {
            return Err(x);
        },
    };
    let mut r: Vec<&'a FsEntry> = Vec::new();
    let mut i: usize = 0;
    while i < l.len()
        invariant
            i <= l.len(),
            refs(r@) == archive_files(refs(l@).take(i as int)),
        decreases l.len() - i,
    {
        let ghost before = refs(r@);
        proof {
            reveal(Seq::filter);
            assert(refs(l@).take(i + 1).drop_last() == refs(l@).take(i as int));
        }
        if l[i].is_file() && is_supported_archive(&l[i].path) {
            r.push(l[i]);
            assert(refs(r@) == before.push(*l@[i as int]));
        }
        i += 1;
    }
    proof {
        reveal(Seq::filter);
    }
    assert(refs(l@).take(i as int) == refs(l@));
    Ok(r)
}

/// Those of the first `n` entries that are folders of one chapter: folders
/// that hold images and are not named like a volume.
pub open spec fn chapter_dirs(l: Seq<FsEntry>, n: nat) -> Result<Seq<FsEntry>, ErrorModel>
    decreases n,
{
    if n == 0 || n > l.len() {
        Ok(Seq::empty())
    } else {
        let e = l[n - 1];
        match chapter_dirs(l, (n - 1) as nat) {
            Err(x) => Err(x),
            Ok(dirs) => if is_dir(e) && !names_volume(title_of(e.path@)) {
                match images_shallow(e) {
                    Err(x) => Err(x),
                    Ok(images) => Ok(
                        if images.len() > 0 {
                            dirs.push(e)
                        } else {
                            dirs
                        },
                    ),
                }
            } else {
                Ok(dirs)
            },
        }
    }
}

/// The folders of one chapter that are directly in a folder.
pub open spec fn chapter_dirs_in(e: FsEntry) -> Result<Seq<FsEntry>, ErrorModel> {
    match listing(e) {
        Ok(l) => chapter_dirs(l, l.len()),
        Err(x) => Err(x),
    }
}

/// The first error among the first `n` entries is that among all of them.
proof fn lemma_chapter_dirs_error(l: Seq<FsEntry>, n: nat, m: nat)
    requires
        n <= m <= l.len(),
        chapter_dirs(l, n) is Err,
    ensures
        chapter_dirs(l, m) == chapter_dirs(l, n),
    decreases m,
{
    if n < m {
        lemma_chapter_dirs_error(l, n, (m - 1) as nat);
    }
}

pub fn collect_chapter_dirs<'a>(e: &'a FsEntry) -> (r: Result<Vec<&'a FsEntry>, LocalError>)
    ensures
        entries_view(r) == chapter_dirs_in(*e),
{
    let l: Vec<&'a FsEntry> = match sorted_dir_entries(e) {
        Ok(l) => l,
        Err(x) => {
            return Err(x);
        },
    };
    let ghost list = refs(l@);
    let mut r: Vec<&'a FsEntry> = Vec::new();
    assert(refs(r@) == Seq::<FsEntry>::empty());
    let mut i: usize = 0;
    while i < l.len()
        invariant
            i <= l.len(),
            list == refs(l@),
            listing(*e) == Ok::<Seq<FsEntry>, ErrorModel>(list),
            chapter_dirs(list, i as nat) == Ok::<Seq<FsEntry>, ErrorModel>(refs(r@)),
        decreases l.len() - i,
    {
        let ghost before = refs(r@);
        if l[i].is_dir() && !looks_like_volume_path(&l[i].path) {
            match collect_images_shallow(l[i]) {
                Err(x) => {
                    proof {
                        assert(chapter_dirs(list, (i + 1) as nat) == Err::<Seq<FsEntry>, ErrorModel>(x@));
                        lemma_chapter_dirs_error(list, (i + 1) as nat, list.len());
                    }
                    return Err(x);
                },
                Ok(images) => {
                    if images.len() > 0 {
                        r.push(l[i]);
                        assert(refs(r@) == before.push(*l@[i as int]));
                    }
                },
            }
        }
        i += 1;
    }
    Ok(r)
}

/// Those of the first `n` entries that are chapters: archives, and folders
/// that hold images.
pub open spec fn chapter_sources(l: Seq<FsEntry>, n: nat) -> Result<Seq<FsEntry>, ErrorModel>
    decreases n,
{
    if n == 0 || n > l.len() {
        Ok(Seq::empty())
    } else {
        let e = l[n - 1];
        match chapter_sources(l, (n - 1) as nat) {
            Err(x) => Err(x),
            Ok(sources) => if is_file(e) && is_archive(e.path@) {
                Ok(sources.push(e))
            } else if is_dir(e) {
                match images_shallow(e) {
                    Err(x) => Err(x),
                    Ok(images) => Ok(
                        if images.len() > 0 {
                            sources.push(e)
                        } else {
                            sources
                        },
                    ),
                }
            } else {
                Ok(sources)
            },
        }
    }
}

/// The chapters directly in a folder, in natural order of their paths.
pub open spec fn chapter_sources_in(e: FsEntry) -> Result<Seq<FsEntry>, ErrorModel> {
    match listing(e) {
        Ok(l) => match chapter_sources(l, l.len()) {
            Ok(sources) => Ok(sorted_by(sources, path_keys(sources))),
            Err(x) => Err(x),
        },
        Err(x) => Err(x),
    }
}

proof fn lemma_chapter_sources_error(l: Seq<FsEntry>, n: nat, m: nat)
    requires
        n <= m <= l.len(),
        chapter_sources(l, n) is Err,
    ensures
        chapter_sources(l, m) == chapter_sources(l, n),
    decreases m,
{
    if n < m {
        lemma_chapter_sources_error(l, n, (m - 1) as nat);
    }
}

pub fn collect_chapter_sources_shallow<'a>(e: &'a FsEntry) -> (r: Result<
    Vec<&'a FsEntry>,
    LocalError,
>)
    ensures
        entries_view(r) == chapter_sources_in(*e),
{
    let l: Vec<&'a FsEntry> = match sorted_dir_entries(e) {
        Ok(l) => l,
        Err(x) => {
            return Err(x);
        },
    };
    let ghost list = refs(l@);
    let mut r: Vec<&'a FsEntry> = Vec::new();
    assert(refs(r@) == Seq::<FsEntry>::empty());
    let mut i: usize = 0;
    while i < l.len()
        invariant
            i <= l.len(),
            list == refs(l@),
            listing(*e) == Ok::<Seq<FsEntry>, ErrorModel>(list),
            chapter_sources(list, i as nat) == Ok::<Seq<FsEntry>, ErrorModel>(refs(r@)),
        decreases l.len() - i,
    {
        let ghost before = refs(r@);
        if l[i].is_file() && is_supported_archive(&l[i].path) {
            r.push(l[i]);
            assert(refs(r@) == before.push(*l@[i as int]));
        } else if l[i].is_dir() {
            match collect_images_shallow(l[i]) {
                Err(x) => {
                    proof {
                        assert(chapter_sources(list, (i + 1) as nat) == Err::<Seq<FsEntry>, ErrorModel>(x@));
                        lemma_chapter_sources_error(list, (i + 1) as nat, list.len());
                    }
                    return Err(x);
                },
                Ok(images) => {
                    if images.len() > 0 {
                        r.push(l[i]);
                        assert(refs(r@) == before.push(*l@[i as int]));
                    }
                },
            }
        }
        i += 1;
    }
    Ok(sort_by_path(r))
}

/// Those of the first `n` entries that are folders of a volume: folders named
/// like one that hold chapters.
pub open spec fn volume_dirs(l: Seq<FsEntry>, n: nat) -> Result<Seq<FsEntry>, ErrorModel>
    decreases n,
{
    if n == 0 || n > l.len() {
        Ok(Seq::empty())
    } else {
        let e = l[n - 1];
        match volume_dirs(l, (n - 1) as nat) {
            Err(x) => Err(x),
            Ok(dirs) => if is_dir(e) && names_volume(title_of(e.path@)) {
                match chapter_sources_in(e) {
                    Err(x) => Err(x),
                    Ok(sources) => Ok(
                        if sources.len() > 0 {
                            dirs.push(e)
                        } else {
                            dirs
                        },
                    ),
                }
            } else {
                Ok(dirs)
            },
        }
    }
}

/// The folders of a volume that are directly in a folder.
pub open spec fn volume_dirs_in(e: FsEntry) -> Result<Seq<FsEntry>, ErrorModel> {
    match listing(e) {
        Ok(l) => volume_dirs(l, l.len()),
        Err(x) => Err(x),
    }
}

proof fn lemma_volume_dirs_error(l: Seq<FsEntry>, n: nat, m: nat)
    requires
        n <= m <= l.len(),
        volume_dirs(l, n) is Err,
    ensures
        volume_dirs(l, m) == volume_dirs(l, n),
    decreases m,
{
    if n < m {
        lemma_volume_dirs_error(l, n, (m - 1) as nat);
    }
}

pub fn collect_volume_dirs<'a>(e: &'a FsEntry) -> (r: Result<Vec<&'a FsEntry>, LocalError>)
    ensures
        entries_view(r) == volume_dirs_in(*e),
{
    let l: Vec<&'a FsEntry> = match sorted_dir_entries(e) {
        Ok(l) => l,
        Err(x) => {
            return Err(x);
        },
    };
    let ghost list = refs(l@);
    let mut r: Vec<&'a FsEntry> = Vec::new();
    assert(refs(r@) == Seq::<FsEntry>::empty());
    let mut i: usize = 0;
    while i < l.len()
        invariant
            i <= l.len(),
            list == refs(l@),
            listing(*e) == Ok::<Seq<FsEntry>, ErrorModel>(list),
            volume_dirs(list, i as nat) == Ok::<Seq<FsEntry>, ErrorModel>(refs(r@)),
        decreases l.len() - i,
    {
        let ghost before = refs(r@);
        if l[i].is_dir() && looks_like_volume_path(&l[i].path) {
            match collect_chapter_sources_shallow(l[i]) {
                Err(x) => {
                    proof {
                        assert(volume_dirs(list, (i + 1) as nat) == Err::<Seq<FsEntry>, ErrorModel>(x@));
                        lemma_volume_dirs_error(list, (i + 1) as nat, list.len());
                    }
                    return Err(x);
                },
                Ok(sources) => {
                    if sources.len() > 0 {
                        r.push(l[i]);
                        assert(refs(r@) == before.push(*l@[i as int]));
                    }
                },
            }
        }
        i += 1;
    }
    Ok(r)
}

/// The images among the listed entries that are no folders.
pub open spec fn images_listed(l: Seq<FsEntry>) -> Seq<FsEntry> {
    l.filter(|e: FsEntry| !is_dir(e) && is_image(e.path@))
}

proof fn lemma_max_depth_below(l: Seq<FsEntry>, n: nat, d: nat)
    requires
        0 < d,
        n <= l.len(),
        forall|i: int| 0 <= i < l.len() ==> depth(#[trigger] l[i]) < d,
    ensures
        max_depth(l, n) < d,
    decreases n,
{
    if n > 0 {
        lemma_max_depth_below(l, (n - 1) as nat, d);
    }
}

/// The entries that are listed of a folder lie less deep than it, all together.
pub proof fn lemma_listing_depth(e: FsEntry)
    ensures
        listing(e) matches Ok(l) ==> max_depth(l, l.len()) < depth(e),
{
    lemma_listing(e);
    if let Ok(l) = listing(e) {
        lemma_max_depth_below(l, l.len(), depth(e));
    }
}

/// The images in a folder and in the folders below it: its own first, then
/// those below its folders, the last folder first.
pub open spec fn images_below(e: FsEntry) -> Result<Seq<FsEntry>, ErrorModel>
    decreases depth(e), 0nat,
{
    match listing(e) {
        Err(x) => Err(x),
        Ok(l) => {
            proof {
                lemma_listing_depth(e);
            }
            match images_below_dirs(l, l.len()) {
                Err(x) => Err(x),
                Ok(rest) => Ok(images_listed(l) + rest),
            }
        },
    }
}

/// The images below those of the first `n` entries that are folders, the last
/// folder first.
pub open spec fn images_below_dirs(l: Seq<FsEntry>, n: nat) -> Result<Seq<FsEntry>, ErrorModel>
    decreases max_depth(l, n), n,
{
    if n == 0 || n > l.len() {
        Ok(Seq::empty())
    } else if is_dir(l[n - 1]) {
        match images_below(l[n - 1]) {
            Err(x) => Err(x),
            Ok(first) => match images_below_dirs(l, (n - 1) as nat) {
                Err(x) => Err(x),
                Ok(rest) => Ok(first + rest),
            },
        }
    } else {
        images_below_dirs(l, (n - 1) as nat)
    }
}

/// The images in a folder and below it, in natural order of their paths; none
/// where there is nothing at the path.
pub open spec fn images_recursive(e: FsEntry) -> Result<Seq<FsEntry>, ErrorModel> {
    if e.kind is Missing {
        Ok(Seq::empty())
    } else {
        match images_below(e) {
            Err(x) => Err(x),
            Ok(images) => Ok(sorted_by(images, path_keys(images))),
        }
    }
}

/// Adds the images in a folder and below it to `found`.
fn collect_images_below<'a>(e: &'a FsEntry, found: &mut Vec<&'a FsEntry>) -> (r: Result<
    (),
    LocalError,
>)
    ensures
        match r {
            Ok(_) => images_below(*e) matches Ok(images) && refs(final(found)@) == refs(old(found)@)
                + images,
            Err(x) => images_below(*e) == Err::<Seq<FsEntry>, ErrorModel>(x@),
        },
    decreases depth(*e),
{
    let l: Vec<&'a FsEntry> = match sorted_dir_entries(e) {
        Ok(l) => l,
        Err(x) => {
            return Err(x);
        },
    };
    let ghost list = refs(l@);
    let ghost start = refs(found@);
    let mut i: usize = 0;
    while i < l.len()
        invariant
            i <= l.len(),
            list == refs(l@),
            refs(found@) == start + images_listed(list.take(i as int)),
        decreases l.len() - i,
    {
        let ghost before = refs(found@);
        proof {
            reveal(Seq::filter);
            assert(list.take(i + 1).drop_last() == list.take(i as int));
        }
        if !l[i].is_dir() && is_supported_image_path(&l[i].path) {
            found.push(l[i]);
            assert(refs(found@) == before.push(*l@[i as int]));
        }
        i += 1;
    }
    proof {
        reveal(Seq::filter);
        assert(list.take(i as int) == list);
        lemma_listing(*e);
    }
    let ghost own = images_listed(list);
    let ghost mut added = Seq::<FsEntry>::empty();
    let mut n: usize = l.len();
    while n > 0
        invariant
            n <= l.len(),
            list == refs(l@),
            listing(*e) == Ok::<Seq<FsEntry>, ErrorModel>(list),
            forall|k: int| 0 <= k < list.len() ==> depth(#[trigger] list[k]) < depth(*e),
            refs(found@) == start + own + added,
            images_below_dirs(list, list.len()) == (match images_below_dirs(list, n as nat) {
                Err(x) => Err(x),
                Ok(rest) => Ok(added + rest),
            }),
        decreases n,
    {
        n -= 1;
        if l[n].is_dir() {
            let ghost before = added;
            assert(list[n as int] == *l@[n as int]);
            match collect_images_below(l[n], found) {
                Err(x) => {
                    return Err(x);
                },
                Ok(_) => {
                    proof {
                        let first = images_below(list[n as int])->Ok_0;
                        added = before + first;
                        assert(start + own + before + first == start + own + added);
                        if let Ok(rest) = images_below_dirs(list, n as nat) {
                            assert(before + (first + rest) == added + rest);
                        }
                    }
                },
            }
        }
    }
    assert(start + own + added == start + (own + added));
    assert(added + Seq::<FsEntry>::empty() == added);
    Ok(())
}

pub fn collect_images_recursive<'a>(e: &'a FsEntry) -> (r: Result<Vec<&'a FsEntry>, LocalError>)
    ensures
        entries_view(r) == images_recursive(*e),
{
    let mut found: Vec<&'a FsEntry> = Vec::new();
    if let FsKind::Missing = e.kind {
        assert(refs(found@) == Seq::<FsEntry>::empty());
        return Ok(found);
    }
    match collect_images_below(e, &mut found) {
        Err(x) => Err(x),
        Ok(_) => {
            assert(refs(found@) == images_below(*e)->Ok_0);
            Ok(sort_by_path(found))
        },
    }
}

} // verus!
