//! Which mangas and chapters the folders and archives of a library are.
use crate::chapters::{chapter_of, file_url_of};
use crate::disk::{depth, listing, max_depth, path_keys, DirListing, FsEntry, FsKind};
use crate::error::ErrorModel;
use crate::formats::{is_archive, is_image, LocalChapterFormat};
use crate::layouts::lemma_no_cover;
use crate::mangas::{
    add_chapters, add_volumes, collected_manga, first_cover, is_cover, manga_of, mangas_at,
    scanned, scanned_entries,
};
use crate::model::{chapter_key, chapter_keys, ChapterModel, MangaModel};
use crate::natural::natural_key;
use crate::numbering::{chapter_number, chapter_volume, names_volume, title_of, volume_in};
use crate::places::id_of;
use crate::reading::{
    archives_have_five_extensions, folders_list_what_is_visible, images_have_seven_extensions,
    sorted_items_are_in_order, spelled_words_are_equal_in_lower_case, spells,
};
use crate::order::{key_lt, lemma_key_lt_irreflexive, sorted_by};
use crate::scan::{
    archive_files, archives_shallow, chapter_dirs, chapter_dirs_in, chapter_sources,
    chapter_sources_in, image_files, images_shallow, is_dir, is_file, lemma_listing_depth,
    volume_dirs, volume_dirs_in,
};
use vstd::prelude::*;

verus! {

/// A chapter has the identifier and the title of the path that it was found at,
/// its number and volume are those that the path gives, and an archive has the
/// size of its file.
pub proof fn chapters_are_named_by_their_paths(e: FsEntry, number: nat, volume: Option<Seq<char>>)
    ensures
        chapter_of(e, number, volume) matches Ok(c) ==> {
            &&& c.source_path == e.path@
            &&& c.id == id_of(e.path@.text)
            &&& c.title == title_of(e.path@)
            &&& c.number == chapter_number(e.path@, number, volume)
            &&& c.volume == chapter_volume(e.path@, volume)
            &&& e.kind matches FsKind::File(bytes) ==> c.bytes == bytes
            &&& e.kind is Directory ==> c.format == LocalChapterFormat::ImageFolder && c.bytes == 0
        },
{
}

/// Whether a manga and its chapters have the identifiers and titles of the paths
/// that they were found at.
pub open spec fn is_named_by_its_path(m: MangaModel) -> bool {
    &&& m.id == id_of(m.source_path.text)
    &&& m.title == title_of(m.source_path)
    &&& forall|i: int|
        0 <= i < m.chapters.len() ==> (#[trigger] m.chapters[i]).id == id_of(m.chapters[i].source_path.text)
            && m.chapters[i].title == title_of(m.chapters[i].source_path)
}

spec fn are_named(chapters: Seq<ChapterModel>) -> bool {
    forall|i: int|
        0 <= i < chapters.len() ==> (#[trigger] chapters[i]).id == id_of(chapters[i].source_path.text)
            && chapters[i].title == title_of(chapters[i].source_path)
}

proof fn lemma_added_chapters_are_named(
    chapters: Seq<ChapterModel>,
    sources: Seq<FsEntry>,
    n: nat,
    volume: Option<Seq<char>>,
)
    requires
        n <= sources.len(),
        are_named(chapters),
    ensures
        add_chapters(chapters, sources, n, volume) matches Ok(all) ==> are_named(all),
    decreases n,
{
    if n > 0 {
        lemma_added_chapters_are_named(chapters, sources, (n - 1) as nat, volume);
    }
}

proof fn lemma_added_volumes_are_named(chapters: Seq<ChapterModel>, volumes: Seq<FsEntry>, n: nat)
    requires
        n <= volumes.len(),
        are_named(chapters),
    ensures
        add_volumes(chapters, volumes, n) matches Ok(all) ==> are_named(all),
    decreases n,
{
    if n > 0 {
        lemma_added_volumes_are_named(chapters, volumes, (n - 1) as nat);
        if let Ok(before) = add_volumes(chapters, volumes, (n - 1) as nat) {
            if let Ok(sources) = chapter_sources_in(volumes[n - 1]) {
                lemma_added_chapters_are_named(
                    before,
                    sources,
                    sources.len(),
                    volume_in(title_of(volumes[n - 1].path@)),
                );
            }
        }
    }
}

proof fn lemma_sorted_chapters_are_named(chapters: Seq<ChapterModel>)
    requires
        are_named(chapters),
    ensures
        are_named(sorted_by(chapters, chapter_keys(chapters))),
{
    let key = |c: ChapterModel| chapter_key(c);
    sorted_items_are_in_order(chapters, chapter_keys(chapters), key);
    let sorted = sorted_by(chapters, chapter_keys(chapters));
    assert forall|i: int| 0 <= i < sorted.len() implies (#[trigger] sorted[i]).id == id_of(
        sorted[i].source_path.text,
    ) && sorted[i].title == title_of(sorted[i].source_path) by {
        assert(sorted.contains(sorted[i]));
        assert(chapters.contains(sorted[i]));
    }
}

proof fn lemma_scanned_is_named(e: FsEntry)
    ensures
        scanned(e) matches Ok(mangas) ==> forall|i: int|
            0 <= i < mangas.len() ==> is_named_by_its_path(#[trigger] mangas[i]),
    decreases depth(e), 0nat,
{
    if let Ok(mangas) = scanned(e) {
        let images = images_shallow(e)->Ok_0;
        let archives = archives_shallow(e)->Ok_0;
        let dirs = chapter_dirs_in(e)->Ok_0;
        let volumes = volume_dirs_in(e)->Ok_0;
        if archives.len() == 0 && dirs.len() == 0 && volumes.len() == 0 {
            if images.len() == 0 {
                lemma_listing_depth(e);
                let l = listing(e)->Ok_0;
                lemma_scanned_entries_are_named(l, l.len());
            }
        } else {
            let sources = dirs + archives;
            let none = Seq::<ChapterModel>::empty();
            lemma_added_chapters_are_named(none, sources, sources.len(), None);
            let first = add_chapters(none, sources, sources.len(), None)->Ok_0;
            lemma_added_volumes_are_named(first, volumes, volumes.len());
            lemma_sorted_chapters_are_named(add_volumes(first, volumes, volumes.len())->Ok_0);
        }
    }
}

proof fn lemma_scanned_entries_are_named(l: Seq<FsEntry>, n: nat)
    requires
        n <= l.len(),
    ensures
        scanned_entries(l, n) matches Ok(mangas) ==> forall|i: int|
            0 <= i < mangas.len() ==> is_named_by_its_path(#[trigger] mangas[i]),
    decreases max_depth(l, n), n,
{
    if n > 0 {
        lemma_scanned_entries_are_named(l, (n - 1) as nat);
        if is_dir(l[n - 1]) {
            lemma_scanned_is_named(l[n - 1]);
        }
    }
}

/// Every manga that is found, and each of its chapters, has the identifier and
/// the title of the path that it was found at.
pub proof fn found_mangas_are_named_by_their_paths(e: FsEntry, i: int)
    requires
        mangas_at(e) is Ok,
        0 <= i < mangas_at(e)->Ok_0.len(),
    ensures
        is_named_by_its_path(mangas_at(e)->Ok_0[i]),
{
    lemma_scanned_is_named(e);
}

/// Each folder or archive that is added is one more chapter, and its place is
/// counted from one over all chapters; what was there stays.
pub proof fn added_chapters_are_numbered_by_place(
    chapters: Seq<ChapterModel>,
    sources: Seq<FsEntry>,
    n: nat,
    volume: Option<Seq<char>>,
)
    requires
        n <= sources.len(),
    ensures
        add_chapters(chapters, sources, n, volume) matches Ok(all) ==> {
            &&& all.len() == chapters.len() + n
            &&& forall|i: int| 0 <= i < chapters.len() ==> all[i] == #[trigger] chapters[i]
            &&& forall|i: int|
                0 <= i < n ==> chapter_of(#[trigger] sources[i], (chapters.len() + i + 1) as nat, volume) == Ok::<
                    ChapterModel,
                    ErrorModel,
                >(all[chapters.len() + i])
        },
    decreases n,
{
    if n > 0 {
        added_chapters_are_numbered_by_place(chapters, sources, (n - 1) as nat, volume);
    }
}

proof fn lemma_added_volumes(chapters: Seq<ChapterModel>, volumes: Seq<FsEntry>, n: nat, w: int, s: int)
    requires
        0 <= w < n <= volumes.len(),
        add_volumes(chapters, volumes, n) is Ok,
        0 <= s < chapter_sources_in(volumes[w])->Ok_0.len(),
    ensures
        ({
            let all = add_volumes(chapters, volumes, n)->Ok_0;
            let source = chapter_sources_in(volumes[w])->Ok_0[s];
            &&& chapter_sources_in(volumes[w]) is Ok
            &&& exists|i: int|
                0 <= i < all.len() && chapter_of(
                    source,
                    (i + 1) as nat,
                    volume_in(title_of(volumes[w].path@)),
                ) == Ok::<ChapterModel, ErrorModel>(#[trigger] all[i])
        }),
    decreases n,
{
    let all = add_volumes(chapters, volumes, n)->Ok_0;
    let before = add_volumes(chapters, volumes, (n - 1) as nat)->Ok_0;
    let sources = chapter_sources_in(volumes[n - 1])->Ok_0;
    let volume = volume_in(title_of(volumes[n - 1].path@));
    added_chapters_are_numbered_by_place(before, sources, sources.len(), volume);
    if w < n - 1 {
        lemma_added_volumes(chapters, volumes, (n - 1) as nat, w, s);
        let source = chapter_sources_in(volumes[w])->Ok_0[s];
        let i = choose|i: int|
            0 <= i < before.len() && chapter_of(
                source,
                (i + 1) as nat,
                volume_in(title_of(volumes[w].path@)),
            ) == Ok::<ChapterModel, ErrorModel>(#[trigger] before[i]);
        assert(all[i] == before[i]);
    } else {
        let source = sources[s];
        assert(chapter_of(source, (before.len() + s + 1) as nat, volume) == Ok::<ChapterModel, ErrorModel>(
            all[before.len() + s],
        ));
    }
}

proof fn lemma_kept_chapters(chapters: Seq<ChapterModel>, volumes: Seq<FsEntry>, n: nat)
    requires
        n <= volumes.len(),
    ensures
        add_volumes(chapters, volumes, n) matches Ok(all) ==> all.len() >= chapters.len() && forall|i: int|
            0 <= i < chapters.len() ==> all[i] == #[trigger] chapters[i],
    decreases n,
{
    if n > 0 {
        lemma_kept_chapters(chapters, volumes, (n - 1) as nat);
        if let Ok(before) = add_volumes(chapters, volumes, (n - 1) as nat) {
            if let Ok(sources) = chapter_sources_in(volumes[n - 1]) {
                added_chapters_are_numbered_by_place(
                    before,
                    sources,
                    sources.len(),
                    volume_in(title_of(volumes[n - 1].path@)),
                );
            }
        }
    }
}

/// Each source of a collected manga is one of its chapters.
proof fn lemma_collected(e: FsEntry, sources: Seq<FsEntry>, volumes: Seq<FsEntry>, i: int)
    requires
        collected_manga(e, sources, volumes) is Ok,
        0 <= i < sources.len(),
    ensures
        exists|q: int|
            0 <= q < collected_manga(e, sources, volumes)->Ok_0.chapters.len() && chapter_of(
                sources[i],
                (i + 1) as nat,
                None,
            ) == Ok::<ChapterModel, ErrorModel>(#[trigger] collected_manga(e, sources, volumes)->Ok_0.chapters[q]),
{
    let none = Seq::<ChapterModel>::empty();
    let first = add_chapters(none, sources, sources.len(), None)->Ok_0;
    let found = add_volumes(first, volumes, volumes.len())->Ok_0;
    added_chapters_are_numbered_by_place(none, sources, sources.len(), None);
    lemma_kept_chapters(first, volumes, volumes.len());
    let key = |c: ChapterModel| chapter_key(c);
    sorted_items_are_in_order(found, chapter_keys(found), key);
    let sorted = sorted_by(found, chapter_keys(found));
    assert(collected_manga(e, sources, volumes)->Ok_0.chapters == sorted);
    assert(chapter_of(sources[i], (i + 1) as nat, None) == Ok::<ChapterModel, ErrorModel>(first[i]));
    assert(found[i] == first[i]);
    assert(found.contains(first[i]));
    let q = choose|q: int| 0 <= q < sorted.len() && sorted[q] == first[i];
    assert(sorted[q] == first[i]);
}

proof fn lemma_collected_volume(e: FsEntry, sources: Seq<FsEntry>, volumes: Seq<FsEntry>, w: int, s: int)
    requires
        collected_manga(e, sources, volumes) is Ok,
        0 <= w < volumes.len(),
        0 <= s < chapter_sources_in(volumes[w])->Ok_0.len(),
    ensures
        exists|q: int, place: nat|
            0 <= q < collected_manga(e, sources, volumes)->Ok_0.chapters.len() && #[trigger] chapter_of(
                chapter_sources_in(volumes[w])->Ok_0[s],
                place,
                volume_in(title_of(volumes[w].path@)),
            ) == Ok::<ChapterModel, ErrorModel>(#[trigger] collected_manga(e, sources, volumes)->Ok_0.chapters[q]),
{
    let none = Seq::<ChapterModel>::empty();
    let first = add_chapters(none, sources, sources.len(), None)->Ok_0;
    let found = add_volumes(first, volumes, volumes.len())->Ok_0;
    lemma_added_volumes(first, volumes, volumes.len(), w, s);
    let source = chapter_sources_in(volumes[w])->Ok_0[s];
    let volume = volume_in(title_of(volumes[w].path@));
    let i = choose|i: int|
        0 <= i < found.len() && chapter_of(source, (i + 1) as nat, volume) == Ok::<ChapterModel, ErrorModel>(
            #[trigger] found[i],
        );
    let key = |c: ChapterModel| chapter_key(c);
    sorted_items_are_in_order(found, chapter_keys(found), key);
    let sorted = sorted_by(found, chapter_keys(found));
    assert(collected_manga(e, sources, volumes)->Ok_0.chapters == sorted);
    assert(found.contains(found[i]));
    let q = choose|q: int| 0 <= q < sorted.len() && sorted[q] == found[i];
    assert(chapter_of(source, (i + 1) as nat, volume) == Ok::<ChapterModel, ErrorModel>(sorted[q]));
}

/// Whether an entry is listed: its name does not start with a dot.
pub open spec fn is_shown(e: FsEntry) -> bool {
    !(e.path@.name_is_text && e.path@.name.len() > 0 && e.path@.name[0] == '.')
}

/// Whether the extension of an entry is cbz, zip, cbr, rar or epub, in small or
/// capital letters.
pub open spec fn ends_like_an_archive(e: FsEntry) -> bool {
    e.path@.extension matches Some(x) && (spells(x, "cbz"@) || spells(x, "zip"@) || spells(x, "cbr"@) || spells(
        x,
        "rar"@,
    ) || spells(x, "epub"@))
}

/// Whether the extension of an entry is jpg, jpeg, png, webp, gif, bmp or avif,
/// in small or capital letters.
pub open spec fn ends_like_an_image(e: FsEntry) -> bool {
    e.path@.extension matches Some(x) && (spells(x, "jpg"@) || spells(x, "jpeg"@) || spells(x, "png"@) || spells(
        x,
        "webp"@,
    ) || spells(x, "gif"@) || spells(x, "bmp"@) || spells(x, "avif"@))
}

/// An archive that is listed in a folder makes the folder one manga, and is one
/// of its chapters.
pub proof fn archives_in_a_folder_are_chapters(e: FsEntry, v: Vec<FsEntry>, k: int)
    requires
        e.listing == DirListing::Entries(v),
        scanned(e) is Ok,
        0 <= k < v@.len(),
        is_shown(v@[k]),
        v@[k].kind is File,
        ends_like_an_archive(v@[k]),
    ensures
        scanned(e)->Ok_0.len() == 1,
        scanned(e)->Ok_0[0].source_path == e.path@,
        exists|q: int, place: nat|
            0 <= q < scanned(e)->Ok_0[0].chapters.len() && #[trigger] chapter_of(v@[k], place, None) == Ok::<
                ChapterModel,
                ErrorModel,
            >(#[trigger] scanned(e)->Ok_0[0].chapters[q]),
{
    folders_list_what_is_visible(e, v);
    archives_have_five_extensions(v@[k].path@);
    let l = listing(e)->Ok_0;
    let pred = |f: FsEntry| is_file(f) && is_archive(f.path@);
    let p = choose|p: int| 0 <= p < l.len() && l[p] == v@[k];
    l.lemma_filter_contains(pred, p);
    let archives = archive_files(l);
    assert(archives.contains(v@[k]));
    let i = choose|i: int| 0 <= i < archives.len() && archives[i] == v@[k];
    let dirs = chapter_dirs_in(e)->Ok_0;
    let volumes = volume_dirs_in(e)->Ok_0;
    let sources = dirs + archives;
    assert(sources[dirs.len() + i] == v@[k]);
    lemma_collected(e, sources, volumes, dirs.len() + i);
    let m = collected_manga(e, sources, volumes)->Ok_0;
    assert(scanned(e)->Ok_0[0] == m);
    let q = choose|q: int|
        0 <= q < m.chapters.len() && chapter_of(v@[k], (dirs.len() + i + 1) as nat, None) == Ok::<
            ChapterModel,
            ErrorModel,
        >(#[trigger] m.chapters[q]);
    assert(chapter_of(v@[k], (dirs.len() + i + 1) as nat, None) == Ok::<ChapterModel, ErrorModel>(
        scanned(e)->Ok_0[0].chapters[q],
    ));
}

proof fn lemma_holds_image(e: FsEntry, v: Vec<FsEntry>, k: int)
    requires
        e.listing == DirListing::Entries(v),
        0 <= k < v@.len(),
        is_shown(v@[k]),
        v@[k].kind is File,
        ends_like_an_image(v@[k]),
    ensures
        images_shallow(e) matches Ok(images) && images.len() > 0,
{
    folders_list_what_is_visible(e, v);
    images_have_seven_extensions(v@[k].path@);
    let l = listing(e)->Ok_0;
    let pred = |f: FsEntry| is_file(f) && is_image(f.path@);
    let p = choose|p: int| 0 <= p < l.len() && l[p] == v@[k];
    l.lemma_filter_contains(pred, p);
    assert(image_files(l).contains(v@[k]));
}

proof fn lemma_chapter_dirs_has(l: Seq<FsEntry>, n: nat, i: int)
    requires
        0 <= i < n <= l.len(),
        chapter_dirs(l, n) is Ok,
        l[i].kind is Directory,
        !names_volume(title_of(l[i].path@)),
        images_shallow(l[i]) matches Ok(images) && images.len() > 0,
    ensures
        chapter_dirs(l, n)->Ok_0.contains(l[i]),
    decreases n,
{
    let all = chapter_dirs(l, n)->Ok_0;
    if i < n - 1 {
        lemma_chapter_dirs_has(l, (n - 1) as nat, i);
        let before = chapter_dirs(l, (n - 1) as nat)->Ok_0;
        let q = choose|q: int| 0 <= q < before.len() && before[q] == l[i];
        assert(all[q] == l[i]);
    } else {
        assert(all[all.len() - 1] == l[i]);
    }
}

/// A folder that is listed in a folder, is not named like a volume and lists an
/// image makes the outer folder one manga, and is one of its chapters.
pub proof fn folders_with_images_are_chapters(e: FsEntry, v: Vec<FsEntry>, k: int, w: Vec<FsEntry>, j: int)
    requires
        e.listing == DirListing::Entries(v),
        scanned(e) is Ok,
        0 <= k < v@.len(),
        is_shown(v@[k]),
        v@[k].kind is Directory,
        !names_volume(title_of(v@[k].path@)),
        v@[k].listing == DirListing::Entries(w),
        0 <= j < w@.len(),
        is_shown(w@[j]),
        w@[j].kind is File,
        ends_like_an_image(w@[j]),
    ensures
        scanned(e)->Ok_0.len() == 1,
        scanned(e)->Ok_0[0].source_path == e.path@,
        exists|q: int, place: nat|
            0 <= q < scanned(e)->Ok_0[0].chapters.len() && #[trigger] chapter_of(v@[k], place, None) == Ok::<
                ChapterModel,
                ErrorModel,
            >(#[trigger] scanned(e)->Ok_0[0].chapters[q]),
{
    folders_list_what_is_visible(e, v);
    lemma_holds_image(v@[k], w, j);
    let l = listing(e)->Ok_0;
    assert(l.contains(v@[k]));
    let p = choose|p: int| 0 <= p < l.len() && l[p] == v@[k];
    lemma_chapter_dirs_has(l, l.len(), p);
    let dirs = chapter_dirs_in(e)->Ok_0;
    let i = choose|i: int| 0 <= i < dirs.len() && dirs[i] == v@[k];
    let archives = archives_shallow(e)->Ok_0;
    let volumes = volume_dirs_in(e)->Ok_0;
    let sources = dirs + archives;
    assert(sources[i] == v@[k]);
    lemma_collected(e, sources, volumes, i);
    let m = collected_manga(e, sources, volumes)->Ok_0;
    assert(scanned(e)->Ok_0[0] == m);
    let q = choose|q: int|
        0 <= q < m.chapters.len() && chapter_of(v@[k], (i + 1) as nat, None) == Ok::<ChapterModel, ErrorModel>(
            #[trigger] m.chapters[q],
        );
    assert(chapter_of(v@[k], (i + 1) as nat, None) == Ok::<ChapterModel, ErrorModel>(
        scanned(e)->Ok_0[0].chapters[q],
    ));
}

proof fn lemma_chapter_sources_has(l: Seq<FsEntry>, n: nat, i: int)
    requires
        0 <= i < n <= l.len(),
        chapter_sources(l, n) is Ok,
        l[i].kind is File && is_archive(l[i].path@) || l[i].kind is Directory && (images_shallow(l[i]) matches Ok(
            images,
        ) && images.len() > 0),
    ensures
        chapter_sources(l, n)->Ok_0.contains(l[i]),
    decreases n,
{
    let all = chapter_sources(l, n)->Ok_0;
    if i < n - 1 {
        lemma_chapter_sources_has(l, (n - 1) as nat, i);
        let before = chapter_sources(l, (n - 1) as nat)->Ok_0;
        let q = choose|q: int| 0 <= q < before.len() && before[q] == l[i];
        assert(all[q] == l[i]);
    } else {
        assert(all[all.len() - 1] == l[i]);
    }
}

proof fn lemma_volume_dirs_has(l: Seq<FsEntry>, n: nat, i: int)
    requires
        0 <= i < n <= l.len(),
        volume_dirs(l, n) is Ok,
        l[i].kind is Directory,
        names_volume(title_of(l[i].path@)),
    ensures
        chapter_sources_in(l[i]) is Ok,
        chapter_sources_in(l[i])->Ok_0.len() > 0 ==> volume_dirs(l, n)->Ok_0.contains(l[i]),
    decreases n,
{
    let all = volume_dirs(l, n)->Ok_0;
    if i < n - 1 {
        lemma_volume_dirs_has(l, (n - 1) as nat, i);
        let before = volume_dirs(l, (n - 1) as nat)->Ok_0;
        if chapter_sources_in(l[i])->Ok_0.len() > 0 {
            let q = choose|q: int| 0 <= q < before.len() && before[q] == l[i];
            assert(all[q] == l[i]);
        }
    } else if chapter_sources_in(l[i])->Ok_0.len() > 0 {
        assert(all[all.len() - 1] == l[i]);
    }
}

/// A folder named like a volume that is listed in a folder makes the outer one a
/// manga: each archive that it lists, and each folder that it lists and that
/// lists an image, is a chapter, and of the volume that the folder's title names
/// where its own name says none.
pub proof fn volume_folders_hold_chapters(
    e: FsEntry,
    v: Vec<FsEntry>,
    k: int,
    w: Vec<FsEntry>,
    j: int,
    x: Vec<FsEntry>,
    h: int,
)
    requires
        e.listing == DirListing::Entries(v),
        scanned(e) is Ok,
        0 <= k < v@.len(),
        is_shown(v@[k]),
        v@[k].kind is Directory,
        names_volume(title_of(v@[k].path@)),
        v@[k].listing == DirListing::Entries(w),
        0 <= j < w@.len(),
        is_shown(w@[j]),
        w@[j].kind is File && ends_like_an_archive(w@[j]) || w@[j].kind is Directory && w@[j].listing
            == DirListing::Entries(x) && 0 <= h < x@.len() && is_shown(x@[h]) && x@[h].kind is File
            && ends_like_an_image(x@[h]),
    ensures
        scanned(e)->Ok_0.len() == 1,
        scanned(e)->Ok_0[0].source_path == e.path@,
        exists|q: int, place: nat|
            0 <= q < scanned(e)->Ok_0[0].chapters.len() && #[trigger] chapter_of(
                w@[j],
                place,
                volume_in(title_of(v@[k].path@)),
            ) == Ok::<ChapterModel, ErrorModel>(#[trigger] scanned(e)->Ok_0[0].chapters[q]),
{
    folders_list_what_is_visible(e, v);
    folders_list_what_is_visible(v@[k], w);
    archives_have_five_extensions(w@[j].path@);
    if w@[j].kind is Directory {
        lemma_holds_image(w@[j], x, h);
    }
    let l = listing(e)->Ok_0;
    assert(l.contains(v@[k]));
    let p = choose|p: int| 0 <= p < l.len() && l[p] == v@[k];
    lemma_volume_dirs_has(l, l.len(), p);
    let inner = listing(v@[k])->Ok_0;
    assert(inner.contains(w@[j]));
    let r = choose|r: int| 0 <= r < inner.len() && inner[r] == w@[j];
    lemma_chapter_sources_has(inner, inner.len(), r);
    let found = chapter_sources(inner, inner.len())->Ok_0;
    let key = |f: FsEntry| natural_key(f.path@.text);
    sorted_items_are_in_order(found, path_keys(found), key);
    let sorted = chapter_sources_in(v@[k])->Ok_0;
    assert(sorted.contains(w@[j]));
    let s = choose|s: int| 0 <= s < sorted.len() && sorted[s] == w@[j];
    let volumes = volume_dirs_in(e)->Ok_0;
    let i = choose|i: int| 0 <= i < volumes.len() && volumes[i] == v@[k];
    let sources = chapter_dirs_in(e)->Ok_0 + archives_shallow(e)->Ok_0;
    lemma_collected_volume(e, sources, volumes, i, s);
    let m = collected_manga(e, sources, volumes)->Ok_0;
    assert(scanned(e)->Ok_0[0] == m);
    let volume = volume_in(title_of(v@[k].path@));
    let (q, place) = choose|q: int, place: nat|
        0 <= q < m.chapters.len() && #[trigger] chapter_of(w@[j], place, volume) == Ok::<ChapterModel, ErrorModel>(
            #[trigger] m.chapters[q],
        );
    assert(chapter_of(w@[j], place, volume) == Ok::<ChapterModel, ErrorModel>(scanned(e)->Ok_0[0].chapters[q]));
}

proof fn lemma_scanned_entries_has(l: Seq<FsEntry>, n: nat, i: int, j: int)
    requires
        0 <= i < n <= l.len(),
        scanned_entries(l, n) is Ok,
        l[i].kind is Directory,
        0 <= j < scanned(l[i])->Ok_0.len(),
    ensures
        scanned(l[i]) is Ok,
        scanned_entries(l, n)->Ok_0.contains(scanned(l[i])->Ok_0[j]),
    decreases n,
{
    let all = scanned_entries(l, n)->Ok_0;
    let before = scanned_entries(l, (n - 1) as nat)->Ok_0;
    if i < n - 1 {
        lemma_scanned_entries_has(l, (n - 1) as nat, i, j);
        let q = choose|q: int| 0 <= q < before.len() && before[q] == scanned(l[i])->Ok_0[j];
        assert(all[q] == before[q]);
    } else {
        assert(all[before.len() + j] == scanned(l[i])->Ok_0[j]);
    }
}

/// A folder that is no manga itself has all mangas of the folders that it lists.
pub proof fn libraries_hold_the_mangas_of_their_folders(e: FsEntry, v: Vec<FsEntry>, k: int, j: int)
    requires
        e.listing == DirListing::Entries(v),
        scanned(e) is Ok,
        images_shallow(e) == Ok::<Seq<FsEntry>, ErrorModel>(Seq::empty()),
        archives_shallow(e) == Ok::<Seq<FsEntry>, ErrorModel>(Seq::empty()),
        chapter_dirs_in(e) == Ok::<Seq<FsEntry>, ErrorModel>(Seq::empty()),
        volume_dirs_in(e) == Ok::<Seq<FsEntry>, ErrorModel>(Seq::empty()),
        0 <= k < v@.len(),
        is_shown(v@[k]),
        v@[k].kind is Directory,
        0 <= j < scanned(v@[k])->Ok_0.len(),
    ensures
        scanned(v@[k]) is Ok,
        scanned(e)->Ok_0.contains(scanned(v@[k])->Ok_0[j]),
{
    folders_list_what_is_visible(e, v);
    let l = listing(e)->Ok_0;
    assert(l.contains(v@[k]));
    let p = choose|p: int| 0 <= p < l.len() && l[p] == v@[k];
    lemma_scanned_entries_has(l, l.len(), p, j);
}

/// A single file is a library of one manga with one chapter if it is named like
/// an archive, and else no library.
pub proof fn single_archives_are_libraries(e: FsEntry)
    requires
        e.kind is File,
    ensures
        !ends_like_an_archive(e) ==> mangas_at(e) == Err::<Seq<MangaModel>, ErrorModel>(
            ErrorModel::UnsupportedFile(e.path@.text),
        ),
        mangas_at(e) matches Ok(mangas) ==> {
            &&& mangas.len() == 1
            &&& mangas[0].source_path == e.path@
            &&& mangas[0].chapters.len() == 1
            &&& chapter_of(e, 1, None) == Ok::<ChapterModel, ErrorModel>(mangas[0].chapters[0])
            &&& mangas[0].chapters[0].pages.len() > 0 ==> mangas[0].cover_img_url
                == mangas[0].chapters[0].pages[0].url
        },
{
    archives_have_five_extensions(e.path@);
}

/// Whether an entry is a listed file named `cover`, in small or capital letters,
/// with the extension of an image.
pub open spec fn is_named_cover(e: FsEntry) -> bool {
    &&& is_shown(e)
    &&& e.kind is File
    &&& e.path@.stem matches Some(stem) && spells(stem, "cover"@)
    &&& ends_like_an_image(e)
}

/// The cover of a manga in a folder is the file named `cover` there, of several
/// one that no other comes before in natural order; without one it is the first
/// page of the first chapter.
pub proof fn covers_are_named_so(e: FsEntry, v: Vec<FsEntry>, chapters: Seq<ChapterModel>)
    requires
        e.kind is Directory,
        e.listing == DirListing::Entries(v),
    ensures
        manga_of(e, chapters) matches Ok(m) ==> {
            &&& (exists|k: int| 0 <= k < v@.len() && is_named_cover(#[trigger] v@[k])) ==> exists|k: int|
                {
                    &&& 0 <= k < v@.len()
                    &&& is_named_cover(#[trigger] v@[k])
                    &&& file_url_of(v@[k].path@) == Some(m.cover_img_url)
                    &&& forall|j: int|
                        0 <= j < v@.len() && is_named_cover(#[trigger] v@[j]) ==> !key_lt(
                            natural_key(v@[j].path@.name),
                            natural_key(v@[k].path@.name),
                        )
                }
            &&& (forall|k: int| 0 <= k < v@.len() ==> !is_named_cover(#[trigger] v@[k])) && chapters.len() > 0
                && chapters[0].pages.len() > 0 ==> m.cover_img_url == chapters[0].pages[0].url
        },
{
    folders_list_what_is_visible(e, v);
    let l = listing(e)->Ok_0;
    assert forall|x: FsEntry| is_shown(x) implies (is_cover(x) <==> is_named_cover(x)) by {
        lemma_cover(x);
    }
    if let Ok(m) = manga_of(e, chapters) {
        if exists|k: int| 0 <= k < v@.len() && is_named_cover(#[trigger] v@[k]) {
            let k = choose|k: int| 0 <= k < v@.len() && is_named_cover(#[trigger] v@[k]);
            assert(l.contains(v@[k]));
            let i = choose|i: int| 0 <= i < l.len() && l[i] == v@[k];
            assert(is_cover(l[i]));
            let f = lemma_first_cover_is_first(l, i);
            assert(l.contains(l[f]));
            let c = choose|c: int| 0 <= c < v@.len() && v@[c] == l[f];
            assert(is_named_cover(v@[c]));
            assert forall|j: int| 0 <= j < v@.len() && is_named_cover(#[trigger] v@[j]) implies !key_lt(
                natural_key(v@[j].path@.name),
                natural_key(v@[c].path@.name),
            ) by {
                assert(l.contains(v@[j]));
                let b = choose|b: int| 0 <= b < l.len() && l[b] == v@[j];
                assert(is_cover(l[b]));
                if b == f {
                    lemma_key_lt_irreflexive(natural_key(v@[j].path@.name));
                }
            }
        } else {
            assert forall|i: int| 0 <= i < l.len() implies !is_cover(#[trigger] l[i]) by {
                assert(l.contains(l[i]));
                let k = choose|k: int| 0 <= k < v@.len() && v@[k] == l[i];
                assert(!is_named_cover(v@[k]));
            }
            lemma_no_cover(l);
        }
    }
}

proof fn lemma_cover(e: FsEntry)
    requires
        is_shown(e),
    ensures
        is_cover(e) <==> is_named_cover(e),
{
    images_have_seven_extensions(e.path@);
    reveal_strlit("cover");
    if let Some(stem) = e.path@.stem {
        spelled_words_are_equal_in_lower_case(stem, "cover"@);
    }
}

proof fn lemma_first_cover_is_first(l: Seq<FsEntry>, i: int) -> (f: int)
    requires
        0 <= i < l.len(),
        is_cover(l[i]),
    ensures
        0 <= f < l.len(),
        is_cover(l[f]),
        first_cover(l) == Some(l[f]),
        forall|j: int| 0 <= j < f ==> !is_cover(#[trigger] l[j]),
    decreases l.len(),
{
    if is_cover(l[0]) {
        0
    } else {
        let rest = l.skip(1);
        assert(rest[i - 1] == l[i]);
        let f = lemma_first_cover_is_first(rest, i - 1);
        assert(l[f + 1] == rest[f]);
        assert forall|j: int| 0 <= j < f + 1 implies !is_cover(#[trigger] l[j]) by {
            if j > 0 {
                assert(rest[j - 1] == l[j]);
            }
        }
        f + 1
    }
}

proof fn lemma_only_chapter_dirs(l: Seq<FsEntry>, n: nat)
    requires
        n <= l.len(),
    ensures
        chapter_dirs(l, n) matches Ok(all) ==> forall|x: FsEntry| #[trigger]
            all.contains(x) ==> l.contains(x) && x.kind is Directory && !names_volume(title_of(x.path@)),
    decreases n,
{
    if n > 0 {
        lemma_only_chapter_dirs(l, (n - 1) as nat);
        if let Ok(all) = chapter_dirs(l, n) {
            let before = chapter_dirs(l, (n - 1) as nat)->Ok_0;
            assert forall|x: FsEntry| #[trigger] all.contains(x) implies l.contains(x) && x.kind is Directory
                && !names_volume(title_of(x.path@)) by {
                let q = choose|q: int| 0 <= q < all.len() && all[q] == x;
                if q < before.len() {
                    assert(before[q] == x);
                    assert(before.contains(x));
                }
            }
        }
    }
}

proof fn lemma_only_volume_dirs(l: Seq<FsEntry>, n: nat)
    requires
        n <= l.len(),
    ensures
        volume_dirs(l, n) matches Ok(all) ==> forall|x: FsEntry| #[trigger]
            all.contains(x) ==> l.contains(x) && x.kind is Directory && names_volume(title_of(x.path@)),
    decreases n,
{
    if n > 0 {
        lemma_only_volume_dirs(l, (n - 1) as nat);
        if let Ok(all) = volume_dirs(l, n) {
            let before = volume_dirs(l, (n - 1) as nat)->Ok_0;
            assert forall|x: FsEntry| #[trigger] all.contains(x) implies l.contains(x) && x.kind is Directory
                && names_volume(title_of(x.path@)) by {
                let q = choose|q: int| 0 <= q < all.len() && all[q] == x;
                if q < before.len() {
                    assert(before[q] == x);
                    assert(before.contains(x));
                }
            }
        }
    }
}

proof fn lemma_only_chapter_sources(l: Seq<FsEntry>, n: nat)
    requires
        n <= l.len(),
    ensures
        chapter_sources(l, n) matches Ok(all) ==> forall|x: FsEntry| #[trigger]
            all.contains(x) ==> l.contains(x) && (x.kind is Directory || x.kind is File && is_archive(x.path@)),
    decreases n,
{
    if n > 0 {
        lemma_only_chapter_sources(l, (n - 1) as nat);
        if let Ok(all) = chapter_sources(l, n) {
            let before = chapter_sources(l, (n - 1) as nat)->Ok_0;
            assert forall|x: FsEntry| #[trigger] all.contains(x) implies l.contains(x) && (x.kind is Directory
                || x.kind is File && is_archive(x.path@)) by {
                let q = choose|q: int| 0 <= q < all.len() && all[q] == x;
                if q < before.len() {
                    assert(before[q] == x);
                    assert(before.contains(x));
                }
            }
        }
    }
}

proof fn lemma_only_added_volumes(chapters: Seq<ChapterModel>, volumes: Seq<FsEntry>, n: nat, i: int)
    requires
        n <= volumes.len(),
        add_volumes(chapters, volumes, n) is Ok,
        0 <= i < add_volumes(chapters, volumes, n)->Ok_0.len(),
    ensures
        ({
            let c = add_volumes(chapters, volumes, n)->Ok_0[i];
            ||| i < chapters.len() && c == chapters[i]
            ||| exists|w: int, s: int|
                0 <= w < n && chapter_sources_in(volumes[w]) is Ok && 0 <= s < chapter_sources_in(
                    volumes[w],
                )->Ok_0.len() && c.source_path == (#[trigger] chapter_sources_in(volumes[w])->Ok_0[s]).path@
        }),
    decreases n,
{
    if n > 0 {
        let all = add_volumes(chapters, volumes, n)->Ok_0;
        let before = add_volumes(chapters, volumes, (n - 1) as nat)->Ok_0;
        let sources = chapter_sources_in(volumes[n - 1])->Ok_0;
        let volume = volume_in(title_of(volumes[n - 1].path@));
        added_chapters_are_numbered_by_place(before, sources, sources.len(), volume);
        if i < before.len() {
            assert(all[i] == before[i]);
            lemma_only_added_volumes(chapters, volumes, (n - 1) as nat, i);
        } else {
            let s = i - before.len();
            assert(chapter_of(sources[s], (before.len() + s + 1) as nat, volume) == Ok::<ChapterModel, ErrorModel>(
                all[before.len() + s],
            ));
            chapters_are_named_by_their_paths(sources[s], (before.len() + s + 1) as nat, volume);
            assert(all[i].source_path == chapter_sources_in(volumes[n - 1])->Ok_0[s].path@);
        }
    }
}

/// Whether a chapter is that of an archive, or of a folder not named like a
/// volume, that is listed among these entries.
pub open spec fn comes_from(c: ChapterModel, v: Seq<FsEntry>) -> bool {
    exists|k: int|
        {
            &&& 0 <= k < v.len()
            &&& is_shown(#[trigger] v[k])
            &&& c.source_path == v[k].path@
            &&& v[k].kind is File && ends_like_an_archive(v[k]) || v[k].kind is Directory && !names_volume(
                title_of(v[k].path@),
            )
        }
}

/// Whether a chapter is that of an archive or a folder that a folder named like
/// a volume among these entries lists.
pub open spec fn comes_from_a_volume(c: ChapterModel, v: Seq<FsEntry>) -> bool {
    exists|k: int, w: Vec<FsEntry>, j: int|
        {
            &&& 0 <= k < v.len()
            &&& is_shown(v[k])
            &&& v[k].kind is Directory
            &&& names_volume(title_of(v[k].path@))
            &&& (#[trigger] v[k]).listing == DirListing::Entries(w)
            &&& 0 <= j < w@.len()
            &&& is_shown(w@[j])
            &&& c.source_path == (#[trigger] w@[j]).path@
            &&& w@[j].kind is File && ends_like_an_archive(w@[j]) || w@[j].kind is Directory
        }
}

/// Each chapter of a folder with chapters or volumes is an archive or a folder
/// that it lists, or that a folder of a volume in it lists.
pub proof fn chapters_come_from_what_is_listed(e: FsEntry, v: Vec<FsEntry>, q: int)
    requires
        e.listing == DirListing::Entries(v),
        scanned(e) is Ok,
        archives_shallow(e)->Ok_0.len() > 0 || chapter_dirs_in(e)->Ok_0.len() > 0 || volume_dirs_in(e)->Ok_0.len()
            > 0,
        0 <= q < scanned(e)->Ok_0[0].chapters.len(),
    ensures
        ({
            let c = scanned(e)->Ok_0[0].chapters[q];
            comes_from(c, v@) || comes_from_a_volume(c, v@)
        }),
{
    folders_list_what_is_visible(e, v);
    let l = listing(e)->Ok_0;
    let archives = archives_shallow(e)->Ok_0;
    let dirs = chapter_dirs_in(e)->Ok_0;
    let volumes = volume_dirs_in(e)->Ok_0;
    let sources = dirs + archives;
    let none = Seq::<ChapterModel>::empty();
    let first = add_chapters(none, sources, sources.len(), None)->Ok_0;
    let found = add_volumes(first, volumes, volumes.len())->Ok_0;
    let key = |c: ChapterModel| chapter_key(c);
    sorted_items_are_in_order(found, chapter_keys(found), key);
    let sorted = sorted_by(found, chapter_keys(found));
    assert(scanned(e)->Ok_0[0].chapters == sorted);
    let c = sorted[q];
    assert(sorted.contains(c));
    let i = choose|i: int| 0 <= i < found.len() && found[i] == c;
    added_chapters_are_numbered_by_place(none, sources, sources.len(), None);
    lemma_only_added_volumes(first, volumes, volumes.len(), i);
    if i < first.len() && c == first[i] {
        assert(chapter_of(sources[i], (i + 1) as nat, None) == Ok::<ChapterModel, ErrorModel>(first[0 + i]));
        chapters_are_named_by_their_paths(sources[i], (i + 1) as nat, None);
        let x = sources[i];
        if i < dirs.len() {
            lemma_only_chapter_dirs(l, l.len());
            assert(dirs.contains(dirs[i]));
        } else {
            let pred = |f: FsEntry| is_file(f) && is_archive(f.path@);
            assert(archives.contains(archives[i - dirs.len()]));
            l.lemma_filter_contains_rev(pred, x);
            l.lemma_filter_pred(pred, i - dirs.len());
            archives_have_five_extensions(x.path@);
        }
        assert(l.contains(x));
        let k = choose|k: int| 0 <= k < v@.len() && v@[k] == x;
        assert(is_shown(v@[k]) && c.source_path == v@[k].path@);
        assert(comes_from(c, v@));
    } else {
        let (w, s) = choose|w: int, s: int|
            0 <= w < volumes.len() && chapter_sources_in(volumes[w]) is Ok && 0 <= s < chapter_sources_in(
                volumes[w],
            )->Ok_0.len() && c.source_path == (#[trigger] chapter_sources_in(volumes[w])->Ok_0[s]).path@;
        let d = volumes[w];
        lemma_only_volume_dirs(l, l.len());
        assert(volumes.contains(d));
        assert(l.contains(d));
        let k = choose|k: int| 0 <= k < v@.len() && v@[k] == d;
        let inner = listing(d)->Ok_0;
        let listed = chapter_sources(inner, inner.len())->Ok_0;
        let path_key = |f: FsEntry| natural_key(f.path@.text);
        sorted_items_are_in_order(listed, path_keys(listed), path_key);
        let x = chapter_sources_in(d)->Ok_0[s];
        assert(chapter_sources_in(d)->Ok_0.contains(x));
        lemma_only_chapter_sources(inner, inner.len());
        assert(listed.contains(x));
        archives_have_five_extensions(x.path@);
        if let DirListing::Entries(wv) = d.listing {
            folders_list_what_is_visible(d, wv);
            assert(inner.contains(x));
            let j = choose|j: int| 0 <= j < wv@.len() && wv@[j] == x;
            assert(v@[k].listing == DirListing::Entries(wv) && c.source_path == wv@[j].path@);
            assert(comes_from_a_volume(c, v@));
        }
    }
}

/// Where names give no numbers, chapters are numbered by their places: first the
/// folders of a manga, then its archives, each in natural order of their names.
pub proof fn folders_are_numbered_before_archives(e: FsEntry, i: int)
    requires
        scanned(e) is Ok,
        0 <= i < chapter_dirs_in(e)->Ok_0.len() + archives_shallow(e)->Ok_0.len(),
    ensures
        ({
            let dirs = chapter_dirs_in(e)->Ok_0;
            let archives = archives_shallow(e)->Ok_0;
            let source = if i < dirs.len() {
                dirs[i]
            } else {
                archives[i - dirs.len()]
            };
            exists|q: int|
                0 <= q < scanned(e)->Ok_0[0].chapters.len() && chapter_of(source, (i + 1) as nat, None) == Ok::<
                    ChapterModel,
                    ErrorModel,
                >(#[trigger] scanned(e)->Ok_0[0].chapters[q])
        }),
{
    let dirs = chapter_dirs_in(e)->Ok_0;
    let archives = archives_shallow(e)->Ok_0;
    let volumes = volume_dirs_in(e)->Ok_0;
    let sources = dirs + archives;
    lemma_collected(e, sources, volumes, i);
    let m = collected_manga(e, sources, volumes)->Ok_0;
    assert(scanned(e)->Ok_0[0] == m);
    let q = choose|q: int|
        0 <= q < m.chapters.len() && chapter_of(sources[i], (i + 1) as nat, None) == Ok::<ChapterModel, ErrorModel>(
            #[trigger] m.chapters[q],
        );
    assert(chapter_of(sources[i], (i + 1) as nat, None) == Ok::<ChapterModel, ErrorModel>(
        scanned(e)->Ok_0[0].chapters[q],
    ));
}

/// The chapters in the folder of a volume stand in natural order of their paths.
pub proof fn chapters_of_a_volume_folder_are_in_order(e: FsEntry, i: int, j: int)
    requires
        chapter_sources_in(e) is Ok,
        0 <= i < j < chapter_sources_in(e)->Ok_0.len(),
    ensures
        !key_lt(
            natural_key(chapter_sources_in(e)->Ok_0[j].path@.text),
            natural_key(chapter_sources_in(e)->Ok_0[i].path@.text),
        ),
{
    let l = listing(e)->Ok_0;
    let found = chapter_sources(l, l.len())->Ok_0;
    let key = |f: FsEntry| natural_key(f.path@.text);
    sorted_items_are_in_order(found, path_keys(found), key);
    let sorted = chapter_sources_in(e)->Ok_0;
    assert(!key_lt(key(sorted[j]), key(sorted[i])));
}

} // verus!
