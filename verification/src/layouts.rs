//! What holds of every library, however its folders are laid out.
use crate::chapters::{chapter_of, file_url_of, image_chapter, image_pages};
use crate::disk::{depth, listing, max_depth, FsEntry};
use crate::error::ErrorModel;
use crate::mangas::{
    add_chapters, add_volumes, collected_manga, first_cover, first_page_url, is_cover,
    manga_of, mangas_at, scanned, scanned_entries, single_manga,
};
use crate::model::{chapter_is_numbered, chapter_key, chapter_keys, ChapterModel, MangaModel};
use crate::numbering::{
    chapter_numbers_are_numerals, is_numeral, keyword_numbers_are_numerals, title_of, volume_in, volume_keywords,
};
use crate::order::{key_le, lemma_stable_order, sorted_by, sorting_keeps_items, stable_order};
use crate::scan::{
    archives_shallow, chapter_dirs_in, chapter_sources_in, images_recursive, images_shallow, is_dir, is_file,
    lemma_listing_depth, volume_dirs, volume_dirs_in,
};
use vstd::prelude::*;

verus! {

/// Whether a chapter is numbered with numerals and has a page.
pub open spec fn is_readable(c: ChapterModel) -> bool {
    chapter_is_numbered(c) && c.pages.len() > 0
}

pub open spec fn all_readable(chapters: Seq<ChapterModel>) -> bool {
    forall|i: int| 0 <= i < chapters.len() ==> is_readable(#[trigger] chapters[i])
}

/// Whether the chapters of a manga are in order.
pub open spec fn in_order(chapters: Seq<ChapterModel>) -> bool {
    forall|i: int, j: int|
        0 <= i < j < chapters.len() ==> key_le(
            chapter_key(#[trigger] chapters[i]),
            chapter_key(#[trigger] chapters[j]),
        )
}

/// Whether a manga has chapters, all of them readable and in order.
pub open spec fn is_complete(m: MangaModel) -> bool {
    m.chapters.len() > 0 && all_readable(m.chapters) && in_order(m.chapters)
}

pub open spec fn all_complete(mangas: Seq<MangaModel>) -> bool {
    forall|i: int| 0 <= i < mangas.len() ==> is_complete(#[trigger] mangas[i])
}

proof fn lemma_image_pages(images: Seq<FsEntry>, n: nat)
    requires
        n <= images.len(),
    ensures
        image_pages(images, n) matches Ok(pages) ==> pages.len() == n,
    decreases n,
{
    if n > 0 {
        lemma_image_pages(images, (n - 1) as nat);
    }
}

/// A chapter that was found has a page for each of its images, and is numbered.
pub proof fn chapters_are_readable(e: FsEntry, number: nat, volume: Option<Seq<char>>)
    requires
        volume matches Some(v) ==> is_numeral(v),
    ensures
        chapter_of(e, number, volume) matches Ok(c) ==> is_readable(c),
{
    chapter_numbers_are_numerals(e.path@, number, volume);
    if is_dir(e) {
        if let Ok(images) = images_recursive(e) {
            lemma_image_pages(images, images.len());
        }
    }
}

proof fn lemma_image_chapter(e: FsEntry, images: Seq<FsEntry>)
    ensures
        image_chapter(e.path@, 1, None, images) matches Ok(c) ==> is_readable(c) && c.pages.len()
            == images.len(),
{
    chapter_numbers_are_numerals(e.path@, 1, None);
    lemma_image_pages(images, images.len());
}

proof fn lemma_add_chapters(
    chapters: Seq<ChapterModel>,
    sources: Seq<FsEntry>,
    n: nat,
    volume: Option<Seq<char>>,
)
    requires
        n <= sources.len(),
        all_readable(chapters),
        volume matches Some(v) ==> is_numeral(v),
    ensures
        add_chapters(chapters, sources, n, volume) matches Ok(all) ==> all_readable(all)
            && all.len() == chapters.len() + n,
    decreases n,
{
    if n > 0 {
        lemma_add_chapters(chapters, sources, (n - 1) as nat, volume);
        if let Ok(before) = add_chapters(chapters, sources, (n - 1) as nat, volume) {
            chapters_are_readable(sources[n - 1], before.len() + 1, volume);
        }
    }
}

/// Whether a folder holds a chapter.
pub open spec fn holds_chapters(e: FsEntry) -> bool {
    chapter_sources_in(e) matches Ok(sources) && sources.len() > 0
}

proof fn lemma_volume_dirs(l: Seq<FsEntry>, n: nat)
    requires
        n <= l.len(),
    ensures
        volume_dirs(l, n) matches Ok(dirs) ==> forall|i: int|
            0 <= i < dirs.len() ==> holds_chapters(#[trigger] dirs[i]),
    decreases n,
{
    if n > 0 {
        lemma_volume_dirs(l, (n - 1) as nat);
    }
}

proof fn lemma_add_volumes(chapters: Seq<ChapterModel>, volumes: Seq<FsEntry>, n: nat)
    requires
        n <= volumes.len(),
        all_readable(chapters),
        forall|i: int| 0 <= i < volumes.len() ==> holds_chapters(#[trigger] volumes[i]),
    ensures
        add_volumes(chapters, volumes, n) matches Ok(all) ==> all_readable(all) && all.len()
            >= chapters.len() + n,
    decreases n,
{
    if n > 0 {
        lemma_add_volumes(chapters, volumes, (n - 1) as nat);
        assert(holds_chapters(volumes[n - 1]));
        if let Ok(before) = add_volumes(chapters, volumes, (n - 1) as nat) {
            let sources = chapter_sources_in(volumes[n - 1])->Ok_0;
            let volume = volume_in(title_of(volumes[n - 1].path@));
            keyword_numbers_are_numerals(title_of(volumes[n - 1].path@), volume_keywords());
            lemma_add_chapters(before, sources, sources.len(), volume);
        }
    }
}

proof fn lemma_sorted_chapters(chapters: Seq<ChapterModel>)
    requires
        all_readable(chapters),
    ensures
        all_readable(sorted_by(chapters, chapter_keys(chapters))),
        in_order(sorted_by(chapters, chapter_keys(chapters))),
        sorted_by(chapters, chapter_keys(chapters)).len() == chapters.len(),
{
    let keys = chapter_keys(chapters);
    let order = stable_order(keys);
    lemma_stable_order(keys, keys.len());
    let sorted = sorted_by(chapters, keys);
    assert forall|i: int| 0 <= i < sorted.len() implies is_readable(#[trigger] sorted[i]) by {
        assert(0 <= order[i] < chapters.len());
        assert(sorted[i] == chapters[order[i]]);
    }
    assert forall|i: int, j: int| 0 <= i < j < sorted.len() implies key_le(
        chapter_key(#[trigger] sorted[i]),
        chapter_key(#[trigger] sorted[j]),
    ) by {
        assert(0 <= order[i] < chapters.len() && 0 <= order[j] < chapters.len());
        assert(keys[order[i]] == chapter_key(sorted[i]));
        assert(keys[order[j]] == chapter_key(sorted[j]));
    }
}

/// A folder with archives, folders of chapters or folders of volumes is one
/// manga, with a chapter for each archive and folder of a chapter, and at least
/// one for each volume.
pub proof fn chapter_folders_are_one_manga(e: FsEntry)
    requires
        archives_shallow(e) is Ok,
        chapter_dirs_in(e) is Ok,
        volume_dirs_in(e) is Ok,
        archives_shallow(e)->Ok_0.len() > 0 || chapter_dirs_in(e)->Ok_0.len() > 0 || volume_dirs_in(
            e,
        )->Ok_0.len() > 0,
    ensures
        scanned(e) matches Ok(mangas) ==> {
            &&& mangas.len() == 1
            &&& is_complete(mangas[0])
            &&& mangas[0].chapters.len() >= archives_shallow(e)->Ok_0.len() + chapter_dirs_in(
                e,
            )->Ok_0.len() + volume_dirs_in(e)->Ok_0.len()
            &&& volume_dirs_in(e)->Ok_0.len() == 0 ==> mangas[0].chapters.len() == archives_shallow(
                e,
            )->Ok_0.len() + chapter_dirs_in(e)->Ok_0.len()
        },
{
    let archives = archives_shallow(e)->Ok_0;
    let dirs = chapter_dirs_in(e)->Ok_0;
    let volumes = volume_dirs_in(e)->Ok_0;
    let sources = dirs + archives;
    lemma_add_chapters(Seq::empty(), sources, sources.len(), None);
    if let Ok(l) = listing(e) {
        lemma_volume_dirs(l, l.len());
    }
    if let Ok(first) = add_chapters(Seq::empty(), sources, sources.len(), None) {
        lemma_add_volumes(first, volumes, volumes.len());
        if let Ok(chapters) = add_volumes(first, volumes, volumes.len()) {
            lemma_sorted_chapters(chapters);
        }
    }
}

/// The chapters of a manga are those that were found for it, in another order:
/// none is lost and none is added.
pub proof fn no_chapter_is_lost(e: FsEntry, sources: Seq<FsEntry>, volumes: Seq<FsEntry>)
    ensures
        collected_manga(e, sources, volumes) matches Ok(m) ==> {
            &&& add_chapters(Seq::empty(), sources, sources.len(), None) matches Ok(first)
            &&& add_volumes(first, volumes, volumes.len()) matches Ok(found)
            &&& m.chapters.to_multiset() == found.to_multiset()
        },
{
    if let Ok(first) = add_chapters(Seq::empty(), sources, sources.len(), None) {
        if let Ok(found) = add_volumes(first, volumes, volumes.len()) {
            sorting_keeps_items(found, chapter_keys(found));
        }
    }
}

/// A folder with images, and no chapter or volume, is one manga of one chapter
/// with a page for each image.
pub proof fn image_folder_is_one_chapter(e: FsEntry)
    requires
        images_shallow(e) is Ok,
        images_shallow(e)->Ok_0.len() > 0,
        archives_shallow(e) == Ok::<Seq<FsEntry>, ErrorModel>(Seq::empty()),
        chapter_dirs_in(e) == Ok::<Seq<FsEntry>, ErrorModel>(Seq::empty()),
        volume_dirs_in(e) == Ok::<Seq<FsEntry>, ErrorModel>(Seq::empty()),
    ensures
        scanned(e) matches Ok(mangas) ==> {
            &&& mangas.len() == 1
            &&& is_complete(mangas[0])
            &&& mangas[0].chapters.len() == 1
            &&& mangas[0].chapters[0].pages.len() == images_shallow(e)->Ok_0.len()
        },
{
    lemma_image_chapter(e, images_shallow(e)->Ok_0);
}

/// A single archive is one manga of one chapter.
pub proof fn archive_is_one_chapter(e: FsEntry)
    requires
        is_file(e),
    ensures
        mangas_at(e) matches Ok(mangas) ==> {
            &&& mangas.len() == 1
            &&& is_complete(mangas[0])
            &&& mangas[0].chapters.len() == 1
        },
{
    chapters_are_readable(e, 1, None);
}

proof fn lemma_single(e: FsEntry)
    requires
        !is_dir(e),
    ensures
        single_manga(e) matches Ok(m) ==> is_complete(m),
{
    chapters_are_readable(e, 1, None);
}

proof fn lemma_scanned(e: FsEntry)
    ensures
        scanned(e) matches Ok(mangas) ==> all_complete(mangas),
    decreases depth(e), 0nat,
{
    if let Ok(archives) = archives_shallow(e) {
        if let Ok(dirs) = chapter_dirs_in(e) {
            if let Ok(volumes) = volume_dirs_in(e) {
                if archives.len() > 0 || dirs.len() > 0 || volumes.len() > 0 {
                    chapter_folders_are_one_manga(e);
                } else {
                    assert(archives =~= Seq::empty());
                    assert(dirs =~= Seq::empty());
                    assert(volumes =~= Seq::empty());
                    if let Ok(images) = images_shallow(e) {
                        if images.len() > 0 {
                            image_folder_is_one_chapter(e);
                        } else {
                            lemma_listing_depth(e);
                            let l = listing(e)->Ok_0;
                            lemma_scanned_entries(l, l.len());
                        }
                    }
                }
            }
        }
    }
}

proof fn lemma_scanned_entries(l: Seq<FsEntry>, n: nat)
    requires
        n <= l.len(),
    ensures
        scanned_entries(l, n) matches Ok(mangas) ==> all_complete(mangas),
    decreases max_depth(l, n), n,
{
    if n > 0 {
        lemma_scanned_entries(l, (n - 1) as nat);
        if is_dir(l[n - 1]) {
            lemma_scanned(l[n - 1]);
        } else {
            lemma_single(l[n - 1]);
        }
    }
}

/// Every manga that is found has a chapter, every chapter a page, all chapters
/// are numbered with numerals, and they stand in order.
pub proof fn found_mangas_are_complete(e: FsEntry)
    ensures
        mangas_at(e) matches Ok(mangas) ==> all_complete(mangas),
{
    if is_file(e) {
        archive_is_one_chapter(e);
    } else {
        lemma_scanned(e);
    }
}

/// A folder that is itself no manga holds the mangas of its folders and
/// archives, one after the other.
pub proof fn folder_of_mangas_is_a_library(e: FsEntry)
    requires
        images_shallow(e) == Ok::<Seq<FsEntry>, ErrorModel>(Seq::empty()),
        archives_shallow(e) == Ok::<Seq<FsEntry>, ErrorModel>(Seq::empty()),
        chapter_dirs_in(e) == Ok::<Seq<FsEntry>, ErrorModel>(Seq::empty()),
        volume_dirs_in(e) == Ok::<Seq<FsEntry>, ErrorModel>(Seq::empty()),
    ensures
        listing(e) matches Ok(l) && scanned(e) == scanned_entries(l, l.len()),
{
}

proof fn lemma_first_cover(l: Seq<FsEntry>, i: int)
    requires
        0 <= i < l.len(),
        is_cover(l[i]),
    ensures
        exists|j: int|
            0 <= j < l.len() && is_cover(#[trigger] l[j]) && first_cover(l) == Some(l[j]),
    decreases l.len(),
{
    if !is_cover(l[0]) {
        let rest = l.skip(1);
        assert(rest[i - 1] == l[i]);
        lemma_first_cover(rest, i - 1);
        let j = choose|j: int|
            0 <= j < rest.len() && is_cover(#[trigger] rest[j]) && first_cover(rest) == Some(rest[j]);
        assert(l[j + 1] == rest[j]);
    }
}

pub proof fn lemma_no_cover(l: Seq<FsEntry>)
    requires
        forall|i: int| 0 <= i < l.len() ==> !is_cover(#[trigger] l[i]),
    ensures
        first_cover(l) is None,
    decreases l.len(),
{
    if l.len() > 0 {
        assert forall|i: int| 0 <= i < l.skip(1).len() implies !is_cover(#[trigger] l.skip(1)[i]) by {
            assert(l.skip(1)[i] == l[i + 1]);
        }
        lemma_no_cover(l.skip(1));
    }
}

/// A cover file in the folder of a manga is its cover; without one, the first
/// page of the first chapter is.
pub proof fn cover_file_goes_before_first_page(e: FsEntry, chapters: Seq<ChapterModel>)
    requires
        is_dir(e),
        listing(e) is Ok,
    ensures
        manga_of(e, chapters) matches Ok(m) ==> {
            let l = listing(e)->Ok_0;
            if exists|i: int| 0 <= i < l.len() && is_cover(#[trigger] l[i]) {
                exists|i: int|
                    0 <= i < l.len() && is_cover(#[trigger] l[i]) && file_url_of(l[i].path@) == Some(
                        m.cover_img_url,
                    )
            } else {
                m.cover_img_url == first_page_url(chapters)
            }
        },
{
    let l = listing(e)->Ok_0;
    if exists|i: int| 0 <= i < l.len() && is_cover(#[trigger] l[i]) {
        let i = choose|i: int| 0 <= i < l.len() && is_cover(#[trigger] l[i]);
        lemma_first_cover(l, i);
        let j = choose|j: int|
            0 <= j < l.len() && is_cover(#[trigger] l[j]) && first_cover(l) == Some(l[j]);
        if let Ok(m) = manga_of(e, chapters) {
            assert(is_cover(l[j]) && file_url_of(l[j].path@) == Some(m.cover_img_url));
        }
    } else {
        lemma_no_cover(l);
    }
}

} // verus!
