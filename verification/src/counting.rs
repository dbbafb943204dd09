//! How totals grow with a library, and how sizes are told.
use crate::components::path_identity;
use crate::digits::decimal;
use crate::formats::LocalChapterFormat;
use crate::index::{
    all_chapters, chapter_files, library_files, names_file, page_files, stats_of, volumes_in,
    StatsModel,
};
use crate::model::{ChapterModel, MangaModel, PageModel, SourceModel};
use crate::path::PathModel;
use crate::size::{as_double, double_step, half_even, readable_size, unit, unit_index};
use vstd::prelude::*;

verus! {

/// A library without mangas has nothing to count, and a manga without chapters
/// adds to the number of mangas alone.
pub proof fn empty_mangas_count_as_mangas(path: PathModel, mangas: Seq<MangaModel>, m: MangaModel)
    requires
        m.chapters.len() == 0,
    ensures
        stats_of(path, Seq::empty()) == (StatsModel {
            library_path: path,
            manga_count: 0,
            volume_count: 0,
            chapter_count: 0,
            page_count: 0,
            image_folder_count: 0,
            cbz_count: 0,
            cbr_count: 0,
            epub_count: 0,
            total_bytes: 0,
        }),
        stats_of(path, mangas.push(m)) == (StatsModel {
            manga_count: mangas.len() + 1,
            ..stats_of(path, mangas)
        }),
{
    let more = mangas.push(m);
    assert(more.drop_last() =~= mangas);
    assert(all_chapters(more) =~= all_chapters(mangas));
    assert(volumes_in(m.chapters).len() == 0);
}

proof fn lemma_volumes(chapters: Seq<ChapterModel>)
    ensures
        volumes_in(chapters).finite(),
        forall|v: Seq<char>| #[trigger]
            volumes_in(chapters).contains(v) <==> exists|i: int|
                0 <= i < chapters.len() && (#[trigger] chapters[i]).volume == Some(v),
    decreases chapters.len(),
{
    if chapters.len() > 0 {
        let front = chapters.drop_last();
        lemma_volumes(front);
        assert forall|v: Seq<char>| #[trigger] volumes_in(chapters).contains(v) implies exists|i: int|
            0 <= i < chapters.len() && (#[trigger] chapters[i]).volume == Some(v) by {
            if chapters.last().volume == Some(v) {
                assert(chapters[chapters.len() - 1].volume == Some(v));
            } else {
                assert(volumes_in(front).contains(v));
                let i = choose|i: int| 0 <= i < front.len() && (#[trigger] front[i]).volume == Some(v);
                assert(chapters[i] == front[i]);
            }
        }
        assert forall|v: Seq<char>|
            (exists|i: int| 0 <= i < chapters.len() && (#[trigger] chapters[i]).volume == Some(v)) implies #[trigger] volumes_in(
            chapters,
        ).contains(v) by {
            let i = choose|i: int| 0 <= i < chapters.len() && (#[trigger] chapters[i]).volume == Some(v);
            if i < front.len() {
                assert(front[i] == chapters[i]);
                assert(volumes_in(front).contains(v));
            }
        }
    }
}

proof fn lemma_page_files(pages: Seq<PageModel>, id: Seq<char>)
    ensures
        names_file(page_files(pages), id) <==> exists|p: int|
            0 <= p < pages.len() && ((#[trigger] pages[p]).source matches SourceModel::File(f) && path_identity(f)
                == id),
    decreases pages.len(),
{
    if pages.len() > 0 {
        let front = pages.drop_last();
        lemma_page_files(front, id);
        let files = page_files(pages);
        let before = page_files(front);
        if names_file(files, id) {
            let i = choose|i: int| 0 <= i < files.len() && (#[trigger] files[i]).0 == id;
            if i < before.len() {
                assert(before[i] == files[i]);
                assert(names_file(before, id));
                let p = choose|p: int|
                    0 <= p < front.len() && ((#[trigger] front[p]).source matches SourceModel::File(f)
                        && path_identity(f) == id);
                assert(pages[p] == front[p]);
            } else {
                assert(pages[pages.len() - 1] == pages.last());
            }
        }
        if exists|p: int|
            0 <= p < pages.len() && ((#[trigger] pages[p]).source matches SourceModel::File(f) && path_identity(f)
                == id) {
            let p = choose|p: int|
                0 <= p < pages.len() && ((#[trigger] pages[p]).source matches SourceModel::File(f)
                    && path_identity(f) == id);
            if p < front.len() {
                assert(front[p] == pages[p]);
                assert(names_file(before, id));
                let i = choose|i: int| 0 <= i < before.len() && (#[trigger] before[i]).0 == id;
                assert(files[i] == before[i]);
            } else {
                assert(files[files.len() - 1].0 == id);
            }
        }
    }
}

/// Whether the size of a file is part of a chapter: it is the archive that the
/// chapter is, or one of the images in its folder.
pub open spec fn takes_file(c: ChapterModel, identity: Seq<char>) -> bool {
    if c.format == LocalChapterFormat::ImageFolder {
        exists|p: int|
            0 <= p < c.pages.len() && ((#[trigger] c.pages[p]).source matches SourceModel::File(f) && path_identity(
                f,
            ) == identity)
    } else {
        path_identity(c.source_path) == identity
    }
}

proof fn lemma_library_files(chapters: Seq<ChapterModel>, id: Seq<char>)
    ensures
        names_file(library_files(chapters), id) <==> exists|i: int|
            0 <= i < chapters.len() && takes_file(#[trigger] chapters[i], id),
    decreases chapters.len(),
{
    if chapters.len() > 0 {
        let front = chapters.drop_last();
        let last = chapters.last();
        lemma_library_files(front, id);
        lemma_page_files(last.pages, id);
        let files = library_files(chapters);
        let before = library_files(front);
        let own = chapter_files(last);
        assert(files == before + own);
        assert(names_file(own, id) <==> takes_file(last, id)) by {
            if last.format != LocalChapterFormat::ImageFolder {
                assert(own[0].0 == path_identity(last.source_path));
            }
        }
        if names_file(files, id) {
            let i = choose|i: int| 0 <= i < files.len() && (#[trigger] files[i]).0 == id;
            if i < before.len() {
                assert(before[i] == files[i]);
                let k = choose|k: int| 0 <= k < front.len() && takes_file(#[trigger] front[k], id);
                assert(chapters[k] == front[k]);
            } else {
                assert(own[i - before.len()] == files[i]);
                assert(takes_file(chapters[chapters.len() - 1], id));
            }
        }
        if exists|i: int| 0 <= i < chapters.len() && takes_file(#[trigger] chapters[i], id) {
            let k = choose|k: int| 0 <= k < chapters.len() && takes_file(#[trigger] chapters[k], id);
            if k < front.len() {
                assert(front[k] == chapters[k]);
                let i = choose|i: int| 0 <= i < before.len() && (#[trigger] before[i]).0 == id;
                assert(files[i] == before[i]);
            } else {
                let i = choose|i: int| 0 <= i < own.len() && (#[trigger] own[i]).0 == id;
                assert(files[before.len() + i] == own[i]);
            }
        }
    }
}

/// Every chapter of every manga is counted, and nothing else.
pub proof fn chapters_of_all_mangas_are_counted(mangas: Seq<MangaModel>, c: ChapterModel)
    ensures
        all_chapters(mangas).contains(c) <==> exists|m: int, i: int|
            0 <= m < mangas.len() && 0 <= i < mangas[m].chapters.len() && #[trigger] mangas[m].chapters[i] == c,
    decreases mangas.len(),
{
    let all = all_chapters(mangas);
    if mangas.len() > 0 {
        let front = mangas.drop_last();
        let last = mangas.last();
        let before = all_chapters(front);
        chapters_of_all_mangas_are_counted(front, c);
        if all.contains(c) {
            let k = choose|k: int| 0 <= k < all.len() && all[k] == c;
            if k < before.len() {
                assert(before[k] == c);
                assert(before.contains(c));
                let (m, i) = choose|m: int, i: int|
                    0 <= m < front.len() && 0 <= i < front[m].chapters.len() && #[trigger] front[m].chapters[i] == c;
                assert(mangas[m].chapters[i] == c);
            } else {
                assert(mangas[mangas.len() - 1].chapters[k - before.len()] == c);
            }
        }
        if exists|m: int, i: int|
            0 <= m < mangas.len() && 0 <= i < mangas[m].chapters.len() && #[trigger] mangas[m].chapters[i] == c {
            let (m, i) = choose|m: int, i: int|
                0 <= m < mangas.len() && 0 <= i < mangas[m].chapters.len() && #[trigger] mangas[m].chapters[i] == c;
            if m < front.len() {
                assert(front[m].chapters[i] == c);
                assert(before.contains(c));
                let k = choose|k: int| 0 <= k < before.len() && before[k] == c;
                assert(all[k] == c);
            } else {
                assert(all[before.len() + i] == c);
            }
        }
    }
}

/// One more chapter of the last manga adds one to the chapters and to those of
/// its format, its pages to the pages, and one to the volumes if it is the first
/// of the manga in its volume. An archive adds its size, unless its file has been
/// counted.
pub proof fn one_more_chapter_is_counted(
    path: PathModel,
    front: Seq<MangaModel>,
    m: MangaModel,
    c: ChapterModel,
)
    ensures
        ({
            let s = stats_of(path, front.push(m));
            let t = stats_of(path, front.push(MangaModel { chapters: m.chapters.push(c), ..m }));
            let all = all_chapters(front.push(m));
            &&& t.library_path == path
            &&& t.manga_count == s.manga_count
            &&& t.chapter_count == s.chapter_count + 1
            &&& t.page_count == s.page_count + c.pages.len()
            &&& t.image_folder_count == s.image_folder_count + (if c.format == LocalChapterFormat::ImageFolder {
                1int
            } else {
                0int
            })
            &&& t.cbz_count == s.cbz_count + (if c.format == LocalChapterFormat::Cbz {
                1int
            } else {
                0int
            })
            &&& t.cbr_count == s.cbr_count + (if c.format == LocalChapterFormat::Cbr {
                1int
            } else {
                0int
            })
            &&& t.epub_count == s.epub_count + (if c.format == LocalChapterFormat::Epub {
                1int
            } else {
                0int
            })
            &&& t.volume_count == s.volume_count + (if c.volume is Some && forall|i: int|
                0 <= i < m.chapters.len() ==> (#[trigger] m.chapters[i]).volume != c.volume {
                1int
            } else {
                0int
            })
            &&& c.format != LocalChapterFormat::ImageFolder ==> t.total_bytes == s.total_bytes + (if exists|i: int|
                0 <= i < all.len() && takes_file(#[trigger] all[i], path_identity(c.source_path)) {
                0int
            } else {
                c.bytes as int
            })
            &&& c.format == LocalChapterFormat::ImageFolder && c.pages.len() == 0 ==> t.total_bytes == s.total_bytes
        }),
{
    let m2 = MangaModel { chapters: m.chapters.push(c), ..m };
    let one = front.push(m);
    let two = front.push(m2);
    assert(one.drop_last() =~= front && two.drop_last() =~= front);
    let all = all_chapters(one);
    let more = all_chapters(two);
    assert(more =~= all.push(c));
    assert(more.drop_last() =~= all);
    assert(m2.chapters.drop_last() =~= m.chapters);
    lemma_volumes(m.chapters);
    if let Some(v) = c.volume {
        if forall|i: int| 0 <= i < m.chapters.len() ==> (#[trigger] m.chapters[i]).volume != c.volume {
            assert(!volumes_in(m.chapters).contains(v));
        } else {
            assert(volumes_in(m.chapters).contains(v));
            assert(volumes_in(m.chapters).insert(v) =~= volumes_in(m.chapters));
        }
    }
    let files = library_files(all);
    if c.format != LocalChapterFormat::ImageFolder {
        let id = path_identity(c.source_path);
        lemma_library_files(all, id);
        assert(library_files(more) =~= files.push((id, c.bytes)));
        assert(library_files(more).drop_last() =~= files);
    } else if c.pages.len() == 0 {
        assert(library_files(more) =~= files);
    }
}

/// One more image of the last chapter, a folder, adds its size, unless its file
/// has been counted.
pub proof fn one_more_image_is_counted(
    path: PathModel,
    front: Seq<MangaModel>,
    m: MangaModel,
    c: ChapterModel,
    page: PageModel,
    file: PathModel,
)
    requires
        c.format == LocalChapterFormat::ImageFolder,
        page.source == SourceModel::File(file),
    ensures
        ({
            let before = front.push(MangaModel { chapters: m.chapters.push(c), ..m });
            let bigger = ChapterModel { pages: c.pages.push(page), ..c };
            let after = front.push(MangaModel { chapters: m.chapters.push(bigger), ..m });
            let all = all_chapters(before);
            stats_of(path, after).total_bytes == stats_of(path, before).total_bytes + (if exists|i: int|
                0 <= i < all.len() && takes_file(#[trigger] all[i], path_identity(file)) {
                0int
            } else {
                page.bytes as int
            })
        }),
{
    let bigger = ChapterModel { pages: c.pages.push(page), ..c };
    let m1 = MangaModel { chapters: m.chapters.push(c), ..m };
    let m2 = MangaModel { chapters: m.chapters.push(bigger), ..m };
    let before = front.push(m1);
    let after = front.push(m2);
    assert(before.drop_last() =~= front && after.drop_last() =~= front);
    let base = all_chapters(front) + m.chapters;
    let all = all_chapters(before);
    let more = all_chapters(after);
    assert(all =~= base.push(c));
    assert(more =~= base.push(bigger));
    assert(all.drop_last() =~= base && more.drop_last() =~= base);
    assert(bigger.pages.drop_last() =~= c.pages);
    let files = library_files(all);
    let id = path_identity(file);
    assert(library_files(more) =~= files.push((id, page.bytes)));
    assert(library_files(more).drop_last() =~= files);
    lemma_library_files(all, id);
}

proof fn lemma_small_sizes_are_doubles(bytes: nat)
    requires
        bytes < 0x20_0000_0000_0000,
    ensures
        as_double(bytes) == bytes,
{
    assert(double_step(bytes) == 1);
    assert(bytes % 1 == 0 && bytes / 1 == bytes);
    assert(half_even(bytes, 1) == bytes);
}

proof fn lemma_half_even(n: nat, d: nat)
    requires
        d > 0,
    ensures
        2 * n <= 2 * (half_even(n, d) * d) + d,
        2 * (half_even(n, d) * d) <= 2 * n + d,
        2 * n == 2 * (half_even(n, d) * d) + d || 2 * (half_even(n, d) * d) == 2 * n + d ==> half_even(n, d) % 2 == 0,
{
    let q = n / d;
    let r = n % d;
    vstd::arithmetic::div_mod::lemma_fundamental_div_mod(n as int, d as int);
    assert(n == q * d + r) by (nonlinear_arith)
        requires
            n == d * q + r,
    ;
    assert((q + 1) * d == q * d + d) by (nonlinear_arith);
}

/// The tenths of a unit in which a size is told are the nearest to it, the even
/// ones where two are equally near.
pub open spec fn are_nearest_tenths(bytes: nat, unit_bytes: nat, tenths: nat) -> bool {
    &&& 20 * bytes <= 2 * (tenths * unit_bytes) + unit_bytes
    &&& 2 * (tenths * unit_bytes) <= 20 * bytes + unit_bytes
    &&& 20 * bytes == 2 * (tenths * unit_bytes) + unit_bytes || 2 * (tenths * unit_bytes) == 20 * bytes
        + unit_bytes ==> tenths % 2 == 0
}

/// Below a KiB a size is told in bytes. From there on it is told in KiB, MiB, GiB
/// or TiB, the largest of them that is not larger than the size, with one
/// decimal, rounded to the nearest.
pub proof fn sizes_are_told_in_the_largest_unit(bytes: nat) -> (tenths: nat)
    requires
        bytes < 0x20_0000_0000_0000,
    ensures
        ({
            let amount = decimal(tenths / 10) + "."@ + decimal(tenths % 10);
            &&& bytes < 1024 ==> readable_size(bytes) == decimal(bytes) + " B"@
            &&& 1024 <= bytes && bytes < 1024 * 1024 ==> are_nearest_tenths(bytes, 1024, tenths) && readable_size(
                bytes,
            ) == amount + " KiB"@
            &&& 1024 * 1024 <= bytes && bytes < 1024 * 1024 * 1024 ==> are_nearest_tenths(bytes, 1024 * 1024, tenths)
                && readable_size(bytes) == amount + " MiB"@
            &&& 1024 * 1024 * 1024 <= bytes && bytes < 1024 * 1024 * 1024 * 1024 ==> are_nearest_tenths(
                bytes,
                1024 * 1024 * 1024,
                tenths,
            ) && readable_size(bytes) == amount + " GiB"@
            &&& 1024 * 1024 * 1024 * 1024 <= bytes ==> are_nearest_tenths(bytes, 1024 * 1024 * 1024 * 1024, tenths)
                && readable_size(bytes) == amount + " TiB"@
        }),
{
    lemma_small_sizes_are_doubles(bytes);
    reveal_strlit(" ");
    reveal_strlit("B");
    reveal_strlit("KiB");
    reveal_strlit("MiB");
    reveal_strlit("GiB");
    reveal_strlit("TiB");
    reveal_strlit(" B");
    reveal_strlit(" KiB");
    reveal_strlit(" MiB");
    reveal_strlit(" GiB");
    reveal_strlit(" TiB");
    let (divisor, name) = unit(unit_index(bytes));
    let tenths = half_even(10 * bytes, divisor);
    lemma_half_even(10 * bytes, divisor);
    let amount = decimal(tenths / 10) + "."@ + decimal(tenths % 10);
    assert(" "@ + "B"@ =~= " B"@);
    assert(" "@ + "KiB"@ =~= " KiB"@);
    assert(" "@ + "MiB"@ =~= " MiB"@);
    assert(" "@ + "GiB"@ =~= " GiB"@);
    assert(" "@ + "TiB"@ =~= " TiB"@);
    assert(amount + " "@ + name =~= amount + (" "@ + name));
    assert(decimal(bytes) + " "@ + name =~= decimal(bytes) + (" "@ + name));
    tenths
}

} // verus!
