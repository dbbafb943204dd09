//! The index of a library: where its mangas and pages are, and its totals.
use crate::components::{identity_of, path_identity};
use crate::error::{ErrorModel, LocalError};
use crate::formats::LocalChapterFormat;
use crate::model::{
    chapter_views, manga_views, page_views, ChapterModel, LocalChapter, LocalManga, LocalPage, LocalPageSource,
    MangaModel, PageModel, SourceModel,
};
use crate::path::{path_of, LocalPath, PathModel};
use crate::textmap::TextMap;
use vstd::prelude::*;

verus! {

/// The totals of a library.
#[derive(Clone, Debug, PartialEq, Eq)]
pub struct LocalLibraryStats {
    pub library_path: LocalPath,
    pub manga_count: usize,
    pub volume_count: usize,
    pub chapter_count: usize,
    pub page_count: usize,
    pub image_folder_count: usize,
    pub cbz_count: usize,
    pub cbr_count: usize,
    pub epub_count: usize,
    pub total_bytes: u64,
}

pub struct StatsModel {
    pub library_path: PathModel,
    pub manga_count: nat,
    pub volume_count: nat,
    pub chapter_count: nat,
    pub page_count: nat,
    pub image_folder_count: nat,
    pub cbz_count: nat,
    pub cbr_count: nat,
    pub epub_count: nat,
    pub total_bytes: nat,
}

impl View for LocalLibraryStats {
    type V = StatsModel;

    open spec fn view(&self) -> StatsModel {
        StatsModel {
            library_path: self.library_path@,
            manga_count: self.manga_count as nat,
            volume_count: self.volume_count as nat,
            chapter_count: self.chapter_count as nat,
            page_count: self.page_count as nat,
            image_folder_count: self.image_folder_count as nat,
            cbz_count: self.cbz_count as nat,
            cbr_count: self.cbr_count as nat,
            epub_count: self.epub_count as nat,
            total_bytes: self.total_bytes as nat,
        }
    }
}

impl Default for LocalLibraryStats {
    /// The totals of nothing, at an empty path.
    fn default() -> (r: Self)
        ensures
            r@ == (StatsModel {
                library_path: path_of(""@),
                manga_count: 0,
                volume_count: 0,
                chapter_count: 0,
                page_count: 0,
                image_folder_count: 0,
                cbz_count: 0,
                cbr_count: 0,
                epub_count: 0,
                total_bytes: 0,
            }),
    {
        LocalLibraryStats {
            library_path: LocalPath::new(""),
            manga_count: 0,
            volume_count: 0,
            chapter_count: 0,
            page_count: 0,
            image_folder_count: 0,
            cbz_count: 0,
            cbr_count: 0,
            epub_count: 0,
            total_bytes: 0,
        }
    }
}

impl LocalLibraryStats {
    /// How many chapters are archives.
    pub fn archive_count(&self) -> (r: usize)
        requires
            self.cbz_count + self.cbr_count + self.epub_count <= usize::MAX,
        ensures
            r == self.cbz_count + self.cbr_count + self.epub_count,
    {
        self.cbz_count + self.cbr_count + self.epub_count
    }

    pub fn copy(&self) -> (r: LocalLibraryStats)
        ensures
            r@ == self@,
    {
        LocalLibraryStats {
            library_path: self.library_path.copy(),
            manga_count: self.manga_count,
            volume_count: self.volume_count,
            chapter_count: self.chapter_count,
            page_count: self.page_count,
            image_folder_count: self.image_folder_count,
            cbz_count: self.cbz_count,
            cbr_count: self.cbr_count,
            epub_count: self.epub_count,
            total_bytes: self.total_bytes,
        }
    }
}

/// The chapters of all mangas, one manga after the other.
pub open spec fn all_chapters(mangas: Seq<MangaModel>) -> Seq<ChapterModel>
    decreases mangas.len(),
{
    if mangas.len() == 0 {
        Seq::empty()
    } else {
        all_chapters(mangas.drop_last()) + mangas.last().chapters
    }
}

/// How many pages the chapters have together.
pub open spec fn page_total(chapters: Seq<ChapterModel>) -> nat
    decreases chapters.len(),
{
    if chapters.len() == 0 {
        0
    } else {
        page_total(chapters.drop_last()) + chapters.last().pages.len()
    }
}

/// How many of the chapters have a format.
pub open spec fn format_total(chapters: Seq<ChapterModel>, format: LocalChapterFormat) -> nat
    decreases chapters.len(),
{
    if chapters.len() == 0 {
        0
    } else {
        format_total(chapters.drop_last(), format) + if chapters.last().format == format {
            1nat
        } else {
            0nat
        }
    }
}

/// The volumes that the chapters of a manga name.
pub open spec fn volumes_in(chapters: Seq<ChapterModel>) -> Set<Seq<char>>
    decreases chapters.len(),
{
    if chapters.len() == 0 {
        Set::empty()
    } else {
        match chapters.last().volume {
            Some(volume) => volumes_in(chapters.drop_last()).insert(volume),
            None => volumes_in(chapters.drop_last()),
        }
    }
}

/// How many volumes the mangas have together.
pub open spec fn volume_total(mangas: Seq<MangaModel>) -> nat
    decreases mangas.len(),
{
    if mangas.len() == 0 {
        0
    } else {
        volume_total(mangas.drop_last()) + volumes_in(mangas.last().chapters).len()
    }
}

/// The files of the pages, with their sizes.
pub open spec fn page_files(pages: Seq<PageModel>) -> Seq<(Seq<char>, u64)>
    decreases pages.len(),
{
    if pages.len() == 0 {
        Seq::empty()
    } else {
        match pages.last().source {
            SourceModel::File(path) => page_files(pages.drop_last()).push(
                (path_identity(path), pages.last().bytes),
            ),
            _ => page_files(pages.drop_last()),
        }
    }
}

/// The files of a chapter, with their sizes: those of its pages for a folder,
/// else the archive.
pub open spec fn chapter_files(c: ChapterModel) -> Seq<(Seq<char>, u64)> {
    match c.format {
        LocalChapterFormat::ImageFolder => page_files(c.pages),
        _ => seq![(path_identity(c.source_path), c.bytes)],
    }
}

/// The files of the chapters, with their sizes.
pub open spec fn library_files(chapters: Seq<ChapterModel>) -> Seq<(Seq<char>, u64)>
    decreases chapters.len(),
{
    if chapters.len() == 0 {
        Seq::empty()
    } else {
        library_files(chapters.drop_last()) + chapter_files(chapters.last())
    }
}

pub open spec fn names_file(files: Seq<(Seq<char>, u64)>, identity: Seq<char>) -> bool {
    exists|i: int| 0 <= i < files.len() && (#[trigger] files[i]).0 == identity
}

/// The sizes of the files together, each file counted once.
pub open spec fn byte_total(files: Seq<(Seq<char>, u64)>) -> nat
    decreases files.len(),
{
    if files.len() == 0 {
        0
    } else {
        byte_total(files.drop_last()) + if names_file(files.drop_last(), files.last().0) {
            0nat
        } else {
            files.last().1 as nat
        }
    }
}

/// The totals of the library at a path.
pub open spec fn stats_of(path: PathModel, mangas: Seq<MangaModel>) -> StatsModel {
    let chapters = all_chapters(mangas);
    StatsModel {
        library_path: path,
        manga_count: mangas.len(),
        volume_count: volume_total(mangas),
        chapter_count: chapters.len(),
        page_count: page_total(chapters),
        image_folder_count: format_total(chapters, LocalChapterFormat::ImageFolder),
        cbz_count: format_total(chapters, LocalChapterFormat::Cbz),
        cbr_count: format_total(chapters, LocalChapterFormat::Cbr),
        epub_count: format_total(chapters, LocalChapterFormat::Epub),
        total_bytes: byte_total(library_files(chapters)),
    }
}

/// Whether the totals of a library can be told.
pub open spec fn fits(mangas: Seq<MangaModel>) -> bool {
    let chapters = all_chapters(mangas);
    &&& chapters.len() <= usize::MAX
    &&& page_total(chapters) <= usize::MAX
    &&& byte_total(library_files(chapters)) <= u64::MAX
}

/// Where each manga stands; of two with one identifier, the later one.
pub open spec fn manga_places(mangas: Seq<MangaModel>) -> Map<Seq<char>, usize>
    decreases mangas.len(),
{
    if mangas.len() == 0 {
        Map::empty()
    } else {
        manga_places(mangas.drop_last()).insert(mangas.last().id, (mangas.len() - 1) as usize)
    }
}

/// `sources`, and where the images of these pages are.
pub open spec fn add_sources(
    sources: Map<Seq<char>, SourceModel>,
    pages: Seq<PageModel>,
) -> Map<Seq<char>, SourceModel>
    decreases pages.len(),
{
    if pages.len() == 0 {
        sources
    } else {
        add_sources(sources, pages.drop_last()).insert(pages.last().url, pages.last().source)
    }
}

/// Where the image of each page is, by the URL of the page; of two pages with
/// one URL, that of the later one.
pub open spec fn sources_of(chapters: Seq<ChapterModel>) -> Map<Seq<char>, SourceModel>
    decreases chapters.len(),
{
    if chapters.len() == 0 {
        Map::empty()
    } else {
        add_sources(sources_of(chapters.drop_last()), chapters.last().pages)
    }
}

pub open spec fn source_views(m: Map<Seq<char>, LocalPageSource>) -> Map<Seq<char>, SourceModel> {
    m.map_values(|s: LocalPageSource| s@)
}

pub open spec fn chapter_refs(v: Seq<&LocalChapter>) -> Seq<ChapterModel> {
    Seq::new(v.len(), |i: int| v[i]@)
}

/// The chapters of all mangas.
fn flat_chapters<'a>(mangas: &'a Vec<LocalManga>) -> (r: Vec<&'a LocalChapter>)
    ensures
        chapter_refs(r@) == all_chapters(manga_views(mangas@)),
{
    let ghost list = manga_views(mangas@);
    let mut r: Vec<&'a LocalChapter> = Vec::new();
    let mut i: usize = 0;
    while i < mangas.len()
        invariant
            i <= mangas.len(),
            list == manga_views(mangas@),
            chapter_refs(r@) == all_chapters(list.take(i as int)),
        decreases mangas.len() - i,
    {
        let ghost before = chapter_refs(r@);
        let chapters: &'a Vec<LocalChapter> = &mangas[i].chapters;
        let mut j: usize = 0;
        while j < chapters.len()
            invariant
                j <= chapters.len(),
                chapter_refs(r@) == before + chapter_views(chapters@).take(j as int),
            decreases chapters.len() - j,
        {
            let ghost last = chapter_refs(r@);
            r.push(&chapters[j]);
            assert(chapter_refs(r@) == last.push(chapters@[j as int]@));
            assert(chapter_views(chapters@).take(j + 1) == chapter_views(chapters@).take(
                j as int,
            ).push(chapters@[j as int]@));
            j += 1;
        }
        assert(chapter_views(chapters@).take(j as int) == chapter_views(chapters@));
        assert(list.take(i + 1).drop_last() == list.take(i as int));
        assert(list.take(i + 1).last() == mangas@[i as int]@);
        i += 1;
    }
    assert(list.take(i as int) == list);
    r
}

fn index_mangas(mangas: &Vec<LocalManga>) -> (r: TextMap<usize>)
    ensures
        r@ == manga_places(manga_views(mangas@)),
{
    let ghost list = manga_views(mangas@);
    let mut r: TextMap<usize> = TextMap::new();
    let mut i: usize = 0;
    while i < mangas.len()
        invariant
            i <= mangas.len(),
            list == manga_views(mangas@),
            r@ == manga_places(list.take(i as int)),
        decreases mangas.len() - i,
    {
        r = r.insert(mangas[i].id.clone(), i);
        assert(list.take(i + 1).drop_last() == list.take(i as int));
        assert(list.take(i + 1).last() == mangas@[i as int]@);
        i += 1;
    }
    assert(list.take(i as int) == list);
    r
}

fn index_pages(chapters: &Vec<&LocalChapter>) -> (r: TextMap<LocalPageSource>)
    ensures
        source_views(r@) == sources_of(chapter_refs(chapters@)),
{
    let ghost list = chapter_refs(chapters@);
    let mut r: TextMap<LocalPageSource> = TextMap::new();
    assert(source_views(r@) == Map::<Seq<char>, SourceModel>::empty());
    let mut i: usize = 0;
    while i < chapters.len()
        invariant
            i <= chapters.len(),
            list == chapter_refs(chapters@),
            source_views(r@) == sources_of(list.take(i as int)),
        decreases chapters.len() - i,
    {
        let ghost before = source_views(r@);
        let pages: &Vec<LocalPage> = &chapters[i].pages;
        let ghost page_list = page_views(pages@);
        let mut j: usize = 0;
        while j < pages.len()
            invariant
                j <= pages.len(),
                page_list == page_views(pages@),
                source_views(r@) == add_sources(before, page_list.take(j as int)),
            decreases pages.len() - j,
        {
            let ghost map = r@;
            let source: LocalPageSource = pages[j].source.copy();
            r = r.insert(pages[j].url.clone(), source);
            assert(source_views(r@) == source_views(map).insert(pages@[j as int].url@, source@));
            assert(page_list.take(j + 1).drop_last() == page_list.take(j as int));
            assert(page_list.take(j + 1).last() == pages@[j as int]@);
            j += 1;
        }
        assert(page_list.take(j as int) == page_list);
        assert(list.take(i + 1).drop_last() == list.take(i as int));
        assert(list.take(i + 1).last() == chapters@[i as int]@);
        i += 1;
    }
    assert(list.take(i as int) == list);
    r
}

pub open spec fn file_views(v: Seq<(String, u64)>) -> Seq<(Seq<char>, u64)> {
    Seq::new(v.len(), |i: int| (v[i].0@, v[i].1))
}

fn add_page_files(pages: &Vec<LocalPage>, files: &mut Vec<(String, u64)>)
    ensures
        file_views(final(files)@) == file_views(old(files)@) + page_files(page_views(pages@)),
{
    let ghost list = page_views(pages@);
    let ghost start = file_views(files@);
    let mut j: usize = 0;
    while j < pages.len()
        invariant
            j <= pages.len(),
            list == page_views(pages@),
            file_views(files@) == start + page_files(list.take(j as int)),
        decreases pages.len() - j,
    {
        let ghost before = file_views(files@);
        assert(list.take(j + 1).drop_last() == list.take(j as int));
        assert(list.take(j + 1).last() == pages@[j as int]@);
        match &pages[j].source {
            LocalPageSource::File(path) => {
                files.push((identity_of(path), pages[j].bytes));
                assert(file_views(files@) == before.push(
                    (path_identity(path@), pages@[j as int].bytes),
                ));
            },
            _ => {},
        }
        j += 1;
    }
    assert(list.take(j as int) == list);
}

/// The files of the chapters, with their sizes.
fn files_of(chapters: &Vec<&LocalChapter>) -> (r: Vec<(String, u64)>)
    ensures
        file_views(r@) == library_files(chapter_refs(chapters@)),
{
    let ghost list = chapter_refs(chapters@);
    let mut r: Vec<(String, u64)> = Vec::new();
    let mut i: usize = 0;
    while i < chapters.len()
        invariant
            i <= chapters.len(),
            list == chapter_refs(chapters@),
            file_views(r@) == library_files(list.take(i as int)),
        decreases chapters.len() - i,
    {
        let ghost before = file_views(r@);
        assert(list.take(i + 1).drop_last() == list.take(i as int));
        assert(list.take(i + 1).last() == chapters@[i as int]@);
        match chapters[i].format {
            LocalChapterFormat::ImageFolder => {
                add_page_files(&chapters[i].pages, &mut r);
            },
            _ => {
                r.push((identity_of(&chapters[i].source_path), chapters[i].bytes));
                assert(file_views(r@) == before + chapter_files(chapters@[i as int]@));
            },
        }
        i += 1;
    }
    assert(list.take(i as int) == list);
    r
}

proof fn lemma_byte_total(files: Seq<(Seq<char>, u64)>, n: int)
    requires
        0 <= n <= files.len(),
    ensures
        byte_total(files.take(n)) <= byte_total(files),
    decreases files.len(),
{
    if n < files.len() {
        assert(files.drop_last().take(n) == files.take(n));
        lemma_byte_total(files.drop_last(), n);
    } else {
        assert(files.take(n) == files);
    }
}

/// The sizes of the files together, where that can be told.
fn sum_bytes(files: &Vec<(String, u64)>) -> (r: Option<u64>)
    ensures
        match r {
            Some(total) => total == byte_total(file_views(files@)),
            None => byte_total(file_views(files@)) > u64::MAX,
        },
{
    let ghost list = file_views(files@);
    let mut seen: TextMap<()> = TextMap::new();
    let mut total: u64 = 0;
    let mut i: usize = 0;
    while i < files.len()
        invariant
            i <= files.len(),
            list == file_views(files@),
            forall|k: Seq<char>| #[trigger]
                seen@.contains_key(k) <==> names_file(list.take(i as int), k),
            total == byte_total(list.take(i as int)),
        decreases files.len() - i,
    {
        let ghost before = seen@;
        let ghost part = list.take(i as int);
        let ghost next = list.take(i + 1);
        proof {
            assert(next.drop_last() == part);
            assert(next.last() == (files@[i as int].0@, files@[i as int].1));
            lemma_byte_total(list, i + 1);
            assert forall|k: Seq<char>| names_file(next, k) <==> names_file(part, k) || k
                == next.last().0 by {
                if names_file(part, k) {
                    let m = choose|m: int| 0 <= m < part.len() && (#[trigger] part[m]).0 == k;
                    assert(next[m] == part[m]);
                }
                if names_file(next, k) && k != next.last().0 {
                    let m = choose|m: int| 0 <= m < next.len() && (#[trigger] next[m]).0 == k;
                    assert(part[m] == next[m]);
                }
                if k == next.last().0 {
                    assert(next[next.len() - 1].0 == k);
                }
            }
        }
        if seen.get(&files[i].0).is_none() {
            match total.checked_add(files[i].1) {
                None => {
                    return None;
                },
                Some(sum) => {
                    total = sum;
                },
            }
            seen = seen.insert(files[i].0.clone(), ());
        }
        i += 1;
    }
    assert(list.take(i as int) == list);
    Some(total)
}

proof fn lemma_page_total(chapters: Seq<ChapterModel>, n: int)
    requires
        0 <= n <= chapters.len(),
    ensures
        page_total(chapters.take(n)) <= page_total(chapters),
    decreases chapters.len(),
{
    if n < chapters.len() {
        assert(chapters.drop_last().take(n) == chapters.take(n));
        lemma_page_total(chapters.drop_last(), n);
    } else {
        assert(chapters.take(n) == chapters);
    }
}

/// How many pages the chapters have together, where that can be told.
fn count_pages(chapters: &Vec<&LocalChapter>) -> (r: Option<usize>)
    ensures
        match r {
            Some(total) => total == page_total(chapter_refs(chapters@)),
            None => page_total(chapter_refs(chapters@)) > usize::MAX,
        },
{
    let ghost list = chapter_refs(chapters@);
    let mut total: usize = 0;
    let mut i: usize = 0;
    while i < chapters.len()
        invariant
            i <= chapters.len(),
            list == chapter_refs(chapters@),
            total == page_total(list.take(i as int)),
        decreases chapters.len() - i,
    {
        proof {
            assert(list.take(i + 1).drop_last() == list.take(i as int));
            assert(list.take(i + 1).last() == chapters@[i as int]@);
            lemma_page_total(list, i + 1);
        }
        match total.checked_add(chapters[i].pages.len()) {
            None => {
                return None;
            },
            Some(sum) => {
                total = sum;
            },
        }
        i += 1;
    }
    assert(list.take(i as int) == list);
    Some(total)
}

proof fn lemma_format_total(chapters: Seq<ChapterModel>, format: LocalChapterFormat)
    ensures
        format_total(chapters, format) <= chapters.len(),
    decreases chapters.len(),
{
    if chapters.len() > 0 {
        lemma_format_total(chapters.drop_last(), format);
    }
}

/// How many of the chapters have a format.
fn count_format(chapters: &Vec<&LocalChapter>, format: LocalChapterFormat) -> (r: usize)
    ensures
        r == format_total(chapter_refs(chapters@), format),
{
    let ghost list = chapter_refs(chapters@);
    let mut total: usize = 0;
    let mut i: usize = 0;
    while i < chapters.len()
        invariant
            i <= chapters.len(),
            list == chapter_refs(chapters@),
            total == format_total(list.take(i as int), format),
        decreases chapters.len() - i,
    {
        proof {
            assert(list.take(i + 1).drop_last() == list.take(i as int));
            assert(list.take(i + 1).last() == chapters@[i as int]@);
            lemma_format_total(list.take(i as int), format);
        }
        if chapters[i].format == format {
            total += 1;
        }
        i += 1;
    }
    assert(list.take(i as int) == list);
    total
}

proof fn lemma_volumes_in(chapters: Seq<ChapterModel>)
    ensures
        volumes_in(chapters).finite(),
        volumes_in(chapters).len() <= chapters.len(),
    decreases chapters.len(),
{
    if chapters.len() > 0 {
        lemma_volumes_in(chapters.drop_last());
    }
}

proof fn lemma_volume_total(mangas: Seq<MangaModel>, n: int)
    requires
        0 <= n <= mangas.len(),
    ensures
        volume_total(mangas.take(n)) <= volume_total(mangas),
        volume_total(mangas) <= all_chapters(mangas).len(),
    decreases mangas.len(),
{
    if mangas.len() > 0 {
        lemma_volumes_in(mangas.last().chapters);
        if n < mangas.len() {
            assert(mangas.drop_last().take(n) == mangas.take(n));
            lemma_volume_total(mangas.drop_last(), n);
        } else {
            assert(mangas.take(n) == mangas);
            lemma_volume_total(mangas.drop_last(), n - 1);
        }
    }
}

/// How many volumes the chapters of a manga name.
fn count_manga_volumes(chapters: &Vec<LocalChapter>) -> (r: usize)
    ensures
        r == volumes_in(chapter_views(chapters@)).len(),
{
    let ghost list = chapter_views(chapters@);
    let mut seen: TextMap<()> = TextMap::new();
    assert(seen@.dom() == Set::<Seq<char>>::empty());
    let mut i: usize = 0;
    while i < chapters.len()
        invariant
            i <= chapters.len(),
            list == chapter_views(chapters@),
            seen@.dom() == volumes_in(list.take(i as int)),
        decreases chapters.len() - i,
    {
        let ghost before = seen@;
        assert(list.take(i + 1).drop_last() == list.take(i as int));
        assert(list.take(i + 1).last() == chapters@[i as int]@);
        match &chapters[i].volume {
            Some(volume) => {
                seen = seen.insert(volume.clone(), ());
                assert(seen@.dom() == before.dom().insert(volume@));
            },
            None => {},
        }
        i += 1;
    }
    assert(list.take(i as int) == list);
    seen.len()
}

/// How many volumes the mangas have together.
fn count_volumes(mangas: &Vec<LocalManga>) -> (r: usize)
    requires
        all_chapters(manga_views(mangas@)).len() <= usize::MAX,
    ensures
        r == volume_total(manga_views(mangas@)),
{
    let ghost list = manga_views(mangas@);
    let mut total: usize = 0;
    let mut i: usize = 0;
    while i < mangas.len()
        invariant
            i <= mangas.len(),
            list == manga_views(mangas@),
            all_chapters(list).len() <= usize::MAX,
            total == volume_total(list.take(i as int)),
        decreases mangas.len() - i,
    {
        proof {
            assert(list.take(i + 1).drop_last() == list.take(i as int));
            assert(list.take(i + 1).last() == mangas@[i as int]@);
            lemma_volume_total(list, i + 1);
        }
        total += count_manga_volumes(&mangas[i].chapters);
        i += 1;
    }
    assert(list.take(i as int) == list);
    total
}

/// Where the mangas and the pages of a library are, and its totals.
#[derive(Debug)]
pub struct LibraryIndex {
    pub manga_index: TextMap<usize>,
    pub page_sources: TextMap<LocalPageSource>,
    pub stats: LocalLibraryStats,
}

impl LibraryIndex {
    /// Whether this is the index of the library with these mangas at a path.
    pub open spec fn indexes(&self, path: PathModel, mangas: Seq<MangaModel>) -> bool {
        &&& self.manga_index@ == manga_places(mangas)
        &&& source_views(self.page_sources@) == sources_of(all_chapters(mangas))
        &&& self.stats@ == stats_of(path, mangas)
    }
}

/// The index of a library, or an error where its totals are too large to be
/// told.
pub fn build_library_index(library_path: &LocalPath, mangas: &Vec<LocalManga>) -> (r: Result<
    LibraryIndex,
    LocalError,
>)
    ensures
        match r {
            Ok(index) => fits(manga_views(mangas@)) && index.indexes(
                library_path@,
                manga_views(mangas@),
            ),
            Err(e) => !fits(manga_views(mangas@)) && e@ == ErrorModel::TooLarge(library_path@.text),
        },
{
    let chapters: Vec<&LocalChapter> = flat_chapters(mangas);
    let files: Vec<(String, u64)> = files_of(&chapters);
    let page_count: usize = match count_pages(&chapters) {
        Some(total) => total,
        None => {
            return Err(LocalError::TooLarge(library_path.text.clone()));
        },
    };
    let total_bytes: u64 = match sum_bytes(&files) {
        Some(total) => total,
        None => {
            return Err(LocalError::TooLarge(library_path.text.clone()));
        },
    };
    assert(chapter_refs(chapters@).len() == chapters.len());
    let stats: LocalLibraryStats = LocalLibraryStats {
        library_path: library_path.copy(),
        manga_count: mangas.len(),
        volume_count: count_volumes(mangas),
        chapter_count: chapters.len(),
        page_count,
        image_folder_count: count_format(&chapters, LocalChapterFormat::ImageFolder),
        cbz_count: count_format(&chapters, LocalChapterFormat::Cbz),
        cbr_count: count_format(&chapters, LocalChapterFormat::Cbr),
        epub_count: count_format(&chapters, LocalChapterFormat::Epub),
        total_bytes,
    };
    Ok(
        LibraryIndex {
            manga_index: index_mangas(mangas),
            page_sources: index_pages(&chapters),
            stats,
        },
    )
}

proof fn lemma_formats(chapters: Seq<ChapterModel>)
    ensures
        format_total(chapters, LocalChapterFormat::ImageFolder) + format_total(
            chapters,
            LocalChapterFormat::Cbz,
        ) + format_total(chapters, LocalChapterFormat::Cbr) + format_total(
            chapters,
            LocalChapterFormat::Epub,
        ) == chapters.len(),
    decreases chapters.len(),
{
    if chapters.len() > 0 {
        lemma_formats(chapters.drop_last());
    }
}

/// The chapters of a library are its image folders and its archives, and it
/// has no more volumes than chapters.
pub proof fn totals_agree(path: PathModel, mangas: Seq<MangaModel>)
    ensures
        stats_of(path, mangas).image_folder_count + stats_of(path, mangas).cbz_count + stats_of(
            path,
            mangas,
        ).cbr_count + stats_of(path, mangas).epub_count == stats_of(path, mangas).chapter_count,
        stats_of(path, mangas).volume_count <= stats_of(path, mangas).chapter_count,
{
    lemma_formats(all_chapters(mangas));
    lemma_volume_total(mangas, 0);
}

proof fn lemma_add_sources(sources: Map<Seq<char>, SourceModel>, pages: Seq<PageModel>, i: int)
    requires
        0 <= i < pages.len(),
    ensures
        add_sources(sources, pages).contains_key(pages[i].url),
    decreases pages.len(),
{
    if i < pages.len() - 1 {
        lemma_add_sources(sources, pages.drop_last(), i);
    }
}

proof fn lemma_sources_stay(sources: Map<Seq<char>, SourceModel>, pages: Seq<PageModel>, url: Seq<char>)
    requires
        sources.contains_key(url),
    ensures
        add_sources(sources, pages).contains_key(url),
    decreases pages.len(),
{
    if pages.len() > 0 {
        lemma_sources_stay(sources, pages.drop_last(), url);
    }
}

/// The image of every page can be found by the URL of the page.
pub proof fn every_page_has_a_source(chapters: Seq<ChapterModel>, i: int, j: int)
    requires
        0 <= i < chapters.len(),
        0 <= j < chapters[i].pages.len(),
    ensures
        sources_of(chapters).contains_key(chapters[i].pages[j].url),
    decreases chapters.len(),
{
    if i == chapters.len() - 1 {
        lemma_add_sources(sources_of(chapters.drop_last()), chapters.last().pages, j);
    } else {
        every_page_has_a_source(chapters.drop_last(), i, j);
        lemma_sources_stay(
            sources_of(chapters.drop_last()),
            chapters.last().pages,
            chapters[i].pages[j].url,
        );
    }
}

proof fn lemma_source_of_page(
    sources: Map<Seq<char>, SourceModel>,
    pages: Seq<PageModel>,
    url: Seq<char>,
)
    requires
        add_sources(sources, pages).contains_key(url),
    ensures
        (sources.contains_key(url) && add_sources(sources, pages)[url] == sources[url]) || exists|
            j: int,
        |
            0 <= j < pages.len() && (#[trigger] pages[j]).url == url && pages[j].source
                == add_sources(sources, pages)[url],
    decreases pages.len(),
{
    if pages.len() > 0 {
        let front = pages.drop_last();
        if pages.last().url == url {
            assert(pages[pages.len() - 1].url == url);
        } else {
            lemma_source_of_page(sources, front, url);
            if exists|j: int|
                0 <= j < front.len() && (#[trigger] front[j]).url == url && front[j].source
                    == add_sources(sources, front)[url] {
                let j = choose|j: int|
                    0 <= j < front.len() && (#[trigger] front[j]).url == url && front[j].source
                        == add_sources(sources, front)[url];
                assert(pages[j] == front[j]);
            }
        }
    }
}

/// Whether a page of the chapters has a URL and a source.
pub open spec fn has_page(chapters: Seq<ChapterModel>, url: Seq<char>, source: SourceModel) -> bool {
    exists|i: int, j: int|
        0 <= i < chapters.len() && 0 <= j < chapters[i].pages.len() && (
        #[trigger] chapters[i].pages[j]).url == url && chapters[i].pages[j].source == source
}

/// What the index gives for a URL is where a page with that URL is.
pub proof fn sources_are_those_of_pages(chapters: Seq<ChapterModel>, url: Seq<char>)
    requires
        sources_of(chapters).contains_key(url),
    ensures
        has_page(chapters, url, sources_of(chapters)[url]),
    decreases chapters.len(),
{
    let front = chapters.drop_last();
    let before = sources_of(front);
    let pages = chapters.last().pages;
    lemma_source_of_page(before, pages, url);
    if exists|j: int|
        0 <= j < pages.len() && (#[trigger] pages[j]).url == url && pages[j].source
            == sources_of(chapters)[url] {
        let j = choose|j: int|
            0 <= j < pages.len() && (#[trigger] pages[j]).url == url && pages[j].source
                == sources_of(chapters)[url];
        assert(chapters[chapters.len() - 1].pages[j] == pages[j]);
    } else {
        sources_are_those_of_pages(front, url);
        let (i, j) = choose|i: int, j: int|
            0 <= i < front.len() && 0 <= j < front[i].pages.len() && (
            #[trigger] front[i].pages[j]).url == url && front[i].pages[j].source == before[url];
        assert(chapters[i].pages[j] == front[i].pages[j]);
    }
}

/// Every manga can be found by its identifier, as the last one that has it.
pub proof fn every_manga_has_a_place(mangas: Seq<MangaModel>, i: int)
    requires
        0 <= i < mangas.len() <= usize::MAX,
    ensures
        manga_places(mangas).contains_key(mangas[i].id),
        i <= manga_places(mangas)[mangas[i].id] < mangas.len(),
        mangas[manga_places(mangas)[mangas[i].id] as int].id == mangas[i].id,
    decreases mangas.len(),
{
    if i < mangas.len() - 1 {
        every_manga_has_a_place(mangas.drop_last(), i);
    }
}

} // verus!
