//! Mangas, chapters and pages of a local library.
use crate::double::{number_rank, number_rank_of};
use crate::formats::LocalChapterFormat;
use crate::natural::{natural_key, natural_key_of_text};
use crate::numbering::is_numeral;
use crate::order::{
    compare_keys, ints, key_lt, lemma_key_lt_asymmetric, lemma_key_lt_irreflexive, lemma_key_lt_total, KeyOrder,
};
use crate::path::{copy_opt, opt_view, LocalPath, PathModel};
use std::cmp::Ordering;
use vstd::prelude::*;

verus! {

/// Where the image of a page is.
#[derive(Clone, Debug, PartialEq, Eq)]
pub enum LocalPageSource {
    /// In a file of its own.
    File(LocalPath),
    /// In an entry of a ZIP archive.
    ZipEntry { archive_path: LocalPath, entry_name: String },
    /// In an entry of a RAR archive.
    RarEntry { archive_path: LocalPath, entry_name: String },
}

#[derive(Clone, Debug, PartialEq, Eq)]
pub struct LocalPage {
    pub url: String,
    pub extension: String,
    pub source: LocalPageSource,
    /// The size of the page's own file; zero where it has none.
    pub bytes: u64,
}

#[derive(Clone, Debug, PartialEq, Eq)]
pub struct LocalChapter {
    pub id: String,
    pub title: String,
    pub number: String,
    pub volume: Option<String>,
    pub source_path: LocalPath,
    pub format: LocalChapterFormat,
    pub pages: Vec<LocalPage>,
    /// The size of the archive; zero for a folder.
    pub bytes: u64,
}

#[derive(Clone, Debug, PartialEq, Eq)]
pub struct LocalManga {
    pub id: String,
    pub title: String,
    pub source_path: LocalPath,
    pub cover_img_url: String,
    pub chapters: Vec<LocalChapter>,
}

pub enum SourceModel {
    File(PathModel),
    ZipEntry { archive_path: PathModel, entry_name: Seq<char> },
    RarEntry { archive_path: PathModel, entry_name: Seq<char> },
}

pub struct PageModel {
    pub url: Seq<char>,
    pub extension: Seq<char>,
    pub source: SourceModel,
    pub bytes: u64,
}

pub struct ChapterModel {
    pub id: Seq<char>,
    pub title: Seq<char>,
    pub number: Seq<char>,
    pub volume: Option<Seq<char>>,
    pub source_path: PathModel,
    pub format: LocalChapterFormat,
    pub pages: Seq<PageModel>,
    pub bytes: u64,
}

pub struct MangaModel {
    pub id: Seq<char>,
    pub title: Seq<char>,
    pub source_path: PathModel,
    pub cover_img_url: Seq<char>,
    pub chapters: Seq<ChapterModel>,
}

impl View for LocalPageSource {
    type V = SourceModel;

    open spec fn view(&self) -> SourceModel {
        match self {
            LocalPageSource::File(path) => SourceModel::File(path@),
            LocalPageSource::ZipEntry { archive_path, entry_name } => SourceModel::ZipEntry {
                archive_path: archive_path@,
                entry_name: entry_name@,
            },
            LocalPageSource::RarEntry { archive_path, entry_name } => SourceModel::RarEntry {
                archive_path: archive_path@,
                entry_name: entry_name@,
            },
        }
    }
}

impl View for LocalPage {
    type V = PageModel;

    open spec fn view(&self) -> PageModel {
        PageModel {
            url: self.url@,
            extension: self.extension@,
            source: self.source@,
            bytes: self.bytes,
        }
    }
}

pub open spec fn page_views(v: Seq<LocalPage>) -> Seq<PageModel> {
    Seq::new(v.len(), |i: int| v[i]@)
}

impl View for LocalChapter {
    type V = ChapterModel;

    open spec fn view(&self) -> ChapterModel {
        ChapterModel {
            id: self.id@,
            title: self.title@,
            number: self.number@,
            volume: opt_view(self.volume),
            source_path: self.source_path@,
            format: self.format,
            pages: page_views(self.pages@),
            bytes: self.bytes,
        }
    }
}

pub open spec fn chapter_views(v: Seq<LocalChapter>) -> Seq<ChapterModel> {
    Seq::new(v.len(), |i: int| v[i]@)
}

impl View for LocalManga {
    type V = MangaModel;

    open spec fn view(&self) -> MangaModel {
        MangaModel {
            id: self.id@,
            title: self.title@,
            source_path: self.source_path@,
            cover_img_url: self.cover_img_url@,
            chapters: chapter_views(self.chapters@),
        }
    }
}

pub open spec fn manga_views(v: Seq<LocalManga>) -> Seq<MangaModel> {
    Seq::new(v.len(), |i: int| v[i]@)
}

/// Whether the number and the volume of a chapter are numerals.
pub open spec fn chapter_is_numbered(c: ChapterModel) -> bool {
    &&& is_numeral(c.number)
    &&& c.volume matches Some(v) ==> is_numeral(v)
}

/// By what the chapters of a manga are ordered: the volume, the number, and the
/// title in natural order. A chapter without a volume is of volume zero.
pub open spec fn chapter_key(c: ChapterModel) -> Seq<int> {
    let volume = match c.volume {
        Some(v) => v,
        None => "0"@,
    };
    seq![number_rank(volume), number_rank(c.number)] + natural_key(c.title)
}

pub open spec fn chapter_keys(v: Seq<ChapterModel>) -> Seq<Seq<int>> {
    Seq::new(v.len(), |i: int| chapter_key(v[i]))
}

/// By what a chapter is ordered.
pub fn chapter_key_of(c: &LocalChapter) -> (r: Vec<u128>)
    ensures
        ints(r@) == chapter_key(c@),
{
    let volume: u64 = match &c.volume {
        Some(v) => number_rank_of(v.as_str()),
        None => number_rank_of("0"),
    };
    let mut r: Vec<u128> = Vec::new();
    r.push(volume as u128);
    r.push(number_rank_of(c.number.as_str()) as u128);
    let mut title: Vec<u128> = natural_key_of_text(c.title.as_str());
    r.append(&mut title);
    assert(ints(r@) == chapter_key(c@));
    r
}

/// Compares two chapters of one manga.
pub fn local_chapter_cmp(a: &LocalChapter, b: &LocalChapter) -> (r: Ordering)
    ensures
        r == Ordering::Less <==> key_lt(chapter_key(a@), chapter_key(b@)),
        r == Ordering::Equal <==> chapter_key(a@) == chapter_key(b@),
        r == Ordering::Greater <==> key_lt(chapter_key(b@), chapter_key(a@)),
{
    proof {
        lemma_key_lt_total(chapter_key(a@), chapter_key(b@));
        lemma_key_lt_asymmetric(chapter_key(a@), chapter_key(b@));
        lemma_key_lt_irreflexive(chapter_key(a@));
    }
    match compare_keys(&chapter_key_of(a), &chapter_key_of(b)) {
        KeyOrder::Less => Ordering::Less,
        KeyOrder::Equal => Ordering::Equal,
        KeyOrder::Greater => Ordering::Greater,
    }
}

impl LocalPageSource {
    pub fn copy(&self) -> (r: LocalPageSource)
        ensures
            r@ == self@,
    {
        match self {
            LocalPageSource::File(path) => LocalPageSource::File(path.copy()),
            LocalPageSource::ZipEntry { archive_path, entry_name } => LocalPageSource::ZipEntry {
                archive_path: archive_path.copy(),
                entry_name: entry_name.clone(),
            },
            LocalPageSource::RarEntry { archive_path, entry_name } => LocalPageSource::RarEntry {
                archive_path: archive_path.copy(),
                entry_name: entry_name.clone(),
            },
        }
    }
}

impl LocalPage {
    pub fn copy(&self) -> (r: LocalPage)
        ensures
            r@ == self@,
    {
        LocalPage {
            url: self.url.clone(),
            extension: self.extension.clone(),
            source: self.source.copy(),
            bytes: self.bytes,
        }
    }
}

impl LocalChapter {
    pub fn copy(&self) -> (r: LocalChapter)
        ensures
            r@ == self@,
    {
        let mut pages: Vec<LocalPage> = Vec::new();
        let mut i: usize = 0;
        while i < self.pages.len()
            invariant
                i <= self.pages.len(),
                page_views(pages@) == page_views(self.pages@).take(i as int),
            decreases self.pages.len() - i,
        {
            let ghost before = page_views(pages@);
            pages.push(self.pages[i].copy());
            assert(page_views(pages@) == before.push(self.pages@[i as int]@));
            i += 1;
        }
        assert(page_views(self.pages@).take(self.pages@.len() as int) == page_views(self.pages@));
        LocalChapter {
            id: self.id.clone(),
            title: self.title.clone(),
            number: self.number.clone(),
            volume: copy_opt(&self.volume),
            source_path: self.source_path.copy(),
            format: self.format,
            pages,
            bytes: self.bytes,
        }
    }
}

impl LocalManga {
    pub fn copy(&self) -> (r: LocalManga)
        ensures
            r@ == self@,
    {
        let mut chapters: Vec<LocalChapter> = Vec::new();
        let mut i: usize = 0;
        while i < self.chapters.len()
            invariant
                i <= self.chapters.len(),
                chapter_views(chapters@) == chapter_views(self.chapters@).take(i as int),
            decreases self.chapters.len() - i,
        {
            let ghost before = chapter_views(chapters@);
            chapters.push(self.chapters[i].copy());
            assert(chapter_views(chapters@) == before.push(self.chapters@[i as int]@));
            i += 1;
        }
        assert(chapter_views(self.chapters@).take(self.chapters@.len() as int) == chapter_views(
            self.chapters@,
        ));
        LocalManga {
            id: self.id.clone(),
            title: self.title.clone(),
            source_path: self.source_path.copy(),
            cover_img_url: self.cover_img_url.clone(),
            chapters,
        }
    }
}

} // verus!
