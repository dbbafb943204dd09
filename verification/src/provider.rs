//! The local library as a provider of mangas.
use crate::anypath::{any_view, AnyPath, AnyPathModel};
use crate::disk::FsEntry;
use crate::error::{ErrorModel, LocalError};
use crate::index::{
    all_chapters, build_library_index, every_page_has_a_source, fits, has_page, manga_places, source_views,
    sources_are_those_of_pages, sources_of, stats_of, totals_agree, LibraryIndex, LocalLibraryStats,
};
use crate::layouts::{all_complete, found_mangas_are_complete};
use crate::mangas::{mangas_at, scan_path};
use crate::model::{
    chapter_views, manga_views, page_views, ChapterModel, LocalChapter, LocalManga, LocalPageSource, MangaModel,
    SourceModel,
};
use crate::natural::{natural_key, natural_key_of_text};
use crate::order::{
    index_views, ints, key_le, key_views, lemma_stable_order, reordered, sort_indices, sorted_by, sorting_keeps_items,
    stable_order,
};
use crate::outside::{is_plain_path, lowercase, parse_url, parsed_url, path_of_url, to_lowercase, url_path};
use crate::path::{LocalPath, PathModel};
use crate::responses::{
    chapter_to_read, list_of_chapters, shows_chapter, shows_chapter_to_read, shows_latest_chapter, shows_list,
    shows_manga, shows_popular_manga, shows_recent_manga, shows_search_manga, to_chapter, to_latest_chapter, to_manga,
    to_popular_manga, to_recent_manga, to_search_manga, Chapter, ChapterOrderBy, ChapterPageUrl, ChapterToRead,
    GetChaptersResponse, GetMangasResponse, LatestChapter, ListOfChapters, Manga, MangaProviders, Pagination,
    PopularManga, RecentlyAddedManga, SearchManga,
};
use crate::text::{chars_of, has_part, occurs_in};
use vstd::prelude::*;

verus! {

/// A library that was read, with its index.
#[derive(Debug)]
pub struct LocalLibrary {
    library_path: LocalPath,
    mangas: Vec<LocalManga>,
    index: LibraryIndex,
}

/// The provider of the mangas of one library.
#[derive(Debug)]
pub struct LocalProvider {
    library: LocalLibrary,
}

/// A library as its users see it.
pub struct LibraryModel {
    pub path: PathModel,
    pub mangas: Seq<MangaModel>,
}

impl View for LocalLibrary {
    type V = LibraryModel;

    closed spec fn view(&self) -> LibraryModel {
        LibraryModel { path: self.library_path@, mangas: manga_views(self.mangas@) }
    }
}

impl View for LocalProvider {
    type V = LibraryModel;

    closed spec fn view(&self) -> LibraryModel {
        self.library@
    }
}

/// The mangas of the library at `root`: it holds at least one, and its totals
/// can be told.
pub open spec fn loaded(root: FsEntry) -> Result<Seq<MangaModel>, ErrorModel> {
    match mangas_at(root) {
        Err(x) => Err(x),
        Ok(mangas) => if mangas.len() == 0 {
            Err(ErrorModel::NoManga(root.path@.text))
        } else if !fits(mangas) {
            Err(ErrorModel::TooLarge(root.path@.text))
        } else {
            Ok(mangas)
        },
    }
}

impl LocalLibrary {
    /// The index is that of the mangas, of which there is at least one, and
    /// all are complete.
    #[verifier::type_invariant]
    spec fn wf(self) -> bool {
        &&& self@.mangas.len() > 0
        &&& fits(self@.mangas)
        &&& all_complete(self@.mangas)
        &&& self.index.indexes(self@.path, self@.mangas)
    }
}

/// The last manga with an identifier.
pub open spec fn manga_with_id(mangas: Seq<MangaModel>, id: Seq<char>) -> Option<MangaModel>
    decreases mangas.len(),
{
    if mangas.len() == 0 {
        None
    } else if mangas.last().id == id {
        Some(mangas.last())
    } else {
        manga_with_id(mangas.drop_last(), id)
    }
}

proof fn lemma_manga_with_id(mangas: Seq<MangaModel>, id: Seq<char>)
    requires
        mangas.len() <= usize::MAX,
    ensures
        match manga_with_id(mangas, id) {
            Some(m) => manga_places(mangas).contains_key(id) && manga_places(mangas)[id]
                < mangas.len() && m == mangas[manga_places(mangas)[id] as int],
            None => !manga_places(mangas).contains_key(id),
        },
    decreases mangas.len(),
{
    if mangas.len() > 0 {
        lemma_manga_with_id(mangas.drop_last(), id);
    }
}

/// The first chapter with an identifier.
pub open spec fn chapter_with_id(chapters: Seq<ChapterModel>, id: Seq<char>) -> Option<ChapterModel>
    decreases chapters.len(),
{
    if chapters.len() == 0 {
        None
    } else if chapters[0].id == id {
        Some(chapters[0])
    } else {
        chapter_with_id(chapters.skip(1), id)
    }
}

/// The manga and the chapter with these identifiers, or which of them is not
/// there.
pub open spec fn chapter_found(mangas: Seq<MangaModel>, chapter_id: Seq<char>, manga_id: Seq<char>) -> Result<
    (MangaModel, ChapterModel),
    ErrorModel,
> {
    match manga_with_id(mangas, manga_id) {
        None => Err(ErrorModel::MangaNotFound(manga_id)),
        Some(m) => match chapter_with_id(m.chapters, chapter_id) {
            None => Err(ErrorModel::ChapterNotFound(chapter_id)),
            Some(c) => Ok((m, c)),
        },
    }
}

impl LocalProvider {
    fn load_library(root: &FsEntry) -> (r: Result<LocalLibrary, LocalError>)
        ensures
            match r {
                Ok(library) => {
                    &&& loaded(*root) == Ok::<Seq<MangaModel>, ErrorModel>(library@.mangas)
                    &&& library@.path == root.path@
                },
                Err(e) => loaded(*root) == Err::<Seq<MangaModel>, ErrorModel>(e@),
            },
    {
        proof {
            found_mangas_are_complete(*root);
        }
        let mangas: Vec<LocalManga> = match scan_path(root) {
            Ok(mangas) => mangas,
            Err(x) => {
                return Err(x);
            },
        };
        if mangas.len() == 0 {
            return Err(LocalError::NoManga(root.path.text.clone()));
        }
        match build_library_index(&root.path, &mangas) {
            Err(x) => Err(x),
            Ok(index) => Ok(LocalLibrary { library_path: root.path.copy(), mangas, index }),
        }
    }

    /// The provider of the library that was found at `root`.
    pub fn from_path(root: &FsEntry) -> (r: Result<LocalProvider, LocalError>)
        ensures
            match r {
                Ok(provider) => {
                    &&& loaded(*root) == Ok::<Seq<MangaModel>, ErrorModel>(provider@.mangas)
                    &&& provider@.path == root.path@
                },
                Err(e) => loaded(*root) == Err::<Seq<MangaModel>, ErrorModel>(e@),
            },
    {
        match Self::load_library(root) {
            Ok(library) => Ok(LocalProvider { library }),
            Err(x) => Err(x),
        }
    }

    /// Takes the library that was found at `root` in place of the present one,
    /// which stays where that cannot be read.
    pub fn reload_from_path(&mut self, root: &FsEntry) -> (r: Result<(), LocalError>)
        ensures
            match r {
                Ok(_) => {
                    &&& loaded(*root) == Ok::<Seq<MangaModel>, ErrorModel>(final(self)@.mangas)
                    &&& final(self)@.path == root.path@
                },
                Err(e) => {
                    &&& loaded(*root) == Err::<Seq<MangaModel>, ErrorModel>(e@)
                    &&& *final(self) == *old(self)
                },
            },
    {
        match Self::load_library(root) {
            Ok(library) => {
                self.library = library;
                Ok(())
            },
            Err(x) => Err(x),
        }
    }

    /// The path of the library.
    pub fn library_path(&self) -> (r: LocalPath)
        ensures
            r@ == self@.path,
    {
        self.library.library_path.copy()
    }

    /// The totals of the library.
    pub fn library_stats(&self) -> (r: LocalLibraryStats)
        ensures
            r@ == stats_of(self@.path, self@.mangas),
            r.cbz_count + r.cbr_count + r.epub_count <= r.chapter_count,
    {
        proof {
            use_type_invariant(&self.library);
            totals_agree(self@.path, self@.mangas);
        }
        self.library.index.stats.copy()
    }

    /// The mangas of the library.
    pub fn mangas(&self) -> (r: &Vec<LocalManga>)
        ensures
            manga_views(r@) == self@.mangas,
    {
        &self.library.mangas
    }

    pub fn find_manga(&self, manga_id: &str) -> (r: Result<&LocalManga, LocalError>)
        ensures
            match r {
                Ok(manga) => manga_with_id(self@.mangas, manga_id@) == Some(manga@),
                Err(e) => manga_with_id(self@.mangas, manga_id@) is None && e@
                    == ErrorModel::MangaNotFound(manga_id@),
            },
    {
        let id: String = manga_id.to_owned();
        proof {
            use_type_invariant(&self.library);
            assert(self@.mangas.len() == self.library.mangas.len());
            lemma_manga_with_id(self@.mangas, manga_id@);
        }
        match self.library.index.manga_index.get(&id) {
            Some(place) => Ok(&self.library.mangas[*place]),
            None => Err(LocalError::MangaNotFound(id)),
        }
    }

    pub fn find_chapter(&self, chapter_id: &str, manga_id: &str) -> (r: Result<
        (&LocalManga, &LocalChapter),
        LocalError,
    >)
        ensures
            match r {
                Ok((manga, chapter)) => chapter_found(self@.mangas, chapter_id@, manga_id@) == Ok::<
                    (MangaModel, ChapterModel),
                    ErrorModel,
                >((manga@, chapter@)),
                Err(e) => chapter_found(self@.mangas, chapter_id@, manga_id@) == Err::<
                    (MangaModel, ChapterModel),
                    ErrorModel,
                >(e@),
            },
    {
        let manga: &LocalManga = match self.find_manga(manga_id) {
            Ok(manga) => manga,
            Err(x) => {
                return Err(x);
            },
        };
        let id: String = chapter_id.to_owned();
        let ghost list = chapter_views(manga.chapters@);
        assert(list.skip(0) == list);
        let mut i: usize = 0;
        while i < manga.chapters.len()
            invariant
                i <= manga.chapters.len(),
                list == chapter_views(manga.chapters@),
                id@ == chapter_id@,
                manga_with_id(self@.mangas, manga_id@) == Some(manga@),
                chapter_with_id(list, id@) == chapter_with_id(list.skip(i as int), id@),
            decreases manga.chapters.len() - i,
        {
            assert(list.skip(i as int).skip(1) == list.skip(i + 1));
            if manga.chapters[i].id == id {
                return Ok((manga, &manga.chapters[i]));
            }
            i += 1;
        }
        Err(LocalError::ChapterNotFound(id))
    }
}

/// The items of a list that are shown.
pub open spec fn shown<T>(items: Seq<T>, pagination: Pagination) -> Seq<T> {
    if pagination.from <= pagination.to <= items.len() {
        items.subrange(pagination.from as int, pagination.to as int)
    } else {
        Seq::empty()
    }
}

/// Whether a title in lower case holds a search term.
pub fn title_matches(lower_title: &str, term: &str) -> (r: bool)
    ensures
        r == occurs_in(lower_title@, term@),
{
    has_part(&chars_of(lower_title), &chars_of(term))
}

/// Whether a search finds a manga.
pub open spec fn is_found(m: MangaModel, term: Option<Seq<char>>) -> bool {
    match term {
        Some(term) => occurs_in(lowercase(m.title), term),
        None => true,
    }
}

/// The mangas that a search finds.
pub open spec fn found_mangas(mangas: Seq<MangaModel>, term: Option<Seq<char>>) -> Seq<MangaModel> {
    mangas.filter(|m: MangaModel| is_found(m, term))
}

pub open spec fn title_keys(mangas: Seq<MangaModel>) -> Seq<Seq<int>> {
    Seq::new(mangas.len(), |i: int| natural_key(mangas[i].title))
}

/// What a search finds, in natural order of the titles.
pub open spec fn search_result(mangas: Seq<MangaModel>, term: Option<Seq<char>>) -> Seq<MangaModel> {
    sorted_by(found_mangas(mangas, term), title_keys(found_mangas(mangas, term)))
}

pub open spec fn term_view(term: Option<&str>) -> Option<Seq<char>> {
    match term {
        Some(term) => Some(term@),
        None => None,
    }
}

pub open spec fn manga_refs(v: Seq<&LocalManga>) -> Seq<MangaModel> {
    Seq::new(v.len(), |i: int| v[i]@)
}

/// The chapters of a manga in an order.
pub open spec fn ordered_chapters(chapters: Seq<ChapterModel>, order: ChapterOrderBy) -> Seq<ChapterModel> {
    match order {
        ChapterOrderBy::Ascending => chapters,
        ChapterOrderBy::Descending => chapters.reverse(),
    }
}

/// The last chapters of a manga, at most five, the last one first.
pub open spec fn latest_chapters(chapters: Seq<ChapterModel>) -> Seq<ChapterModel> {
    if chapters.len() <= 5 {
        chapters.reverse()
    } else {
        chapters.reverse().take(5)
    }
}

/// Where an image is read from.
#[derive(Debug)]
pub enum ImageSource {
    /// From where a page of the library is.
    Page(LocalPageSource),
    /// From a file.
    File(AnyPath),
}

pub enum ImageModel {
    Page(SourceModel),
    File(AnyPathModel),
}

impl View for ImageSource {
    type V = ImageModel;

    open spec fn view(&self) -> ImageModel {
        match self {
            ImageSource::Page(source) => ImageModel::Page(source@),
            ImageSource::File(path) => ImageModel::File(path@),
        }
    }
}

pub open spec fn parsed_view(parsed: Result<String, url::ParseError>) -> Result<Seq<char>, url::ParseError> {
    match parsed {
        Ok(serialization) => Ok(serialization@),
        Err(e) => Err(e),
    }
}

/// Where the file of a URL is that is no page of the library, given what the
/// URL parser makes of it: its serialization, or why it is no URL, and the path
/// that it leads to.
pub open spec fn file_of_url(
    url: Seq<char>,
    parsed: Result<Seq<char>, url::ParseError>,
    path: Option<AnyPathModel>,
) -> Result<AnyPathModel, ErrorModel> {
    match parsed {
        Err(e) => Err(ErrorModel::InvalidUrl(url, e)),
        Ok(serialization) => match path {
            None => Err(ErrorModel::NotFileUrl(serialization)),
            Some(path) => Ok(path),
        },
    }
}

/// Where the file of a URL is that is no page of the library, given what the
/// URL parser made of it.
pub fn file_from_url(url: &str, parsed: Result<String, url::ParseError>, path: Option<AnyPath>) -> (r: Result<
    AnyPath,
    LocalError,
>)
    ensures
        match r {
            Ok(file) => file_of_url(url@, parsed_view(parsed), any_view(path)) == Ok::<
                AnyPathModel,
                ErrorModel,
            >(file@),
            Err(e) => file_of_url(url@, parsed_view(parsed), any_view(path)) == Err::<
                AnyPathModel,
                ErrorModel,
            >(e@),
        },
{
    match parsed {
        Err(e) => Err(LocalError::InvalidUrl(url.to_owned(), e)),
        Ok(serialization) => match path {
            None => Err(LocalError::NotFileUrl(serialization)),
            Some(path) => Ok(path),
        },
    }
}

/// Where the image with a URL is read from.
pub open spec fn image_at(sources: Map<Seq<char>, SourceModel>, url: Seq<char>) -> Result<ImageModel, ErrorModel> {
    if sources.contains_key(url) {
        Ok(ImageModel::Page(sources[url]))
    } else {
        match file_of_url(url, parsed_url(url), url_path(url)) {
            Ok(path) => Ok(ImageModel::File(path)),
            Err(x) => Err(x),
        }
    }
}

impl LocalProvider {
    /// Which provider this is.
    pub fn name(&self) -> (r: MangaProviders)
        ensures
            r == MangaProviders::Local,
    {
        MangaProviders::Local
    }

    /// Where the image with a URL is read from: where a page of the library is,
    /// or else the file that the URL leads to.
    pub fn image_source(&self, url: &str) -> (r: Result<ImageSource, LocalError>)
        ensures
            match r {
                Ok(source) => image_at(sources_of(all_chapters(self@.mangas)), url@) == Ok::<
                    ImageModel,
                    ErrorModel,
                >(source@),
                Err(e) => image_at(sources_of(all_chapters(self@.mangas)), url@) == Err::<
                    ImageModel,
                    ErrorModel,
                >(e@),
            },
            forall|path: Seq<char>| #[trigger]
                is_plain_path(path) && url@ == "file://"@ + path && !sources_of(
                    all_chapters(self@.mangas),
                ).contains_key(url@) ==> r is Ok && r->Ok_0@ == ImageModel::File(
                    AnyPathModel::Text(path),
                ),
    {
        proof {
            use_type_invariant(&self.library);
        }
        let key: String = url.to_owned();
        match self.library.index.page_sources.get(&key) {
            Some(source) => {
                assert(source_views(self.library.index.page_sources@)[url@] == source@);
                return Ok(ImageSource::Page(source.copy()));
            },
            None => {},
        }
        assert(!source_views(self.library.index.page_sources@).contains_key(url@));
        match file_from_url(url, parse_url(url), path_of_url(url)) {
            Ok(path) => Ok(ImageSource::File(path)),
            Err(x) => Err(x),
        }
    }

    pub fn get_manga_by_id(&self, manga_id: &str) -> (r: Result<Manga, LocalError>)
        ensures
            match r {
                Ok(manga) => manga_with_id(self@.mangas, manga_id@) matches Some(m) && shows_manga(
                    manga,
                    m,
                ),
                Err(e) => manga_with_id(self@.mangas, manga_id@) is None && e@
                    == ErrorModel::MangaNotFound(manga_id@),
            },
    {
        match self.find_manga(manga_id) {
            Ok(manga) => Ok(to_manga(manga)),
            Err(x) => Err(x),
        }
    }

    pub fn get_popular_mangas(&self) -> (r: Vec<PopularManga>)
        ensures
            r@.len() == self@.mangas.len(),
            forall|i: int|
                0 <= i < r@.len() ==> shows_popular_manga(#[trigger] r@[i], self@.mangas[i]),
    {
        let mangas: &Vec<LocalManga> = self.mangas();
        let mut r: Vec<PopularManga> = Vec::new();
        let mut i: usize = 0;
        while i < mangas.len()
            invariant
                i <= mangas.len(),
                manga_views(mangas@) == self@.mangas,
                r@.len() == i,
                forall|k: int|
                    0 <= k < i ==> shows_popular_manga(#[trigger] r@[k], self@.mangas[k]),
            decreases mangas.len() - i,
        {
            r.push(to_popular_manga(&mangas[i]));
            i += 1;
        }
        r
    }

    pub fn get_recently_added_mangas(&self) -> (r: Vec<RecentlyAddedManga>)
        ensures
            r@.len() == self@.mangas.len(),
            forall|i: int|
                0 <= i < r@.len() ==> shows_recent_manga(#[trigger] r@[i], self@.mangas[i]),
    {
        let mangas: &Vec<LocalManga> = self.mangas();
        let mut r: Vec<RecentlyAddedManga> = Vec::new();
        let mut i: usize = 0;
        while i < mangas.len()
            invariant
                i <= mangas.len(),
                manga_views(mangas@) == self@.mangas,
                r@.len() == i,
                forall|k: int|
                    0 <= k < i ==> shows_recent_manga(#[trigger] r@[k], self@.mangas[k]),
            decreases mangas.len() - i,
        {
            r.push(to_recent_manga(&mangas[i]));
            i += 1;
        }
        r
    }

    /// The mangas that a search finds.
    fn matching_mangas(&self, search_term: Option<&str>) -> (r: Vec<&LocalManga>)
        ensures
            manga_refs(r@) == found_mangas(self@.mangas, term_view(search_term)),
    {
        let mangas: &Vec<LocalManga> = self.mangas();
        let ghost list = self@.mangas;
        let ghost term = term_view(search_term);
        let mut r: Vec<&LocalManga> = Vec::new();
        let mut i: usize = 0;
        while i < mangas.len()
            invariant
                i <= mangas.len(),
                manga_views(mangas@) == list,
                term == term_view(search_term),
                manga_refs(r@) == found_mangas(list.take(i as int), term),
            decreases mangas.len() - i,
        {
            let ghost before = manga_refs(r@);
            proof {
                reveal(Seq::filter);
                assert(list.take(i + 1).drop_last() == list.take(i as int));
                assert(list.take(i + 1).last() == mangas@[i as int]@);
            }
            let found: bool = match search_term {
                Some(term) => title_matches(to_lowercase(mangas[i].title.as_str()).as_str(), term),
                None => true,
            };
            if found {
                r.push(&mangas[i]);
                assert(manga_refs(r@) == before.push(mangas@[i as int]@));
            }
            i += 1;
        }
        proof {
            reveal(Seq::filter);
            assert(list.take(i as int) == list);
        }
        r
    }

    /// Searches the titles, in lower case, for a term.
    pub fn search_mangas(&self, search_term: Option<&str>, pagination: Pagination) -> (r:
        GetMangasResponse)
        requires
            pagination.current_page * pagination.items_per_page <= u32::MAX,
        ensures
            r.total_mangas == search_result(self@.mangas, term_view(search_term)).len() as u32,
            r.next_page == (pagination.current_page * pagination.items_per_page < r.total_mangas),
            r.mangas@.len() == shown(
                search_result(self@.mangas, term_view(search_term)),
                pagination,
            ).len(),
            forall|i: int|
                0 <= i < r.mangas@.len() ==> shows_search_manga(
                    #[trigger] r.mangas@[i],
                    shown(search_result(self@.mangas, term_view(search_term)), pagination)[i],
                ),
    {
        let found: Vec<&LocalManga> = self.matching_mangas(search_term);
        let ghost list = manga_refs(found@);
        let mut keys: Vec<Vec<u128>> = Vec::new();
        let mut i: usize = 0;
        while i < found.len()
            invariant
                i <= found.len(),
                list == manga_refs(found@),
                key_views(keys@) == title_keys(list).take(i as int),
            decreases found.len() - i,
        {
            let ghost before = key_views(keys@);
            let key: Vec<u128> = natural_key_of_text(found[i].title.as_str());
            keys.push(key);
            assert(key_views(keys@) == before.push(ints(key@)));
            i += 1;
        }
        assert(title_keys(list).take(i as int) == title_keys(list));
        let order: Vec<usize> = sort_indices(&keys);
        let ghost sorted = reordered(list, index_views(order@));
        assert(sorted == search_result(self@.mangas, term_view(search_term)));
        let ghost part = shown(sorted, pagination);
        let mut mangas: Vec<SearchManga> = Vec::new();
        if pagination.from <= pagination.to && pagination.to <= order.len() {
            let mut j: usize = pagination.from;
            while j < pagination.to
                invariant
                    pagination.from <= j <= pagination.to <= order.len(),
                    order.len() == found.len(),
                    list == manga_refs(found@),
                    sorted == reordered(list, index_views(order@)),
                    part == sorted.subrange(pagination.from as int, pagination.to as int),
                    forall|k: int| 0 <= k < order.len() ==> #[trigger] order@[k] < found.len(),
                    mangas@.len() == j - pagination.from,
                    forall|k: int|
                        0 <= k < mangas@.len() ==> shows_search_manga(
                            #[trigger] mangas@[k],
                            part[k],
                        ),
                decreases pagination.to - j,
            {
                assert(part[j - pagination.from] == found@[order@[j as int] as int]@);
                mangas.push(to_search_manga(found[order[j]]));
                j += 1;
            }
        }
        let total_mangas: u32 = order.len() as u32;
        GetMangasResponse {
            mangas,
            total_mangas,
            next_page: pagination.current_page * pagination.items_per_page < total_mangas,
        }
    }

    pub fn get_chapters(&self, manga_id: &str, order: ChapterOrderBy, pagination: Pagination) -> (r:
        Result<GetChaptersResponse, LocalError>)
        ensures
            match r {
                Ok(response) => manga_with_id(self@.mangas, manga_id@) matches Some(m) && {
                    let part = shown(ordered_chapters(m.chapters, order), pagination);
                    &&& response.total_chapters == m.chapters.len() as u32
                    &&& response.chapters@.len() == part.len()
                    &&& forall|i: int|
                        0 <= i < part.len() ==> shows_chapter(
                            #[trigger] response.chapters@[i],
                            manga_id@,
                            part[i],
                        )
                },
                Err(e) => manga_with_id(self@.mangas, manga_id@) is None && e@
                    == ErrorModel::MangaNotFound(manga_id@),
            },
    {
        let manga: &LocalManga = match self.find_manga(manga_id) {
            Ok(manga) => manga,
            Err(x) => {
                return Err(x);
            },
        };
        let len: usize = manga.chapters.len();
        let ghost list = chapter_views(manga.chapters@);
        let ghost ordered = ordered_chapters(list, order);
        let ghost part = shown(ordered, pagination);
        let mut chapters: Vec<Chapter> = Vec::new();
        if pagination.from <= pagination.to && pagination.to <= len {
            let mut j: usize = pagination.from;
            while j < pagination.to
                invariant
                    pagination.from <= j <= pagination.to <= len,
                    len == manga.chapters.len(),
                    list == chapter_views(manga.chapters@),
                    ordered == ordered_chapters(list, order),
                    part == ordered.subrange(pagination.from as int, pagination.to as int),
                    chapters@.len() == j - pagination.from,
                    forall|k: int|
                        0 <= k < chapters@.len() ==> shows_chapter(
                            #[trigger] chapters@[k],
                            manga_id@,
                            part[k],
                        ),
                decreases pagination.to - j,
            {
                let place: usize = match order {
                    ChapterOrderBy::Ascending => j,
                    ChapterOrderBy::Descending => len - 1 - j,
                };
                assert(part[j - pagination.from] == manga.chapters@[place as int]@);
                chapters.push(to_chapter(manga_id, &manga.chapters[place]));
                j += 1;
            }
        }
        Ok(GetChaptersResponse { chapters, total_chapters: len as u32 })
    }

    pub fn get_all_chapters(&self, manga_id: &str) -> (r: Result<Vec<Chapter>, LocalError>)
        ensures
            match r {
                Ok(chapters) => manga_with_id(self@.mangas, manga_id@) matches Some(m) && {
                    &&& chapters@.len() == m.chapters.len()
                    &&& forall|i: int|
                        0 <= i < m.chapters.len() ==> shows_chapter(
                            #[trigger] chapters@[i],
                            manga_id@,
                            m.chapters[i],
                        )
                },
                Err(e) => manga_with_id(self@.mangas, manga_id@) is None && e@
                    == ErrorModel::MangaNotFound(manga_id@),
            },
    {
        let manga: &LocalManga = match self.find_manga(manga_id) {
            Ok(manga) => manga,
            Err(x) => {
                return Err(x);
            },
        };
        let ghost list = chapter_views(manga.chapters@);
        let mut chapters: Vec<Chapter> = Vec::new();
        let mut i: usize = 0;
        while i < manga.chapters.len()
            invariant
                i <= manga.chapters.len(),
                list == chapter_views(manga.chapters@),
                chapters@.len() == i,
                forall|k: int|
                    0 <= k < i ==> shows_chapter(#[trigger] chapters@[k], manga_id@, list[k]),
            decreases manga.chapters.len() - i,
        {
            chapters.push(to_chapter(manga_id, &manga.chapters[i]));
            i += 1;
        }
        Ok(chapters)
    }

    pub fn get_chapter_pages_url_with_extension(&self, chapter_id: &str, manga_id: &str) -> (r:
        Result<Vec<ChapterPageUrl>, LocalError>)
        ensures
            match r {
                Ok(pages) => chapter_found(self@.mangas, chapter_id@, manga_id@) matches Ok((_, c))
                    && {
                    &&& pages@.len() == c.pages.len()
                    &&& forall|i: int|
                        0 <= i < c.pages.len() ==> (#[trigger] pages@[i]).url@ == c.pages[i].url
                            && pages@[i].extension@ == c.pages[i].extension
                },
                Err(e) => chapter_found(self@.mangas, chapter_id@, manga_id@) == Err::<
                    (MangaModel, ChapterModel),
                    ErrorModel,
                >(e@),
            },
    {
        let chapter: &LocalChapter = match self.find_chapter(chapter_id, manga_id) {
            Ok((_, chapter)) => chapter,
            Err(x) => {
                return Err(x);
            },
        };
        let ghost list = page_views(chapter.pages@);
        let mut pages: Vec<ChapterPageUrl> = Vec::new();
        let mut i: usize = 0;
        while i < chapter.pages.len()
            invariant
                i <= chapter.pages.len(),
                list == page_views(chapter.pages@),
                pages@.len() == i,
                forall|k: int|
                    0 <= k < i ==> (#[trigger] pages@[k]).url@ == list[k].url
                        && pages@[k].extension@ == list[k].extension,
            decreases chapter.pages.len() - i,
        {
            pages.push(
                ChapterPageUrl {
                    url: chapter.pages[i].url.clone(),
                    extension: chapter.pages[i].extension.clone(),
                },
            );
            i += 1;
        }
        Ok(pages)
    }

    pub fn read_chapter(&self, chapter_id: &str, manga_id: &str) -> (r: Result<
        (ChapterToRead, ListOfChapters),
        LocalError,
    >)
        ensures
            match r {
                Ok((chapter, list)) => chapter_found(self@.mangas, chapter_id@, manga_id@) matches Ok(
                    (m, c),
                ) && shows_chapter_to_read(chapter, c, None) && shows_list(list, m),
                Err(e) => chapter_found(self@.mangas, chapter_id@, manga_id@) == Err::<
                    (MangaModel, ChapterModel),
                    ErrorModel,
                >(e@),
            },
    {
        match self.find_chapter(chapter_id, manga_id) {
            Ok((manga, chapter)) => Ok((chapter_to_read(chapter, None), list_of_chapters(manga))),
            Err(x) => Err(x),
        }
    }

    pub fn search_chapter(&self, chapter_id: &str, manga_id: &str) -> (r: Result<
        ChapterToRead,
        LocalError,
    >)
        ensures
            match r {
                Ok(chapter) => chapter_found(self@.mangas, chapter_id@, manga_id@) matches Ok(
                    (_, c),
                ) && shows_chapter_to_read(chapter, c, None),
                Err(e) => chapter_found(self@.mangas, chapter_id@, manga_id@) == Err::<
                    (MangaModel, ChapterModel),
                    ErrorModel,
                >(e@),
            },
    {
        match self.find_chapter(chapter_id, manga_id) {
            Ok((_, chapter)) => Ok(chapter_to_read(chapter, None)),
            Err(x) => Err(x),
        }
    }

    /// The chapter that was bookmarked, at the page that was bookmarked in it.
    pub fn fetch_chapter_bookmarked(
        &self,
        chapter_id: &str,
        manga_id: &str,
        number_page_bookmarked: Option<u32>,
    ) -> (r: Result<(ChapterToRead, ListOfChapters), LocalError>)
        ensures
            match r {
                Ok((chapter, list)) => chapter_found(self@.mangas, chapter_id@, manga_id@) matches Ok(
                    (m, c),
                ) && shows_chapter_to_read(chapter, c, number_page_bookmarked) && shows_list(
                    list,
                    m,
                ),
                Err(e) => chapter_found(self@.mangas, chapter_id@, manga_id@) == Err::<
                    (MangaModel, ChapterModel),
                    ErrorModel,
                >(e@),
            },
    {
        match self.find_chapter(chapter_id, manga_id) {
            Ok((manga, chapter)) => Ok(
                (chapter_to_read(chapter, number_page_bookmarked), list_of_chapters(manga)),
            ),
            Err(x) => Err(x),
        }
    }

    pub fn get_latest_chapters(&self, manga_id: &str) -> (r: Result<Vec<LatestChapter>, LocalError>)
        ensures
            match r {
                Ok(chapters) => manga_with_id(self@.mangas, manga_id@) matches Some(m) && {
                    let latest = latest_chapters(m.chapters);
                    &&& chapters@.len() == latest.len()
                    &&& forall|i: int|
                        0 <= i < latest.len() ==> shows_latest_chapter(
                            #[trigger] chapters@[i],
                            m.id,
                            latest[i],
                        )
                },
                Err(e) => manga_with_id(self@.mangas, manga_id@) is None && e@
                    == ErrorModel::MangaNotFound(manga_id@),
            },
    {
        let manga: &LocalManga = match self.find_manga(manga_id) {
            Ok(manga) => manga,
            Err(x) => {
                return Err(x);
            },
        };
        let len: usize = manga.chapters.len();
        let ghost list = chapter_views(manga.chapters@);
        let ghost latest = latest_chapters(list);
        let count: usize = if len <= 5 {
            len
        } else {
            5
        };
        let mut chapters: Vec<LatestChapter> = Vec::new();
        let mut i: usize = 0;
        while i < count
            invariant
                i <= count <= len,
                len == manga.chapters.len(),
                count == latest.len(),
                list == chapter_views(manga.chapters@),
                latest == latest_chapters(list),
                chapters@.len() == i,
                forall|k: int|
                    0 <= k < i ==> shows_latest_chapter(
                        #[trigger] chapters@[k],
                        manga@.id,
                        latest[k],
                    ),
            decreases count - i,
        {
            assert(latest[i as int] == manga.chapters@[len - 1 - i]@);
            chapters.push(to_latest_chapter(manga.id.as_str(), &manga.chapters[len - 1 - i]));
            i += 1;
        }
        Ok(chapters)
    }

    /// The totals of the library, for the page that shows them.
    pub fn local_library_stats(&self) -> (r: Option<LocalLibraryStats>)
        ensures
            r matches Some(stats) && stats@ == stats_of(self@.path, self@.mangas)
                && stats.cbz_count + stats.cbr_count + stats.epub_count <= stats.chapter_count,
    {
        Some(self.library_stats())
    }
}

proof fn lemma_chapter_with_id(chapters: Seq<ChapterModel>, i: int)
    requires
        0 <= i < chapters.len(),
    ensures
        chapter_with_id(chapters, chapters[i].id) matches Some(c) && c.id == chapters[i].id,
    decreases chapters.len(),
{
    if chapters[0].id != chapters[i].id {
        assert(chapters.skip(1)[i - 1] == chapters[i]);
        lemma_chapter_with_id(chapters.skip(1), i - 1);
    }
}

proof fn lemma_manga_found(mangas: Seq<MangaModel>, i: int)
    requires
        0 <= i < mangas.len(),
    ensures
        manga_with_id(mangas, mangas[i].id) matches Some(m) && m.id == mangas[i].id,
    decreases mangas.len(),
{
    if mangas.last().id != mangas[i].id {
        lemma_manga_found(mangas.drop_last(), i);
    }
}

/// Every manga of a library is found by its identifier, and every chapter of
/// what is found by its own.
pub proof fn mangas_and_chapters_are_found(mangas: Seq<MangaModel>, i: int, j: int)
    requires
        0 <= i < mangas.len(),
    ensures
        manga_with_id(mangas, mangas[i].id) matches Some(m) && m.id == mangas[i].id && (0 <= j
            < m.chapters.len() ==> (chapter_found(mangas, m.chapters[j].id, m.id) matches Ok((n, c))
            && n == m && c.id == m.chapters[j].id)),
{
    lemma_manga_found(mangas, i);
    let m = manga_with_id(mangas, mangas[i].id)->Some_0;
    if 0 <= j < m.chapters.len() {
        lemma_chapter_with_id(m.chapters, j);
    }
}

proof fn lemma_all_chapters(mangas: Seq<MangaModel>, i: int, j: int) -> (k: int)
    requires
        0 <= i < mangas.len(),
        0 <= j < mangas[i].chapters.len(),
    ensures
        0 <= k < all_chapters(mangas).len(),
        all_chapters(mangas)[k] == mangas[i].chapters[j],
    decreases mangas.len(),
{
    let front = mangas.drop_last();
    if i == mangas.len() - 1 {
        all_chapters(front).len() + j
    } else {
        lemma_all_chapters(front, i, j)
    }
}

/// The image of every page of every chapter is read from where a page with its
/// URL is: from its own place, unless another page has the same URL.
pub proof fn every_page_can_be_read(mangas: Seq<MangaModel>, i: int, j: int, k: int)
    requires
        0 <= i < mangas.len(),
        0 <= j < mangas[i].chapters.len(),
        0 <= k < mangas[i].chapters[j].pages.len(),
    ensures
        ({
            let chapters = all_chapters(mangas);
            let page = mangas[i].chapters[j].pages[k];
            &&& image_at(sources_of(chapters), page.url) matches Ok(ImageModel::Page(source))
            &&& has_page(chapters, page.url, source)
            &&& (forall|other: SourceModel| #[trigger]
                has_page(chapters, page.url, other) ==> other == page.source) ==> source
                == page.source
        }),
{
    let chapters = all_chapters(mangas);
    let url = mangas[i].chapters[j].pages[k].url;
    let place = lemma_all_chapters(mangas, i, j);
    every_page_has_a_source(chapters, place, k);
    sources_are_those_of_pages(chapters, url);
}

/// A search finds exactly the mangas whose titles hold the term, each as often
/// as the library has it, in natural order of the titles; without a term it
/// finds all.
pub proof fn search_finds_what_matches(mangas: Seq<MangaModel>, term: Option<Seq<char>>)
    ensures
        search_result(mangas, term).to_multiset() == found_mangas(mangas, term).to_multiset(),
        forall|i: int|
            0 <= i < search_result(mangas, term).len() ==> is_found(
                #[trigger] search_result(mangas, term)[i],
                term,
            ),
        forall|i: int, j: int|
            0 <= i < j < search_result(mangas, term).len() ==> key_le(
                natural_key((#[trigger] search_result(mangas, term)[i]).title),
                natural_key((#[trigger] search_result(mangas, term)[j]).title),
            ),
        term is None ==> found_mangas(mangas, term) == mangas,
{
    let found = found_mangas(mangas, term);
    let keys = title_keys(found);
    let order = stable_order(keys);
    lemma_stable_order(keys, keys.len());
    sorting_keeps_items(found, keys);
    let result = search_result(mangas, term);
    let pred = |m: MangaModel| is_found(m, term);
    assert forall|i: int| 0 <= i < result.len() implies is_found(#[trigger] result[i], term) by {
        assert(0 <= order[i] < found.len());
        mangas.lemma_filter_pred(pred, order[i]);
    }
    assert forall|i: int, j: int| 0 <= i < j < result.len() implies key_le(
        natural_key((#[trigger] result[i]).title),
        natural_key((#[trigger] result[j]).title),
    ) by {
        assert(0 <= order[i] < found.len() && 0 <= order[j] < found.len());
        assert(keys[order[i]] == natural_key(result[i].title));
        assert(keys[order[j]] == natural_key(result[j].title));
    }
    if term is None {
        lemma_filter_all(mangas, pred);
    }
}

proof fn lemma_filter_all(mangas: Seq<MangaModel>, pred: spec_fn(MangaModel) -> bool)
    requires
        forall|m: MangaModel| #[trigger] pred(m),
    ensures
        mangas.filter(pred) == mangas,
    decreases mangas.len(),
{
    reveal(Seq::filter);
    if mangas.len() > 0 {
        lemma_filter_all(mangas.drop_last(), pred);
        assert(pred(mangas.last()));
        assert(mangas.drop_last().push(mangas.last()) == mangas);
    }
}

} // verus!
