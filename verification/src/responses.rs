//! What the provider hands to the pages of the program.
use crate::digits::{decimal, print_decimal};
use crate::double::{bits_of, number_bits, number_rank, number_rank_of, ONE_BITS};
use crate::model::{
    chapter_views, page_views, ChapterModel, LocalChapter, LocalManga, MangaModel, PageModel,
};
use crate::order::{
    index_views, ints, key_views, lemma_key_lt_irreflexive, lemma_stable_order, reordered, sort_indices, sorted_by,
    stable_order,
};
use crate::path::{copy_opt, opt_view};
use crate::text::{chars_of, text_views};
use vstd::prelude::*;
use vstd::string::StringExecFns;

verus! {

#[derive(Clone, Copy, PartialEq, Eq, Structural, Debug)]
pub enum MangaProviders {
    Local,
}

#[derive(Clone, Copy, PartialEq, Eq, Structural, Debug)]
pub enum Languages {
    English,
}

#[derive(Clone, Copy, PartialEq, Eq, Structural, Debug)]
pub enum MangaStatus {
    Completed,
}

#[derive(Clone, Copy, PartialEq, Eq, Structural, Debug)]
pub enum ChapterOrderBy {
    Ascending,
    Descending,
}

/// Which part of a list is shown: page `current_page` of pages with
/// `items_per_page` items, which are those from `from` to before `to`.
#[derive(Clone, Copy, PartialEq, Eq, Structural, Debug)]
pub struct Pagination {
    pub current_page: u32,
    pub items_per_page: u32,
    pub from: usize,
    pub to: usize,
}

#[derive(Debug, PartialEq, Eq)]
pub struct Manga {
    pub id: String,
    pub id_safe_for_download: String,
    pub title: String,
    pub genres: Vec<String>,
    pub description: String,
    pub status: MangaStatus,
    pub cover_img_url: String,
    pub languages: Vec<Languages>,
    pub rating: String,
    pub artist: Option<String>,
    pub author: Option<String>,
}

#[derive(Debug, PartialEq, Eq)]
pub struct SearchManga {
    pub id: String,
    pub title: String,
    pub genres: Vec<String>,
    pub description: Option<String>,
    pub status: Option<MangaStatus>,
    pub cover_img_url: String,
    pub languages: Vec<Languages>,
    pub artist: Option<String>,
    pub author: Option<String>,
}

#[derive(Debug, PartialEq, Eq)]
pub struct PopularManga {
    pub id: String,
    pub title: String,
    pub genres: Vec<String>,
    pub description: String,
    pub status: Option<MangaStatus>,
    pub cover_img_url: String,
}

#[derive(Debug, PartialEq, Eq)]
pub struct RecentlyAddedManga {
    pub id: String,
    pub title: String,
    pub description: String,
    pub cover_img_url: String,
}

#[derive(Debug, PartialEq, Eq)]
pub struct GetMangasResponse {
    pub mangas: Vec<SearchManga>,
    pub total_mangas: u32,
    pub next_page: bool,
}

#[derive(Debug, PartialEq, Eq)]
pub struct Chapter {
    pub id: String,
    pub id_safe_for_download: String,
    pub manga_id: String,
    pub title: String,
    pub language: Languages,
    pub chapter_number: String,
    pub volume_number: Option<String>,
    pub scanlator: Option<String>,
    pub publication_date: Option<String>,
}

#[derive(Debug, PartialEq, Eq)]
pub struct GetChaptersResponse {
    pub chapters: Vec<Chapter>,
    pub total_chapters: u32,
}

#[derive(Debug, PartialEq, Eq)]
pub struct LatestChapter {
    pub id: String,
    pub manga_id: String,
    pub title: String,
    pub language: Languages,
    pub chapter_number: String,
    pub volume_number: Option<String>,
    pub publication_date: Option<String>,
}

#[derive(Debug, PartialEq, Eq)]
pub struct ChapterPageUrl {
    pub url: String,
    pub extension: String,
}

#[derive(Debug, PartialEq, Eq)]
pub struct ChapterToRead {
    pub id: String,
    pub title: String,
    /// The number of the chapter, as the bits of a double.
    pub number: u64,
    pub volume_number: Option<String>,
    pub num_page_bookmarked: Option<u32>,
    pub language: Languages,
    pub pages_url: Vec<String>,
}

#[derive(Clone, Debug, PartialEq, Eq)]
pub struct ChapterReader {
    pub id: String,
    pub number: String,
    pub volume: String,
}

#[derive(Clone, Debug, PartialEq, Eq)]
pub struct Volumes {
    pub volume: String,
    pub chapters: Vec<ChapterReader>,
}

/// The chapters of a manga by volume.
#[derive(Clone, Debug, PartialEq, Eq)]
pub struct ListOfChapters {
    pub volumes: Vec<Volumes>,
}

impl Default for Volumes {
    /// A volume without a name and without chapters.
    fn default() -> (r: Self)
        ensures
            r.volume@.len() == 0,
            r.chapters@.len() == 0,
    {
        Volumes { volume: String::new(), chapters: Vec::new() }
    }
}

impl Default for ListOfChapters {
    /// No volumes.
    fn default() -> (r: Self)
        ensures
            r.volumes@.len() == 0,
    {
        ListOfChapters { volumes: Vec::new() }
    }
}

/// How the chapters of a manga are described.
pub open spec fn chapters_note(m: MangaModel) -> Seq<char> {
    decimal(m.chapters.len()) + " local chapters"@
}

/// How the place of a manga is described.
pub open spec fn source_note(m: MangaModel) -> Seq<char> {
    "Local manga from "@ + m.source_path.text
}

fn note_chapters(manga: &LocalManga) -> (r: String)
    ensures
        r@ == chapters_note(manga@),
{
    assert(manga@.chapters.len() == manga.chapters.len());
    let mut r: String = print_decimal(manga.chapters.len() as u64);
    r.append(" local chapters");
    r
}

fn note_source(manga: &LocalManga) -> (r: String)
    ensures
        r@ == source_note(manga@),
{
    let mut r: String = "Local manga from ".to_owned();
    r.append(manga.source_path.text.as_str());
    r
}

fn english() -> (r: Vec<Languages>)
    ensures
        r@ == seq![Languages::English],
{
    let mut r: Vec<Languages> = Vec::new();
    r.push(Languages::English);
    r
}

pub open spec fn shows_manga(r: Manga, m: MangaModel) -> bool {
    &&& r.id@ == m.id
    &&& r.id_safe_for_download@ == m.id
    &&& r.title@ == m.title
    &&& r.genres@.len() == 0
    &&& r.description@ == source_note(m)
    &&& r.status == MangaStatus::Completed
    &&& r.cover_img_url@ == m.cover_img_url
    &&& r.languages@ == seq![Languages::English]
    &&& r.rating@ == "local"@
    &&& r.artist is None
    &&& r.author is None
}

pub fn to_manga(manga: &LocalManga) -> (r: Manga)
    ensures
        shows_manga(r, manga@),
{
    Manga {
        id: manga.id.clone(),
        id_safe_for_download: manga.id.clone(),
        title: manga.title.clone(),
        genres: Vec::new(),
        description: note_source(manga),
        status: MangaStatus::Completed,
        cover_img_url: manga.cover_img_url.clone(),
        languages: english(),
        rating: "local".to_owned(),
        artist: None,
        author: None,
    }
}

pub open spec fn shows_search_manga(r: SearchManga, m: MangaModel) -> bool {
    &&& r.id@ == m.id
    &&& r.title@ == m.title
    &&& r.genres@.len() == 0
    &&& opt_view(r.description) == Some(chapters_note(m))
    &&& r.status == Some(MangaStatus::Completed)
    &&& r.cover_img_url@ == m.cover_img_url
    &&& r.languages@ == seq![Languages::English]
    &&& r.artist is None
    &&& r.author is None
}

pub fn to_search_manga(manga: &LocalManga) -> (r: SearchManga)
    ensures
        shows_search_manga(r, manga@),
{
    SearchManga {
        id: manga.id.clone(),
        title: manga.title.clone(),
        genres: Vec::new(),
        description: Some(note_chapters(manga)),
        status: Some(MangaStatus::Completed),
        cover_img_url: manga.cover_img_url.clone(),
        languages: english(),
        artist: None,
        author: None,
    }
}

pub open spec fn shows_popular_manga(r: PopularManga, m: MangaModel) -> bool {
    &&& r.id@ == m.id
    &&& r.title@ == m.title
    &&& r.genres@.len() == 0
    &&& r.description@ == chapters_note(m)
    &&& r.status == Some(MangaStatus::Completed)
    &&& r.cover_img_url@ == m.cover_img_url
}

pub fn to_popular_manga(manga: &LocalManga) -> (r: PopularManga)
    ensures
        shows_popular_manga(r, manga@),
{
    PopularManga {
        id: manga.id.clone(),
        title: manga.title.clone(),
        genres: Vec::new(),
        description: note_chapters(manga),
        status: Some(MangaStatus::Completed),
        cover_img_url: manga.cover_img_url.clone(),
    }
}

pub open spec fn shows_recent_manga(r: RecentlyAddedManga, m: MangaModel) -> bool {
    &&& r.id@ == m.id
    &&& r.title@ == m.title
    &&& r.description@ == source_note(m)
    &&& r.cover_img_url@ == m.cover_img_url
}

pub fn to_recent_manga(manga: &LocalManga) -> (r: RecentlyAddedManga)
    ensures
        shows_recent_manga(r, manga@),
{
    RecentlyAddedManga {
        id: manga.id.clone(),
        title: manga.title.clone(),
        description: note_source(manga),
        cover_img_url: manga.cover_img_url.clone(),
    }
}

pub open spec fn shows_chapter(r: Chapter, manga_id: Seq<char>, c: ChapterModel) -> bool {
    &&& r.id@ == c.id
    &&& r.id_safe_for_download@ == c.id
    &&& r.manga_id@ == manga_id
    &&& r.title@ == c.title
    &&& r.language == Languages::English
    &&& r.chapter_number@ == c.number
    &&& opt_view(r.volume_number) == c.volume
    &&& opt_view(r.scanlator) == Some("Local"@)
    &&& r.publication_date is None
}

pub fn to_chapter(manga_id: &str, chapter: &LocalChapter) -> (r: Chapter)
    ensures
        shows_chapter(r, manga_id@, chapter@),
{
    Chapter {
        id: chapter.id.clone(),
        id_safe_for_download: chapter.id.clone(),
        manga_id: manga_id.to_owned(),
        title: chapter.title.clone(),
        language: Languages::English,
        chapter_number: chapter.number.clone(),
        volume_number: copy_opt(&chapter.volume),
        scanlator: Some("Local".to_owned()),
        publication_date: None,
    }
}

pub open spec fn shows_latest_chapter(r: LatestChapter, manga_id: Seq<char>, c: ChapterModel) -> bool {
    &&& r.id@ == c.id
    &&& r.manga_id@ == manga_id
    &&& r.title@ == c.title
    &&& r.language == Languages::English
    &&& r.chapter_number@ == c.number
    &&& opt_view(r.volume_number) == c.volume
    &&& r.publication_date is None
}

pub fn to_latest_chapter(manga_id: &str, chapter: &LocalChapter) -> (r: LatestChapter)
    ensures
        shows_latest_chapter(r, manga_id@, chapter@),
{
    LatestChapter {
        id: chapter.id.clone(),
        manga_id: manga_id.to_owned(),
        title: chapter.title.clone(),
        language: Languages::English,
        chapter_number: chapter.number.clone(),
        volume_number: copy_opt(&chapter.volume),
        publication_date: None,
    }
}

pub open spec fn page_urls(pages: Seq<PageModel>) -> Seq<Seq<char>> {
    Seq::new(pages.len(), |i: int| pages[i].url)
}

/// The number that a reader shows: that of the chapter, or one where the
/// chapter's is no number.
pub open spec fn shown_number(number: Seq<char>) -> nat {
    match bits_of(number) {
        Some(bits) => bits,
        None => ONE_BITS as nat,
    }
}

pub open spec fn shows_chapter_to_read(r: ChapterToRead, c: ChapterModel, bookmark: Option<u32>) -> bool {
    &&& r.id@ == c.id
    &&& r.title@ == c.title
    &&& r.number == shown_number(c.number)
    &&& opt_view(r.volume_number) == c.volume
    &&& r.num_page_bookmarked == bookmark
    &&& r.language == Languages::English
    &&& text_views(r.pages_url@) == page_urls(c.pages)
}

pub fn chapter_to_read(chapter: &LocalChapter, page_bookmarked: Option<u32>) -> (r: ChapterToRead)
    ensures
        shows_chapter_to_read(r, chapter@, page_bookmarked),
        r.pages_url@.len() == chapter.pages@.len(),
        forall|i: int| 0 <= i < chapter.pages@.len() ==> (#[trigger] r.pages_url@[i])@ == chapter.pages@[i].url@,
{
    let mut pages_url: Vec<String> = Vec::new();
    let ghost urls = page_urls(page_views(chapter.pages@));
    let mut i: usize = 0;
    while i < chapter.pages.len()
        invariant
            i <= chapter.pages.len(),
            urls == page_urls(page_views(chapter.pages@)),
            text_views(pages_url@) == urls.take(i as int),
        decreases chapter.pages.len() - i,
    {
        let ghost before = text_views(pages_url@);
        pages_url.push(chapter.pages[i].url.clone());
        assert(text_views(pages_url@) == before.push(chapter.pages@[i as int].url@));
        i += 1;
    }
    assert(urls.take(i as int) == urls);
    assert forall|k: int| 0 <= k < chapter.pages@.len() implies (#[trigger] pages_url@[k])@ == chapter.pages@[k].url@ by {
        assert(text_views(pages_url@)[k] == urls[k]);
    }
    ChapterToRead {
        id: chapter.id.clone(),
        title: chapter.title.clone(),
        number: match number_bits(chapter.number.as_str()) {
            Some(bits) => bits,
            None => ONE_BITS,
        },
        volume_number: copy_opt(&chapter.volume),
        num_page_bookmarked: page_bookmarked,
        language: Languages::English,
        pages_url,
    }
}

/// The volume that a chapter is listed under.
pub open spec fn listed_volume(c: ChapterModel) -> Seq<char> {
    match c.volume {
        Some(volume) => volume,
        None => "none"@,
    }
}

/// The volumes that chapters are listed under, each once.
pub open spec fn listed_volumes(chapters: Seq<ChapterModel>) -> Seq<Seq<char>>
    decreases chapters.len(),
{
    if chapters.len() == 0 {
        Seq::empty()
    } else {
        let rest = listed_volumes(chapters.drop_last());
        let volume = listed_volume(chapters.last());
        if rest.contains(volume) {
            rest
        } else {
            rest.push(volume)
        }
    }
}

/// The chapters that are listed under a volume, in their order.
pub open spec fn volume_chapters(chapters: Seq<ChapterModel>, volume: Seq<char>) -> Seq<ChapterModel>
    decreases chapters.len(),
{
    if chapters.len() == 0 {
        Seq::empty()
    } else if listed_volume(chapters.last()) == volume {
        volume_chapters(chapters.drop_last(), volume).push(chapters.last())
    } else {
        volume_chapters(chapters.drop_last(), volume)
    }
}

/// By what volumes are ordered: as numbers, and where those are equal as text.
pub open spec fn volume_key(volume: Seq<char>) -> Seq<int> {
    seq![number_rank(volume)] + Seq::new(volume.len(), |i: int| volume[i] as int)
}

pub open spec fn volume_keys(volumes: Seq<Seq<char>>) -> Seq<Seq<int>> {
    Seq::new(volumes.len(), |i: int| volume_key(volumes[i]))
}

/// The volumes of a manga, in order.
pub open spec fn ordered_volumes(chapters: Seq<ChapterModel>) -> Seq<Seq<char>> {
    sorted_by(listed_volumes(chapters), volume_keys(listed_volumes(chapters)))
}

pub open spec fn shows_chapter_reader(r: ChapterReader, c: ChapterModel) -> bool {
    &&& r.id@ == c.id
    &&& r.number@ == c.number
    &&& r.volume@ == listed_volume(c)
}

pub open spec fn shows_volume(r: Volumes, volume: Seq<char>, chapters: Seq<ChapterModel>) -> bool {
    &&& r.volume@ == volume
    &&& r.chapters@.len() == chapters.len()
    &&& forall|i: int|
        0 <= i < chapters.len() ==> shows_chapter_reader(#[trigger] r.chapters@[i], chapters[i])
}

pub open spec fn shows_list(r: ListOfChapters, m: MangaModel) -> bool {
    let volumes = ordered_volumes(m.chapters);
    &&& r.volumes@.len() == volumes.len()
    &&& forall|i: int|
        0 <= i < volumes.len() ==> shows_volume(
            #[trigger] r.volumes@[i],
            volumes[i],
            volume_chapters(m.chapters, volumes[i]),
        )
}

fn volume_of(chapter: &LocalChapter) -> (r: String)
    ensures
        r@ == listed_volume(chapter@),
{
    match &chapter.volume {
        Some(volume) => volume.clone(),
        None => "none".to_owned(),
    }
}

fn has_text(texts: &Vec<String>, text: &String) -> (r: bool)
    ensures
        r == text_views(texts@).contains(text@),
{
    let mut i: usize = 0;
    while i < texts.len()
        invariant
            i <= texts.len(),
            forall|k: int| 0 <= k < i ==> (#[trigger] texts@[k])@ != text@,
        decreases texts.len() - i,
    {
        if texts[i] == *text {
            assert(text_views(texts@)[i as int] == text@);
            return true;
        }
        i += 1;
    }
    false
}

fn volumes_of(chapters: &Vec<LocalChapter>) -> (r: Vec<String>)
    ensures
        text_views(r@) == listed_volumes(chapter_views(chapters@)),
{
    let ghost list = chapter_views(chapters@);
    let mut r: Vec<String> = Vec::new();
    let mut i: usize = 0;
    while i < chapters.len()
        invariant
            i <= chapters.len(),
            list == chapter_views(chapters@),
            text_views(r@) == listed_volumes(list.take(i as int)),
        decreases chapters.len() - i,
    {
        let ghost before = text_views(r@);
        assert(list.take(i + 1).drop_last() == list.take(i as int));
        assert(list.take(i + 1).last() == chapters@[i as int]@);
        let volume: String = volume_of(&chapters[i]);
        if !has_text(&r, &volume) {
            r.push(volume);
            assert(text_views(r@) == before.push(volume@));
        }
        i += 1;
    }
    assert(list.take(i as int) == list);
    r
}

fn code_of(c: char) -> (r: u128)
    ensures
        r == c as int,
{
    c as u128
}

fn volume_key_of(volume: &String) -> (r: Vec<u128>)
    ensures
        ints(r@) == volume_key(volume@),
{
    let chars: Vec<char> = chars_of(volume.as_str());
    let mut r: Vec<u128> = Vec::new();
    r.push(number_rank_of(volume.as_str()) as u128);
    let mut i: usize = 0;
    while i < chars.len()
        invariant
            i <= chars.len(),
            ints(r@) == seq![number_rank(volume@)] + Seq::new(i as nat, |k: int| chars@[k] as int),
        decreases chars.len() - i,
    {
        let ghost before = ints(r@);
        r.push(code_of(chars[i]));
        assert(ints(r@) == before.push(chars@[i as int] as int));
        i += 1;
    }
    assert(ints(r@) == volume_key(volume@));
    r
}

fn chapters_of_volume(chapters: &Vec<LocalChapter>, volume: &String) -> (r: Volumes)
    ensures
        shows_volume(r, volume@, volume_chapters(chapter_views(chapters@), volume@)),
{
    let ghost list = chapter_views(chapters@);
    let mut found: Vec<ChapterReader> = Vec::new();
    let mut i: usize = 0;
    while i < chapters.len()
        invariant
            i <= chapters.len(),
            list == chapter_views(chapters@),
            found@.len() == volume_chapters(list.take(i as int), volume@).len(),
            forall|k: int|
                0 <= k < found@.len() ==> shows_chapter_reader(
                    #[trigger] found@[k],
                    volume_chapters(list.take(i as int), volume@)[k],
                ),
        decreases chapters.len() - i,
    {
        assert(list.take(i + 1).drop_last() == list.take(i as int));
        assert(list.take(i + 1).last() == chapters@[i as int]@);
        let listed: String = volume_of(&chapters[i]);
        if listed == *volume {
            found.push(
                ChapterReader {
                    id: chapters[i].id.clone(),
                    number: chapters[i].number.clone(),
                    volume: listed,
                },
            );
        }
        i += 1;
    }
    assert(list.take(i as int) == list);
    Volumes { volume: volume.clone(), chapters: found }
}

/// The chapters of a manga by volume.
pub fn list_of_chapters(manga: &LocalManga) -> (r: ListOfChapters)
    ensures
        shows_list(r, manga@),
{
    let names: Vec<String> = volumes_of(&manga.chapters);
    let ghost list = text_views(names@);
    let ghost chapters = chapter_views(manga.chapters@);
    let mut keys: Vec<Vec<u128>> = Vec::new();
    let mut i: usize = 0;
    while i < names.len()
        invariant
            i <= names.len(),
            list == text_views(names@),
            key_views(keys@) == volume_keys(list).take(i as int),
        decreases names.len() - i,
    {
        let ghost before = key_views(keys@);
        let key: Vec<u128> = volume_key_of(&names[i]);
        keys.push(key);
        assert(key_views(keys@) == before.push(ints(key@)));
        i += 1;
    }
    assert(volume_keys(list).take(i as int) == volume_keys(list));
    let order: Vec<usize> = sort_indices(&keys);
    let ghost sorted = reordered(list, index_views(order@));
    let mut volumes: Vec<Volumes> = Vec::new();
    let mut j: usize = 0;
    while j < order.len()
        invariant
            j <= order.len(),
            order.len() == names.len(),
            list == text_views(names@),
            chapters == chapter_views(manga.chapters@),
            sorted == reordered(list, index_views(order@)),
            forall|k: int| 0 <= k < order.len() ==> #[trigger] order@[k] < names.len(),
            volumes@.len() == j,
            forall|k: int|
                0 <= k < j ==> shows_volume(
                    #[trigger] volumes@[k],
                    sorted[k],
                    volume_chapters(chapters, sorted[k]),
                ),
        decreases order.len() - j,
    {
        assert(sorted[j as int] == names@[order@[j as int] as int]@);
        volumes.push(chapters_of_volume(&manga.chapters, &names[order[j]]));
        j += 1;
    }
    ListOfChapters { volumes }
}

proof fn lemma_listed_volumes(chapters: Seq<ChapterModel>)
    ensures
        forall|i: int|
            0 <= i < chapters.len() ==> listed_volumes(chapters).contains(
                listed_volume(#[trigger] chapters[i]),
            ),
        listed_volumes(chapters).no_duplicates(),
    decreases chapters.len(),
{
    if chapters.len() > 0 {
        let front = chapters.drop_last();
        lemma_listed_volumes(front);
        let rest = listed_volumes(front);
        let all = listed_volumes(chapters);
        let last = listed_volume(chapters.last());
        if !rest.contains(last) {
            assert(all == rest.push(last));
            assert(all[rest.len() as int] == last);
        }
        assert forall|i: int| 0 <= i < chapters.len() implies all.contains(
            listed_volume(#[trigger] chapters[i]),
        ) by {
            if i < front.len() {
                assert(front[i] == chapters[i]);
                let k = choose|k: int| 0 <= k < rest.len() && rest[k] == listed_volume(front[i]);
                assert(all[k] == listed_volume(chapters[i]));
            }
        }
    }
}

proof fn lemma_volume_chapters(chapters: Seq<ChapterModel>, volume: Seq<char>)
    ensures
        forall|i: int|
            0 <= i < chapters.len() && listed_volume(#[trigger] chapters[i]) == volume
                ==> volume_chapters(chapters, volume).contains(chapters[i]),
        forall|i: int|
            0 <= i < volume_chapters(chapters, volume).len() ==> listed_volume(
                #[trigger] volume_chapters(chapters, volume)[i],
            ) == volume && chapters.contains(volume_chapters(chapters, volume)[i]),
    decreases chapters.len(),
{
    if chapters.len() > 0 {
        let front = chapters.drop_last();
        lemma_volume_chapters(front, volume);
        let rest = volume_chapters(front, volume);
        let all = volume_chapters(chapters, volume);
        if listed_volume(chapters.last()) == volume {
            assert(all[rest.len() as int] == chapters.last());
        }
        assert forall|i: int|
            0 <= i < chapters.len() && listed_volume(#[trigger] chapters[i]) == volume implies all.contains(
            chapters[i],
        ) by {
            if i < front.len() {
                assert(front[i] == chapters[i]);
                let k = choose|k: int| 0 <= k < rest.len() && rest[k] == front[i];
                assert(all[k] == chapters[i]);
            }
        }
        assert forall|i: int| 0 <= i < all.len() implies listed_volume(#[trigger] all[i]) == volume
            && chapters.contains(all[i]) by {
            if i < rest.len() {
                assert(all[i] == rest[i]);
                let k = choose|k: int| 0 <= k < front.len() && front[k] == rest[i];
                assert(chapters[k] == all[i]);
            } else {
                assert(chapters[chapters.len() - 1] == all[i]);
            }
        }
    }
}

/// A list of chapters has each volume once, and each chapter of the manga under
/// its volume and under no other.
pub proof fn every_chapter_is_listed(chapters: Seq<ChapterModel>, i: int)
    requires
        0 <= i < chapters.len(),
    ensures
        ordered_volumes(chapters).contains(listed_volume(chapters[i])),
        ordered_volumes(chapters).no_duplicates(),
        volume_chapters(chapters, listed_volume(chapters[i])).contains(chapters[i]),
        forall|volume: Seq<char>|
            volume != listed_volume(chapters[i]) ==> !(#[trigger] volume_chapters(
                chapters,
                volume,
            )).contains(chapters[i]),
{
    let names = listed_volumes(chapters);
    let keys = volume_keys(names);
    let order = stable_order(keys);
    lemma_listed_volumes(chapters);
    lemma_stable_order(keys, keys.len());
    let sorted = ordered_volumes(chapters);
    let k = choose|k: int| 0 <= k < names.len() && names[k] == listed_volume(chapters[i]);
    assert(order.contains(k));
    let j = choose|j: int| 0 <= j < order.len() && order[j] == k;
    assert(sorted[j] == listed_volume(chapters[i]));
    lemma_volume_chapters(chapters, listed_volume(chapters[i]));
    assert forall|volume: Seq<char>| volume != listed_volume(chapters[i]) implies !(
    #[trigger] volume_chapters(chapters, volume)).contains(chapters[i]) by {
        lemma_volume_chapters(chapters, volume);
    }
    assert forall|a: int, b: int| 0 <= a < b < sorted.len() implies sorted[a] != sorted[b] by {
        assert(0 <= order[a] < names.len() && 0 <= order[b] < names.len());
        if order[a] == order[b] {
            lemma_key_lt_irreflexive(keys[order[a]]);
        }
        assert(sorted[a] == names[order[a]] && sorted[b] == names[order[b]]);
    }
}

} // verus!
