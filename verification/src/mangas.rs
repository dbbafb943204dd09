//! Mangas of folders and archives.
use crate::chapters::{
    chapter_from_images, chapter_from_source, chapter_of, file_url, file_url_of, image_chapter,
};
use crate::disk::{depth, lemma_listing, listing, max_depth, refs, sorted_dir_entries, FsEntry};
use crate::error::{ErrorModel, LocalError};
use crate::formats::{is_archive, is_image, is_supported_archive, is_supported_image_path};
use crate::model::{
    chapter_key_of, chapter_keys, chapter_views, manga_views, ChapterModel, LocalChapter, LocalManga,
    MangaModel,
};
use crate::numbering::{title_from_path, title_of, volume_in, volume_number_from_path};
use crate::order::{index_views, ints, key_views, reordered, sort_indices, sorted_by};
use crate::path::{copy_opt, opt_view};
use crate::places::{id_of, local_id};
use crate::scan::{
    archives_shallow, chapter_dirs_in, chapter_sources_in, collect_archives_shallow, collect_chapter_dirs,
    collect_chapter_sources_shallow, collect_images_recursive, collect_images_shallow, collect_volume_dirs,
    images_recursive, images_shallow, is_dir, is_file, lemma_listing_depth, volume_dirs_in,
};
use crate::text::{chars_of, lower, lowered, same};
use vstd::prelude::*;

verus! {

pub open spec fn manga_view(r: Result<LocalManga, LocalError>) -> Result<MangaModel, ErrorModel> {
    match r {
        Ok(m) => Ok(m@),
        Err(e) => Err(e@),
    }
}

pub open spec fn mangas_view(r: Result<Vec<LocalManga>, LocalError>) -> Result<Seq<MangaModel>, ErrorModel> {
    match r {
        Ok(m) => Ok(manga_views(m@)),
        Err(e) => Err(e@),
    }
}

pub open spec fn chapters_view(r: Result<Vec<LocalChapter>, LocalError>) -> Result<Seq<ChapterModel>, ErrorModel> {
    match r {
        Ok(m) => Ok(chapter_views(m@)),
        Err(e) => Err(e@),
    }
}

/// Whether an entry is the cover of the folder that it is in.
pub open spec fn is_cover(e: FsEntry) -> bool {
    &&& is_file(e)
    &&& e.path@.stem matches Some(stem) && lower(stem) == "cover"@
    &&& is_image(e.path@)
}

/// The first cover among the entries.
pub open spec fn first_cover(l: Seq<FsEntry>) -> Option<FsEntry>
    decreases l.len(),
{
    if l.len() == 0 {
        None
    } else if is_cover(l[0]) {
        Some(l[0])
    } else {
        first_cover(l.skip(1))
    }
}

/// The URL of the cover in a folder.
pub open spec fn cover_url(e: FsEntry) -> Result<Option<Seq<char>>, ErrorModel> {
    if is_dir(e) {
        match listing(e) {
            Err(x) => Err(x),
            Ok(l) => match first_cover(l) {
                None => Ok(None),
                Some(cover) => match file_url_of(cover.path@) {
                    None => Err(ErrorModel::NoFileUrl(cover.path@.text)),
                    Some(url) => Ok(Some(url)),
                },
            },
        }
    } else {
        Ok(None)
    }
}

fn is_cover_entry(e: &FsEntry) -> (r: bool)
    ensures
        r == is_cover(*e),
{
    if !e.is_file() || !is_supported_image_path(&e.path) {
        return false;
    }
    match &e.path.stem {
        None => false,
        Some(stem) => same(&lowered(&chars_of(stem.as_str())), &chars_of("cover")),
    }
}

pub fn find_cover_url(e: &FsEntry) -> (r: Result<Option<String>, LocalError>)
    ensures
        match r {
            Ok(url) => cover_url(*e) == Ok::<Option<Seq<char>>, ErrorModel>(opt_view(url)),
            Err(x) => cover_url(*e) == Err::<Option<Seq<char>>, ErrorModel>(x@),
        },
{
    if !e.is_dir() {
        return Ok(None);
    }
    let l: Vec<&FsEntry> = match sorted_dir_entries(e) {
        Ok(l) => l,
        Err(x) => {
            return Err(x);
        },
    };
    let ghost list = refs(l@);
    let mut i: usize = 0;
    assert(list.skip(0) == list);
    while i < l.len()
        invariant
            i <= l.len(),
            list == refs(l@),
            is_dir(*e),
            listing(*e) == Ok::<Seq<FsEntry>, ErrorModel>(list),
            first_cover(list) == first_cover(list.skip(i as int)),
        decreases l.len() - i,
    {
        assert(list.skip(i as int).skip(1) == list.skip(i + 1));
        if is_cover_entry(l[i]) {
            return match file_url(&l[i].path) {
                Ok(url) => Ok(Some(url)),
                Err(x) => Err(x),
            };
        }
        i += 1;
    }
    Ok(None)
}

/// The URL of the first page of the first chapter, empty where there is none.
pub open spec fn first_page_url(chapters: Seq<ChapterModel>) -> Seq<char> {
    if chapters.len() > 0 && chapters[0].pages.len() > 0 {
        chapters[0].pages[0].url
    } else {
        Seq::empty()
    }
}

/// The manga with these chapters that is found at an entry.
pub open spec fn manga_of(e: FsEntry, chapters: Seq<ChapterModel>) -> Result<MangaModel, ErrorModel> {
    match cover_url(e) {
        Err(x) => Err(x),
        Ok(url) => Ok(
            MangaModel {
                id: id_of(e.path@.text),
                title: title_of(e.path@),
                source_path: e.path@,
                cover_img_url: match url {
                    Some(url) => url,
                    None => first_page_url(chapters),
                },
                chapters,
            },
        ),
    }
}

fn manga_with_chapters(e: &FsEntry, chapters: Vec<LocalChapter>) -> (r: Result<LocalManga, LocalError>)
    ensures
        manga_view(r) == manga_of(*e, chapter_views(chapters@)),
{
    let cover_img_url: String = match find_cover_url(e) {
        Err(x) => {
            return Err(x);
        },
        Ok(Some(url)) => url,
        Ok(None) => if chapters.len() > 0 && chapters[0].pages.len() > 0 {
            chapters[0].pages[0].url.clone()
        } else {
            String::new()
        },
    };
    assert(chapters@.len() > 0 ==> chapter_views(chapters@)[0] == chapters@[0]@);
    Ok(
        LocalManga {
            id: local_id(&e.path),
            title: title_from_path(&e.path),
            source_path: e.path.copy(),
            cover_img_url,
            chapters,
        },
    )
}

/// The manga of one chapter that the images of a folder make up.
pub open spec fn image_folder_manga(e: FsEntry, images: Seq<FsEntry>) -> Result<MangaModel, ErrorModel> {
    match image_chapter(e.path@, 1, None, images) {
        Err(x) => Err(x),
        Ok(chapter) => manga_of(e, seq![chapter]),
    }
}

pub fn manga_from_image_folder(e: &FsEntry, images: &Vec<&FsEntry>) -> (r: Result<
    LocalManga,
    LocalError,
>)
    ensures
        manga_view(r) == image_folder_manga(*e, refs(images@)),
{
    match chapter_from_images(&e.path, 1, None, images) {
        Err(x) => Err(x),
        Ok(chapter) => {
            let mut chapters: Vec<LocalChapter> = Vec::new();
            chapters.push(chapter);
            assert(chapter_views(chapters@) == seq![chapter@]);
            manga_with_chapters(e, chapters)
        },
    }
}

/// The manga of one chapter that a folder or an archive is.
pub open spec fn single_manga(e: FsEntry) -> Result<MangaModel, ErrorModel> {
    if is_dir(e) {
        match images_recursive(e) {
            Err(x) => Err(x),
            Ok(images) => image_folder_manga(e, images),
        }
    } else if !is_archive(e.path@) {
        Err(ErrorModel::UnsupportedFile(e.path@.text))
    } else {
        match chapter_of(e, 1, None) {
            Err(x) => Err(x),
            Ok(chapter) => manga_of(e, seq![chapter]),
        }
    }
}

pub fn manga_from_single_source(e: &FsEntry) -> (r: Result<LocalManga, LocalError>)
    ensures
        manga_view(r) == single_manga(*e),
{
    if e.is_dir() {
        return match collect_images_recursive(e) {
            Err(x) => Err(x),
            Ok(images) => manga_from_image_folder(e, &images),
        };
    }
    if !is_supported_archive(&e.path) {
        return Err(LocalError::UnsupportedFile(e.path.text.clone()));
    }
    match chapter_from_source(e, 1, None) {
        Err(x) => Err(x),
        Ok(chapter) => {
            let mut chapters: Vec<LocalChapter> = Vec::new();
            chapters.push(chapter);
            assert(chapter_views(chapters@) == seq![chapter@]);
            manga_with_chapters(e, chapters)
        },
    }
}

/// `chapters`, followed by those of the first `n` sources; each is numbered by
/// its place where its name holds no number.
pub open spec fn add_chapters(
    chapters: Seq<ChapterModel>,
    sources: Seq<FsEntry>,
    n: nat,
    volume: Option<Seq<char>>,
) -> Result<Seq<ChapterModel>, ErrorModel>
    decreases n,
{
    if n == 0 || n > sources.len() {
        Ok(chapters)
    } else {
        match add_chapters(chapters, sources, (n - 1) as nat, volume) {
            Err(x) => Err(x),
            Ok(before) => if before.len() + 1 > usize::MAX {
                Err(ErrorModel::TooLarge(sources[n - 1].path@.text))
            } else {
                match chapter_of(sources[n - 1], before.len() + 1, volume) {
                    Err(x) => Err(x),
                    Ok(chapter) => Ok(before.push(chapter)),
                }
            },
        }
    }
}

proof fn lemma_add_chapters_error(
    chapters: Seq<ChapterModel>,
    sources: Seq<FsEntry>,
    n: nat,
    m: nat,
    volume: Option<Seq<char>>,
)
    requires
        n <= m <= sources.len(),
        add_chapters(chapters, sources, n, volume) is Err,
    ensures
        add_chapters(chapters, sources, m, volume) == add_chapters(chapters, sources, n, volume),
    decreases m,
{
    if n < m {
        lemma_add_chapters_error(chapters, sources, n, (m - 1) as nat, volume);
    }
}

fn append_chapters(
    first: Vec<LocalChapter>,
    sources: &Vec<&FsEntry>,
    volume: &Option<String>,
) -> (r: Result<Vec<LocalChapter>, LocalError>)
    ensures
        chapters_view(r) == add_chapters(
            chapter_views(first@),
            refs(sources@),
            sources@.len(),
            opt_view(*volume),
        ),
{
    let ghost start = chapter_views(first@);
    let ghost list = refs(sources@);
    let ghost vol = opt_view(*volume);
    let mut chapters: Vec<LocalChapter> = first;
    let mut i: usize = 0;
    while i < sources.len()
        invariant
            i <= sources.len(),
            start == chapter_views(first@),
            list == refs(sources@),
            vol == opt_view(*volume),
            add_chapters(start, list, i as nat, vol) == Ok::<Seq<ChapterModel>, ErrorModel>(
                chapter_views(chapters@),
            ),
        decreases sources.len() - i,
    {
        let ghost before = chapter_views(chapters@);
        if chapters.len() == usize::MAX {
            proof {
                lemma_add_chapters_error(start, list, (i + 1) as nat, list.len(), vol);
            }
            return Err(LocalError::TooLarge(sources[i].path.text.clone()));
        }
        match chapter_from_source(sources[i], chapters.len() + 1, copy_opt(volume)) {
            Err(x) => {
                proof {
                    assert(chapter_of(list[i as int], before.len() + 1, vol) == Err::<ChapterModel, ErrorModel>(x@));
                    lemma_add_chapters_error(start, list, (i + 1) as nat, list.len(), vol);
                }
                return Err(x);
            },
            Ok(chapter) => {
                chapters.push(chapter);
                assert(chapter_views(chapters@) == before.push(chapter@));
            },
        }
        i += 1;
    }
    Ok(chapters)
}

/// `chapters`, followed by those of the first `n` volumes.
pub open spec fn add_volumes(chapters: Seq<ChapterModel>, volumes: Seq<FsEntry>, n: nat) -> Result<
    Seq<ChapterModel>,
    ErrorModel,
>
    decreases n,
{
    if n == 0 || n > volumes.len() {
        Ok(chapters)
    } else {
        let e = volumes[n - 1];
        match add_volumes(chapters, volumes, (n - 1) as nat) {
            Err(x) => Err(x),
            Ok(before) => match chapter_sources_in(e) {
                Err(x) => Err(x),
                Ok(sources) => add_chapters(
                    before,
                    sources,
                    sources.len(),
                    volume_in(title_of(e.path@)),
                ),
            },
        }
    }
}

proof fn lemma_add_volumes_error(chapters: Seq<ChapterModel>, volumes: Seq<FsEntry>, n: nat, m: nat)
    requires
        n <= m <= volumes.len(),
        add_volumes(chapters, volumes, n) is Err,
    ensures
        add_volumes(chapters, volumes, m) == add_volumes(chapters, volumes, n),
    decreases m,
{
    if n < m {
        lemma_add_volumes_error(chapters, volumes, n, (m - 1) as nat);
    }
}

fn append_volumes(first: Vec<LocalChapter>, volumes: &Vec<&FsEntry>) -> (r: Result<
    Vec<LocalChapter>,
    LocalError,
>)
    ensures
        chapters_view(r) == add_volumes(
            chapter_views(first@),
            refs(volumes@),
            volumes@.len(),
        ),
{
    let ghost start = chapter_views(first@);
    let ghost list = refs(volumes@);
    let mut chapters: Vec<LocalChapter> = first;
    let mut i: usize = 0;
    while i < volumes.len()
        invariant
            i <= volumes.len(),
            start == chapter_views(first@),
            list == refs(volumes@),
            add_volumes(start, list, i as nat) == Ok::<Seq<ChapterModel>, ErrorModel>(
                chapter_views(chapters@),
            ),
        decreases volumes.len() - i,
    {
        let volume: Option<String> = volume_number_from_path(&volumes[i].path);
        match collect_chapter_sources_shallow(volumes[i]) {
            Err(x) => {
                proof {
                    assert(chapter_sources_in(list[i as int]) == Err::<Seq<FsEntry>, ErrorModel>(x@));
                    lemma_add_volumes_error(start, list, (i + 1) as nat, list.len());
                }
                return Err(x);
            },
            Ok(sources) => {
                match append_chapters(chapters, &sources, &volume) {
                    Err(x) => {
                        proof {
                            assert(add_volumes(start, list, (i + 1) as nat) == Err::<
                                Seq<ChapterModel>,
                                ErrorModel,
                            >(x@));
                            lemma_add_volumes_error(start, list, (i + 1) as nat, list.len());
                        }
                        return Err(x);
                    },
                    Ok(more) => {
                        chapters = more;
                    },
                }
            },
        }
        i += 1;
    }
    Ok(chapters)
}

fn sort_chapters(chapters: Vec<LocalChapter>) -> (r: Vec<LocalChapter>)
    ensures
        chapter_views(r@) == sorted_by(
            chapter_views(chapters@),
            chapter_keys(chapter_views(chapters@)),
        ),
{
    let ghost list = chapter_views(chapters@);
    let mut keys: Vec<Vec<u128>> = Vec::new();
    let mut i: usize = 0;
    while i < chapters.len()
        invariant
            i <= chapters.len(),
            list == chapter_views(chapters@),
            key_views(keys@) == chapter_keys(list).take(i as int),
        decreases chapters.len() - i,
    {
        let ghost before = key_views(keys@);
        let key: Vec<u128> = chapter_key_of(&chapters[i]);
        keys.push(key);
        assert(key_views(keys@) == before.push(ints(key@)));
        i += 1;
    }
    assert(chapter_keys(list).take(i as int) == chapter_keys(list));
    let order: Vec<usize> = sort_indices(&keys);
    let mut r: Vec<LocalChapter> = Vec::new();
    let mut j: usize = 0;
    while j < order.len()
        invariant
            j <= order.len(),
            order.len() == chapters.len(),
            list == chapter_views(chapters@),
            forall|k: int| 0 <= k < order.len() ==> #[trigger] order@[k] < chapters.len(),
            chapter_views(r@) == reordered(list, index_views(order@)).take(j as int),
        decreases order.len() - j,
    {
        let ghost before = chapter_views(r@);
        r.push(chapters[order[j]].copy());
        assert(chapter_views(r@) == before.push(chapters@[order@[j as int] as int]@));
        j += 1;
    }
    assert(reordered(list, index_views(order@)).take(j as int) == reordered(
        list,
        index_views(order@),
    ));
    r
}

/// The manga whose chapters are these folders and archives, and those of these
/// volumes, in order.
pub open spec fn collected_manga(e: FsEntry, sources: Seq<FsEntry>, volumes: Seq<FsEntry>) -> Result<
    MangaModel,
    ErrorModel,
> {
    match add_chapters(Seq::empty(), sources, sources.len(), None) {
        Err(x) => Err(x),
        Ok(first) => match add_volumes(first, volumes, volumes.len()) {
            Err(x) => Err(x),
            Ok(chapters) => manga_of(e, sorted_by(chapters, chapter_keys(chapters))),
        },
    }
}

fn collect_manga(e: &FsEntry, sources: &Vec<&FsEntry>, volumes: &Vec<&FsEntry>) -> (r: Result<
    LocalManga,
    LocalError,
>)
    ensures
        manga_view(r) == collected_manga(*e, refs(sources@), refs(volumes@)),
{
    let none: Vec<LocalChapter> = Vec::new();
    assert(chapter_views(none@) == Seq::<ChapterModel>::empty());
    match append_chapters(none, sources, &None) {
        Err(x) => Err(x),
        Ok(first) => match append_volumes(first, volumes) {
            Err(x) => Err(x),
            Ok(chapters) => manga_with_chapters(e, sort_chapters(chapters)),
        },
    }
}

/// The mangas in a folder. A folder with nothing but images is a manga of one
/// chapter. One with archives, folders of chapters or folders of volumes is a
/// manga with those. Any other holds the mangas of its folders and archives.
pub open spec fn scanned(e: FsEntry) -> Result<Seq<MangaModel>, ErrorModel>
    decreases depth(e), 0nat,
{
    match images_shallow(e) {
        Err(x) => Err(x),
        Ok(images) => match archives_shallow(e) {
            Err(x) => Err(x),
            Ok(archives) => match chapter_dirs_in(e) {
                Err(x) => Err(x),
                Ok(dirs) => match volume_dirs_in(e) {
                    Err(x) => Err(x),
                    Ok(volumes) => if archives.len() == 0 && dirs.len() == 0 && volumes.len() == 0 {
                        if images.len() > 0 {
                            match image_folder_manga(e, images) {
                                Err(x) => Err(x),
                                Ok(m) => Ok(seq![m]),
                            }
                        } else {
                            proof {
                                lemma_listing_depth(e);
                            }
                            match listing(e) {
                                Err(x) => Err(x),
                                Ok(l) => scanned_entries(l, l.len()),
                            }
                        }
                    } else {
                        match collected_manga(e, dirs + archives, volumes) {
                            Err(x) => Err(x),
                            Ok(m) => Ok(seq![m]),
                        }
                    },
                },
            },
        },
    }
}

/// The mangas in those of the first `n` entries that are folders or archives.
pub open spec fn scanned_entries(l: Seq<FsEntry>, n: nat) -> Result<Seq<MangaModel>, ErrorModel>
    decreases max_depth(l, n), n,
{
    if n == 0 || n > l.len() {
        Ok(Seq::empty())
    } else {
        let e = l[n - 1];
        match scanned_entries(l, (n - 1) as nat) {
            Err(x) => Err(x),
            Ok(before) => if is_dir(e) {
                match scanned(e) {
                    Err(x) => Err(x),
                    Ok(mangas) => Ok(before + mangas),
                }
            } else if is_archive(e.path@) {
                match single_manga(e) {
                    Err(x) => Err(x),
                    Ok(manga) => Ok(before.push(manga)),
                }
            } else {
                Ok(before)
            },
        }
    }
}

proof fn lemma_scanned_entries_error(l: Seq<FsEntry>, n: nat, m: nat)
    requires
        n <= m <= l.len(),
        scanned_entries(l, n) is Err,
    ensures
        scanned_entries(l, m) == scanned_entries(l, n),
    decreases m,
{
    if n < m {
        lemma_scanned_entries_error(l, n, (m - 1) as nat);
    }
}

pub fn scan_directory(e: &FsEntry) -> (r: Result<Vec<LocalManga>, LocalError>)
    ensures
        mangas_view(r) == scanned(*e),
    decreases depth(*e),
{
    let images: Vec<&FsEntry> = match collect_images_shallow(e) {
        Ok(v) => v,
        Err(x) => {
            return Err(x);
        },
    };
    let mut archives: Vec<&FsEntry> = match collect_archives_shallow(e) {
        Ok(v) => v,
        Err(x) => {
            return Err(x);
        },
    };
    let mut sources: Vec<&FsEntry> = match collect_chapter_dirs(e) {
        Ok(v) => v,
        Err(x) => {
            return Err(x);
        },
    };
    let volumes: Vec<&FsEntry> = match collect_volume_dirs(e) {
        Ok(v) => v,
        Err(x) => {
            return Err(x);
        },
    };
    if archives.len() == 0 && sources.len() == 0 && volumes.len() == 0 {
        if images.len() > 0 {
            return match manga_from_image_folder(e, &images) {
                Err(x) => Err(x),
                Ok(manga) => {
                    let mut mangas: Vec<LocalManga> = Vec::new();
                    mangas.push(manga);
                    assert(manga_views(mangas@) == seq![manga@]);
                    Ok(mangas)
                },
            };
        }
    } else {
        let ghost all = refs(sources@) + refs(archives@);
        sources.append(&mut archives);
        assert(refs(sources@) == all);
        return match collect_manga(e, &sources, &volumes) {
            Err(x) => Err(x),
            Ok(manga) => {
                let mut mangas: Vec<LocalManga> = Vec::new();
                mangas.push(manga);
                assert(manga_views(mangas@) == seq![manga@]);
                Ok(mangas)
            },
        };
    }
    let l: Vec<&FsEntry> = match sorted_dir_entries(e) {
        Ok(l) => l,
        Err(x) => {
            return Err(x);
        },
    };
    let ghost list = refs(l@);
    proof {
        lemma_listing(*e);
    }
    let mut mangas: Vec<LocalManga> = Vec::new();
    assert(manga_views(mangas@) == Seq::<MangaModel>::empty());
    let mut i: usize = 0;
    while i < l.len()
        invariant
            i <= l.len(),
            list == refs(l@),
            forall|k: int| 0 <= k < list.len() ==> depth(#[trigger] list[k]) < depth(*e),
            scanned(*e) == scanned_entries(list, list.len()),
            scanned_entries(list, i as nat) == Ok::<Seq<MangaModel>, ErrorModel>(
                manga_views(mangas@),
            ),
        decreases l.len() - i,
    {
        let ghost before = manga_views(mangas@);
        assert(list[i as int] == *l@[i as int]);
        if l[i].is_dir() {
            match scan_directory(l[i]) {
                Err(x) => {
                    proof {
                        assert(scanned_entries(list, (i + 1) as nat) == Err::<Seq<MangaModel>, ErrorModel>(x@));
                        lemma_scanned_entries_error(list, (i + 1) as nat, list.len());
                    }
                    return Err(x);
                },
                Ok(found) => {
                    let mut found: Vec<LocalManga> = found;
                    let ghost more = manga_views(found@);
                    mangas.append(&mut found);
                    assert(manga_views(mangas@) == before + more);
                },
            }
        } else if is_supported_archive(&l[i].path) {
            match manga_from_single_source(l[i]) {
                Err(x) => {
                    proof {
                        assert(scanned_entries(list, (i + 1) as nat) == Err::<Seq<MangaModel>, ErrorModel>(x@));
                        lemma_scanned_entries_error(list, (i + 1) as nat, list.len());
                    }
                    return Err(x);
                },
                Ok(manga) => {
                    mangas.push(manga);
                    assert(manga_views(mangas@) == before.push(manga@));
                },
            }
        }
        i += 1;
    }
    Ok(mangas)
}

/// The mangas at a path.
pub open spec fn mangas_at(e: FsEntry) -> Result<Seq<MangaModel>, ErrorModel> {
    if is_file(e) {
        match single_manga(e) {
            Err(x) => Err(x),
            Ok(manga) => Ok(seq![manga]),
        }
    } else {
        scanned(e)
    }
}

pub fn scan_path(e: &FsEntry) -> (r: Result<Vec<LocalManga>, LocalError>)
    ensures
        mangas_view(r) == mangas_at(*e),
{
    if e.is_file() {
        return match manga_from_single_source(e) {
            Err(x) => Err(x),
            Ok(manga) => {
                let mut mangas: Vec<LocalManga> = Vec::new();
                mangas.push(manga);
                assert(manga_views(mangas@) == seq![manga@]);
                Ok(mangas)
            },
        };
    }
    scan_directory(e)
}

} // verus!
