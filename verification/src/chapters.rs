//! Chapters of folders and archives.
use crate::disk::{refs, ArchiveListing, ArchiveMember, FsEntry};
use crate::error::{ErrorModel, LocalError};
use crate::formats::{
    archive_format, extension_from_name, is_image, is_supported_image_name, lower_extension, LocalChapterFormat,
};
use crate::model::{page_views, ChapterModel, LocalChapter, LocalPage, LocalPageSource, PageModel, SourceModel};
use crate::natural::{natural_key, natural_key_of_text};
use crate::numbering::{
    chapter_number, chapter_numbers_from_path, chapter_volume, title_from_path, title_of, LocalChapterNumbers,
};
use crate::order::{index_views, ints, key_views, reordered, sort_indices, sorted_by};
use crate::outside::{path_url, url_of_path};
use crate::path::{copy_opt, opt_view, path_of, LocalPath, PathModel};
use crate::places::{id_of, is_plain_id, local_id, local_ids_are_plain, local_page_url, page_url};
use crate::scan::{collect_images_recursive, images_recursive, is_dir, size_of_entry};
use crate::text::text_views;
use vstd::prelude::*;

verus! {

pub open spec fn chapter_view(r: Result<LocalChapter, LocalError>) -> Result<ChapterModel, ErrorModel> {
    match r {
        Ok(c) => Ok(c@),
        Err(e) => Err(e@),
    }
}

/// The `file:` URL of a path.
pub open spec fn file_url_of(path: PathModel) -> Option<Seq<char>> {
    match path.raw {
        Some(raw) => raw.url,
        None => path_url(path.text),
    }
}

/// The `file:` URL of a path, or an error where it has none.
pub fn file_url(path: &LocalPath) -> (r: Result<String, LocalError>)
    ensures
        match r {
            Ok(url) => file_url_of(path@) == Some(url@),
            Err(e) => file_url_of(path@) is None && e@ == ErrorModel::NoFileUrl(path@.text),
        },
{
    let url: Option<String> = match &path.raw {
        Some(raw) => copy_opt(&raw.url),
        None => url_of_path(path.text.as_str()),
    };
    match url {
        Some(url) => Ok(url),
        None => Err(LocalError::NoFileUrl(path.text.clone())),
    }
}

/// The page of an image file.
pub open spec fn image_page(e: FsEntry) -> Result<PageModel, ErrorModel> {
    match file_url_of(e.path@) {
        None => Err(ErrorModel::NoFileUrl(e.path@.text)),
        Some(url) => Ok(
            PageModel {
                url,
                extension: match e.path@.extension {
                    Some(extension) => extension,
                    None => "jpg"@,
                },
                source: SourceModel::File(e.path@),
                bytes: size_of_entry(e),
            },
        ),
    }
}

/// The pages of the first `n` images.
pub open spec fn image_pages(images: Seq<FsEntry>, n: nat) -> Result<Seq<PageModel>, ErrorModel>
    decreases n,
{
    if n == 0 || n > images.len() {
        Ok(Seq::empty())
    } else {
        match image_pages(images, (n - 1) as nat) {
            Err(x) => Err(x),
            Ok(pages) => match image_page(images[n - 1]) {
                Err(x) => Err(x),
                Ok(page) => Ok(pages.push(page)),
            },
        }
    }
}

proof fn lemma_image_pages_error(images: Seq<FsEntry>, n: nat, m: nat)
    requires
        n <= m <= images.len(),
        image_pages(images, n) is Err,
    ensures
        image_pages(images, m) == image_pages(images, n),
    decreases m,
{
    if n < m {
        lemma_image_pages_error(images, n, (m - 1) as nat);
    }
}

/// A chapter, as its path names and numbers it.
pub open spec fn chapter_at(
    path: PathModel,
    number: nat,
    default_volume: Option<Seq<char>>,
    format: LocalChapterFormat,
    pages: Seq<PageModel>,
    bytes: u64,
) -> ChapterModel {
    ChapterModel {
        id: id_of(path.text),
        title: title_of(path),
        number: chapter_number(path, number, default_volume),
        volume: chapter_volume(path, default_volume),
        source_path: path,
        format,
        pages,
        bytes,
    }
}

/// The chapter that the images of a folder make up.
pub open spec fn image_chapter(
    path: PathModel,
    number: nat,
    default_volume: Option<Seq<char>>,
    images: Seq<FsEntry>,
) -> Result<ChapterModel, ErrorModel> {
    if images.len() == 0 {
        Err(ErrorModel::NoImages(path.text))
    } else {
        match image_pages(images, images.len()) {
            Err(x) => Err(x),
            Ok(pages) => Ok(
                chapter_at(path, number, default_volume, LocalChapterFormat::ImageFolder, pages, 0),
            ),
        }
    }
}

fn page_of_image(e: &FsEntry) -> (r: Result<LocalPage, LocalError>)
    ensures
        match r {
            Ok(page) => image_page(*e) == Ok::<PageModel, ErrorModel>(page@),
            Err(x) => image_page(*e) == Err::<PageModel, ErrorModel>(x@),
        },
{
    let extension: String = match &e.path.extension {
        Some(extension) => extension.clone(),
        None => "jpg".to_owned(),
    };
    match file_url(&e.path) {
        Err(x) => Err(x),
        Ok(url) => Ok(
            LocalPage {
                url,
                extension,
                source: LocalPageSource::File(e.path.copy()),
                bytes: e.file_size(),
            },
        ),
    }
}

pub fn chapter_from_images(
    source_path: &LocalPath,
    number: usize,
    default_volume: Option<String>,
    images: &Vec<&FsEntry>,
) -> (r: Result<LocalChapter, LocalError>)
    ensures
        chapter_view(r) == image_chapter(
            source_path@,
            number as nat,
            opt_view(default_volume),
            refs(images@),
        ),
{
    if images.len() == 0 {
        return Err(LocalError::NoImages(source_path.text.clone()));
    }
    let ghost list = refs(images@);
    let mut pages: Vec<LocalPage> = Vec::new();
    assert(page_views(pages@) == Seq::<PageModel>::empty());
    let mut i: usize = 0;
    while i < images.len()
        invariant
            i <= images.len(),
            list == refs(images@),
            list.len() > 0,
            image_pages(list, i as nat) == Ok::<Seq<PageModel>, ErrorModel>(page_views(pages@)),
        decreases images.len() - i,
    {
        let ghost before = page_views(pages@);
        match page_of_image(images[i]) {
            Err(x) => {
                proof {
                    assert(image_pages(list, (i + 1) as nat) == Err::<Seq<PageModel>, ErrorModel>(x@));
                    lemma_image_pages_error(list, (i + 1) as nat, list.len());
                }
                return Err(x);
            },
            Ok(page) => {
                pages.push(page);
                assert(page_views(pages@) == before.push(page@));
            },
        }
        i += 1;
    }
    let numbers: LocalChapterNumbers = chapter_numbers_from_path(source_path, number, default_volume);
    Ok(
        LocalChapter {
            id: local_id(source_path),
            title: title_from_path(source_path),
            number: numbers.chapter,
            volume: numbers.volume,
            source_path: source_path.copy(),
            format: LocalChapterFormat::ImageFolder,
            pages,
            bytes: 0,
        },
    )
}

/// The names of the images among the members of an archive.
pub open spec fn image_names(members: Seq<ArchiveMember>) -> Seq<Seq<char>>
    decreases members.len(),
{
    if members.len() == 0 {
        Seq::empty()
    } else {
        let rest = image_names(members.drop_last());
        let last = members.last();
        if !last.is_directory && is_image(path_of(last.name@)) {
            rest.push(last.name@)
        } else {
            rest
        }
    }
}

pub open spec fn natural_keys(names: Seq<Seq<char>>) -> Seq<Seq<int>> {
    Seq::new(names.len(), |i: int| natural_key(names[i]))
}

/// The names of the images among what was read of an archive, in natural order.
pub open spec fn listed_images(l: ArchiveListing) -> Result<Seq<Seq<char>>, ErrorModel> {
    match l {
        ArchiveListing::Unreadable(message) => Err(ErrorModel::Io(message@)),
        ArchiveListing::Members(members) => {
            let names = image_names(members@);
            Ok(sorted_by(names, natural_keys(names)))
        },
    }
}

/// The names of the images in an archive, in natural order.
pub open spec fn archive_images(e: FsEntry) -> Result<Seq<Seq<char>>, ErrorModel> {
    listed_images(e.members)
}

fn sort_names(names: Vec<String>) -> (r: Vec<String>)
    ensures
        text_views(r@) == sorted_by(text_views(names@), natural_keys(text_views(names@))),
{
    let ghost list = text_views(names@);
    let mut keys: Vec<Vec<u128>> = Vec::new();
    let mut i: usize = 0;
    while i < names.len()
        invariant
            i <= names.len(),
            list == text_views(names@),
            key_views(keys@) == natural_keys(list).take(i as int),
        decreases names.len() - i,
    {
        let ghost before = key_views(keys@);
        let key: Vec<u128> = natural_key_of_text(names[i].as_str());
        keys.push(key);
        assert(key_views(keys@) == before.push(ints(key@)));
        i += 1;
    }
    assert(natural_keys(list).take(i as int) == natural_keys(list));
    let order: Vec<usize> = sort_indices(&keys);
    let mut r: Vec<String> = Vec::new();
    let mut j: usize = 0;
    while j < order.len()
        invariant
            j <= order.len(),
            order.len() == names.len(),
            list == text_views(names@),
            forall|k: int| 0 <= k < order.len() ==> #[trigger] order@[k] < names.len(),
            text_views(r@) == reordered(list, index_views(order@)).take(j as int),
        decreases order.len() - j,
    {
        let ghost before = text_views(r@);
        r.push(names[order[j]].clone());
        assert(text_views(r@) == before.push(names@[order@[j as int] as int]@));
        j += 1;
    }
    assert(reordered(list, index_views(order@)).take(j as int) == reordered(
        list,
        index_views(order@),
    ));
    r
}

fn image_entries(l: &ArchiveListing) -> (r: Result<Vec<String>, LocalError>)
    ensures
        match r {
            Ok(names) => listed_images(*l) == Ok::<Seq<Seq<char>>, ErrorModel>(text_views(names@)),
            Err(x) => listed_images(*l) == Err::<Seq<Seq<char>>, ErrorModel>(x@),
        },
{
    match l {
        ArchiveListing::Unreadable(message) => Err(LocalError::Io(message.clone())),
        ArchiveListing::Members(members) => {
            let mut names: Vec<String> = Vec::new();
            let mut i: usize = 0;
            while i < members.len()
                invariant
                    i <= members.len(),
                    text_views(names@) == image_names(members@.take(i as int)),
                decreases members.len() - i,
            {
                let ghost before = text_views(names@);
                assert(members@.take(i + 1).drop_last() == members@.take(i as int));
                if !members[i].is_directory && is_supported_image_name(members[i].name.as_str()) {
                    names.push(members[i].name.clone());
                    assert(text_views(names@) == before.push(members@[i as int].name@));
                }
                i += 1;
            }
            assert(members@.take(i as int) == members@);
            Ok(sort_names(names))
        },
    }
}

/// The names of the images in an archive, in natural order.
pub fn archive_image_entries(e: &FsEntry) -> (r: Result<Vec<String>, LocalError>)
    ensures
        match r {
            Ok(names) => archive_images(*e) == Ok::<Seq<Seq<char>>, ErrorModel>(text_views(names@)),
            Err(x) => archive_images(*e) == Err::<Seq<Seq<char>>, ErrorModel>(x@),
        },
{
    image_entries(&e.members)
}

/// The page of an image in an archive.
pub open spec fn archive_page(
    path: PathModel,
    format: LocalChapterFormat,
    index: nat,
    name: Seq<char>,
) -> PageModel {
    PageModel {
        url: page_url(id_of(path.text), index),
        extension: match lower_extension(path_of(name)) {
            Some(extension) => extension,
            None => "jpg"@,
        },
        source: match format {
            LocalChapterFormat::Cbr => SourceModel::RarEntry { archive_path: path, entry_name: name },
            _ => SourceModel::ZipEntry { archive_path: path, entry_name: name },
        },
        bytes: 0,
    }
}

pub open spec fn archive_pages(
    path: PathModel,
    format: LocalChapterFormat,
    names: Seq<Seq<char>>,
) -> Seq<PageModel> {
    Seq::new(names.len(), |i: int| archive_page(path, format, i as nat, names[i]))
}

/// The chapter that an archive is.
pub open spec fn archive_chapter(
    e: FsEntry,
    number: nat,
    default_volume: Option<Seq<char>>,
) -> Result<ChapterModel, ErrorModel> {
    match archive_format(lower_extension(e.path@)) {
        None => Err(ErrorModel::UnsupportedArchive(e.path@.text)),
        Some(format) => match archive_images(e) {
            Err(x) => Err(x),
            Ok(names) => if names.len() == 0 {
                Err(ErrorModel::NoImages(e.path@.text))
            } else {
                Ok(
                    chapter_at(
                        e.path@,
                        number,
                        default_volume,
                        format,
                        archive_pages(e.path@, format, names),
                        size_of_entry(e),
                    ),
                )
            },
        },
    }
}

pub fn chapter_from_archive(e: &FsEntry, number: usize, default_volume: Option<String>) -> (r: Result<
    LocalChapter,
    LocalError,
>)
    ensures
        chapter_view(r) == archive_chapter(*e, number as nat, opt_view(default_volume)),
{
    let chapter_id: String = local_id(&e.path);
    let format: LocalChapterFormat = match LocalChapterFormat::try_from_path(&e.path) {
        Ok(format) => format,
        Err(x) => {
            return Err(x);
        },
    };
    let names: Vec<String> = match archive_image_entries(e) {
        Ok(names) => names,
        Err(x) => {
            return Err(x);
        },
    };
    if names.len() == 0 {
        return Err(LocalError::NoImages(e.path.text.clone()));
    }
    let ghost list = text_views(names@);
    let ghost path = e.path@;
    proof {
        local_ids_are_plain(path.text);
    }
    let mut pages: Vec<LocalPage> = Vec::new();
    let mut i: usize = 0;
    while i < names.len()
        invariant
            i <= names.len(),
            list == text_views(names@),
            path == e.path@,
            chapter_id@ == id_of(path.text),
            is_plain_id(id_of(path.text)),
            page_views(pages@) == archive_pages(path, format, list).take(i as int),
        decreases names.len() - i,
    {
        let ghost before = page_views(pages@);
        let extension: String = match extension_from_name(names[i].as_str()) {
            Some(extension) => extension,
            None => "jpg".to_owned(),
        };
        let url: String = match local_page_url(chapter_id.as_str(), i) {
            Ok(url) => url,
            Err(x) => {
                return Err(x);
            },
        };
        let source: LocalPageSource = match format {
            LocalChapterFormat::Cbr => LocalPageSource::RarEntry {
                archive_path: e.path.copy(),
                entry_name: names[i].clone(),
            },
            _ => LocalPageSource::ZipEntry {
                archive_path: e.path.copy(),
                entry_name: names[i].clone(),
            },
        };
        let page: LocalPage = LocalPage { url, extension, source, bytes: 0 };
        pages.push(page);
        assert(page@ == archive_page(path, format, i as nat, list[i as int]));
        assert(page_views(pages@) == before.push(page@));
        i += 1;
    }
    assert(archive_pages(path, format, list).take(i as int) == archive_pages(path, format, list));
    let numbers: LocalChapterNumbers = chapter_numbers_from_path(&e.path, number, default_volume);
    Ok(
        LocalChapter {
            id: chapter_id,
            title: title_from_path(&e.path),
            number: numbers.chapter,
            volume: numbers.volume,
            source_path: e.path.copy(),
            format,
            pages,
            bytes: e.file_size(),
        },
    )
}

/// The chapter that a folder or an archive is.
pub open spec fn chapter_of(e: FsEntry, number: nat, default_volume: Option<Seq<char>>) -> Result<
    ChapterModel,
    ErrorModel,
> {
    if is_dir(e) {
        match images_recursive(e) {
            Err(x) => Err(x),
            Ok(images) => image_chapter(e.path@, number, default_volume, images),
        }
    } else {
        archive_chapter(e, number, default_volume)
    }
}

pub fn chapter_from_source(e: &FsEntry, number: usize, volume: Option<String>) -> (r: Result<
    LocalChapter,
    LocalError,
>)
    ensures
        chapter_view(r) == chapter_of(*e, number as nat, opt_view(volume)),
{
    if e.is_dir() {
        match collect_images_recursive(e) {
            Err(x) => Err(x),
            Ok(images) => chapter_from_images(&e.path, number, volume, &images),
        }
    } else {
        chapter_from_archive(e, number, volume)
    }
}

} // verus!
