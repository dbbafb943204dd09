use manga_tui_core::anypath::AnyPath;
use manga_tui_core::chapters::archive_image_entries;
use manga_tui_core::components::identity_of;
use manga_tui_core::disk::{ArchiveListing, ArchiveMember, DirListing, FsEntry, FsKind};
use manga_tui_core::error::LocalError;
use manga_tui_core::formats::LocalChapterFormat;
use manga_tui_core::mangas::{manga_from_single_source, scan_directory, scan_path};
use manga_tui_core::model::{local_chapter_cmp, LocalPageSource};
use manga_tui_core::path::{LocalPath, RawPath};
use manga_tui_core::places::local_cache_path;
use manga_tui_core::provider::LocalProvider;
use manga_tui_core::responses::list_of_chapters;
use manga_tui_core::scan::{collect_images_recursive, collect_images_shallow};
use std::cmp::Ordering;

fn dir(path: &str, entries: Vec<FsEntry>) -> FsEntry {
    FsEntry {
        path: LocalPath::new(path),
        kind: FsKind::Directory,
        listing: DirListing::Entries(entries),
        members: ArchiveListing::Unreadable("no archive".to_string()),
    }
}

fn broken_dir(path: &str, message: &str) -> FsEntry {
    FsEntry {
        path: LocalPath::new(path),
        kind: FsKind::Directory,
        listing: DirListing::Unreadable(message.to_string()),
        members: ArchiveListing::Unreadable("no archive".to_string()),
    }
}

fn file(path: &str, bytes: u64) -> FsEntry {
    FsEntry {
        path: LocalPath::new(path),
        kind: FsKind::File(bytes),
        listing: DirListing::Unreadable("no folder".to_string()),
        members: ArchiveListing::Unreadable("no archive".to_string()),
    }
}

fn archive(path: &str, bytes: u64, names: &[&str]) -> FsEntry {
    let members = names
        .iter()
        .map(|name| ArchiveMember { name: name.to_string(), is_directory: name.ends_with('/') })
        .collect();
    FsEntry {
        path: LocalPath::new(path),
        kind: FsKind::File(bytes),
        listing: DirListing::Unreadable("no folder".to_string()),
        members: ArchiveListing::Members(members),
    }
}

#[test]
fn scans_image_folder_as_single_manga_with_one_chapter() {
    let root = dir("/l/One Shot", vec![file("/l/One Shot/10.png", 7), file("/l/One Shot/2.png", 5)]);

    let provider = LocalProvider::from_path(&root).unwrap();
    let mangas = provider.mangas();
    let manga = &mangas[0];

    assert_eq!(1, mangas.len());
    assert_eq!("One Shot", manga.title);
    assert_eq!(1, manga.chapters.len());
    assert_eq!(2, manga.chapters[0].pages.len());
    assert!(manga.chapters[0].pages[0].url.ends_with("2.png"));
    assert_eq!("file:///l/One%20Shot/2.png", manga.chapters[0].pages[0].url);
    assert_eq!(2, provider.library_stats().page_count);
    assert_eq!(1, provider.library_stats().image_folder_count);
    assert_eq!(12, provider.library_stats().total_bytes);
}

#[test]
fn scans_folder_of_chapter_folders_as_one_manga() {
    let root = dir(
        "/l/Series",
        vec![
            dir("/l/Series/Chapter 1", vec![file("/l/Series/Chapter 1/1.png", 1)]),
            dir("/l/Series/Chapter 2", vec![file("/l/Series/Chapter 2/1.png", 1)]),
        ],
    );

    let provider = LocalProvider::from_path(&root).unwrap();
    let mangas = provider.mangas();
    let manga = &mangas[0];

    assert_eq!(1, mangas.len());
    assert_eq!("Series", manga.title);
    assert_eq!(2, manga.chapters.len());
    assert_eq!("Chapter 1", manga.chapters[0].title);
    assert_eq!("Chapter 2", manga.chapters[1].title);
}

#[test]
fn scans_volume_folders_as_one_manga_with_volume_numbers() {
    let root = dir(
        "/l/Series",
        vec![
            dir(
                "/l/Series/Vol 2",
                vec![dir("/l/Series/Vol 2/Chapter 10", vec![file("/l/Series/Vol 2/Chapter 10/1.png", 1)])],
            ),
            dir(
                "/l/Series/Vol 1",
                vec![dir("/l/Series/Vol 1/Chapter 1", vec![file("/l/Series/Vol 1/Chapter 1/1.png", 1)])],
            ),
        ],
    );

    let provider = LocalProvider::from_path(&root).unwrap();
    let manga = &provider.mangas()[0];

    assert_eq!(1, provider.mangas().len());
    assert_eq!(2, manga.chapters.len());
    assert_eq!(Some("1".to_string()), manga.chapters[0].volume);
    assert_eq!("1", manga.chapters[0].number);
    assert_eq!(Some("2".to_string()), manga.chapters[1].volume);
    assert_eq!("10", manga.chapters[1].number);
    assert_eq!(2, provider.library_stats().volume_count);

    let list = list_of_chapters(manga);
    assert_eq!(2, list.volumes.len());
    assert_eq!("1", list.volumes[0].volume);
    assert_eq!("2", list.volumes[1].volume);
}

#[test]
fn cover_image_does_not_turn_manga_folder_into_image_chapter() {
    let root = dir(
        "/l/Series",
        vec![
            file("/l/Series/cover.jpg", 1),
            dir("/l/Series/Chapter 1", vec![file("/l/Series/Chapter 1/1.png", 1)]),
            dir("/l/Series/Chapter 2", vec![file("/l/Series/Chapter 2/1.png", 1)]),
        ],
    );

    let provider = LocalProvider::from_path(&root).unwrap();
    let manga = &provider.mangas()[0];

    assert_eq!(2, manga.chapters.len());
    assert!(manga.cover_img_url.ends_with("cover.jpg"));
}

#[test]
fn scans_folder_of_manga_folders_as_library() {
    let root = dir(
        "/l",
        vec![
            dir(
                "/l/Series A",
                vec![dir("/l/Series A/Chapter 1", vec![file("/l/Series A/Chapter 1/1.png", 1)])],
            ),
            dir(
                "/l/Series B",
                vec![dir("/l/Series B/Chapter 1", vec![file("/l/Series B/Chapter 1/1.png", 1)])],
            ),
        ],
    );

    let provider = LocalProvider::from_path(&root).unwrap();
    let mangas = provider.mangas();

    assert_eq!(2, mangas.len());
    assert_eq!("Series A", mangas[0].title);
    assert_eq!("Series B", mangas[1].title);
    assert_eq!(1, mangas[0].chapters.len());
    assert_eq!(1, mangas[1].chapters.len());
}

#[test]
fn scans_single_cbz_as_one_manga() {
    let root = archive("/l/Archive.cbz", 99, &["10.png", "2.png"]);

    let provider = LocalProvider::from_path(&root).unwrap();
    let mangas = provider.mangas();
    let manga = &mangas[0];

    assert_eq!(1, mangas.len());
    assert_eq!("Archive", manga.title);
    assert_eq!(1, manga.chapters.len());
    assert_eq!(2, manga.chapters[0].pages.len());
    assert_eq!(1, provider.library_stats().cbz_count);
    let data = Some(AnyPath::Text("/l/data".to_string()));
    let cache = local_cache_path(&data, &Err(String::new()), &root.path).unwrap();
    assert!(matches!(cache, AnyPath::Text(path) if !std::path::Path::new(&path).exists()));
    assert!(matches!(
        &manga.chapters[0].pages[0].source,
        LocalPageSource::ZipEntry { entry_name, .. } if entry_name == "2.png"
    ));
    assert_eq!(99, provider.library_stats().total_bytes);
}

#[test]
fn scans_single_epub_as_one_manga() {
    let root = archive(
        "/l/Volume.epub",
        1,
        &["META-INF/container.xml", "OEBPS/Images/10.jpg", "OEBPS/Images/2.jpg"],
    );

    let provider = LocalProvider::from_path(&root).unwrap();
    let mangas = provider.mangas();
    let manga = &mangas[0];

    assert_eq!(1, mangas.len());
    assert_eq!("Volume", manga.title);
    assert_eq!(1, manga.chapters.len());
    assert_eq!(2, manga.chapters[0].pages.len());
    assert_eq!(1, provider.library_stats().epub_count);
    assert!(matches!(
        &manga.chapters[0].pages[0].source,
        LocalPageSource::ZipEntry { entry_name, .. } if entry_name == "OEBPS/Images/2.jpg"
    ));
}

#[test]
fn reload_from_path_replaces_library_index() {
    let first = dir("/first/First", vec![file("/first/First/1.png", 1)]);
    let second = dir("/second/Second", vec![file("/second/Second/1.png", 1)]);

    let mut provider = LocalProvider::from_path(&first).unwrap();
    assert_eq!("First", provider.mangas()[0].title);

    provider.reload_from_path(&second).unwrap();

    let mangas = provider.mangas();
    assert_eq!(1, mangas.len());
    assert_eq!("Second", mangas[0].title);
    assert_eq!("/second/Second", provider.library_stats().library_path.text);
    assert_eq!("/second/Second", provider.library_path().text);
}

#[test]
fn failed_reload_keeps_the_library() {
    let first = dir("/first/First", vec![file("/first/First/1.png", 1)]);
    let mut provider = LocalProvider::from_path(&first).unwrap();

    let error = provider.reload_from_path(&broken_dir("/gone", "permission denied")).unwrap_err();

    assert_eq!("permission denied", error.message());
    assert_eq!("First", provider.mangas()[0].title);
    assert_eq!("/first/First", provider.library_path().text);
}

#[test]
fn single_rar_is_read_as_rar() {
    let root = archive("/l/Book.CBR", 3, &["b/", "b/2.JPG", "b/1.jpg", "notes.txt"]);

    let mangas = scan_path(&root).unwrap();
    let chapter = &mangas[0].chapters[0];

    assert_eq!(LocalChapterFormat::Cbr, chapter.format);
    assert_eq!(2, chapter.pages.len());
    assert!(matches!(
        &chapter.pages[0].source,
        LocalPageSource::RarEntry { entry_name, archive_path } if entry_name == "b/1.jpg" && archive_path.text == "/l/Book.CBR"
    ));
    assert_eq!("jpg", chapter.pages[1].extension);
    assert_eq!(format!("local://page/{}/1", chapter.id), chapter.pages[1].url);
    assert_eq!(mangas[0].cover_img_url, chapter.pages[0].url);
}

#[test]
fn hidden_entries_are_skipped() {
    let root = dir("/l/A", vec![file("/l/A/.thumb.png", 1), file("/l/A/1.png", 1)]);
    let images = collect_images_shallow(&root).unwrap();

    assert_eq!(1, images.len());
    assert_eq!("/l/A/1.png", images[0].path.text);
}

#[test]
fn images_below_a_folder_are_sorted_by_path() {
    let root = dir(
        "/l/c",
        vec![
            dir("/l/c/b", vec![file("/l/c/b/1.png", 1)]),
            file("/l/c/z.png", 1),
            dir("/l/c/a", vec![file("/l/c/a/10.png", 1), file("/l/c/a/9.png", 1)]),
        ],
    );
    let images = collect_images_recursive(&root).unwrap();
    let paths: Vec<&str> = images.iter().map(|e| e.path.text.as_str()).collect();

    assert_eq!(vec!["/l/c/a/9.png", "/l/c/a/10.png", "/l/c/b/1.png", "/l/c/z.png"], paths);
}

#[test]
fn chapters_are_numbered_by_place_where_names_hold_no_number() {
    let root = dir(
        "/l/S",
        vec![
            dir("/l/S/beta", vec![file("/l/S/beta/1.png", 1)]),
            dir("/l/S/alpha", vec![file("/l/S/alpha/1.png", 1)]),
            archive("/l/S/gamma.zip", 2, &["1.png"]),
        ],
    );
    let mangas = scan_directory(&root).unwrap();
    let found: Vec<(&str, &str)> =
        mangas[0].chapters.iter().map(|c| (c.title.as_str(), c.number.as_str())).collect();

    assert_eq!(vec![("alpha", "1"), ("beta", "2"), ("gamma", "3")], found);
}

#[test]
fn decimal_chapter_numbers_stand_between_whole_ones() {
    let root = dir(
        "/l/S",
        vec![
            archive("/l/S/Chapter 10.cbz", 1, &["1.png"]),
            archive("/l/S/Chapter 2.5.cbz", 1, &["1.png"]),
            archive("/l/S/Chapter 3.cbz", 1, &["1.png"]),
            archive("/l/S/Chapter 2.cbz", 1, &["1.png"]),
        ],
    );
    let mangas = scan_directory(&root).unwrap();
    let numbers: Vec<&str> = mangas[0].chapters.iter().map(|c| c.number.as_str()).collect();

    assert_eq!(vec!["2", "2.5", "3", "10"], numbers);
    let chapters = &mangas[0].chapters;
    assert_eq!(Ordering::Less, local_chapter_cmp(&chapters[0], &chapters[1]));
    assert_eq!(Ordering::Greater, local_chapter_cmp(&chapters[3], &chapters[2]));
    assert_eq!(Ordering::Equal, local_chapter_cmp(&chapters[1], &chapters[1]));
}

#[test]
fn errors_say_what_could_not_be_read() {
    let empty = dir("/l/empty", vec![file("/l/empty/readme.txt", 1)]);
    let error = LocalProvider::from_path(&empty).unwrap_err();
    assert!(matches!(&error, LocalError::NoManga(path) if path == "/l/empty"));
    assert_eq!(
        "No readable local manga found in /l/empty. Supported inputs: image folders, chapter folders, CBZ, CBR, ZIP, RAR, and EPUB.",
        error.message()
    );

    let error = LocalProvider::from_path(&file("/l/readme.txt", 1)).unwrap_err();
    assert_eq!("Unsupported local manga file: /l/readme.txt", error.message());

    let error = LocalProvider::from_path(&archive("/l/a.cbz", 1, &["readme.txt"])).unwrap_err();
    assert_eq!("No readable images found in /l/a.cbz", error.message());

    let error = LocalProvider::from_path(&file("/l/a.cbz", 1)).unwrap_err();
    assert_eq!("no archive", error.message());

    let error = scan_directory(&dir("/l/x", vec![broken_dir("/l/x/y", "denied")])).unwrap_err();
    assert!(matches!(error, LocalError::Io(message) if message == "denied"));

    let relative = dir("a", vec![file("a/1.png", 1)]);
    let error = LocalProvider::from_path(&relative).unwrap_err();
    assert_eq!("Could not build file URL for a/1.png", error.message());

    let folder = dir("/l/none", vec![]);
    let error = manga_from_single_source(&folder).unwrap_err();
    assert_eq!("No readable images found in /l/none", error.message());
}

#[test]
fn paths_that_are_no_text_are_told_apart() {
    let raw = |bytes: &[u8], url: &str| FsEntry {
        path: LocalPath {
            text: "/l/A/\u{fffd}.png".to_string(),
            name: "\u{fffd}.png".to_string(),
            name_is_text: false,
            stem: None,
            extension: Some("png".to_string()),
            raw: Some(RawPath { bytes: bytes.to_vec(), url: Some(url.to_string()) }),
        },
        kind: FsKind::File(4),
        listing: DirListing::Unreadable("no folder".to_string()),
        members: ArchiveListing::Members(vec![]),
    };
    let root = dir("/l/A", vec![raw(b"/l/A/\xff.png", "file:///l/A/%FF.png"), raw(b"/l/A/\xfe.png", "file:///l/A/%FE.png")]);
    let provider = LocalProvider::from_path(&root).unwrap();

    assert_eq!(2, provider.library_stats().page_count);
    assert_eq!(8, provider.library_stats().total_bytes);
    assert_eq!("file:///l/A/%FF.png", provider.mangas()[0].chapters[0].pages[0].url);
}

#[test]
fn special_files_count_as_pages_only_below_folders() {
    let other = |path: &str| FsEntry {
        path: LocalPath::new(path),
        kind: FsKind::Other,
        listing: DirListing::Unreadable("no folder".to_string()),
        members: ArchiveListing::Unreadable("pipe".to_string()),
    };
    let root = dir("/l/A", vec![other("/l/A/1.png"), file("/l/A/2.png", 1)]);

    assert_eq!(1, collect_images_shallow(&root).unwrap().len());
    assert_eq!(2, collect_images_recursive(&root).unwrap().len());
}

#[test]
fn messages_of_the_system_are_passed_on() {
    let error = scan_directory(&file("/l/a.png", 1)).unwrap_err();
    assert_eq!("no folder", error.message());
    let error = archive_image_entries(&dir("/l/a.cbz", vec![])).unwrap_err();
    assert_eq!("no archive", error.message());
    let mut nothing = file("/l/gone", 1);
    nothing.kind = FsKind::Missing;
    assert!(collect_images_recursive(&nothing).unwrap().is_empty());
}

#[test]
fn one_file_counts_once_however_its_path_is_written() {
    let root = dir("/a", vec![archive("/a/b.cbz", 5, &["1.png"]), archive("/a//./b.cbz", 5, &["1.png"])]);
    let stats = LocalProvider::from_path(&root).unwrap().library_stats();

    assert_eq!(2, stats.chapter_count);
    assert_eq!(5, stats.total_bytes);
    for (a, b) in [("/a/b", "a/b"), ("./a", "a"), ("a/../b", "b"), ("/a/./b/", "/a//b"), ("a/.", "a"), ("", "."), (".", "./.")] {
        let same = std::path::Path::new(a) == std::path::Path::new(b);
        assert_eq!(same, identity_of(&LocalPath::new(a)) == identity_of(&LocalPath::new(b)), "{a} {b}");
    }
}
