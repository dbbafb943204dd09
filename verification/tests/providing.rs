use manga_tui_core::anypath::AnyPath;
use manga_tui_core::disk::{ArchiveListing, ArchiveMember, DirListing, FsEntry, FsKind};
use manga_tui_core::error::LocalError;
use manga_tui_core::formats::LocalChapterFormat;
use manga_tui_core::model::{LocalChapter, LocalPageSource};
use manga_tui_core::path::LocalPath;
use manga_tui_core::provider::{file_from_url, title_matches, ImageSource, LocalProvider};
use manga_tui_core::responses::{chapter_to_read, ChapterOrderBy, Languages, MangaProviders, MangaStatus, Pagination};

fn dir(path: &str, entries: Vec<FsEntry>) -> FsEntry {
    FsEntry {
        path: LocalPath::new(path),
        kind: FsKind::Directory,
        listing: DirListing::Entries(entries),
        members: ArchiveListing::Members(vec![]),
    }
}

fn archive(path: &str, names: &[&str]) -> FsEntry {
    let members =
        names.iter().map(|name| ArchiveMember { name: name.to_string(), is_directory: false }).collect();
    FsEntry {
        path: LocalPath::new(path),
        kind: FsKind::File(10),
        listing: DirListing::Unreadable("no folder".to_string()),
        members: ArchiveListing::Members(members),
    }
}

fn image(path: &str) -> FsEntry {
    FsEntry {
        path: LocalPath::new(path),
        kind: FsKind::File(3),
        listing: DirListing::Unreadable("no folder".to_string()),
        members: ArchiveListing::Members(vec![]),
    }
}

fn library() -> LocalProvider {
    let chapters: Vec<FsEntry> =
        (1..=7).map(|n| archive(&format!("/l/Big/Chapter {n}.cbz"), &["1.png", "2.png"])).collect();
    let root = dir(
        "/l",
        vec![
            dir("/l/Big", chapters),
            dir("/l/ÄPFEL", vec![dir("/l/ÄPFEL/One", vec![image("/l/ÄPFEL/One/1.png")])]),
            dir(
                "/l/Volumes",
                vec![
                    dir("/l/Volumes/Vol 10", vec![archive("/l/Volumes/Vol 10/Chapter 3.cbr", &["1.png"])]),
                    dir("/l/Volumes/Vol 2", vec![archive("/l/Volumes/Vol 2/Chapter 2.5.cbr", &["1.png"])]),
                    archive("/l/Volumes/Extra 1.2.3.zip", &["1.png"]),
                ],
            ),
        ],
    );
    LocalProvider::from_path(&root).unwrap()
}

fn page(current_page: u32, items_per_page: u32, from: usize, to: usize) -> Pagination {
    Pagination { current_page, items_per_page, from, to }
}

fn manga_id(provider: &LocalProvider, title: &str) -> String {
    provider.mangas().iter().find(|manga| manga.title == title).unwrap().id.clone()
}

#[test]
fn totals_count_every_chapter_once() {
    let provider = library();
    let stats = provider.local_library_stats().unwrap();

    assert_eq!(MangaProviders::Local, provider.name());
    assert_eq!(3, stats.manga_count);
    assert_eq!(11, stats.chapter_count);
    assert_eq!(18, stats.page_count);
    assert_eq!(8, stats.cbz_count);
    assert_eq!(2, stats.cbr_count);
    assert_eq!(0, stats.epub_count);
    assert_eq!(1, stats.image_folder_count);
    assert_eq!(10, stats.archive_count());
    assert_eq!(2, stats.volume_count);
    assert_eq!(103, stats.total_bytes);
}

#[test]
fn search_compares_lower_case_titles() {
    let provider = library();

    let found = provider.search_mangas(Some("äpf"), page(1, 16, 0, 1));
    assert_eq!(1, found.total_mangas);
    assert_eq!("ÄPFEL", found.mangas[0].title);
    assert_eq!(Some("1 local chapters".to_string()), found.mangas[0].description);
    assert!(!found.next_page);

    assert_eq!(0, provider.search_mangas(Some("ÄPF"), page(1, 16, 0, 0)).total_mangas);
    assert!(title_matches("one shot", "shot"));
    assert!(!title_matches("one shot", "two"));
}

#[test]
fn search_pages_through_titles_in_natural_order() {
    let provider = library();

    let first = provider.search_mangas(None, page(1, 2, 0, 2));
    let titles: Vec<&str> = first.mangas.iter().map(|manga| manga.title.as_str()).collect();
    assert_eq!(vec!["Big", "Volumes"], titles);
    assert_eq!(3, first.total_mangas);
    assert!(first.next_page);

    let second = provider.search_mangas(None, page(2, 2, 2, 3));
    assert_eq!("ÄPFEL", second.mangas[0].title);
    assert!(!second.next_page);

    assert!(provider.search_mangas(None, page(3, 2, 4, 3)).mangas.is_empty());
}

#[test]
fn mangas_are_found_by_identifier() {
    let provider = library();
    let id = manga_id(&provider, "Big");

    let manga = provider.get_manga_by_id(&id).unwrap();
    assert_eq!("Local manga from /l/Big", manga.description);
    assert_eq!(MangaStatus::Completed, manga.status);
    assert_eq!(vec![Languages::English], manga.languages);
    assert_eq!("local", manga.rating);

    let error = provider.get_manga_by_id("nothing").unwrap_err();
    assert_eq!("Local manga not found: nothing", error.message());
}

#[test]
fn every_manga_is_popular_and_recent() {
    let provider = library();

    let popular = provider.get_popular_mangas();
    assert_eq!(3, popular.len());
    assert_eq!("7 local chapters", popular[0].description);
    let recent = provider.get_recently_added_mangas();
    assert_eq!("Local manga from /l/Big", recent[0].description);
}

#[test]
fn chapters_are_paged_in_both_orders() {
    let provider = library();
    let id = manga_id(&provider, "Big");

    let up = provider.get_chapters(&id, ChapterOrderBy::Ascending, page(1, 3, 0, 3)).unwrap();
    let numbers: Vec<&str> = up.chapters.iter().map(|c| c.chapter_number.as_str()).collect();
    assert_eq!(vec!["1", "2", "3"], numbers);
    assert_eq!(7, up.total_chapters);
    assert_eq!(Some("Local".to_string()), up.chapters[0].scanlator);

    let down = provider.get_chapters(&id, ChapterOrderBy::Descending, page(1, 3, 0, 3)).unwrap();
    let numbers: Vec<&str> = down.chapters.iter().map(|c| c.chapter_number.as_str()).collect();
    assert_eq!(vec!["7", "6", "5"], numbers);

    let beyond = provider.get_chapters(&id, ChapterOrderBy::Ascending, page(9, 3, 24, 27)).unwrap();
    assert!(beyond.chapters.is_empty());

    assert_eq!(7, provider.get_all_chapters(&id).unwrap().len());
    assert!(matches!(
        provider.get_chapters("x", ChapterOrderBy::Ascending, page(1, 3, 0, 3)),
        Err(LocalError::MangaNotFound(id)) if id == "x"
    ));
}

#[test]
fn latest_chapters_are_the_last_five() {
    let provider = library();
    let latest = provider.get_latest_chapters(&manga_id(&provider, "Big")).unwrap();
    let numbers: Vec<&str> = latest.iter().map(|c| c.chapter_number.as_str()).collect();

    assert_eq!(vec!["7", "6", "5", "4", "3"], numbers);
    assert_eq!(1, provider.get_latest_chapters(&manga_id(&provider, "ÄPFEL")).unwrap().len());
}

#[test]
fn chapters_are_read_with_the_list_of_volumes() {
    let provider = library();
    let id = manga_id(&provider, "Volumes");
    let chapters = provider.get_all_chapters(&id).unwrap();
    let numbers: Vec<&str> = chapters.iter().map(|c| c.chapter_number.as_str()).collect();
    assert_eq!(vec!["1.2.3", "2.5", "3"], numbers);

    let (chapter, list) = provider.read_chapter(&chapters[1].id, &id).unwrap();
    assert_eq!(2.5, f64::from_bits(chapter.number));
    assert_eq!(Some("2".to_string()), chapter.volume_number);
    assert_eq!(None, chapter.num_page_bookmarked);
    assert_eq!(1, chapter.pages_url.len());
    let volumes: Vec<&str> = list.volumes.iter().map(|v| v.volume.as_str()).collect();
    assert_eq!(vec!["none", "2", "10"], volumes);
    assert_eq!("1.2.3", list.volumes[0].chapters[0].number);

    let odd = provider.search_chapter(&chapters[0].id, &id).unwrap();
    assert_eq!(1.0, f64::from_bits(odd.number));

    let (bookmarked, _) = provider.fetch_chapter_bookmarked(&chapters[2].id, &id, Some(4)).unwrap();
    assert_eq!(Some(4), bookmarked.num_page_bookmarked);

    let error = provider.read_chapter("x", &id).unwrap_err();
    assert_eq!("Local chapter not found: x", error.message());
}

#[test]
fn page_urls_lead_to_their_sources() {
    let provider = library();
    let id = manga_id(&provider, "Big");
    let chapter = &provider.get_all_chapters(&id).unwrap()[0];
    let pages = provider.get_chapter_pages_url_with_extension(&chapter.id, &id).unwrap();
    assert_eq!(2, pages.len());
    assert_eq!("png", pages[0].extension);

    let source = provider.image_source(&pages[1].url).unwrap();
    assert!(matches!(
        source,
        ImageSource::Page(LocalPageSource::ZipEntry { archive_path, entry_name })
            if archive_path.text == "/l/Big/Chapter 1.cbz" && entry_name == "2.png"
    ));
}

#[test]
fn other_urls_lead_to_files() {
    let provider = library();

    assert!(matches!(
        provider.image_source("file:///l/x/cover.jpg").unwrap(),
        ImageSource::File(AnyPath::Text(path)) if path == "/l/x/cover.jpg"
    ));
    assert!(matches!(
        provider.image_source("file:///l/a%20b.jpg").unwrap(),
        ImageSource::File(AnyPath::Text(path)) if path == "/l/a b.jpg"
    ));
    assert!(matches!(
        provider.image_source("file:///l/%FF.jpg").unwrap(),
        ImageSource::File(AnyPath::Bytes(path)) if path == b"/l/\xff.jpg"
    ));
    let error = provider.image_source("local://page/x/0").unwrap_err();
    assert_eq!("Local provider can only read file URLs, got local://page/x/0", error.message());
    let error = provider.image_source("no url").unwrap_err();
    assert!(matches!(&error, LocalError::InvalidUrl(url, _) if url == "no url"));
    assert_eq!("relative URL without a base", error.message());
}

#[test]
fn what_the_parser_says_decides() {
    let path = file_from_url("u", Ok("file:///a".to_string()), Some(AnyPath::Text("/a".to_string())));
    assert!(matches!(path, Ok(AnyPath::Text(path)) if path == "/a"));
    let error = file_from_url("u", Ok("x:y".to_string()), None).unwrap_err();
    assert!(matches!(error, LocalError::NotFileUrl(url) if url == "x:y"));
    let error = file_from_url("u", Err(url::ParseError::EmptyHost), None).unwrap_err();
    assert!(matches!(&error, LocalError::InvalidUrl(url, url::ParseError::EmptyHost) if url == "u"));
    assert_eq!("empty host", error.message());
}

#[test]
fn a_manga_that_is_listed_twice_is_counted_twice_but_its_bytes_once() {
    let twice = dir(
        "/l/A",
        vec![archive("/l/A/1.cbz", &["1.png"]), archive("/l/A/1.cbz", &["1.png"])],
    );
    let stats = LocalProvider::from_path(&twice).unwrap().library_stats();

    assert_eq!(2, stats.chapter_count);
    assert_eq!(10, stats.total_bytes);
}

#[test]
fn readers_show_numbers_as_they_are_parsed() {
    let number = |text: &str| {
        let chapter = LocalChapter {
            id: String::new(),
            title: String::new(),
            number: text.to_string(),
            volume: None,
            source_path: LocalPath::new("/l/a.cbz"),
            format: LocalChapterFormat::Cbz,
            pages: vec![],
            bytes: 0,
        };
        f64::from_bits(chapter_to_read(&chapter, None).number)
    };
    assert_eq!(f64::INFINITY, number("inf"));
    assert_eq!(-1.0, number("-1"));
    assert_eq!(100000.0, number("1e5"));
    assert_eq!(1.0, number("abc"));
    assert!(number("nan").is_nan());
}
