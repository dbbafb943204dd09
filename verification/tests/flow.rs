use manga_tui_core::app::{
    Action, App, AppState, Effect, Events, MangaToRead, SelectedPage, Surroundings,
};
use manga_tui_core::index::LocalLibraryStats;
use manga_tui_core::keys::{KeyCode, KeyEvent, CONTROL};
use manga_tui_core::responses::{ChapterToRead, Languages, ListOfChapters, Manga, MangaStatus, Volumes};

fn around() -> Surroundings {
    Surroundings {
        downloading_all_chapters: false,
        typing_search: false,
        typing_filter: false,
        home_requires_search: false,
        config_auto_bookmark: true,
    }
}

fn manga() -> Manga {
    Manga {
        id: "m".to_string(),
        id_safe_for_download: "m".to_string(),
        title: "M".to_string(),
        genres: vec![],
        description: String::new(),
        status: MangaStatus::Completed,
        cover_img_url: String::new(),
        languages: vec![],
        rating: String::new(),
        artist: None,
        author: None,
    }
}

fn chapter() -> ChapterToRead {
    ChapterToRead {
        id: "some_id".to_string(),
        title: "some_title".to_string(),
        number: 1.0f64.to_bits(),
        volume_number: Some("1".to_string()),
        num_page_bookmarked: None,
        language: Languages::English,
        pages_url: vec!["local://page/test/0".to_string()],
    }
}

fn manga_to_read() -> MangaToRead {
    MangaToRead {
        title: "some_title".to_string(),
        manga_id: "some_manga_id".to_string(),
        list: ListOfChapters { volumes: vec![Volumes { volume: "1".to_string(), chapters: vec![] }] },
    }
}

fn sent(effect: Effect) -> Option<Events> {
    match effect {
        Effect::SendGoToHome => Some(Events::GoToHome),
        Effect::SendGoSearchPage => Some(Events::GoSearchPage),
        Effect::SendGoStatsPage => Some(Events::GoStatsPage),
        _ => None,
    }
}

fn press_key(app: &mut App, code: KeyCode, surroundings: &Surroundings, effects: &mut Vec<Effect>) {
    app.handle_events(Events::Key(KeyEvent::plain(code)), surroundings, None, effects);
}

fn tick(app: &mut App, mut effects: Vec<Effect>) {
    while !effects.is_empty() {
        let effect = effects.remove(0);
        if let Some(event) = sent(effect) {
            app.handle_events(event, &around(), None, &mut effects);
        }
    }
}

#[test]
fn goes_to_home_page() {
    let (app, effects) = App::new(false, false, None);

    assert_eq!(vec![Effect::SendGoToHome], effects);
    assert_eq!(app.current_tab, SelectedPage::Home);
}

#[test]
fn can_go_to_search_page_by_pressing_gs() {
    let (mut app, mut effects) = App::new(false, false, None);

    press_key(&mut app, KeyCode::Char('g'), &around(), &mut effects);
    press_key(&mut app, KeyCode::Char('s'), &around(), &mut effects);

    tick(&mut app, effects);

    assert_eq!(app.current_tab, SelectedPage::Search);
}

#[test]
fn can_go_to_home_by_pressing_gh() {
    let (mut app, mut effects) = App::new(false, false, None);

    app.go_search_page(None, &mut effects);

    press_key(&mut app, KeyCode::Char('g'), &around(), &mut effects);
    press_key(&mut app, KeyCode::Char('h'), &around(), &mut effects);

    tick(&mut app, effects);

    assert_eq!(app.current_tab, SelectedPage::Home);
}

#[test]
fn can_go_to_stats_by_pressing_gt() {
    let (mut app, mut effects) = App::new(false, false, None);

    press_key(&mut app, KeyCode::Char('g'), &around(), &mut effects);
    press_key(&mut app, KeyCode::Char('t'), &around(), &mut effects);

    tick(&mut app, effects);

    assert_eq!(app.current_tab, SelectedPage::Stats);
}

#[test]
fn doesnt_listen_to_key_events_if_it_is_downloading_all_chapters() {
    let (mut app, mut effects) = App::new(false, false, None);
    app.go_to_manga_page(manga(), None, false, &mut Vec::new());
    app.current_tab = SelectedPage::Home;
    let downloading = Surroundings { downloading_all_chapters: true, ..around() };

    press_key(&mut app, KeyCode::Char('g'), &downloading, &mut effects);
    press_key(&mut app, KeyCode::Char('f'), &downloading, &mut effects);
    press_key(&mut app, KeyCode::Char('g'), &downloading, &mut effects);
    press_key(&mut app, KeyCode::Char('s'), &downloading, &mut effects);
    press_key(&mut app, KeyCode::Other, &downloading, &mut effects);

    tick(&mut app, effects);

    assert_eq!(app.current_tab, SelectedPage::Home)
}

#[test]
fn reader_page_is_initialized_corectly() {
    let (mut app, _) = App::new(true, false, None);
    let mut effects = Vec::new();
    app.go_to_manga_page(manga(), None, false, &mut Vec::new());

    app.go_to_read_chapter(chapter(), manga_to_read(), true, None, false, &mut effects);

    let reader_page = app.manga_reader_page.unwrap();

    assert_eq!(vec![Effect::CleanUpHome, Effect::CleanUpStats, Effect::OpenReader], effects);
    assert_eq!(reader_page.list_of_chapters, manga_to_read().list);
    assert_eq!("some_manga_id", reader_page.manga_id);
    assert_eq!("local://page/test/0", reader_page.chapter.pages_url[0]);
    assert_eq!(SelectedPage::ReaderTab, app.current_tab);
    assert!(reader_page.has_tracker);
}

#[test]
fn reader_needs_a_terminal_with_images() {
    let (mut app, _) = App::new(false, false, None);
    let effects = app.listen_to_event(Events::ReadChapter(chapter(), manga_to_read()), &around(), None);

    assert!(app.manga_reader_page.is_none());
    assert_eq!(
        Some("This terminal does not support inline images, so the reader cannot open chapters.".to_string()),
        app.error_message
    );
    assert_eq!(vec![Effect::Pass(SelectedPage::Home)], effects);
}

#[test]
fn errors_hold_back_keys_until_they_are_closed() {
    let (mut app, _) = App::new(true, false, None);
    app.listen_to_event(Events::Error("broken".to_string()), &around(), None);
    assert!(app.is_displaying_error_message());

    let key = |c| Events::Key(KeyEvent::plain(KeyCode::Char(c)));
    assert!(app.listen_to_event(key('g'), &around(), None).is_empty());
    assert!(!app.pending_goto_prefix);
    let interrupt = KeyEvent { code: KeyCode::Char('c'), modifiers: CONTROL };
    assert_eq!(vec![Effect::SendQuit], app.listen_to_event(Events::Key(interrupt), &around(), None));
    assert!(app.listen_to_event(key('q'), &around(), None).is_empty());
    assert!(!app.is_displaying_error_message());
    assert_eq!(AppState::Runnning, app.state);
}

#[test]
fn unused_keys_reach_the_page() {
    let (mut app, _) = App::new(true, false, None);
    let key = |c| Events::Key(KeyEvent::plain(KeyCode::Char(c)));

    assert_eq!(vec![Effect::Pass(SelectedPage::Home)], app.listen_to_event(key('j'), &around(), None));
    assert!(app.listen_to_event(key('g'), &around(), None).is_empty());
    assert!(app.pending_goto_prefix);
    assert_eq!(vec![Effect::Pass(SelectedPage::Home)], app.listen_to_event(key('x'), &around(), None));
    assert!(!app.pending_goto_prefix);
}

#[test]
fn quitting_from_the_reader_bookmarks_and_ends_the_session() {
    let (mut app, _) = App::new(true, false, None);
    app.listen_to_event(Events::ReadChapter(chapter(), manga_to_read()), &around(), None);
    let interrupt = KeyEvent { code: KeyCode::Char('c'), modifiers: CONTROL };

    let effects = app.listen_to_event(Events::Key(interrupt), &around(), None);
    assert_eq!(vec![Effect::BookmarkChapter, Effect::FinishReading, Effect::SendQuit], effects);
    assert_eq!(Some(SelectedPage::ReaderTab), app.update_based_on_action(Some(Action::Quit)));
    assert_eq!(AppState::Done, app.state);

    let silent = Surroundings { config_auto_bookmark: false, ..around() };
    let (mut app, _) = App::new(true, false, None);
    app.listen_to_event(Events::ReadChapter(chapter(), manga_to_read()), &silent, None);
    let effects = app.listen_to_event(Events::Key(interrupt), &around(), None);
    assert_eq!(vec![Effect::FinishReading, Effect::SendQuit], effects);
}

#[test]
fn manga_page_and_reader_get_the_tracker() {
    for has_tracker in [false, true] {
        let (mut app, _) = App::new(true, has_tracker, None);
        app.listen_to_event(Events::GoToMangaPage(manga()), &around(), None);
        assert_eq!(has_tracker, app.manga_page.as_ref().unwrap().has_tracker);
        app.listen_to_event(Events::ReadChapter(chapter(), manga_to_read()), &around(), None);
        assert_eq!(has_tracker, app.manga_reader_page.as_ref().unwrap().has_tracker);
    }
}

#[test]
fn another_library_closes_what_showed_the_old_one() {
    let (mut app, _) = App::new(true, false, None);
    app.listen_to_event(Events::GoToMangaPage(manga()), &around(), None);
    app.listen_to_event(Events::ReadChapter(chapter(), manga_to_read()), &around(), None);

    let effects = app.listen_to_event(Events::LocalLibraryReloaded, &around(), None);

    assert_eq!(
        vec![
            Effect::CleanUpHome,
            Effect::CleanUpSearch,
            Effect::CleanUpManga,
            Effect::CleanUpReader,
            Effect::Pass(SelectedPage::Stats),
        ],
        effects
    );
    assert!(app.manga_page.is_none());
    assert!(app.manga_reader_page.is_none());
}

#[test]
fn the_reader_goes_back_to_the_manga() {
    let (mut app, _) = App::new(true, false, None);
    app.listen_to_event(Events::GoToMangaPage(manga()), &around(), None);
    assert!(app.manga_page.as_ref().unwrap().auto_bookmark);
    assert_eq!(3, app.render_top_tabs().1);
    assert_eq!(" 📖 Manga page", app.render_top_tabs().0[3]);
    app.listen_to_event(Events::ReadChapter(chapter(), manga_to_read()), &around(), None);
    assert!(app.shows_reader());
    assert_eq!(None, app.render_pages());

    app.listen_to_event(Events::GoBackMangaPage, &around(), None);

    assert_eq!(SelectedPage::MangaTab, app.current_tab);
    assert_eq!(Some(SelectedPage::MangaTab), app.render_pages());
    let home = Surroundings { home_requires_search: true, ..around() };
    let effects = app.listen_to_event(Events::GoToHome, &home, None);
    assert_eq!(
        vec![Effect::CleanUpManga, Effect::CleanUpStats, Effect::InitHomeSearch, Effect::Pass(SelectedPage::Home)],
        effects
    );
    assert_eq!((3, 0), (app.render_top_tabs().0.len(), app.render_top_tabs().1));
}

#[test]
fn events_can_be_taken_where_their_page_is_there() {
    let (mut app, _) = App::new(true, false, None);
    app.current_tab = SelectedPage::MangaTab;
    let key = |c| Events::Key(KeyEvent::plain(KeyCode::Char(c)));

    assert!(!app.has_page_for(&key('j'), &around()));
    assert!(!app.has_page_for(&Events::Other, &around()));
    assert!(app.has_page_for(&key('g'), &around()));
    assert!(app.listen_to_event(key('g'), &around(), None).is_empty());
    assert!(app.has_page_for(&key('h'), &around()));
    assert!(app.has_page_for(&Events::GoToHome, &around()));
    app.error_message = Some("broken".to_string());
    assert!(app.has_page_for(&key('j'), &around()));
    assert!(app.listen_to_event(key('j'), &around(), None).is_empty());

    let (mut app, _) = App::new(true, false, None);
    app.listen_to_event(Events::ReadChapter(chapter(), manga_to_read()), &around(), None);
    assert!(!app.has_page_for(&Events::GoBackMangaPage, &around()));
    assert!(app.has_page_for(&Events::GoToMangaPage(manga()), &around()));
}

#[test]
fn defaults_are_empty() {
    let default = MangaToRead::default();
    assert_eq!(default.clone(), MangaToRead { title: String::new(), manga_id: String::new(), list: ListOfChapters::default() });
    assert_eq!(0, default.list.volumes.len());
    assert_eq!("", Volumes::default().volume);
    assert_eq!("", LocalLibraryStats::default().library_path.text);
    assert_eq!(0, LocalLibraryStats::default().archive_count());
}
