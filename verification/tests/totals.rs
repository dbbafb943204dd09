use manga_tui_core::disk::{ArchiveListing, DirListing, FsEntry, FsKind};
use manga_tui_core::filters::{LocalFilterWidget, LocalFiltersProvider};
use manga_tui_core::input::TextInput;
use manga_tui_core::keys::{KeyCode, KeyEvent, ALT, CONTROL, META, SHIFT};
use manga_tui_core::path::LocalPath;
use manga_tui_core::provider::LocalProvider;
use manga_tui_core::stats::{reload_report, StatsActions, StatsEvents, StatsPage, StatsState, StatusLine};

fn provider(path: &str) -> LocalProvider {
    let page = FsEntry {
        path: LocalPath::new(&format!("{path}/page.jpg")),
        kind: FsKind::File(2048),
        listing: DirListing::Unreadable("no folder".to_string()),
        members: ArchiveListing::Members(vec![]),
    };
    let root = FsEntry {
        path: LocalPath::new(path),
        kind: FsKind::Directory,
        listing: DirListing::Entries(vec![page]),
        members: ArchiveListing::Members(vec![]),
    };
    LocalProvider::from_path(&root).unwrap()
}

fn key(code: KeyCode) -> KeyEvent {
    KeyEvent::plain(code)
}

#[test]
fn renders_local_library_stats() {
    let provider = provider("/tmp/render");
    let stats = provider.local_library_stats();
    let page = StatsPage::new(stats.as_ref());

    let summary = page.render_summary(stats.as_ref());
    assert_eq!("Local library", summary.title);
    assert_eq!(("Manga: ".to_string(), "1".to_string()), summary.lines[0]);
    assert_eq!(("Library size: ".to_string(), "2.0 KiB".to_string()), summary.lines[3]);
    assert!(page.library_path.value().contains("/tmp/render"));

    let (formats, note) = page.render_details(stats.as_ref());
    assert_eq!(("Image folders: ".to_string(), "1".to_string()), formats.lines[0]);
    assert_eq!(("Archives: ".to_string(), "0".to_string()), formats.lines[4]);
    assert_eq!("Index", note.unwrap().title);
}

#[test]
fn unknown_totals_are_said_to_be() {
    let page = StatsPage::new(None);

    assert_eq!("", page.library_path.value());
    assert_eq!("Stats", page.render_summary(None).title);
    assert_eq!("Local stats unavailable", page.render_summary(None).lines[0].0);
    assert!(page.render_details(None).0.lines.is_empty());
}

#[test]
fn typed_path_is_trimmed_and_read() {
    let provider = provider("/l");
    let stats = provider.local_library_stats();
    let mut page = StatsPage::new(stats.as_ref());

    let action = page.handle_key_events(key(KeyCode::Char('e'))).unwrap();
    assert_eq!(StatsActions::EditPath, action);
    assert!(page.update(action, stats.as_ref()).is_none());
    assert!(page.is_typing());
    assert_eq!("<Enter>", page.render_path()[0].1);

    for c in ['2', ' '] {
        assert!(page.handle_key_events(key(KeyCode::Char(c))).is_none());
    }
    assert_eq!("/l2 ", page.library_path.value());

    let action = page.handle_key_events(key(KeyCode::Enter)).unwrap();
    let path = page.update(action, stats.as_ref()).unwrap();
    assert_eq!("/l2", path.text);
    assert!(matches!(page.state, StatsState::Reloading));
    assert!(matches!(page.render_status(), StatusLine::Running(label) if label == "Reloading local library"));
    assert!(page.update(StatsActions::ReloadCurrentPath, stats.as_ref()).is_none());
}

#[test]
fn empty_path_is_refused() {
    let mut page = StatsPage::new(None);
    page.update(StatsActions::EditPath, None);
    page.handle_key_events(key(KeyCode::Char(' ')));

    assert!(page.update(StatsActions::ReloadInputPath, None).is_none());
    assert!(matches!(
        page.render_status(),
        StatusLine::Error(message) if message == "Local library path cannot be empty"
    ));
}

#[test]
fn escape_restores_the_path() {
    let provider = provider("/l");
    let stats = provider.local_library_stats();
    let mut page = StatsPage::new(stats.as_ref());
    page.update(StatsActions::EditPath, stats.as_ref());
    page.handle_key_events(key(KeyCode::Char('x')));

    let action = page.handle_key_events(key(KeyCode::Esc)).unwrap();
    assert_eq!(StatsActions::StopEditingPath, action);
    page.update(action, stats.as_ref());

    assert_eq!("/l", page.library_path.value());
    assert!(matches!(page.state, StatsState::Normal));
}

#[test]
fn finished_reloads_are_reported() {
    let provider = provider("/new");
    let stats = provider.local_library_stats();
    let mut page = StatsPage::new(None);

    let (event, tell) = reload_report(Ok(()), stats.as_ref());
    assert!(tell);
    page.tick(Some(event));
    assert_eq!("/new", page.library_path.value());
    assert!(matches!(page.render_status(), StatusLine::Message(text) if text == "Library reloaded"));

    let (event, tell) = reload_report(Ok(()), None);
    assert!(!tell);
    assert!(matches!(&event, StatsEvents::Reloaded(Err(message)) if message == "Local stats unavailable"));

    let (event, _) = reload_report(Err("gone".to_string()), stats.as_ref());
    page.tick(Some(event));
    assert!(matches!(page.render_status(), StatusLine::Error(message) if message == "gone"));
    page.clean_up(None);
    assert!(matches!(page.state, StatsState::Normal));
}

fn with(code: KeyCode, modifiers: u8) -> KeyEvent {
    KeyEvent { code, modifiers }
}

#[test]
fn lines_are_edited_at_the_cursor() {
    let line = TextInput::new("ab cd".to_string());
    assert_eq!(5, line.cursor());
    let line = line.handle(with(KeyCode::Left, CONTROL));
    assert_eq!(3, line.cursor());
    let line = line.handle(key(KeyCode::Char('x')));
    assert_eq!(("ab xcd", 4), (line.value(), line.cursor()));
    let line = line.handle(key(KeyCode::Backspace));
    assert_eq!(("ab cd", 3), (line.value(), line.cursor()));
    let line = line.handle(key(KeyCode::Delete));
    assert_eq!(("ab d", 3), (line.value(), line.cursor()));
    let line = line.handle(key(KeyCode::Left)).handle(key(KeyCode::Right));
    assert_eq!(3, line.cursor());
    let line = line.handle(with(KeyCode::Char('w'), CONTROL));
    assert_eq!(("d", 0), (line.value(), line.cursor()));
    let line = line.handle(with(KeyCode::Right, CONTROL));
    assert_eq!(1, line.cursor());
    let line = line.handle(key(KeyCode::Home)).handle(with(KeyCode::Delete, CONTROL));
    assert_eq!(("", 0), (line.value(), line.cursor()));
    let line = TextInput::new("äöü".to_string()).handle(key(KeyCode::Home)).handle(key(KeyCode::Right));
    let cut = line.handle(with(KeyCode::Char('k'), CONTROL));
    assert_eq!(("ä", 1), (cut.value(), cut.cursor()));
    assert_eq!(3, line.handle(key(KeyCode::End)).cursor());
    assert_eq!("", line.handle(with(KeyCode::Char('u'), CONTROL)).value());
}

#[test]
fn keys_that_ask_for_nothing_change_nothing() {
    let line = TextInput::new("äb  c-d".to_string()).handle(with(KeyCode::Char('b'), META));
    assert_eq!(6, line.cursor());
    for key in [
        key(KeyCode::Enter),
        key(KeyCode::Esc),
        key(KeyCode::Other),
        with(KeyCode::Char('x'), CONTROL),
        with(KeyCode::Char('x'), ALT),
        with(KeyCode::Home, SHIFT),
        with(KeyCode::Char('b'), CONTROL | META),
        with(KeyCode::Char('x'), 64),
    ] {
        let after = line.handle(key);
        assert_eq!(("äb  c-d", 6), (after.value(), after.cursor()));
    }
    assert_eq!("äb  c-Xd", line.handle(with(KeyCode::Char('X'), SHIFT)).value());
    let line = line.handle(with(KeyCode::Backspace, ALT));
    assert_eq!(("äb  d", 4), (line.value(), line.cursor()));
    let line = line.handle(with(KeyCode::Char('a'), CONTROL)).handle(with(KeyCode::Char('f'), META));
    assert_eq!(4, line.cursor());
    let line = line.handle(with(KeyCode::Char('h'), CONTROL)).handle(with(KeyCode::Char('d'), META));
    assert_eq!(("d", 0), (line.value(), line.cursor()));
}

#[test]
fn filters_open_and_close() {
    let mut filters = LocalFiltersProvider::new();
    assert!(!filters.is_open());
    filters.handle_events(key(KeyCode::Char('f')));
    assert!(filters.is_open());
    filters.handle_events(key(KeyCode::Char('x')));
    assert!(filters.is_open());
    filters.handle_events(key(KeyCode::Esc));
    assert!(!filters.is_open());
    assert!(!filters.is_typing());
    let (title, text) = LocalFilterWidget::new().render();
    assert_eq!("Local filters", title);
    assert_eq!("Local library search has no provider filters. Press <Esc> or <f> to close.", text);
}
