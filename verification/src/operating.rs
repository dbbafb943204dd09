//! What the program does when it is used: keys, events, arguments and messages.
use crate::app::{listen_step, AppModel, Effect, Events, MangaToRead, SelectedPage, Surroundings};
use crate::cli::{
    language_lines, library_path_of, outcome_is, CliArgs, CliOutcome, Commands, Language,
};
use crate::digits::decimal;
use crate::error::{error_message, ErrorModel};
use crate::index::StatsModel;
use crate::input::InputModel;
use crate::keys::{KeyCode, KeyEvent};
use crate::outside::lowercase;
use crate::path::{path_of, PathModel};
use crate::responses::{ChapterToRead, Manga};
use crate::size::readable_size;
use crate::stats::{
    acted, action_of, format_lines, reloaded, report_of, summary_lines, typed, StatsActions,
    StatsEvents, StatsPageModel, StatsStateModel,
};
use crate::text::{in_class, is_space, lemma_run_is, lemma_tail_run, tail_run, trim, CharClass};
use vstd::prelude::*;

verus! {

proof fn lemma_trimmed(p: Seq<char>, t: Seq<char>, q: Seq<char>)
    requires
        forall|i: int| 0 <= i < p.len() ==> is_space(#[trigger] p[i]),
        forall|i: int| 0 <= i < q.len() ==> is_space(#[trigger] q[i]),
        t.len() > 0 ==> !is_space(t[0]) && !is_space(t[t.len() - 1]),
    ensures
        trim(p + t + q, CharClass::Space) == t,
{
    let s = p + t + q;
    if t.len() == 0 {
        assert forall|i: int| 0 <= i < s.len() implies in_class(CharClass::Space, #[trigger] s[i]) by {
            if i < p.len() {
                assert(s[i] == p[i]);
            } else {
                assert(s[i] == q[i - p.len()]);
            }
        }
        lemma_run_is(s, CharClass::Space, s.len());
        let rest = s.skip(s.len() as int);
        assert(tail_run(rest, CharClass::Space) == 0);
        assert(rest.take(0) =~= t);
    } else {
        assert forall|i: int| 0 <= i < p.len() implies in_class(CharClass::Space, #[trigger] s[i]) by {
            assert(s[i] == p[i]);
        }
        assert(s[p.len() as int] == t[0]);
        lemma_run_is(s, CharClass::Space, p.len());
        let rest = s.skip(p.len() as int);
        assert(rest =~= t + q);
        lemma_tail_run(rest, CharClass::Space);
        let n = tail_run(rest, CharClass::Space);
        if n > q.len() {
            assert(in_class(CharClass::Space, rest[t.len() - 1]));
            assert(rest[t.len() - 1] == t[t.len() - 1]);
        }
        if n < q.len() {
            assert(rest[rest.len() - 1 - n] == q[q.len() - 1 - n]);
        }
        assert(rest.take(rest.len() - n) =~= t);
    }
}

/// On the page of the totals `e` starts to edit the path, which then shows that
/// of the library with the cursor behind it, and `r` reads the library again; but
/// nothing happens while a reload runs.
pub proof fn letters_edit_and_reload(page: StatsPageModel, modifiers: u8, stats: StatsModel)
    requires
        !(page.state is EditingPath),
    ensures
        action_of(page, KeyEvent { code: KeyCode::Char('e'), modifiers }) matches Some(a) && {
            let after = acted(page, a, Some(stats));
            &&& after.1 is None
            &&& page.state is Reloading ==> after.0 == page
            &&& !(page.state is Reloading) ==> after.0.state is EditingPath && after.0.library_path.value
                == stats.library_path.text && after.0.library_path.cursor == stats.library_path.text.len()
        },
        action_of(page, KeyEvent { code: KeyCode::Char('r'), modifiers }) matches Some(a) && {
            let after = acted(page, a, Some(stats));
            &&& after.0.library_path == page.library_path
            &&& after.0.state is Reloading
            &&& page.state is Reloading ==> after.1 is None
            &&& !(page.state is Reloading) ==> after.1 == Some(stats.library_path)
        },
        acted(page, StatsActions::ReloadCurrentPath, None) == (page, None::<PathModel>),
{
}

/// No other key does anything on the page of the totals while its path is not
/// edited.
pub proof fn other_keys_do_nothing_on_the_totals(page: StatsPageModel, key: KeyEvent)
    requires
        !(page.state is EditingPath),
    ensures
        key.code != KeyCode::Char('e') && key.code != KeyCode::Char('r') ==> action_of(page, key) is None,
        typed(page, key) == page,
{
}

/// While the path is edited, Enter reads the library at the path that was typed,
/// without white space around it; nothing but white space is refused.
pub proof fn enter_reads_the_typed_path(
    page: StatsPageModel,
    modifiers: u8,
    stats: Option<StatsModel>,
    p: Seq<char>,
    t: Seq<char>,
    q: Seq<char>,
)
    requires
        page.state is EditingPath,
        page.library_path.value == p + t + q,
        forall|i: int| 0 <= i < p.len() ==> is_space(#[trigger] p[i]),
        forall|i: int| 0 <= i < q.len() ==> is_space(#[trigger] q[i]),
        t.len() > 0 ==> !is_space(t[0]) && !is_space(t[t.len() - 1]),
    ensures
        action_of(page, KeyEvent { code: KeyCode::Enter, modifiers }) matches Some(a) && {
            let after = acted(page, a, stats);
            &&& after.0.library_path == page.library_path
            &&& t.len() > 0 ==> after.0.state is Reloading && after.1 == Some(path_of(t))
            &&& t.len() == 0 ==> after.0.state == StatsStateModel::Error("Local library path cannot be empty"@)
                && after.1 is None
        },
        typed(page, KeyEvent { code: KeyCode::Enter, modifiers }) == page,
{
    lemma_trimmed(p, t, q);
}

/// While the path is edited, Escape stops that, shows the path of the library
/// again and reads nothing.
pub proof fn escape_shows_the_library_path(page: StatsPageModel, modifiers: u8, stats: StatsModel)
    requires
        page.state is EditingPath,
    ensures
        action_of(page, KeyEvent { code: KeyCode::Esc, modifiers }) matches Some(a) && {
            let after = acted(page, a, Some(stats));
            &&& after.0.state is Normal
            &&& after.0.library_path.value == stats.library_path.text
            &&& after.0.library_path.cursor == stats.library_path.text.len()
            &&& after.1 is None
            &&& acted(page, a, None).0.library_path == page.library_path
        },
{
}

/// While the path is edited, a character is typed where the cursor is, Backspace
/// takes the one before it away and Delete the one behind it; the arrows, Home
/// and End move the cursor.
pub proof fn typing_edits_the_path(page: StatsPageModel, a: Seq<char>, b: Seq<char>, c: char)
    requires
        page.state is EditingPath,
        page.library_path.value == a + b,
        page.library_path.cursor == a.len(),
    ensures
        ({
            let plain = |code: KeyCode| typed(page, KeyEvent { code, modifiers: 0 });
            let typed_char = plain(KeyCode::Char(c)).library_path;
            &&& typed_char.value == a + seq![c] + b && typed_char.cursor == a.len() + 1
            &&& a.len() > 0 ==> plain(KeyCode::Backspace).library_path.value == a.drop_last() + b && plain(
                KeyCode::Backspace,
            ).library_path.cursor == a.len() - 1
            &&& a.len() == 0 ==> plain(KeyCode::Backspace) == page
            &&& b.len() > 0 ==> plain(KeyCode::Delete).library_path.value == a + b.skip(1) && plain(
                KeyCode::Delete,
            ).library_path.cursor == a.len()
            &&& b.len() == 0 ==> plain(KeyCode::Delete) == page
            &&& plain(KeyCode::Home).library_path.value == a + b && plain(KeyCode::Home).library_path.cursor == 0
            &&& plain(KeyCode::End).library_path.value == a + b && plain(KeyCode::End).library_path.cursor == a.len()
                + b.len()
            &&& plain(KeyCode::Left).library_path.value == a + b
            &&& plain(KeyCode::Left).library_path.cursor == (if a.len() > 0 {
                a.len() - 1
            } else {
                0
            })
            &&& plain(KeyCode::Right).library_path.value == a + b
            &&& plain(KeyCode::Right).library_path.cursor == (if b.len() > 0 {
                a.len() + 1
            } else {
                a.len()
            })
            &&& plain(KeyCode::Char(c)).state is EditingPath
        }),
{
    let s = a + b;
    let at = a.len() as int;
    assert(s.insert(at, c) =~= a + seq![c] + b);
    if a.len() > 0 {
        assert(s.remove(at - 1) =~= a.drop_last() + b);
    }
    if b.len() > 0 {
        assert(s.remove(at) =~= a + b.skip(1));
    }
}

/// A reload that went well shows the path of the library that was read; one that
/// failed shows why and leaves the path as it is.
pub proof fn reloads_are_reported(page: StatsPageModel, event: StatsEvents)
    ensures
        event matches StatsEvents::Reloaded(Ok(s)) ==> {
            &&& reloaded(page, event).state is Reloaded
            &&& reloaded(page, event).library_path.value == s@.library_path.text
            &&& reloaded(page, event).library_path.cursor == s@.library_path.text.len()
        },
        event matches StatsEvents::Reloaded(Err(m)) ==> {
            &&& reloaded(page, event).state == StatsStateModel::Error(m@)
            &&& reloaded(page, event).library_path == page.library_path
        },
{
}

/// A reload reports the totals of the library that was read, or why it failed.
pub proof fn reports_tell_what_happened(event: StatsEvents, result: Result<(), String>, stats: Option<StatsModel>)
    requires
        report_of(event, result, stats),
    ensures
        result is Ok && stats is Some ==> (event matches StatsEvents::Reloaded(Ok(s)) && s@ == stats->Some_0),
        result is Ok && stats is None ==> (event matches StatsEvents::Reloaded(Err(m)) && m@
            == "Local stats unavailable"@),
        result matches Err(why) ==> (event matches StatsEvents::Reloaded(Err(m)) && m@ == why@),
{
}

/// The totals are told line by line, each with what it counts; the archives are
/// all that are no image folders.
pub proof fn totals_are_told(s: StatsModel)
    ensures
        summary_lines(s).len() == 4,
        summary_lines(s)[0] == ("Manga: "@, decimal(s.manga_count)),
        summary_lines(s)[1] == ("Chapters: "@, decimal(s.chapter_count)),
        summary_lines(s)[2] == ("Pages: "@, decimal(s.page_count)),
        summary_lines(s)[3] == ("Library size: "@, readable_size(s.total_bytes)),
        format_lines(s).len() == 5,
        format_lines(s)[0] == ("Image folders: "@, decimal(s.image_folder_count)),
        format_lines(s)[1] == ("CBZ/ZIP: "@, decimal(s.cbz_count)),
        format_lines(s)[2] == ("CBR/RAR: "@, decimal(s.cbr_count)),
        format_lines(s)[3] == ("EPUB: "@, decimal(s.epub_count)),
        format_lines(s)[4] == ("Archives: "@, decimal(s.cbz_count + s.cbr_count + s.epub_count)),
{
}

/// What went wrong is told with what it went wrong with.
pub proof fn errors_are_told(s: Seq<char>)
    ensures
        error_message(ErrorModel::Io(s)) == Some(s),
        error_message(ErrorModel::UnsupportedFile(s)) == Some("Unsupported local manga file: "@ + s),
        error_message(ErrorModel::UnsupportedArchive(s)) == Some("Unsupported local archive: "@ + s),
        error_message(ErrorModel::NoImages(s)) == Some("No readable images found in "@ + s),
        error_message(ErrorModel::NoFileUrl(s)) == Some("Could not build file URL for "@ + s),
        error_message(ErrorModel::NotFileUrl(s)) == Some("Local provider can only read file URLs, got "@ + s),
        error_message(ErrorModel::NoManga(s)) == Some(
            "No readable local manga found in "@ + s
                + ". Supported inputs: image folders, chapter folders, CBZ, CBR, ZIP, RAR, and EPUB."@,
        ),
        error_message(ErrorModel::MangaNotFound(s)) == Some("Local manga not found: "@ + s),
        error_message(ErrorModel::ChapterNotFound(s)) == Some("Local chapter not found: "@ + s),
        error_message(ErrorModel::NoDataDirectory) == Some("manga-tui data directory is not available"@),
        error_message(ErrorModel::UnsafeEntry(s)) == Some(
            "Could not build safe cache path for archive entry "@ + s,
        ),
{
}

/// Whether a key can choose a page: nothing is read, typed or edited.
pub open spec fn can_navigate(app: AppModel, around: Surroundings) -> bool {
    &&& app.current_tab != SelectedPage::ReaderTab
    &&& !around.typing_search
    &&& !around.typing_filter
    &&& !(app.stats_page.state is EditingPath)
}

/// Control and `c` quit everywhere, `q` where keys can choose pages: an open
/// reader bookmarks its chapter if it does so by itself, then ends, and then the
/// program is told to quit.
pub proof fn quitting_ends_the_reader_first(
    app: AppModel,
    modifiers: u8,
    around: Surroundings,
    stats: Option<StatsModel>,
)
    requires
        app.error_message is None,
        app.manga_page is None || !around.downloading_all_chapters,
    ensures
        ({
            let done = match app.manga_reader_page {
                None => seq![Effect::SendQuit],
                Some(reader) => if reader.auto_bookmark {
                    seq![Effect::BookmarkChapter, Effect::FinishReading, Effect::SendQuit]
                } else {
                    seq![Effect::FinishReading, Effect::SendQuit]
                },
            };
            let interrupt = listen_step(
                app,
                Events::Key(KeyEvent { code: KeyCode::Char('c'), modifiers: 2 }),
                around,
                stats,
            );
            let letter = listen_step(
                app,
                Events::Key(KeyEvent { code: KeyCode::Char('q'), modifiers }),
                around,
                stats,
            );
            &&& interrupt.effects == done
            &&& interrupt.app == app
            &&& can_navigate(app, around) ==> letter.effects == done && letter.app == (AppModel {
                pending_goto_prefix: false,
                ..app
            })
        }),
{
    let s = listen_step(
        app,
        Events::Key(KeyEvent { code: KeyCode::Char('c'), modifiers: 2 }),
        around,
        stats,
    ).effects;
    match app.manga_reader_page {
        None => {
            assert(s =~= seq![Effect::SendQuit]);
        },
        Some(reader) => {
            if reader.auto_bookmark {
                assert(s =~= seq![Effect::BookmarkChapter, Effect::FinishReading, Effect::SendQuit]);
            } else {
                assert(s =~= seq![Effect::FinishReading, Effect::SendQuit]);
            }
        },
    }
}

/// Where keys can choose pages, `g` waits for the page, and then `h` leads to the
/// library, `s` to the search and `t` to the totals; Escape ends the wait, and any
/// other key ends it too and goes to the page that is shown.
pub proof fn two_keys_choose_a_page(
    app: AppModel,
    key: KeyEvent,
    around: Surroundings,
    stats: Option<StatsModel>,
)
    requires
        app.error_message is None,
        app.manga_page is None || !around.downloading_all_chapters,
        can_navigate(app, around),
        !(key.code == KeyCode::Char('c') && key.modifiers == 2),
        key.code != KeyCode::Char('q'),
    ensures
        ({
            let step = listen_step(app, Events::Key(key), around, stats);
            let waits = app.pending_goto_prefix;
            &&& step.app == (AppModel { pending_goto_prefix: key.code == KeyCode::Char('g'), ..app })
            &&& step.effects == (if key.code == KeyCode::Char('g') {
                Seq::empty()
            } else if waits && key.code == KeyCode::Char('h') {
                seq![Effect::SendGoToHome]
            } else if waits && key.code == KeyCode::Char('s') {
                seq![Effect::SendGoSearchPage]
            } else if waits && key.code == KeyCode::Char('t') {
                seq![Effect::SendGoStatsPage]
            } else if waits && key.code == KeyCode::Esc {
                Seq::empty()
            } else {
                seq![Effect::Pass(app.current_tab)]
            })
        }),
{
    let step = listen_step(app, Events::Key(key), around, stats);
    if !(key.code == KeyCode::Char('g') || app.pending_goto_prefix && (key.code == KeyCode::Char('h') || key.code
        == KeyCode::Char('s') || key.code == KeyCode::Char('t') || key.code == KeyCode::Esc)) {
        assert(step.effects =~= seq![Effect::Pass(app.current_tab)]);
    }
}

/// While one reads, types or edits, or all chapters are downloaded, keys go to
/// the page that is shown and nothing else happens; while an error is shown, they
/// go nowhere, and `q` and Escape close it.
pub proof fn keys_go_to_the_page(app: AppModel, key: KeyEvent, around: Surroundings, stats: Option<StatsModel>)
    ensures
        ({
            let step = listen_step(app, Events::Key(key), around, stats);
            let interrupts = key.code == KeyCode::Char('c') && key.modifiers == 2;
            let downloads = app.manga_page is Some && around.downloading_all_chapters;
            &&& app.error_message is None && (downloads || !can_navigate(app, around) && !interrupts) ==> step.app
                == app && step.effects == seq![Effect::Pass(app.current_tab)]
            &&& app.error_message is Some && (key.code == KeyCode::Char('q') || key.code == KeyCode::Esc)
                ==> step.app == (AppModel { error_message: None, ..app }) && step.effects.len() == 0
            &&& app.error_message is Some && !(key.code == KeyCode::Char('q') || key.code == KeyCode::Esc)
                && !interrupts ==> step.app == app && step.effects.len() == 0
        }),
{
    let step = listen_step(app, Events::Key(key), around, stats);
    let interrupts = key.code == KeyCode::Char('c') && key.modifiers == 2;
    let downloads = app.manga_page is Some && around.downloading_all_chapters;
    if app.error_message is None && (downloads || !can_navigate(app, around) && !interrupts) {
        assert(step.effects =~= seq![Effect::Pass(app.current_tab)]);
    }
}

/// Going to the search, the library or the totals closes the page of a manga;
/// the first two also put the page of the totals at rest, which then shows the
/// path of the library, and stop a reload. The event then goes to the new page.
pub proof fn pages_are_changed(app: AppModel, around: Surroundings, stats: StatsModel)
    ensures
        ({
            let search = listen_step(app, Events::GoSearchPage, around, Some(stats));
            let home = listen_step(app, Events::GoToHome, around, Some(stats));
            let totals = listen_step(app, Events::GoStatsPage, around, Some(stats));
            let at_rest = StatsPageModel {
                state: StatsStateModel::Normal,
                library_path: InputModel {
                    value: stats.library_path.text,
                    cursor: stats.library_path.text.len(),
                },
            };
            let closed = if app.manga_page is Some {
                seq![Effect::CleanUpManga]
            } else {
                Seq::empty()
            };
            let filled = if around.home_requires_search {
                seq![Effect::InitHomeSearch]
            } else {
                Seq::empty()
            };
            &&& search.app == (AppModel {
                manga_page: None,
                stats_page: at_rest,
                current_tab: SelectedPage::Search,
                ..app
            })
            &&& search.effects == closed + seq![Effect::CleanUpStats, Effect::Pass(SelectedPage::Search)]
            &&& home.app == (AppModel {
                manga_page: None,
                stats_page: at_rest,
                current_tab: SelectedPage::Home,
                ..app
            })
            &&& home.effects == closed + seq![Effect::CleanUpStats] + filled + seq![
                Effect::Pass(SelectedPage::Home),
            ]
            &&& totals.app == (AppModel { manga_page: None, current_tab: SelectedPage::Stats, ..app })
            &&& totals.effects == closed + seq![Effect::Pass(SelectedPage::Stats)]
        }),
{
    let search = listen_step(app, Events::GoSearchPage, around, Some(stats));
    let home = listen_step(app, Events::GoToHome, around, Some(stats));
    let totals = listen_step(app, Events::GoStatsPage, around, Some(stats));
    let closed = if app.manga_page is Some {
        seq![Effect::CleanUpManga]
    } else {
        Seq::empty()
    };
    let filled = if around.home_requires_search {
        seq![Effect::InitHomeSearch]
    } else {
        Seq::empty()
    };
    assert(search.effects =~= closed + seq![Effect::CleanUpStats, Effect::Pass(SelectedPage::Search)]);
    assert(home.effects =~= closed + seq![Effect::CleanUpStats] + filled + seq![Effect::Pass(SelectedPage::Home)]);
    assert(totals.effects =~= closed + seq![Effect::Pass(SelectedPage::Stats)]);
}

/// The page of a manga is opened with that manga, and closes the reader.
pub proof fn mangas_are_opened(app: AppModel, manga: Manga, around: Surroundings, stats: Option<StatsModel>)
    ensures
        ({
            let step = listen_step(app, Events::GoToMangaPage(manga), around, stats);
            &&& step.app.current_tab == SelectedPage::MangaTab
            &&& step.app.manga_reader_page is None
            &&& step.app.manga_page matches Some(page) && page.manga == manga && page.auto_bookmark
                == around.config_auto_bookmark && page.has_tracker == app.has_tracker
            &&& step.app.stats_page.state is Normal
            &&& step.app.error_message == app.error_message
            &&& step.effects == (if app.manga_reader_page is Some {
                seq![
                    Effect::CleanUpReader,
                    Effect::CleanUpStats,
                    Effect::OpenMangaPage,
                    Effect::Pass(SelectedPage::MangaTab),
                ]
            } else {
                seq![Effect::CleanUpStats, Effect::OpenMangaPage, Effect::Pass(SelectedPage::MangaTab)]
            })
        }),
{
    let step = listen_step(app, Events::GoToMangaPage(manga), around, stats);
    if app.manga_reader_page is Some {
        assert(step.effects =~= seq![
            Effect::CleanUpReader,
            Effect::CleanUpStats,
            Effect::OpenMangaPage,
            Effect::Pass(SelectedPage::MangaTab),
        ]);
    } else {
        assert(step.effects =~= seq![
            Effect::CleanUpStats,
            Effect::OpenMangaPage,
            Effect::Pass(SelectedPage::MangaTab),
        ]);
    }
}

/// A chapter is opened in the reader with its manga and the list of its chapters,
/// and the page of the manga stays; a terminal without images shows an error.
pub proof fn chapters_are_opened(
    app: AppModel,
    chapter: ChapterToRead,
    manga: MangaToRead,
    around: Surroundings,
    stats: Option<StatsModel>,
)
    ensures
        ({
            let step = listen_step(app, Events::ReadChapter(chapter, manga), around, stats);
            &&& step.app.manga_page == app.manga_page
            &&& app.has_picker ==> {
                &&& step.app.current_tab == SelectedPage::ReaderTab
                &&& step.app.error_message == app.error_message
                &&& step.app.stats_page.state is Normal
                &&& step.app.manga_reader_page matches Some(reader) && reader.chapter == chapter && reader.manga_id
                    == manga.manga_id && reader.manga_title == manga.title && reader.list_of_chapters == manga.list
                    && reader.has_tracker == app.has_tracker && reader.auto_bookmark == around.config_auto_bookmark
                &&& step.effects == seq![
                    Effect::CleanUpHome,
                    Effect::CleanUpStats,
                    Effect::OpenReader,
                    Effect::Pass(SelectedPage::ReaderTab),
                ]
            }
            &&& !app.has_picker ==> {
                &&& step.app == (AppModel {
                    error_message: Some(
                        "This terminal does not support inline images, so the reader cannot open chapters."@,
                    ),
                    ..app
                })
                &&& step.effects == seq![Effect::Pass(app.current_tab)]
            }
        }),
{
    let step = listen_step(app, Events::ReadChapter(chapter, manga), around, stats);
    if app.has_picker {
        assert(step.effects =~= seq![
            Effect::CleanUpHome,
            Effect::CleanUpStats,
            Effect::OpenReader,
            Effect::Pass(SelectedPage::ReaderTab),
        ]);
    } else {
        assert(step.effects =~= seq![Effect::Pass(app.current_tab)]);
    }
}

/// Going back from an open reader shows the page of the manga and leaves both
/// pages as they are; elsewhere nothing happens. An error is shown as it is told.
pub proof fn going_back_shows_the_manga(
    app: AppModel,
    message: String,
    around: Surroundings,
    stats: Option<StatsModel>,
)
    ensures
        ({
            let back = listen_step(app, Events::GoBackMangaPage, around, stats);
            let error = listen_step(app, Events::Error(message), around, stats);
            let reads = app.current_tab == SelectedPage::ReaderTab && app.manga_reader_page is Some;
            &&& reads ==> back.app == (AppModel { current_tab: SelectedPage::MangaTab, ..app }) && back.effects
                == seq![Effect::CleanUpReader, Effect::Pass(SelectedPage::MangaTab)]
            &&& !reads ==> back.app == app && back.effects == seq![Effect::Pass(app.current_tab)]
            &&& error.app == (AppModel { error_message: Some(message@), ..app })
            &&& error.effects == seq![Effect::Pass(app.current_tab)]
        }),
{
    let back = listen_step(app, Events::GoBackMangaPage, around, stats);
    let error = listen_step(app, Events::Error(message), around, stats);
    assert(error.effects =~= seq![Effect::Pass(app.current_tab)]);
    if app.current_tab == SelectedPage::ReaderTab && app.manga_reader_page is Some {
        assert(back.effects =~= seq![Effect::CleanUpReader, Effect::Pass(SelectedPage::MangaTab)]);
    } else {
        assert(back.effects =~= seq![Effect::Pass(app.current_tab)]);
    }
}

/// Another library empties the library page and the search, closes the page of
/// the manga and the reader, and shows the totals.
pub proof fn another_library_closes_the_pages(app: AppModel, around: Surroundings, stats: Option<StatsModel>)
    ensures
        ({
            let step = listen_step(app, Events::LocalLibraryReloaded, around, stats);
            let manga = if app.manga_page is Some {
                seq![Effect::CleanUpManga]
            } else {
                Seq::empty()
            };
            let reader = if app.manga_reader_page is Some {
                seq![Effect::CleanUpReader]
            } else {
                Seq::empty()
            };
            &&& step.app == (AppModel {
                manga_page: None,
                manga_reader_page: None,
                current_tab: SelectedPage::Stats,
                ..app
            })
            &&& step.effects == seq![Effect::CleanUpHome, Effect::CleanUpSearch] + manga + reader + seq![
                Effect::Pass(SelectedPage::Stats),
            ]
        }),
{
    let step = listen_step(app, Events::LocalLibraryReloaded, around, stats);
    let manga = if app.manga_page is Some {
        seq![Effect::CleanUpManga]
    } else {
        Seq::empty()
    };
    let reader = if app.manga_reader_page is Some {
        seq![Effect::CleanUpReader]
    } else {
        Seq::empty()
    };
    assert(step.effects =~= seq![Effect::CleanUpHome, Effect::CleanUpSearch] + manga + reader + seq![
        Effect::Pass(SelectedPage::Stats),
    ]);
}

/// The library is at the path that is given, else at that of the environment,
/// else at `Videos/mangas` in the home folder, or in the current one.
pub proof fn libraries_lie_where_they_are_said_to(
    given: PathModel,
    variable: Option<PathModel>,
    home: PathModel,
    dir: Seq<char>,
)
    requires
        home.text == dir,
        dir.len() > 0,
        dir.last() != '/',
    ensures
        library_path_of(Some(given), variable, Some(home)) == given,
        library_path_of(None, Some(given), Some(home)) == given,
        library_path_of(None, None, Some(home)).text == dir + "/Videos/mangas"@,
        home.raw is None ==> library_path_of(None, None, Some(home)) == path_of(dir + "/Videos/mangas"@),
        home.raw is Some ==> library_path_of(None, None, Some(home)).raw is Some,
        library_path_of(None, None, None).text == "Videos/mangas"@,
{
    reveal_strlit("/Videos/mangas");
    reveal_strlit("Videos/mangas");
    assert(dir.push('/') + "Videos/mangas"@ =~= dir + "/Videos/mangas"@);
}

/// Of the arguments the data directory comes first, then the config directory,
/// then the command: its list of languages, then its language.
pub proof fn arguments_are_obeyed_in_order(r: CliOutcome, args: CliArgs, is_known_code: bool, program: Seq<char>)
    requires
        outcome_is(r, args, is_known_code, program),
    ensures
        args.data_dir ==> r is PrintDataDir,
        !args.data_dir && args.config_dir ==> r is PrintConfigDir,
        !args.data_dir && !args.config_dir ==> {
            &&& args.command is None ==> r is PreferDefaultLanguage
            &&& args.command matches Some(Commands::Lang { print, set }) ==> {
                &&& print ==> r is PrintLanguages
                &&& !print && set is None ==> r is PreferDefaultLanguage
                &&& !print && is_known_code ==> (set matches Some(code) ==> (r matches CliOutcome::PreferLanguage(c)
                    && c@ == code@))
                &&& !print && !is_known_code ==> (set matches Some(code) ==> (r matches CliOutcome::UnknownLanguage(m)
                    && m@ == "`"@ + code@ + "` is not a valid ISO language code, run `"@ + program
                    + " lang --print` to list available languages and their ISO codes"@))
            }
        },
{
}

/// The list of languages has a heading and a line for each language in order, but
/// for those that are unknown.
pub proof fn languages_are_listed(languages: Seq<Language>, l: Language)
    ensures
        language_lines(Seq::empty()) == seq!["The available languages are:"@],
        l.unknown ==> language_lines(languages.push(l)) == language_lines(languages),
        !l.unknown ==> language_lines(languages.push(l)) == language_lines(languages).push(
            l.emoji@ + " "@ + lowercase(l.human_readable@) + " | iso code : "@ + l.iso_code@,
        ),
{
    assert(languages.push(l).drop_last() =~= languages);
}

} // verus!
