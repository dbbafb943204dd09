//! The program: which page is shown, and what keys and events do to that.
use crate::index::{LocalLibraryStats, StatsModel};
use crate::input::input_of;
use crate::keys::{KeyCode, KeyEvent, CONTROL};
use crate::responses::{ChapterToRead, ListOfChapters, Manga};
use crate::stats::{opt_stats, page_at_rest, refreshed, StatsPage, StatsPageModel, StatsStateModel};
use crate::text::text_views;
use vstd::prelude::*;

verus! {

#[derive(Clone, Copy, PartialEq, Eq, PartialOrd, Ord, Structural, Debug)]
pub enum AppState {
    Runnning,
    Done,
}

#[derive(Clone, Copy, PartialEq, Eq, Structural, Debug)]
pub enum SelectedPage {
    Search,
    MangaTab,
    ReaderTab,
    Home,
    Stats,
}

#[derive(Clone, Copy, PartialEq, Eq, Structural, Debug)]
pub enum Action {
    Quit,
}

/// What a chapter to read belongs to.
#[derive(Clone, Debug, PartialEq, Eq)]
pub struct MangaToRead {
    pub title: String,
    pub manga_id: String,
    pub list: ListOfChapters,
}

impl Default for MangaToRead {
    /// No manga, without chapters.
    fn default() -> (r: Self)
        ensures
            r.title@.len() == 0,
            r.manga_id@.len() == 0,
            r.list.volumes@.len() == 0,
    {
        MangaToRead {
            title: String::new(),
            manga_id: String::new(),
            list: ListOfChapters { volumes: Vec::new() },
        }
    }
}

/// What the program reacts to.
#[derive(Debug, PartialEq, Eq)]
pub enum Events {
    Key(KeyEvent),
    GoToMangaPage(Manga),
    ReadChapter(ChapterToRead, MangaToRead),
    GoSearchPage,
    GoToHome,
    GoStatsPage,
    LocalLibraryReloaded,
    Error(String),
    GoBackMangaPage,
    /// What only concerns the page that is shown.
    Other,
}

/// The page of a manga, as it is opened.
#[derive(Debug, PartialEq, Eq)]
pub struct MangaPage {
    pub manga: Manga,
    pub auto_bookmark: bool,
    /// Whether it reports to a tracker.
    pub has_tracker: bool,
}

/// The reader, as it is opened.
#[derive(Debug, PartialEq, Eq)]
pub struct MangaReader {
    pub chapter: ChapterToRead,
    pub manga_id: String,
    pub manga_title: String,
    pub list_of_chapters: ListOfChapters,
    /// Whether it reports to a tracker.
    pub has_tracker: bool,
    /// Whether it bookmarks its chapter by itself.
    pub auto_bookmark: bool,
}

/// What is to be done outside, in order.
#[derive(Clone, Copy, PartialEq, Eq, Structural, Debug)]
pub enum Effect {
    /// Send the event that leads to the library.
    SendGoToHome,
    /// Send the event that leads to the search.
    SendGoSearchPage,
    /// Send the event that leads to the totals.
    SendGoStatsPage,
    /// Send the action that ends the program.
    SendQuit,
    /// Let the reader bookmark its chapter.
    BookmarkChapter,
    /// Let the reader end its session.
    FinishReading,
    CleanUpHome,
    CleanUpSearch,
    CleanUpManga,
    CleanUpReader,
    /// Abort a running reload.
    CleanUpStats,
    /// Let the library page fetch its mangas.
    InitHomeSearch,
    OpenMangaPage,
    /// Open the reader and let it fetch its pages.
    OpenReader,
    /// Hand the event to a page.
    Pass(SelectedPage),
}

/// What the program asks of its surroundings before it reacts.
#[derive(Clone, Copy, PartialEq, Eq, Structural, Debug)]
pub struct Surroundings {
    /// Whether the manga page is downloading all chapters.
    pub downloading_all_chapters: bool,
    /// Whether the search term is being typed.
    pub typing_search: bool,
    /// Whether a search filter is being typed.
    pub typing_filter: bool,
    /// Whether the library page has to fetch its mangas.
    pub home_requires_search: bool,
    /// Whether the configuration asks for bookmarks by themselves.
    pub config_auto_bookmark: bool,
}

/// The program.
#[derive(Debug)]
pub struct App {
    pub state: AppState,
    pub current_tab: SelectedPage,
    pub manga_page: Option<MangaPage>,
    pub manga_reader_page: Option<MangaReader>,
    pub stats_page: StatsPage,
    pub error_message: Option<String>,
    /// Whether the terminal can show images.
    pub has_picker: bool,
    /// Whether reading is tracked.
    pub has_tracker: bool,
    /// Whether the next key chooses a page.
    pub pending_goto_prefix: bool,
}

pub struct AppModel {
    pub state: AppState,
    pub current_tab: SelectedPage,
    pub manga_page: Option<MangaPage>,
    pub manga_reader_page: Option<MangaReader>,
    pub stats_page: StatsPageModel,
    pub error_message: Option<Seq<char>>,
    pub has_picker: bool,
    pub has_tracker: bool,
    pub pending_goto_prefix: bool,
}

impl View for App {
    type V = AppModel;

    open spec fn view(&self) -> AppModel {
        AppModel {
            state: self.state,
            current_tab: self.current_tab,
            manga_page: self.manga_page,
            manga_reader_page: self.manga_reader_page,
            stats_page: self.stats_page@,
            error_message: match self.error_message {
                Some(message) => Some(message@),
                None => None,
            },
            has_picker: self.has_picker,
            has_tracker: self.has_tracker,
            pending_goto_prefix: self.pending_goto_prefix,
        }
    }
}

/// The program after a step, and what is to be done outside.
pub struct Step {
    pub app: AppModel,
    pub effects: Seq<Effect>,
}

/// Leaving the page of a manga.
pub open spec fn manga_left(app: AppModel) -> Seq<Effect> {
    if app.manga_page is Some {
        seq![Effect::CleanUpManga]
    } else {
        Seq::empty()
    }
}

/// Leaving the reader.
pub open spec fn reader_left(app: AppModel) -> Seq<Effect> {
    if app.manga_reader_page is Some {
        seq![Effect::CleanUpReader]
    } else {
        Seq::empty()
    }
}

/// Going to the search.
pub open spec fn search_step(app: AppModel, stats: Option<StatsModel>) -> Step {
    Step {
        app: AppModel {
            manga_page: None,
            stats_page: page_at_rest(app.stats_page, stats),
            current_tab: SelectedPage::Search,
            ..app
        },
        effects: manga_left(app).push(Effect::CleanUpStats),
    }
}

/// Going to the library.
pub open spec fn home_step(app: AppModel, stats: Option<StatsModel>, requires_search: bool) -> Step {
    let left = manga_left(app).push(Effect::CleanUpStats);
    Step {
        app: AppModel {
            manga_page: None,
            stats_page: page_at_rest(app.stats_page, stats),
            current_tab: SelectedPage::Home,
            ..app
        },
        effects: if requires_search {
            left.push(Effect::InitHomeSearch)
        } else {
            left
        },
    }
}

/// Going to the totals.
pub open spec fn stats_step(app: AppModel) -> Step {
    Step {
        app: AppModel { manga_page: None, current_tab: SelectedPage::Stats, ..app },
        effects: manga_left(app),
    }
}

/// Going to the page of a manga.
pub open spec fn manga_step(
    app: AppModel,
    manga: Manga,
    stats: Option<StatsModel>,
    auto_bookmark: bool,
) -> Step {
    Step {
        app: AppModel {
            manga_reader_page: None,
            stats_page: page_at_rest(app.stats_page, stats),
            current_tab: SelectedPage::MangaTab,
            manga_page: Some(
                MangaPage { manga, auto_bookmark, has_tracker: app.has_tracker },
            ),
            ..app
        },
        effects: reader_left(app).push(Effect::CleanUpStats).push(Effect::OpenMangaPage),
    }
}

/// Opening a chapter: where the terminal shows no images, an error instead.
pub open spec fn reader_step(
    app: AppModel,
    chapter: ChapterToRead,
    manga: MangaToRead,
    has_tracker: bool,
    stats: Option<StatsModel>,
    auto_bookmark: bool,
) -> Step {
    if app.has_picker {
        Step {
            app: AppModel {
                stats_page: page_at_rest(app.stats_page, stats),
                current_tab: SelectedPage::ReaderTab,
                manga_reader_page: Some(
                    MangaReader {
                        chapter,
                        manga_id: manga.manga_id,
                        manga_title: manga.title,
                        list_of_chapters: manga.list,
                        has_tracker,
                        auto_bookmark,
                    },
                ),
                ..app
            },
            effects: seq![Effect::CleanUpHome, Effect::CleanUpStats, Effect::OpenReader],
        }
    } else {
        Step {
            app: AppModel {
                error_message: Some(
                    "This terminal does not support inline images, so the reader cannot open chapters."@,
                ),
                ..app
            },
            effects: Seq::empty(),
        }
    }
}

/// What another library does: the pages that showed the old one are emptied or
/// closed, and the totals are shown.
pub open spec fn reload_step(app: AppModel) -> Step {
    Step {
        app: AppModel {
            manga_page: None,
            manga_reader_page: None,
            current_tab: SelectedPage::Stats,
            ..app
        },
        effects: seq![Effect::CleanUpHome, Effect::CleanUpSearch] + manga_left(app) + reader_left(app),
    }
}

/// Going back from the reader to the page of the manga.
pub open spec fn back_step(app: AppModel) -> Step {
    if app.current_tab == SelectedPage::ReaderTab && app.manga_reader_page is Some {
        Step {
            app: AppModel { current_tab: SelectedPage::MangaTab, ..app },
            effects: seq![Effect::CleanUpReader],
        }
    } else {
        Step { app, effects: Seq::empty() }
    }
}

/// What an open reader does before the program ends: it bookmarks its chapter,
/// if it does so by itself, and ends its session.
pub open spec fn reader_ended(app: AppModel) -> Seq<Effect> {
    match app.manga_reader_page {
        Some(reader) => if reader.auto_bookmark {
            seq![Effect::BookmarkChapter, Effect::FinishReading]
        } else {
            seq![Effect::FinishReading]
        },
        None => Seq::empty(),
    }
}

/// What is done to quit.
pub open spec fn quit_effects(app: AppModel) -> Seq<Effect> {
    reader_ended(app).push(Effect::SendQuit)
}

/// Whether a key is Control and `c`.
pub open spec fn is_interrupt(key: KeyEvent) -> bool {
    key.code == KeyCode::Char('c') && key.modifiers == CONTROL
}

/// Whether keys can choose pages: not while one reads, types, or edits.
pub open spec fn keys_navigate(app: AppModel, around: Surroundings) -> bool {
    &&& app.current_tab != SelectedPage::ReaderTab
    &&& !around.typing_search
    &&& !around.typing_filter
    &&& !(app.stats_page.state is EditingPath)
}

/// Whether all chapters of the manga that is shown are being downloaded.
pub open spec fn is_downloading(app: AppModel, around: Surroundings) -> bool {
    app.manga_page is Some && around.downloading_all_chapters
}

/// What a key does: the step, and whether the key is used up by it. Nothing
/// while all chapters are downloaded; Control and `c` quit everywhere; where
/// keys navigate, `q` quits, and `g` with `h`, `s` or `t` chooses a page.
pub open spec fn key_step(app: AppModel, key: KeyEvent, around: Surroundings) -> (Step, bool) {
    let ended = AppModel { pending_goto_prefix: false, ..app };
    if is_downloading(app, around) {
        (Step { app, effects: Seq::empty() }, false)
    } else if is_interrupt(key) {
        (Step { app, effects: quit_effects(app) }, true)
    } else if !keys_navigate(app, around) {
        (Step { app, effects: Seq::empty() }, false)
    } else if app.pending_goto_prefix && key.code == KeyCode::Char('h') {
        (Step { app: ended, effects: seq![Effect::SendGoToHome] }, true)
    } else if app.pending_goto_prefix && key.code == KeyCode::Char('s') {
        (Step { app: ended, effects: seq![Effect::SendGoSearchPage] }, true)
    } else if app.pending_goto_prefix && key.code == KeyCode::Char('t') {
        (Step { app: ended, effects: seq![Effect::SendGoStatsPage] }, true)
    } else if app.pending_goto_prefix && key.code == KeyCode::Esc {
        (Step { app: ended, effects: Seq::empty() }, true)
    } else if key.code == KeyCode::Char('q') {
        (Step { app: ended, effects: quit_effects(app) }, true)
    } else if key.code == KeyCode::Char('g') {
        (Step { app: AppModel { pending_goto_prefix: true, ..app }, effects: Seq::empty() }, true)
    } else {
        (Step { app: ended, effects: Seq::empty() }, false)
    }
}

/// What a key does while an error is shown: `q` and Escape close it, Control
/// and `c` quit.
pub open spec fn error_key_step(app: AppModel, key: KeyEvent) -> Step {
    if key.code == KeyCode::Char('q') || key.code == KeyCode::Esc {
        Step { app: AppModel { error_message: None, ..app }, effects: Seq::empty() }
    } else if is_interrupt(key) {
        Step { app, effects: quit_effects(app) }
    } else {
        Step { app, effects: Seq::empty() }
    }
}

/// What an event does to the program itself.
pub open spec fn event_step(
    app: AppModel,
    event: Events,
    around: Surroundings,
    stats: Option<StatsModel>,
) -> Step {
    match event {
        Events::Key(key) => key_step(app, key, around).0,
        Events::GoToMangaPage(manga) => manga_step(app, manga, stats, around.config_auto_bookmark),
        Events::ReadChapter(chapter, manga) => reader_step(
            app,
            chapter,
            manga,
            app.has_tracker,
            stats,
            around.config_auto_bookmark,
        ),
        Events::GoSearchPage => search_step(app, stats),
        Events::GoToHome => home_step(app, stats, around.home_requires_search),
        Events::GoStatsPage => stats_step(app),
        Events::LocalLibraryReloaded => reload_step(app),
        Events::Error(message) => Step {
            app: AppModel { error_message: Some(message@), ..app },
            effects: Seq::empty(),
        },
        Events::GoBackMangaPage => back_step(app),
        Events::Other => Step { app, effects: Seq::empty() },
    }
}

/// Whether the page that is shown is there.
pub open spec fn page_is_open(app: AppModel) -> bool {
    &&& app.current_tab == SelectedPage::MangaTab ==> app.manga_page is Some
    &&& app.current_tab == SelectedPage::ReaderTab ==> app.manga_reader_page is Some
}

/// Whether the page that an event is handed to is there: a key goes to none
/// while an error is shown, and to none where the program uses it.
pub open spec fn has_page_for(app: AppModel, event: Events, around: Surroundings) -> bool {
    match event {
        Events::Key(key) => {
            ||| app.error_message is Some
            ||| key_step(app, key, around).1
            ||| page_is_open(app)
        },
        _ => page_is_open(event_step(app, event, around, None).app),
    }
}

/// What an event does. While an error is shown, keys only close it or quit. A
/// key that the program uses goes no further. Anything else then goes to the
/// page that is shown.
pub open spec fn listen_step(
    app: AppModel,
    event: Events,
    around: Surroundings,
    stats: Option<StatsModel>,
) -> Step {
    match event {
        Events::Key(key) => if app.error_message is Some {
            error_key_step(app, key)
        } else {
            let (first, used) = key_step(app, key, around);
            if used {
                first
            } else {
                let second = event_step(first.app, event, around, stats);
                Step {
                    app: second.app,
                    effects: (first.effects + second.effects).push(
                        Effect::Pass(second.app.current_tab),
                    ),
                }
            }
        },
        _ => {
            let step = event_step(app, event, around, stats);
            Step {
                app: step.app,
                effects: step.effects.push(Effect::Pass(step.app.current_tab)),
            }
        },
    }
}

impl App {
    /// The program as it starts: at the library, with the event that leads
    /// there sent.
    pub fn new(has_picker: bool, has_tracker: bool, stats: Option<&LocalLibraryStats>) -> (r: (
        App,
        Vec<Effect>,
    ))
        ensures
            r.0@ == (AppModel {
                state: AppState::Runnning,
                current_tab: SelectedPage::Home,
                manga_page: None,
                manga_reader_page: None,
                stats_page: StatsPageModel {
                    state: StatsStateModel::Normal,
                    library_path: refreshed(input_of(Seq::empty()), opt_stats(stats)),
                },
                error_message: None,
                has_picker,
                has_tracker,
                pending_goto_prefix: false,
            }),
            r.1@ == seq![Effect::SendGoToHome],
    {
        let mut effects: Vec<Effect> = Vec::new();
        effects.push(Effect::SendGoToHome);
        let app: App = App {
            state: AppState::Runnning,
            current_tab: SelectedPage::Home,
            manga_page: None,
            manga_reader_page: None,
            stats_page: StatsPage::new(stats),
            error_message: None,
            has_picker,
            has_tracker,
            pending_goto_prefix: false,
        };
        (app, effects)
    }

    /// The titles of the tabs, and which of them is marked.
    pub fn render_top_tabs(&self) -> (r: (Vec<String>, usize))
        ensures
            text_views(r.0@) == if self.current_tab == SelectedPage::MangaTab {
                seq!["Library <gh>"@, "Search <gs>"@, "Stats <gt>"@, " 📖 Manga page"@]
            } else {
                seq!["Library <gh>"@, "Search <gs>"@, "Stats <gt>"@]
            },
            r.1 == (match self.current_tab {
                SelectedPage::Home => 0int,
                SelectedPage::Search => 1,
                SelectedPage::Stats => 2,
                SelectedPage::MangaTab => 3,
                SelectedPage::ReaderTab => 0,
            }),
    {
        let mut titles: Vec<String> = Vec::new();
        titles.push("Library <gh>".to_owned());
        titles.push("Search <gs>".to_owned());
        titles.push("Stats <gt>".to_owned());
        let selected: usize = match self.current_tab {
            SelectedPage::Home => 0,
            SelectedPage::Search => 1,
            SelectedPage::Stats => 2,
            SelectedPage::MangaTab => {
                titles.push(" 📖 Manga page".to_owned());
                3
            },
            SelectedPage::ReaderTab => 0,
        };
        assert(text_views(titles@) == if self.current_tab == SelectedPage::MangaTab {
            seq!["Library <gh>"@, "Search <gs>"@, "Stats <gt>"@, " 📖 Manga page"@]
        } else {
            seq!["Library <gh>"@, "Search <gs>"@, "Stats <gt>"@]
        });
        (titles, selected)
    }

    /// Whether the reader fills the screen.
    pub fn shows_reader(&self) -> (r: bool)
        ensures
            r == (self@.manga_reader_page is Some && self@.current_tab == SelectedPage::ReaderTab),
    {
        self.manga_reader_page.is_some() && self.current_tab == SelectedPage::ReaderTab
    }

    /// The page that is drawn below the tabs.
    pub fn render_pages(&self) -> (r: Option<SelectedPage>)
        ensures
            r == (match self@.current_tab {
                SelectedPage::MangaTab => if self@.manga_page is Some {
                    Some(SelectedPage::MangaTab)
                } else {
                    None
                },
                SelectedPage::ReaderTab => None,
                tab => Some(tab),
            }),
    {
        match self.current_tab {
            SelectedPage::MangaTab => if self.manga_page.is_some() {
                Some(SelectedPage::MangaTab)
            } else {
                None
            },
            SelectedPage::ReaderTab => None,
            tab => Some(tab),
        }
    }

    fn display_error_message(&mut self, error_message: String)
        ensures
            final(self)@ == (AppModel { error_message: Some(error_message@), ..old(self)@ }),
    {
        self.error_message = Some(error_message);
    }

    fn close_error_mesagge(&mut self)
        ensures
            final(self)@ == (AppModel { error_message: None, ..old(self)@ }),
    {
        self.error_message = None;
    }

    /// Whether an error is shown.
    pub fn is_displaying_error_message(&self) -> (r: bool)
        ensures
            r == (self@.error_message is Some),
    {
        self.error_message.is_some()
    }

    /// A chapter is bookmarked on quit as well, only if the reader does so by
    /// itself.
    fn auto_bookmark_on_quit(&self, effects: &mut Vec<Effect>)
        ensures
            final(effects)@ == old(effects)@ + reader_ended(self@),
    {
        if let Some(reader) = &self.manga_reader_page {
            if reader.auto_bookmark {
                effects.push(Effect::BookmarkChapter);
            }
            effects.push(Effect::FinishReading);
        }
    }

    fn quit(&self, effects: &mut Vec<Effect>)
        ensures
            final(effects)@ == old(effects)@ + quit_effects(self@),
    {
        self.auto_bookmark_on_quit(effects);
        effects.push(Effect::SendQuit);
    }

    fn key_events_error_message(&mut self, key: KeyEvent, effects: &mut Vec<Effect>)
        ensures
            final(self)@ == error_key_step(old(self)@, key).app,
            final(effects)@ == old(effects)@ + error_key_step(old(self)@, key).effects,
    {
        match key.code {
            KeyCode::Char('q') | KeyCode::Esc => self.close_error_mesagge(),
            KeyCode::Char('c') => {
                if key.modifiers == CONTROL {
                    self.quit(effects);
                }
            },
            _ => {},
        }
    }

    /// What a key does, and whether it is used up by that.
    pub fn handle_key_events(
        &mut self,
        key: KeyEvent,
        around: &Surroundings,
        effects: &mut Vec<Effect>,
    ) -> (r: bool)
        ensures
            final(self)@ == key_step(old(self)@, key, *around).0.app,
            final(effects)@ == old(effects)@ + key_step(old(self)@, key, *around).0.effects,
            r == key_step(old(self)@, key, *around).1,
    {
        if self.manga_page.is_some() && around.downloading_all_chapters {
            return false;
        }
        if key.code == KeyCode::Char('c') && key.modifiers == CONTROL {
            self.quit(effects);
            return true;
        }
        if self.current_tab != SelectedPage::ReaderTab && !around.typing_search
            && !around.typing_filter && !self.stats_page.is_typing() {
            if self.pending_goto_prefix {
                self.pending_goto_prefix = false;
                match key.code {
                    KeyCode::Char('h') => {
                        effects.push(Effect::SendGoToHome);
                        return true;
                    },
                    KeyCode::Char('s') => {
                        effects.push(Effect::SendGoSearchPage);
                        return true;
                    },
                    KeyCode::Char('t') => {
                        effects.push(Effect::SendGoStatsPage);
                        return true;
                    },
                    KeyCode::Esc => {
                        return true;
                    },
                    _ => {},
                }
            }
            match key.code {
                KeyCode::Char('q') => {
                    self.quit(effects);
                    return true;
                },
                KeyCode::Char('g') => {
                    self.pending_goto_prefix = true;
                    return true;
                },
                _ => {},
            }
        }
        false
    }

    /// Leaves the page of a manga, if one is open.
    fn leave_manga_page(&mut self, effects: &mut Vec<Effect>)
        ensures
            final(self)@ == (AppModel { manga_page: None, ..old(self)@ }),
            final(effects)@ == old(effects)@ + manga_left(old(self)@),
    {
        if self.manga_page.is_some() {
            effects.push(Effect::CleanUpManga);
            self.manga_page = None;
        }
    }

    /// Leaves the reader, if it is open.
    fn leave_reader(&mut self, effects: &mut Vec<Effect>)
        ensures
            final(self)@ == (AppModel { manga_reader_page: None, ..old(self)@ }),
            final(effects)@ == old(effects)@ + reader_left(old(self)@),
    {
        if self.manga_reader_page.is_some() {
            effects.push(Effect::CleanUpReader);
            self.manga_reader_page = None;
        }
    }

    fn clean_up_stats(&mut self, stats: Option<&LocalLibraryStats>, effects: &mut Vec<Effect>)
        ensures
            final(self)@ == (AppModel {
                stats_page: page_at_rest(old(self)@.stats_page, opt_stats(stats)),
                ..old(self)@
            }),
            final(effects)@ == old(effects)@.push(Effect::CleanUpStats),
    {
        self.stats_page.clean_up(stats);
        effects.push(Effect::CleanUpStats);
    }

    pub fn go_search_page(&mut self, stats: Option<&LocalLibraryStats>, effects: &mut Vec<Effect>)
        ensures
            final(self)@ == search_step(old(self)@, opt_stats(stats)).app,
            final(effects)@ == old(effects)@ + search_step(old(self)@, opt_stats(stats)).effects,
    {
        self.leave_manga_page(effects);
        self.clean_up_stats(stats, effects);
        self.current_tab = SelectedPage::Search;
    }

    pub fn go_to_manga_page(
        &mut self,
        manga: Manga,
        stats: Option<&LocalLibraryStats>,
        auto_bookmark: bool,
        effects: &mut Vec<Effect>,
    )
        ensures
            final(self)@ == manga_step(old(self)@, manga, opt_stats(stats), auto_bookmark).app,
            final(effects)@ == old(effects)@ + manga_step(
                old(self)@,
                manga,
                opt_stats(stats),
                auto_bookmark,
            ).effects,
    {
        self.leave_reader(effects);
        self.clean_up_stats(stats, effects);
        self.current_tab = SelectedPage::MangaTab;
        self.manga_page = Some(MangaPage { manga, auto_bookmark, has_tracker: self.has_tracker });
        effects.push(Effect::OpenMangaPage);
    }

    pub fn go_to_read_chapter(
        &mut self,
        chapter_to_read: ChapterToRead,
        manga_to_read: MangaToRead,
        has_tracker: bool,
        stats: Option<&LocalLibraryStats>,
        auto_bookmark: bool,
        effects: &mut Vec<Effect>,
    )
        ensures
            final(self)@ == reader_step(
                old(self)@,
                chapter_to_read,
                manga_to_read,
                has_tracker,
                opt_stats(stats),
                auto_bookmark,
            ).app,
            final(effects)@ == old(effects)@ + reader_step(
                old(self)@,
                chapter_to_read,
                manga_to_read,
                has_tracker,
                opt_stats(stats),
                auto_bookmark,
            ).effects,
    {
        if !self.has_picker {
            self.display_error_message(
                "This terminal does not support inline images, so the reader cannot open chapters.".to_owned(),
            );
            return;
        }
        effects.push(Effect::CleanUpHome);
        self.clean_up_stats(stats, effects);
        self.current_tab = SelectedPage::ReaderTab;
        self.manga_reader_page = Some(
            MangaReader {
                chapter: chapter_to_read,
                manga_id: manga_to_read.manga_id,
                manga_title: manga_to_read.title,
                list_of_chapters: manga_to_read.list,
                has_tracker,
                auto_bookmark,
            },
        );
        effects.push(Effect::OpenReader);
    }

    pub fn go_to_home(
        &mut self,
        stats: Option<&LocalLibraryStats>,
        requires_search: bool,
        effects: &mut Vec<Effect>,
    )
        ensures
            final(self)@ == home_step(old(self)@, opt_stats(stats), requires_search).app,
            final(effects)@ == old(effects)@ + home_step(
                old(self)@,
                opt_stats(stats),
                requires_search,
            ).effects,
    {
        self.leave_manga_page(effects);
        self.clean_up_stats(stats, effects);
        if requires_search {
            effects.push(Effect::InitHomeSearch);
        }
        self.current_tab = SelectedPage::Home;
    }

    pub fn go_stats_page(&mut self, effects: &mut Vec<Effect>)
        ensures
            final(self)@ == stats_step(old(self)@).app,
            final(effects)@ == old(effects)@ + stats_step(old(self)@).effects,
    {
        self.leave_manga_page(effects);
        self.current_tab = SelectedPage::Stats;
    }

    pub fn local_library_reloaded(&mut self, effects: &mut Vec<Effect>)
        ensures
            final(self)@ == reload_step(old(self)@).app,
            final(effects)@ == old(effects)@ + reload_step(old(self)@).effects,
    {
        effects.push(Effect::CleanUpHome);
        effects.push(Effect::CleanUpSearch);
        self.leave_manga_page(effects);
        self.leave_reader(effects);
        self.current_tab = SelectedPage::Stats;
    }

    fn go_back_manga_page(&mut self, effects: &mut Vec<Effect>)
        ensures
            final(self)@ == back_step(old(self)@).app,
            final(effects)@ == old(effects)@ + back_step(old(self)@).effects,
    {
        if self.shows_reader() {
            effects.push(Effect::CleanUpReader);
            self.current_tab = SelectedPage::MangaTab;
        }
    }

    /// What an event does to the program itself.
    pub fn handle_events(
        &mut self,
        event: Events,
        around: &Surroundings,
        stats: Option<&LocalLibraryStats>,
        effects: &mut Vec<Effect>,
    )
        ensures
            final(self)@ == event_step(old(self)@, event, *around, opt_stats(stats)).app,
            final(effects)@ == old(effects)@ + event_step(
                old(self)@,
                event,
                *around,
                opt_stats(stats),
            ).effects,
    {
        match event {
            Events::Key(key) => {
                self.handle_key_events(key, around, effects);
            },
            Events::GoToMangaPage(manga) => {
                self.go_to_manga_page(manga, stats, around.config_auto_bookmark, effects);
            },
            Events::ReadChapter(chapter, manga) => {
                let has_tracker: bool = self.has_tracker;
                self.go_to_read_chapter(
                    chapter,
                    manga,
                    has_tracker,
                    stats,
                    around.config_auto_bookmark,
                    effects,
                );
            },
            Events::GoSearchPage => self.go_search_page(stats, effects),
            Events::GoToHome => self.go_to_home(stats, around.home_requires_search, effects),
            Events::GoStatsPage => self.go_stats_page(effects),
            Events::LocalLibraryReloaded => self.local_library_reloaded(effects),
            Events::Error(message) => self.display_error_message(message),
            Events::GoBackMangaPage => self.go_back_manga_page(effects),
            Events::Other => {},
        }
    }

    /// Whether the page that is shown is there.
    fn is_page_open(&self) -> (r: bool)
        ensures
            r == page_is_open(self@),
    {
        match self.current_tab {
            SelectedPage::MangaTab => self.manga_page.is_some(),
            SelectedPage::ReaderTab => self.manga_reader_page.is_some(),
            _ => true,
        }
    }

    /// Whether the program uses a key.
    fn uses_key(&self, key: KeyEvent, around: &Surroundings) -> (r: bool)
        ensures
            r == key_step(self@, key, *around).1,
    {
        if self.manga_page.is_some() && around.downloading_all_chapters {
            return false;
        }
        if key.code == KeyCode::Char('c') && key.modifiers == CONTROL {
            return true;
        }
        if self.current_tab == SelectedPage::ReaderTab || around.typing_search
            || around.typing_filter || self.stats_page.is_typing() {
            return false;
        }
        match key.code {
            KeyCode::Char('q') | KeyCode::Char('g') => true,
            KeyCode::Char('h') | KeyCode::Char('s') | KeyCode::Char('t') | KeyCode::Esc => {
                self.pending_goto_prefix
            },
            _ => false,
        }
    }

    /// Whether the page that an event is handed to is there, so that the event
    /// can be taken.
    pub fn has_page_for(&self, event: &Events, around: &Surroundings) -> (r: bool)
        ensures
            r == has_page_for(self@, *event, *around),
    {
        match event {
            Events::Key(key) => self.is_displaying_error_message() || self.uses_key(*key, around)
                || self.is_page_open(),
            Events::ReadChapter(_, _) => self.has_picker || self.is_page_open(),
            Events::GoBackMangaPage => if self.shows_reader() {
                self.manga_page.is_some()
            } else {
                self.is_page_open()
            },
            Events::Error(_) | Events::Other => self.is_page_open(),
            _ => true,
        }
    }

    /// Takes an event: what it does to the program, and to which page it is
    /// handed.
    pub fn listen_to_event(
        &mut self,
        event: Events,
        around: &Surroundings,
        stats: Option<&LocalLibraryStats>,
    ) -> (r: Vec<Effect>)
        requires
            has_page_for(old(self)@, event, *around),
        ensures
            final(self)@ == listen_step(old(self)@, event, *around, opt_stats(stats)).app,
            r@ == listen_step(old(self)@, event, *around, opt_stats(stats)).effects,
            page_is_open(old(self)@) ==> page_is_open(final(self)@),
            r@.len() > 0 && r@.last() is Pass ==> page_is_open(final(self)@),
    {
        let mut effects: Vec<Effect> = Vec::new();
        if let Events::Key(key) = &event {
            if self.is_displaying_error_message() {
                self.key_events_error_message(*key, &mut effects);
                return effects;
            }
            if self.handle_key_events(*key, around, &mut effects) {
                return effects;
            }
        }
        self.handle_events(event, around, stats, &mut effects);
        effects.push(Effect::Pass(self.current_tab));
        effects
    }

    /// Ends the program where it is asked to.
    pub fn update(&mut self, action: Action)
        ensures
            final(self)@ == (AppModel { state: AppState::Done, ..old(self)@ }),
    {
        match action {
            Action::Quit => {
                self.state = AppState::Done;
            },
        }
    }

    /// Takes an action of the program, if there is one, and tells which page
    /// takes one of its own.
    pub fn update_based_on_action(&mut self, action: Option<Action>) -> (r: Option<SelectedPage>)
        ensures
            final(self)@ == (if action is Some {
                AppModel { state: AppState::Done, ..old(self)@ }
            } else {
                old(self)@
            }),
            r == (if page_is_open(old(self)@) {
                Some(old(self)@.current_tab)
            } else {
                None
            }),
    {
        if let Some(action) = action {
            self.update(action);
        }
        match self.current_tab {
            SelectedPage::MangaTab => if self.manga_page.is_some() {
                Some(SelectedPage::MangaTab)
            } else {
                None
            },
            SelectedPage::ReaderTab => if self.manga_reader_page.is_some() {
                Some(SelectedPage::ReaderTab)
            } else {
                None
            },
            tab => Some(tab),
        }
    }
}

/// A key that the program does not use reaches the page that is shown, and does
/// nothing else than to end a choice of page that was begun.
pub proof fn unused_keys_reach_the_page(
    app: AppModel,
    key: KeyEvent,
    around: Surroundings,
    stats: Option<StatsModel>,
)
    requires
        app.error_message is None,
        !key_step(app, key, around).1,
    ensures
        listen_step(app, Events::Key(key), around, stats).effects == seq![
            Effect::Pass(app.current_tab),
        ],
        ({
            let after = listen_step(app, Events::Key(key), around, stats).app;
            after == app || after == AppModel { pending_goto_prefix: false, ..app }
        }),
{
    let first = key_step(app, key, around).0;
    let second = event_step(first.app, Events::Key(key), around, stats);
    assert((first.effects + second.effects) =~= Seq::<Effect>::empty());
    assert(listen_step(app, Events::Key(key), around, stats).effects =~= seq![
        Effect::Pass(app.current_tab),
    ]);
}

/// While all chapters of a manga are downloaded, keys change nothing.
pub proof fn downloading_ignores_keys(app: AppModel, key: KeyEvent, around: Surroundings)
    requires
        is_downloading(app, around),
    ensures
        key_step(app, key, around) == (Step { app, effects: Seq::empty() }, false),
{
}

/// While an error is shown, a key closes it, quits or does nothing; no page
/// sees it.
pub proof fn errors_hold_back_keys(
    app: AppModel,
    key: KeyEvent,
    around: Surroundings,
    stats: Option<StatsModel>,
    page: SelectedPage,
)
    requires
        app.error_message is Some,
    ensures
        ({
            let step = listen_step(app, Events::Key(key), around, stats);
            &&& !step.effects.contains(Effect::Pass(page))
            &&& step.app == app || step.app == AppModel { error_message: None, ..app }
        }),
{
}

/// Where keys navigate, `g` and then `h`, `s` or `t` sends the event that leads
/// to the library, the search or the totals, and that event leads there.
pub proof fn goto_keys_choose_a_page(
    app: AppModel,
    go: KeyEvent,
    choice: KeyEvent,
    around: Surroundings,
    stats: Option<StatsModel>,
)
    requires
        keys_navigate(app, around),
        !is_downloading(app, around),
        go.code == KeyCode::Char('g'),
        choice.code == KeyCode::Char('h') || choice.code == KeyCode::Char('s') || choice.code
            == KeyCode::Char('t'),
        !app.pending_goto_prefix,
    ensures
        ({
            let (first, first_used) = key_step(app, go, around);
            let (second, second_used) = key_step(first.app, choice, around);
            &&& first_used && second_used
            &&& first.effects == Seq::<Effect>::empty()
            &&& second.app == app
            &&& choice.code == KeyCode::Char('h') ==> second.effects == seq![Effect::SendGoToHome]
                && event_step(second.app, Events::GoToHome, around, stats).app.current_tab
                == SelectedPage::Home
            &&& choice.code == KeyCode::Char('s') ==> second.effects == seq![
                Effect::SendGoSearchPage,
            ] && event_step(second.app, Events::GoSearchPage, around, stats).app.current_tab
                == SelectedPage::Search
            &&& choice.code == KeyCode::Char('t') ==> second.effects == seq![
                Effect::SendGoStatsPage,
            ] && event_step(second.app, Events::GoStatsPage, around, stats).app.current_tab
                == SelectedPage::Stats
        }),
{
}

/// Another library closes the pages that showed the old one, empties the
/// library and the search, and leads to the totals.
pub proof fn reload_forgets_the_old_library(app: AppModel)
    ensures
        reload_step(app).app.manga_page is None,
        reload_step(app).app.manga_reader_page is None,
        reload_step(app).app.current_tab == SelectedPage::Stats,
        reload_step(app).effects.contains(Effect::CleanUpHome),
        reload_step(app).effects.contains(Effect::CleanUpSearch),
        app.manga_page is Some ==> reload_step(app).effects.contains(Effect::CleanUpManga),
        app.manga_reader_page is Some ==> reload_step(app).effects.contains(Effect::CleanUpReader),
{
    let effects = reload_step(app).effects;
    assert(effects[0] == Effect::CleanUpHome);
    assert(effects[1] == Effect::CleanUpSearch);
    if app.manga_page is Some {
        assert(effects[2] == Effect::CleanUpManga);
    }
    if app.manga_reader_page is Some {
        assert(effects[2 + manga_left(app).len() as int] == Effect::CleanUpReader);
    }
}

/// Control and `c` quits on every page, unless all chapters are downloaded; the
/// reader ends its session first.
pub proof fn interrupt_quits(app: AppModel, key: KeyEvent, around: Surroundings)
    requires
        is_interrupt(key),
        !is_downloading(app, around),
    ensures
        key_step(app, key, around) == (Step { app, effects: quit_effects(app) }, true),
        quit_effects(app).last() == Effect::SendQuit,
        app.manga_reader_page is Some ==> quit_effects(app).contains(Effect::FinishReading),
{
    let effects = quit_effects(app);
    if app.manga_reader_page is Some {
        assert(effects[reader_ended(app).len() - 1] == Effect::FinishReading);
    }
}

/// Without images in the terminal no chapter opens, and an error says so.
pub proof fn reader_needs_images(
    app: AppModel,
    chapter: ChapterToRead,
    manga: MangaToRead,
    around: Surroundings,
    stats: Option<StatsModel>,
)
    requires
        !app.has_picker,
    ensures
        ({
            let step = event_step(app, Events::ReadChapter(chapter, manga), around, stats);
            &&& step.app.manga_reader_page == app.manga_reader_page
            &&& step.app.current_tab == app.current_tab
            &&& step.app.error_message is Some
            &&& step.effects == Seq::<Effect>::empty()
        }),
{
}

} // verus!
