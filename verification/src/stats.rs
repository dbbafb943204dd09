//! The page with the totals of the library, from which another library can be
//! read.
use crate::digits::{decimal, print_decimal};
use crate::index::{LocalLibraryStats, StatsModel};
use crate::input::{edited, input_of, InputModel, TextInput};
use crate::keys::{KeyCode, KeyEvent};
use crate::path::{opt_path, path_of, LocalPath, PathModel};
use crate::size::{human_bytes, readable_size};
use crate::text::{chars_of, text_of, trim, trimmed, CharClass};
use vstd::prelude::*;

verus! {

#[derive(Debug, PartialEq, Eq)]
pub enum StatsState {
    Normal,
    EditingPath,
    Reloading,
    Reloaded,
    Error(String),
}

#[derive(Clone, Copy, PartialEq, Eq, Structural, Debug)]
pub enum StatsActions {
    EditPath,
    StopEditingPath,
    ReloadCurrentPath,
    ReloadInputPath,
}

/// What a finished reload reports.
#[derive(Debug, PartialEq, Eq)]
pub enum StatsEvents {
    Reloaded(Result<LocalLibraryStats, String>),
}

#[derive(Debug)]
pub struct StatsPage {
    pub state: StatsState,
    pub library_path: TextInput,
}

pub enum StatsStateModel {
    Normal,
    EditingPath,
    Reloading,
    Reloaded,
    Error(Seq<char>),
}

pub struct StatsPageModel {
    pub state: StatsStateModel,
    pub library_path: InputModel,
}

impl View for StatsState {
    type V = StatsStateModel;

    open spec fn view(&self) -> StatsStateModel {
        match self {
            StatsState::Normal => StatsStateModel::Normal,
            StatsState::EditingPath => StatsStateModel::EditingPath,
            StatsState::Reloading => StatsStateModel::Reloading,
            StatsState::Reloaded => StatsStateModel::Reloaded,
            StatsState::Error(message) => StatsStateModel::Error(message@),
        }
    }
}

impl View for StatsPage {
    type V = StatsPageModel;

    open spec fn view(&self) -> StatsPageModel {
        StatsPageModel { state: self.state@, library_path: self.library_path@ }
    }
}

pub open spec fn opt_stats(stats: Option<&LocalLibraryStats>) -> Option<StatsModel> {
    match stats {
        Some(stats) => Some(stats@),
        None => None,
    }
}

/// The path that is shown: that of the library, if it is known.
pub open spec fn refreshed(input: InputModel, stats: Option<StatsModel>) -> InputModel {
    match stats {
        Some(stats) => input_of(stats.library_path.text),
        None => input,
    }
}

/// The page when it is left, or when its path is no longer edited.
pub open spec fn page_at_rest(page: StatsPageModel, stats: Option<StatsModel>) -> StatsPageModel {
    StatsPageModel {
        state: StatsStateModel::Normal,
        library_path: refreshed(page.library_path, stats),
    }
}

/// The page, and the library to read, when a reload of `path` is asked for: no
/// second one starts while one runs.
pub open spec fn reload_of(page: StatsPageModel, path: PathModel) -> (StatsPageModel, Option<PathModel>) {
    if page.state is Reloading {
        (page, None)
    } else {
        (
            StatsPageModel { state: StatsStateModel::Reloading, library_path: page.library_path },
            Some(path),
        )
    }
}

/// The page, and the library to read, after an action.
pub open spec fn acted(page: StatsPageModel, action: StatsActions, stats: Option<StatsModel>) -> (
    StatsPageModel,
    Option<PathModel>,
) {
    match action {
        StatsActions::EditPath => if page.state is Reloading {
            (page, None)
        } else {
            (
                StatsPageModel {
                    state: StatsStateModel::EditingPath,
                    library_path: refreshed(page.library_path, stats),
                },
                None,
            )
        },
        StatsActions::StopEditingPath => (page_at_rest(page, stats), None),
        StatsActions::ReloadCurrentPath => match stats {
            Some(stats) => reload_of(page, stats.library_path),
            None => (page, None),
        },
        StatsActions::ReloadInputPath => {
            let typed = trim(page.library_path.value, CharClass::Space);
            if typed.len() == 0 {
                (
                    StatsPageModel {
                        state: StatsStateModel::Error("Local library path cannot be empty"@),
                        library_path: page.library_path,
                    },
                    None,
                )
            } else {
                reload_of(page, path_of(typed))
            }
        },
    }
}

/// The action that a key asks for.
pub open spec fn action_of(page: StatsPageModel, key: KeyEvent) -> Option<StatsActions> {
    if page.state is EditingPath {
        match key.code {
            KeyCode::Enter => Some(StatsActions::ReloadInputPath),
            KeyCode::Esc => Some(StatsActions::StopEditingPath),
            _ => None,
        }
    } else if key.code == KeyCode::Char('e') {
        Some(StatsActions::EditPath)
    } else if key.code == KeyCode::Char('r') {
        Some(StatsActions::ReloadCurrentPath)
    } else {
        None
    }
}

/// The page after a key: while the path is edited, keys that ask for no action
/// are typed into it.
pub open spec fn typed(page: StatsPageModel, key: KeyEvent) -> StatsPageModel {
    if page.state is EditingPath && key.code != KeyCode::Enter && key.code != KeyCode::Esc {
        StatsPageModel { state: page.state, library_path: edited(page.library_path, key) }
    } else {
        page
    }
}

/// The page after a finished reload.
pub open spec fn reloaded(page: StatsPageModel, event: StatsEvents) -> StatsPageModel {
    match event {
        StatsEvents::Reloaded(Ok(stats)) => StatsPageModel {
            state: StatsStateModel::Reloaded,
            library_path: input_of(stats@.library_path.text),
        },
        StatsEvents::Reloaded(Err(message)) => StatsPageModel {
            state: StatsStateModel::Error(message@),
            library_path: page.library_path,
        },
    }
}

/// What a finished reload reports, given how it went and the totals after it.
pub open spec fn report_of(
    event: StatsEvents,
    result: Result<(), String>,
    stats: Option<StatsModel>,
) -> bool {
    match (result, stats) {
        (Ok(_), Some(stats)) => event matches StatsEvents::Reloaded(Ok(s)) && s@ == stats,
        (Ok(_), None) => event matches StatsEvents::Reloaded(Err(m)) && m@
            == "Local stats unavailable"@,
        (Err(message), _) => event matches StatsEvents::Reloaded(Err(m)) && m@ == message@,
    }
}

/// What a finished reload reports to the page, and whether the program is told
/// that there is another library.
pub fn reload_report(result: Result<(), String>, stats: Option<&LocalLibraryStats>) -> (r: (
    StatsEvents,
    bool,
))
    ensures
        report_of(r.0, result, opt_stats(stats)),
        r.1 == (result is Ok && stats is Some),
{
    match result {
        Ok(_) => match stats {
            Some(stats) => (StatsEvents::Reloaded(Ok(stats.copy())), true),
            None => (StatsEvents::Reloaded(Err("Local stats unavailable".to_owned())), false),
        },
        Err(message) => (StatsEvents::Reloaded(Err(message)), false),
    }
}

impl StatsPage {
    /// The page of a library with these totals.
    pub fn new(stats: Option<&LocalLibraryStats>) -> (r: StatsPage)
        ensures
            r@.state is Normal,
            r@.library_path == refreshed(input_of(Seq::empty()), opt_stats(stats)),
    {
        let value: String = match stats {
            Some(stats) => stats.library_path.text.clone(),
            None => String::new(),
        };
        StatsPage { state: StatsState::Normal, library_path: TextInput::new(value) }
    }

    /// Whether keys are typed into the path.
    pub fn is_typing(&self) -> (r: bool)
        ensures
            r == (self@.state is EditingPath),
    {
        match self.state {
            StatsState::EditingPath => true,
            _ => false,
        }
    }

    fn is_reloading(&self) -> (r: bool)
        ensures
            r == (self@.state is Reloading),
    {
        match self.state {
            StatsState::Reloading => true,
            _ => false,
        }
    }

    /// Shows the path of the library, if it is known.
    fn refresh_path_input(&mut self, stats: Option<&LocalLibraryStats>)
        ensures
            final(self)@ == (StatsPageModel {
                state: old(self)@.state,
                library_path: refreshed(old(self)@.library_path, opt_stats(stats)),
            }),
    {
        if let Some(stats) = stats {
            self.library_path = TextInput::new(stats.library_path.text.clone());
        }
    }

    fn edit_path(&mut self, stats: Option<&LocalLibraryStats>)
        ensures
            final(self)@ == acted(old(self)@, StatsActions::EditPath, opt_stats(stats)).0,
    {
        if !self.is_reloading() {
            self.refresh_path_input(stats);
            self.state = StatsState::EditingPath;
        }
    }

    fn stop_editing_path(&mut self, stats: Option<&LocalLibraryStats>)
        ensures
            final(self)@ == page_at_rest(old(self)@, opt_stats(stats)),
    {
        self.refresh_path_input(stats);
        self.state = StatsState::Normal;
    }

    fn reload_library(&mut self, path: LocalPath) -> (r: Option<LocalPath>)
        ensures
            (final(self)@, opt_path(r)) == reload_of(old(self)@, path@),
    {
        if self.is_reloading() {
            return None;
        }
        self.state = StatsState::Reloading;
        Some(path)
    }

    fn reload_current_path(&mut self, stats: Option<&LocalLibraryStats>) -> (r: Option<LocalPath>)
        ensures
            (final(self)@, opt_path(r)) == acted(
                old(self)@,
                StatsActions::ReloadCurrentPath,
                opt_stats(stats),
            ),
    {
        match stats {
            Some(stats) => self.reload_library(stats.library_path.copy()),
            None => None,
        }
    }

    fn reload_input_path(&mut self) -> (r: Option<LocalPath>)
        ensures
            (final(self)@, opt_path(r)) == acted(
                old(self)@,
                StatsActions::ReloadInputPath,
                None,
            ),
    {
        let typed: Vec<char> = trimmed(&chars_of(self.library_path.value()), CharClass::Space);
        if typed.len() == 0 {
            self.state = StatsState::Error("Local library path cannot be empty".to_owned());
            return None;
        }
        self.reload_library(LocalPath::new(text_of(&typed).as_str()))
    }

    /// Does what an action asks for. Where it starts a reload, the path of the
    /// library to read is returned.
    pub fn update(&mut self, action: StatsActions, stats: Option<&LocalLibraryStats>) -> (r: Option<
        LocalPath,
    >)
        ensures
            (final(self)@, opt_path(r)) == acted(old(self)@, action, opt_stats(stats)),
    {
        match action {
            StatsActions::EditPath => {
                self.edit_path(stats);
                None
            },
            StatsActions::StopEditingPath => {
                self.stop_editing_path(stats);
                None
            },
            StatsActions::ReloadCurrentPath => self.reload_current_path(stats),
            StatsActions::ReloadInputPath => self.reload_input_path(),
        }
    }

    /// Brings the page to rest, when it is left.
    pub fn clean_up(&mut self, stats: Option<&LocalLibraryStats>)
        ensures
            final(self)@ == page_at_rest(old(self)@, opt_stats(stats)),
    {
        self.state = StatsState::Normal;
        self.refresh_path_input(stats);
    }

    /// Takes a key: returns the action that it asks for, or types it into the
    /// path.
    pub fn handle_key_events(&mut self, key: KeyEvent) -> (r: Option<StatsActions>)
        ensures
            r == action_of(old(self)@, key),
            final(self)@ == typed(old(self)@, key),
    {
        if self.is_typing() {
            match key.code {
                KeyCode::Enter => Some(StatsActions::ReloadInputPath),
                KeyCode::Esc => Some(StatsActions::StopEditingPath),
                _ => {
                    self.library_path = self.library_path.handle(key);
                    None
                },
            }
        } else {
            match key.code {
                KeyCode::Char('e') => Some(StatsActions::EditPath),
                KeyCode::Char('r') => Some(StatsActions::ReloadCurrentPath),
                _ => None,
            }
        }
    }

    /// Takes the report of a finished reload, if there is one.
    pub fn tick(&mut self, event: Option<StatsEvents>)
        ensures
            final(self)@ == (match event {
                Some(event) => reloaded(old(self)@, event),
                None => old(self)@,
            }),
    {
        match event {
            Some(StatsEvents::Reloaded(Ok(stats))) => {
                self.library_path = TextInput::new(stats.library_path.text.clone());
                self.state = StatsState::Reloaded;
            },
            Some(StatsEvents::Reloaded(Err(message))) => {
                self.state = StatsState::Error(message);
            },
            None => {},
        }
    }
}

/// A frame with a title and lines; each line is a label and a value that stands
/// out.
#[derive(Debug)]
pub struct Panel {
    pub title: String,
    pub lines: Vec<(String, String)>,
}

pub open spec fn line_views(lines: Seq<(String, String)>) -> Seq<(Seq<char>, Seq<char>)> {
    Seq::new(lines.len(), |i: int| (lines[i].0@, lines[i].1@))
}

/// The lines of the summary.
pub open spec fn summary_lines(stats: StatsModel) -> Seq<(Seq<char>, Seq<char>)> {
    seq![
        ("Manga: "@, decimal(stats.manga_count)),
        ("Chapters: "@, decimal(stats.chapter_count)),
        ("Pages: "@, decimal(stats.page_count)),
        ("Library size: "@, readable_size(stats.total_bytes)),
    ]
}

/// The lines about the formats.
pub open spec fn format_lines(stats: StatsModel) -> Seq<(Seq<char>, Seq<char>)> {
    seq![
        ("Image folders: "@, decimal(stats.image_folder_count)),
        ("CBZ/ZIP: "@, decimal(stats.cbz_count)),
        ("CBR/RAR: "@, decimal(stats.cbr_count)),
        ("EPUB: "@, decimal(stats.epub_count)),
        ("Archives: "@, decimal(stats.cbz_count + stats.cbr_count + stats.epub_count)),
    ]
}

fn count_line(label: &str, count: usize) -> (r: (String, String))
    ensures
        r.0@ == label@,
        r.1@ == decimal(count as nat),
{
    (label.to_owned(), print_decimal(count as u64))
}

/// What the status line shows.
#[derive(Debug)]
pub enum StatusLine {
    /// A sign that something runs, with a label.
    Running(String),
    /// A message.
    Message(String),
    /// An error.
    Error(String),
}

impl StatsPage {
    /// The summary of the library.
    pub fn render_summary(&self, stats: Option<&LocalLibraryStats>) -> (r: Panel)
        ensures
            match stats {
                None => r.title@ == "Stats"@ && line_views(r.lines@) == seq![
                    ("Local stats unavailable"@, Seq::<char>::empty()),
                ],
                Some(stats) => r.title@ == "Local library"@ && line_views(r.lines@)
                    == summary_lines(stats@),
            },
    {
        let mut lines: Vec<(String, String)> = Vec::new();
        match stats {
            None => {
                lines.push(("Local stats unavailable".to_owned(), String::new()));
                assert(line_views(lines@) == seq![
                    ("Local stats unavailable"@, Seq::<char>::empty()),
                ]);
                Panel { title: "Stats".to_owned(), lines }
            },
            Some(stats) => {
                lines.push(count_line("Manga: ", stats.manga_count));
                lines.push(count_line("Chapters: ", stats.chapter_count));
                lines.push(count_line("Pages: ", stats.page_count));
                lines.push(("Library size: ".to_owned(), human_bytes(stats.total_bytes)));
                assert(line_views(lines@) == summary_lines(stats@));
                Panel { title: "Local library".to_owned(), lines }
            },
        }
    }

    /// The keys that can be pressed for the path, each after what it does.
    pub fn render_path(&self) -> (r: Vec<(String, String)>)
        ensures
            line_views(r@) == if self@.state is EditingPath {
                seq![("Reload "@, "<Enter>"@), (" cancel "@, "<Esc>"@)]
            } else {
                seq![("Edit path "@, "<e>"@), (" reload "@, "<r>"@)]
            },
    {
        let mut r: Vec<(String, String)> = Vec::new();
        if self.is_typing() {
            r.push(("Reload ".to_owned(), "<Enter>".to_owned()));
            r.push((" cancel ".to_owned(), "<Esc>".to_owned()));
            assert(line_views(r@) == seq![("Reload "@, "<Enter>"@), (" cancel "@, "<Esc>"@)]);
        } else {
            r.push(("Edit path ".to_owned(), "<e>".to_owned()));
            r.push((" reload ".to_owned(), "<r>".to_owned()));
            assert(line_views(r@) == seq![("Edit path "@, "<e>"@), (" reload "@, "<r>"@)]);
        }
        r
    }

    /// The formats of the library, and a note on its index where the totals
    /// are known.
    pub fn render_details(&self, stats: Option<&LocalLibraryStats>) -> (r: (Panel, Option<Panel>))
        requires
            stats matches Some(stats) ==> stats.cbz_count + stats.cbr_count + stats.epub_count
                <= usize::MAX,
        ensures
            r.0.title@ == "Formats"@,
            match stats {
                None => r.0.lines@.len() == 0 && r.1 is None,
                Some(stats) => {
                    &&& line_views(r.0.lines@) == format_lines(stats@)
                    &&& r.1 matches Some(note)
                    &&& note.title@ == "Index"@
                    &&& line_views(note.lines@) == seq![
                        (
                            "Archives are indexed without full extraction. Pages are read lazily when opened."@,
                            Seq::<char>::empty(),
                        ),
                    ]
                },
            },
    {
        let mut lines: Vec<(String, String)> = Vec::new();
        match stats {
            None => (Panel { title: "Formats".to_owned(), lines }, None),
            Some(stats) => {
                lines.push(count_line("Image folders: ", stats.image_folder_count));
                lines.push(count_line("CBZ/ZIP: ", stats.cbz_count));
                lines.push(count_line("CBR/RAR: ", stats.cbr_count));
                lines.push(count_line("EPUB: ", stats.epub_count));
                lines.push(count_line("Archives: ", stats.archive_count()));
                assert(line_views(lines@) == format_lines(stats@));
                let mut note: Vec<(String, String)> = Vec::new();
                note.push(
                    (
                        "Archives are indexed without full extraction. Pages are read lazily when opened.".to_owned(),
                        String::new(),
                    ),
                );
                assert(line_views(note@) == seq![
                    (
                        "Archives are indexed without full extraction. Pages are read lazily when opened."@,
                        Seq::<char>::empty(),
                    ),
                ]);
                (
                    Panel { title: "Formats".to_owned(), lines },
                    Some(Panel { title: "Index".to_owned(), lines: note }),
                )
            },
        }
    }

    /// The status line.
    pub fn render_status(&self) -> (r: StatusLine)
        ensures
            match self@.state {
                StatsStateModel::Reloading => r matches StatusLine::Running(label) && label@
                    == "Reloading local library"@,
                StatsStateModel::Reloaded => r matches StatusLine::Message(text) && text@
                    == "Library reloaded"@,
                StatsStateModel::Error(message) => r matches StatusLine::Error(text) && text@
                    == message,
                _ => r matches StatusLine::Message(text) && text@
                    == "Open manga from Library/Search. Change folders here without restarting."@,
            },
    {
        match &self.state {
            StatsState::Reloading => StatusLine::Running("Reloading local library".to_owned()),
            StatsState::Reloaded => StatusLine::Message("Library reloaded".to_owned()),
            StatsState::Error(message) => StatusLine::Error(message.clone()),
            _ => StatusLine::Message(
                "Open manga from Library/Search. Change folders here without restarting.".to_owned(),
            ),
        }
    }
}

/// Escape leaves the path as it was before it was edited, whatever was typed.
pub proof fn cancelled_edit_changes_no_path(
    page: StatsPageModel,
    stats: StatsModel,
    typed_path: InputModel,
    escape: KeyEvent,
)
    requires
        !(page.state is Reloading),
        escape.code == KeyCode::Esc,
    ensures
        ({
            let editing = acted(page, StatsActions::EditPath, Some(stats)).0;
            let changed = StatsPageModel { state: editing.state, library_path: typed_path };
            &&& action_of(changed, escape) == Some(StatsActions::StopEditingPath)
            &&& typed(changed, escape) == changed
            &&& acted(changed, StatsActions::StopEditingPath, Some(stats)) == (
                page_at_rest(page, Some(stats)),
                None::<PathModel>,
            )
        }),
{
}

/// While a reload runs, no action starts another one.
pub proof fn reloads_do_not_overlap(page: StatsPageModel, action: StatsActions, stats: Option<StatsModel>)
    requires
        page.state is Reloading,
    ensures
        acted(page, action, stats).1 is None,
{
}

} // verus!
