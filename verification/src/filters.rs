//! The filter panel of the search page, which for a local library holds no
//! filters and can only be opened and closed.
use crate::keys::{KeyCode, KeyEvent};
use vstd::prelude::*;

verus! {

#[derive(Clone, Debug)]
pub struct LocalFiltersProvider {
    is_open: bool,
}

impl Default for LocalFiltersProvider {
    fn default() -> (r: Self)
        ensures
            !r.opened(),
    {
        LocalFiltersProvider { is_open: false }
    }
}

impl LocalFiltersProvider {
    /// Whether the panel is open.
    pub closed spec fn opened(&self) -> bool {
        self.is_open
    }

    /// A closed panel.
    pub fn new() -> (r: LocalFiltersProvider)
        ensures
            !r.opened(),
    {
        LocalFiltersProvider { is_open: false }
    }

    /// Escape and `f` open or close the panel; other keys do nothing.
    pub fn handle_events(&mut self, key: KeyEvent)
        ensures
            final(self).opened() == if key.code == KeyCode::Esc || key.code == KeyCode::Char('f') {
                !old(self).opened()
            } else {
                old(self).opened()
            },
    {
        match key.code {
            KeyCode::Esc | KeyCode::Char('f') => self.toggle(),
            _ => {},
        }
    }

    pub fn toggle(&mut self)
        ensures
            final(self).opened() == !old(self).opened(),
    {
        self.is_open = !self.is_open;
    }

    pub fn is_open(&self) -> (r: bool)
        ensures
            r == self.opened(),
    {
        self.is_open
    }

    /// There is nothing to type into.
    pub fn is_typing(&self) -> (r: bool)
        ensures
            !r,
    {
        false
    }
}

/// The panel's content: a hint how to close it.
#[derive(Clone, Debug)]
pub struct LocalFilterWidget {}

impl LocalFilterWidget {
    pub fn new() -> (r: LocalFilterWidget)
        ensures
            r == (LocalFilterWidget {  }),
    {
        LocalFilterWidget {  }
    }

    /// The title of the panel and the text in it.
    pub fn render(&self) -> (r: (String, String))
        ensures
            r.0@ == "Local filters"@,
            r.1@
                == "Local library search has no provider filters. Press <Esc> or <f> to close."@,
    {
        (
            "Local filters".to_owned(),
            "Local library search has no provider filters. Press <Esc> or <f> to close.".to_owned(),
        )
    }
}

} // verus!
