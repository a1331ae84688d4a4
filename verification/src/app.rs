//! The picker's state and how it answers key presses.
use vstd::prelude::*;
use vstd::utf8::is_ascii_chars;
use crate::help_cache::HelpCache;
use crate::paths::path_components;
use crate::matching::{char_views, is_match_list, sorted_matches};
use crate::text::{ascii_lower, has_prefix, lex_le, lowercase, lowercase_chars, occurs_at, pop_char, push_char};
use crate::matching::{key_le, rank};

verus! {

/// An executable found on `PATH`: its file name and its full path.
#[derive(Clone, Debug, PartialEq, Eq)]
pub struct CommandEntry {
    pub name: String,
    pub path: String,
}

/// The key that was pressed, as far as the picker tells keys apart.
#[derive(Clone, Copy, Debug, PartialEq, Eq)]
pub enum KeyCode {
    Backspace,
    Enter,
    Up,
    Down,
    Esc,
    Char(char),
    /// Any other key; the picker ignores it.
    Other,
}

/// The modifier keys held with a key, as far as the picker reads them.
#[derive(Clone, Copy, Debug, PartialEq, Eq)]
pub struct KeyModifiers {
    pub control: bool,
    pub alt: bool,
}

/// Whether a key went down, repeated, or came up.
#[derive(Clone, Copy, Debug, PartialEq, Eq)]
pub enum KeyEventKind {
    Press,
    Repeat,
    Release,
}

/// One key event.
#[derive(Clone, Copy, Debug, PartialEq, Eq)]
pub struct KeyEvent {
    pub code: KeyCode,
    pub modifiers: KeyModifiers,
    pub kind: KeyEventKind,
}

impl KeyModifiers {
    /// No modifier held.
    pub fn none() -> (r: Self)
        ensures
            !r.control && !r.alt,
    {
        KeyModifiers { control: false, alt: false }
    }

    /// Control held.
    pub fn control() -> (r: Self)
        ensures
            r.control && !r.alt,
    {
        KeyModifiers { control: true, alt: false }
    }

    /// Alt held.
    pub fn alt() -> (r: Self)
        ensures
            !r.control && r.alt,
    {
        KeyModifiers { control: false, alt: true }
    }
}

impl KeyEvent {
    /// A key press.
    pub fn new(code: KeyCode, modifiers: KeyModifiers) -> (r: Self)
        ensures
            r == (KeyEvent { code, modifiers, kind: KeyEventKind::Press }),
    {
        KeyEvent { code, modifiers, kind: KeyEventKind::Press }
    }
}

/// The contents of an optional string.
pub open spec fn opt_view(o: Option<String>) -> Option<Seq<char>> {
    match o {
        Some(s) => Some(s@),
        None => None,
    }
}

/// What the picker holds, as mathematical values.
pub struct AppView {
    pub query: Seq<char>,
    pub should_exit: bool,
    pub commands: Seq<CommandEntry>,
    pub matches: Seq<usize>,
    pub selected: int,
    pub selection: Option<Seq<char>>,
    pub help: Map<Seq<Seq<char>>, Seq<char>>,
}

/// The lower-cased names of the commands.
pub open spec fn lowered_names(commands: Seq<CommandEntry>) -> Seq<Seq<char>> {
    commands.map_values(|c: CommandEntry| lowercase(c.name@))
}

impl AppView {
    /// The matches are those of the query, and the selection is on one of them
    /// (or at 0 when there is none); the lower-cased query of an ASCII query is
    /// its ASCII lower case.
    pub open spec fn well_formed(self) -> bool {
        &&& is_match_list(lowered_names(self.commands), lowercase(self.query), self.matches)
        &&& (is_ascii_chars(self.query) ==> lowercase(self.query) == ascii_lower(self.query))
        &&& 0 <= self.selected
        &&& (self.selected == 0 || self.selected < self.matches.len())
    }

    /// The highlighted command, if any.
    pub open spec fn selected_entry(self) -> Option<CommandEntry> {
        if 0 <= self.selected < self.matches.len() {
            Some(self.commands[self.matches[self.selected] as int])
        } else {
            None
        }
    }

    /// The cached help of the highlighted command, if any.
    pub open spec fn selected_help(self) -> Option<Seq<char>> {
        match self.selected_entry() {
            Some(c) => if self.help.contains_key(path_components(c.path@)) {
                Some(self.help[path_components(c.path@)])
            } else {
                None
            },
            None => None,
        }
    }

    /// The path whose help should be fetched: that of the highlighted command,
    /// when no help is cached for it.
    pub open spec fn help_request(self) -> Option<Seq<char>> {
        match self.selected_entry() {
            Some(c) => if self.help.contains_key(path_components(c.path@)) {
                None
            } else {
                Some(c.path@)
            },
            None => None,
        }
    }

    /// `post` is `self` with the query set to `query`, the matches recomputed
    /// for it and the selection back on the first match.
    pub open spec fn requeried(self, query: Seq<char>, post: AppView) -> bool {
        &&& post.query == query
        &&& post.selected == 0
        &&& post.should_exit == self.should_exit
        &&& post.commands == self.commands
        &&& post.selection == self.selection
        &&& post.help == self.help
        &&& post.well_formed()
    }
}

/// How a key event changes the picker.
pub open spec fn key_step(pre: AppView, key: KeyEvent, post: AppView) -> bool {
    match key.kind {
        KeyEventKind::Press => match key.code {
            KeyCode::Esc => post == AppView { should_exit: true, ..pre },
            KeyCode::Enter => {
                let sel = match pre.selected_entry() {
                    Some(c) => Some(c.name@),
                    None => None,
                };
                post == AppView { selection: sel, should_exit: sel is Some, ..pre }
            },
            KeyCode::Char(c) => if c == 'c' && key.modifiers.control {
                post == AppView { should_exit: true, ..pre }
            } else if !key.modifiers.control && !key.modifiers.alt {
                pre.requeried(pre.query.push(c), post)
            } else {
                post == pre
            },
            KeyCode::Backspace => pre.requeried(
                if pre.query.len() > 0 {
                    pre.query.drop_last()
                } else {
                    pre.query
                },
                post,
            ),
            KeyCode::Up => post == AppView {
                selected: if pre.selected > 0 {
                    pre.selected - 1
                } else {
                    0
                },
                ..pre
            },
            KeyCode::Down => post == AppView {
                selected: if pre.selected + 1 < pre.matches.len() {
                    pre.selected + 1
                } else {
                    pre.selected
                },
                ..pre
            },
            KeyCode::Other => post == pre,
        },
        _ => post == pre,
    }
}

/// What `handle_key` answers: the help to fetch, when the picker goes on and
/// the event was a press.
pub open spec fn key_response(key: KeyEvent, post: AppView) -> Option<Seq<char>> {
    if key.kind == KeyEventKind::Press && !post.should_exit {
        post.help_request()
    } else {
        None
    }
}

/// The interactive picker: a query, the commands that match it, the
/// highlighted match, and the help texts fetched so far.
pub struct App {
    query: String,
    should_exit: bool,
    commands: Vec<CommandEntry>,
    matches: Vec<usize>,
    selected: usize,
    selection: Option<String>,
    help_cache: HelpCache,
}

impl View for App {
    type V = AppView;

    closed spec fn view(&self) -> AppView {
        AppView {
            query: self.query@,
            should_exit: self.should_exit,
            commands: self.commands@,
            matches: self.matches@,
            selected: self.selected as int,
            selection: opt_view(self.selection),
            help: self.help_cache@,
        }
    }
}

impl App {
    /// The picker's invariant.
    pub closed spec fn wf(&self) -> bool {
        self@.well_formed() && self.help_cache.wf()
    }

    /// The picker's invariant gives the well-formedness of its view.
    pub proof fn lemma_well_formed(&self)
        requires
            self.wf(),
        ensures
            self@.well_formed(),
    {
    }

    /// A picker over `commands`, with an empty query: every command matches,
    /// listed in the order of the lower-cased names.
    pub fn new(commands: Vec<CommandEntry>) -> (r: Self)
        ensures
            r.wf(),
            r@.well_formed(),
            forall|i: usize| i < commands@.len() ==> #[trigger] r@.matches.contains(i),
            forall|a: int, b: int|
                0 <= a < b < r@.matches.len() ==> lex_le(
                    #[trigger] lowered_names(commands@)[r@.matches[a] as int],
                    #[trigger] lowered_names(commands@)[r@.matches[b] as int],
                ),
            r@.query == Seq::<char>::empty(),
            !r@.should_exit,
            r@.commands == commands@,
            r@.selected == 0,
            r@.selection is None,
            r@.help == Map::<Seq<Seq<char>>, Seq<char>>::empty(),
    {
        let mut app = App {
            query: String::new(),
            should_exit: false,
            commands,
            matches: Vec::new(),
            selected: 0,
            selection: None,
            help_cache: HelpCache::new(),
        };
        app.refresh();
        proof {
            let names = lowered_names(app@.commands);
            let q = lowercase(app@.query);
            assert(is_ascii_chars(app@.query));
            assert(q =~= Seq::<char>::empty());
            assert forall|i: usize| i < names.len() implies #[trigger] app@.matches.contains(i) by {
                assert(names[i as int].subrange(0, 0) =~= q);
                assert(occurs_at(names[i as int], q, 0));
            }
            assert forall|a: int, b: int| 0 <= a < b < app@.matches.len() implies lex_le(
                #[trigger] names[app@.matches[a] as int],
                #[trigger] names[app@.matches[b] as int],
            ) by {
                let x = names[app@.matches[a] as int];
                let y = names[app@.matches[b] as int];
                assert(key_le(x, y, q));
                assert(x.subrange(0, 0) =~= q);
                assert(y.subrange(0, 0) =~= q);
                assert(has_prefix(x, q) && has_prefix(y, q));
                if rank(x, q) == 0 {
                    assert(x.len() == 0);
                }
            }
        }
        app
    }

    /// The highlighted command, if any.
    pub fn selected_command(&self) -> (r: Option<&CommandEntry>)
        requires
            self.wf(),
        ensures
            match r {
                Some(c) => self@.selected_entry() == Some(*c),
                None => self@.selected_entry() is None,
            },
    {
        if self.selected < self.matches.len() {
            let index = self.matches[self.selected];
            Some(&self.commands[index])
        } else {
            None
        }
    }

    /// The cached help of the highlighted command, if any.
    pub fn selected_help(&self) -> (r: Option<&str>)
        requires
            self.wf(),
        ensures
            match r {
                Some(h) => self@.selected_help() == Some(h@),
                None => self@.selected_help() is None,
            },
    {
        match self.selected_command() {
            Some(command) => match self.help_cache.get(&command.path) {
                Some(help) => Some(help.as_str()),
                None => None,
            },
            None => None,
        }
    }

    /// Remembers `help` as the help text of the command at `path`.
    pub fn cache_help(&mut self, path: String, help: String)
        requires
            old(self).wf(),
        ensures
            final(self).wf(),
            final(self)@.well_formed(),
            final(self)@ == (AppView { help: old(self)@.help.insert(path_components(path@), help@), ..old(self)@ }),
    {
        self.help_cache.insert(path, help);
    }

    /// The path of the highlighted command when its help is not cached yet.
    pub fn help_request(&self) -> (r: Option<String>)
        requires
            self.wf(),
        ensures
            opt_view(r) == self@.help_request(),
    {
        match self.selected_command() {
            Some(command) => {
                if self.help_cache.contains_key(&command.path) {
                    None
                } else {
                    Some(command.path.clone())
                }
            },
            None => None,
        }
    }

    /// Applies one key event. Returns the path whose help should be fetched
    /// next, if any.
    pub fn handle_key(&mut self, key: KeyEvent) -> (r: Option<String>)
        requires
            old(self).wf(),
        ensures
            final(self).wf(),
            final(self)@.well_formed(),
            key_step(old(self)@, key, final(self)@),
            opt_view(r) == key_response(key, final(self)@),
    {
        match key.kind {
            KeyEventKind::Press => {},
            _ => return None,
        }
        match key.code {
            KeyCode::Esc => self.should_exit = true,
            KeyCode::Enter => {
                self.selection = match self.selected_command() {
                    Some(command) => Some(command.name.clone()),
                    None => None,
                };
                self.should_exit = self.selection.is_some();
            },
            KeyCode::Char(character) => {
                if character == 'c' && key.modifiers.control {
                    self.should_exit = true;
                } else if !key.modifiers.control && !key.modifiers.alt {
                    push_char(&mut self.query, character);
                    self.refresh();
                }
            },
            KeyCode::Backspace => {
                pop_char(&mut self.query);
                self.refresh();
            },
            KeyCode::Up => {
                if self.selected > 0 {
                    self.selected = self.selected - 1;
                }
            },
            KeyCode::Down => {
                let count = self.matches.len();
                if self.selected + 1 < count {
                    self.selected = self.selected + 1;
                }
            },
            KeyCode::Other => {},
        }
        if !self.should_exit {
            self.help_request()
        } else {
            None
        }
    }

    /// Recomputes the matches of the current query and puts the selection on
    /// the first one.
    pub fn refresh_matches(&mut self)
        requires
            old(self).wf(),
        ensures
            final(self).wf(),
            final(self)@.well_formed(),
            old(self)@.requeried(old(self)@.query, final(self)@),
    {
        self.refresh();
    }

    fn refresh(&mut self)
        requires
            old(self).help_cache.wf(),
        ensures
            final(self).wf(),
            old(self)@.requeried(old(self)@.query, final(self)@),
    {
        let query = lowercase_chars(self.query.as_str());
        let mut names: Vec<Vec<char>> = Vec::new();
        let mut i: usize = 0;
        while i < self.commands.len()
            invariant
                i <= self.commands.len(),
                names@.len() == i,
                forall|j: int| 0 <= j < i ==> #[trigger] names@[j]@ == lowercase(self.commands@[j].name@),
            decreases self.commands.len() - i,
        {
            names.push(lowercase_chars(self.commands[i].name.as_str()));
            i += 1;
        }
        assert(char_views(names@) =~= lowered_names(self.commands@));
        self.matches = sorted_matches(&names, &query);
        self.selected = 0;
    }

    /// The query typed so far.
    pub fn query(&self) -> (r: &str)
        ensures
            r@ == self@.query,
    {
        self.query.as_str()
    }

    /// Whether the picker is done.
    pub fn should_exit(&self) -> (r: bool)
        ensures
            r == self@.should_exit,
    {
        self.should_exit
    }

    /// All commands the picker was given.
    pub fn commands(&self) -> (r: &Vec<CommandEntry>)
        ensures
            r@ == self@.commands,
    {
        &self.commands
    }

    /// The indices of the matching commands, in listing order.
    pub fn matches(&self) -> (r: &Vec<usize>)
        ensures
            r@ == self@.matches,
    {
        &self.matches
    }

    /// The position of the highlighted match.
    pub fn selected(&self) -> (r: usize)
        ensures
            r == self@.selected,
    {
        self.selected
    }

    /// The name chosen with Enter, if any.
    pub fn selection(&self) -> (r: Option<&str>)
        ensures
            match r {
                Some(s) => self@.selection == Some(s@),
                None => self@.selection is None,
            },
    {
        match &self.selection {
            Some(s) => Some(s.as_str()),
            None => None,
        }
    }
}

impl Default for App {
    /// A picker with no commands.
    fn default() -> (r: Self)
        ensures
            r.wf(),
            r@.well_formed(),
            r@.query == Seq::<char>::empty(),
            !r@.should_exit,
            r@.commands == Seq::<CommandEntry>::empty(),
            r@.matches == Seq::<usize>::empty(),
            r@.selected == 0,
            r@.selection is None,
            r@.help == Map::<Seq<Seq<char>>, Seq<char>>::empty(),
    {
        let r = App::new(Vec::new());
        proof {
            if r@.matches.len() > 0 {
                assert((r@.matches[0] as int) < r@.commands.len());
            }
        }
        r
    }
}

} // verus!
