//! The state of the interactive command browser and how each key changes
//! it: moving through the command tree or the flat list, searching,
//! browsing the history, filling in arguments, and what the program is
//! asked to do next (quit, run a command line, read a source file).

use vstd::prelude::*;
use crate::ast::{ArgMap, Command, CommandV, ParameterV, assoc_get, assoc_insert, commands_view, lemma_commands_view};
use crate::browser::{
    command_line_spec, history_add_spec, next_spec, paths_view, previous_spec, resolve_words, search_spec, strs, words,
};
use crate::runtime::{find_path, first_named};
use crate::text::join;

verus! {

/// What keys are being typed into.
#[derive(Debug, Clone, Copy, PartialEq, Eq, Structural)]
pub enum InputMode {
    Normal,
    Editing,
    Search,
    EditingArg,
}

/// How the commands are listed.
#[derive(Debug, Clone, Copy, PartialEq, Eq, Structural)]
pub enum ViewMode {
    Tree,
    Flat,
    History,
}

/// The pane that arrow keys move in.
#[derive(Debug, Clone, Copy, PartialEq, Eq, Structural)]
pub enum Focus {
    CommandList,
    ArgumentList,
    History,
}

/// A key press.
#[derive(Debug, Clone, Copy, PartialEq, Eq, Structural)]
pub enum Key {
    Char(char),
    Enter,
    Esc,
    Tab,
    Up,
    Down,
    Left,
    Right,
    Backspace,
    Other,
}

/// What the program is asked to do after a key.
#[derive(Debug)]
pub enum BrowserAction {
    /// Nothing but drawing again.
    Redraw,
    /// Leave the browser.
    Quit,
    /// Run `nest` with this command line (the history already has it).
    Execute(String),
    /// Read this source file and hand its text to `source_loaded`.
    LoadSource(String),
}

/// The model of a `BrowserAction`.
pub enum ActionV {
    Redraw,
    Quit,
    Execute(Seq<char>),
    LoadSource(Seq<char>),
}

impl BrowserAction {
    pub open spec fn view(&self) -> ActionV {
        match self {
            BrowserAction::Redraw => ActionV::Redraw,
            BrowserAction::Quit => ActionV::Quit,
            BrowserAction::Execute(s) => ActionV::Execute(s@),
            BrowserAction::LoadSource(s) => ActionV::LoadSource(s@),
        }
    }
}

/// The model of the browser's state.
#[verifier::ext_equal]
pub struct BrowserV {
    pub mode: InputMode,
    pub view_mode: ViewMode,
    pub focus: Focus,
    pub input_buffer: Seq<char>,
    pub roots: Seq<CommandV>,
    pub flat: Seq<Seq<Seq<char>>>,
    pub breadcrumbs: Seq<Seq<char>>,
    pub selection_history: Seq<usize>,
    pub args: Seq<(Seq<char>, Seq<char>)>,
    pub show_source: bool,
    pub source_code: Option<Seq<char>>,
    pub search_query: Seq<char>,
    pub filtered: Seq<int>,
    pub history: Seq<Seq<char>>,
    pub history_selected: Option<usize>,
    pub selected: Option<usize>,
    pub arg_selected: Option<usize>,
    pub should_quit: bool,
}

/// The commands at the level that `crumbs` lead to; none where a name is
/// missing.
pub open spec fn level_spec(cs: Seq<CommandV>, crumbs: Seq<Seq<char>>) -> Seq<CommandV>
    decreases crumbs.len(),
{
    if crumbs.len() == 0 {
        cs
    } else {
        let i = first_named(cs, crumbs[0]);
        if 0 <= i < cs.len() {
            level_spec(cs[i].children, crumbs.drop_first())
        } else {
            Seq::empty()
        }
    }
}

/// The commands listed in the tree view.
pub open spec fn current_items(s: BrowserV) -> Seq<CommandV> {
    level_spec(s.roots, s.breadcrumbs)
}

/// The flat list as displayed: each path joined by spaces.
pub open spec fn display_paths(flat: Seq<Seq<Seq<char>>>) -> Seq<Seq<char>> {
    flat.map_values(|p: Seq<Seq<char>>| join(p, " "@))
}

/// The command under the selection: in the search results, the tree
/// level, the flat list, or named by the selected history line.
pub open spec fn selected_spec(s: BrowserV) -> Option<CommandV> {
    if s.search_query.len() > 0 {
        match s.selected {
            Some(i) => if i < s.filtered.len() && 0 <= s.filtered[i as int] < s.flat.len() {
                find_path(s.roots, s.flat[s.filtered[i as int]])
            } else {
                None
            },
            None => None,
        }
    } else {
        match s.view_mode {
            ViewMode::Tree => match s.selected {
                Some(i) => if i < current_items(s).len() {
                    Some(current_items(s)[i as int])
                } else {
                    None
                },
                None => None,
            },
            ViewMode::Flat => match s.selected {
                Some(i) => if i < s.flat.len() {
                    find_path(s.roots, s.flat[i as int])
                } else {
                    None
                },
                None => None,
            },
            ViewMode::History => match s.history_selected {
                Some(i) => if i < s.history.len() {
                    resolve_words(s.roots, words(s.history[i as int]), None)
                } else {
                    None
                },
                None => None,
            },
        }
    }
}

/// The number of entries in the command list.
pub open spec fn count_spec(s: BrowserV) -> int {
    if s.search_query.len() > 0 {
        s.filtered.len() as int
    } else {
        match s.view_mode {
            ViewMode::Tree => current_items(s).len() as int,
            ViewMode::Flat => s.flat.len() as int,
            ViewMode::History => 0,
        }
    }
}

/// The parameters of the selected command.
pub open spec fn args_of(s: BrowserV) -> Seq<ParameterV> {
    match selected_spec(s) {
        Some(c) => c.parameters,
        None => Seq::empty(),
    }
}

/// Moving down the command list (wrapping), which forgets the chosen
/// arguments; nothing in an empty list.
pub open spec fn next_state(s: BrowserV) -> BrowserV {
    let n = count_spec(s);
    if n == 0 {
        s
    } else {
        BrowserV { selected: next_spec(s.selected, n as usize), args: Seq::empty(), ..s }
    }
}

/// Moving up the command list (wrapping), which forgets the chosen
/// arguments; nothing in an empty list.
pub open spec fn previous_state(s: BrowserV) -> BrowserV {
    let n = count_spec(s);
    if n == 0 {
        s
    } else {
        BrowserV { selected: previous_spec(s.selected, n as usize), args: Seq::empty(), ..s }
    }
}

/// The search results for the query (none for an empty query), with the
/// first selected where there is one.
pub open spec fn search_state(s: BrowserV) -> BrowserV {
    let f = if s.search_query.len() == 0 {
        Seq::empty()
    } else {
        search_spec(display_paths(s.flat), s.search_query)
    };
    BrowserV {
        filtered: f,
        selected: if f.len() > 0 {
            Some(0usize)
        } else {
            None
        },
        ..s
    }
}

/// The command line rebuilt for the selected command and the chosen
/// arguments; unchanged without a selected command.
pub open spec fn buffer_state(s: BrowserV) -> BrowserV {
    match selected_spec(s) {
        Some(c) => BrowserV {
            input_buffer: command_line_spec(s.breadcrumbs, c, s.args, s.view_mode == ViewMode::History),
            ..s
        },
        None => s,
    }
}

/// Moving down the arguments (wrapping); nothing without arguments.
pub open spec fn next_arg_state(s: BrowserV) -> BrowserV {
    let n = args_of(s).len();
    if n == 0 {
        s
    } else {
        BrowserV { arg_selected: next_spec(s.arg_selected, n as usize), ..s }
    }
}

/// Moving up the arguments (wrapping); nothing without arguments.
pub open spec fn previous_arg_state(s: BrowserV) -> BrowserV {
    let n = args_of(s).len();
    if n == 0 {
        s
    } else {
        BrowserV { arg_selected: previous_spec(s.arg_selected, n as usize), ..s }
    }
}

/// Switching between the tree and the flat list (from the history to the
/// tree), back to the first entry and the command list.
pub open spec fn toggle_state(s: BrowserV) -> BrowserV {
    BrowserV {
        view_mode: match s.view_mode {
            ViewMode::Tree => ViewMode::Flat,
            ViewMode::Flat => ViewMode::Tree,
            ViewMode::History => ViewMode::Tree,
        },
        selected: Some(0usize),
        arg_selected: None,
        focus: Focus::CommandList,
        ..s
    }
}

/// Going into the group `name`, remembering where the selection was.
pub open spec fn descend_state(s: BrowserV, name: Seq<char>) -> BrowserV {
    BrowserV {
        breadcrumbs: s.breadcrumbs.push(name),
        selection_history: s.selection_history.push(
            match s.selected {
                Some(i) => i,
                None => 0usize,
            },
        ),
        selected: Some(0usize),
        ..s
    }
}

/// The first history line selected where none is and there are lines.
pub open spec fn history_first(s: BrowserV) -> Option<usize> {
    if s.history_selected is None && s.history.len() > 0 {
        Some(0usize)
    } else {
        s.history_selected
    }
}

/// Moving down the history (wrapping); nothing in an empty history.
pub open spec fn history_next(s: BrowserV) -> BrowserV {
    if s.history.len() == 0 {
        s
    } else {
        BrowserV { history_selected: next_spec(s.history_selected, s.history.len() as usize), ..s }
    }
}

/// Moving up the history (wrapping); nothing in an empty history.
pub open spec fn history_previous(s: BrowserV) -> BrowserV {
    if s.history.len() == 0 {
        s
    } else {
        BrowserV { history_selected: previous_spec(s.history_selected, s.history.len() as usize), ..s }
    }
}

/// The notice for a command that has no source file.
pub open spec fn no_source_text() -> Seq<char> {
    "No source file information available."@
}

/// Showing or hiding the source pane; on showing, the selected command's
/// source file is to be read, or a notice where it has none.
pub open spec fn source_state(s: BrowserV) -> (BrowserV, ActionV) {
    let s1 = BrowserV { show_source: !s.show_source, ..s };
    if s1.show_source {
        match selected_spec(s) {
            Some(c) => match c.source_file {
                Some(p) => (s1, ActionV::LoadSource(p)),
                None => (BrowserV { source_code: Some(no_source_text()), ..s1 }, ActionV::Redraw),
            },
            None => (s1, ActionV::Redraw),
        }
    } else {
        (s1, ActionV::Redraw)
    }
}

/// The command line of the selected command without its arguments.
pub open spec fn head_line(crumbs: Seq<Seq<char>>, name: Seq<char>) -> Seq<char> {
    let p = join(crumbs, " "@);
    if p.len() > 0 {
        p + " "@ + name
    } else {
        name
    }
}

/// Running a command line: it goes first in the history.
pub open spec fn run_state(s: BrowserV, line: Seq<char>) -> (BrowserV, ActionV) {
    (BrowserV { history: history_add_spec(s.history, line), ..s }, ActionV::Execute(line))
}

/// A key in the normal mode.
pub open spec fn normal_key(s: BrowserV, k: Key) -> (BrowserV, ActionV) {
    match k {
        Key::Char('q') | Key::Esc => (BrowserV { should_quit: true, ..s }, ActionV::Quit),
        Key::Tab => match s.focus {
            Focus::CommandList => (
                BrowserV { focus: Focus::History, history_selected: history_first(s), ..s },
                ActionV::Redraw,
            ),
            Focus::History => (
                buffer_state(
                    BrowserV {
                        focus: Focus::ArgumentList,
                        arg_selected: if s.arg_selected is None && args_of(s).len() > 0 {
                            Some(0usize)
                        } else {
                            s.arg_selected
                        },
                        ..s
                    },
                ),
                ActionV::Redraw,
            ),
            Focus::ArgumentList => (BrowserV { focus: Focus::CommandList, ..s }, ActionV::Redraw),
        },
        Key::Right => if s.view_mode == ViewMode::Tree {
            match selected_spec(s) {
                Some(c) => if c.children.len() > 0 {
                    (BrowserV { args: Seq::empty(), ..descend_state(s, c.name) }, ActionV::Redraw)
                } else {
                    (buffer_state(BrowserV { focus: Focus::ArgumentList, ..s }), ActionV::Redraw)
                },
                None => (s, ActionV::Redraw),
            }
        } else {
            (BrowserV { focus: Focus::ArgumentList, ..s }, ActionV::Redraw)
        },
        Key::Left | Key::Backspace => match s.focus {
            Focus::CommandList => if s.view_mode == ViewMode::Tree && s.breadcrumbs.len() > 0 {
                (
                    BrowserV {
                        breadcrumbs: s.breadcrumbs.drop_last(),
                        selection_history: if s.selection_history.len() > 0 {
                            s.selection_history.drop_last()
                        } else {
                            s.selection_history
                        },
                        selected: Some(
                            if s.selection_history.len() > 0 {
                                s.selection_history.last()
                            } else {
                                0usize
                            },
                        ),
                        args: Seq::empty(),
                        ..s
                    },
                    ActionV::Redraw,
                )
            } else {
                (s, ActionV::Redraw)
            },
            _ => (BrowserV { focus: Focus::CommandList, ..s }, ActionV::Redraw),
        },
        Key::Char('v') => (toggle_state(s), ActionV::Redraw),
        Key::Char('h') => if s.view_mode == ViewMode::History {
            (BrowserV { view_mode: ViewMode::Tree, focus: Focus::CommandList, ..s }, ActionV::Redraw)
        } else {
            (
                BrowserV {
                    view_mode: ViewMode::History,
                    focus: Focus::History,
                    history_selected: history_first(s),
                    ..s
                },
                ActionV::Redraw,
            )
        },
        Key::Char('/') => (
            search_state(BrowserV { mode: InputMode::Search, search_query: Seq::empty(), ..s }),
            ActionV::Redraw,
        ),
        Key::Char('d') => source_state(s),
        Key::Down => match s.focus {
            Focus::CommandList => (BrowserV { arg_selected: None, ..next_state(s) }, ActionV::Redraw),
            Focus::History => (history_next(s), ActionV::Redraw),
            Focus::ArgumentList => (next_arg_state(s), ActionV::Redraw),
        },
        Key::Up => match s.focus {
            Focus::CommandList => (BrowserV { arg_selected: None, ..previous_state(s) }, ActionV::Redraw),
            Focus::History => (history_previous(s), ActionV::Redraw),
            Focus::ArgumentList => (previous_arg_state(s), ActionV::Redraw),
        },
        Key::Char('e') => match selected_spec(s) {
            Some(c) => (
                BrowserV { input_buffer: head_line(s.breadcrumbs, c.name), mode: InputMode::Editing, ..s },
                ActionV::Redraw,
            ),
            None => if s.focus == Focus::History {
                match s.history_selected {
                    Some(i) => if i < s.history.len() {
                        (
                            BrowserV { input_buffer: s.history[i as int], mode: InputMode::Editing, ..s },
                            ActionV::Redraw,
                        )
                    } else {
                        (s, ActionV::Redraw)
                    },
                    None => (s, ActionV::Redraw),
                }
            } else {
                (s, ActionV::Redraw)
            },
        },
        Key::Enter => match s.focus {
            Focus::CommandList => match selected_spec(s) {
                Some(c) => if c.children.len() > 0 {
                    (descend_state(s, c.name), ActionV::Redraw)
                } else {
                    let s1 = buffer_state(s);
                    run_state(s1, s1.input_buffer)
                },
                None => (s, ActionV::Redraw),
            },
            Focus::History => match s.history_selected {
                Some(i) => if i < s.history.len() {
                    run_state(s, s.history[i as int])
                } else {
                    (s, ActionV::Redraw)
                },
                None => (s, ActionV::Redraw),
            },
            Focus::ArgumentList => {
                let ps = args_of(s);
                match s.arg_selected {
                    Some(i) => if i < ps.len() {
                        let p = ps[i as int];
                        if p.param_type == "bool"@ {
                            let cur = match assoc_get(s.args, p.name) {
                                Some(v) => v,
                                None => "false"@,
                            };
                            let nv = if cur == "true"@ {
                                "false"@
                            } else {
                                "true"@
                            };
                            (buffer_state(BrowserV { args: assoc_insert(s.args, p.name, nv), ..s }), ActionV::Redraw)
                        } else {
                            (
                                BrowserV {
                                    input_buffer: match assoc_get(s.args, p.name) {
                                        Some(v) => v,
                                        None => Seq::empty(),
                                    },
                                    mode: InputMode::EditingArg,
                                    ..s
                                },
                                ActionV::Redraw,
                            )
                        }
                    } else {
                        (s, ActionV::Redraw)
                    },
                    None => (s, ActionV::Redraw),
                }
            },
        },
        _ => (s, ActionV::Redraw),
    }
}

/// A key while searching.
pub open spec fn search_key(s: BrowserV, k: Key) -> (BrowserV, ActionV) {
    match k {
        Key::Enter => (
            BrowserV {
                mode: InputMode::Normal,
                view_mode: ViewMode::Flat,
                focus: Focus::CommandList,
                args: Seq::empty(),
                ..s
            },
            ActionV::Redraw,
        ),
        Key::Esc => (
            BrowserV { mode: InputMode::Normal, search_query: Seq::empty(), filtered: Seq::empty(), ..s },
            ActionV::Redraw,
        ),
        Key::Backspace => (
            search_state(
                BrowserV {
                    search_query: if s.search_query.len() > 0 {
                        s.search_query.drop_last()
                    } else {
                        s.search_query
                    },
                    ..s
                },
            ),
            ActionV::Redraw,
        ),
        Key::Char(c) => (search_state(BrowserV { search_query: s.search_query.push(c), ..s }), ActionV::Redraw),
        _ => (s, ActionV::Redraw),
    }
}

/// Typing into the input line (of a command line or of an argument).
pub open spec fn typing(s: BrowserV, k: Key) -> BrowserV {
    match k {
        Key::Char(c) => BrowserV { input_buffer: s.input_buffer.push(c), ..s },
        Key::Backspace => BrowserV {
            input_buffer: if s.input_buffer.len() > 0 {
                s.input_buffer.drop_last()
            } else {
                s.input_buffer
            },
            ..s
        },
        _ => s,
    }
}

/// A key while a command line is edited.
pub open spec fn edit_key(s: BrowserV, k: Key) -> (BrowserV, ActionV) {
    match k {
        Key::Enter => run_state(BrowserV { mode: InputMode::Normal, ..s }, s.input_buffer),
        Key::Esc => (BrowserV { mode: InputMode::Normal, ..s }, ActionV::Redraw),
        _ => (typing(s, k), ActionV::Redraw),
    }
}

/// A key while an argument's value is edited.
pub open spec fn edit_arg_key(s: BrowserV, k: Key) -> (BrowserV, ActionV) {
    match k {
        Key::Enter => {
            let ps = args_of(s);
            let s1 = match s.arg_selected {
                Some(i) => if i < ps.len() {
                    BrowserV { args: assoc_insert(s.args, ps[i as int].name, s.input_buffer), ..s }
                } else {
                    s
                },
                None => s,
            };
            (buffer_state(BrowserV { mode: InputMode::Normal, ..s1 }), ActionV::Redraw)
        },
        Key::Esc => (buffer_state(BrowserV { mode: InputMode::Normal, ..s }), ActionV::Redraw),
        _ => (typing(s, k), ActionV::Redraw),
    }
}

/// The source pane after the source file's text was read: the part that
/// shows the selected command's definition.
pub open spec fn loaded_state(s: BrowserV, content: Seq<char>) -> BrowserV {
    match selected_spec(s) {
        Some(c) => BrowserV { source_code: Some(crate::browser::excerpt_spec(content, c.name)), ..s },
        None => s,
    }
}

/// The browser as it starts: the tree view at the top level with the first
/// command selected, and the history read from its file.
pub open spec fn initial_spec(roots: Seq<CommandV>, history: Seq<Seq<char>>) -> BrowserV {
    BrowserV {
        mode: InputMode::Normal,
        view_mode: ViewMode::Tree,
        focus: Focus::CommandList,
        input_buffer: Seq::empty(),
        roots,
        flat: crate::browser::flat_spec(roots, Seq::empty()),
        breadcrumbs: Seq::empty(),
        selection_history: Seq::empty(),
        args: Seq::empty(),
        show_source: false,
        source_code: None,
        search_query: Seq::empty(),
        filtered: Seq::empty(),
        history,
        history_selected: None,
        selected: if roots.len() > 0 {
            Some(0usize)
        } else {
            None
        },
        arg_selected: None,
        should_quit: false,
    }
}

/// What a key does in the current mode.
pub open spec fn key_spec(s: BrowserV, k: Key) -> (BrowserV, ActionV) {
    match s.mode {
        InputMode::Normal => normal_key(s, k),
        InputMode::Search => search_key(s, k),
        InputMode::Editing => edit_key(s, k),
        InputMode::EditingArg => edit_arg_key(s, k),
    }
}

/// The browser's state.
pub struct Browser {
    pub mode: InputMode,
    pub view_mode: ViewMode,
    pub focus: Focus,
    pub input_buffer: Vec<char>,
    pub root_commands: Vec<Command>,
    pub flat_commands: Vec<Vec<String>>,
    pub breadcrumbs: Vec<String>,
    pub selection_history: Vec<usize>,
    pub args_map: ArgMap,
    pub show_source: bool,
    pub source_code: Option<String>,
    pub search_query: Vec<char>,
    pub filtered_commands: Vec<usize>,
    pub history: Vec<String>,
    pub history_selected: Option<usize>,
    pub selected: Option<usize>,
    pub arg_selected: Option<usize>,
    pub should_quit: bool,
}

/// The commands at the level that `crumbs` lead to (see `level_spec`).
fn level_at<'a>(cs: &'a Vec<Command>, crumbs: &Vec<String>) -> (r: Option<&'a Vec<Command>>)
    ensures
        match r {
            Some(l) => commands_view(l@) == level_spec(commands_view(cs@), strs(crumbs@)),
            None => level_spec(commands_view(cs@), strs(crumbs@)) == Seq::<CommandV>::empty(),
        },
{
    let ghost cv = strs(crumbs@);
    let mut level: &'a Vec<Command> = cs;
    let mut i: usize = 0;
    assert(cv.skip(0) =~= cv);
    while i < crumbs.len()
        invariant
            i <= crumbs@.len(),
            cv == strs(crumbs@),
            level_spec(commands_view(cs@), cv) == level_spec(commands_view(level@), cv.skip(i as int)),
        decreases crumbs.len() - i,
    {
        assert(cv.skip(i as int)[0] == cv[i as int]);
        assert(cv.skip(i as int).drop_first() =~= cv.skip(i + 1));
        match crate::runtime::position_of(level, &crumbs[i]) {
            Some(k) => {
                proof {
                    lemma_commands_view(level@);
                }
                level = &level[k].children;
            },
            None => {
                return None;
            },
        }
        i += 1;
    }
    assert(cv.skip(i as int) =~= Seq::<Seq<char>>::empty());
    Some(level)
}

/// The flat list as displayed (see `display_paths`).
fn display_strings(flat: &Vec<Vec<String>>) -> (r: Vec<String>)
    ensures
        strs(r@) == display_paths(paths_view(flat@)),
{
    let ghost fv = paths_view(flat@);
    let mut out: Vec<String> = Vec::new();
    let mut i: usize = 0;
    while i < flat.len()
        invariant
            i <= flat@.len(),
            fv == paths_view(flat@),
            strs(out@) == display_paths(fv.take(i as int)),
        decreases flat.len() - i,
    {
        let ghost before = strs(out@);
        let d = crate::text::string_of(&crate::runtime::join_strings_vec(&flat[i], " "));
        out.push(d);
        assert(fv[i as int] == flat@[i as int]@.map_values(|x: String| x@));
        assert(strs(out@) =~= before.push(join(fv[i as int], " "@)));
        assert(display_paths(fv.take(i + 1)) =~= display_paths(fv.take(i as int)).push(join(fv[i as int], " "@)));
        i += 1;
    }
    assert(fv.take(flat@.len() as int) =~= fv);
    out
}

impl Browser {
    /// The model of the state.
    pub open spec fn view(&self) -> BrowserV {
        BrowserV {
            mode: self.mode,
            view_mode: self.view_mode,
            focus: self.focus,
            input_buffer: self.input_buffer@,
            roots: commands_view(self.root_commands@),
            flat: paths_view(self.flat_commands@),
            breadcrumbs: strs(self.breadcrumbs@),
            selection_history: self.selection_history@,
            args: self.args_map.entries_view(),
            show_source: self.show_source,
            source_code: crate::ast::opt_view(self.source_code),
            search_query: self.search_query@,
            filtered: self.filtered_commands@.map_values(|i: usize| i as int),
            history: strs(self.history@),
            history_selected: self.history_selected,
            selected: self.selected,
            arg_selected: self.arg_selected,
            should_quit: self.should_quit,
        }
    }

    /// The browser as it starts (see `initial_spec`).
    pub fn new(commands: Vec<Command>, history: Vec<String>) -> (b: Browser)
        ensures
            b@ == initial_spec(commands_view(commands@), strs(history@)),
    {
        let flat = crate::browser::flat_paths(&commands);
        let selected = if commands.len() > 0 {
            Some(0)
        } else {
            None
        };
        let b = Browser {
            mode: InputMode::Normal,
            view_mode: ViewMode::Tree,
            focus: Focus::CommandList,
            input_buffer: Vec::new(),
            root_commands: commands,
            flat_commands: flat,
            breadcrumbs: Vec::new(),
            selection_history: Vec::new(),
            args_map: ArgMap::new(),
            show_source: false,
            source_code: None,
            search_query: Vec::new(),
            filtered_commands: Vec::new(),
            history,
            history_selected: None,
            selected,
            arg_selected: None,
            should_quit: false,
        };
        proof {
            lemma_commands_view(commands@);
        }
        assert(b@ =~= initial_spec(commands_view(commands@), strs(history@)));
        b
    }

    /// The commands listed in the tree view (see `current_items`).
    pub fn current_items(&self) -> (r: &[Command])
        ensures
            commands_view(r@) == current_items(self@),
    {
        match level_at(&self.root_commands, &self.breadcrumbs) {
            Some(l) => l.as_slice(),
            None => {
                let e: &[Command] = &[];
                assert(commands_view(e@) =~= Seq::<CommandV>::empty());
                e
            },
        }
    }

    /// The command under the selection (see `selected_spec`).
    pub fn selected_command(&self) -> (r: Option<&Command>)
        ensures
            match r {
                Some(c) => selected_spec(self@) == Some(c@),
                None => selected_spec(self@) is None,
            },
    {
        let ghost s = self@;
        let r = if self.search_query.len() > 0 {
            match self.selected {
                Some(i) => {
                    if i < self.filtered_commands.len() && self.filtered_commands[i] < self.flat_commands.len() {
                        let j = self.filtered_commands[i];
                        assert(s.filtered[i as int] == j as int);
                        assert(s.flat[j as int] == self.flat_commands@[j as int]@.map_values(|x: String| x@));
                        let r = crate::runtime::find_command_in(&self.root_commands, &self.flat_commands[j]);
                        assert(r matches Some(c) ==> selected_spec(s) == Some(c@));
                        r
                    } else {
                        None
                    }
                },
                None => None,
            }
        } else {
            match self.view_mode {
                ViewMode::Tree => match self.selected {
                    Some(i) => match level_at(&self.root_commands, &self.breadcrumbs) {
                        Some(l) => {
                            proof {
                                lemma_commands_view(l@);
                            }
                            if i < l.len() {
                                assert(current_items(s) == commands_view(l@));
                                let c: &Command = &l[i];
                                assert(c@ == l@[i as int]@);
                                assert(selected_spec(s) == Some(c@));
                                Some(c)
                            } else {
                                None
                            }
                        },
                        None => None,
                    },
                    None => None,
                },
                ViewMode::Flat => match self.selected {
                    Some(i) => {
                        if i < self.flat_commands.len() {
                            assert(s.flat[i as int] == self.flat_commands@[i as int]@.map_values(|x: String| x@));
                            let r = crate::runtime::find_command_in(&self.root_commands, &self.flat_commands[i]);
                            assert(r matches Some(c) ==> selected_spec(s) == Some(c@));
                            r
                        } else {
                            None
                        }
                    },
                    None => None,
                },
                ViewMode::History => match self.history_selected {
                    Some(i) => {
                        if i < self.history.len() {
                            assert(s.history[i as int] == self.history@[i as int]@);
                            let r = crate::browser::resolve_command_from_string(&self.root_commands, self.history[i].as_str());
                            assert(r matches Some(c) ==> selected_spec(s) == Some(c@));
                            r
                        } else {
                            None
                        }
                    },
                    None => None,
                },
            }
        };
        assert(r matches Some(c) ==> selected_spec(s) == Some(c@));
        assert(r is None ==> selected_spec(s) is None);
        r
    }

    /// The number of entries in the command list (see `count_spec`).
    pub fn count(&self) -> (n: usize)
        ensures
            n as int == count_spec(self@),
    {
        if self.search_query.len() > 0 {
            self.filtered_commands.len()
        } else {
            match self.view_mode {
                ViewMode::Tree => {
                    let items = self.current_items();
                    proof {
                        lemma_commands_view(items@);
                    }
                    items.len()
                },
                ViewMode::Flat => self.flat_commands.len(),
                ViewMode::History => 0,
            }
        }
    }

    /// The number of parameters of the selected command.
    pub fn args_len(&self) -> (n: usize)
        ensures
            n == args_of(self@).len(),
    {
        match self.selected_command() {
            Some(c) => c.parameters.len(),
            None => 0,
        }
    }
}

impl Browser {
    /// Moves down the command list (see `next_state`).
    pub fn next(&mut self)
        ensures
            final(self)@ == next_state(old(self)@),
    {
        let n = self.count();
        if n == 0 {
            return;
        }
        self.selected = crate::browser::select_next(self.selected, n);
        self.args_map = ArgMap::new();
        assert(self@ =~= next_state(old(self)@));
    }

    /// Moves up the command list (see `previous_state`).
    pub fn previous(&mut self)
        ensures
            final(self)@ == previous_state(old(self)@),
    {
        let n = self.count();
        if n == 0 {
            return;
        }
        self.selected = crate::browser::select_previous(self.selected, n);
        self.args_map = ArgMap::new();
        assert(self@ =~= previous_state(old(self)@));
    }

    /// Recomputes the search results (see `search_state`).
    pub fn update_search(&mut self)
        ensures
            final(self)@ == search_state(old(self)@),
    {
        let ghost s = self@;
        if self.search_query.len() == 0 {
            self.filtered_commands = Vec::new();
            assert(self.filtered_commands@.map_values(|i: usize| i as int) =~= Seq::<int>::empty());
        } else {
            let display = display_strings(&self.flat_commands);
            let q = crate::text::string_of(&self.search_query);
            self.filtered_commands = crate::browser::search(&display, q.as_str());
        }
        self.selected = if self.filtered_commands.len() > 0 {
            Some(0)
        } else {
            None
        };
        assert(self@ =~= search_state(s));
    }

    /// Rebuilds the command line (see `buffer_state`).
    pub fn update_input_buffer(&mut self)
        ensures
            final(self)@ == buffer_state(old(self)@),
    {
        let ghost s = self@;
        let line = match self.selected_command() {
            Some(c) => Some(
                crate::browser::command_line(&self.breadcrumbs, c, &self.args_map, self.view_mode == ViewMode::History),
            ),
            None => None,
        };
        match line {
            Some(l) => {
                self.input_buffer = crate::text::chars_of_string(&l);
                assert(self@ =~= buffer_state(s));
            },
            None => {},
        }
    }

    /// Moves down the arguments (see `next_arg_state`).
    pub fn next_arg(&mut self)
        ensures
            final(self)@ == next_arg_state(old(self)@),
    {
        let n = self.args_len();
        if n == 0 {
            return;
        }
        self.arg_selected = crate::browser::select_next(self.arg_selected, n);
        assert(self@ =~= next_arg_state(old(self)@));
    }

    /// Moves up the arguments (see `previous_arg_state`).
    pub fn previous_arg(&mut self)
        ensures
            final(self)@ == previous_arg_state(old(self)@),
    {
        let n = self.args_len();
        if n == 0 {
            return;
        }
        self.arg_selected = crate::browser::select_previous(self.arg_selected, n);
        assert(self@ =~= previous_arg_state(old(self)@));
    }

    /// Switches between the tree and the flat list (see `toggle_state`).
    pub fn toggle_view(&mut self)
        ensures
            final(self)@ == toggle_state(old(self)@),
    {
        self.view_mode = match self.view_mode {
            ViewMode::Tree => ViewMode::Flat,
            ViewMode::Flat => ViewMode::Tree,
            ViewMode::History => ViewMode::Tree,
        };
        self.selected = Some(0);
        self.arg_selected = None;
        self.focus = Focus::CommandList;
        assert(self@ =~= toggle_state(old(self)@));
    }

    /// Moves down the history (see `history_next`).
    pub fn history_down(&mut self)
        ensures
            final(self)@ == history_next(old(self)@),
    {
        if self.history.len() == 0 {
            return;
        }
        self.history_selected = crate::browser::select_next(self.history_selected, self.history.len());
        assert(self@ =~= history_next(old(self)@));
    }

    /// Moves up the history (see `history_previous`).
    pub fn history_up(&mut self)
        ensures
            final(self)@ == history_previous(old(self)@),
    {
        if self.history.len() == 0 {
            return;
        }
        self.history_selected = crate::browser::select_previous(self.history_selected, self.history.len());
        assert(self@ =~= history_previous(old(self)@));
    }

    /// Records a command line in the history and asks for it to run (see
    /// `run_state`).
    pub fn run_line(&mut self, line: String) -> (a: BrowserAction)
        ensures
            final(self)@ == run_state(old(self)@, line@).0,
            a@ == run_state(old(self)@, line@).1,
    {
        crate::browser::add_history(&mut self.history, line.clone());
        assert(self@ =~= run_state(old(self)@, line@).0);
        BrowserAction::Execute(line)
    }

    /// Shows the part of the source file's text `content` that defines the
    /// selected command (see `loaded_state`).
    pub fn source_loaded(&mut self, content: &str)
        ensures
            final(self)@ == loaded_state(old(self)@, content@),
    {
        let ghost s = self@;
        let text = match self.selected_command() {
            Some(c) => Some(crate::browser::source_excerpt(content, c.name.as_str())),
            None => None,
        };
        match text {
            Some(t) => {
                self.source_code = Some(t);
                assert(self@ =~= loaded_state(s, content@));
            },
            None => {},
        }
    }
}

impl Browser {
    fn key_tab(&mut self)
        ensures
            final(self)@ == normal_key(old(self)@, Key::Tab).0,
    {
        let ghost s = self@;
        match self.focus {
            Focus::CommandList => {
                self.focus = Focus::History;
                if self.history_selected.is_none() && self.history.len() > 0 {
                    self.history_selected = Some(0);
                }
                assert(self@ =~= normal_key(s, Key::Tab).0);
            },
            Focus::History => {
                let n = self.args_len();
                self.focus = Focus::ArgumentList;
                if self.arg_selected.is_none() && n > 0 {
                    self.arg_selected = Some(0);
                }
                assert(self@ =~= BrowserV {
                    focus: Focus::ArgumentList,
                    arg_selected: if s.arg_selected is None && args_of(s).len() > 0 {
                        Some(0usize)
                    } else {
                        s.arg_selected
                    },
                    ..s
                });
                self.update_input_buffer();
            },
            Focus::ArgumentList => {
                self.focus = Focus::CommandList;
                assert(self@ =~= normal_key(s, Key::Tab).0);
            },
        }
    }

    fn key_right(&mut self)
        ensures
            final(self)@ == normal_key(old(self)@, Key::Right).0,
    {
        let ghost s = self@;
        if self.view_mode == ViewMode::Tree {
            let info = match self.selected_command() {
                Some(c) => Some((c.children.len() > 0, c.name.clone())),
                None => None,
            };
            match info {
                Some(pair) => {
                    let (has_kids, name) = pair;
                    if has_kids {
                        self.breadcrumbs.push(name);
                        let back = match self.selected {
                            Some(i) => i,
                            None => 0,
                        };
                        self.selection_history.push(back);
                        self.selected = Some(0);
                        self.args_map = ArgMap::new();
                        assert(self@ =~= normal_key(s, Key::Right).0);
                    } else {
                        self.focus = Focus::ArgumentList;
                        assert(self@ =~= BrowserV { focus: Focus::ArgumentList, ..s });
                        self.update_input_buffer();
                    }
                },
                None => {},
            }
        } else {
            self.focus = Focus::ArgumentList;
            assert(self@ =~= normal_key(s, Key::Right).0);
        }
    }

    fn key_left(&mut self)
        ensures
            final(self)@ == normal_key(old(self)@, Key::Left).0,
    {
        let ghost s = self@;
        match self.focus {
            Focus::CommandList => {
                if self.view_mode == ViewMode::Tree && self.breadcrumbs.len() > 0 {
                    self.breadcrumbs.pop();
                    let back = self.selection_history.pop();
                    self.selected = Some(
                        match back {
                            Some(p) => p,
                            None => 0,
                        },
                    );
                    self.args_map = ArgMap::new();
                    assert(strs(self.breadcrumbs@) =~= s.breadcrumbs.drop_last());
                    assert(self@ =~= normal_key(s, Key::Left).0);
                }
            },
            _ => {
                self.focus = Focus::CommandList;
                assert(self@ =~= normal_key(s, Key::Left).0);
            },
        }
    }

    fn key_h(&mut self)
        ensures
            final(self)@ == normal_key(old(self)@, Key::Char('h')).0,
    {
        let ghost s = self@;
        if self.view_mode == ViewMode::History {
            self.view_mode = ViewMode::Tree;
            self.focus = Focus::CommandList;
        } else {
            self.view_mode = ViewMode::History;
            self.focus = Focus::History;
            if self.history_selected.is_none() && self.history.len() > 0 {
                self.history_selected = Some(0);
            }
        }
        assert(self@ =~= normal_key(s, Key::Char('h')).0);
    }

    fn key_d(&mut self) -> (a: BrowserAction)
        ensures
            final(self)@ == normal_key(old(self)@, Key::Char('d')).0,
            a@ == normal_key(old(self)@, Key::Char('d')).1,
    {
        let ghost s = self@;
        let src = match self.selected_command() {
            Some(c) => Some(
                match &c.source_file {
                    Some(p) => Some(p.clone()),
                    None => None,
                },
            ),
            None => None,
        };
        self.show_source = !self.show_source;
        if self.show_source {
            match src {
                Some(Some(p)) => {
                    assert(self@ =~= normal_key(s, Key::Char('d')).0);
                    return BrowserAction::LoadSource(p);
                },
                Some(None) => {
                    self.source_code = Some(String::from_str("No source file information available."));
                },
                None => {},
            }
        }
        assert(self@ =~= normal_key(s, Key::Char('d')).0);
        BrowserAction::Redraw
    }

    fn key_e(&mut self)
        ensures
            final(self)@ == normal_key(old(self)@, Key::Char('e')).0,
    {
        let ghost s = self@;
        let name = match self.selected_command() {
            Some(c) => Some(c.name.clone()),
            None => None,
        };
        match name {
            Some(n) => {
                let mut line = crate::runtime::join_strings_vec(&self.breadcrumbs, " ");
                proof {
                    reveal_strlit(" ");
                }
                if line.len() > 0 {
                    line.push(' ');
                }
                crate::text::push_all(&mut line, &crate::text::chars_of_string(&n));
                self.input_buffer = line;
                self.mode = InputMode::Editing;
                assert(self@ =~= normal_key(s, Key::Char('e')).0);
            },
            None => {
                if self.focus == Focus::History {
                    match self.history_selected {
                        Some(i) => {
                            if i < self.history.len() {
                                self.input_buffer = crate::text::chars_of_string(&self.history[i]);
                                self.mode = InputMode::Editing;
                                assert(self@ =~= normal_key(s, Key::Char('e')).0);
                            }
                        },
                        None => {},
                    }
                }
            },
        }
    }

    fn enter_argument(&mut self)
        requires
            old(self).focus == Focus::ArgumentList,
        ensures
            final(self)@ == normal_key(old(self)@, Key::Enter).0,
    {
        let ghost s = self@;
        let n = self.args_len();
        match self.arg_selected {
            Some(i) => {
                if i < n {
                    let param = match self.selected_command() {
                        Some(c) => {
                            let p = &c.parameters[i];
                            assert(c@.parameters[i as int] == p@);
                            Some(
                                (
                                    p.name.clone(),
                                    crate::text::eq(
                                        &crate::text::chars_of_string(&p.param_type),
                                        &crate::text::chars_of("bool"),
                                    ),
                                ),
                            )
                        },
                        None => None,
                    };
                    match param {
                        Some(pair) => {
                            let (name, is_bool) = pair;
                            if is_bool {
                                let cur = match self.args_map.get(name.as_str()) {
                                    Some(v) => crate::text::chars_of_string(v),
                                    None => crate::text::chars_of("false"),
                                };
                                let nv = if crate::text::eq(&cur, &crate::text::chars_of("true")) {
                                    String::from_str("false")
                                } else {
                                    String::from_str("true")
                                };
                                self.args_map.insert(name, nv);
                                let ghost p = args_of(s)[i as int];
                                assert(self@ =~= BrowserV {
                                    args: assoc_insert(
                                        s.args,
                                        p.name,
                                        if (match assoc_get(s.args, p.name) {
                                            Some(v) => v,
                                            None => "false"@,
                                        }) == "true"@ {
                                            "false"@
                                        } else {
                                            "true"@
                                        },
                                    ),
                                    ..s
                                });
                                self.update_input_buffer();
                            } else {
                                self.input_buffer = match self.args_map.get(name.as_str()) {
                                    Some(v) => crate::text::chars_of_string(v),
                                    None => Vec::new(),
                                };
                                self.mode = InputMode::EditingArg;
                                assert(self@ =~= normal_key(s, Key::Enter).0);
                            }
                        },
                        None => {},
                    }
                }
            },
            None => {},
        }
    }

    fn key_enter(&mut self) -> (a: BrowserAction)
        ensures
            final(self)@ == normal_key(old(self)@, Key::Enter).0,
            a@ == normal_key(old(self)@, Key::Enter).1,
    {
        let ghost s = self@;
        match self.focus {
            Focus::CommandList => {
                let info = match self.selected_command() {
                    Some(c) => Some((c.children.len() > 0, c.name.clone())),
                    None => None,
                };
                match info {
                    Some(pair) => {
                        let (has_kids, name) = pair;
                        if has_kids {
                            self.breadcrumbs.push(name);
                            let back = match self.selected {
                                Some(i) => i,
                                None => 0,
                            };
                            self.selection_history.push(back);
                            self.selected = Some(0);
                            assert(self@ =~= normal_key(s, Key::Enter).0);
                            BrowserAction::Redraw
                        } else {
                            self.update_input_buffer();
                            let line = crate::text::string_of(&self.input_buffer);
                            self.run_line(line)
                        }
                    },
                    None => BrowserAction::Redraw,
                }
            },
            Focus::History => {
                match self.history_selected {
                    Some(i) => {
                        if i < self.history.len() {
                            let line = self.history[i].clone();
                            assert(line@ == s.history[i as int]);
                            self.run_line(line)
                        } else {
                            BrowserAction::Redraw
                        }
                    },
                    None => BrowserAction::Redraw,
                }
            },
            Focus::ArgumentList => {
                self.enter_argument();
                BrowserAction::Redraw
            },
        }
    }

    fn normal(&mut self, k: Key) -> (a: BrowserAction)
        ensures
            final(self)@ == normal_key(old(self)@, k).0,
            a@ == normal_key(old(self)@, k).1,
    {
        let ghost s = self@;
        match k {
            Key::Char('q') | Key::Esc => {
                self.should_quit = true;
                assert(self@ =~= normal_key(s, k).0);
                BrowserAction::Quit
            },
            Key::Tab => {
                self.key_tab();
                BrowserAction::Redraw
            },
            Key::Right => {
                self.key_right();
                BrowserAction::Redraw
            },
            Key::Left | Key::Backspace => {
                self.key_left();
                BrowserAction::Redraw
            },
            Key::Char('v') => {
                self.toggle_view();
                BrowserAction::Redraw
            },
            Key::Char('h') => {
                self.key_h();
                BrowserAction::Redraw
            },
            Key::Char('/') => {
                self.mode = InputMode::Search;
                self.search_query = Vec::new();
                assert(self@ =~= BrowserV { mode: InputMode::Search, search_query: Seq::empty(), ..s });
                self.update_search();
                BrowserAction::Redraw
            },
            Key::Char('d') => self.key_d(),
            Key::Down => {
                match self.focus {
                    Focus::CommandList => {
                        self.next();
                        self.arg_selected = None;
                        assert(self@ =~= normal_key(s, k).0);
                    },
                    Focus::History => self.history_down(),
                    Focus::ArgumentList => self.next_arg(),
                }
                BrowserAction::Redraw
            },
            Key::Up => {
                match self.focus {
                    Focus::CommandList => {
                        self.previous();
                        self.arg_selected = None;
                        assert(self@ =~= normal_key(s, k).0);
                    },
                    Focus::History => self.history_up(),
                    Focus::ArgumentList => self.previous_arg(),
                }
                BrowserAction::Redraw
            },
            Key::Char('e') => {
                self.key_e();
                BrowserAction::Redraw
            },
            Key::Enter => self.key_enter(),
            _ => BrowserAction::Redraw,
        }
    }

    fn type_key(&mut self, k: Key)
        ensures
            final(self)@ == typing(old(self)@, k),
    {
        let ghost s = self@;
        match k {
            Key::Char(c) => {
                self.input_buffer.push(c);
            },
            Key::Backspace => {
                self.input_buffer.pop();
            },
            _ => {},
        }
        assert(self@ =~= typing(s, k));
    }

    fn search(&mut self, k: Key)
        ensures
            final(self)@ == search_key(old(self)@, k).0,
    {
        let ghost s = self@;
        match k {
            Key::Enter => {
                self.mode = InputMode::Normal;
                self.view_mode = ViewMode::Flat;
                self.focus = Focus::CommandList;
                self.args_map = ArgMap::new();
                assert(self@ =~= search_key(s, k).0);
            },
            Key::Esc => {
                self.mode = InputMode::Normal;
                self.search_query = Vec::new();
                self.filtered_commands = Vec::new();
                assert(self@ =~= search_key(s, k).0);
            },
            Key::Backspace => {
                self.search_query.pop();
                assert(self@ =~= BrowserV {
                    search_query: if s.search_query.len() > 0 {
                        s.search_query.drop_last()
                    } else {
                        s.search_query
                    },
                    ..s
                });
                self.update_search();
            },
            Key::Char(c) => {
                self.search_query.push(c);
                assert(self@ =~= BrowserV { search_query: s.search_query.push(c), ..s });
                self.update_search();
            },
            _ => {},
        }
    }

    fn edit(&mut self, k: Key) -> (a: BrowserAction)
        ensures
            final(self)@ == edit_key(old(self)@, k).0,
            a@ == edit_key(old(self)@, k).1,
    {
        let ghost s = self@;
        match k {
            Key::Enter => {
                self.mode = InputMode::Normal;
                let line = crate::text::string_of(&self.input_buffer);
                self.run_line(line)
            },
            Key::Esc => {
                self.mode = InputMode::Normal;
                assert(self@ =~= edit_key(s, k).0);
                BrowserAction::Redraw
            },
            _ => {
                self.type_key(k);
                BrowserAction::Redraw
            },
        }
    }

    fn edit_arg(&mut self, k: Key)
        ensures
            final(self)@ == edit_arg_key(old(self)@, k).0,
    {
        let ghost s = self@;
        match k {
            Key::Enter => {
                let n = self.args_len();
                match self.arg_selected {
                    Some(i) => {
                        if i < n {
                            let name = match self.selected_command() {
                                Some(c) => {
                                    assert(c@.parameters[i as int] == c.parameters@[i as int]@);
                                    Some(c.parameters[i].name.clone())
                                },
                                None => None,
                            };
                            match name {
                                Some(nm) => {
                                    let v = crate::text::string_of(&self.input_buffer);
                                    self.args_map.insert(nm, v);
                                },
                                None => {},
                            }
                        }
                    },
                    None => {},
                }
                self.mode = InputMode::Normal;
                let ghost ps = args_of(s);
                assert(self@ =~= BrowserV {
                    mode: InputMode::Normal,
                    ..match s.arg_selected {
                        Some(i) => if i < ps.len() {
                            BrowserV { args: assoc_insert(s.args, ps[i as int].name, s.input_buffer), ..s }
                        } else {
                            s
                        },
                        None => s,
                    }
                });
                self.update_input_buffer();
            },
            Key::Esc => {
                self.mode = InputMode::Normal;
                assert(self@ =~= BrowserV { mode: InputMode::Normal, ..s });
                self.update_input_buffer();
            },
            _ => {
                self.type_key(k);
            },
        }
    }

    /// What a key does (see `key_spec`).
    pub fn handle_key(&mut self, k: Key) -> (a: BrowserAction)
        ensures
            final(self)@ == key_spec(old(self)@, k).0,
            a@ == key_spec(old(self)@, k).1,
    {
        match self.mode {
            InputMode::Normal => self.normal(k),
            InputMode::Search => {
                self.search(k);
                BrowserAction::Redraw
            },
            InputMode::Editing => self.edit(k),
            InputMode::EditingArg => {
                self.edit_arg(k);
                BrowserAction::Redraw
            },
        }
    }
}

} // verus!
