//! The viewer's state between two paints of the screen, and the steps that
//! change it: the arrival of a new snapshot and the commands of the keyboard.

use crate::diff::{added_pids, changed_pids, diff_procs, lemma_unchanged_is_same, removed_pids};
use crate::process::{snapshot_view, well_formed, Process, ProcessView};
use crate::render::{build_tree_lines, rendered};
use crate::text::without_line_breaks;
use crate::tree::{build_tree, is_tree_of, tree_view};
use crate::viewport::{
    back, clamp_scroll, clamped, forward, max_scroll, max_scroll_of, scroll_back, scroll_forward,
};
use crate::widget::{new_scrollbar, scrollbar_at, scrollbar_position, shown};
use ratatui::text::Line;
use ratatui::widgets::ScrollbarState;
use std::collections::HashMap;
use vstd::prelude::*;

verus! {

/// The time between two snapshots, in milliseconds.
pub const TICK_MILLIS: u64 = 1000;

/// How long one iteration waits for a key, in milliseconds.
pub const POLL_MILLIS: u64 = 50;

/// Whether the time since the last snapshot calls for a new one.
pub fn tick_due(elapsed_millis: u128) -> (due: bool)
    ensures
        due == (elapsed_millis >= TICK_MILLIS),
{
    elapsed_millis >= 1000
}

/// A key of the keyboard, as far as the viewer tells keys apart.
#[derive(Clone, Copy, Debug, PartialEq, Eq, Structural)]
pub enum Key {
    Char(char),
    Esc,
    Up,
    Down,
    Left,
    Right,
    /// Any other key.
    Other,
}

/// What a key asks of the viewer.
#[derive(Clone, Copy, Debug, PartialEq, Eq, Structural)]
pub enum Command {
    Quit,
    ScrollDown,
    ScrollUp,
    ScrollLeft,
    ScrollRight,
}

/// Whether the viewer goes on after a step.
#[derive(Clone, Copy, Debug, PartialEq, Eq, Structural)]
pub enum Flow {
    Continue,
    Quit,
}

/// The command bound to a key, none for a key without binding.
pub open spec fn command_of(key: Key) -> Option<Command> {
    match key {
        Key::Esc => Some(Command::Quit),
        Key::Down => Some(Command::ScrollDown),
        Key::Up => Some(Command::ScrollUp),
        Key::Left => Some(Command::ScrollLeft),
        Key::Right => Some(Command::ScrollRight),
        Key::Char(c) => if c == 'q' || c == 'Q' {
            Some(Command::Quit)
        } else if c == 'j' {
            Some(Command::ScrollDown)
        } else if c == 'k' {
            Some(Command::ScrollUp)
        } else if c == 'h' {
            Some(Command::ScrollLeft)
        } else if c == 'l' {
            Some(Command::ScrollRight)
        } else {
            None
        },
        Key::Other => None,
    }
}

/// The command bound to a key.
pub fn command_for(key: Key) -> (command: Option<Command>)
    ensures
        command == command_of(key),
{
    match key {
        Key::Esc | Key::Char('q') | Key::Char('Q') => Some(Command::Quit),
        Key::Down | Key::Char('j') => Some(Command::ScrollDown),
        Key::Up | Key::Char('k') => Some(Command::ScrollUp),
        Key::Left | Key::Char('h') => Some(Command::ScrollLeft),
        Key::Right | Key::Char('l') => Some(Command::ScrollRight),
        _ => None,
    }
}

/// The viewer's state.
pub struct App {
    pub vertical_scroll_state: ScrollbarState,
    pub horizontal_scroll_state: ScrollbarState,
    pub vertical_scroll: usize,
    pub horizontal_scroll: usize,
    /// The snapshot on show.
    pub procs: HashMap<u32, Process>,
    /// The tree of that snapshot.
    pub tree: HashMap<u32, Vec<u32>>,
    /// The lines of that tree.
    pub lines: Vec<Line<'static>>,
}

/// What the viewer's state holds.
#[verifier::ext_equal]
pub struct AppView {
    /// Where the vertical scrollbar stands.
    pub vertical_bar: nat,
    /// Where the horizontal scrollbar stands.
    pub horizontal_bar: nat,
    pub vertical_scroll: nat,
    pub horizontal_scroll: nat,
    pub snapshot: Map<u32, ProcessView>,
    pub tree: Map<u32, Seq<u32>>,
    pub lines: Seq<Seq<char>>,
}

impl View for App {
    type V = AppView;

    open spec fn view(&self) -> AppView {
        AppView {
            vertical_bar: scrollbar_position(self.vertical_scroll_state) as nat,
            horizontal_bar: scrollbar_position(self.horizontal_scroll_state) as nat,
            vertical_scroll: self.vertical_scroll as nat,
            horizontal_scroll: self.horizontal_scroll as nat,
            snapshot: snapshot_view(self.procs@),
            tree: tree_view(self.tree@),
            lines: shown(self.lines@),
        }
    }
}

/// The lines on show for a tree and its snapshot.
pub open spec fn lines_on_show(tree: Map<u32, Seq<u32>>, snapshot: Map<u32, ProcessView>) -> Seq<
    Seq<char>,
> {
    rendered(tree, snapshot).map_values(|text: Seq<char>| without_line_breaks(text))
}

impl AppView {
    /// The state at startup: no process, no line, both offsets at 0.
    pub open spec fn at_start() -> AppView {
        AppView {
            vertical_bar: 0,
            horizontal_bar: 0,
            vertical_scroll: 0,
            horizontal_scroll: 0,
            snapshot: Map::empty(),
            tree: Map::empty(),
            lines: Seq::empty(),
        }
    }

    /// The state hangs together: tree and lines are those of the snapshot,
    /// both offsets lie within the lines, and each scrollbar stands where its
    /// offset does.
    pub open spec fn is_coherent(self) -> bool {
        &&& well_formed(self.snapshot)
        &&& is_tree_of(self.tree, self.snapshot)
        &&& self.lines == lines_on_show(self.tree, self.snapshot)
        &&& self.vertical_scroll <= max_scroll(self.lines.len())
        &&& self.horizontal_scroll <= max_scroll(self.lines.len())
        &&& self.vertical_bar == self.vertical_scroll
        &&& self.horizontal_bar == self.horizontal_scroll
    }

    /// The state with its vertical offset, and the scrollbar, moved.
    pub open spec fn with_vertical(self, offset: nat) -> AppView {
        AppView { vertical_scroll: offset, vertical_bar: offset, ..self }
    }

    /// The state with its horizontal offset, and the scrollbar, moved.
    pub open spec fn with_horizontal(self, offset: nat) -> AppView {
        AppView { horizontal_scroll: offset, horizontal_bar: offset, ..self }
    }

    /// Whether `self` is what taking in `snapshot` makes of the state `before`.
    ///
    /// A snapshot that is the one on show leaves the state alone. Any other
    /// one is put on show, with its tree and its lines, and both offsets are
    /// brought back within the lines.
    pub open spec fn is_refresh_of(self, before: AppView, snapshot: Map<u32, ProcessView>) -> bool {
        if before.snapshot == snapshot {
            self == before
        } else {
            &&& self.is_coherent()
            &&& self.snapshot == snapshot
            &&& self.vertical_scroll == clamped(before.vertical_scroll, self.lines.len())
            &&& self.horizontal_scroll == clamped(before.horizontal_scroll, self.lines.len())
        }
    }

    /// The state after a command.
    pub open spec fn after(self, command: Command) -> AppView {
        let count = self.lines.len();
        match command {
            Command::Quit => self,
            Command::ScrollDown => self.with_vertical(forward(self.vertical_scroll, count)),
            Command::ScrollUp => self.with_vertical(back(self.vertical_scroll, count)),
            Command::ScrollRight => self.with_horizontal(forward(self.horizontal_scroll, count)),
            Command::ScrollLeft => self.with_horizontal(back(self.horizontal_scroll, count)),
        }
    }
}

/// A snapshot that is taken in twice changes the state the first time at
/// most: the second time nothing is built and nothing is drawn.
pub proof fn lemma_second_refresh_changes_nothing(
    start: AppView,
    once: AppView,
    twice: AppView,
    snapshot: Map<u32, ProcessView>,
)
    requires
        once.is_refresh_of(start, snapshot),
        twice.is_refresh_of(once, snapshot),
    ensures
        once.snapshot == snapshot,
        twice == once,
{
}

/// The low 16 bits of an offset, as the screen takes it.
fn low_bits(offset: usize) -> (low: u16)
    ensures
        low == offset % 0x1_0000,
{
    (offset % 0x1_0000) as u16
}

impl App {
    /// The state hangs together; see [`AppView::is_coherent`].
    pub open spec fn inv(&self) -> bool {
        self@.is_coherent()
    }

    /// The state at startup: no process, no line, both offsets at 0.
    pub fn new() -> (app: App)
        ensures
            app.inv(),
            app@ == AppView::at_start(),
    {
        let app = App {
            vertical_scroll_state: new_scrollbar(),
            horizontal_scroll_state: new_scrollbar(),
            vertical_scroll: 0,
            horizontal_scroll: 0,
            procs: HashMap::new(),
            tree: HashMap::new(),
            lines: Vec::new(),
        };
        proof {
            assert(app@.lines =~= Seq::<Seq<char>>::empty());
            assert(lines_on_show(app@.tree, app@.snapshot) =~= Seq::<Seq<char>>::empty());
        }
        app
    }

    /// The largest offset that the lines on show allow.
    pub fn max_scroll(&self) -> (max: usize)
        ensures
            max == max_scroll(self@.lines.len()),
    {
        max_scroll_of(self.lines.len())
    }

    /// The two offsets as the screen takes them: the vertical one first, each
    /// cut to its low 16 bits.
    pub fn scroll_offsets(&self) -> (offsets: (u16, u16))
        ensures
            offsets.0 == self@.vertical_scroll % 0x1_0000,
            offsets.1 == self@.horizontal_scroll % 0x1_0000,
    {
        (low_bits(self.vertical_scroll), low_bits(self.horizontal_scroll))
    }

    /// Puts a snapshot on show: builds its tree, draws its lines, and brings
    /// both offsets back within them.
    pub fn load(&mut self, procs: HashMap<u32, Process>)
        requires
            well_formed(snapshot_view(procs@)),
        ensures
            final(self).inv(),
            final(self).procs == procs,
            final(self)@.vertical_scroll == clamped(
                old(self)@.vertical_scroll,
                final(self)@.lines.len(),
            ),
            final(self)@.horizontal_scroll == clamped(
                old(self)@.horizontal_scroll,
                final(self)@.lines.len(),
            ),
    {
        let tree = build_tree(&procs);
        let lines = build_tree_lines(&tree, &procs);
        let count = lines.len();
        self.procs = procs;
        self.tree = tree;
        self.lines = lines;
        self.vertical_scroll = clamp_scroll(self.vertical_scroll, count);
        self.horizontal_scroll = clamp_scroll(self.horizontal_scroll, count);
        self.vertical_scroll_state = scrollbar_at(self.vertical_scroll_state, self.vertical_scroll);
        self.horizontal_scroll_state = scrollbar_at(
            self.horizontal_scroll_state,
            self.horizontal_scroll,
        );
    }

    /// Takes in the snapshot of a tick.
    ///
    /// A snapshot that differs from the one on show, by a process that came,
    /// went or changed, replaces it; then the answer is `true`. One that does
    /// not leaves the state as it is.
    pub fn refresh(&mut self, new_procs: HashMap<u32, Process>) -> (rebuilt: bool)
        requires
            well_formed(snapshot_view(new_procs@)),
        ensures
            rebuilt == (old(self)@.snapshot != snapshot_view(new_procs@)),
            final(self)@.is_refresh_of(old(self)@, snapshot_view(new_procs@)),
            !rebuilt ==> *final(self) == *old(self),
            rebuilt ==> final(self).procs == new_procs,
    {
        let ghost before = snapshot_view(self.procs@);
        let ghost after = snapshot_view(new_procs@);
        let (added, removed, changed) = diff_procs(&self.procs, &new_procs);
        proof {
            lemma_unchanged_is_same(before, after);
            if added@.len() > 0 {
                assert(added@.to_set().contains(added@[0]));
            }
            if removed@.len() > 0 {
                assert(removed@.to_set().contains(removed@[0]));
            }
            if changed@.len() > 0 {
                assert(changed@.to_set().contains(changed@[0]));
            }
            assert(added@.len() == 0 ==> added_pids(before, after) =~= Set::<u32>::empty());
            assert(removed@.len() == 0 ==> removed_pids(before, after) =~= Set::<u32>::empty());
            assert(changed@.len() == 0 ==> changed_pids(before, after) =~= Set::<u32>::empty());
        }
        if !added.is_empty() || !removed.is_empty() || !changed.is_empty() {
            self.load(new_procs);
            true
        } else {
            false
        }
    }

    /// Carries out a command: moves one offset, and its scrollbar with it, or
    /// asks to quit and changes nothing.
    pub fn apply(&mut self, command: Command) -> (flow: Flow)
        ensures
            final(self)@ == old(self)@.after(command),
            old(self).inv() ==> final(self).inv(),
            flow == (if command == Command::Quit {
                Flow::Quit
            } else {
                Flow::Continue
            }),
    {
        let count = self.lines.len();
        match command {
            Command::Quit => {
                return Flow::Quit;
            },
            Command::ScrollDown => {
                self.vertical_scroll = scroll_forward(self.vertical_scroll, count);
                self.vertical_scroll_state = scrollbar_at(
                    self.vertical_scroll_state,
                    self.vertical_scroll,
                );
            },
            Command::ScrollUp => {
                self.vertical_scroll = scroll_back(self.vertical_scroll, count);
                self.vertical_scroll_state = scrollbar_at(
                    self.vertical_scroll_state,
                    self.vertical_scroll,
                );
            },
            Command::ScrollLeft => {
                self.horizontal_scroll = scroll_back(self.horizontal_scroll, count);
                self.horizontal_scroll_state = scrollbar_at(
                    self.horizontal_scroll_state,
                    self.horizontal_scroll,
                );
            },
            Command::ScrollRight => {
                self.horizontal_scroll = scroll_forward(self.horizontal_scroll, count);
                self.horizontal_scroll_state = scrollbar_at(
                    self.horizontal_scroll_state,
                    self.horizontal_scroll,
                );
            },
        }
        Flow::Continue
    }

    /// Takes in a key: carries out the command bound to it, if there is one.
    pub fn handle_key(&mut self, key: Key) -> (flow: Flow)
        ensures
            old(self).inv() ==> final(self).inv(),
            final(self)@ == (match command_of(key) {
                Some(command) => old(self)@.after(command),
                None => old(self)@,
            }),
            flow == (if command_of(key) == Some(Command::Quit) {
                Flow::Quit
            } else {
                Flow::Continue
            }),
    {
        match command_for(key) {
            Some(command) => self.apply(command),
            None => Flow::Continue,
        }
    }
}

impl Default for App {
    /// The state at startup.
    fn default() -> (app: App)
        ensures
            app.inv(),
            app@ == AppView::at_start(),
    {
        App::new()
    }
}

} // verus!
