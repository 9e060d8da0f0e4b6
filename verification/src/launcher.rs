//! The interaction state of the launcher and its transitions.
//!
//! The state is owned by whoever runs the event loop. Every handler takes the
//! state, changes it, and says in its outcome whether the frame has to be drawn
//! again and what has to be done outside: print a line, or launch a command and
//! save the usage map. Time is handed in; nothing here reads a clock.

use crate::frecency::FrecencyEntry;
use crate::frecency::FrecencyMap;
use crate::grid::Grid;
use crate::items::filter;
use crate::items::filter_view;
use crate::items::lemma_filter_view_sound;
use crate::items::Item;
use crate::text::char_is_control;
use crate::text::chars_of;
use crate::text::is_control;
use crate::text::pop_char;
use vstd::prelude::*;

verus! {

/// The code of the primary pointer button.
pub const BTN_LEFT: u32 = 0x110;

/// What the launcher does with the chosen item.
#[derive(Clone, Copy, Debug, PartialEq, Eq, Structural)]
pub enum Mode {
    /// Launch the command of a desktop entry.
    Drun,
    /// Print the chosen line.
    Dmenu,
}

/// The keys that the launcher tells apart.
#[derive(Clone, Copy, Debug, PartialEq, Eq, Structural)]
pub enum Key {
    Escape,
    Return,
    BackSpace,
    Left,
    Right,
    Up,
    Down,
    /// Any other key.
    Other,
}

/// What a pointer event reports.
#[derive(Clone, Copy, Debug, PartialEq, Eq, Structural)]
pub enum PointerKind {
    /// A button went down.
    Press { button: u32 },
    /// The pointer moved.
    Motion,
    /// The wheel turned: down where `vertical` is positive, up where negative.
    Axis { vertical: i32 },
    /// Anything else.
    Other,
}

/// One pointer event, at a position in viewport pixels.
#[derive(Clone, Copy, Debug)]
pub struct PointerEvent {
    pub kind: PointerKind,
    pub x: i32,
    pub y: i32,
}

/// The events that the launcher takes.
#[derive(Debug)]
pub enum Event {
    /// A key went down or repeats; `text` is what it types, if anything.
    KeyPress { key: Key, text: Option<String> },
    /// The pointer moved to a point of the viewport.
    PointerMove { x: i32, y: i32 },
    /// The primary button went down at a point of the viewport.
    PointerClick { x: i32, y: i32 },
    /// The wheel turned: down where `vertical` is positive, up where negative.
    Scroll { vertical: i32 },
    /// The viewport got a new size.
    Resize { width: u32, height: u32 },
    /// The window was closed.
    Close,
}

/// What is left to do outside the state after an event.
#[derive(Debug)]
pub enum Action {
    /// Nothing.
    Nothing,
    /// Print this line to standard output.
    Print(String),
    /// Save the usage map, then run this command line through the shell.
    Launch(String),
}

/// An action with its strings as sequences.
pub enum ActionView {
    Nothing,
    Print(Seq<char>),
    Launch(Seq<char>),
}

impl View for Action {
    type V = ActionView;

    open spec fn view(&self) -> ActionView {
        match self {
            Action::Nothing => ActionView::Nothing,
            Action::Print(s) => ActionView::Print(s@),
            Action::Launch(s) => ActionView::Launch(s@),
        }
    }
}

/// What a handler reports back.
#[derive(Debug)]
pub struct Outcome {
    /// Whether the frame has to be drawn again.
    pub redraw: bool,
    /// What has to be done outside the state.
    pub action: Action,
}

/// What does not change while the launcher runs.
pub struct Settings {
    pub mode: Mode,
    /// Configured column count.
    pub cols: usize,
    /// Icon size in pixels.
    pub icon_size: u32,
    /// Whether descriptions are drawn.
    pub show_comments: bool,
    /// Whether descriptions are searched.
    pub search_comments: bool,
    /// The command line that opens a terminal for a command.
    pub terminal_cmd: String,
}

/// The launcher: its items, its usage map and its interaction state.
pub struct Launcher {
    pub settings: Settings,
    /// The items, in their default order.
    pub items: Vec<Item>,
    pub frecency: FrecencyMap,
    /// Viewport width in pixels.
    pub width: u32,
    /// Viewport height in pixels.
    pub height: u32,
    /// The query typed so far.
    pub input: String,
    /// The filtered view: indices into `items`.
    pub filtered: Vec<usize>,
    /// The selected item, as an index into `filtered`.
    pub selected: usize,
    /// Index into `filtered` of the item in the first cell.
    pub scroll_offset: usize,
    /// The item under the pointer, as an index into `filtered`.
    pub hover_index: Option<usize>,
    /// Whether the launcher is to end.
    pub exit: bool,
}

/// The launcher as a mathematical value.
pub struct LauncherView {
    pub settings: Settings,
    pub items: Seq<Item>,
    pub frecency: Map<Seq<char>, FrecencyEntry>,
    pub width: u32,
    pub height: u32,
    pub query: Seq<char>,
    pub filtered: Seq<usize>,
    pub selected: usize,
    pub scroll: usize,
    pub hover: Option<usize>,
    pub exit: bool,
}

/// A state together with what its handler reports.
pub struct Step {
    pub state: LauncherView,
    pub redraw: bool,
    pub action: ActionView,
}

/// Whether a text is typed into the query: it is not empty and holds no control
/// character.
pub open spec fn printable(text: Seq<char>) -> bool {
    text.len() > 0 && forall|i: int| 0 <= i < text.len() ==> !is_control(#[trigger] text[i])
}

impl LauncherView {
    /// The layout of the current state.
    pub open spec fn grid(self) -> Grid {
        Grid {
            width: self.width,
            height: self.height,
            cols: self.settings.cols,
            icon_size: self.settings.icon_size,
            count: self.filtered.len() as usize,
            scroll: self.scroll,
        }
    }

    /// Whether the selected item lies in the window.
    pub open spec fn in_window(self) -> bool {
        self.scroll <= self.selected < self.scroll + self.grid().visible()
    }

    /// The invariant of the state: the filtered view is that of the query, the
    /// selection is an index into it (zero where it is empty), and the window
    /// holds the selection.
    pub open spec fn wf(self) -> bool {
        &&& self.items.len() <= usize::MAX
        &&& self.filtered == filter_view(self.items, self.query, self.settings.search_comments)
        &&& self.selected < self.filtered.len() || (self.filtered.len() == 0 && self.selected == 0)
        &&& self.in_window()
    }

    /// The state with the window moved as little as brings the selection into it.
    pub open spec fn ensured(self) -> LauncherView {
        let visible = self.grid().visible();
        LauncherView {
            scroll: if self.selected < self.scroll {
                self.selected
            } else if self.selected - self.scroll >= visible {
                (self.selected - visible + 1) as usize
            } else {
                self.scroll
            },
            ..self
        }
    }

    /// The state with `query` as its query: the view is filtered anew, the first
    /// item is selected and the window is at the top.
    pub open spec fn with_query(self, query: Seq<char>) -> LauncherView {
        LauncherView {
            query,
            filtered: filter_view(self.items, query, self.settings.search_comments),
            selected: 0,
            scroll: 0,
            ..self
        }
    }

    /// The item that is selected.
    pub open spec fn chosen(self) -> Item {
        self.items[self.filtered[self.selected as int] as int]
    }

    /// The command line that launches the selected item: its command, behind the
    /// terminal command and a space where it needs a terminal.
    pub open spec fn command_line(self) -> Seq<char> {
        if self.chosen().terminal {
            self.settings.terminal_cmd@ + seq![' '] + self.chosen().command@
        } else {
            self.chosen().command@
        }
    }

    /// What committing the selection asks for: nothing where there is no item, the
    /// line of the item when lines are printed, else the launch of its command.
    pub open spec fn commit_action(self) -> ActionView {
        if self.filtered.len() == 0 {
            ActionView::Nothing
        } else if self.settings.mode == Mode::Dmenu {
            ActionView::Print(self.chosen().command@)
        } else {
            ActionView::Launch(self.command_line())
        }
    }

    /// The state after committing the selection at time `now`: unchanged where
    /// there is no item; else the launcher ends, and when it launches, the usage of
    /// the item has grown by this launch.
    pub open spec fn committed(self, now: u64) -> LauncherView {
        if self.filtered.len() == 0 {
            self
        } else if self.settings.mode == Mode::Dmenu {
            LauncherView { exit: true, ..self }
        } else {
            let key = self.chosen().desktop_id@;
            let seen = if self.frecency.contains_key(key) {
                self.frecency[key]
            } else {
                FrecencyEntry { count: 0, last: 0 }
            };
            LauncherView {
                exit: true,
                frecency: self.frecency.insert(key, crate::frecency::launched(seen, now)),
                ..self
            }
        }
    }

    /// The state to which a key other than Escape and Return leads before the
    /// window is adjusted, or `None` where the key changes nothing. An arrow that
    /// cannot move, and any other key, types its text where that is printable.
    pub open spec fn moved(self, key: Key, text: Option<Seq<char>>) -> Option<LauncherView> {
        let n = self.filtered.len();
        let ecols = self.grid().ecols();
        if key == Key::BackSpace {
            if self.query.len() > 0 {
                Some(self.with_query(self.query.drop_last()))
            } else {
                None
            }
        } else if key == Key::Left && self.selected > 0 {
            Some(LauncherView { selected: (self.selected - 1) as usize, ..self })
        } else if key == Key::Right && self.selected + 1 < n {
            Some(LauncherView { selected: (self.selected + 1) as usize, ..self })
        } else if key == Key::Up && self.selected >= ecols {
            Some(LauncherView { selected: (self.selected - ecols) as usize, ..self })
        } else if key == Key::Down && self.selected + ecols < n {
            Some(LauncherView { selected: (self.selected + ecols) as usize, ..self })
        } else {
            match text {
                Some(t) => if printable(t) {
                    Some(self.with_query(self.query + t))
                } else {
                    None
                },
                None => None,
            }
        }
    }

    /// The state and the report after a key press at time `now`.
    pub open spec fn after_key(self, key: Key, text: Option<Seq<char>>, now: u64) -> Step {
        if key == Key::Escape {
            Step {
                state: LauncherView { exit: true, ..self },
                redraw: false,
                action: ActionView::Nothing,
            }
        } else if key == Key::Return {
            Step { state: self.committed(now), redraw: false, action: self.commit_action() }
        } else {
            match self.moved(key, text) {
                Some(next) => Step {
                    state: next.ensured(),
                    redraw: true,
                    action: ActionView::Nothing,
                },
                None => Step { state: self, redraw: false, action: ActionView::Nothing },
            }
        }
    }

    /// The state after the wheel turned by `vertical`, before the window is
    /// adjusted to the selection, or `None` where the window cannot move that way.
    /// The window moves by one row and stops where the last item is in view.
    pub open spec fn scrolled(self, vertical: i32) -> Option<LauncherView> {
        let n = self.filtered.len();
        let visible = self.grid().visible();
        let ecols = self.grid().ecols();
        if vertical > 0 && self.scroll + visible < n {
            Some(
                LauncherView {
                    scroll: if self.scroll + ecols < n - visible {
                        (self.scroll + ecols) as usize
                    } else {
                        (n - visible) as usize
                    },
                    ..self
                },
            )
        } else if vertical < 0 && self.scroll > 0 {
            Some(
                LauncherView {
                    scroll: if self.scroll >= ecols {
                        (self.scroll - ecols) as usize
                    } else {
                        0
                    },
                    ..self
                },
            )
        } else {
            None
        }
    }

    /// The state and the report after one pointer event at time `now`.
    pub open spec fn after_pointer(self, ev: PointerEvent, now: u64) -> Step {
        let quiet = Step { state: self, redraw: false, action: ActionView::Nothing };
        match ev.kind {
            PointerKind::Press { button } => {
                if button == BTN_LEFT {
                    match self.grid().hit(ev.x as int, ev.y as int) {
                        Some(idx) => {
                            let picked = (LauncherView { selected: idx, ..self }).ensured();
                            Step {
                                state: picked.committed(now),
                                redraw: false,
                                action: picked.commit_action(),
                            }
                        },
                        None => quiet,
                    }
                } else {
                    quiet
                }
            },
            PointerKind::Motion => {
                let hit = self.grid().hit(ev.x as int, ev.y as int);
                if hit != self.hover {
                    Step {
                        state: LauncherView { hover: hit, ..self },
                        redraw: true,
                        action: ActionView::Nothing,
                    }
                } else {
                    quiet
                }
            },
            PointerKind::Axis { vertical } => {
                match self.scrolled(vertical) {
                    Some(next) => Step {
                        state: next.ensured(),
                        redraw: true,
                        action: ActionView::Nothing,
                    },
                    None => quiet,
                }
            },
            PointerKind::Other => quiet,
        }
    }

    /// The state and the report after a batch of pointer events at time `now`. The
    /// events are taken in order; a click that commits ends the batch, and then
    /// nothing is drawn.
    pub open spec fn after_pointers(self, events: Seq<PointerEvent>, now: u64) -> Step
        decreases events.len(),
    {
        if events.len() == 0 {
            Step { state: self, redraw: false, action: ActionView::Nothing }
        } else {
            let first = self.after_pointer(events[0], now);
            if first.action != ActionView::Nothing {
                first
            } else {
                let rest = first.state.after_pointers(events.drop_first(), now);
                if rest.action != ActionView::Nothing {
                    rest
                } else {
                    Step { redraw: first.redraw || rest.redraw, ..rest }
                }
            }
        }
    }

    /// The state after the viewport got a new size: a side of zero keeps the old
    /// one.
    pub open spec fn resized(self, width: u32, height: u32) -> LauncherView {
        (LauncherView {
            width: if width > 0 { width } else { self.width },
            height: if height > 0 { height } else { self.height },
            ..self
        }).ensured()
    }

    /// The state and the report after an event at time `now`.
    pub open spec fn after_event(self, event: Event, now: u64) -> Step {
        match event {
            Event::KeyPress { key, text } => self.after_key(
                key,
                match text {
                    Some(t) => Some(t@),
                    None => None,
                },
                now,
            ),
            Event::PointerMove { x, y } => self.after_pointer(
                PointerEvent { kind: PointerKind::Motion, x, y },
                now,
            ),
            Event::PointerClick { x, y } => self.after_pointer(
                PointerEvent { kind: PointerKind::Press { button: BTN_LEFT }, x, y },
                now,
            ),
            Event::Scroll { vertical } => self.after_pointer(
                PointerEvent { kind: PointerKind::Axis { vertical }, x: 0, y: 0 },
                now,
            ),
            Event::Resize { width, height } => Step {
                state: self.resized(width, height),
                redraw: true,
                action: ActionView::Nothing,
            },
            Event::Close => Step {
                state: LauncherView { exit: true, ..self },
                redraw: false,
                action: ActionView::Nothing,
            },
        }
    }

    /// Adjusting the window brings the selection into it, and changes nothing
    /// else.
    pub proof fn lemma_ensured_in_window(self)
        ensures
            self.ensured().in_window(),
            self.ensured() == (LauncherView { scroll: self.ensured().scroll, ..self }),
            self.ensured().grid().visible() == self.grid().visible(),
    {
        self.grid().lemma_rows_fit();
    }

    /// Adjusting the window of a state whose window holds the selection changes
    /// nothing.
    pub proof fn lemma_ensured_fixed(self)
        requires
            self.in_window(),
        ensures
            self.ensured() == self,
    {
    }

    /// Adjusting the window twice is adjusting it once.
    pub proof fn lemma_ensured_idempotent(self)
        ensures
            self.ensured().ensured() == self.ensured(),
    {
        self.lemma_ensured_in_window();
        self.ensured().lemma_ensured_fixed();
    }

    /// A new query leaves a well-formed state.
    pub proof fn lemma_with_query_wf(self, query: Seq<char>)
        requires
            self.items.len() <= usize::MAX,
        ensures
            self.with_query(query).wf(),
            self.with_query(query).ensured() == self.with_query(query),
    {
        let next = self.with_query(query);
        lemma_filter_view_sound(self.items, query, self.settings.search_comments);
        next.grid().lemma_rows_fit();
    }

    /// Every key leaves a well-formed state well-formed.
    pub proof fn lemma_after_key_wf(self, key: Key, text: Option<Seq<char>>, now: u64)
        requires
            self.wf(),
        ensures
            self.after_key(key, text, now).state.wf(),
    {
        self.grid().lemma_rows_fit();
        self.grid().lemma_columns_fit();
        if key != Key::Escape && key != Key::Return {
            match self.moved(key, text) {
                Some(next) => {
                    next.lemma_ensured_in_window();
                    if key == Key::BackSpace {
                        self.lemma_with_query_wf(self.query.drop_last());
                    } else if key == Key::Left && self.selected > 0 {
                    } else if key == Key::Right && self.selected + 1 < self.filtered.len() {
                    } else if key == Key::Up && self.selected >= self.grid().ecols() {
                    } else if key == Key::Down && self.selected + self.grid().ecols()
                        < self.filtered.len() {
                    } else {
                        self.lemma_with_query_wf(self.query + text->0);
                    }
                },
                None => {},
            }
        }
    }

    /// Every pointer event leaves a well-formed state well-formed.
    pub proof fn lemma_after_pointer_wf(self, ev: PointerEvent, now: u64)
        requires
            self.wf(),
        ensures
            self.after_pointer(ev, now).state.wf(),
    {
        self.grid().lemma_rows_fit();
        self.grid().lemma_columns_fit();
        match ev.kind {
            PointerKind::Press { button } => {
                if button == BTN_LEFT {
                    match self.grid().hit(ev.x as int, ev.y as int) {
                        Some(idx) => {
                            (LauncherView { selected: idx, ..self }).lemma_ensured_in_window();
                        },
                        None => {},
                    }
                }
            },
            PointerKind::Axis { vertical } => {
                match self.scrolled(vertical) {
                    Some(next) => {
                        next.lemma_ensured_in_window();
                    },
                    None => {},
                }
            },
            _ => {},
        }
    }

    /// Every batch of pointer events leaves a well-formed state well-formed.
    pub proof fn lemma_after_pointers_wf(self, events: Seq<PointerEvent>, now: u64)
        requires
            self.wf(),
        ensures
            self.after_pointers(events, now).state.wf(),
        decreases events.len(),
    {
        if events.len() > 0 {
            self.lemma_after_pointer_wf(events[0], now);
            let first = self.after_pointer(events[0], now);
            if first.action == ActionView::Nothing {
                first.state.lemma_after_pointers_wf(events.drop_first(), now);
            }
        }
    }

    /// A new viewport size leaves a well-formed state well-formed.
    pub proof fn lemma_resized_wf(self, width: u32, height: u32)
        requires
            self.wf(),
        ensures
            self.resized(width, height).wf(),
    {
        (LauncherView {
            width: if width > 0 { width } else { self.width },
            height: if height > 0 { height } else { self.height },
            ..self
        }).lemma_ensured_in_window();
    }

    /// Every index of the filtered view of a well-formed state is the index of an
    /// item that the query keeps, and the indices rise strictly.
    pub proof fn lemma_filtered_sound(self)
        requires
            self.wf(),
        ensures
            forall|k: int|
                0 <= k < self.filtered.len() ==> (#[trigger] self.filtered[k]) < self.items.len()
                    && crate::items::kept(
                    self.items[self.filtered[k] as int],
                    self.query,
                    self.settings.search_comments,
                ),
            forall|j: int, k: int|
                0 <= j < k < self.filtered.len() ==> self.filtered[j] < self.filtered[k],
    {
        lemma_filter_view_sound(self.items, self.query, self.settings.search_comments);
    }
}

impl View for Launcher {
    type V = LauncherView;

    open spec fn view(&self) -> LauncherView {
        LauncherView {
            settings: self.settings,
            items: self.items@,
            frecency: self.frecency@,
            width: self.width,
            height: self.height,
            query: self.input@,
            filtered: self.filtered@,
            selected: self.selected,
            scroll: self.scroll_offset,
            hover: self.hover_index,
            exit: self.exit,
        }
    }
}

/// Whether a text is typed into the query.
pub fn is_printable(text: &str) -> (yes: bool)
    ensures
        yes == printable(text@),
{
    let chars = chars_of(text);
    if chars.len() == 0 {
        return false;
    }
    let mut i: usize = 0;
    while i < chars.len()
        invariant
            i <= chars.len(),
            chars@ == text@,
            forall|j: int| 0 <= j < i ==> !is_control(#[trigger] chars@[j]),
        decreases chars.len() - i,
    {
        if char_is_control(chars[i]) {
            return false;
        }
        i += 1;
    }
    true
}

impl Launcher {
    /// A launcher over `items`, which stand in their default order, with an empty
    /// query: every item is in view, the first is selected.
    pub fn new(
        settings: Settings,
        items: Vec<Item>,
        frecency: FrecencyMap,
        width: u32,
        height: u32,
    ) -> (launcher: Launcher)
        ensures
            launcher@.wf(),
            launcher@.settings == settings,
            launcher@.items == items@,
            launcher@.frecency == frecency@,
            launcher@.width == width,
            launcher@.height == height,
            launcher@.query == Seq::<char>::empty(),
            launcher@.filtered == Seq::new(items@.len(), |i: int| i as usize),
            launcher@.selected == 0,
            launcher@.scroll == 0,
            launcher@.hover == None::<usize>,
            !launcher@.exit,
    {
        let input = String::new();
        let count: usize = items.len();
        let filtered = filter(&items, input.as_str(), settings.search_comments);
        let launcher = Launcher {
            settings,
            items,
            frecency,
            width,
            height,
            input,
            filtered,
            selected: 0,
            scroll_offset: 0,
            hover_index: None,
            exit: false,
        };
        proof {
            crate::items::lemma_filter_view_of_empty_query(
                launcher@.items,
                launcher@.settings.search_comments,
            );
            launcher@.lemma_with_query_wf(Seq::empty());
            assert(launcher@ == launcher@.with_query(Seq::empty()));
        }
        launcher
    }

    /// Whether the state is well-formed. A launcher that is changed only through
    /// its handlers always is.
    pub fn is_well_formed(&self) -> (ok: bool)
        ensures
            ok == self@.wf(),
    {
        let count: usize = self.items.len();
        let fresh = filter(&self.items, self.input.as_str(), self.settings.search_comments);
        if fresh.len() != self.filtered.len() {
            return false;
        }
        let mut i: usize = 0;
        while i < fresh.len()
            invariant
                i <= fresh.len(),
                fresh.len() == self.filtered.len(),
                fresh@ == filter_view(self.items@, self.input@, self.settings.search_comments),
                forall|j: int| 0 <= j < i ==> fresh@[j] == self.filtered@[j],
            decreases fresh.len() - i,
        {
            if fresh[i] != self.filtered[i] {
                assert(fresh@[i as int] != self.filtered@[i as int]);
                return false;
            }
            i += 1;
        }
        assert(fresh@ =~= self.filtered@);
        let n = self.filtered.len();
        if !(self.selected < n || (n == 0 && self.selected == 0)) {
            return false;
        }
        let visible = self.grid().visible_count();
        self.scroll_offset <= self.selected && ((self.selected - self.scroll_offset) as u128)
            < visible
    }

    /// The layout of the current state.
    pub fn grid(&self) -> (g: Grid)
        ensures
            g == self@.grid(),
    {
        Grid {
            width: self.width,
            height: self.height,
            cols: self.settings.cols,
            icon_size: self.settings.icon_size,
            count: self.filtered.len(),
            scroll: self.scroll_offset,
        }
    }

    /// Height of one row.
    pub fn row_height(&self) -> (h: u64)
        ensures
            h == self@.grid().row_h(),
    {
        self.grid().row_height()
    }

    /// Number of visible rows.
    pub fn visible_rows(&self) -> (rows: u64)
        ensures
            rows == self@.grid().rows(),
    {
        self.grid().visible_rows()
    }

    /// Number of columns in use.
    pub fn effective_cols(&self) -> (cols: usize)
        ensures
            cols == self@.grid().ecols(),
    {
        self.grid().effective_cols()
    }

    /// Width of one column.
    pub fn col_width(&self) -> (w: u32)
        ensures
            w == self@.grid().col_w(),
    {
        self.grid().col_width()
    }

    /// Distance of the first column from the left edge.
    pub fn grid_x_offset(&self) -> (x: u32)
        ensures
            x == self@.grid().x_off(),
    {
        self.grid().grid_x_offset()
    }

    /// The item under the point `(x, y)`, as an index into the filtered view.
    pub fn item_at_pos(&self, x: i32, y: i32) -> (hit: Option<usize>)
        ensures
            hit == self@.grid().hit(x as int, y as int),
    {
        self.grid().item_at_pos(x, y)
    }

    /// Moves the window as little as brings the selection into it.
    pub fn ensure_visible(&mut self)
        ensures
            final(self)@ == old(self)@.ensured(),
            final(self)@.in_window(),
    {
        proof {
            self@.lemma_ensured_in_window();
            self@.grid().lemma_rows_fit();
        }
        let visible = self.grid().visible_count();
        if self.selected < self.scroll_offset {
            self.scroll_offset = self.selected;
        } else if (self.selected - self.scroll_offset) as u128 >= visible {
            self.scroll_offset = self.selected - (visible as usize) + 1;
        }
    }

    /// Computes the filtered view of the query anew, selects its first item and
    /// moves the window to the top.
    pub fn refilter(&mut self)
        ensures
            final(self)@ == old(self)@.with_query(old(self)@.query),
            final(self)@.wf(),
    {
        let count: usize = self.items.len();
        proof {
            self@.lemma_with_query_wf(self@.query);
        }
        self.filtered = filter(&self.items, self.input.as_str(), self.settings.search_comments);
        self.selected = 0;
        self.scroll_offset = 0;
    }

    /// The command line that launches the selected item.
    fn command_line(&self) -> (line: String)
        requires
            self.selected < self.filtered@.len(),
            self@.wf(),
        ensures
            line@ == self@.command_line(),
    {
        proof {
            self@.lemma_filtered_sound();
        }
        let item = &self.items[self.filtered[self.selected]];
        if item.terminal {
            let mut line = self.settings.terminal_cmd.clone();
            proof {
                reveal_strlit(" ");
                assert(" "@ =~= seq![' ']);
            }
            line.append(" ");
            line.append(item.command.as_str());
            line
        } else {
            item.command.clone()
        }
    }

    /// Commits the selection at time `now`. Where lines are printed, the line of
    /// the item is to be printed; else its usage grows by this launch and its
    /// command is to be launched. Either way the launcher ends. Without an item
    /// nothing happens.
    pub fn select_item(&mut self, now: u64) -> (action: Action)
        requires
            old(self)@.wf(),
        ensures
            final(self)@ == old(self)@.committed(now),
            action@ == old(self)@.commit_action(),
            final(self)@.wf(),
    {
        if self.filtered.len() == 0 {
            return Action::Nothing;
        }
        proof {
            self@.lemma_filtered_sound();
        }
        let at = self.filtered[self.selected];
        match self.settings.mode {
            Mode::Dmenu => {
                let line = self.items[at].command.clone();
                self.exit = true;
                Action::Print(line)
            },
            Mode::Drun => {
                let line = self.command_line();
                self.frecency.record_launch(self.items[at].desktop_id.as_str(), now);
                self.exit = true;
                Action::Launch(line)
            },
        }
    }

    /// Handles a key press at time `now`. `text` is what the key types, if
    /// anything.
    pub fn handle_key(&mut self, key: Key, text: Option<&str>, now: u64) -> (outcome: Outcome)
        requires
            old(self)@.wf(),
        ensures
            final(self)@ == old(self)@.after_key(key, spec_text(text), now).state,
            outcome.redraw == old(self)@.after_key(key, spec_text(text), now).redraw,
            outcome.action@ == old(self)@.after_key(key, spec_text(text), now).action,
            final(self)@.wf(),
    {
        proof {
            self@.lemma_after_key_wf(key, spec_text(text), now);
            self@.grid().lemma_columns_fit();
        }
        match key {
            Key::Escape => {
                self.exit = true;
                return Outcome { redraw: false, action: Action::Nothing };
            },
            Key::Return => {
                let action = self.select_item(now);
                return Outcome { redraw: false, action };
            },
            _ => {},
        }
        let n = self.filtered.len();
        let ecols = self.effective_cols();
        let changed = match key {
            Key::BackSpace => {
                match pop_char(&mut self.input) {
                    Some(_) => {
                        self.refilter();
                        true
                    },
                    None => false,
                }
            },
            _ => {
                if matches!(key, Key::Left) && self.selected > 0 {
                    self.selected -= 1;
                    true
                } else if matches!(key, Key::Right) && self.selected < n && self.selected + 1 < n {
                    self.selected += 1;
                    true
                } else if matches!(key, Key::Up) && self.selected >= ecols {
                    self.selected -= ecols;
                    true
                } else if matches!(key, Key::Down) && ecols < n && self.selected < n - ecols {
                    self.selected += ecols;
                    true
                } else {
                    match text {
                        Some(t) => {
                            if is_printable(t) {
                                self.input.append(t);
                                self.refilter();
                                true
                            } else {
                                false
                            }
                        },
                        None => false,
                    }
                }
            },
        };
        if changed {
            self.ensure_visible();
        }
        Outcome { redraw: changed, action: Action::Nothing }
    }

    /// Handles one pointer event at time `now`.
    pub fn pointer_event(&mut self, ev: PointerEvent, now: u64) -> (outcome: Outcome)
        requires
            old(self)@.wf(),
        ensures
            final(self)@ == old(self)@.after_pointer(ev, now).state,
            outcome.redraw == old(self)@.after_pointer(ev, now).redraw,
            outcome.action@ == old(self)@.after_pointer(ev, now).action,
            final(self)@.wf(),
    {
        proof {
            self@.lemma_after_pointer_wf(ev, now);
            self@.grid().lemma_columns_fit();
            self@.grid().lemma_rows_fit();
        }
        match ev.kind {
            PointerKind::Press { button } => {
                if button == BTN_LEFT {
                    match self.item_at_pos(ev.x, ev.y) {
                        Some(idx) => {
                            self.selected = idx;
                            self.ensure_visible();
                            let action = self.select_item(now);
                            return Outcome { redraw: false, action };
                        },
                        None => {},
                    }
                }
                Outcome { redraw: false, action: Action::Nothing }
            },
            PointerKind::Motion => {
                let hit = self.item_at_pos(ev.x, ev.y);
                let same = match (hit, self.hover_index) {
                    (Some(a), Some(b)) => a == b,
                    (None, None) => true,
                    _ => false,
                };
                if !same {
                    self.hover_index = hit;
                }
                Outcome { redraw: !same, action: Action::Nothing }
            },
            PointerKind::Axis { vertical } => {
                let n = self.filtered.len() as u128;
                let visible = self.grid().visible_count();
                let ecols = self.effective_cols();
                let scroll = self.scroll_offset;
                if vertical > 0 && scroll as u128 + visible < n {
                    let last = (n - visible) as usize;
                    self.scroll_offset = if ecols < last && scroll < last - ecols {
                        scroll + ecols
                    } else {
                        last
                    };
                    self.ensure_visible();
                    Outcome { redraw: true, action: Action::Nothing }
                } else if vertical < 0 && scroll > 0 {
                    self.scroll_offset = if scroll >= ecols { scroll - ecols } else { 0 };
                    self.ensure_visible();
                    Outcome { redraw: true, action: Action::Nothing }
                } else {
                    Outcome { redraw: false, action: Action::Nothing }
                }
            },
            PointerKind::Other => Outcome { redraw: false, action: Action::Nothing },
        }
    }

    /// Handles a batch of pointer events at time `now`, in order. A click that
    /// commits ends the batch.
    pub fn pointer_frame(&mut self, events: &[PointerEvent], now: u64) -> (outcome: Outcome)
        requires
            old(self)@.wf(),
        ensures
            final(self)@ == old(self)@.after_pointers(events@, now).state,
            outcome.redraw == old(self)@.after_pointers(events@, now).redraw,
            outcome.action@ == old(self)@.after_pointers(events@, now).action,
            final(self)@.wf(),
    {
        let mut redraw = false;
        let mut i: usize = 0;
        assert(events@.skip(0) == events@);
        while i < events.len()
            invariant
                i <= events.len(),
                self@.wf(),
                ({
                    let rest = self@.after_pointers(events@.skip(i as int), now);
                    let all = old(self)@.after_pointers(events@, now);
                    &&& all.state == rest.state
                    &&& all.action == rest.action
                    &&& all.redraw == (if rest.action != ActionView::Nothing {
                        rest.redraw
                    } else {
                        redraw || rest.redraw
                    })
                }),
            decreases events.len() - i,
        {
            assert(events@.skip(i as int).drop_first() == events@.skip(i + 1));
            assert(events@.skip(i as int)[0] == events@[i as int]);
            let one = self.pointer_event(events[i], now);
            match one.action {
                Action::Nothing => {
                    redraw = redraw || one.redraw;
                },
                _ => {
                    return one;
                },
            }
            i += 1;
        }
        Outcome { redraw, action: Action::Nothing }
    }

    /// Takes a new viewport size; a side of zero keeps the old one. The frame has
    /// to be drawn again.
    pub fn configure(&mut self, width: u32, height: u32)
        requires
            old(self)@.wf(),
        ensures
            final(self)@ == old(self)@.resized(width, height),
            final(self)@.wf(),
    {
        proof {
            self@.lemma_resized_wf(width, height);
        }
        if width > 0 {
            self.width = width;
        }
        if height > 0 {
            self.height = height;
        }
        self.ensure_visible();
    }

    /// The window was closed: the launcher ends.
    pub fn closed(&mut self)
        ensures
            final(self)@ == (LauncherView { exit: true, ..old(self)@ }),
    {
        self.exit = true;
    }

    /// Handles a key press as `handle_key` does, where the state is well-formed;
    /// gives `None` and changes nothing where it is not.
    pub fn try_handle_key(&mut self, key: Key, text: Option<&str>, now: u64) -> (outcome: Option<
        Outcome,
    >)
        ensures
            match outcome {
                Some(o) => {
                    &&& old(self)@.wf()
                    &&& final(self)@ == old(self)@.after_key(key, spec_text(text), now).state
                    &&& o.redraw == old(self)@.after_key(key, spec_text(text), now).redraw
                    &&& o.action@ == old(self)@.after_key(key, spec_text(text), now).action
                    &&& final(self)@.wf()
                },
                None => !old(self)@.wf() && *final(self) == *old(self),
            },
    {
        if self.is_well_formed() {
            Some(self.handle_key(key, text, now))
        } else {
            None
        }
    }

    /// Handles a batch of pointer events as `pointer_frame` does, where the state
    /// is well-formed; gives `None` and changes nothing where it is not.
    pub fn try_pointer_frame(&mut self, events: &[PointerEvent], now: u64) -> (outcome: Option<
        Outcome,
    >)
        ensures
            match outcome {
                Some(o) => {
                    &&& old(self)@.wf()
                    &&& final(self)@ == old(self)@.after_pointers(events@, now).state
                    &&& o.redraw == old(self)@.after_pointers(events@, now).redraw
                    &&& o.action@ == old(self)@.after_pointers(events@, now).action
                    &&& final(self)@.wf()
                },
                None => !old(self)@.wf() && *final(self) == *old(self),
            },
    {
        if self.is_well_formed() {
            Some(self.pointer_frame(events, now))
        } else {
            None
        }
    }

    /// Takes a new viewport size as `configure` does, where the state is
    /// well-formed; says `false` and changes nothing where it is not.
    pub fn try_configure(&mut self, width: u32, height: u32) -> (done: bool)
        ensures
            done == old(self)@.wf(),
            done ==> final(self)@ == old(self)@.resized(width, height) && final(self)@.wf(),
            !done ==> *final(self) == *old(self),
    {
        if self.is_well_formed() {
            self.configure(width, height);
            true
        } else {
            false
        }
    }

    /// Takes one event as `dispatch` does, where the state is well-formed; gives
    /// `None` and changes nothing where it is not.
    pub fn try_dispatch(&mut self, event: &Event, now: u64) -> (outcome: Option<Outcome>)
        ensures
            match outcome {
                Some(o) => {
                    &&& old(self)@.wf()
                    &&& final(self)@ == old(self)@.after_event(*event, now).state
                    &&& o.redraw == old(self)@.after_event(*event, now).redraw
                    &&& o.action@ == old(self)@.after_event(*event, now).action
                    &&& final(self)@.wf()
                },
                None => !old(self)@.wf() && *final(self) == *old(self),
            },
    {
        if self.is_well_formed() {
            Some(self.dispatch(event, now))
        } else {
            None
        }
    }

    /// Takes one event at time `now`: the one entry for everything that happens
    /// to the launcher.
    pub fn dispatch(&mut self, event: &Event, now: u64) -> (outcome: Outcome)
        requires
            old(self)@.wf(),
        ensures
            final(self)@ == old(self)@.after_event(*event, now).state,
            outcome.redraw == old(self)@.after_event(*event, now).redraw,
            outcome.action@ == old(self)@.after_event(*event, now).action,
            final(self)@.wf(),
    {
        match event {
            Event::KeyPress { key, text } => {
                match text {
                    Some(t) => self.handle_key(*key, Some(t.as_str()), now),
                    None => self.handle_key(*key, None, now),
                }
            },
            Event::PointerMove { x, y } => self.pointer_event(
                PointerEvent { kind: PointerKind::Motion, x: *x, y: *y },
                now,
            ),
            Event::PointerClick { x, y } => self.pointer_event(
                PointerEvent { kind: PointerKind::Press { button: BTN_LEFT }, x: *x, y: *y },
                now,
            ),
            Event::Scroll { vertical } => self.pointer_event(
                PointerEvent { kind: PointerKind::Axis { vertical: *vertical }, x: 0, y: 0 },
                now,
            ),
            Event::Resize { width, height } => {
                self.configure(*width, *height);
                Outcome { redraw: true, action: Action::Nothing }
            },
            Event::Close => {
                self.closed();
                Outcome { redraw: false, action: Action::Nothing }
            },
        }
    }
}

/// What a key types, as a sequence.
pub open spec fn spec_text(text: Option<&str>) -> Option<Seq<char>> {
    match text {
        Some(t) => Some(t@),
        None => None,
    }
}

} // verus!
