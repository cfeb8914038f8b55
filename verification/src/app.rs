//! The document controller: the tree, its flattened rows, the cursor and
//! scroll viewport, the search state, and the editing-session state machine.
//! The caller's input layer feeds it `Action`s and renders from its fields;
//! everything the controller decides is decided here.

use vstd::prelude::*;

use crate::actions::Action;
use crate::actions::AppNavigationAction;
use crate::actions::CursorDirection;
use crate::actions::EditingAction;
use crate::actions::MainViewActions;
use crate::actions::SearchingAction;
use crate::actions::SystemAction;
use crate::flatten::insert_data_to_tree;
use crate::flatten::rcount_children;
use crate::flatten::rows_of_children;
use crate::flatten::rows_view;
use crate::mutate::edit_allowed;
use crate::mutate::insert_after;
use crate::mutate::is_container_array;
use crate::mutate::update_at;
use crate::resolve::get_current_value_at_position;
use crate::resolve::key_opt_at;
use crate::resolve::node_at;
use crate::resolve::path_view;
use crate::resolve::row_path;
use crate::search::indices_view;
use crate::search::lower_of;
use crate::search::matches_of;
use crate::search::recompute_matches;
use crate::search::scalar_edit;
use crate::search::scalar_edit_text;
use crate::tree::JsonValue;
use crate::tree::ValuePair;

verus! {

/// Relies on String::push: appends exactly the one character.
pub assume_specification[ String::push ](s: &mut String, ch: char)
    ensures
        final(s)@ == old(s)@.push(ch),
;

/// Relies on String::pop: removes and returns the last character, or does
/// nothing on an empty string.
pub assume_specification[ String::pop ](s: &mut String) -> (r: Option<char>)
    ensures
        old(s)@.len() == 0 ==> r is None && final(s)@ == old(s)@,
        old(s)@.len() > 0 ==> r == Option::Some(old(s)@.last()) && final(s)@ == old(s)@.drop_last(),
;

/// The decimal digit character for a value below ten.
pub open spec fn dec_digit(d: int) -> char {
    if d == 0 {
        '0'
    } else if d == 1 {
        '1'
    } else if d == 2 {
        '2'
    } else if d == 3 {
        '3'
    } else if d == 4 {
        '4'
    } else if d == 5 {
        '5'
    } else if d == 6 {
        '6'
    } else if d == 7 {
        '7'
    } else if d == 8 {
        '8'
    } else {
        '9'
    }
}

/// The decimal writing of a non-negative number.
pub open spec fn dec_of(n: int) -> Seq<char>
    decreases n,
{
    if n < 10 {
        seq![dec_digit(n)]
    } else {
        dec_of(n / 10).push(dec_digit(n % 10))
    }
}

/// The decimal writing of a number, as a string.
pub fn dec_string(n: usize) -> (r: String)
    ensures
        r@ == dec_of(n as int),
    decreases n,
{
    let d = n % 10;
    let c: char = if d == 0 {
        '0'
    } else if d == 1 {
        '1'
    } else if d == 2 {
        '2'
    } else if d == 3 {
        '3'
    } else if d == 4 {
        '4'
    } else if d == 5 {
        '5'
    } else if d == 6 {
        '6'
    } else if d == 7 {
        '7'
    } else if d == 8 {
        '8'
    } else {
        '9'
    };
    if n < 10 {
        let mut s = String::new();
        s.push(c);
        proof {
            assert(s@ =~= seq![dec_digit(n as int)]);
        }
        s
    } else {
        let mut s = dec_string(n / 10);
        s.push(c);
        s
    }
}

/// Which screen the user is on.
#[derive(Debug, PartialEq, Eq, Structural)]
pub enum CurrentScreen {
    ViewingFile,
    Editing,
    Searching,
}

/// Which of the two edit inputs is active.
#[derive(Debug, PartialEq, Eq, Structural)]
pub enum CurrentlyEditing {
    Key,
    Value,
}

/// Whether a submit inserts a new entry or rewrites an existing one.
#[derive(Debug, PartialEq, Eq, Structural)]
pub enum EditingMode {
    Inserting,
    Editing,
}

#[derive(Debug, PartialEq, Eq, Structural)]
pub enum ReportedMessageKinds {
    Error,
    Info,
    Debug,
    Warning,
    Success,
}

/// A transient message for the caller to show, with how long to show it.
#[derive(Debug)]
pub struct ReportedMessage {
    pub message: String,
    pub kind: ReportedMessageKinds,
    pub show_duration_secs: u64,
}

/// Upper bound on row and viewport counts the controller's arithmetic is
/// proved against; far beyond any real terminal or document.
pub const VIEW_LIMIT: usize = 0x1000_0000;

/// The document controller's state.
#[derive(Debug)]
pub struct App {
    /// The document tree; an object or an array at the top level.
    pub json: JsonValue,
    /// The flattened display rows of `json`, as of the last recompute.
    pub json_pairs: Vec<ValuePair>,
    /// Total number of display rows.
    pub lines_count: usize,
    /// Rows visible at once; the caller sets it from the terminal size.
    pub viewport_lines_count: usize,
    /// The display row the cursor is on.
    pub line_at_cursor: usize,
    /// The first visible display row.
    pub vertical_scroll: usize,
    /// Mirror of `vertical_scroll`, kept for the scroll-state widget.
    pub scrolled_so_far: usize,
    /// The text of the edit input for the key.
    pub key_input: String,
    /// The text of the edit input for the value.
    pub value_input: String,
    /// The current search query.
    pub search_query: String,
    /// Row indices of the current search matches, in row order.
    pub search_matches: Vec<usize>,
    pub current_screen: CurrentScreen,
    pub currently_editing: Option<CurrentlyEditing>,
    pub editing_mode: EditingMode,
    pub key_input_focused: bool,
    pub value_input_focused: bool,
    pub message_to_report: ReportedMessage,
    pub running: bool,
}

impl App {
    /// The viewport invariant: whenever there are rows, the cursor lies on a
    /// row, at or below the scroll offset and within the visible window.
    pub open spec fn viewport_ok(self) -> bool {
        self.lines_count > 0 ==> {
            &&& self.line_at_cursor < self.lines_count
            &&& self.vertical_scroll <= self.line_at_cursor
            &&& self.line_at_cursor <= self.vertical_scroll + self.viewport_lines_count - 1
        }
    }

    /// Bounds under which the viewport arithmetic cannot overflow, and the
    /// scroll mirror is in step.
    pub open spec fn arith_ok(self) -> bool {
        &&& self.lines_count <= VIEW_LIMIT
        &&& self.viewport_lines_count <= VIEW_LIMIT
        &&& self.line_at_cursor <= self.lines_count
        &&& self.vertical_scroll <= self.lines_count + 6
        &&& self.scrolled_so_far == self.vertical_scroll
    }

    /// A fresh controller holding the given document, viewing its first row.
    pub fn new(json: JsonValue) -> (r: App)
        ensures
            r.json == json,
            r.lines_count == 0,
            r.viewport_lines_count == 0,
            r.line_at_cursor == 0,
            r.vertical_scroll == 0,
            r.scrolled_so_far == 0,
            r.json_pairs@.len() == 0,
            r.search_query@.len() == 0,
            r.search_matches@.len() == 0,
            r.current_screen == CurrentScreen::ViewingFile,
            r.currently_editing is None,
            r.editing_mode == EditingMode::Inserting,
            !r.key_input_focused,
            !r.value_input_focused,
            !r.running,
            r.key_input@.len() == 0,
            r.value_input@.len() == 0,
            r.arith_ok(),
            r.viewport_ok(),
    {
        App {
            json,
            json_pairs: Vec::new(),
            lines_count: 0,
            viewport_lines_count: 0,
            line_at_cursor: 0,
            vertical_scroll: 0,
            scrolled_so_far: 0,
            key_input: String::new(),
            value_input: String::new(),
            search_query: String::new(),
            search_matches: Vec::new(),
            current_screen: CurrentScreen::ViewingFile,
            currently_editing: Option::None,
            editing_mode: EditingMode::Inserting,
            key_input_focused: false,
            value_input_focused: false,
            message_to_report: ReportedMessage {
                message: String::new(),
                kind: ReportedMessageKinds::Info,
                show_duration_secs: 0,
            },
            running: false,
        }
    }

    /// Stores a message for the caller to show for the given time.
    pub fn report(&mut self, message: String, kind: ReportedMessageKinds, duration_secs: u64)
        ensures
            *final(self) == (App {
                message_to_report: ReportedMessage {
                    message,
                    kind,
                    show_duration_secs: duration_secs,
                },
                ..*old(self)
            }),
    {
        self.message_to_report = ReportedMessage { message, kind, show_duration_secs: duration_secs };
    }

    /// Stops the main loop.
    pub fn quit(&mut self)
        ensures
            *final(self) == (App { running: false, ..*old(self) }),
    {
        self.running = false;
    }

    /// Flattens `data`'s children into `pairs` at one more indentation
    /// level, exactly as the document rows are built, and returns how many
    /// rows were appended.
    pub fn insert_data_to_tree(
        &self,
        pairs: &mut Vec<ValuePair>,
        data: &JsonValue,
        indentation_counter: usize,
    ) -> (count: usize)
        requires
            data@.is_container(),
            indentation_counter + data@.height() <= usize::MAX,
        ensures
            rows_view(final(pairs)@) == rows_view(old(pairs)@) + rows_of_children(
                data@,
                (indentation_counter + 1) as nat,
            ),
            final(pairs)@.len() == old(pairs)@.len() + count,
            count == rcount_children(data@),
    {
        insert_data_to_tree(pairs, data, indentation_counter)
    }

    /// Reflattens the document into the cached rows and row count, and
    /// clamps the cursor back into range; called after every mutation. A
    /// document with more rows than the controller's arithmetic is proved
    /// for is refused, leaving the state untouched.
    pub fn recompute_rows(&mut self) -> (ok: bool)
        requires
            old(self).json@.is_container(),
            old(self).json@.height() <= usize::MAX,
        ensures
            ok == (rcount_children(old(self).json@) <= VIEW_LIMIT),
            !ok ==> *final(self) == *old(self),
            ok ==> final(self).json == old(self).json,
            ok ==> rows_view(final(self).json_pairs@) == rows_of_children(final(self).json@, 1),
            ok ==> final(self).lines_count == rcount_children(final(self).json@),
            ok ==> final(self).json_pairs@.len() == final(self).lines_count,
            ok ==> final(self).line_at_cursor == if old(self).line_at_cursor < final(
                self).lines_count {
                old(self).line_at_cursor
            } else if final(self).lines_count > 0 {
                (final(self).lines_count - 1) as usize
            } else {
                0usize
            },
            ok ==> *final(self) == (App {
                json_pairs: final(self).json_pairs,
                lines_count: final(self).lines_count,
                line_at_cursor: final(self).line_at_cursor,
                ..*old(self)
            }),
    {
        let mut pairs: Vec<ValuePair> = Vec::new();
        let count = self.insert_data_to_tree(&mut pairs, &self.json, 0);
        proof {
            assert(rows_view(Seq::<ValuePair>::empty()) =~= Seq::<crate::tree::RowV>::empty());
        }
        if count > VIEW_LIMIT {
            return false;
        }
        self.json_pairs = pairs;
        self.lines_count = count;
        if self.line_at_cursor >= count {
            if count > 0 {
                self.line_at_cursor = count - 1;
            } else {
                self.line_at_cursor = 0;
            }
        }
        true
    }

    /// Replaces the search query and clears the recorded matches; the next
    /// recompute searches from scratch.
    pub fn set_query(&mut self, query: String)
        ensures
            final(self).search_query == query,
            final(self).search_matches@.len() == 0,
            *final(self) == (App {
                search_query: query,
                search_matches: final(self).search_matches,
                ..*old(self)
            }),
    {
        self.search_query = query;
        self.search_matches = Vec::new();
    }

    /// Rebuilds the search matches from the current rows and query.
    pub fn recompute_search_matches(&mut self)
        ensures
            indices_view(final(self).search_matches@) == matches_of(
                rows_view(old(self).json_pairs@),
                lower_of(old(self).search_query@),
            ),
            forall|i: int|
                0 <= i < final(self).search_matches@.len()
                    ==> #[trigger] final(self).search_matches@[i] < old(self).json_pairs@.len(),
            *final(self) == (App {
                search_matches: final(self).search_matches,
                ..*old(self)
            }),
    {
        let m = recompute_matches(&self.json_pairs, self.search_query.as_str());
        self.search_matches = m;
    }
}

/// `a - b`, stopping at zero.
pub open spec fn sat_sub(a: usize, b: usize) -> usize {
    if a >= b {
        (a - b) as usize
    } else {
        0usize
    }
}

/// The edge threshold actually applied: a threshold larger than the
/// document is ignored.
pub open spec fn effective_offset(s: App, off: int) -> int {
    if off > s.lines_count {
        0
    } else {
        off
    }
}

/// The cursor is at or past the last visible rows, within `off` rows of the
/// viewport's bottom edge.
pub open spec fn at_viewport_end(s: App, off: int) -> bool {
    let o = effective_offset(s, off);
    let t = s.viewport_lines_count + s.scrolled_so_far - o;
    s.line_at_cursor >= if t < 0 {
        0
    } else {
        t
    }
}

/// The cursor is within `off` rows of the viewport's top edge.
pub open spec fn at_viewport_start(s: App, off: int) -> bool {
    s.line_at_cursor <= s.scrolled_so_far + effective_offset(s, off)
}

/// The state with the cursor and both scroll fields moved.
pub open spec fn moved(pre: App, c: usize, sc: usize) -> App {
    App { line_at_cursor: c, vertical_scroll: sc, scrolled_so_far: sc, ..pre }
}

/// Exactly what each cursor move does: how the cursor steps and clamps, and
/// when the viewport scrolls along.
pub open spec fn main_view_transition(pre: App, post: App, action: MainViewActions) -> bool {
    match action {
        MainViewActions::MoveDown => {
            if pre.line_at_cursor + 1 < pre.lines_count {
                let c = (pre.line_at_cursor + 1) as usize;
                let mid = App { line_at_cursor: c, ..pre };
                if at_viewport_end(mid, 5) {
                    post == moved(pre, c, (pre.vertical_scroll + 1) as usize)
                } else {
                    post == (App { line_at_cursor: c, ..pre })
                }
            } else {
                post == pre
            }
        },
        MainViewActions::MoveUp => {
            let c = sat_sub(pre.line_at_cursor, 1);
            let mid = App { line_at_cursor: c, ..pre };
            if at_viewport_start(mid, 5) {
                post == moved(pre, c, sat_sub(pre.vertical_scroll, 1))
            } else {
                post == (App { line_at_cursor: c, ..pre })
            }
        },
        MainViewActions::MoveToTop => {
            if pre.lines_count == 0 {
                post == pre
            } else {
                post == moved(pre, 0usize, 0usize)
            }
        },
        MainViewActions::MoveToBottom => {
            if pre.lines_count == 0 {
                post == pre
            } else {
                post == moved(
                    pre,
                    (pre.lines_count - 1) as usize,
                    sat_sub(pre.lines_count, pre.viewport_lines_count),
                )
            }
        },
        MainViewActions::MoveHalfPageDown => {
            if pre.lines_count == 0 {
                post == pre
            } else {
                let h = (pre.viewport_lines_count / 2) as usize;
                if pre.line_at_cursor < sat_sub(pre.lines_count, h) {
                    let c = (pre.line_at_cursor + h) as usize;
                    let sc = if c >= pre.vertical_scroll + pre.viewport_lines_count {
                        (pre.vertical_scroll + h) as usize
                    } else {
                        pre.vertical_scroll
                    };
                    post == moved(pre, c, sc)
                } else {
                    post == moved(
                        pre,
                        (pre.lines_count - 1) as usize,
                        sat_sub(pre.lines_count, pre.viewport_lines_count),
                    )
                }
            }
        },
        MainViewActions::MoveHalfPageUp => {
            if pre.lines_count == 0 {
                post == pre
            } else {
                let h = (pre.viewport_lines_count / 2) as usize;
                if pre.line_at_cursor > h {
                    post == moved(pre, sat_sub(pre.line_at_cursor, h), sat_sub(pre.vertical_scroll, h))
                } else {
                    post == moved(pre, 0usize, 0usize)
                }
            }
        },
    }
}

impl App {
    /// Whether the cursor sits within `offset` rows of the bottom edge of
    /// the visible window; drives auto-scroll on downward moves.
    fn is_current_line_at_viewport_end_with_offset(&self, offset: Option<usize>) -> (r: bool)
        requires
            self.viewport_lines_count <= VIEW_LIMIT,
            self.scrolled_so_far <= VIEW_LIMIT + 6,
            self.lines_count <= VIEW_LIMIT,
        ensures
            r == at_viewport_end(*self, match offset {
                Option::Some(o) => o as int,
                Option::None => 0,
            }),
    {
        let given: usize = match offset {
            Option::Some(o) => o,
            Option::None => 0,
        };
        let off: usize = if given > self.lines_count {
            0
        } else {
            given
        };
        let edge = self.viewport_lines_count + self.scrolled_so_far;
        let threshold = if edge >= off {
            edge - off
        } else {
            0
        };
        self.line_at_cursor >= threshold
    }

    /// Whether the cursor sits within `offset` rows of the top edge of the
    /// visible window; drives auto-scroll on upward moves.
    fn is_current_line_at_viewport_start_with_offset(&self, offset: Option<usize>) -> (r: bool)
        requires
            self.scrolled_so_far <= VIEW_LIMIT + 6,
            self.lines_count <= VIEW_LIMIT,
        ensures
            r == at_viewport_start(*self, match offset {
                Option::Some(o) => o as int,
                Option::None => 0,
            }),
    {
        let given: usize = match offset {
            Option::Some(o) => o,
            Option::None => 0,
        };
        let off: usize = if given > self.lines_count {
            0
        } else {
            given
        };
        self.line_at_cursor <= self.scrolled_so_far + off
    }

    /// One cursor move. Steps and clamps the cursor, scrolling the viewport
    /// along when the cursor nears its edges; half-page moves that would
    /// overshoot land on the last row with the document's bottom flush with
    /// the viewport, and a half-page up near the top goes to the top. Keeps
    /// the viewport invariant: the law that after any run of moves the
    /// cursor stays on a row inside the visible window.
    pub fn handle_main_view_messages(&mut self, action: MainViewActions)
        requires
            old(self).arith_ok(),
        ensures
            main_view_transition(*old(self), *final(self), action),
            final(self).arith_ok(),
            old(self).viewport_lines_count >= 1 && old(self).viewport_ok()
                ==> final(self).viewport_ok(),
    {
        let scroll_offset: usize = 5;
        match action {
            MainViewActions::MoveDown => {
                if self.line_at_cursor + 1 < self.lines_count {
                    self.line_at_cursor = self.line_at_cursor + 1;
                    if self.is_current_line_at_viewport_end_with_offset(Option::Some(
                        scroll_offset,
                    )) {
                        self.vertical_scroll = self.vertical_scroll + 1;
                        self.scrolled_so_far = self.vertical_scroll;
                    }
                }
            },
            MainViewActions::MoveUp => {
                if self.line_at_cursor > 0 {
                    self.line_at_cursor = self.line_at_cursor - 1;
                }
                if self.is_current_line_at_viewport_start_with_offset(Option::Some(scroll_offset)) {
                    if self.vertical_scroll > 0 {
                        self.vertical_scroll = self.vertical_scroll - 1;
                    }
                    self.scrolled_so_far = self.vertical_scroll;
                }
            },
            MainViewActions::MoveToTop => {
                if self.lines_count == 0 {
                    return ;
                }
                self.line_at_cursor = 0;
                self.vertical_scroll = 0;
                self.scrolled_so_far = 0;
            },
            MainViewActions::MoveToBottom => {
                if self.lines_count == 0 {
                    return ;
                }
                self.line_at_cursor = self.lines_count - 1;
                self.vertical_scroll = if self.lines_count >= self.viewport_lines_count {
                    self.lines_count - self.viewport_lines_count
                } else {
                    0
                };
                self.scrolled_so_far = self.vertical_scroll;
            },
            MainViewActions::MoveHalfPageDown => {
                if self.lines_count == 0 {
                    return ;
                }
                let half = self.viewport_lines_count / 2;
                let limit = if self.lines_count >= half {
                    self.lines_count - half
                } else {
                    0
                };
                if self.line_at_cursor < limit {
                    self.line_at_cursor = self.line_at_cursor + half;
                    if self.line_at_cursor >= self.vertical_scroll + self.viewport_lines_count {
                        self.vertical_scroll = self.vertical_scroll + half;
                    }
                    self.scrolled_so_far = self.vertical_scroll;
                } else {
                    self.line_at_cursor = self.lines_count - 1;
                    self.vertical_scroll = if self.lines_count >= self.viewport_lines_count {
                        self.lines_count - self.viewport_lines_count
                    } else {
                        0
                    };
                    self.scrolled_so_far = self.vertical_scroll;
                }
            },
            MainViewActions::MoveHalfPageUp => {
                if self.lines_count == 0 {
                    return ;
                }
                let half = self.viewport_lines_count / 2;
                if self.line_at_cursor > half {
                    self.line_at_cursor = self.line_at_cursor - half;
                    self.vertical_scroll = if self.vertical_scroll >= half {
                        self.vertical_scroll - half
                    } else {
                        0
                    };
                    self.scrolled_so_far = self.vertical_scroll;
                } else {
                    self.line_at_cursor = 0;
                    self.vertical_scroll = 0;
                    self.scrolled_so_far = 0;
                }
            },
        }
    }
}

/// Whether the container holding the cursor's row is an array; false on an
/// out-of-range cursor or a scalar document.
pub open spec fn cursor_parent_is_array(s: App) -> bool {
    &&& s.json@.is_container()
    &&& (s.line_at_cursor as int) < rcount_children(s.json@)
    &&& node_at(s.json@, row_path(s.json@, s.line_at_cursor as int).drop_last()) is Arr
}

/// The submit validation rule: under an array parent the value text must be
/// present; everywhere else both key and value texts must be.
pub open spec fn submit_inputs_ok(s: App) -> bool {
    if cursor_parent_is_array(s) {
        s.value_input@.len() > 0
    } else {
        s.key_input@.len() > 0 && s.value_input@.len() > 0
    }
}

/// `post` differs from `pre` at most in its reported message.
pub open spec fn same_but_message(pre: App, post: App) -> bool {
    post == (App { message_to_report: post.message_to_report, ..pre })
}

/// The reported message is exactly this text, kind and duration.
pub open spec fn reports(post: App, msg: Seq<char>, kind: ReportedMessageKinds, secs: u64) -> bool {
    &&& post.message_to_report.message@ == msg
    &&& post.message_to_report.kind == kind
    &&& post.message_to_report.show_duration_secs == secs
}

impl App {
    /// Whether the cursor currently sits inside an array container, which
    /// decides whether edits ask for a value only.
    pub fn is_inside_array(&self) -> (r: bool)
        ensures
            r == cursor_parent_is_array(*self),
    {
        match &self.json {
            JsonValue::Object(_) => is_container_array(self.line_at_cursor, &self.json),
            JsonValue::Array(_) => is_container_array(self.line_at_cursor, &self.json),
            _ => false,
        }
    }

    /// Switches between the key and the value inputs; entered from outside
    /// the editing screen, it opens the insert popup focused on the input
    /// that applies (no key input inside an array).
    pub fn toggle_editing(&mut self)
        ensures
            ({
                let pre = *old(self);
                let post = *final(self);
                match pre.currently_editing {
                    Option::Some(CurrentlyEditing::Key) => post == (App {
                        currently_editing: Option::Some(CurrentlyEditing::Value),
                        key_input_focused: false,
                        value_input_focused: true,
                        ..pre
                    }),
                    Option::Some(CurrentlyEditing::Value) => if !cursor_parent_is_array(pre) {
                        post == (App {
                            currently_editing: Option::Some(CurrentlyEditing::Key),
                            key_input_focused: true,
                            value_input_focused: false,
                            ..pre
                        })
                    } else {
                        post == pre
                    },
                    Option::None => if !cursor_parent_is_array(pre) {
                        post == (App {
                            current_screen: CurrentScreen::Editing,
                            editing_mode: EditingMode::Inserting,
                            currently_editing: Option::Some(CurrentlyEditing::Key),
                            key_input_focused: true,
                            value_input_focused: false,
                            ..pre
                        })
                    } else {
                        post == (App {
                            current_screen: CurrentScreen::Editing,
                            editing_mode: EditingMode::Inserting,
                            currently_editing: Option::Some(CurrentlyEditing::Value),
                            key_input_focused: false,
                            value_input_focused: true,
                            ..pre
                        })
                    },
                }
            }),
    {
        match &self.currently_editing {
            Option::Some(editing) => {
                match editing {
                    CurrentlyEditing::Key => {
                        self.currently_editing = Option::Some(CurrentlyEditing::Value);
                        self.key_input_focused = false;
                        self.value_input_focused = true;
                    },
                    CurrentlyEditing::Value => {
                        if !self.is_inside_array() {
                            self.currently_editing = Option::Some(CurrentlyEditing::Key);
                            self.key_input_focused = true;
                            self.value_input_focused = false;
                        }
                    },
                }
            },
            Option::None => {
                self.current_screen = CurrentScreen::Editing;
                self.editing_mode = EditingMode::Inserting;
                if !self.is_inside_array() {
                    self.currently_editing = Option::Some(CurrentlyEditing::Key);
                    self.key_input_focused = true;
                    self.value_input_focused = false;
                } else {
                    self.currently_editing = Option::Some(CurrentlyEditing::Value);
                    self.key_input_focused = false;
                    self.value_input_focused = true;
                }
            },
        }
    }

    /// Screen navigation: back to viewing (closing and clearing the edit
    /// inputs), into editing (which toggles the focused input), or to the
    /// search widget.
    pub fn handle_app_navigation_actions(&mut self, action: AppNavigationAction)
        ensures
            ({
                let pre = *old(self);
                let post = *final(self);
                match action {
                    AppNavigationAction::ToViewingScreen => {
                        &&& post == (App {
                            key_input: post.key_input,
                            value_input: post.value_input,
                            key_input_focused: false,
                            value_input_focused: false,
                            currently_editing: Option::None,
                            editing_mode: EditingMode::Inserting,
                            current_screen: CurrentScreen::ViewingFile,
                            ..pre
                        })
                        &&& post.key_input@.len() == 0
                        &&& post.value_input@.len() == 0
                    },
                    AppNavigationAction::ToEditingScreen => true,
                    AppNavigationAction::ToSearchingWidget => post == (App {
                        current_screen: CurrentScreen::Searching,
                        ..pre
                    }),
                }
            }),
    {
        match action {
            AppNavigationAction::ToViewingScreen => {
                self.key_input_focused = false;
                self.value_input_focused = false;
                self.currently_editing = Option::None;
                self.editing_mode = EditingMode::Inserting;
                self.key_input = String::new();
                self.value_input = String::new();
                self.current_screen = CurrentScreen::ViewingFile;
            },
            AppNavigationAction::ToEditingScreen => {
                self.toggle_editing();
            },
            AppNavigationAction::ToSearchingWidget => {
                self.current_screen = CurrentScreen::Searching;
            },
        }
    }
}

/// The message shown when jumping to a match.
pub open spec fn match_msg(i: int, n: int) -> Seq<char> {
    "Match "@ + dec_of(i) + " out of "@ + dec_of(n)
}

/// The message shown when reporting the match count.
pub open spec fn found_msg(n: int) -> Seq<char> {
    "Found "@ + dec_of(n) + " matches"@
}

/// Where the viewport scrolls when jumping forward to match row `m`: when
/// the match sits in the lower quarter of the window or below, the window
/// recenters so the match sits mid-screen.
pub open spec fn next_match_scroll(s: App, m: usize) -> usize {
    let diff = sat_sub(m, s.vertical_scroll);
    if diff > sat_sub(s.viewport_lines_count, (s.viewport_lines_count / 4) as usize) {
        (s.vertical_scroll + sat_sub(diff, (s.viewport_lines_count / 2) as usize)) as usize
    } else {
        s.vertical_scroll
    }
}

/// Where the viewport scrolls when jumping back to match row `m`: half a
/// window above the match.
pub open spec fn prev_match_scroll(s: App, m: usize) -> usize {
    sat_sub(m, (s.viewport_lines_count / 2) as usize)
}


/// Jumping to the next match: the cursor lands on the first recorded match
/// after it (scrolling along), or only a message is reported.
pub open spec fn goto_next_transition(pre: App, post: App) -> bool {
    if pre.search_query@.len() == 0 {
        post == pre
    } else if forall|j: int|
        0 <= j < pre.search_matches@.len() ==> #[trigger] pre.search_matches@[j]
            <= pre.line_at_cursor {
        &&& same_but_message(pre, post)
        &&& reports(post, "No more matches"@, ReportedMessageKinds::Error, 1)
    } else {
        exists|i: int|
            {
                &&& 0 <= i < pre.search_matches@.len()
                &&& #[trigger] pre.search_matches@[i] > pre.line_at_cursor
                &&& forall|j: int|
                    0 <= j < i ==> #[trigger] pre.search_matches@[j] <= pre.line_at_cursor
                &&& post == (App {
                    line_at_cursor: pre.search_matches@[i],
                    vertical_scroll: next_match_scroll(pre, pre.search_matches@[i]),
                    scrolled_so_far: next_match_scroll(pre, pre.search_matches@[i]),
                    message_to_report: post.message_to_report,
                    ..pre
                })
                &&& reports(
                    post,
                    match_msg(i + 1, pre.search_matches@.len() as int),
                    ReportedMessageKinds::Info,
                    1,
                )
            }
    }
}

/// Jumping to the previous match: the cursor lands on the last recorded
/// match before it (scrolling along), or only a message is reported.
pub open spec fn goto_prev_transition(pre: App, post: App) -> bool {
    if pre.search_query@.len() == 0 {
        post == pre
    } else if forall|j: int|
        0 <= j < pre.search_matches@.len() ==> #[trigger] pre.search_matches@[j]
            >= pre.line_at_cursor {
        &&& same_but_message(pre, post)
        &&& reports(post, "No previous matches"@, ReportedMessageKinds::Error, 1)
    } else {
        exists|i: int|
            {
                &&& 0 <= i < pre.search_matches@.len()
                &&& #[trigger] pre.search_matches@[i] < pre.line_at_cursor
                &&& forall|j: int|
                    i < j < pre.search_matches@.len() ==> #[trigger] pre.search_matches@[j]
                        >= pre.line_at_cursor
                &&& post == (App {
                    line_at_cursor: pre.search_matches@[i],
                    vertical_scroll: prev_match_scroll(pre, pre.search_matches@[i]),
                    scrolled_so_far: prev_match_scroll(pre, pre.search_matches@[i]),
                    message_to_report: post.message_to_report,
                    ..pre
                })
                &&& reports(
                    post,
                    match_msg(i + 1, pre.search_matches@.len() as int),
                    ReportedMessageKinds::Info,
                    1,
                )
            }
    }
}

/// Exactly what each search action does.
pub open spec fn searching_transition(pre: App, post: App, action: SearchingAction) -> bool {
    match action {
        SearchingAction::AppendChar(c) => {
            &&& post.search_query@ == pre.search_query@.push(c)
            &&& post.search_matches@.len() == 0
            &&& post == (App {
                search_query: post.search_query,
                search_matches: post.search_matches,
                ..pre
            })
        },
        SearchingAction::MoveCursor(_) => post == pre,
        SearchingAction::PopChar => {
            &&& post.search_query@ == if pre.search_query@.len() == 0 {
                pre.search_query@
            } else {
                pre.search_query@.drop_last()
            }
            &&& post == (App { search_query: post.search_query, ..pre })
        },
        SearchingAction::ClearSearch => {
            &&& post.search_query@.len() == 0
            &&& post.search_matches@.len() == 0
            &&& post == (App {
                search_query: post.search_query,
                search_matches: post.search_matches,
                ..pre
            })
        },
        SearchingAction::ClearMatches => {
            &&& post.search_matches@.len() == 0
            &&& post == (App { search_matches: post.search_matches, ..pre })
        },
        SearchingAction::ReportResults => {
            &&& same_but_message(pre, post)
            &&& reports(
                post,
                found_msg(pre.search_matches@.len() as int),
                ReportedMessageKinds::Info,
                1,
            )
        },
        SearchingAction::GoToNextMatch => goto_next_transition(pre, post),
        SearchingAction::GoToPrevMatch => goto_prev_transition(pre, post),
    }
}

impl App {
    /// One search action: query edits clear the stale matches, clearing the
    /// search clears both, and match navigation jumps the cursor to the
    /// nearest match after (or before) it, scrolling the viewport along and
    /// reporting which match of how many was reached; with no match in that
    /// direction only a message is reported — search does not wrap.
    #[verifier::rlimit(100)]
    pub fn handle_searching_actions(&mut self, action: SearchingAction)
        requires
            old(self).arith_ok(),
            forall|j: int|
                0 <= j < old(self).search_matches@.len() ==> #[trigger] old(
                    self,
                ).search_matches@[j] <= VIEW_LIMIT,
        ensures
            searching_transition(*old(self), *final(self), action),
    {
        match action {
            SearchingAction::AppendChar(c) => {
                self.search_matches = Vec::new();
                self.search_query.push(c);
            },
            SearchingAction::MoveCursor(_) => {},
            SearchingAction::PopChar => {
                let _ = self.search_query.pop();
            },
            SearchingAction::ClearSearch => {
                self.search_query = String::new();
                self.search_matches = Vec::new();
            },
            SearchingAction::ClearMatches => {
                self.search_matches = Vec::new();
            },
            SearchingAction::ReportResults => {
                let msg = String::from_str("Found ").concat(
                    dec_string(self.search_matches.len()).as_str(),
                ).concat(" matches");
                self.report(msg, ReportedMessageKinds::Info, 1);
            },
            SearchingAction::GoToNextMatch => {
                if self.search_query.as_str().is_empty() {
                    return ;
                }
                let n = self.search_matches.len();
                let mut i: usize = 0;
                let mut found_at: usize = n;
                while i < n
                    invariant_except_break
                        found_at == n,
                    invariant
                        *self == *old(self),
                        n == old(self).search_matches@.len(),
                        i <= n,
                        forall|j: int|
                            0 <= j < i ==> #[trigger] old(self).search_matches@[j]
                                <= old(self).line_at_cursor,
                    ensures
                        *self == *old(self),
                        found_at <= n,
                        found_at == n ==> forall|j: int|
                            0 <= j < n ==> #[trigger] old(self).search_matches@[j]
                                <= old(self).line_at_cursor,
                        found_at < n ==> old(self).search_matches@[found_at as int]
                            > old(self).line_at_cursor && forall|j: int|
                            0 <= j < found_at ==> #[trigger] old(self).search_matches@[j]
                                <= old(self).line_at_cursor,
                    decreases n - i,
                {
                    if self.line_at_cursor < self.search_matches[i] {
                        found_at = i;
                        break ;
                    }
                    i += 1;
                }
                if found_at < n {
                    let m = self.search_matches[found_at];
                    let diff = if m >= self.vertical_scroll {
                        m - self.vertical_scroll
                    } else {
                        0
                    };
                    let quarter = self.viewport_lines_count / 4;
                    let threshold = if self.viewport_lines_count >= quarter {
                        self.viewport_lines_count - quarter
                    } else {
                        0
                    };
                    if diff > threshold {
                        let half = self.viewport_lines_count / 2;
                        let step = if diff >= half {
                            diff - half
                        } else {
                            0
                        };
                        self.vertical_scroll = self.vertical_scroll + step;
                        self.scrolled_so_far = self.vertical_scroll;
                    } else {
                        self.scrolled_so_far = self.vertical_scroll;
                    }
                    self.line_at_cursor = m;
                    let msg = String::from_str("Match ").concat(
                        dec_string(found_at + 1).as_str(),
                    ).concat(" out of ").concat(dec_string(n).as_str());
                    self.report(msg, ReportedMessageKinds::Info, 1);
                    proof {
                        let pre = *old(self);
                        let w = found_at as int;
                        assert(pre.search_matches@[w] > pre.line_at_cursor);
                        assert(exists|i: int|
                            {
                                &&& 0 <= i < pre.search_matches@.len()
                                &&& #[trigger] pre.search_matches@[i] > pre.line_at_cursor
                                &&& forall|j: int|
                                    0 <= j < i ==> #[trigger] pre.search_matches@[j]
                                        <= pre.line_at_cursor
                                &&& *self == (App {
                                    line_at_cursor: pre.search_matches@[i],
                                    vertical_scroll: next_match_scroll(
                                        pre,
                                        pre.search_matches@[i],
                                    ),
                                    scrolled_so_far: next_match_scroll(
                                        pre,
                                        pre.search_matches@[i],
                                    ),
                                    message_to_report: self.message_to_report,
                                    ..pre
                                })
                                &&& reports(
                                    *self,
                                    match_msg(i + 1, pre.search_matches@.len() as int),
                                    ReportedMessageKinds::Info,
                                    1,
                                )
                            });
                    }
                } else {
                    self.report(
                        String::from_str("No more matches"),
                        ReportedMessageKinds::Error,
                        1,
                    );
                }
            },
            SearchingAction::GoToPrevMatch => {
                if self.search_query.as_str().is_empty() {
                    return ;
                }
                let n = self.search_matches.len();
                let mut i: usize = n;
                let mut found_at: usize = n;
                while i > 0
                    invariant_except_break
                        found_at == n,
                        forall|j: int|
                            i <= j < n ==> #[trigger] old(self).search_matches@[j]
                                >= old(self).line_at_cursor,
                    invariant
                        *self == *old(self),
                        n == old(self).search_matches@.len(),
                        i <= n,
                    ensures
                        *self == *old(self),
                        found_at <= n,
                        found_at == n ==> forall|j: int|
                            0 <= j < n ==> #[trigger] old(self).search_matches@[j]
                                >= old(self).line_at_cursor,
                        found_at < n ==> old(self).search_matches@[found_at as int]
                            < old(self).line_at_cursor && forall|j: int|
                            found_at < j < n ==> #[trigger] old(self).search_matches@[j]
                                >= old(self).line_at_cursor,
                    decreases i,
                {
                    i -= 1;
                    if self.search_matches[i] < self.line_at_cursor {
                        found_at = i;
                        break ;
                    }
                }
                if found_at < n {
                    let m = self.search_matches[found_at];
                    let half = self.viewport_lines_count / 2;
                    self.vertical_scroll = if m >= half {
                        m - half
                    } else {
                        0
                    };
                    self.scrolled_so_far = self.vertical_scroll;
                    self.line_at_cursor = m;
                    let msg = String::from_str("Match ").concat(
                        dec_string(found_at + 1).as_str(),
                    ).concat(" out of ").concat(dec_string(n).as_str());
                    self.report(msg, ReportedMessageKinds::Info, 1);
                    proof {
                        let pre = *old(self);
                        let w = found_at as int;
                        assert(pre.search_matches@[w] < pre.line_at_cursor);
                        assert(exists|i: int|
                            {
                                &&& 0 <= i < pre.search_matches@.len()
                                &&& #[trigger] pre.search_matches@[i] < pre.line_at_cursor
                                &&& forall|j: int|
                                    i < j < pre.search_matches@.len()
                                        ==> #[trigger] pre.search_matches@[j]
                                        >= pre.line_at_cursor
                                &&& *self == (App {
                                    line_at_cursor: pre.search_matches@[i],
                                    vertical_scroll: prev_match_scroll(
                                        pre,
                                        pre.search_matches@[i],
                                    ),
                                    scrolled_so_far: prev_match_scroll(
                                        pre,
                                        pre.search_matches@[i],
                                    ),
                                    message_to_report: self.message_to_report,
                                    ..pre
                                })
                                &&& reports(
                                    *self,
                                    match_msg(i + 1, pre.search_matches@.len() as int),
                                    ReportedMessageKinds::Info,
                                    1,
                                )
                            });
                    }
                } else {
                    self.report(
                        String::from_str("No previous matches"),
                        ReportedMessageKinds::Error,
                        1,
                    );
                }
            },
        }
    }
}

/// Starting an edit of the row under the cursor: on a leaf row the edit
/// inputs are pre-filled from the tree (the key only under an object
/// parent) and the editing screen opens; header rows and out-of-range
/// cursors only report why nothing can be edited.
pub open spec fn start_edit_transition(pre: App, post: App) -> bool {
    if pre.line_at_cursor >= pre.json_pairs@.len() {
        &&& same_but_message(pre, post)
        &&& reports(
            post,
            "No value to edit at current position"@,
            ReportedMessageKinds::Error,
            2,
        )
    } else if pre.json_pairs@[pre.line_at_cursor as int]@.value is None {
        &&& same_but_message(pre, post)
        &&& reports(post, "Cannot edit object or array headers"@, ReportedMessageKinds::Error, 2)
    } else if !pre.json@.is_container() || pre.line_at_cursor as int >= rcount_children(
        pre.json@,
    ) {
        &&& same_but_message(pre, post)
        &&& reports(post, "Could not find value to edit"@, ReportedMessageKinds::Error, 2)
    } else {
        let full = row_path(pre.json@, pre.line_at_cursor as int);
        let node = node_at(pre.json@, full);
        &&& post.value_input@ == scalar_edit(node)
        &&& match key_opt_at(pre.json@, full) {
            Option::Some(k) => {
                &&& post.key_input@ == k
                &&& post.currently_editing == Option::Some(CurrentlyEditing::Key)
                &&& post.key_input_focused
                &&& !post.value_input_focused
            },
            Option::None => {
                &&& post.key_input@.len() == 0
                &&& post.currently_editing == Option::Some(CurrentlyEditing::Value)
                &&& !post.key_input_focused
                &&& post.value_input_focused
            },
        }
        &&& post == (App {
            editing_mode: EditingMode::Editing,
            current_screen: CurrentScreen::Editing,
            key_input: post.key_input,
            value_input: post.value_input,
            currently_editing: post.currently_editing,
            key_input_focused: post.key_input_focused,
            value_input_focused: post.value_input_focused,
            message_to_report: post.message_to_report,
            ..pre
        })
        &&& reports(post, "Editing existing value"@, ReportedMessageKinds::Info, 2)
    }
}

/// Submitting an insert: with the required texts missing nothing happens;
/// otherwise the coerced value is inserted right after the cursor's row
/// whenever that row exists, the edit inputs close and clear, and the
/// insertion is reported.
pub open spec fn submit_insert_transition(pre: App, post: App) -> bool {
    if !submit_inputs_ok(pre) {
        post == pre
    } else {
        &&& post.json@ == if pre.json@.is_container() && edit_allowed(
            pre.json@,
            pre.line_at_cursor as int,
            pre.key_input@,
            pre.value_input@,
        ) {
            crate::mutate::after_insert(
                pre.json@,
                row_path(pre.json@, pre.line_at_cursor as int).drop_last(),
                row_path(pre.json@, pre.line_at_cursor as int).last() + 1,
                pre.key_input@,
                crate::mutate::coerce_spec(pre.value_input@, false),
            )
        } else {
            pre.json@
        }
        &&& post.key_input@.len() == 0
        &&& post.value_input@.len() == 0
        &&& post == (App {
            json: post.json,
            key_input: post.key_input,
            value_input: post.value_input,
            key_input_focused: false,
            value_input_focused: false,
            currently_editing: Option::None,
            editing_mode: EditingMode::Inserting,
            current_screen: CurrentScreen::ViewingFile,
            message_to_report: post.message_to_report,
            ..pre
        })
        &&& reports(
            post,
            "Inserted new key-value pair: "@ + pre.key_input@ + " -> "@ + pre.value_input@,
            ReportedMessageKinds::Success,
            3,
        )
    }
}

/// Submitting a rewrite of the cursor's row: with the required texts
/// missing nothing happens; on an out-of-range row or a scalar document
/// only a failure is reported; otherwise the entry is replaced in place —
/// key and value under an object parent, the element under an array — the
/// edit inputs close and clear, and the change is reported.
pub open spec fn submit_update_transition(pre: App, post: App) -> bool {
    if !submit_inputs_ok(pre) {
        post == pre
    } else if !pre.json@.is_container() || pre.line_at_cursor as int >= rcount_children(
        pre.json@,
    ) {
        &&& same_but_message(pre, post)
        &&& reports(
            post,
            "Could not find parent to update value"@,
            ReportedMessageKinds::Error,
            3,
        )
    } else {
        let full = row_path(pre.json@, pre.line_at_cursor as int);
        &&& post.json@ == crate::mutate::after_update(
            pre.json@,
            full.drop_last(),
            full.last(),
            pre.key_input@,
            crate::mutate::coerce_spec(pre.value_input@, true),
        )
        &&& post.key_input@.len() == 0
        &&& post.value_input@.len() == 0
        &&& post == (App {
            json: post.json,
            key_input: post.key_input,
            value_input: post.value_input,
            key_input_focused: false,
            value_input_focused: false,
            currently_editing: Option::None,
            editing_mode: EditingMode::Inserting,
            current_screen: CurrentScreen::ViewingFile,
            message_to_report: post.message_to_report,
            ..pre
        })
        &&& reports(post, match key_opt_at(pre.json@, full) {
            Option::Some(old_key) => if old_key != pre.key_input@ {
                "Updated key-value pair: "@ + pre.key_input@ + " -> "@ + pre.value_input@
            } else {
                "Updated value: "@ + old_key + " -> "@ + pre.value_input@
            },
            Option::None => "Updated array value: "@ + pre.value_input@,
        }, ReportedMessageKinds::Success, 3)
    }
}

impl App {
    /// Starts editing the value under the cursor, pre-filling the edit
    /// inputs from the tree.
    pub fn start_editing_existing_value(&mut self)
        ensures
            start_edit_transition(*old(self), *final(self)),
    {
        if self.line_at_cursor >= self.json_pairs.len() {
            self.report(
                String::from_str("No value to edit at current position"),
                ReportedMessageKinds::Error,
                2,
            );
            return ;
        }
        let is_header = match &self.json_pairs[self.line_at_cursor].value {
            Option::None => true,
            Option::Some(_) => false,
        };
        if is_header {
            self.report(
                String::from_str("Cannot edit object or array headers"),
                ReportedMessageKinds::Error,
                2,
            );
            return ;
        }
        let is_cont = self.json.is_container();
        if !is_cont {
            self.report(
                String::from_str("Could not find value to edit"),
                ReportedMessageKinds::Error,
                2,
            );
            return ;
        }
        let (_pp, key_opt, val_opt, _idx) = get_current_value_at_position(
            self.line_at_cursor,
            &self.json,
        );
        match val_opt {
            Option::Some(v) => {
                self.editing_mode = EditingMode::Editing;
                self.current_screen = CurrentScreen::Editing;
                match key_opt {
                    Option::Some(k) => {
                        self.key_input = k;
                        self.currently_editing = Option::Some(CurrentlyEditing::Key);
                        self.key_input_focused = true;
                        self.value_input_focused = false;
                    },
                    Option::None => {
                        self.key_input = String::new();
                        self.currently_editing = Option::Some(CurrentlyEditing::Value);
                        self.key_input_focused = false;
                        self.value_input_focused = true;
                    },
                }
                self.value_input = scalar_edit_text(&v);
                self.report(
                    String::from_str("Editing existing value"),
                    ReportedMessageKinds::Info,
                    2,
                );
            },
            Option::None => {
                self.report(
                    String::from_str("Could not find value to edit"),
                    ReportedMessageKinds::Error,
                    2,
                );
            },
        }
    }

    /// Submits the edit inputs as a new entry inserted right after the
    /// cursor's row, then returns to the viewing screen.
    pub fn insert_new_data_from_user_input(&mut self)
        ensures
            submit_insert_transition(*old(self), *final(self)),
    {
        let in_arr = self.is_inside_array();
        if in_arr {
            if self.value_input.as_str().is_empty() {
                return ;
            }
        } else {
            if self.key_input.as_str().is_empty() || self.value_input.as_str().is_empty() {
                return ;
            }
        }
        let is_cont = self.json.is_container();
        if is_cont {
            let k = self.key_input.clone();
            let v = self.value_input.clone();
            let _ = insert_after(self.line_at_cursor, k.as_str(), v.as_str(), &mut self.json);
        }
        let msg = String::from_str("Inserted new key-value pair: ").concat(
            self.key_input.as_str(),
        ).concat(" -> ").concat(self.value_input.as_str());
        self.report(msg, ReportedMessageKinds::Success, 3);
        self.handle_app_navigation_actions(AppNavigationAction::ToViewingScreen);
    }

    /// Submits the edit inputs as a rewrite of the entry under the cursor,
    /// then returns to the viewing screen.
    pub fn update_existing_data_from_user_input(&mut self)
        ensures
            submit_update_transition(*old(self), *final(self)),
    {
        let in_arr = self.is_inside_array();
        if in_arr {
            if self.value_input.as_str().is_empty() {
                return ;
            }
        } else {
            if self.key_input.as_str().is_empty() || self.value_input.as_str().is_empty() {
                return ;
            }
        }
        let is_cont = self.json.is_container();
        if !is_cont {
            self.report(
                String::from_str("Could not find parent to update value"),
                ReportedMessageKinds::Error,
                3,
            );
            return ;
        }
        let (_pp, key_opt, val_opt, _idx) = get_current_value_at_position(
            self.line_at_cursor,
            &self.json,
        );
        match val_opt {
            Option::None => {
                self.report(
                    String::from_str("Could not find parent to update value"),
                    ReportedMessageKinds::Error,
                    3,
                );
                return ;
            },
            Option::Some(_) => {},
        }
        let k = self.key_input.clone();
        let v = self.value_input.clone();
        let _ = update_at(self.line_at_cursor, k.as_str(), v.as_str(), &mut self.json);
        let msg = match key_opt {
            Option::Some(old_key) => {
                if !strings_equal(&old_key, &self.key_input) {
                    String::from_str("Updated key-value pair: ").concat(
                        self.key_input.as_str(),
                    ).concat(" -> ").concat(self.value_input.as_str())
                } else {
                    String::from_str("Updated value: ").concat(old_key.as_str()).concat(
                        " -> ",
                    ).concat(self.value_input.as_str())
                }
            },
            Option::None => String::from_str("Updated array value: ").concat(
                self.value_input.as_str(),
            ),
        };
        self.report(msg, ReportedMessageKinds::Success, 3);
        self.editing_mode = EditingMode::Inserting;
        self.handle_app_navigation_actions(AppNavigationAction::ToViewingScreen);
    }
}

/// Whether two strings hold the same characters.
fn strings_equal(a: &String, b: &String) -> (r: bool)
    ensures
        r == (a@ == b@),
{
    a.eq(b)
}

/// Exactly what each editing action does.
pub open spec fn editing_transition(pre: App, post: App, action: EditingAction) -> bool {
    match action {
        EditingAction::SwitchToKey => post == (App {
            currently_editing: Option::Some(CurrentlyEditing::Key),
            ..pre
        }),
        EditingAction::SwitchToValue => post == (App {
            currently_editing: Option::Some(CurrentlyEditing::Value),
            ..pre
        }),
        EditingAction::EditExisting => start_edit_transition(pre, post),
        EditingAction::AppendChar(c) => {
            match pre.currently_editing {
                Option::Some(CurrentlyEditing::Key) => if pre.key_input_focused {
                    &&& post.key_input@ == pre.key_input@.push(c)
                    &&& post == (App { key_input: post.key_input, ..pre })
                } else {
                    post == pre
                },
                Option::Some(CurrentlyEditing::Value) => if pre.value_input_focused {
                    &&& post.value_input@ == pre.value_input@.push(c)
                    &&& post == (App { value_input: post.value_input, ..pre })
                } else {
                    post == pre
                },
                Option::None => post == pre,
            }
        },
        EditingAction::MoveCursor(_) => post == pre,
        EditingAction::AppendToKey(c) => {
            &&& post.key_input@ == pre.key_input@.push(c)
            &&& post == (App { key_input: post.key_input, ..pre })
        },
        EditingAction::AppendToValue(c) => {
            &&& post.value_input@ == pre.value_input@.push(c)
            &&& post == (App { value_input: post.value_input, ..pre })
        },
        EditingAction::PopFromKey => if pre.key_input_focused {
            &&& post.key_input@ == if pre.key_input@.len() == 0 {
                pre.key_input@
            } else {
                pre.key_input@.drop_last()
            }
            &&& post == (App { key_input: post.key_input, ..pre })
        } else {
            post == pre
        },
        EditingAction::PopFromValue => if pre.value_input_focused {
            &&& post.value_input@ == if pre.value_input@.len() == 0 {
                pre.value_input@
            } else {
                pre.value_input@.drop_last()
            }
            &&& post == (App { value_input: post.value_input, ..pre })
        } else {
            post == pre
        },
        EditingAction::Submit => match pre.editing_mode {
            EditingMode::Inserting => submit_insert_transition(pre, post),
            EditingMode::Editing => submit_update_transition(pre, post),
        },
    }
}

impl App {
    /// One editing action: switching and typing into the edit inputs,
    /// starting an edit of the existing value, or submitting.
    pub fn handle_editing_actions(&mut self, edit_msg: EditingAction)
        ensures
            editing_transition(*old(self), *final(self), edit_msg),
    {
        match edit_msg {
            EditingAction::SwitchToKey => {
                self.currently_editing = Option::Some(CurrentlyEditing::Key);
            },
            EditingAction::SwitchToValue => {
                self.currently_editing = Option::Some(CurrentlyEditing::Value);
            },
            EditingAction::EditExisting => {
                self.start_editing_existing_value();
            },
            EditingAction::AppendChar(c) => {
                let target: u8 = match &self.currently_editing {
                    Option::Some(CurrentlyEditing::Key) => if self.key_input_focused {
                        1
                    } else {
                        0
                    },
                    Option::Some(CurrentlyEditing::Value) => if self.value_input_focused {
                        2
                    } else {
                        0
                    },
                    Option::None => 0,
                };
                if target == 1 {
                    self.key_input.push(c);
                } else if target == 2 {
                    self.value_input.push(c);
                }
            },
            EditingAction::MoveCursor(_) => {},
            EditingAction::AppendToKey(c) => {
                self.key_input.push(c);
            },
            EditingAction::AppendToValue(c) => {
                self.value_input.push(c);
            },
            EditingAction::PopFromKey => {
                if self.key_input_focused {
                    let _ = self.key_input.pop();
                }
            },
            EditingAction::PopFromValue => {
                if self.value_input_focused {
                    let _ = self.value_input.pop();
                }
            },
            EditingAction::Submit => {
                match self.editing_mode {
                    EditingMode::Inserting => self.insert_new_data_from_user_input(),
                    EditingMode::Editing => self.update_existing_data_from_user_input(),
                }
            },
        }
    }

    /// One system action.
    pub fn handle_app_actions(&mut self, sys_msg: SystemAction)
        ensures
            *final(self) == (App { running: false, ..*old(self) }),
    {
        match sys_msg {
            SystemAction::Quit => {
                self.quit();
            },
        }
    }

    /// Drives the state machine by one action.
    pub fn update(&mut self, action: Action)
        requires
            old(self).arith_ok(),
            forall|j: int|
                0 <= j < old(self).search_matches@.len() ==> #[trigger] old(
                    self,
                ).search_matches@[j] <= VIEW_LIMIT,
        ensures
            ({
                let pre = *old(self);
                let post = *final(self);
                match action {
                    Action::AppNavigation(_) => true,
                    Action::MainView(a) => {
                        &&& main_view_transition(pre, post, a)
                        &&& post.arith_ok()
                        &&& pre.viewport_lines_count >= 1 && pre.viewport_ok()
                            ==> post.viewport_ok()
                    },
                    Action::Editing(a) => editing_transition(pre, post, a),
                    Action::Searching(a) => searching_transition(pre, post, a),
                    Action::App(_) => post == (App { running: false, ..pre }),
                }
            }),
    {
        match action {
            Action::AppNavigation(a) => self.handle_app_navigation_actions(a),
            Action::MainView(a) => self.handle_main_view_messages(a),
            Action::Editing(a) => self.handle_editing_actions(a),
            Action::Searching(a) => self.handle_searching_actions(a),
            Action::App(a) => self.handle_app_actions(a),
        }
    }
}

impl Default for App {
    /// An empty controller over a null document, as before a file is
    /// loaded.
    fn default() -> (r: App)
        ensures
            r.json == JsonValue::Null,
            r.lines_count == 0,
            r.viewport_lines_count == 0,
            r.line_at_cursor == 0,
            r.vertical_scroll == 0,
            r.scrolled_so_far == 0,
            r.json_pairs@.len() == 0,
            r.search_query@.len() == 0,
            r.search_matches@.len() == 0,
            r.current_screen == CurrentScreen::ViewingFile,
            r.currently_editing is None,
            r.editing_mode == EditingMode::Inserting,
            !r.key_input_focused,
            !r.value_input_focused,
            !r.running,
            r.key_input@.len() == 0,
            r.value_input@.len() == 0,
            r.arith_ok(),
            r.viewport_ok(),
    {
        App::new(JsonValue::Null)
    }
}

} // verus!
