//! The search bar: the text being typed, what keys do to it, and where its
//! parts go on screen.

use vstd::prelude::*;
use tui_input::InputRequest as Req;
use self::EditRequest as Edit;

verus! {

/// What the search bar asks the application to do.
#[derive(Debug)]
pub enum SearchAction {
    /// Search for the given text.
    StartSearch(String),
}

/// An action for the application.
#[derive(Debug)]
pub enum Action {
    Search(SearchAction),
    SubmitSearchBar,
    ExitSearchBar,
}

/// The outcome of handling a key: consumed by the search bar, or an action
/// for the application.
#[derive(Debug)]
pub enum ActionResult {
    Consumed,
    Action(Action),
}

/// A rectangle of the terminal.
#[derive(Clone, Copy, Debug, PartialEq, Eq, Structural)]
pub struct Area {
    pub x: u16,
    pub y: u16,
    pub width: u16,
    pub height: u16,
}

/// An edit of the typed text, one for each of `tui_input`'s
/// `InputRequest` variants.
#[derive(Clone, Copy, Debug, PartialEq, Eq, Structural)]
pub enum EditRequest {
    SetCursor(usize),
    InsertChar(char),
    GoToPrevChar,
    GoToNextChar,
    GoToPrevWord,
    GoToNextWord,
    GoToStart,
    GoToEnd,
    DeletePrevChar,
    DeleteNextChar,
    DeletePrevWord,
    DeleteNextWord,
    DeleteLine,
    DeleteTillEnd,
}

/// The text and cursor that `tui_input`'s `Input::handle` leaves after the
/// request, on an input holding `value` with the cursor at `cursor`.
pub uninterp spec fn edit_result(value: Seq<char>, cursor: usize, request: EditRequest) -> (Seq<char>, usize);

/// What an edit leaves, for the edits that do not look for word bounds:
/// the cursor is first moved back to the end of the text when past it;
/// a character goes in at the cursor, which moves past it; the character
/// before or at the cursor goes out; the cursor moves one character, to
/// either end or to a given place (at most the end); the whole text or what
/// follows the cursor goes out. `None` for the word-wise edits.
pub open spec fn simple_edit(value: Seq<char>, cursor: usize, request: EditRequest) -> Option<(Seq<char>, usize)> {
    let len = value.len();
    let c: int = if cursor < len { cursor as int } else { len as int };
    match request {
        EditRequest::SetCursor(p) => Some((value, if p < len { p } else { len as usize })),
        EditRequest::InsertChar(ch) => Some((value.take(c) + seq![ch] + value.skip(c), (c + 1) as usize)),
        EditRequest::GoToPrevChar => Some((value, if c == 0 { 0usize } else { (c - 1) as usize })),
        EditRequest::GoToNextChar => Some((value, if c == len { c as usize } else { (c + 1) as usize })),
        EditRequest::GoToStart => Some((value, 0usize)),
        EditRequest::GoToEnd => Some((value, len as usize)),
        EditRequest::DeletePrevChar => if c == 0 {
            Some((value, 0usize))
        } else {
            Some((value.remove(c - 1), (c - 1) as usize))
        },
        EditRequest::DeleteNextChar => if c == len {
            Some((value, c as usize))
        } else {
            Some((value.remove(c), c as usize))
        },
        EditRequest::DeleteLine => Some((Seq::<char>::empty(), 0usize)),
        EditRequest::DeleteTillEnd => Some((value.take(c), c as usize)),
        _ => None,
    }
}

/// The display column of the cursor in a text: what `tui_input`'s
/// `Input::visual_cursor` gives for that text with the cursor at that
/// character.
pub uninterp spec fn visual_cursor_of(value: Seq<char>, cursor: usize) -> usize;

/// The first display column shown when a text is scrolled to keep its
/// cursor in view in `width` columns, as `tui_input`'s
/// `Input::visual_scroll` gives it.
pub uninterp spec fn visual_scroll_of(value: Seq<char>, cursor: usize, width: usize) -> usize;

/// The two areas into which `ratatui`'s `Layout` splits an area with the
/// horizontal constraints `Percentage(first)` and `Percentage(second)`.
pub uninterp spec fn percentage_split(area: Area, first: u16, second: u16) -> (Area, Area);

/// Calls `tui_input::Input::default`.
///
/// Trusted: the derived default holds an empty value and the cursor at 0.
#[verifier::external_body]
fn default_input() -> (r: (String, usize))
    ensures
        r.0@ == Seq::<char>::empty(),
        r.1 == 0,
{
    let input = tui_input::Input::default();
    (input.value().to_string(), input.cursor())
}

/// Calls `tui_input::Input::handle` with the `InputRequest` that `request`
/// stands for, on an input holding `value` with the cursor at `cursor`
/// (moved back to the end when past it), and returns the new value and
/// cursor.
///
/// Trusted: the result is a function of these three, named `edit_result`;
/// the cursor ends at most at the end of the text; the edits that do not
/// look for word bounds do what `simple_edit` says; moving by a word leaves
/// the text as it is. Where the word-wise edits put the cursor, and what
/// the word-wise deletions take out, is not stated.
#[verifier::external_body]
fn apply_request(value: &String, cursor: usize, request: EditRequest) -> (r: (String, usize))
    requires
        value@.len() < usize::MAX,
    ensures
        (r.0@, r.1) == edit_result(value@, cursor, request),
        r.1 <= r.0@.len(),
        simple_edit(value@, cursor, request) matches Some(e) ==> (r.0@, r.1) == e,
        request is GoToPrevWord || request is GoToNextWord ==> r.0@ == value@,
{
    let req = match request {
        Edit::SetCursor(p) => Req::SetCursor(p), Edit::InsertChar(c) => Req::InsertChar(c),
        Edit::GoToPrevChar => Req::GoToPrevChar, Edit::GoToNextChar => Req::GoToNextChar,
        Edit::GoToPrevWord => Req::GoToPrevWord, Edit::GoToNextWord => Req::GoToNextWord,
        Edit::GoToStart => Req::GoToStart, Edit::GoToEnd => Req::GoToEnd,
        Edit::DeletePrevChar => Req::DeletePrevChar, Edit::DeleteNextChar => Req::DeleteNextChar,
        Edit::DeletePrevWord => Req::DeletePrevWord, Edit::DeleteNextWord => Req::DeleteNextWord,
        Edit::DeleteLine => Req::DeleteLine, Edit::DeleteTillEnd => Req::DeleteTillEnd,
    };
    let mut input = tui_input::Input::new(value.clone()).with_cursor(cursor);
    input.handle(req);
    (input.value().to_string(), input.cursor())
}

/// Calls `tui_input::Input::visual_cursor` on an input holding `value` with
/// the cursor at `cursor`; the result is trusted to depend on these alone
/// and is named `visual_cursor_of`.
#[verifier::external_body]
fn visual_cursor(value: &String, cursor: usize) -> (c: usize)
    ensures
        c == visual_cursor_of(value@, cursor),
{
    tui_input::Input::new(value.clone()).with_cursor(cursor).visual_cursor()
}

/// Calls `tui_input::Input::visual_scroll` on an input holding `value` with
/// the cursor at `cursor`; the result is trusted to depend on these and the
/// width alone and is named `visual_scroll_of`.
#[verifier::external_body]
fn visual_scroll(value: &String, cursor: usize, width: usize) -> (s: usize)
    ensures
        s == visual_scroll_of(value@, cursor, width),
{
    tui_input::Input::new(value.clone()).with_cursor(cursor).visual_scroll(width)
}

/// Calls `ratatui::layout::Layout::split` with the horizontal constraints
/// `Percentage(first)` and `Percentage(second)` and returns the two areas;
/// the split (which `ratatui` caches per area and layout) is trusted to
/// depend on these alone and is named `percentage_split`. Nothing is
/// stated of where the two areas lie.
#[verifier::external_body]
fn split_by_percentages(area: Area, first: u16, second: u16) -> (r: (Area, Area))
    ensures
        r == percentage_split(area, first, second),
{
    let rect = ratatui::layout::Rect { x: area.x, y: area.y, width: area.width, height: area.height };
    let constraints = [ratatui::layout::Constraint::Percentage(first), ratatui::layout::Constraint::Percentage(second)];
    let parts = ratatui::layout::Layout::horizontal(constraints).split(rect);
    let a = parts[0];
    let b = parts[1];
    (Area { x: a.x, y: a.y, width: a.width, height: a.height }, Area { x: b.x, y: b.y, width: b.width, height: b.height })
}

/// The share of the bar's width, in percent, that the input takes when the
/// hint shows.
pub const INPUT_PERCENT: u16 = 90;

/// The share of the bar's width, in percent, that the hint takes.
pub const HINT_PERCENT: u16 = 10;

/// Where the parts of the search bar go: the input and the hint, how far
/// the text is scrolled, whether the empty prompt shows, and where the
/// cursor is when the bar has the focus.
#[derive(Debug, PartialEq, Eq, Structural)]
pub struct SearchBarLayout {
    pub input_area: Area,
    pub hint_area: Option<Area>,
    pub scroll: usize,
    pub show_prompt: bool,
    pub cursor: Option<Position>,
}

/// A cell of the terminal.
#[derive(Clone, Copy, Debug, PartialEq, Eq, Structural)]
pub struct Position {
    pub x: u16,
    pub y: u16,
}

/// The height of the search bar.
pub const SEARCH_BAR_HEIGTH: u16 = 3;

/// The search bar: the text typed so far with its cursor (a character
/// position), and whether the
/// bar has the focus and shows its hint.
pub struct SearchBarComponent {
    pub value: String,
    pub cursor: usize,
    pub is_focussed: bool,
    pub show_hint: bool,
}

/// The layout for the given parts: the split is used when the hint shows,
/// the hint sits one line below the top of its part and is one line high,
/// and the cursor goes past the visible text on the line below the border
/// (the `u16` arithmetic wraps).
pub open spec fn layout_of(
    area: Area,
    focussed: bool,
    show_hint: bool,
    empty: bool,
    split: (Area, Area),
    visual_cursor: usize,
    scroll: usize,
) -> SearchBarLayout {
    let input_area = if show_hint { split.0 } else { area };
    let hint_area = if show_hint {
        Some(Area { x: split.1.x, y: split.1.y.wrapping_add(1), width: split.1.width, height: 1 })
    } else {
        None
    };
    let shown = if visual_cursor >= scroll { (visual_cursor - scroll) as usize } else { 0usize };
    let cursor = if focussed {
        Some(Position { x: input_area.x.wrapping_add(shown as u16).wrapping_add(1), y: input_area.y.wrapping_add(1) })
    } else {
        None
    };
    SearchBarLayout { input_area, hint_area, scroll, show_prompt: empty, cursor }
}

impl SearchBarComponent {
    /// An empty search bar without focus or hint.
    pub fn new() -> (s: SearchBarComponent)
        ensures
            s.value@ == Seq::<char>::empty(),
            s.cursor == 0,
            !s.is_focussed,
            !s.show_hint,
    {
        let (value, cursor) = default_input();
        SearchBarComponent { value, cursor, is_focussed: false, show_hint: false }
    }

    /// Empties the search bar
    pub fn clear(&mut self)
        ensures
            final(self).value@ == Seq::<char>::empty(),
            final(self).cursor == 0,
            final(self).is_focussed == old(self).is_focussed,
            final(self).show_hint == old(self).show_hint,
    {
        let (value, cursor) = default_input();
        self.value = value;
        self.cursor = cursor;
    }

    /// The action that searches for the text typed so far
    pub fn submit(&self) -> (a: Action)
        ensures
            a matches Action::Search(SearchAction::StartSearch(s)) && s@ == self.value@,
    {
        Action::Search(SearchAction::StartSearch(self.value.clone()))
    }

    /// Handles a key: the submit key asks to submit and the exit key to
    /// leave the bar, both leaving the text as it is; any other key is
    /// consumed and goes to the text as the edit request it stands for, if
    /// any.
    pub fn handle_key_events(&mut self, is_submit: bool, is_exit: bool, request: Option<EditRequest>) -> (r: ActionResult)
        requires
            old(self).value@.len() < usize::MAX,
        ensures
            is_submit ==> (r matches ActionResult::Action(Action::SubmitSearchBar)) && final(self).value@
                == old(self).value@ && final(self).cursor == old(self).cursor,
            !is_submit && is_exit ==> (r matches ActionResult::Action(Action::ExitSearchBar)) && final(self).value@
                == old(self).value@ && final(self).cursor == old(self).cursor,
            !is_submit && !is_exit ==> r matches ActionResult::Consumed,
            !is_submit && !is_exit && request is None ==> final(self).value@ == old(self).value@
                && final(self).cursor == old(self).cursor,
            !is_submit && !is_exit && request is Some ==> (final(self).value@, final(self).cursor)
                == edit_result(old(self).value@, old(self).cursor, request->0),
            !is_submit && !is_exit && request is Some ==> final(self).cursor <= final(self).value@.len(),
            !is_submit && !is_exit && request is Some ==> (simple_edit(old(self).value@, old(self).cursor, request->0)
                matches Some(e) ==> (final(self).value@, final(self).cursor) == e),
            final(self).is_focussed == old(self).is_focussed,
            final(self).show_hint == old(self).show_hint,
    {
        if is_submit {
            return ActionResult::Action(Action::SubmitSearchBar);
        }
        if is_exit {
            return ActionResult::Action(Action::ExitSearchBar);
        }
        match request {
            Some(req) => {
                let (value, cursor) = apply_request(&self.value, self.cursor, req);
                self.value = value;
                self.cursor = cursor;
            },
            None => {},
        }
        ActionResult::Consumed
    }

    /// The layout of the bar drawn in `area`, from the split of the area,
    /// the display column of the cursor and the scroll of the text
    pub fn layout_from(&self, area: Area, split: (Area, Area), visual_cursor: usize, scroll: usize) -> (l: SearchBarLayout)
        ensures
            l == layout_of(area, self.is_focussed, self.show_hint, self.value@.len() == 0, split, visual_cursor, scroll),
    {
        let input_area = if self.show_hint { split.0 } else { area };
        let hint_area = if self.show_hint {
            Some(Area { x: split.1.x, y: split.1.y.wrapping_add(1), width: split.1.width, height: 1 })
        } else {
            None
        };
        let shown: usize = if visual_cursor >= scroll { visual_cursor - scroll } else { 0 };
        let cursor = if self.is_focussed {
            Some(Position { x: input_area.x.wrapping_add(shown as u16).wrapping_add(1), y: input_area.y.wrapping_add(1) })
        } else {
            None
        };
        SearchBarLayout { input_area, hint_area, scroll, show_prompt: self.value.as_str().is_empty(), cursor }
    }

    /// The layout of the bar drawn in `area`
    pub fn layout(&self, area: Area) -> (l: SearchBarLayout)
        ensures
            l == layout_of(
                area,
                self.is_focussed,
                self.show_hint,
                self.value@.len() == 0,
                if self.show_hint { percentage_split(area, INPUT_PERCENT, HINT_PERCENT) } else { (area, area) },
                visual_cursor_of(self.value@, self.cursor),
                visual_scroll_of(self.value@, self.cursor, area.width as usize),
            ),
    {
        let scroll = visual_scroll(&self.value, self.cursor, area.width as usize);
        let vc = visual_cursor(&self.value, self.cursor);
        let split = if self.show_hint { split_by_percentages(area, INPUT_PERCENT, HINT_PERCENT) } else { (area, area) };
        self.layout_from(area, split, vc, scroll)
    }
}

impl Default for SearchBarComponent {
    fn default() -> (s: SearchBarComponent)
        ensures
            s.value@ == Seq::<char>::empty(),
            s.cursor == 0,
            !s.is_focussed,
            !s.show_hint,
    {
        SearchBarComponent::new()
    }
}

} // verus!
