//! The actions the document controller reacts to. The caller's input layer
//! turns key presses into these; the controller's `update` drives the state
//! machine.

use vstd::prelude::*;

verus! {

#[derive(Debug, Clone, Copy, PartialEq, Eq)]
pub enum Action {
    AppNavigation(AppNavigationAction),
    MainView(MainViewActions),
    Editing(EditingAction),
    Searching(SearchingAction),
    App(SystemAction),
}

#[derive(Debug, Clone, Copy, PartialEq, Eq)]
pub enum AppNavigationAction {
    ToViewingScreen,
    ToEditingScreen,
    ToSearchingWidget,
}

#[derive(Debug, Clone, Copy, PartialEq, Eq)]
pub enum MainViewActions {
    MoveDown,
    MoveUp,
    MoveToTop,
    MoveToBottom,
    MoveHalfPageDown,
    MoveHalfPageUp,
}

#[derive(Debug, Clone, Copy, PartialEq, Eq)]
pub enum EditingAction {
    SwitchToKey,
    SwitchToValue,
    EditExisting,
    AppendChar(char),
    AppendToKey(char),
    AppendToValue(char),
    MoveCursor(CursorDirection),
    PopFromKey,
    PopFromValue,
    Submit,
}

#[derive(Debug, Clone, Copy, PartialEq, Eq)]
pub enum SearchingAction {
    AppendChar(char),
    MoveCursor(CursorDirection),
    PopChar,
    ClearSearch,
    GoToPrevMatch,
    GoToNextMatch,
    ClearMatches,
    ReportResults,
}

#[derive(Debug, Clone, Copy, PartialEq, Eq)]
pub enum CursorDirection {
    Left,
    Right,
}

#[derive(Debug, Clone, Copy, PartialEq, Eq)]
pub enum SystemAction {
    Quit,
}

} // verus!
