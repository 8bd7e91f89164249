//! Pane focus, work-pane tabs and the user actions the application reacts to.
use vstd::prelude::*;

verus! {

/// Which pane has keyboard focus.
#[derive(Debug, Clone, Copy, PartialEq, Eq, Structural)]
pub enum Focus {
    Browser,
    WorkPane,
}

/// The tabs of the right-hand work pane, in display order.
#[derive(Debug, Clone, Copy, PartialEq, Eq, Structural)]
pub enum WorkTab {
    Selection,
    Preview,
    Queue,
    Logs,
}

/// Position of a tab in the display order.
pub open spec fn tab_index(t: WorkTab) -> int {
    match t {
        WorkTab::Selection => 0,
        WorkTab::Preview => 1,
        WorkTab::Queue => 2,
        WorkTab::Logs => 3,
    }
}

impl WorkTab {
    /// All tabs in display order.
    pub const ALL: [WorkTab; 4] = [WorkTab::Selection, WorkTab::Preview, WorkTab::Queue, WorkTab::Logs];

    /// The tab's title.
    pub fn label(self) -> (r: &'static str)
        ensures
            r@ == match self {
                WorkTab::Selection => "Selection"@,
                WorkTab::Preview => "Details"@,
                WorkTab::Queue => "Queue"@,
                WorkTab::Logs => "Logs"@,
            },
    {
        match self {
            WorkTab::Selection => "Selection",
            WorkTab::Preview => "Details",
            WorkTab::Queue => "Queue",
            WorkTab::Logs => "Logs",
        }
    }

    /// The tab after this one, wrapping from the last to the first.
    pub fn next(self) -> (r: Self)
        ensures
            r == tab_after(self),
    {
        match self {
            WorkTab::Selection => WorkTab::Preview,
            WorkTab::Preview => WorkTab::Queue,
            WorkTab::Queue => WorkTab::Logs,
            WorkTab::Logs => WorkTab::Selection,
        }
    }

    /// The tab before this one, wrapping from the first to the last.
    pub fn previous(self) -> (r: Self)
        ensures
            r == tab_before(self),
    {
        match self {
            WorkTab::Selection => WorkTab::Logs,
            WorkTab::Preview => WorkTab::Selection,
            WorkTab::Queue => WorkTab::Preview,
            WorkTab::Logs => WorkTab::Queue,
        }
    }
}

/// The tab at position `i` of the display order.
pub open spec fn tab_at(i: int) -> WorkTab {
    if i == 0 {
        WorkTab::Selection
    } else if i == 1 {
        WorkTab::Preview
    } else if i == 2 {
        WorkTab::Queue
    } else {
        WorkTab::Logs
    }
}

/// The tab that follows `t` in display order, wrapping around.
pub open spec fn tab_after(t: WorkTab) -> WorkTab {
    tab_at((tab_index(t) + 1) % 4)
}

/// The tab that precedes `t` in display order, wrapping around.
pub open spec fn tab_before(t: WorkTab) -> WorkTab {
    tab_at((tab_index(t) + 3) % 4)
}

/// Stepping back undoes stepping forward and the other way round, and four steps
/// forward visit every tab and come back to the start.
pub proof fn lemma_tab_cycle(t: WorkTab)
    ensures
        tab_before(tab_after(t)) == t,
        tab_after(tab_before(t)) == t,
        tab_after(tab_after(tab_after(tab_after(t)))) == t,
        t != tab_after(t),
{
}

/// User intents produced from key presses and the timer.
#[derive(Debug, Clone, Copy, PartialEq, Eq, Structural)]
pub enum Action {
    QuitRequested,
    CancelDialog,
    MoveUp,
    MoveDown,
    MoveLeft,
    MoveRight,
    Enter,
    BackspaceKey,
    FocusNext,
    ToggleSelectCurrent,
    NextTab,
    PreviousTab,
    OpenPreview,
    OpenLogsTab,
    QueueDownloadSelected,
    QueueDownloadFolder,
    RunScript,
    Refresh,
    OpenFilter,
    ToggleHelp,
    InputChar(char),
    Tick,
}

} // verus!
