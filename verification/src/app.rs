//! The tabs of the monitor and the application state that key presses drive.
use vstd::prelude::*;
use crate::explorer::FileExplorer;
use crate::settings::Settings;

verus! {

/// The tabs of the sidebar, in the order they are shown.
#[derive(Clone, Copy, PartialEq, Eq, Structural, Debug)]
pub enum Tab {
    Overview,
    Cpu,
    Memory,
    Storage,
    Battery,
    Network,
    Processes,
    Settings,
}

/// The number of tabs.
pub const TAB_COUNT: usize = 8;

/// The position of a tab in the sidebar.
pub open spec fn tab_index(t: Tab) -> nat {
    match t {
        Tab::Overview => 0,
        Tab::Cpu => 1,
        Tab::Memory => 2,
        Tab::Storage => 3,
        Tab::Battery => 4,
        Tab::Network => 5,
        Tab::Processes => 6,
        Tab::Settings => 7,
    }
}

/// The tab at a position of the sidebar (the last one past the end).
pub open spec fn tab_at(i: nat) -> Tab {
    if i == 0 {
        Tab::Overview
    } else if i == 1 {
        Tab::Cpu
    } else if i == 2 {
        Tab::Memory
    } else if i == 3 {
        Tab::Storage
    } else if i == 4 {
        Tab::Battery
    } else if i == 5 {
        Tab::Network
    } else if i == 6 {
        Tab::Processes
    } else {
        Tab::Settings
    }
}

/// The title a tab carries in the sidebar.
pub open spec fn tab_label(t: Tab) -> Seq<char> {
    match t {
        Tab::Overview => "Overview"@,
        Tab::Cpu => "CPU"@,
        Tab::Memory => "Memory"@,
        Tab::Storage => "Storage"@,
        Tab::Battery => "Battery"@,
        Tab::Network => "Network"@,
        Tab::Processes => "Processes"@,
        Tab::Settings => "Settings"@,
    }
}

/// The tab after `t`, wrapping from the last to the first.
pub open spec fn tab_next(t: Tab) -> Tab {
    tab_at((tab_index(t) + 1) % 8)
}

/// The tab before `t`, wrapping from the first to the last.
pub open spec fn tab_prev(t: Tab) -> Tab {
    tab_at((tab_index(t) + 7) % 8)
}

impl Tab {
    /// All tabs, in sidebar order.
    pub fn all() -> (v: Vec<Tab>)
        ensures
            v@.len() == 8,
            forall|i: int| 0 <= i < 8 ==> #[trigger] v@[i] == tab_at(i as nat),
    {
        vec![
            Tab::Overview,
            Tab::Cpu,
            Tab::Memory,
            Tab::Storage,
            Tab::Battery,
            Tab::Network,
            Tab::Processes,
            Tab::Settings,
        ]
    }

    /// The tab at position `i` of the sidebar.
    pub fn at(i: usize) -> (t: Tab)
        requires
            i < 8,
        ensures
            t == tab_at(i as nat),
    {
        match i {
            0 => Tab::Overview,
            1 => Tab::Cpu,
            2 => Tab::Memory,
            3 => Tab::Storage,
            4 => Tab::Battery,
            5 => Tab::Network,
            6 => Tab::Processes,
            _ => Tab::Settings,
        }
    }

    /// The position of this tab in the sidebar.
    pub fn index(self) -> (i: usize)
        ensures
            i == tab_index(self),
    {
        match self {
            Tab::Overview => 0,
            Tab::Cpu => 1,
            Tab::Memory => 2,
            Tab::Storage => 3,
            Tab::Battery => 4,
            Tab::Network => 5,
            Tab::Processes => 6,
            Tab::Settings => 7,
        }
    }

    /// The title of this tab.
    pub fn label(self) -> (s: &'static str)
        ensures
            s@ == tab_label(self),
    {
        match self {
            Tab::Overview => "Overview",
            Tab::Cpu => "CPU",
            Tab::Memory => "Memory",
            Tab::Storage => "Storage",
            Tab::Battery => "Battery",
            Tab::Network => "Network",
            Tab::Processes => "Processes",
            Tab::Settings => "Settings",
        }
    }
}

/// Every tab sits at its own position: `tab_at` undoes `tab_index`.
pub proof fn lemma_tab_index_roundtrip(t: Tab)
    ensures
        tab_index(t) < 8,
        tab_at(tab_index(t)) == t,
{
}

/// Going to the next tab and then to the previous one returns to the start, and so
/// does the reverse.
pub proof fn lemma_next_prev_inverse(t: Tab)
    ensures
        tab_prev(tab_next(t)) == t,
        tab_next(tab_prev(t)) == t,
{
}

proof fn lemma_next_index(t: Tab)
    ensures
        tab_index(tab_next(t)) == if tab_index(t) == 7 { 0 } else { tab_index(t) + 1 },
{
}

/// Eight steps forward visit every tab and return to the start.
pub proof fn lemma_next_cycle(t: Tab)
    ensures
        tab_next(tab_next(tab_next(tab_next(tab_next(tab_next(tab_next(tab_next(t)))))))) == t,
{
    let t1 = tab_next(t);
    let t2 = tab_next(t1);
    let t3 = tab_next(t2);
    let t4 = tab_next(t3);
    let t5 = tab_next(t4);
    let t6 = tab_next(t5);
    let t7 = tab_next(t6);
    let t8 = tab_next(t7);
    lemma_next_index(t);
    lemma_next_index(t1);
    lemma_next_index(t2);
    lemma_next_index(t3);
    lemma_next_index(t4);
    lemma_next_index(t5);
    lemma_next_index(t6);
    lemma_next_index(t7);
    lemma_tab_index_roundtrip(t);
    lemma_tab_index_roundtrip(t8);
    assert(tab_index(t8) == tab_index(t));
}

/// The state that the keyboard drives: the tab on show, the file explorer of the
/// Storage tab, the settings, and whether the monitor keeps running.
pub struct App {
    pub tab: Tab,
    pub explorer: FileExplorer,
    pub settings: Settings,
    pub running: bool,
}

impl App {
    /// The directory the file explorer starts in: the Termux home where it exists,
    /// else `/tmp`.
    pub fn start_dir(termux_home_exists: bool) -> (s: &'static str)
        ensures
            termux_home_exists ==> s@ == "/data/data/com.termux/files/home"@,
            !termux_home_exists ==> s@ == "/tmp"@,
    {
        if termux_home_exists {
            "/data/data/com.termux/files/home"
        } else {
            "/tmp"
        }
    }

    /// A running monitor on the Overview tab with default settings, whose explorer
    /// is `explorer`.
    pub fn new(explorer: FileExplorer) -> (a: App)
        ensures
            a.tab == Tab::Overview,
            a.explorer == explorer,
            a.settings == crate::settings::default_settings(),
            a.running,
    {
        App { tab: Tab::Overview, explorer, settings: Settings::default(), running: true }
    }

    /// The position of the tab on show.
    pub fn idx(&self) -> (i: usize)
        ensures
            i == tab_index(self.tab),
    {
        self.tab.index()
    }

    /// Shows the next tab, wrapping from the last to the first.
    pub fn next(&mut self)
        ensures
            *final(self) == (App { tab: tab_next(old(self).tab), ..*old(self) }),
    {
        self.tab = Tab::at((self.idx() + 1) % TAB_COUNT);
    }

    /// Shows the previous tab, wrapping from the first to the last.
    pub fn prev(&mut self)
        ensures
            *final(self) == (App { tab: tab_prev(old(self).tab), ..*old(self) }),
    {
        self.tab = Tab::at((self.idx() + TAB_COUNT - 1) % TAB_COUNT);
    }
}

} // verus!
