//! Whether clipboard monitoring is on, and the tray menu label that shows it.
use vstd::prelude::*;
use crate::text::{owned, str_eq};

verus! {

broadcast use vstd::string::group_string_axioms;

/// Whether the clipboard monitor records what it sees. Monitoring starts on.
pub struct MonitoringState {
    pub monitoring: bool,
}

impl MonitoringState {
    /// Monitoring on, as at start-up.
    pub fn new() -> (s: Self)
        ensures
            s.monitoring,
    {
        MonitoringState { monitoring: true }
    }
}

/// Whether monitoring is on.
pub fn is_monitoring(state: &MonitoringState) -> (b: bool)
    ensures
        b == state.monitoring,
{
    state.monitoring
}

/// The state after a switch.
pub open spec fn toggled(s: MonitoringState) -> MonitoringState {
    MonitoringState { monitoring: !s.monitoring }
}

/// Switches monitoring off where it is on, and on where it is off.
pub fn toggle_monitoring(state: &mut MonitoringState)
    ensures
        *final(state) == toggled(*old(state)),
{
    let current = state.monitoring;
    state.monitoring = !current;
}

/// Switches monitoring and returns whether it is now on.
pub fn toggle_monitor(state: &mut MonitoringState) -> (now_on: bool)
    ensures
        *final(state) == toggled(*old(state)),
        now_on == final(state).monitoring,
{
    let current = is_monitoring(state);
    toggle_monitoring(state);
    !current
}

/// Switching twice leaves monitoring as it was.
pub proof fn lemma_toggle_twice(s: MonitoringState)
    ensures
        toggled(toggled(s)) == s,
{
}

/// The label of the tray menu item that switches monitoring.
pub open spec fn monitor_label_spec(monitoring: bool) -> Seq<char> {
    if monitoring {
        "Pause Monitoring"@
    } else {
        "Resume Monitoring"@
    }
}

/// The label of the tray menu item that switches monitoring: it offers to
/// pause while monitoring is on and to resume while it is off.
pub fn monitor_label(monitoring: bool) -> (s: String)
    ensures
        s@ == monitor_label_spec(monitoring),
{
    if monitoring {
        owned("Pause Monitoring")
    } else {
        owned("Resume Monitoring")
    }
}

/// An entry of the tray menu.
pub enum MenuEntry {
    /// A clickable item with its id and label.
    Item { id: String, label: String },
    /// A dividing line.
    Separator,
}

/// An entry of the tray menu by its texts.
pub ghost enum MenuEntryView {
    Item { id: Seq<char>, label: Seq<char> },
    Separator,
}

impl View for MenuEntry {
    type V = MenuEntryView;

    open spec fn view(&self) -> MenuEntryView {
        match self {
            MenuEntry::Item { id, label } => MenuEntryView::Item { id: id@, label: label@ },
            MenuEntry::Separator => MenuEntryView::Separator,
        }
    }
}

/// The tray menu: show the window, switch monitoring (labelled by its
/// state), quit; separators between them.
pub open spec fn tray_menu_spec(monitoring: bool) -> Seq<MenuEntryView> {
    seq![
        MenuEntryView::Item { id: "show"@, label: "Show OmniClip"@ },
        MenuEntryView::Separator,
        MenuEntryView::Item { id: "monitor"@, label: monitor_label_spec(monitoring) },
        MenuEntryView::Separator,
        MenuEntryView::Item { id: "quit"@, label: "Quit OmniClip"@ },
    ]
}

/// The entries of the tray menu, in order.
pub fn tray_menu(monitoring: bool) -> (m: Vec<MenuEntry>)
    ensures
        m@.map_values(|e: MenuEntry| e@) == tray_menu_spec(monitoring),
{
    let mut m: Vec<MenuEntry> = Vec::new();
    m.push(MenuEntry::Item { id: owned("show"), label: owned("Show OmniClip") });
    m.push(MenuEntry::Separator);
    m.push(MenuEntry::Item { id: owned("monitor"), label: monitor_label(monitoring) });
    m.push(MenuEntry::Separator);
    m.push(MenuEntry::Item { id: owned("quit"), label: owned("Quit OmniClip") });
    assert(m@.map_values(|e: MenuEntry| e@) =~= tray_menu_spec(monitoring));
    m
}

/// What a click on a tray menu item does.
#[derive(Debug, Clone, Copy, PartialEq, Eq, Structural)]
pub enum TrayAction {
    /// Show and focus the main window.
    ShowWindow,
    /// Switch monitoring, tell the window, and rebuild the menu.
    ToggleMonitoring,
    /// End the program.
    Quit,
    /// Nothing (an unknown item).
    Nothing,
}

/// What a click on the tray menu item with id `id` does.
pub fn tray_action(id: &str) -> (a: TrayAction)
    ensures
        a == (if id@ == "show"@ {
            TrayAction::ShowWindow
        } else if id@ == "monitor"@ {
            TrayAction::ToggleMonitoring
        } else if id@ == "quit"@ {
            TrayAction::Quit
        } else {
            TrayAction::Nothing
        }),
{
    if str_eq(id, "show") {
        TrayAction::ShowWindow
    } else if str_eq(id, "monitor") {
        TrayAction::ToggleMonitoring
    } else if str_eq(id, "quit") {
        TrayAction::Quit
    } else {
        TrayAction::Nothing
    }
}

} // verus!
