//! Global keyboard shortcuts: which event a key press sends.
use vstd::prelude::*;

verus! {

/// The event a shortcut sends: nothing unless the key was pressed; then the
/// first of ⌘⇧S (scan a region), ⌘⌥W (scan a window) and ⌘⇧H (history)
/// that the shortcut matches.
pub open spec fn shortcut_event_view(pressed: bool, region: bool, window: bool, history: bool) -> Option<Seq<char>> {
    if !pressed {
        None
    } else if region {
        Some("scan-region"@)
    } else if window {
        Some("scan-window"@)
    } else if history {
        Some("show-history"@)
    } else {
        None
    }
}

/// Decides the event for a key press, given whether it was a press and
/// which of the three registered shortcuts it matches.
pub fn shortcut_event(pressed: bool, region: bool, window: bool, history: bool) -> (r: Option<String>)
    ensures
        r.deep_view() == shortcut_event_view(pressed, region, window, history),
{
    if !pressed {
        None
    } else if region {
        Some(String::from_str("scan-region"))
    } else if window {
        Some(String::from_str("scan-window"))
    } else if history {
        Some(String::from_str("show-history"))
    } else {
        None
    }
}

} // verus!
