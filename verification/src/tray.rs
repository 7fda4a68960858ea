//! The tray menu: which event each menu item sends to the front end.
use vstd::prelude::*;

verus! {

/// The event for a menu item id; ids without an event give `None`.
pub open spec fn menu_event_view(id: Seq<char>) -> Option<Seq<char>> {
    if id == "scan_region"@ {
        Some("scan-region"@)
    } else if id == "scan_window"@ {
        Some("scan-window"@)
    } else if id == "history"@ {
        Some("show-history"@)
    } else if id == "settings"@ {
        Some("show-settings"@)
    } else if id == "about"@ {
        Some("show-about"@)
    } else {
        None
    }
}

/// The event that a click on the menu item `id` sends.
pub fn menu_event_name(id: &str) -> (r: Option<String>)
    ensures
        r.deep_view() == menu_event_view(id@),
{
    let k = String::from_str(id);
    if k == String::from_str("scan_region") {
        Some(String::from_str("scan-region"))
    } else if k == String::from_str("scan_window") {
        Some(String::from_str("scan-window"))
    } else if k == String::from_str("history") {
        Some(String::from_str("show-history"))
    } else if k == String::from_str("settings") {
        Some(String::from_str("show-settings"))
    } else if k == String::from_str("about") {
        Some(String::from_str("show-about"))
    } else {
        None
    }
}

} // verus!
