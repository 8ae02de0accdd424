//! The application's menu layout: which submenus exist and which items
//! they carry, with their identities, labels and key bindings. Wiring the
//! layout into the host's menu bar is the host's job.

use vstd::prelude::*;

verus! {

/// One menu item: the submenu it belongs to, its identity, its visible
/// label, and its accelerator.
pub struct MenuEntry {
    pub menu: String,
    pub id: String,
    pub label: String,
    pub accelerator: String,
}

/// The application's keyboard shortcuts.
pub struct AppShortcuts;

/// The number of direct-jump tab shortcuts.
pub const TAB_SHORTCUT_COUNT: u8 = 9;

impl AppShortcuts {
    /// The note and view items that precede the numbered tab shortcuts.
    pub fn fixed_menu_entries() -> (r: Vec<MenuEntry>)
        ensures
            r@.len() == 6,
            r@[0].menu@ == "file"@ && r@[0].id@ == "new-note"@ && r@[0].label@ == "New Note"@
                && r@[0].accelerator@ == "CmdOrCtrl+T"@,
            r@[1].menu@ == "file"@ && r@[1].id@ == "save-note"@ && r@[1].label@ == "Save"@
                && r@[1].accelerator@ == "CmdOrCtrl+S"@,
            r@[2].menu@ == "file"@ && r@[2].id@ == "close-tab"@ && r@[2].label@ == "Close Tab"@
                && r@[2].accelerator@ == "CmdOrCtrl+W"@,
            r@[3].menu@ == "view"@ && r@[3].id@ == "prev-tab"@ && r@[3].label@
                == "Previous Tab"@ && r@[3].accelerator@ == "CmdOrCtrl+Shift+["@,
            r@[4].menu@ == "view"@ && r@[4].id@ == "next-tab"@ && r@[4].label@ == "Next Tab"@
                && r@[4].accelerator@ == "CmdOrCtrl+Shift+]"@,
            r@[5].menu@ == "view"@ && r@[5].id@ == "toggle-graph"@ && r@[5].label@
                == "Toggle Graph"@ && r@[5].accelerator@ == "CmdOrCtrl+G"@,
    {
        let mut r: Vec<MenuEntry> = Vec::new();
        r.push(
            MenuEntry {
                menu: String::from_str("file"),
                id: String::from_str("new-note"),
                label: String::from_str("New Note"),
                accelerator: String::from_str("CmdOrCtrl+T"),
            },
        );
        r.push(
            MenuEntry {
                menu: String::from_str("file"),
                id: String::from_str("save-note"),
                label: String::from_str("Save"),
                accelerator: String::from_str("CmdOrCtrl+S"),
            },
        );
        r.push(
            MenuEntry {
                menu: String::from_str("file"),
                id: String::from_str("close-tab"),
                label: String::from_str("Close Tab"),
                accelerator: String::from_str("CmdOrCtrl+W"),
            },
        );
        r.push(
            MenuEntry {
                menu: String::from_str("view"),
                id: String::from_str("prev-tab"),
                label: String::from_str("Previous Tab"),
                accelerator: String::from_str("CmdOrCtrl+Shift+["),
            },
        );
        r.push(
            MenuEntry {
                menu: String::from_str("view"),
                id: String::from_str("next-tab"),
                label: String::from_str("Next Tab"),
                accelerator: String::from_str("CmdOrCtrl+Shift+]"),
            },
        );
        r.push(
            MenuEntry {
                menu: String::from_str("view"),
                id: String::from_str("toggle-graph"),
                label: String::from_str("Toggle Graph"),
                accelerator: String::from_str("CmdOrCtrl+G"),
            },
        );
        r
    }

    /// The direct-jump item for tab number `n`, one-based and at most
    /// [`TAB_SHORTCUT_COUNT`]: `goto-tab-n`, labelled `Go to Tab n`, on
    /// the accelerator with the same digit.
    pub fn tab_menu_entry(n: u8) -> (r: MenuEntry)
        requires
            1 <= n <= TAB_SHORTCUT_COUNT,
        ensures
            r.menu@ == "view"@,
            r.id@ == "goto-tab-"@ + seq![digit_char(n as int)],
            r.label@ == "Go to Tab "@ + seq![digit_char(n as int)],
            r.accelerator@ == "CmdOrCtrl+"@ + seq![digit_char(n as int)],
    {
        let digit = digit_str(n);
        let mut id = String::from_str("goto-tab-");
        id.append(digit);
        let mut label = String::from_str("Go to Tab ");
        label.append(digit);
        let mut accelerator = String::from_str("CmdOrCtrl+");
        accelerator.append(digit);
        MenuEntry { menu: String::from_str("view"), id, label, accelerator }
    }
}

/// The decimal digit character for a single-digit number.
pub open spec fn digit_char(n: int) -> char {
    if n == 1 {
        '1'
    } else if n == 2 {
        '2'
    } else if n == 3 {
        '3'
    } else if n == 4 {
        '4'
    } else if n == 5 {
        '5'
    } else if n == 6 {
        '6'
    } else if n == 7 {
        '7'
    } else if n == 8 {
        '8'
    } else if n == 9 {
        '9'
    } else {
        '0'
    }
}

/// The one-character string of a single-digit number.
fn digit_str(n: u8) -> (r: &'static str)
    requires
        1 <= n <= 9,
    ensures
        r@ == seq![digit_char(n as int)],
{
    proof {
        reveal_strlit("1");
        reveal_strlit("2");
        reveal_strlit("3");
        reveal_strlit("4");
        reveal_strlit("5");
        reveal_strlit("6");
        reveal_strlit("7");
        reveal_strlit("8");
        reveal_strlit("9");
    }
    let r: &'static str = if n == 1 {
        "1"
    } else if n == 2 {
        "2"
    } else if n == 3 {
        "3"
    } else if n == 4 {
        "4"
    } else if n == 5 {
        "5"
    } else if n == 6 {
        "6"
    } else if n == 7 {
        "7"
    } else if n == 8 {
        "8"
    } else {
        "9"
    };
    proof {
        assert(r@ =~= seq![digit_char(n as int)]);
    }
    r
}

} // verus!
