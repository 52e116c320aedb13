//! Plain screen and overlay state: which screen is shown, what is focused,
//! scroll positions, the confirmation dialog, the search box and the
//! version-history list. All of it is ordinary data with exact contracts;
//! rendering lives outside the library.

use vstd::prelude::*;

use crate::item::Item;
use crate::store::ItemVersion;
use crate::text::{chars_of, string_of};

verus! {

/// Which full screen is active.
#[derive(Debug, Clone, Copy, PartialEq, Eq, Structural)]
pub enum Screen {
    Main,
    View,
    Edit,
    Search,
    Settings,
    Help,
}

/// Which pane of the main screen has focus.
#[derive(Debug, Clone, Copy, PartialEq, Eq, Structural)]
pub enum Focus {
    Sidebar,
    ItemList,
}

/// Scroll state of the read-only item view.
#[derive(Debug, Clone, Copy, PartialEq, Eq, Structural)]
pub struct ViewState {
    pub scroll: u16,
    pub max_scroll: u16,
    /// `None` means the live row is shown.
    pub viewing_version: Option<u64>,
    /// The current (highest) version of the shown item.
    pub max_version: u64,
}

impl Default for ViewState {
    fn default() -> (r: Self)
        ensures
            r.scroll == 0 && r.max_scroll == 0 && r.viewing_version is None && r.max_version == 0,
    {
        ViewState { scroll: 0, max_scroll: 0, viewing_version: None, max_version: 0 }
    }
}

/// Scroll state of the help overlay.
#[derive(Debug, Clone, Copy, PartialEq, Eq, Structural)]
pub struct HelpState {
    pub scroll: u16,
    pub max_scroll: u16,
}

impl Default for HelpState {
    fn default() -> (r: Self)
        ensures
            r.scroll == 0 && r.max_scroll == 0,
    {
        HelpState { scroll: 0, max_scroll: 0 }
    }
}

impl HelpState {
    pub fn scroll_down(&mut self)
        ensures
            final (self).max_scroll == old(self).max_scroll,
            old(self).scroll < old(self).max_scroll ==> final (self).scroll == old(self).scroll
                + 1,
            old(self).scroll >= old(self).max_scroll ==> final (self).scroll == old(self).scroll,
    {
        if self.scroll < self.max_scroll {
            self.scroll += 1;
        }
    }

    pub fn scroll_up(&mut self)
        ensures
            final (self).max_scroll == old(self).max_scroll,
            old(self).scroll > 0 ==> final (self).scroll == old(self).scroll - 1,
            old(self).scroll == 0 ==> final (self).scroll == 0,
    {
        if self.scroll > 0 {
            self.scroll -= 1;
        }
    }
}

/// A yes/no confirmation overlay.
pub struct ConfirmDialog {
    pub title: String,
    pub message: String,
    pub confirm_label: String,
    pub cancel_label: String,
    /// `true` selects the confirming button, `false` the cancelling one.
    pub selected: bool,
}

impl ConfirmDialog {
    /// The dialog asking whether to delete `item_name`; cancel is
    /// preselected.
    pub fn delete(item_name: &str) -> (r: ConfirmDialog)
        ensures
            r.title@ == " Confirm Delete "@,
            r.message@ == "Are you sure you want to delete '"@ + item_name@ + "'?"@,
            r.confirm_label@ == "Delete"@,
            r.cancel_label@ == "Cancel"@,
            !r.selected,
    {
        let mut message = String::new();
        message.append("Are you sure you want to delete '");
        message.append(item_name);
        message.append("'?");
        proof {
            assert(message@ =~= "Are you sure you want to delete '"@ + item_name@ + "'?"@);
        }
        ConfirmDialog {
            title: string_of(&chars_of(" Confirm Delete ")),
            message,
            confirm_label: string_of(&chars_of("Delete")),
            cancel_label: string_of(&chars_of("Cancel")),
            selected: false,
        }
    }

    /// The dialog asking whether to discard unsaved edits; keep-editing is
    /// preselected.
    pub fn discard_changes() -> (r: ConfirmDialog)
        ensures
            r.title@ == " Unsaved Changes "@,
            r.message@ == "You have unsaved changes. Discard them?"@,
            r.confirm_label@ == "Discard"@,
            r.cancel_label@ == "Keep Editing"@,
            !r.selected,
    {
        ConfirmDialog {
            title: string_of(&chars_of(" Unsaved Changes ")),
            message: string_of(&chars_of("You have unsaved changes. Discard them?")),
            confirm_label: string_of(&chars_of("Discard")),
            cancel_label: string_of(&chars_of("Keep Editing")),
            selected: false,
        }
    }

    /// Move between the two buttons.
    pub fn toggle_selection(&mut self)
        ensures
            final (self).selected == !old(self).selected,
            final (self).title@ == old(self).title@,
            final (self).message@ == old(self).message@,
    {
        self.selected = !self.selected;
    }
}

/// The search overlay: the query under edit and the current results.
pub struct SearchState {
    pub query: String,
    /// Cursor position, counted in characters.
    pub cursor_pos: usize,
    pub results: Vec<Item>,
    pub selected_index: usize,
}

impl Default for SearchState {
    fn default() -> (r: Self)
        ensures
            r.query@ == Seq::<char>::empty(),
            r.cursor_pos == 0,
            r.results@.len() == 0,
            r.selected_index == 0,
    {
        SearchState { query: String::new(), cursor_pos: 0, results: Vec::new(), selected_index: 0 }
    }
}

impl SearchState {
    /// Type one character at the cursor.
    pub fn insert_char(&mut self, c: char)
        requires
            old(self).cursor_pos <= old(self).query@.len(),
            old(self).query@.len() < usize::MAX,
        ensures
            final (self).query@ == old(self).query@.insert(old(self).cursor_pos as int, c),
            final (self).cursor_pos == old(self).cursor_pos + 1,
            final (self).results@ == old(self).results@,
            final (self).selected_index == old(self).selected_index,
    {
        let mut cs = chars_of(self.query.as_str());
        cs.insert(self.cursor_pos, c);
        self.query = string_of(&cs);
        self.cursor_pos += 1;
    }

    /// Erase the character before the cursor, if any.
    pub fn delete_char(&mut self)
        requires
            old(self).cursor_pos <= old(self).query@.len(),
        ensures
            old(self).cursor_pos > 0 ==> final (self).query@ == old(self).query@.remove(
                old(self).cursor_pos - 1,
            ) && final (self).cursor_pos == old(self).cursor_pos - 1,
            old(self).cursor_pos == 0 ==> final (self).query@ == old(self).query@ && final (self).cursor_pos == 0,
            final (self).results@ == old(self).results@,
            final (self).selected_index == old(self).selected_index,
    {
        if self.cursor_pos > 0 {
            let mut cs = chars_of(self.query.as_str());
            cs.remove(self.cursor_pos - 1);
            self.query = string_of(&cs);
            self.cursor_pos -= 1;
        }
    }

    pub fn move_cursor_left(&mut self)
        ensures
            final (self).cursor_pos == if old(self).cursor_pos > 0 {
                (old(self).cursor_pos - 1) as usize
            } else {
                0usize
            },
            final (self).query@ == old(self).query@,
            final (self).results@ == old(self).results@,
            final (self).selected_index == old(self).selected_index,
    {
        if self.cursor_pos > 0 {
            self.cursor_pos -= 1;
        }
    }

    pub fn move_cursor_right(&mut self)
        ensures
            final (self).cursor_pos == if old(self).cursor_pos < old(self).query@.len() {
                (old(self).cursor_pos + 1) as usize
            } else {
                old(self).query@.len() as usize
            },
            final (self).query@ == old(self).query@,
            final (self).results@ == old(self).results@,
            final (self).selected_index == old(self).selected_index,
    {
        let n = self.query.as_str().unicode_len();
        if self.cursor_pos < n {
            self.cursor_pos += 1;
        } else {
            self.cursor_pos = n;
        }
    }

    /// Empty the query and drop the results.
    pub fn clear(&mut self)
        ensures
            final (self).query@ == Seq::<char>::empty(),
            final (self).cursor_pos == 0,
            final (self).results@.len() == 0,
            final (self).selected_index == 0,
    {
        self.query = String::new();
        self.cursor_pos = 0;
        self.results = Vec::new();
        self.selected_index = 0;
    }

    /// Step the selection down, wrapping at the end.
    pub fn select_next(&mut self)
        ensures
            final (self).results@ == old(self).results@,
            old(self).results@.len() == 0 ==> final (self).selected_index == old(self).selected_index,
            old(self).results@.len() > 0 ==> final (self).selected_index == (if old(self).selected_index >= old(self).results@.len() - 1 {
                0usize
            } else {
                (old(self).selected_index + 1) as usize
            }),
    {
        if self.results.len() > 0 {
            if self.selected_index >= self.results.len() - 1 {
                self.selected_index = 0;
            } else {
                self.selected_index = self.selected_index + 1;
            }
        }
    }

    /// Step the selection up, wrapping at the start.
    pub fn select_prev(&mut self)
        ensures
            final (self).results@ == old(self).results@,
            old(self).results@.len() == 0 ==> final (self).selected_index == old(self).selected_index,
            old(self).results@.len() > 0 && old(self).selected_index > 0 ==> final (self).selected_index == old(self).selected_index - 1,
            old(self).results@.len() > 0 && old(self).selected_index == 0 ==> final (self).selected_index == old(self).results@.len() - 1,
    {
        if self.results.len() > 0 {
            if self.selected_index > 0 {
                self.selected_index -= 1;
            } else {
                self.selected_index = self.results.len() - 1;
            }
        }
    }

    /// The currently selected result, if the selection is in range.
    pub fn selected_item(&self) -> (r: Option<&Item>)
        ensures
            self.selected_index < self.results@.len() ==> (r matches Some(item) && item
                == &self.results@[self.selected_index as int]),
            self.selected_index >= self.results@.len() ==> r is None,
    {
        if self.selected_index < self.results.len() {
            Some(&self.results[self.selected_index])
        } else {
            None
        }
    }
}

/// The version-history overlay: the listed versions and which is selected.
pub struct HistoryState {
    pub versions: Vec<ItemVersion>,
    /// The selected line, when the list is not empty.
    pub selected: Option<usize>,
    pub item_name: String,
}

impl HistoryState {
    /// Open the overlay on a version list; the newest line starts
    /// selected.
    pub fn new(versions: Vec<ItemVersion>, item_name: String) -> (r: HistoryState)
        ensures
            r.versions@ == versions@,
            r.item_name@ == item_name@,
            versions@.len() > 0 ==> r.selected == Some(0usize),
            versions@.len() == 0 ==> r.selected is None,
    {
        let selected = if versions.len() > 0 {
            Some(0usize)
        } else {
            None
        };
        HistoryState { versions, selected, item_name }
    }

    /// The selected history line, if any.
    pub fn selected_version(&self) -> (r: Option<&ItemVersion>)
        ensures
            match r {
                Some(v) => self.selected matches Some(i) && i < self.versions@.len() && v
                    == &self.versions@[self.selected.unwrap() as int],
                None => self.selected is None || self.selected.unwrap() >= self.versions@.len(),
            },
    {
        match self.selected {
            Some(i) => {
                if i < self.versions.len() {
                    Some(&self.versions[i])
                } else {
                    None
                }
            },
            None => None,
        }
    }

    /// Step the selection down, wrapping at the end.
    pub fn select_next(&mut self)
        ensures
            final (self).versions@ == old(self).versions@,
            old(self).versions@.len() == 0 ==> final (self).selected == old(self).selected,
            old(self).versions@.len() > 0 ==> (final (self).selected matches Some(i) && i == (
            match old(self).selected {
                Some(j) => if j >= old(self).versions@.len() - 1 {
                    0usize
                } else {
                    (j + 1) as usize
                },
                None => 0usize,
            })),
    {
        if self.versions.len() == 0 {
            return ;
        }
        let i = match self.selected {
            Some(i) => {
                if i >= self.versions.len() - 1 {
                    0
                } else {
                    i + 1
                }
            },
            None => 0,
        };
        self.selected = Some(i);
    }

    /// Step the selection up, wrapping at the start.
    pub fn select_previous(&mut self)
        ensures
            final (self).versions@ == old(self).versions@,
            old(self).versions@.len() == 0 ==> final (self).selected == old(self).selected,
            old(self).versions@.len() > 0 ==> (final (self).selected matches Some(i) && i == (
            match old(self).selected {
                Some(j) => if j == 0 {
                    (old(self).versions@.len() - 1) as usize
                } else {
                    (j - 1) as usize
                },
                None => 0usize,
            })),
    {
        if self.versions.len() == 0 {
            return ;
        }
        let i = match self.selected {
            Some(i) => {
                if i == 0 {
                    self.versions.len() - 1
                } else {
                    i - 1
                }
            },
            None => 0,
        };
        self.selected = Some(i);
    }
}

/// One request to a completion provider.
#[derive(Debug, Clone)]
pub struct LlmRequest {
    pub system_prompt: String,
    pub user_message: String,
    pub max_tokens: u32,
}

/// One completion handed back by a provider.
#[derive(Debug, Clone)]
pub struct LlmResponse {
    pub content: String,
}

} // verus!
