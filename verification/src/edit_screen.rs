//! State of the item editor: the focused field, the text under edit, and
//! cursor motion, including line-wise movement through multi-line fields.

use vstd::prelude::*;

use crate::category::Category;
use crate::item::{opt_view, Item, ItemView};
use crate::text::{chars_of, filter_controls, spec_filter_controls, string_of};

verus! {

/// The editable fields, in tab order; which ones are reachable depends on
/// the category.
#[derive(Debug, Clone, Copy, PartialEq, Eq, Structural)]
pub enum EditField {
    Name,
    Category,
    Tags,
    Model,
    Tools,
    Description,
    Content,
}

impl EditField {
    /// The field after this one for the given category.
    pub open spec fn spec_next(self, category: Category) -> EditField {
        match self {
            EditField::Name => EditField::Category,
            EditField::Category => EditField::Tags,
            EditField::Tags => match category {
                Category::Agent => EditField::Model,
                Category::Command => EditField::Model,
                Category::Skill => EditField::Tools,
                Category::Prompt => EditField::Description,
            },
            EditField::Model => EditField::Tools,
            EditField::Tools => EditField::Description,
            EditField::Description => EditField::Content,
            EditField::Content => EditField::Name,
        }
    }

    /// The field before this one for the given category.
    pub open spec fn spec_prev(self, category: Category) -> EditField {
        match self {
            EditField::Name => EditField::Content,
            EditField::Category => EditField::Name,
            EditField::Tags => EditField::Category,
            EditField::Model => EditField::Tags,
            EditField::Tools => match category {
                Category::Agent => EditField::Model,
                Category::Command => EditField::Model,
                _ => EditField::Tags,
            },
            EditField::Description => match category {
                Category::Agent => EditField::Tools,
                Category::Command => EditField::Tools,
                Category::Skill => EditField::Tools,
                Category::Prompt => EditField::Tags,
            },
            EditField::Content => EditField::Description,
        }
    }

    pub fn next(&self, category: Category) -> (r: EditField)
        ensures
            r == self.spec_next(category),
    {
        match self {
            EditField::Name => EditField::Category,
            EditField::Category => EditField::Tags,
            EditField::Tags => match category {
                Category::Agent | Category::Command => EditField::Model,
                Category::Skill => EditField::Tools,
                Category::Prompt => EditField::Description,
            },
            EditField::Model => EditField::Tools,
            EditField::Tools => EditField::Description,
            EditField::Description => EditField::Content,
            EditField::Content => EditField::Name,
        }
    }

    pub fn prev(&self, category: Category) -> (r: EditField)
        ensures
            r == self.spec_prev(category),
    {
        match self {
            EditField::Name => EditField::Content,
            EditField::Category => EditField::Name,
            EditField::Tags => EditField::Category,
            EditField::Model => EditField::Tags,
            EditField::Tools => match category {
                Category::Agent | Category::Command => EditField::Model,
                _ => EditField::Tags,
            },
            EditField::Description => match category {
                Category::Agent | Category::Command => EditField::Tools,
                Category::Skill => EditField::Tools,
                Category::Prompt => EditField::Tags,
            },
            EditField::Content => EditField::Description,
        }
    }
}

/// The item under edit and the editor's focus and cursor.
pub struct EditState {
    pub item: Item,
    pub is_new: bool,
    pub focused_field: EditField,
    /// Cursor position in the focused field, counted in characters.
    pub cursor_pos: usize,
    pub has_changes: bool,
    pub content_scroll: u16,
    pub show_category_dropdown: bool,
    pub category_dropdown_index: usize,
}

/// The text the focused field currently shows.
pub open spec fn edit_field_text(v: ItemView, f: EditField) -> Seq<char> {
    match f {
        EditField::Name => v.name,
        EditField::Category => v.category.spec_str(),
        EditField::Tags => opt_or_empty_text(v.tags),
        EditField::Model => opt_or_empty_text(v.model),
        EditField::Tools => match v.tools {
            Some(t) => t,
            None => opt_or_empty_text(v.allowed_tools),
        },
        EditField::Description => opt_or_empty_text(v.description),
        EditField::Content => v.content,
    }
}

/// An optional field's text, or nothing.
pub open spec fn opt_or_empty_text(o: Option<Seq<char>>) -> Seq<char> {
    match o {
        Some(t) => t,
        None => Seq::empty(),
    }
}

/// An edited text as an optional field: empty text clears the field.
pub open spec fn opt_of_text(t: Seq<char>) -> Option<Seq<char>> {
    if t.len() == 0 {
        None
    } else {
        Some(t)
    }
}

/// The item after writing text `t` into field `f`.
pub open spec fn spec_set_field(v: ItemView, f: EditField, t: Seq<char>) -> ItemView {
    match f {
        EditField::Name => ItemView { name: t, ..v },
        EditField::Category => ItemView { category: Category::spec_from_str(t), ..v },
        EditField::Tags => ItemView { tags: opt_of_text(t), ..v },
        EditField::Model => ItemView { model: opt_of_text(t), ..v },
        EditField::Tools => match v.category {
            Category::Agent => ItemView { tools: opt_of_text(t), ..v },
            Category::Skill => ItemView { allowed_tools: opt_of_text(t), ..v },
            Category::Command => ItemView { allowed_tools: opt_of_text(t), ..v },
            Category::Prompt => v,
        },
        EditField::Description => ItemView { description: opt_of_text(t), ..v },
        EditField::Content => ItemView { content: t, ..v },
    }
}

/// The start of the line containing position `pos`: just after the last
/// line break before it.
pub open spec fn line_start(s: Seq<char>, pos: int) -> int
    decreases pos,
{
    if pos <= 0 {
        0
    } else if s[pos - 1] == '\n' {
        pos
    } else {
        line_start(s, pos - 1)
    }
}

/// The first line break at or after `from`, or the text's length if none
/// follows.
pub open spec fn next_newline(s: Seq<char>, from: int) -> int
    decreases s.len() - from,
{
    if from >= s.len() {
        s.len() as int
    } else if s[from] == '\n' {
        from
    } else {
        next_newline(s, from + 1)
    }
}

pub proof fn lemma_next_newline_bounds(s: Seq<char>, from: int)
    requires
        0 <= from <= s.len(),
    ensures
        from <= next_newline(s, from) <= s.len(),
    decreases s.len() - from,
{
    if from < s.len() && s[from] != '\n' {
        lemma_next_newline_bounds(s, from + 1);
    }
}

/// Where the line containing `pos` begins, by a forward scan.
fn find_line_start(cs: &Vec<char>, pos: usize) -> (r: usize)
    requires
        pos <= cs@.len(),
    ensures
        r == line_start(cs@, pos as int),
        r <= pos,
{
    let mut ls: usize = 0;
    let mut i: usize = 0;
    while i < pos
        invariant
            i <= pos <= cs@.len(),
            ls == line_start(cs@, i as int),
            ls <= i,
        decreases pos - i,
    {
        if cs[i] == '\n' {
            ls = i + 1;
        }
        i += 1;
    }
    ls
}

/// The first line break at or after `from`, by a forward scan.
fn find_next_newline(cs: &Vec<char>, from: usize) -> (r: usize)
    requires
        from <= cs@.len(),
    ensures
        r == next_newline(cs@, from as int),
        from <= r <= cs@.len(),
{
    let mut i: usize = from;
    while i < cs.len() && cs[i] != '\n'
        invariant
            from <= i <= cs@.len(),
            next_newline(cs@, from as int) == next_newline(cs@, i as int),
        decreases cs@.len() - i,
    {
        i += 1;
    }
    proof {
        lemma_next_newline_bounds(cs@, i as int);
    }
    i
}

impl EditState {
    /// An editor opened on a blank prompt.
    pub fn new_item() -> (r: EditState)
        ensures
            r.item@.name == Seq::<char>::empty(),
            r.item@.category == Category::Prompt,
            r.item@.content == Seq::<char>::empty(),
            r.item@.id is None,
            r.is_new,
            r.focused_field == EditField::Name,
            r.cursor_pos == 0,
            !r.has_changes,
            r.content_scroll == 0,
            !r.show_category_dropdown,
            r.category_dropdown_index == 0,
    {
        EditState {
            item: Item::new(String::new(), Category::Prompt, String::new()),
            is_new: true,
            focused_field: EditField::Name,
            cursor_pos: 0,
            has_changes: false,
            content_scroll: 0,
            show_category_dropdown: false,
            category_dropdown_index: 0,
        }
    }

    /// An editor opened on an existing item; the cursor starts at the end
    /// of its name.
    pub fn edit_item(item: Item) -> (r: EditState)
        ensures
            r.item@ == item@,
            !r.is_new,
            r.focused_field == EditField::Name,
            r.cursor_pos == item@.name.len(),
            !r.has_changes,
            r.content_scroll == 0,
            !r.show_category_dropdown,
            r.category_dropdown_index == Self::category_index(item@.category),
    {
        let cursor_pos = item.name.as_str().unicode_len();
        let category_dropdown_index = match item.category {
            Category::Prompt => 0,
            Category::Agent => 1,
            Category::Skill => 2,
            Category::Command => 3,
        };
        EditState {
            item,
            is_new: false,
            focused_field: EditField::Name,
            cursor_pos,
            has_changes: false,
            content_scroll: 0,
            show_category_dropdown: false,
            category_dropdown_index,
        }
    }

    /// Each category's position in the dropdown.
    pub open spec fn category_index(c: Category) -> usize {
        match c {
            Category::Prompt => 0usize,
            Category::Agent => 1usize,
            Category::Skill => 2usize,
            Category::Command => 3usize,
        }
    }

    /// The category behind each dropdown position.
    pub open spec fn category_at(i: int) -> Category {
        if i == 0 {
            Category::Prompt
        } else if i == 1 {
            Category::Agent
        } else if i == 2 {
            Category::Skill
        } else {
            Category::Command
        }
    }

    /// Open the category dropdown on the item's category.
    pub fn open_category_dropdown(&mut self)
        ensures
            final (self).show_category_dropdown,
            final (self).category_dropdown_index == Self::category_index(old(self).item@.category),
            final (self).item@ == old(self).item@,
    {
        self.category_dropdown_index = match self.item.category {
            Category::Prompt => 0,
            Category::Agent => 1,
            Category::Skill => 2,
            Category::Command => 3,
        };
        self.show_category_dropdown = true;
    }

    /// Take the highlighted category from the dropdown and close it.
    pub fn select_category_from_dropdown(&mut self)
        ensures
            final (self).item@ == (ItemView {
                category: Self::category_at(old(self).category_dropdown_index as int),
                ..old(self).item@
            }),
            !final (self).show_category_dropdown,
            final (self).has_changes,
            final (self).category_dropdown_index == old(self).category_dropdown_index,
    {
        self.item.category = match self.category_dropdown_index {
            0 => Category::Prompt,
            1 => Category::Agent,
            2 => Category::Skill,
            _ => Category::Command,
        };
        self.show_category_dropdown = false;
        self.has_changes = true;
        proof {
            assert(self.item@ =~= (ItemView {
                category: Self::category_at(old(self).category_dropdown_index as int),
                ..old(self).item@
            }));
        }
    }

    /// Highlight the next dropdown line, wrapping.
    pub fn dropdown_next(&mut self)
        ensures
            final (self).category_dropdown_index == (if old(self).category_dropdown_index >= 3 {
                0usize
            } else {
                (old(self).category_dropdown_index + 1) as usize
            }),
            final (self).item@ == old(self).item@,
    {
        if self.category_dropdown_index >= 3 {
            self.category_dropdown_index = 0;
        } else {
            self.category_dropdown_index = self.category_dropdown_index + 1;
        }
    }

    /// Highlight the previous dropdown line, wrapping.
    pub fn dropdown_prev(&mut self)
        ensures
            final (self).category_dropdown_index == (if old(self).category_dropdown_index == 0
                || old(self).category_dropdown_index >= 4 {
                3usize
            } else {
                (old(self).category_dropdown_index - 1) as usize
            }),
            final (self).item@ == old(self).item@,
    {
        if self.category_dropdown_index == 0 || self.category_dropdown_index >= 4 {
            self.category_dropdown_index = 3;
        } else {
            self.category_dropdown_index = self.category_dropdown_index - 1;
        }
    }

    /// The focused field's current text.
    pub fn current_field_value(&self) -> (r: &str)
        ensures
            r@ == edit_field_text(self.item@, self.focused_field),
    {
        match self.focused_field {
            EditField::Name => self.item.name.as_str(),
            EditField::Category => self.item.category.as_str(),
            EditField::Tags => opt_str(&self.item.tags),
            EditField::Model => opt_str(&self.item.model),
            EditField::Tools => match &self.item.tools {
                Some(t) => t.as_str(),
                None => opt_str(&self.item.allowed_tools),
            },
            EditField::Description => opt_str(&self.item.description),
            EditField::Content => self.item.content.as_str(),
        }
    }

    /// Write `value` into the focused field and mark the editor dirty.
    pub fn set_current_field(&mut self, value: String)
        ensures
            final (self).item@ == spec_set_field(
                old(self).item@,
                old(self).focused_field,
                value@,
            ),
            final (self).has_changes,
            final (self).focused_field == old(self).focused_field,
            final (self).cursor_pos == old(self).cursor_pos,
            final (self).is_new == old(self).is_new,
            final (self).show_category_dropdown == old(self).show_category_dropdown,
            final (self).category_dropdown_index == old(self).category_dropdown_index,
    {
        self.has_changes = true;
        match self.focused_field {
            EditField::Name => {
                self.item.name = value;
            },
            EditField::Category => {
                self.item.category = Category::from_str(value.as_str());
            },
            EditField::Tags => {
                self.item.tags = none_if_empty(value);
            },
            EditField::Model => {
                self.item.model = none_if_empty(value);
            },
            EditField::Tools => {
                match self.item.category {
                    Category::Agent => {
                        self.item.tools = none_if_empty(value);
                    },
                    Category::Skill | Category::Command => {
                        self.item.allowed_tools = none_if_empty(value);
                    },
                    Category::Prompt => {},
                }
            },
            EditField::Description => {
                self.item.description = none_if_empty(value);
            },
            EditField::Content => {
                self.item.content = value;
            },
        }
        proof {
            assert(self.item@ =~= spec_set_field(old(self).item@, old(self).focused_field, value@));
        }
    }

    /// Type one character at the cursor of the focused field.
    pub fn insert_char(&mut self, c: char)
        requires
            edit_field_text(old(self).item@, old(self).focused_field).len() < usize::MAX,
        ensures
            ({
                let t = edit_field_text(old(self).item@, old(self).focused_field);
                let pos = if old(self).cursor_pos <= t.len() {
                    old(self).cursor_pos as int
                } else {
                    t.len() as int
                };
                &&& final (self).item@ == spec_set_field(
                    old(self).item@,
                    old(self).focused_field,
                    t.insert(pos, c),
                )
                &&& final (self).cursor_pos == pos + 1
                &&& final (self).has_changes
                &&& final (self).focused_field == old(self).focused_field
            }),
    {
        let mut cs = chars_of(self.current_field_value());
        let pos = if self.cursor_pos <= cs.len() {
            self.cursor_pos
        } else {
            cs.len()
        };
        cs.insert(pos, c);
        self.cursor_pos = pos + 1;
        self.set_current_field(string_of(&cs));
    }

    /// Paste text at the cursor; line breaks survive only in multi-line
    /// fields, other control characters are dropped.
    pub fn insert_str(&mut self, s: &str)
        requires
            edit_field_text(old(self).item@, old(self).focused_field).len() + s@.len()
                < usize::MAX,
        ensures
            ({
                let t = edit_field_text(old(self).item@, old(self).focused_field);
                let multiline = old(self).focused_field == EditField::Content || old(
                    self,
                ).focused_field == EditField::Description;
                let clean = spec_filter_controls(s@, multiline);
                let pos = if old(self).cursor_pos <= t.len() {
                    old(self).cursor_pos as int
                } else {
                    t.len() as int
                };
                &&& final (self).item@ == spec_set_field(
                    old(self).item@,
                    old(self).focused_field,
                    t.take(pos) + clean + t.skip(pos),
                )
                &&& final (self).cursor_pos == pos + clean.len()
                &&& final (self).has_changes
                &&& final (self).focused_field == old(self).focused_field
            }),
    {
        let multiline = match self.focused_field {
            EditField::Content => true,
            EditField::Description => true,
            _ => false,
        };
        let clean = filter_controls(&chars_of(s), multiline);
        proof {
            crate::text::lemma_filter_controls_len(s@, multiline);
        }
        let clean_len = clean.len();
        let cs = chars_of(self.current_field_value());
        let pos = if self.cursor_pos <= cs.len() {
            self.cursor_pos
        } else {
            cs.len()
        };
        let ghost target = cs@.take(pos as int) + clean@ + cs@.skip(pos as int);
        let mut out: Vec<char> = Vec::new();
        let mut k: usize = 0;
        while k < pos
            invariant
                k <= pos <= cs@.len(),
                out@ == cs@.take(k as int),
            decreases pos - k,
        {
            out.push(cs[k]);
            proof {
                assert(out@ =~= cs@.take(k + 1));
            }
            k += 1;
        }
        let mut rest = clean;
        out.append(&mut rest);
        let ghost mid = out@;
        let mut k2: usize = pos;
        while k2 < cs.len()
            invariant
                pos <= k2 <= cs@.len(),
                mid == cs@.take(pos as int) + spec_filter_controls(s@, multiline),
                out@ == mid + cs@.subrange(pos as int, k2 as int),
            decreases cs@.len() - k2,
        {
            out.push(cs[k2]);
            proof {
                assert(out@ =~= mid + cs@.subrange(pos as int, k2 + 1));
            }
            k2 += 1;
        }
        proof {
            assert(cs@.subrange(pos as int, cs@.len() as int) =~= cs@.skip(pos as int));
            assert(out@ =~= target);
        }
        self.cursor_pos = pos + clean_len;
        self.set_current_field(string_of(&out));
    }

    /// Erase the character before the cursor, if any.
    pub fn delete_char(&mut self)
        ensures
            ({
                let t = edit_field_text(old(self).item@, old(self).focused_field);
                if old(self).cursor_pos == 0 || t.len() == 0 || old(self).cursor_pos > t.len() {
                    *final (self) == *old(self)
                } else {
                    &&& final (self).item@ == spec_set_field(
                        old(self).item@,
                        old(self).focused_field,
                        t.remove(old(self).cursor_pos - 1),
                    )
                    &&& final (self).cursor_pos == old(self).cursor_pos - 1
                    &&& final (self).has_changes
                    &&& final (self).focused_field == old(self).focused_field
                }
            }),
    {
        let mut cs = chars_of(self.current_field_value());
        if self.cursor_pos == 0 || cs.len() == 0 || self.cursor_pos > cs.len() {
            return ;
        }
        cs.remove(self.cursor_pos - 1);
        self.cursor_pos -= 1;
        self.set_current_field(string_of(&cs));
    }

    /// Erase the character under the cursor, if any.
    pub fn delete_char_forward(&mut self)
        ensures
            ({
                let t = edit_field_text(old(self).item@, old(self).focused_field);
                if old(self).cursor_pos < t.len() {
                    &&& final (self).item@ == spec_set_field(
                        old(self).item@,
                        old(self).focused_field,
                        t.remove(old(self).cursor_pos as int),
                    )
                    &&& final (self).cursor_pos == old(self).cursor_pos
                    &&& final (self).has_changes
                    &&& final (self).focused_field == old(self).focused_field
                } else {
                    *final (self) == *old(self)
                }
            }),
    {
        let mut cs = chars_of(self.current_field_value());
        if self.cursor_pos < cs.len() {
            cs.remove(self.cursor_pos);
            self.set_current_field(string_of(&cs));
        }
    }

    pub fn move_cursor_left(&mut self)
        ensures
            final (self).cursor_pos == (if old(self).cursor_pos > 0 {
                (old(self).cursor_pos - 1) as usize
            } else {
                0usize
            }),
            final (self).item@ == old(self).item@,
            final (self).focused_field == old(self).focused_field,
    {
        if self.cursor_pos > 0 {
            self.cursor_pos -= 1;
        }
    }

    pub fn move_cursor_right(&mut self)
        ensures
            ({
                let n = edit_field_text(old(self).item@, old(self).focused_field).len();
                final (self).cursor_pos == (if old(self).cursor_pos < n {
                    (old(self).cursor_pos + 1) as usize
                } else {
                    n as usize
                })
            }),
            final (self).item@ == old(self).item@,
            final (self).focused_field == old(self).focused_field,
    {
        let n = self.current_field_value().unicode_len();
        if self.cursor_pos < n {
            self.cursor_pos += 1;
        } else {
            self.cursor_pos = n;
        }
    }

    pub fn move_cursor_start(&mut self)
        ensures
            final (self).cursor_pos == 0,
            final (self).item@ == old(self).item@,
            final (self).focused_field == old(self).focused_field,
    {
        self.cursor_pos = 0;
    }

    pub fn move_cursor_end(&mut self)
        ensures
            final (self).cursor_pos == edit_field_text(
                old(self).item@,
                old(self).focused_field,
            ).len(),
            final (self).item@ == old(self).item@,
            final (self).focused_field == old(self).focused_field,
    {
        self.cursor_pos = self.current_field_value().unicode_len();
    }

    /// Move the cursor one line up, keeping the column where the previous
    /// line allows it.
    pub fn move_cursor_up(&mut self)
        ensures
            ({
                let t = edit_field_text(old(self).item@, old(self).focused_field);
                let c0 = if old(self).cursor_pos <= t.len() {
                    old(self).cursor_pos as int
                } else {
                    t.len() as int
                };
                let ls = line_start(t, c0);
                let col = c0 - ls;
                final (self).cursor_pos == (if ls == 0 {
                    0
                } else {
                    let pls = line_start(t, ls - 1);
                    let plen = ls - 1 - pls;
                    pls + (if col <= plen {
                        col
                    } else {
                        plen
                    })
                })
            }),
            final (self).item@ == old(self).item@,
            final (self).focused_field == old(self).focused_field,
    {
        let cs = chars_of(self.current_field_value());
        let c0 = if self.cursor_pos <= cs.len() {
            self.cursor_pos
        } else {
            cs.len()
        };
        let ls = find_line_start(&cs, c0);
        let col = c0 - ls;
        if ls == 0 {
            self.cursor_pos = 0;
            return ;
        }
        let pls = find_line_start(&cs, ls - 1);
        let plen = (ls - 1) - pls;
        self.cursor_pos = pls + (if col <= plen {
            col
        } else {
            plen
        });
    }

    /// Move the cursor one line down, keeping the column where the next
    /// line allows it.
    pub fn move_cursor_down(&mut self)
        ensures
            ({
                let t = edit_field_text(old(self).item@, old(self).focused_field);
                let c0 = if old(self).cursor_pos <= t.len() {
                    old(self).cursor_pos as int
                } else {
                    t.len() as int
                };
                let ls = line_start(t, c0);
                let col = c0 - ls;
                let nn = next_newline(t, c0);
                final (self).cursor_pos == (if nn == t.len() {
                    t.len() as int
                } else {
                    let ns = nn + 1;
                    let ne = next_newline(t, ns);
                    let nlen = ne - ns;
                    ns + (if col <= nlen {
                        col
                    } else {
                        nlen
                    })
                })
            }),
            final (self).item@ == old(self).item@,
            final (self).focused_field == old(self).focused_field,
    {
        let cs = chars_of(self.current_field_value());
        let c0 = if self.cursor_pos <= cs.len() {
            self.cursor_pos
        } else {
            cs.len()
        };
        let ls = find_line_start(&cs, c0);
        let col = c0 - ls;
        let nn = find_next_newline(&cs, c0);
        if nn == cs.len() {
            self.cursor_pos = cs.len();
            return ;
        }
        let ns = nn + 1;
        let ne = find_next_newline(&cs, ns);
        let nlen = ne - ns;
        self.cursor_pos = ns + (if col <= nlen {
            col
        } else {
            nlen
        });
    }

    /// Focus the next reachable field; the cursor goes to its end.
    pub fn next_field(&mut self)
        ensures
            final (self).focused_field == old(self).focused_field.spec_next(
                old(self).item@.category,
            ),
            final (self).cursor_pos == edit_field_text(
                old(self).item@,
                final (self).focused_field,
            ).len(),
            final (self).item@ == old(self).item@,
    {
        self.focused_field = self.focused_field.next(self.item.category);
        self.cursor_pos = self.current_field_value().unicode_len();
    }

    /// Focus the previous reachable field; the cursor goes to its end.
    pub fn prev_field(&mut self)
        ensures
            final (self).focused_field == old(self).focused_field.spec_prev(
                old(self).item@.category,
            ),
            final (self).cursor_pos == edit_field_text(
                old(self).item@,
                final (self).focused_field,
            ).len(),
            final (self).item@ == old(self).item@,
    {
        self.focused_field = self.focused_field.prev(self.item.category);
        self.cursor_pos = self.current_field_value().unicode_len();
    }
}

/// The text of an optional field, or the empty slice.
fn opt_str(o: &Option<String>) -> (r: &str)
    ensures
        r@ == opt_or_empty_text(opt_view(*o)),
{
    match o {
        Some(s) => s.as_str(),
        None => {
            proof {
                reveal_strlit("");
                assert(""@ =~= Seq::<char>::empty());
            }
            ""
        },
    }
}

/// The edited text as an optional field: empty text clears it.
fn none_if_empty(value: String) -> (r: Option<String>)
    ensures
        opt_view(r) == opt_of_text(value@),
{
    if value.as_str().unicode_len() == 0 {
        None
    } else {
        Some(value)
    }
}

} // verus!
