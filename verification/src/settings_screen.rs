//! State of the settings screen: the completion provider choice, the
//! editable key/model/path fields, and the API-key mask.

use vstd::prelude::*;

use crate::text::{
    chars_eq, chars_of, filter_controls, lower_chars, lower_seq, spec_filter_controls, string_of,
};

verus! {

/// The available completion providers.
#[derive(Debug, Clone, Copy, PartialEq, Eq, Structural)]
pub enum LlmProvider {
    Anthropic,
    OpenAI,
}

impl Default for LlmProvider {
    fn default() -> (r: Self)
        ensures
            r == LlmProvider::Anthropic,
    {
        LlmProvider::Anthropic
    }
}

impl LlmProvider {
    pub fn all() -> (r: [LlmProvider; 2])
        ensures
            r@ == seq![LlmProvider::Anthropic, LlmProvider::OpenAI],
    {
        let r = [LlmProvider::Anthropic, LlmProvider::OpenAI];
        proof {
            assert(r@ =~= seq![LlmProvider::Anthropic, LlmProvider::OpenAI]);
        }
        r
    }

    pub fn display_name(&self) -> (r: &'static str)
        ensures
            self == LlmProvider::Anthropic ==> r@ == "Anthropic"@,
            self == LlmProvider::OpenAI ==> r@ == "OpenAI"@,
    {
        match self {
            LlmProvider::Anthropic => "Anthropic",
            LlmProvider::OpenAI => "OpenAI",
        }
    }

    /// The provider a stored token names; anything unrecognized falls back
    /// to the default provider.
    pub open spec fn spec_from_str(s: Seq<char>) -> LlmProvider {
        if lower_seq(s) == "openai"@ {
            LlmProvider::OpenAI
        } else {
            LlmProvider::Anthropic
        }
    }

    pub fn from_str(s: &str) -> (r: LlmProvider)
        ensures
            r == LlmProvider::spec_from_str(s@),
    {
        let lowered = lower_chars(&chars_of(s));
        if chars_eq(&lowered, &chars_of("openai")) {
            LlmProvider::OpenAI
        } else {
            LlmProvider::Anthropic
        }
    }
}

/// The focusable fields of the settings screen, in tab order.
#[derive(Debug, Clone, Copy, PartialEq, Eq, Structural)]
pub enum SettingsField {
    Provider,
    ApiKey,
    Model,
    ExportPath,
}

impl SettingsField {
    pub open spec fn spec_next(self) -> SettingsField {
        match self {
            SettingsField::Provider => SettingsField::ApiKey,
            SettingsField::ApiKey => SettingsField::Model,
            SettingsField::Model => SettingsField::ExportPath,
            SettingsField::ExportPath => SettingsField::Provider,
        }
    }

    pub open spec fn spec_prev(self) -> SettingsField {
        match self {
            SettingsField::Provider => SettingsField::ExportPath,
            SettingsField::ApiKey => SettingsField::Provider,
            SettingsField::Model => SettingsField::ApiKey,
            SettingsField::ExportPath => SettingsField::Model,
        }
    }

    pub fn next(&self) -> (r: SettingsField)
        ensures
            r == self.spec_next(),
    {
        match self {
            SettingsField::Provider => SettingsField::ApiKey,
            SettingsField::ApiKey => SettingsField::Model,
            SettingsField::Model => SettingsField::ExportPath,
            SettingsField::ExportPath => SettingsField::Provider,
        }
    }

    pub fn prev(&self) -> (r: SettingsField)
        ensures
            r == self.spec_prev(),
    {
        match self {
            SettingsField::Provider => SettingsField::ExportPath,
            SettingsField::ApiKey => SettingsField::Provider,
            SettingsField::Model => SettingsField::ApiKey,
            SettingsField::ExportPath => SettingsField::Model,
        }
    }
}

/// The settings under edit.
pub struct SettingsState {
    pub provider: LlmProvider,
    pub api_key: String,
    pub llm_model: String,
    pub export_path: String,
    pub focused_field: SettingsField,
    /// Cursor position in the focused field, counted in characters.
    pub cursor_pos: usize,
    pub has_changes: bool,
    pub show_provider_dropdown: bool,
    pub provider_dropdown_index: usize,
}

/// The text of the focused editable field; the provider field carries no
/// editable text.
pub open spec fn focused_text(s: SettingsState) -> Seq<char> {
    match s.focused_field {
        SettingsField::Provider => Seq::empty(),
        SettingsField::ApiKey => s.api_key@,
        SettingsField::Model => s.llm_model@,
        SettingsField::ExportPath => s.export_path@,
    }
}

/// The fields other than the focused one read the same in `a` and `b`.
pub open spec fn others_unchanged(a: SettingsState, b: SettingsState) -> bool {
    &&& b.provider == a.provider
    &&& b.focused_field == a.focused_field
    &&& b.show_provider_dropdown == a.show_provider_dropdown
    &&& b.provider_dropdown_index == a.provider_dropdown_index
    &&& (a.focused_field != SettingsField::ApiKey ==> b.api_key@ == a.api_key@)
    &&& (a.focused_field != SettingsField::Model ==> b.llm_model@ == a.llm_model@)
    &&& (a.focused_field != SettingsField::ExportPath ==> b.export_path@ == a.export_path@)
}

impl Default for SettingsState {
    fn default() -> (r: Self)
        ensures
            r.provider == LlmProvider::Anthropic,
            r.api_key@ == Seq::<char>::empty(),
            r.llm_model@ == "sonnet-4-20250514"@,
            r.export_path@ == "~/.agent-catalog"@,
            r.focused_field == SettingsField::Provider,
            r.cursor_pos == 0,
            !r.has_changes,
            !r.show_provider_dropdown,
            r.provider_dropdown_index == 0,
    {
        SettingsState {
            provider: LlmProvider::Anthropic,
            api_key: String::new(),
            llm_model: string_of(&chars_of("sonnet-4-20250514")),
            export_path: string_of(&chars_of("~/.agent-catalog")),
            focused_field: SettingsField::Provider,
            cursor_pos: 0,
            has_changes: false,
            show_provider_dropdown: false,
            provider_dropdown_index: 0,
        }
    }
}

impl SettingsState {
    /// The focused field's display text; the provider shows its name.
    pub fn current_field_value(&self) -> (r: &str)
        ensures
            self.focused_field == SettingsField::Provider ==> (self.provider
                == LlmProvider::Anthropic ==> r@ == "Anthropic"@) && (self.provider
                == LlmProvider::OpenAI ==> r@ == "OpenAI"@),
            self.focused_field != SettingsField::Provider ==> r@ == focused_text(*self),
    {
        match self.focused_field {
            SettingsField::Provider => self.provider.display_name(),
            SettingsField::ApiKey => self.api_key.as_str(),
            SettingsField::Model => self.llm_model.as_str(),
            SettingsField::ExportPath => self.export_path.as_str(),
        }
    }

    /// Replace the focused field's text and mark the settings dirty; the
    /// provider field is set through its dropdown instead.
    pub fn set_current_field(&mut self, value: String)
        ensures
            final (self).has_changes,
            final (self).cursor_pos == old(self).cursor_pos,
            others_unchanged(*old(self), *final (self)),
            old(self).focused_field != SettingsField::Provider ==> focused_text(*final (self))
                == value@,
            old(self).focused_field == SettingsField::Provider ==> final (self).api_key@ == old(self).api_key@ && final (self).llm_model@ == old(self).llm_model@ && final (self).export_path@ == old(self).export_path@,
    {
        self.has_changes = true;
        match self.focused_field {
            SettingsField::Provider => {},
            SettingsField::ApiKey => {
                self.api_key = value;
            },
            SettingsField::Model => {
                self.llm_model = value;
            },
            SettingsField::ExportPath => {
                self.export_path = value;
            },
        }
    }

    /// Type one character at the cursor of the focused field.
    pub fn insert_char(&mut self, c: char)
        requires
            old(self).focused_field != SettingsField::Provider ==> focused_text(
                *old(self),
            ).len() < usize::MAX,
        ensures
            old(self).focused_field == SettingsField::Provider ==> *final (self) == *old(self),
            old(self).focused_field != SettingsField::Provider ==> ({
                let t = focused_text(*old(self));
                let pos = if old(self).cursor_pos <= t.len() {
                    old(self).cursor_pos as int
                } else {
                    t.len() as int
                };
                &&& focused_text(*final (self)) == t.insert(pos, c)
                &&& final (self).cursor_pos == pos + 1
                &&& final (self).has_changes
                &&& others_unchanged(*old(self), *final (self))
            }),
    {
        if let SettingsField::Provider = self.focused_field {
            return ;
        }
        let mut cs = chars_of(self.current_field_value());
        let pos = if self.cursor_pos <= cs.len() {
            self.cursor_pos
        } else {
            cs.len()
        };
        cs.insert(pos, c);
        self.cursor_pos = pos + 1;
        self.set_current_field(string_of(&cs));
    }

    /// Paste text at the cursor of the focused field; control characters
    /// are dropped.
    pub fn insert_str(&mut self, s: &str)
        requires
            old(self).focused_field != SettingsField::Provider ==> focused_text(
                *old(self),
            ).len() + s@.len() < usize::MAX,
        ensures
            old(self).focused_field == SettingsField::Provider ==> *final (self) == *old(self),
            old(self).focused_field != SettingsField::Provider ==> ({
                let t = focused_text(*old(self));
                let clean = spec_filter_controls(s@, false);
                let pos = if old(self).cursor_pos <= t.len() {
                    old(self).cursor_pos as int
                } else {
                    t.len() as int
                };
                &&& focused_text(*final (self)) == t.take(pos) + clean + t.skip(pos)
                &&& final (self).cursor_pos == pos + clean.len()
                &&& final (self).has_changes
                &&& others_unchanged(*old(self), *final (self))
            }),
    {
        if let SettingsField::Provider = self.focused_field {
            return ;
        }
        let clean = filter_controls(&chars_of(s), false);
        proof {
            crate::text::lemma_filter_controls_len(s@, false);
        }
        let clean_len = clean.len();
        let cs = chars_of(self.current_field_value());
        let pos = if self.cursor_pos <= cs.len() {
            self.cursor_pos
        } else {
            cs.len()
        };
        let mut out: Vec<char> = Vec::new();
        let mut k: usize = 0;
        while k < pos
            invariant
                k <= pos <= cs@.len(),
                out@ == cs@.take(k as int),
            decreases pos - k,
        {
            out.push(cs[k]);
            proof {
                assert(out@ =~= cs@.take(k + 1));
            }
            k += 1;
        }
        let mut rest = clean;
        out.append(&mut rest);
        let mut k2: usize = pos;
        while k2 < cs.len()
            invariant
                pos <= k2 <= cs@.len(),
                out@ == cs@.take(pos as int) + spec_filter_controls(s@, false) + cs@.subrange(
                    pos as int,
                    k2 as int,
                ),
            decreases cs@.len() - k2,
        {
            out.push(cs[k2]);
            proof {
                assert(out@ =~= cs@.take(pos as int) + spec_filter_controls(s@, false)
                    + cs@.subrange(pos as int, k2 + 1));
            }
            k2 += 1;
        }
        proof {
            assert(cs@.subrange(pos as int, cs@.len() as int) =~= cs@.skip(pos as int));
        }
        self.cursor_pos = pos + clean_len;
        self.set_current_field(string_of(&out));
    }

    /// Erase the character before the cursor of the focused field, if any.
    pub fn delete_char(&mut self)
        ensures
            old(self).focused_field == SettingsField::Provider ==> *final (self) == *old(self),
            old(self).focused_field != SettingsField::Provider && old(self).cursor_pos == 0 ==> *final (self) == *old(self),
            old(self).focused_field != SettingsField::Provider && old(self).cursor_pos > 0 ==> ({
                let t = focused_text(*old(self));
                if old(self).cursor_pos <= t.len() {
                    &&& focused_text(*final (self)) == t.remove(old(self).cursor_pos - 1)
                    &&& final (self).cursor_pos == old(self).cursor_pos - 1
                    &&& final (self).has_changes
                    &&& others_unchanged(*old(self), *final (self))
                } else {
                    *final (self) == *old(self)
                }
            }),
    {
        if let SettingsField::Provider = self.focused_field {
            return ;
        }
        if self.cursor_pos == 0 {
            return ;
        }
        let mut cs = chars_of(self.current_field_value());
        if self.cursor_pos > cs.len() {
            return ;
        }
        cs.remove(self.cursor_pos - 1);
        self.cursor_pos -= 1;
        self.set_current_field(string_of(&cs));
    }

    /// Focus the next field; the cursor goes to its end.
    pub fn next_field(&mut self)
        ensures
            final (self).focused_field == old(self).focused_field.spec_next(),
            final (self).cursor_pos == (if final (self).focused_field
                == SettingsField::Provider {
                final (self).provider.display_name_len()
            } else {
                focused_text(*final (self)).len() as usize
            }),
            final (self).api_key@ == old(self).api_key@,
            final (self).llm_model@ == old(self).llm_model@,
            final (self).export_path@ == old(self).export_path@,
            final (self).provider == old(self).provider,
    {
        self.focused_field = self.focused_field.next();
        self.cursor_pos = self.current_field_value().unicode_len();
        proof {
            if self.focused_field == SettingsField::Provider {
                self.provider.lemma_display_name_len();
            }
        }
    }

    /// Focus the previous field; the cursor goes to its end.
    pub fn prev_field(&mut self)
        ensures
            final (self).focused_field == old(self).focused_field.spec_prev(),
            final (self).cursor_pos == (if final (self).focused_field
                == SettingsField::Provider {
                final (self).provider.display_name_len()
            } else {
                focused_text(*final (self)).len() as usize
            }),
            final (self).api_key@ == old(self).api_key@,
            final (self).llm_model@ == old(self).llm_model@,
            final (self).export_path@ == old(self).export_path@,
            final (self).provider == old(self).provider,
    {
        self.focused_field = self.focused_field.prev();
        self.cursor_pos = self.current_field_value().unicode_len();
        proof {
            if self.focused_field == SettingsField::Provider {
                self.provider.lemma_display_name_len();
            }
        }
    }

    /// Open the provider dropdown on the current provider.
    pub fn open_provider_dropdown(&mut self)
        ensures
            final (self).show_provider_dropdown,
            final (self).provider_dropdown_index == (if old(self).provider
                == LlmProvider::Anthropic {
                0usize
            } else {
                1usize
            }),
            final (self).provider == old(self).provider,
            final (self).api_key@ == old(self).api_key@,
    {
        self.provider_dropdown_index = match self.provider {
            LlmProvider::Anthropic => 0,
            LlmProvider::OpenAI => 1,
        };
        self.show_provider_dropdown = true;
    }

    /// Take the highlighted provider from the dropdown and close it.
    pub fn select_provider_from_dropdown(&mut self)
        ensures
            !final (self).show_provider_dropdown,
            old(self).provider_dropdown_index == 0 ==> final (self).provider
                == LlmProvider::Anthropic && final (self).has_changes,
            old(self).provider_dropdown_index == 1 ==> final (self).provider
                == LlmProvider::OpenAI && final (self).has_changes,
            old(self).provider_dropdown_index >= 2 ==> final (self).provider == old(self).provider && final (self).has_changes == old(self).has_changes,
            final (self).api_key@ == old(self).api_key@,
    {
        if self.provider_dropdown_index == 0 {
            self.provider = LlmProvider::Anthropic;
            self.has_changes = true;
        } else if self.provider_dropdown_index == 1 {
            self.provider = LlmProvider::OpenAI;
            self.has_changes = true;
        }
        self.show_provider_dropdown = false;
    }

    /// Highlight the next dropdown line, wrapping.
    pub fn dropdown_next(&mut self)
        ensures
            final (self).provider_dropdown_index == (if old(self).provider_dropdown_index >= 1 {
                0usize
            } else {
                1usize
            }),
            final (self).provider == old(self).provider,
    {
        if self.provider_dropdown_index >= 1 {
            self.provider_dropdown_index = 0;
        } else {
            self.provider_dropdown_index = 1;
        }
    }

    /// Highlight the previous dropdown line, wrapping.
    pub fn dropdown_prev(&mut self)
        ensures
            final (self).provider_dropdown_index == (if old(self).provider_dropdown_index == 0 {
                1usize
            } else {
                0usize
            }),
            final (self).provider == old(self).provider,
    {
        if self.provider_dropdown_index == 0 {
            self.provider_dropdown_index = 1;
        } else {
            self.provider_dropdown_index = 0;
        }
    }

    /// The API key as shown on screen: empty stays empty, a short key is
    /// fully starred, a longer one keeps its first and last four
    /// characters.
    pub fn mask_key(key: &str) -> (r: String)
        ensures
            key@.len() == 0 ==> r@ == Seq::<char>::empty(),
            0 < key@.len() <= 8 ==> r@ == Seq::new(key@.len(), |i: int| '*'),
            key@.len() > 8 ==> r@ == key@.take(4) + "..."@ + key@.skip(key@.len() - 4),
    {
        let cs = chars_of(key);
        let n = cs.len();
        if n == 0 {
            String::new()
        } else if n <= 8 {
            let mut stars: Vec<char> = Vec::new();
            let mut i: usize = 0;
            while i < n
                invariant
                    i <= n,
                    stars@ =~= Seq::new(i as nat, |k: int| '*'),
                decreases n - i,
            {
                stars.push('*');
                proof {
                    assert(stars@ =~= Seq::new((i + 1) as nat, |k: int| '*'));
                }
                i += 1;
            }
            string_of(&stars)
        } else {
            let mut out: Vec<char> = Vec::new();
            let mut i: usize = 0;
            while i < 4
                invariant
                    i <= 4,
                    n == cs@.len(),
                    n > 8,
                    out@ =~= cs@.take(i as int),
                decreases 4 - i,
            {
                out.push(cs[i]);
                i += 1;
            }
            let mut dots = chars_of("...");
            out.append(&mut dots);
            let mut k: usize = n - 4;
            while k < n
                invariant
                    n - 4 <= k <= n,
                    n == cs@.len(),
                    n > 8,
                    out@ =~= cs@.take(4) + "..."@ + cs@.subrange(n - 4, k as int),
                decreases n - k,
            {
                out.push(cs[k]);
                proof {
                    assert(out@ =~= cs@.take(4) + "..."@ + cs@.subrange(n - 4, k + 1));
                }
                k += 1;
            }
            proof {
                assert(cs@.subrange(n - 4, n as int) =~= cs@.skip(n - 4));
            }
            string_of(&out)
        }
    }
}

impl LlmProvider {
    /// How many characters the provider's display name has.
    pub open spec fn display_name_len(self) -> usize {
        if self == LlmProvider::Anthropic {
            9usize
        } else {
            6usize
        }
    }

    proof fn lemma_display_name_len(self)
        ensures
            self == LlmProvider::Anthropic ==> "Anthropic"@.len() == 9,
            self == LlmProvider::OpenAI ==> "OpenAI"@.len() == 6,
    {
        reveal_strlit("Anthropic");
        reveal_strlit("OpenAI");
    }
}

} // verus!
