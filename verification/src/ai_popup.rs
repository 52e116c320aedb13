//! State of the assistant popup: the selectable actions, their prompts,
//! and the free-text input for a custom request.

use vstd::prelude::*;

use crate::text::{chars_of, string_of};

verus! {

/// The canned assistant actions, plus a free-form request.
#[derive(Debug, Clone, Copy, PartialEq, Eq, Structural)]
pub enum AiAction {
    ImprovePrompt,
    MakeConcise,
    AddExamples,
    CustomRequest,
}

impl AiAction {
    /// The action behind each menu position.
    pub open spec fn spec_at(i: int) -> AiAction {
        if i == 0 {
            AiAction::ImprovePrompt
        } else if i == 1 {
            AiAction::MakeConcise
        } else if i == 2 {
            AiAction::AddExamples
        } else {
            AiAction::CustomRequest
        }
    }

    pub fn all() -> (r: [AiAction; 4])
        ensures
            r@ == seq![
                AiAction::ImprovePrompt,
                AiAction::MakeConcise,
                AiAction::AddExamples,
                AiAction::CustomRequest,
            ],
    {
        let r = [
            AiAction::ImprovePrompt,
            AiAction::MakeConcise,
            AiAction::AddExamples,
            AiAction::CustomRequest,
        ];
        proof {
            assert(r@ =~= seq![
                AiAction::ImprovePrompt,
                AiAction::MakeConcise,
                AiAction::AddExamples,
                AiAction::CustomRequest,
            ]);
        }
        r
    }

    pub fn label(&self) -> (r: &'static str)
        ensures
            self == AiAction::ImprovePrompt ==> r@ == "Improve this prompt"@,
            self == AiAction::MakeConcise ==> r@ == "Make it more concise"@,
            self == AiAction::AddExamples ==> r@ == "Add examples"@,
            self == AiAction::CustomRequest ==> r@ == "Custom request..."@,
    {
        match self {
            AiAction::ImprovePrompt => "Improve this prompt",
            AiAction::MakeConcise => "Make it more concise",
            AiAction::AddExamples => "Add examples",
            AiAction::CustomRequest => "Custom request...",
        }
    }

    /// The system prompt sent for this action; the custom action supplies
    /// its own text.
    pub fn system_prompt(&self) -> (r: &'static str)
        ensures
            self == AiAction::CustomRequest ==> r@ == ""@,
            self != AiAction::CustomRequest ==> r@.len() > 0,
    {
        let r = match self {
            AiAction::ImprovePrompt => {
                "You are an expert prompt engineer. Improve the following prompt to be clearer, more effective, and better structured. Maintain the original intent while enhancing clarity and specificity. Return only the improved prompt, no explanations."
            },
            AiAction::MakeConcise => {
                "You are an expert editor. Make the following prompt more concise while preserving all essential information and functionality. Remove redundancy and verbosity. Return only the revised prompt, no explanations."
            },
            AiAction::AddExamples => {
                "You are an expert prompt engineer. Add 2-3 concrete examples to the following prompt to better illustrate the expected behavior. The examples should be practical and relevant. Return only the enhanced prompt with examples, no explanations."
            },
            AiAction::CustomRequest => "",
        };
        proof {
            reveal_strlit(
                "You are an expert prompt engineer. Improve the following prompt to be clearer, more effective, and better structured. Maintain the original intent while enhancing clarity and specificity. Return only the improved prompt, no explanations.",
            );
            reveal_strlit(
                "You are an expert editor. Make the following prompt more concise while preserving all essential information and functionality. Remove redundancy and verbosity. Return only the revised prompt, no explanations.",
            );
            reveal_strlit(
                "You are an expert prompt engineer. Add 2-3 concrete examples to the following prompt to better illustrate the expected behavior. The examples should be practical and relevant. Return only the enhanced prompt with examples, no explanations.",
            );
        }
        r
    }
}

/// The popup's state: the highlighted action, the custom input under edit,
/// and the in-flight or finished completion.
pub struct AiPopupState {
    pub selected_action: usize,
    pub custom_input: String,
    /// Cursor position in the custom input, counted in characters.
    pub cursor_pos: usize,
    pub is_loading: bool,
    pub loading_tick: usize,
    pub result: Option<String>,
    pub error: Option<String>,
}

impl Default for AiPopupState {
    fn default() -> (r: Self)
        ensures
            r.selected_action == 0,
            r.custom_input@ == Seq::<char>::empty(),
            r.cursor_pos == 0,
            !r.is_loading,
            r.loading_tick == 0,
            r.result is None,
            r.error is None,
    {
        AiPopupState {
            selected_action: 0,
            custom_input: String::new(),
            cursor_pos: 0,
            is_loading: false,
            loading_tick: 0,
            result: None,
            error: None,
        }
    }
}

/// Stepping before reducing modulo four is the same as reducing first.
proof fn lemma_mod4_shift(x: int, k: int)
    requires
        0 <= x,
        0 <= k,
    ensures
        (x + k) % 4 == (x % 4 + k) % 4,
{
    vstd::arithmetic::div_mod::lemma_fundamental_div_mod(x, 4);
    vstd::arithmetic::div_mod::lemma_mod_multiples_vanish(x / 4, x % 4 + k, 4);
}

impl AiPopupState {
    /// Advance the spinner while a completion is in flight.
    pub fn tick_loading(&mut self)
        ensures
            old(self).is_loading ==> final (self).loading_tick == ((old(self).loading_tick + 1)
                as int % 4) as usize,
            !old(self).is_loading ==> final (self).loading_tick == old(self).loading_tick,
            final (self).is_loading == old(self).is_loading,
            final (self).selected_action == old(self).selected_action,
            final (self).custom_input@ == old(self).custom_input@,
    {
        if self.is_loading {
            self.loading_tick = (self.loading_tick % 4 + 1) % 4;
            proof {
                lemma_mod4_shift(old(self).loading_tick as int, 1);
            }
        }
    }

    /// The spinner frame for the current tick.
    pub fn loading_spinner(&self) -> (r: &'static str)
        ensures
            r@.len() > 0,
    {
        let r = match self.loading_tick {
            0 => "\u{280b}",
            1 => "\u{2819}",
            2 => "\u{2839}",
            _ => "\u{2838}",
        };
        proof {
            reveal_strlit("\u{280b}");
            reveal_strlit("\u{2819}");
            reveal_strlit("\u{2839}");
            reveal_strlit("\u{2838}");
        }
        r
    }

    /// Highlight the next action, wrapping at the end.
    pub fn select_next(&mut self)
        ensures
            final (self).selected_action == ((old(self).selected_action + 1) as int
                % 4) as usize,
            final (self).custom_input@ == old(self).custom_input@,
            final (self).cursor_pos == old(self).cursor_pos,
    {
        self.selected_action = (self.selected_action % 4 + 1) % 4;
        proof {
            lemma_mod4_shift(old(self).selected_action as int, 1);
        }
    }

    /// Highlight the previous action, wrapping at the start: one step back
    /// is three steps forward around the four actions.
    pub fn select_prev(&mut self)
        ensures
            final (self).selected_action == ((old(self).selected_action + 3) as int
                % 4) as usize,
            final (self).custom_input@ == old(self).custom_input@,
            final (self).cursor_pos == old(self).cursor_pos,
    {
        self.selected_action = (self.selected_action % 4 + 3) % 4;
        proof {
            lemma_mod4_shift(old(self).selected_action as int, 3);
        }
    }

    /// The highlighted action.
    pub fn selected_action(&self) -> (r: AiAction)
        ensures
            r == AiAction::spec_at(self.selected_action as int),
    {
        match self.selected_action {
            0 => AiAction::ImprovePrompt,
            1 => AiAction::MakeConcise,
            2 => AiAction::AddExamples,
            _ => AiAction::CustomRequest,
        }
    }

    /// Whether the free-form request is highlighted.
    pub fn is_custom(&self) -> (r: bool)
        ensures
            r == (AiAction::spec_at(self.selected_action as int) == AiAction::CustomRequest),
    {
        self.selected_action >= 3
    }

    /// Type one character of the custom request.
    pub fn insert_char(&mut self, c: char)
        requires
            old(self).cursor_pos <= old(self).custom_input@.len(),
            old(self).custom_input@.len() < usize::MAX,
        ensures
            final (self).custom_input@ == old(self).custom_input@.insert(
                old(self).cursor_pos as int,
                c,
            ),
            final (self).cursor_pos == old(self).cursor_pos + 1,
            final (self).selected_action == old(self).selected_action,
    {
        let mut cs = chars_of(self.custom_input.as_str());
        cs.insert(self.cursor_pos, c);
        self.custom_input = string_of(&cs);
        self.cursor_pos += 1;
    }

    /// Erase the character before the cursor, if any.
    pub fn delete_char(&mut self)
        requires
            old(self).cursor_pos <= old(self).custom_input@.len(),
        ensures
            old(self).cursor_pos > 0 ==> final (self).custom_input@ == old(
                self,
            ).custom_input@.remove(old(self).cursor_pos - 1) && final (self).cursor_pos == old(
                self,
            ).cursor_pos - 1,
            old(self).cursor_pos == 0 ==> final (self).custom_input@ == old(self).custom_input@
                && final (self).cursor_pos == 0,
            final (self).selected_action == old(self).selected_action,
    {
        if self.cursor_pos > 0 {
            let mut cs = chars_of(self.custom_input.as_str());
            cs.remove(self.cursor_pos - 1);
            self.custom_input = string_of(&cs);
            self.cursor_pos -= 1;
        }
    }

    /// Reset the popup to its opening state.
    pub fn clear(&mut self)
        ensures
            final (self).selected_action == 0,
            final (self).custom_input@ == Seq::<char>::empty(),
            final (self).cursor_pos == 0,
            !final (self).is_loading,
            final (self).loading_tick == 0,
            final (self).result is None,
            final (self).error is None,
    {
        *self = AiPopupState::default();
    }
}

} // verus!
