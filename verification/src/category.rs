//! The four fixed item categories and their field rules.

use vstd::prelude::*;

use crate::text::{chars_eq, chars_of, lower_chars, lower_seq};

verus! {

/// The category of an item. Each category implies which optional metadata
/// fields are meaningful and whether a description is required.
#[derive(Debug, Clone, Copy, PartialEq, Eq, Hash, Structural)]
pub enum Category {
    Prompt,
    Agent,
    Skill,
    Command,
}

impl Category {
    /// The storage token for this category.
    pub open spec fn spec_str(self) -> Seq<char> {
        match self {
            Category::Prompt => "prompt"@,
            Category::Agent => "agent"@,
            Category::Skill => "skill"@,
            Category::Command => "command"@,
        }
    }

    /// Whether this category requires a non-empty description.
    pub open spec fn requires_description(self) -> bool {
        self == Category::Agent || self == Category::Skill
    }

    pub fn as_str(&self) -> (r: &'static str)
        ensures
            r@ == self.spec_str(),
    {
        match self {
            Category::Prompt => "prompt",
            Category::Agent => "agent",
            Category::Skill => "skill",
            Category::Command => "command",
        }
    }

    pub fn display_name(&self) -> (r: &'static str)
        ensures
            self == Category::Prompt ==> r@ == "Prompts"@,
            self == Category::Agent ==> r@ == "Agents"@,
            self == Category::Skill ==> r@ == "Skills"@,
            self == Category::Command ==> r@ == "Commands"@,
    {
        match self {
            Category::Prompt => "Prompts",
            Category::Agent => "Agents",
            Category::Skill => "Skills",
            Category::Command => "Commands",
        }
    }

    /// The category whose token equals `s` lower-cased; `Prompt` for anything
    /// unrecognized.
    pub open spec fn spec_from_str(s: Seq<char>) -> Category {
        if lower_seq(s) == "prompt"@ {
            Category::Prompt
        } else if lower_seq(s) == "agent"@ {
            Category::Agent
        } else if lower_seq(s) == "skill"@ {
            Category::Skill
        } else if lower_seq(s) == "command"@ {
            Category::Command
        } else {
            Category::Prompt
        }
    }

    pub fn from_str(s: &str) -> (r: Category)
        ensures
            r == Category::spec_from_str(s@),
    {
        let lowered = lower_chars(&chars_of(s));
        if chars_eq(&lowered, &chars_of("prompt")) {
            Category::Prompt
        } else if chars_eq(&lowered, &chars_of("agent")) {
            Category::Agent
        } else if chars_eq(&lowered, &chars_of("skill")) {
            Category::Skill
        } else if chars_eq(&lowered, &chars_of("command")) {
            Category::Command
        } else {
            Category::Prompt
        }
    }

    pub fn all() -> (r: [Category; 4])
        ensures
            r@ == seq![Category::Prompt, Category::Agent, Category::Skill, Category::Command],
    {
        let r = [Category::Prompt, Category::Agent, Category::Skill, Category::Command];
        proof {
            assert(r@ =~= seq![
                Category::Prompt,
                Category::Agent,
                Category::Skill,
                Category::Command,
            ]);
        }
        r
    }

    /// The fields a valid item of this category must fill.
    pub fn required_fields(&self) -> (r: Vec<&'static str>)
        ensures
            self.requires_description() ==> r.deep_view() == seq![
                "name"@,
                "description"@,
                "content"@,
            ],
            !self.requires_description() ==> r.deep_view() == seq!["name"@, "content"@],
    {
        let mut r: Vec<&'static str> = Vec::new();
        r.push("name");
        if self.requires_description_exec() {
            r.push("description");
        }
        r.push("content");
        proof {
            if self.requires_description() {
                assert(r.deep_view() =~~= seq!["name"@, "description"@, "content"@]);
            } else {
                assert(r.deep_view() =~~= seq!["name"@, "content"@]);
            }
        }
        r
    }

    pub(crate) fn requires_description_exec(&self) -> (r: bool)
        ensures
            r == self.requires_description(),
    {
        match self {
            Category::Agent => true,
            Category::Skill => true,
            _ => false,
        }
    }

    /// The optional metadata fields that are meaningful for this category.
    pub fn optional_fields(&self) -> (r: Vec<&'static str>)
        ensures
            self == Category::Prompt ==> r.deep_view() == seq!["description"@, "tags"@],
            self == Category::Agent ==> r.deep_view() == seq![
                "model"@,
                "tools"@,
                "permission_mode"@,
                "skills"@,
                "tags"@,
            ],
            self == Category::Skill ==> r.deep_view() == seq!["allowed_tools"@, "tags"@],
            self == Category::Command ==> r.deep_view() == seq![
                "description"@,
                "allowed_tools"@,
                "argument_hint"@,
                "model"@,
                "tags"@,
            ],
    {
        let mut r: Vec<&'static str> = Vec::new();
        match self {
            Category::Prompt => {
                r.push("description");
                r.push("tags");
                proof {
                    assert(r.deep_view() =~~= seq!["description"@, "tags"@]);
                }
            }
            Category::Agent => {
                r.push("model");
                r.push("tools");
                r.push("permission_mode");
                r.push("skills");
                r.push("tags");
                proof {
                    assert(r.deep_view() =~~= seq![
                        "model"@,
                        "tools"@,
                        "permission_mode"@,
                        "skills"@,
                        "tags"@,
                    ]);
                }
            }
            Category::Skill => {
                r.push("allowed_tools");
                r.push("tags");
                proof {
                    assert(r.deep_view() =~~= seq!["allowed_tools"@, "tags"@]);
                }
            }
            Category::Command => {
                r.push("description");
                r.push("allowed_tools");
                r.push("argument_hint");
                r.push("model");
                r.push("tags");
                proof {
                    assert(r.deep_view() =~~= seq![
                        "description"@,
                        "allowed_tools"@,
                        "argument_hint"@,
                        "model"@,
                        "tags"@,
                    ]);
                }
            }
        }
        r
    }
}

} // verus!
