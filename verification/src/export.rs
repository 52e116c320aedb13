//! Markdown rendering of items for export: front matter assembled from the
//! category's fields, followed by the content. Writing the files to disk
//! is the caller's business; everything here is pure text.

use vstd::prelude::*;

use crate::item::{Item, ItemView};
use crate::text::{chars_of, string_of};

verus! {

/// The lines joined with single line breaks.
pub open spec fn spec_join_lines(parts: Seq<Seq<char>>) -> Seq<char>
    decreases parts.len(),
{
    if parts.len() == 0 {
        Seq::empty()
    } else if parts.len() == 1 {
        parts[0]
    } else {
        spec_join_lines(parts.drop_last()) + "\n"@ + parts.last()
    }
}

/// A labelled front-matter line, when the field is set.
pub open spec fn opt_line(label: Seq<char>, o: Option<Seq<char>>) -> Seq<Seq<char>> {
    match o {
        Some(t) => seq![label + t],
        None => Seq::empty(),
    }
}

/// The front-matter lines of an agent export.
pub open spec fn agent_lines(v: ItemView) -> Seq<Seq<char>> {
    seq!["name: "@ + v.name] + opt_line("description: "@, v.description) + opt_line(
        "tools: "@,
        v.tools,
    ) + opt_line("model: "@, v.model) + opt_line("permissionMode: "@, v.permission_mode)
        + opt_line("skills: "@, v.skills)
}

/// The front-matter lines of a command export.
pub open spec fn command_lines(v: ItemView) -> Seq<Seq<char>> {
    opt_line("description: "@, v.description) + opt_line("allowed-tools: "@, v.allowed_tools)
        + opt_line("argument-hint: "@, v.argument_hint) + opt_line("model: "@, v.model)
}

/// The front-matter lines of a skill export.
pub open spec fn skill_lines(v: ItemView) -> Seq<Seq<char>> {
    seq!["name: "@ + v.name] + opt_line("description: "@, v.description) + opt_line(
        "allowed-tools: "@,
        v.allowed_tools,
    )
}

/// A document with front matter: the lines fenced by dashes, a blank line,
/// then the content.
pub open spec fn fenced(parts: Seq<Seq<char>>, content: Seq<char>) -> Seq<char> {
    "---\n"@ + spec_join_lines(parts) + "\n---\n\n"@ + content
}

/// The export path prefix with a leading tilde expanded to the home
/// directory.
pub open spec fn expanded_path(base: Seq<char>, home: Option<Seq<char>>) -> Seq<char> {
    if base.len() > 0 && base[0] == '~' && home is Some {
        home.unwrap() + base.skip(1)
    } else {
        base
    }
}

/// Renders items to their export markdown under a base directory.
pub struct ClaudeExporter {
    pub base_path: String,
}

fn push_line(parts: &mut Vec<Vec<char>>, label: &str, o: &Option<String>)
    ensures
        final (parts).deep_view() == old(parts).deep_view() + opt_line(
            label@,
            crate::item::opt_view(*o),
        ),
{
    match o {
        Some(t) => {
            let mut line = chars_of(label);
            let mut rest = chars_of(t.as_str());
            line.append(&mut rest);
            parts.push(line);
            proof {
                assert(parts.deep_view() =~~= old(parts).deep_view() + opt_line(
                    label@,
                    crate::item::opt_view(*o),
                ));
            }
        },
        None => {
            proof {
                assert(parts.deep_view() =~~= old(parts).deep_view() + opt_line(
                    label@,
                    crate::item::opt_view(*o),
                ));
            }
        },
    }
}

/// Join lines with single line breaks.
fn join_lines(parts: &Vec<Vec<char>>) -> (r: Vec<char>)
    ensures
        r@ == spec_join_lines(parts.deep_view()),
{
    let mut r: Vec<char> = Vec::new();
    let mut k: usize = 0;
    while k < parts.len()
        invariant
            k <= parts@.len(),
            r@ == spec_join_lines(parts.deep_view().take(k as int)),
        decreases parts@.len() - k,
    {
        proof {
            reveal_strlit("\n");
            assert("\n"@ =~= seq!['\n']);
            assert(parts.deep_view().take(k + 1).drop_last() =~= parts.deep_view().take(k as int));
            assert(parts.deep_view().take(k + 1).last() == parts.deep_view()[k as int]);
            assert(parts.deep_view()[k as int] =~= parts@[k as int]@);
        }
        if k > 0 {
            r.push('\n');
        }
        let mut line = chars_of(string_of(&parts[k]).as_str());
        r.append(&mut line);
        proof {
            if k == 0 {
                assert(r@ =~= spec_join_lines(parts.deep_view().take(1)));
            } else {
                assert(r@ =~= spec_join_lines(parts.deep_view().take(k + 1)));
            }
        }
        k += 1;
    }
    proof {
        assert(parts.deep_view().take(parts@.len() as int) =~= parts.deep_view());
    }
    r
}

/// Fence the lines and append the content.
fn render_fenced(parts: &Vec<Vec<char>>, content: &str) -> (r: String)
    ensures
        r@ == fenced(parts.deep_view(), content@),
{
    let mut out = chars_of("---\n");
    let mut body = join_lines(parts);
    out.append(&mut body);
    let mut tail = chars_of("\n---\n\n");
    out.append(&mut tail);
    let mut c = chars_of(content);
    out.append(&mut c);
    proof {
        assert(out@ =~= fenced(parts.deep_view(), content@));
    }
    string_of(&out)
}

impl ClaudeExporter {
    /// An exporter rooted at `base_path`; a leading tilde is replaced by
    /// the home directory, when one is known.
    pub fn new(base_path: &str, home: Option<&str>) -> (r: ClaudeExporter)
        ensures
            r.base_path@ == expanded_path(
                base_path@,
                match home {
                    Some(h) => Some(h@),
                    None => None,
                },
            ),
    {
        let cs = chars_of(base_path);
        let expanded: Vec<char> = if cs.len() > 0 && cs[0] == '~' {
            match home {
                Some(h) => {
                    let mut out = chars_of(h);
                    let mut k: usize = 1;
                    while k < cs.len()
                        invariant
                            1 <= k <= cs@.len(),
                            cs@.len() > 0,
                            out@ == h@ + cs@.subrange(1, k as int),
                        decreases cs@.len() - k,
                    {
                        out.push(cs[k]);
                        proof {
                            assert(out@ =~= h@ + cs@.subrange(1, k + 1));
                        }
                        k += 1;
                    }
                    proof {
                        assert(cs@.subrange(1, cs@.len() as int) =~= cs@.skip(1));
                    }
                    out
                },
                None => cs,
            }
        } else {
            cs
        };
        ClaudeExporter { base_path: string_of(&expanded) }
    }

    /// The agent export: name, the set metadata fields, then the content.
    pub fn format_agent(&self, item: &Item) -> (r: String)
        ensures
            r@ == fenced(agent_lines(item@), item@.content),
    {
        let mut parts: Vec<Vec<char>> = Vec::new();
        let mut name_line = chars_of("name: ");
        let mut name = chars_of(item.name.as_str());
        name_line.append(&mut name);
        parts.push(name_line);
        push_line(&mut parts, "description: ", &item.description);
        push_line(&mut parts, "tools: ", &item.tools);
        push_line(&mut parts, "model: ", &item.model);
        push_line(&mut parts, "permissionMode: ", &item.permission_mode);
        push_line(&mut parts, "skills: ", &item.skills);
        proof {
            assert(parts.deep_view() =~~= agent_lines(item@));
        }
        render_fenced(&parts, item.content.as_str())
    }

    /// The command export: the set metadata fields, then the content; with
    /// no metadata the content stands alone.
    pub fn format_command(&self, item: &Item) -> (r: String)
        ensures
            command_lines(item@).len() == 0 ==> r@ == item@.content,
            command_lines(item@).len() > 0 ==> r@ == fenced(command_lines(item@), item@.content),
    {
        let mut parts: Vec<Vec<char>> = Vec::new();
        push_line(&mut parts, "description: ", &item.description);
        push_line(&mut parts, "allowed-tools: ", &item.allowed_tools);
        push_line(&mut parts, "argument-hint: ", &item.argument_hint);
        push_line(&mut parts, "model: ", &item.model);
        proof {
            assert(parts.deep_view() =~~= command_lines(item@));
        }
        if parts.len() == 0 {
            item.content.clone()
        } else {
            render_fenced(&parts, item.content.as_str())
        }
    }

    /// The skill export: name, description and tools, then the content.
    pub fn format_skill(&self, item: &Item) -> (r: String)
        ensures
            r@ == fenced(skill_lines(item@), item@.content),
    {
        let mut parts: Vec<Vec<char>> = Vec::new();
        let mut name_line = chars_of("name: ");
        let mut name = chars_of(item.name.as_str());
        name_line.append(&mut name);
        parts.push(name_line);
        push_line(&mut parts, "description: ", &item.description);
        push_line(&mut parts, "allowed-tools: ", &item.allowed_tools);
        proof {
            assert(parts.deep_view() =~~= skill_lines(item@));
        }
        render_fenced(&parts, item.content.as_str())
    }
}

} // verus!
