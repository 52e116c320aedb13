//! The item entity: a named, categorized text artifact with category-specific
//! metadata, a denormalized tag string, timestamps and a version counter.

use vstd::prelude::*;

use crate::category::Category;
use crate::tags::{spec_split_commas, spec_trimmed_tags, trimmed_tags};
use crate::text::{chars_of, is_blank, str_is_blank, string_of};

verus! {

/// The failures a store operation can report. `StorageUnavailable` is
/// reserved for a persistence layer that cannot reach its backing file; the
/// in-memory operations of this crate never raise it themselves.
#[derive(Debug, Clone, Copy, PartialEq, Eq, Structural)]
pub enum StoreError {
    /// A required field is missing or blank.
    Validation,
    /// The unique name is already taken by another item.
    Conflict,
    /// No item (or item version) exists under the given identifier.
    NotFound,
    /// The backing storage cannot be opened, read or written.
    StorageUnavailable,
}

/// The mathematical value of an `Item`: every text field as a character
/// sequence.
#[verifier::ext_equal]
pub ghost struct ItemView {
    pub id: Option<i64>,
    pub name: Seq<char>,
    pub category: Category,
    pub description: Option<Seq<char>>,
    pub content: Seq<char>,
    pub model: Option<Seq<char>>,
    pub tools: Option<Seq<char>>,
    pub allowed_tools: Option<Seq<char>>,
    pub argument_hint: Option<Seq<char>>,
    pub permission_mode: Option<Seq<char>>,
    pub skills: Option<Seq<char>>,
    pub tags: Option<Seq<char>>,
    pub created_at: Option<u64>,
    pub updated_at: Option<u64>,
    pub version: u64,
}

/// The view of an optional string field.
pub open spec fn opt_view(o: Option<String>) -> Option<Seq<char>> {
    match o {
        Option::None => Option::None,
        Option::Some(s) => Option::Some(s@),
    }
}

/// A catalog item. Before its first insertion `id` is `None`; the store
/// assigns the identifier and the version counter.
#[derive(Debug, Clone, PartialEq)]
pub struct Item {
    pub id: Option<i64>,
    pub name: String,
    pub category: Category,
    pub description: Option<String>,
    pub content: String,
    pub model: Option<String>,
    pub tools: Option<String>,
    pub allowed_tools: Option<String>,
    pub argument_hint: Option<String>,
    pub permission_mode: Option<String>,
    pub skills: Option<String>,
    pub tags: Option<String>,
    /// Seconds since the epoch; `None` before first persistence.
    pub created_at: Option<u64>,
    /// Seconds since the epoch; refreshed by every successful update.
    pub updated_at: Option<u64>,
    /// Starts at 1 when inserted, incremented by exactly 1 per update.
    pub version: u64,
}

impl View for Item {
    type V = ItemView;

    open spec fn view(&self) -> ItemView {
        ItemView {
            id: self.id,
            name: self.name@,
            category: self.category,
            description: opt_view(self.description),
            content: self.content@,
            model: opt_view(self.model),
            tools: opt_view(self.tools),
            allowed_tools: opt_view(self.allowed_tools),
            argument_hint: opt_view(self.argument_hint),
            permission_mode: opt_view(self.permission_mode),
            skills: opt_view(self.skills),
            tags: opt_view(self.tags),
            created_at: self.created_at,
            updated_at: self.updated_at,
            version: self.version,
        }
    }
}

impl ItemView {
    /// Whether an optional field is present and not blank.
    pub open spec fn field_filled(o: Option<Seq<char>>) -> bool {
        match o {
            Option::None => false,
            Option::Some(s) => !is_blank(s),
        }
    }

    /// The validation rule: name and content never blank; a description
    /// additionally required for agents and skills.
    pub open spec fn valid(self) -> bool {
        &&& !is_blank(self.name)
        &&& !is_blank(self.content)
        &&& (self.category.requires_description() ==> Self::field_filled(self.description))
    }

    /// The tag tokens this item contributes to the tag frequency table.
    pub open spec fn tag_tokens(self) -> Seq<Seq<char>> {
        match self.tags {
            Option::None => Seq::empty(),
            Option::Some(t) => crate::tags::spec_tag_tokens(t),
        }
    }
}

/// The validation messages owed for `v`, in the order they are reported.
pub open spec fn spec_validation_errors(v: ItemView) -> Seq<Seq<char>> {
    let name_part: Seq<Seq<char>> = if is_blank(v.name) {
        seq!["Name is required"@]
    } else {
        Seq::empty()
    };
    let content_part: Seq<Seq<char>> = if is_blank(v.content) {
        seq!["Content is required"@]
    } else {
        Seq::empty()
    };
    let desc_part: Seq<Seq<char>> = if v.category.requires_description()
        && !ItemView::field_filled(v.description) {
        seq!["Description is required for this category"@]
    } else {
        Seq::empty()
    };
    name_part + content_part + desc_part
}

fn opt_str_filled(o: &Option<String>) -> (r: bool)
    ensures
        r == ItemView::field_filled(opt_view(*o)),
{
    match o {
        Option::None => false,
        Option::Some(s) => !str_is_blank(s.as_str()),
    }
}

fn clone_opt(o: &Option<String>) -> (r: Option<String>)
    ensures
        opt_view(r) == opt_view(*o),
{
    match o {
        Option::None => Option::None,
        Option::Some(s) => Option::Some(s.clone()),
    }
}

impl Item {
    /// A copy of this item whose every field holds the same value.
    pub fn duplicate(&self) -> (r: Item)
        ensures
            r@ == self@,
    {
        let r = Item {
            id: self.id,
            name: self.name.clone(),
            category: self.category,
            description: clone_opt(&self.description),
            content: self.content.clone(),
            model: clone_opt(&self.model),
            tools: clone_opt(&self.tools),
            allowed_tools: clone_opt(&self.allowed_tools),
            argument_hint: clone_opt(&self.argument_hint),
            permission_mode: clone_opt(&self.permission_mode),
            skills: clone_opt(&self.skills),
            tags: clone_opt(&self.tags),
            created_at: self.created_at,
            updated_at: self.updated_at,
            version: self.version,
        };
        proof {
            assert(r@ =~= self@);
        }
        r
    }

    /// A fresh, unpersisted item with the given name, category and content.
    pub fn new(name: String, category: Category, content: String) -> (r: Item)
        ensures
            r@ == (ItemView {
                id: Option::None,
                name: name@,
                category: category,
                description: Option::None,
                content: content@,
                model: Option::None,
                tools: Option::None,
                allowed_tools: Option::None,
                argument_hint: Option::None,
                permission_mode: Option::None,
                skills: Option::None,
                tags: Option::None,
                created_at: Option::None,
                updated_at: Option::None,
                version: 1u64,
            }),
    {
        Item {
            id: None,
            name,
            category,
            description: None,
            content,
            model: None,
            tools: None,
            allowed_tools: None,
            argument_hint: None,
            permission_mode: None,
            skills: None,
            tags: None,
            created_at: None,
            updated_at: None,
            version: 1,
        }
    }

    /// Check the category-dependent field rules, reporting every violated
    /// rule in a fixed order.
    pub fn validate(&self) -> (r: Result<(), Vec<String>>)
        ensures
            r is Ok <==> self@.valid(),
            r matches Err(e) ==> e.deep_view() == spec_validation_errors(self@),
    {
        let mut errors: Vec<String> = Vec::new();

        if str_is_blank(self.name.as_str()) {
            errors.push(string_of(&chars_of("Name is required")));
        }
        if str_is_blank(self.content.as_str()) {
            errors.push(string_of(&chars_of("Content is required")));
        }
        if self.category.requires_description_exec() && !opt_str_filled(&self.description) {
            errors.push(string_of(&chars_of("Description is required for this category")));
        }

        if errors.len() == 0 {
            Ok(())
        } else {
            proof {
                assert(errors.deep_view() =~~= spec_validation_errors(self@));
            }
            Err(errors)
        }
    }

    /// The trimmed, non-blank tag segments, in order of appearance.
    pub fn tags_vec(&self) -> (r: Vec<String>)
        ensures
            self@.tags matches Some(t) ==> r.deep_view() == spec_trimmed_tags(
                spec_split_commas(t),
            ),
            self@.tags is None ==> r.deep_view() == Seq::<Seq<char>>::empty(),
    {
        match &self.tags {
            Option::None => {
                let r: Vec<String> = Vec::new();
                proof {
                    assert(r.deep_view() =~~= Seq::<Seq<char>>::empty());
                }
                r
            }
            Option::Some(t) => {
                let parts = trimmed_tags(&chars_of(t.as_str()));
                let mut r: Vec<String> = Vec::new();
                let mut k: usize = 0;
                while k < parts.len()
                    invariant
                        k <= parts@.len(),
                        r@.len() == k,
                        forall|j: int| 0 <= j < k ==> #[trigger] r@[j]@ == parts@[j]@,
                    decreases parts@.len() - k,
                {
                    let s = string_of(&parts[k]);
                    r.push(s);
                    k += 1;
                }
                proof {
                    assert forall|j: int| 0 <= j < parts@.len() implies r.deep_view()[j]
                        == parts.deep_view()[j] by {
                        assert(parts@[j].deep_view() =~= parts@[j]@);
                    }
                    assert(r.deep_view() =~= parts.deep_view());
                }
                r
            }
        }
    }
}

} // verus!

verus! {

/// The decimal digit character for `d`.
pub open spec fn digit_char(d: int) -> char {
    ((48 + d) as u8) as char
}

/// The decimal rendering of a non-negative number.
pub open spec fn spec_digits(n: int) -> Seq<char>
    recommends
        n >= 0,
    decreases n,
{
    if n < 10 {
        seq![digit_char(n)]
    } else {
        spec_digits(n / 10).push(digit_char(n % 10))
    }
}

/// The relative-age wording for a difference of `delta` seconds.
pub open spec fn spec_age_label(delta: u64) -> Seq<char> {
    let weeks = delta as int / 604800;
    let days = delta as int / 86400;
    let hours = delta as int / 3600;
    let minutes = delta as int / 60;
    if days > 7 {
        spec_digits(weeks) + " weeks ago"@
    } else if days > 0 {
        if days == 1 {
            "1 day ago"@
        } else {
            spec_digits(days) + " days ago"@
        }
    } else if hours > 0 {
        if hours == 1 {
            "1 hour ago"@
        } else {
            spec_digits(hours) + " hours ago"@
        }
    } else if minutes > 0 {
        if minutes == 1 {
            "1 minute ago"@
        } else {
            spec_digits(minutes) + " minutes ago"@
        }
    } else {
        "just now"@
    }
}

/// The decimal digits of `n`, most significant first.
fn digits_of(n: u64) -> (r: Vec<char>)
    ensures
        r@ == spec_digits(n as int),
    decreases n,
{
    if n < 10 {
        let mut r: Vec<char> = Vec::new();
        r.push(((48 + n as u8)) as char);
        proof {
            assert(r@ =~= seq![digit_char(n as int)]);
        }
        r
    } else {
        let mut r = digits_of(n / 10);
        r.push(((48 + (n % 10) as u8)) as char);
        r
    }
}

fn count_with_unit(n: u64, unit: &str) -> (r: String)
    ensures
        r@ == spec_digits(n as int) + unit@,
{
    let mut cs = digits_of(n);
    let mut u = chars_of(unit);
    cs.append(&mut u);
    string_of(&cs)
}

/// The relative-age wording for a difference of `delta` seconds: weeks
/// past the first week, else days, hours or minutes, else "just now".
pub fn age_label(delta: u64) -> (r: String)
    ensures
        r@ == spec_age_label(delta),
{
    let weeks = delta / 604800;
    let days = delta / 86400;
    let hours = delta / 3600;
    let minutes = delta / 60;
    if days > 7 {
        count_with_unit(weeks, " weeks ago")
    } else if days > 0 {
        if days == 1 {
            string_of(&chars_of("1 day ago"))
        } else {
            count_with_unit(days, " days ago")
        }
    } else if hours > 0 {
        if hours == 1 {
            string_of(&chars_of("1 hour ago"))
        } else {
            count_with_unit(hours, " hours ago")
        }
    } else if minutes > 0 {
        if minutes == 1 {
            string_of(&chars_of("1 minute ago"))
        } else {
            count_with_unit(minutes, " minutes ago")
        }
    } else {
        string_of(&chars_of("just now"))
    }
}

impl Item {
    /// How long ago this item was last updated, as wording relative to the
    /// wall clock; "unknown" before first persistence.
    pub fn updated_ago(&self) -> (r: String)
        ensures
            self@.updated_at is None ==> r@ == "unknown"@,
            self@.updated_at is Some ==> exists|d: u64| r@ == spec_age_label(d),
    {
        match self.updated_at {
            None => string_of(&chars_of("unknown")),
            Some(t) => {
                let now = crate::clock::now_seconds();
                let delta = if now >= t {
                    now - t
                } else {
                    0
                };
                let r = age_label(delta);
                proof {
                    assert(r@ == spec_age_label(delta));
                }
                r
            },
        }
    }
}

} // verus!
