//! The full-text side of the store: tokenization of item fields, the
//! derived index entries, and the match/score rules of a free-text query.
//!
//! A token is a maximal run of ASCII letters and digits, lower-cased
//! (non-ASCII characters separate tokens rather than joining them). An
//! item matches a query when every query token occurs among the item's
//! tokens; its score is the number of its tokens that occur in the query,
//! so heavier use of the query's words ranks an item higher.

use vstd::prelude::*;

use crate::item::{Item, ItemView};
use crate::text::{chars_eq, chars_of, lower_char};

verus! {

/// The characters that form search tokens.
pub open spec fn is_word_char(c: char) -> bool {
    ('a' <= c && c <= 'z') || ('A' <= c && c <= 'Z') || ('0' <= c && c <= '9')
}

/// The tokens of `s`: maximal word-character runs, lower-cased, in order.
pub open spec fn spec_tokens(s: Seq<char>) -> Seq<Seq<char>>
    decreases s.len(),
{
    if s.len() == 0 {
        Seq::empty()
    } else if !is_word_char(s[0]) {
        spec_tokens(s.drop_first())
    } else {
        let r = spec_tokens(s.drop_first());
        if s.len() >= 2 && is_word_char(s[1]) {
            seq![seq![lower_char(s[0])] + r[0]] + r.skip(1)
        } else {
            seq![seq![lower_char(s[0])]] + r
        }
    }
}

pub proof fn lemma_tokens_nonempty(s: Seq<char>)
    requires
        s.len() > 0,
        is_word_char(s[0]),
    ensures
        spec_tokens(s).len() >= 1,
{
}

fn is_word(c: char) -> (r: bool)
    ensures
        r == is_word_char(c),
{
    ('a' <= c && c <= 'z') || ('A' <= c && c <= 'Z') || ('0' <= c && c <= '9')
}

fn to_lower(c: char) -> (r: char)
    ensures
        r == lower_char(c),
{
    if 'A' <= c && c <= 'Z' {
        ((c as u8) + 32) as char
    } else {
        c
    }
}

/// The search tokens of `cs`, in order.
pub fn tokenize(cs: &Vec<char>) -> (r: Vec<Vec<char>>)
    ensures
        r.deep_view() == spec_tokens(cs@),
{
    let mut r: Vec<Vec<char>> = Vec::new();
    let mut i: usize = cs.len();
    proof {
        assert(cs@.skip(i as int) =~= Seq::<char>::empty());
        assert(r.deep_view() =~~= spec_tokens(cs@.skip(i as int)));
    }
    while i > 0
        invariant
            i <= cs@.len(),
            r.deep_view() == spec_tokens(cs@.skip(i as int)),
        decreases i,
    {
        i -= 1;
        let ghost pre = cs@.skip(i + 1);
        proof {
            assert(cs@.skip(i as int).drop_first() =~= pre);
        }
        let c = cs[i];
        if is_word(c) {
            let lc = to_lower(c);
            if i + 1 < cs.len() && is_word(cs[i + 1]) {
                proof {
                    assert(pre[0] == cs@[i + 1]);
                    lemma_tokens_nonempty(pre);
                }
                let mut first = r.remove(0);
                first.insert(0, lc);
                r.insert(0, first);
                proof {
                    let sp = spec_tokens(pre);
                    assert(first@ =~= seq![lower_char(cs@[i as int])] + sp[0]);
                    assert(r.deep_view() =~~= seq![seq![lower_char(cs@[i as int])] + sp[0]]
                        + sp.skip(1));
                }
            } else {
                let mut t: Vec<char> = Vec::new();
                t.push(lc);
                r.insert(0, t);
                proof {
                    assert(t@ =~= seq![lower_char(cs@[i as int])]);
                    assert(r.deep_view() =~~= seq![seq![lower_char(cs@[i as int])]]
                        + spec_tokens(pre));
                }
            }
        }
    }
    proof {
        assert(cs@.skip(0) =~= cs@);
    }
    r
}

/// The sequence an optional field contributes to the index: its text, or
/// nothing.
pub open spec fn opt_or_empty(o: Option<Seq<char>>) -> Seq<char> {
    match o {
        Option::None => Seq::empty(),
        Option::Some(s) => s,
    }
}

/// Everything the index holds for one item: the tokens of its name,
/// description, content and tags, in that order.
pub open spec fn spec_doc_tokens(v: ItemView) -> Seq<Seq<char>> {
    spec_tokens(v.name) + spec_tokens(opt_or_empty(v.description)) + spec_tokens(v.content)
        + spec_tokens(opt_or_empty(v.tags))
}

fn tokenize_opt(o: &Option<String>) -> (r: Vec<Vec<char>>)
    ensures
        r.deep_view() == spec_tokens(opt_or_empty(crate::item::opt_view(*o))),
{
    match o {
        Option::None => {
            let r: Vec<Vec<char>> = Vec::new();
            proof {
                assert(r.deep_view() =~~= spec_tokens(Seq::<char>::empty()));
            }
            r
        }
        Option::Some(s) => tokenize(&chars_of(s.as_str())),
    }
}

/// One entry of the search index: the identifier of an item and the tokens
/// derived from its indexed fields.
pub struct IndexEntry {
    pub id: i64,
    pub tokens: Vec<Vec<char>>,
}

impl IndexEntry {
    /// Derive the index entry for `item` under identifier `id`.
    pub fn build(id: i64, item: &Item) -> (r: IndexEntry)
        ensures
            r.id == id,
            r.tokens.deep_view() == spec_doc_tokens(item@),
    {
        let mut tokens = tokenize(&chars_of(item.name.as_str()));
        let mut rest = tokenize_opt(&item.description);
        tokens.append(&mut rest);
        let mut content_tokens = tokenize(&chars_of(item.content.as_str()));
        tokens.append(&mut content_tokens);
        let mut tag_tokens = tokenize_opt(&item.tags);
        tokens.append(&mut tag_tokens);
        proof {
            assert(tokens.deep_view() =~~= spec_doc_tokens(item@));
        }
        IndexEntry { id, tokens }
    }
}

/// Whether token `t` occurs in `ts`.
pub fn contains_token(ts: &Vec<Vec<char>>, t: &Vec<char>) -> (r: bool)
    ensures
        r == ts.deep_view().contains(t@),
{
    let mut k: usize = 0;
    while k < ts.len()
        invariant
            k <= ts@.len(),
            forall|j: int| 0 <= j < k ==> ts.deep_view()[j] != t@,
        decreases ts@.len() - k,
    {
        proof {
            assert(ts.deep_view()[k as int] =~= ts@[k as int]@);
        }
        if chars_eq(&ts[k], t) {
            proof {
                assert(ts.deep_view()[k as int] == t@);
            }
            return true;
        }
        k += 1;
    }
    proof {
        assert(!ts.deep_view().contains(t@));
    }
    false
}

/// An item matches a query when the query has at least one token and each
/// of its tokens occurs among the item's tokens.
pub open spec fn spec_matches(doc: Seq<Seq<char>>, q: Seq<Seq<char>>) -> bool {
    q.len() > 0 && (forall|i: int| 0 <= i < q.len() ==> doc.contains(#[trigger] q[i]))
}

/// The relevance of an item: how many of its tokens occur in the query.
pub open spec fn spec_score(doc: Seq<Seq<char>>, q: Seq<Seq<char>>) -> int
    decreases doc.len(),
{
    if doc.len() == 0 {
        0
    } else {
        spec_score(doc.drop_last(), q) + if q.contains(doc.last()) {
            1int
        } else {
            0int
        }
    }
}

pub proof fn lemma_score_bound(doc: Seq<Seq<char>>, q: Seq<Seq<char>>)
    ensures
        0 <= spec_score(doc, q) <= doc.len(),
    decreases doc.len(),
{
    if doc.len() > 0 {
        lemma_score_bound(doc.drop_last(), q);
    }
}

/// Whether the document tokens satisfy every token of the query.
pub fn matches_query(doc: &Vec<Vec<char>>, q: &Vec<Vec<char>>) -> (r: bool)
    ensures
        r == spec_matches(doc.deep_view(), q.deep_view()),
{
    if q.len() == 0 {
        return false;
    }
    let mut k: usize = 0;
    while k < q.len()
        invariant
            k <= q@.len(),
            q@.len() > 0,
            forall|j: int| 0 <= j < k ==> doc.deep_view().contains(#[trigger] q.deep_view()[j]),
        decreases q@.len() - k,
    {
        proof {
            assert(q.deep_view()[k as int] =~= q@[k as int]@);
        }
        if !contains_token(doc, &q[k]) {
            return false;
        }
        k += 1;
    }
    true
}

/// The score of the document tokens against the query.
pub fn score_query(doc: &Vec<Vec<char>>, q: &Vec<Vec<char>>) -> (r: usize)
    ensures
        r == spec_score(doc.deep_view(), q.deep_view()),
{
    let mut r: usize = 0;
    let mut k: usize = 0;
    proof {
        lemma_score_bound(doc.deep_view(), q.deep_view());
    }
    while k < doc.len()
        invariant
            k <= doc@.len(),
            r == spec_score(doc.deep_view().take(k as int), q.deep_view()),
            r <= k,
        decreases doc@.len() - k,
    {
        proof {
            assert(doc.deep_view()[k as int] =~= doc@[k as int]@);
            let taken = doc.deep_view().take(k + 1);
            assert(taken.drop_last() =~= doc.deep_view().take(k as int));
            assert(taken.last() == doc.deep_view()[k as int]);
            lemma_score_bound(doc.deep_view().take(k as int), q.deep_view());
        }
        if contains_token(q, &doc[k]) {
            r += 1;
        }
        k += 1;
    }
    proof {
        assert(doc.deep_view().take(doc@.len() as int) =~= doc.deep_view());
    }
    r
}

} // verus!
