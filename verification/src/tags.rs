//! Parsing of the denormalized tag field: comma splitting, trimming,
//! lower-casing, and token counting. Tags are stored as one comma-separated
//! string; everything here re-derives structure from that string.

use vstd::prelude::*;

use crate::text::{lower_chars, lower_seq, trim_chars, trim_spaces};

verus! {

/// The segments of `s` between commas, in order. An empty string yields one
/// empty segment, as splitting does.
pub open spec fn spec_split_commas(s: Seq<char>) -> Seq<Seq<char>>
    decreases s.len(),
{
    if s.len() == 0 {
        seq![Seq::<char>::empty()]
    } else if s[0] == ',' {
        seq![Seq::<char>::empty()] + spec_split_commas(s.drop_first())
    } else {
        let r = spec_split_commas(s.drop_first());
        seq![seq![s[0]] + r[0]] + r.skip(1)
    }
}

/// A tag token: the segment trimmed and lower-cased.
pub open spec fn normalize_tag(s: Seq<char>) -> Seq<char> {
    lower_seq(trim_spaces(s))
}

/// Each segment normalized, empty results dropped.
pub open spec fn spec_normalized_tags(parts: Seq<Seq<char>>) -> Seq<Seq<char>>
    decreases parts.len(),
{
    if parts.len() == 0 {
        Seq::empty()
    } else {
        let rest = spec_normalized_tags(parts.drop_last());
        let t = normalize_tag(parts.last());
        if t.len() > 0 {
            rest.push(t)
        } else {
            rest
        }
    }
}

/// Each segment trimmed only (case kept), empty results dropped.
pub open spec fn spec_trimmed_tags(parts: Seq<Seq<char>>) -> Seq<Seq<char>>
    decreases parts.len(),
{
    if parts.len() == 0 {
        Seq::empty()
    } else {
        let rest = spec_trimmed_tags(parts.drop_last());
        let t = trim_spaces(parts.last());
        if t.len() > 0 {
            rest.push(t)
        } else {
            rest
        }
    }
}

/// The tag tokens of a raw tag string: split on commas, trim, lower-case,
/// drop blanks.
pub open spec fn spec_tag_tokens(s: Seq<char>) -> Seq<Seq<char>> {
    spec_normalized_tags(spec_split_commas(s))
}

/// How often token `t` occurs in `ts`.
pub open spec fn count_token(ts: Seq<Seq<char>>, t: Seq<char>) -> int
    decreases ts.len(),
{
    if ts.len() == 0 {
        0
    } else {
        count_token(ts.drop_last(), t) + if ts.last() == t {
            1int
        } else {
            0int
        }
    }
}

pub proof fn lemma_count_token_nonneg(ts: Seq<Seq<char>>, t: Seq<char>)
    ensures
        0 <= count_token(ts, t) <= ts.len(),
    decreases ts.len(),
{
    if ts.len() > 0 {
        lemma_count_token_nonneg(ts.drop_last(), t);
    }
}

pub proof fn lemma_count_token_positive(ts: Seq<Seq<char>>, t: Seq<char>)
    ensures
        count_token(ts, t) > 0 <==> ts.contains(t),
    decreases ts.len(),
{
    if ts.len() > 0 {
        lemma_count_token_positive(ts.drop_last(), t);
        lemma_count_token_nonneg(ts.drop_last(), t);
        if ts.contains(t) && ts.last() != t {
            let i = choose|i: int| 0 <= i < ts.len() && ts[i] == t;
            assert(ts.drop_last()[i] == t);
        }
    }
}

/// The comma-separated segments of `cs`, in order.
pub fn split_commas(cs: &Vec<char>) -> (r: Vec<Vec<char>>)
    ensures
        r.deep_view() == spec_split_commas(cs@),
        r.len() >= 1,
{
    let mut r: Vec<Vec<char>> = Vec::new();
    r.push(Vec::new());
    let mut i: usize = cs.len();
    proof {
        assert(cs@.skip(i as int) =~= Seq::<char>::empty());
        assert(r.deep_view() =~~= spec_split_commas(cs@.skip(i as int)));
    }
    while i > 0
        invariant
            i <= cs@.len(),
            r.deep_view() == spec_split_commas(cs@.skip(i as int)),
            r.len() >= 1,
        decreases i,
    {
        i -= 1;
        let ghost pre = cs@.skip(i + 1);
        proof {
            assert(cs@.skip(i as int).drop_first() =~= pre);
        }
        if cs[i] == ',' {
            r.insert(0, Vec::new());
            proof {
                assert(r.deep_view() =~~= seq![Seq::<char>::empty()] + spec_split_commas(pre));
            }
        } else {
            let mut first = r.remove(0);
            first.insert(0, cs[i]);
            r.insert(0, first);
            proof {
                let sp = spec_split_commas(pre);
                assert(first@ =~= seq![cs@[i as int]] + sp[0]);
                assert(r.deep_view() =~~= seq![seq![cs@[i as int]] + sp[0]] + sp.skip(1));
            }
        }
    }
    proof {
        assert(cs@.skip(0) =~= cs@);
    }
    r
}

/// The tag tokens of `cs`: split on commas, trimmed, lower-cased, blanks
/// dropped.
pub fn tag_tokens(cs: &Vec<char>) -> (r: Vec<Vec<char>>)
    ensures
        r.deep_view() == spec_tag_tokens(cs@),
{
    let parts = split_commas(cs);
    let mut r: Vec<Vec<char>> = Vec::new();
    let mut k: usize = 0;
    while k < parts.len()
        invariant
            k <= parts@.len(),
            r.deep_view() == spec_normalized_tags(parts.deep_view().take(k as int)),
        decreases parts@.len() - k,
    {
        let t = lower_chars(&trim_chars(&parts[k]));
        proof {
            assert(parts.deep_view()[k as int] =~= parts@[k as int]@);
            let taken = parts.deep_view().take(k + 1);
            assert(taken.drop_last() =~= parts.deep_view().take(k as int));
            assert(taken.last() == parts.deep_view()[k as int]);
        }
        if t.len() > 0 {
            r.push(t);
        }
        proof {
            assert(r.deep_view() =~~= spec_normalized_tags(parts.deep_view().take(k + 1)));
        }
        k += 1;
    }
    proof {
        assert(parts.deep_view().take(parts@.len() as int) =~= parts.deep_view());
    }
    r
}

/// Segments trimmed only, blanks dropped: the user-facing tag list.
pub fn trimmed_tags(cs: &Vec<char>) -> (r: Vec<Vec<char>>)
    ensures
        r.deep_view() == spec_trimmed_tags(spec_split_commas(cs@)),
{
    let parts = split_commas(cs);
    let mut r: Vec<Vec<char>> = Vec::new();
    let mut k: usize = 0;
    while k < parts.len()
        invariant
            k <= parts@.len(),
            r.deep_view() == spec_trimmed_tags(parts.deep_view().take(k as int)),
        decreases parts@.len() - k,
    {
        let t = trim_chars(&parts[k]);
        proof {
            assert(parts.deep_view()[k as int] =~= parts@[k as int]@);
            let taken = parts.deep_view().take(k + 1);
            assert(taken.drop_last() =~= parts.deep_view().take(k as int));
            assert(taken.last() == parts.deep_view()[k as int]);
        }
        if t.len() > 0 {
            r.push(t);
        }
        proof {
            assert(r.deep_view() =~~= spec_trimmed_tags(parts.deep_view().take(k + 1)));
        }
        k += 1;
    }
    proof {
        assert(parts.deep_view().take(parts@.len() as int) =~= parts.deep_view());
    }
    r
}

} // verus!
