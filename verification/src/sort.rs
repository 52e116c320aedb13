//! Deterministic orderings used by the read queries: items ranked by a
//! numeric key with a numeric tie-breaker, and tag counts ranked by count
//! with a lexicographic tie-breaker.

use vstd::prelude::*;

use crate::item::{Item, ItemView};
use crate::text::chars_of;

verus! {

/// An item paired with its sort keys: `primary` descending, then `tie`
/// ascending.
pub struct Ranked {
    pub primary: u64,
    pub tie: u64,
    pub item: Item,
}

/// The mathematical value of a `Ranked`: its two keys and the item's view.
#[verifier::ext_equal]
pub ghost struct Keyed {
    pub k1: u64,
    pub k2: u64,
    pub v: ItemView,
}

impl View for Ranked {
    type V = Keyed;

    open spec fn view(&self) -> Keyed {
        Keyed { k1: self.primary, k2: self.tie, v: self.item@ }
    }
}

/// `a` may stand before `b`: higher primary key first, lower tie-breaker
/// first among equals.
pub open spec fn keyed_le(a: Keyed, b: Keyed) -> bool {
    a.k1 > b.k1 || (a.k1 == b.k1 && a.k2 <= b.k2)
}

/// The views of a ranked vector's elements.
pub open spec fn keyed_views(s: Seq<Ranked>) -> Seq<Keyed> {
    Seq::new(s.len(), |i: int| s[i]@)
}

/// `x` placed directly before the first element it may precede.
pub open spec fn insert_keyed(x: Keyed, s: Seq<Keyed>) -> Seq<Keyed>
    decreases s.len(),
{
    if s.len() == 0 {
        seq![x]
    } else if keyed_le(x, s[0]) {
        seq![x] + s
    } else {
        seq![s[0]] + insert_keyed(x, s.drop_first())
    }
}

/// `s` rearranged by `keyed_le`: insertion sort, stable for equal keys.
pub open spec fn sort_keyed(s: Seq<Keyed>) -> Seq<Keyed>
    decreases s.len(),
{
    if s.len() == 0 {
        Seq::empty()
    } else {
        insert_keyed(s.last(), sort_keyed(s.drop_last()))
    }
}

pub proof fn lemma_insert_keyed_at(x: Keyed, s: Seq<Keyed>, p: int)
    requires
        0 <= p <= s.len(),
        forall|k: int| 0 <= k < p ==> !keyed_le(x, #[trigger] s[k]),
        p < s.len() ==> keyed_le(x, s[p]),
    ensures
        insert_keyed(x, s) == s.take(p).push(x) + s.skip(p),
    decreases p,
{
    if p == 0 {
        if s.len() == 0 {
            assert(insert_keyed(x, s) =~= s.take(0).push(x) + s.skip(0));
        } else {
            assert(insert_keyed(x, s) =~= s.take(0).push(x) + s.skip(0));
        }
    } else {
        let d = s.drop_first();
        assert(!keyed_le(x, s[0]));
        assert forall|k: int| 0 <= k < p - 1 implies !keyed_le(x, #[trigger] d[k]) by {
            assert(d[k] == s[k + 1]);
        }
        if p - 1 < d.len() {
            assert(d[p - 1] == s[p]);
        }
        lemma_insert_keyed_at(x, d, p - 1);
        assert(insert_keyed(x, s) =~= s.take(p).push(x) + s.skip(p));
    }
}

/// Views distribute over appending one element.
pub proof fn lemma_keyed_views_push(pre: Seq<Ranked>, post: Seq<Ranked>, e: Ranked)
    requires
        post == pre.push(e),
    ensures
        keyed_views(post) == keyed_views(pre).push(e@),
{
    assert forall|k: int| 0 <= k < post.len() implies keyed_views(post)[k] == keyed_views(
        pre,
    ).push(e@)[k] by {
        if k < pre.len() {
            assert(post[k] == pre[k]);
        } else {
            assert(post[k] == e);
        }
    }
    assert(keyed_views(post) =~= keyed_views(pre).push(e@));
}

/// Inserting adds exactly one occurrence of the inserted value.
pub proof fn lemma_insert_keyed_multiset(x: Keyed, s: Seq<Keyed>)
    ensures
        insert_keyed(x, s).to_multiset() == s.to_multiset().insert(x),
    decreases s.len(),
{
    broadcast use vstd::multiset::group_multiset_axioms;

    if s.len() == 0 {
        assert(s =~= Seq::<Keyed>::empty());
        assert(seq![x] =~= s.push(x));
        vstd::seq_lib::to_multiset_build(s, x);
        assert(insert_keyed(x, s).to_multiset() =~= s.to_multiset().insert(x));
    } else if keyed_le(x, s[0]) {
        assert(seq![x] + s =~= s.insert(0, x));
        vstd::seq_lib::to_multiset_insert(s, 0, x);
    } else {
        let d = s.drop_first();
        lemma_insert_keyed_multiset(x, d);
        let rec = insert_keyed(x, d);
        assert(seq![s[0]] + rec =~= rec.insert(0, s[0]));
        vstd::seq_lib::to_multiset_insert(rec, 0, s[0]);
        assert(seq![s[0]] + d =~= d.insert(0, s[0]));
        vstd::seq_lib::to_multiset_insert(d, 0, s[0]);
        assert(s =~= seq![s[0]] + d);
        assert(insert_keyed(x, s).to_multiset() =~= s.to_multiset().insert(x));
    }
}

/// Sorting keeps exactly the same element values.
pub proof fn lemma_sort_keyed_multiset(s: Seq<Keyed>)
    ensures
        sort_keyed(s).to_multiset() == s.to_multiset(),
        sort_keyed(s).len() == s.len(),
    decreases s.len(),
{
    broadcast use vstd::multiset::group_multiset_axioms;

    if s.len() == 0 {
        assert(s =~= Seq::<Keyed>::empty());
        assert(sort_keyed(s).to_multiset() == s.to_multiset());
    } else {
        let d = s.drop_last();
        lemma_sort_keyed_multiset(d);
        lemma_insert_keyed_multiset(s.last(), sort_keyed(d));
        vstd::seq_lib::to_multiset_build(d, s.last());
        assert(d.push(s.last()) =~= s);
        assert(s.to_multiset() == d.push(s.last()).to_multiset());
        assert(sort_keyed(s).to_multiset() == sort_keyed(d).to_multiset().insert(s.last()));
        vstd::multiset::axiom_multiset_ext_equal(sort_keyed(s).to_multiset(), s.to_multiset());
        assert(sort_keyed(s).to_multiset() =~= s.to_multiset());
        vstd::seq_lib::to_multiset_len(sort_keyed(s));
        vstd::seq_lib::to_multiset_len(s);
    }
}

/// A value stands in the sorted sequence exactly when it stood in the
/// unsorted one.
pub proof fn lemma_sort_keyed_contains(s: Seq<Keyed>, x: Keyed)
    ensures
        sort_keyed(s).contains(x) <==> s.contains(x),
{
    lemma_sort_keyed_multiset(s);
    vstd::seq_lib::to_multiset_contains(s, x);
    vstd::seq_lib::to_multiset_contains(sort_keyed(s), x);
}

fn rank_le_exec(a: &Ranked, b: &Ranked) -> (r: bool)
    ensures
        r == keyed_le(a@, b@),
{
    a.primary > b.primary || (a.primary == b.primary && a.tie <= b.tie)
}

fn duplicate_ranked(a: &Ranked) -> (r: Ranked)
    ensures
        r@ == a@,
{
    Ranked { primary: a.primary, tie: a.tie, item: a.item.duplicate() }
}

/// `v` rearranged by the key order, exactly as the specification sort
/// arranges its element values.
pub fn sort_ranked(v: &Vec<Ranked>) -> (r: Vec<Ranked>)
    ensures
        keyed_views(r@) == sort_keyed(keyed_views(v@)),
{
    let ghost orig = keyed_views(v@);
    let mut out: Vec<Ranked> = Vec::new();
    let mut m: usize = 0;
    proof {
        assert(keyed_views(out@) =~= sort_keyed(orig.take(0)));
    }
    while m < v.len()
        invariant
            m <= v@.len(),
            orig == keyed_views(v@),
            keyed_views(out@) == sort_keyed(orig.take(m as int)),
            out@.len() == m,
        decreases v@.len() - m,
    {
        let x = duplicate_ranked(&v[m]);
        let mut p: usize = 0;
        while p < out.len() && !rank_le_exec(&x, &out[p])
            invariant
                p <= out@.len(),
                x@ == orig[m as int],
                forall|k: int| 0 <= k < p ==> !keyed_le(x@, #[trigger] keyed_views(out@)[k]),
            decreases out@.len() - p,
        {
            p += 1;
        }
        let ghost pre = keyed_views(out@);
        proof {
            lemma_insert_keyed_at(x@, pre, p as int);
        }
        out.insert(p, x);
        proof {
            assert(keyed_views(out@) =~= pre.take(p as int).push(x@) + pre.skip(p as int));
            assert(orig.take(m + 1).drop_last() =~= orig.take(m as int));
            assert(orig.take(m + 1).last() == orig[m as int]);
            assert(keyed_views(out@) =~= sort_keyed(orig.take(m + 1)));
        }
        m += 1;
    }
    proof {
        assert(orig.take(v@.len() as int) =~= orig);
    }
    out
}

/// Lexicographic order on character sequences, by code point, with a prefix
/// ordered before its extensions.
pub open spec fn lex_le(a: Seq<char>, b: Seq<char>) -> bool
    decreases a.len(),
{
    if a.len() == 0 {
        true
    } else if b.len() == 0 {
        false
    } else if a[0] != b[0] {
        a[0] < b[0]
    } else {
        lex_le(a.drop_first(), b.drop_first())
    }
}

pub proof fn lemma_lex_total(a: Seq<char>, b: Seq<char>)
    ensures
        lex_le(a, b) || lex_le(b, a),
    decreases a.len(),
{
    if a.len() > 0 && b.len() > 0 {
        if a[0] == b[0] {
            lemma_lex_total(a.drop_first(), b.drop_first());
        }
    }
}

pub proof fn lemma_lex_trans(a: Seq<char>, b: Seq<char>, c: Seq<char>)
    requires
        lex_le(a, b),
        lex_le(b, c),
    ensures
        lex_le(a, c),
    decreases a.len(),
{
    if a.len() > 0 && b.len() > 0 && c.len() > 0 && a[0] == b[0] && b[0] == c[0] {
        lemma_lex_trans(a.drop_first(), b.drop_first(), c.drop_first());
    }
}

proof fn lemma_lex_le_skip(a: Seq<char>, b: Seq<char>, i: int)
    requires
        0 <= i <= a.len(),
        i <= b.len(),
        forall|k: int| 0 <= k < i ==> a[k] == b[k],
    ensures
        lex_le(a, b) == lex_le(a.skip(i), b.skip(i)),
    decreases i,
{
    if i > 0 {
        assert(a.drop_first() =~= a.skip(1));
        assert(b.drop_first() =~= b.skip(1));
        assert(a.skip(1).skip(i - 1) =~= a.skip(i));
        assert(b.skip(1).skip(i - 1) =~= b.skip(i));
        lemma_lex_le_skip(a.skip(1), b.skip(1), i - 1);
    } else {
        assert(a.skip(0) =~= a);
        assert(b.skip(0) =~= b);
    }
}

/// Compare two character vectors lexicographically.
pub fn lex_le_exec(a: &Vec<char>, b: &Vec<char>) -> (r: bool)
    ensures
        r == lex_le(a@, b@),
{
    let mut i: usize = 0;
    while i < a.len() && i < b.len() && a[i] == b[i]
        invariant
            i <= a@.len(),
            i <= b@.len(),
            forall|k: int| 0 <= k < i ==> a@[k] == b@[k],
        decreases a@.len() - i,
    {
        i += 1;
    }
    proof {
        lemma_lex_le_skip(a@, b@, i as int);
    }
    if i == a.len() {
        proof {
            assert(a@.skip(i as int) =~= Seq::<char>::empty());
        }
        true
    } else if i == b.len() {
        proof {
            assert(b@.skip(i as int) =~= Seq::<char>::empty());
        }
        false
    } else {
        proof {
            assert(a@.skip(i as int)[0] == a@[i as int]);
            assert(b@.skip(i as int)[0] == b@[i as int]);
        }
        a[i] < b[i]
    }
}

/// One row of the tag frequency table.
pub struct TagCount {
    pub name: String,
    pub count: usize,
}

/// The mathematical value of a `TagCount`.
#[verifier::ext_equal]
pub ghost struct TagCountView {
    pub name: Seq<char>,
    pub count: usize,
}

impl View for TagCount {
    type V = TagCountView;

    open spec fn view(&self) -> TagCountView {
        TagCountView { name: self.name@, count: self.count }
    }
}

/// `a` may stand before `b`: larger count first, lexicographically smaller
/// tag first among equals.
pub open spec fn tag_le(a: TagCountView, b: TagCountView) -> bool {
    a.count > b.count || (a.count == b.count && lex_le(a.name, b.name))
}

/// The views of a tag-count vector's elements.
pub open spec fn tag_views(s: Seq<TagCount>) -> Seq<TagCountView> {
    Seq::new(s.len(), |i: int| s[i]@)
}

/// `x` placed directly before the first element it may precede.
pub open spec fn insert_tag(x: TagCountView, s: Seq<TagCountView>) -> Seq<TagCountView>
    decreases s.len(),
{
    if s.len() == 0 {
        seq![x]
    } else if tag_le(x, s[0]) {
        seq![x] + s
    } else {
        seq![s[0]] + insert_tag(x, s.drop_first())
    }
}

/// `s` rearranged by `tag_le`: insertion sort, stable for equal keys.
pub open spec fn sort_tags(s: Seq<TagCountView>) -> Seq<TagCountView>
    decreases s.len(),
{
    if s.len() == 0 {
        Seq::empty()
    } else {
        insert_tag(s.last(), sort_tags(s.drop_last()))
    }
}

/// `s` is pairwise ordered by `tag_le`.
pub open spec fn tags_sorted(s: Seq<TagCountView>) -> bool {
    forall|i: int, j: int| 0 <= i < j < s.len() ==> tag_le(#[trigger] s[i], #[trigger] s[j])
}

proof fn lemma_tag_le_total(a: TagCountView, b: TagCountView)
    ensures
        tag_le(a, b) || tag_le(b, a),
{
    if a.count == b.count {
        lemma_lex_total(a.name, b.name);
    }
}

proof fn lemma_tag_le_trans(a: TagCountView, b: TagCountView, c: TagCountView)
    requires
        tag_le(a, b),
        tag_le(b, c),
    ensures
        tag_le(a, c),
{
    if a.count == b.count && b.count == c.count {
        lemma_lex_trans(a.name, b.name, c.name);
    }
}

pub proof fn lemma_insert_tag_at(x: TagCountView, s: Seq<TagCountView>, p: int)
    requires
        0 <= p <= s.len(),
        forall|k: int| 0 <= k < p ==> !tag_le(x, #[trigger] s[k]),
        p < s.len() ==> tag_le(x, s[p]),
    ensures
        insert_tag(x, s) == s.take(p).push(x) + s.skip(p),
    decreases p,
{
    if p == 0 {
        assert(insert_tag(x, s) =~= s.take(0).push(x) + s.skip(0));
    } else {
        let d = s.drop_first();
        assert(!tag_le(x, s[0]));
        assert forall|k: int| 0 <= k < p - 1 implies !tag_le(x, #[trigger] d[k]) by {
            assert(d[k] == s[k + 1]);
        }
        if p - 1 < d.len() {
            assert(d[p - 1] == s[p]);
        }
        lemma_insert_tag_at(x, d, p - 1);
        assert(insert_tag(x, s) =~= s.take(p).push(x) + s.skip(p));
    }
}

/// Inserting adds exactly one occurrence of the inserted value.
pub proof fn lemma_insert_tag_multiset(x: TagCountView, s: Seq<TagCountView>)
    ensures
        insert_tag(x, s).to_multiset() == s.to_multiset().insert(x),
    decreases s.len(),
{
    broadcast use vstd::multiset::group_multiset_axioms;

    if s.len() == 0 {
        assert(s =~= Seq::<TagCountView>::empty());
        assert(seq![x] =~= s.push(x));
        vstd::seq_lib::to_multiset_build(s, x);
        assert(insert_tag(x, s).to_multiset() =~= s.to_multiset().insert(x));
    } else if tag_le(x, s[0]) {
        assert(seq![x] + s =~= s.insert(0, x));
        vstd::seq_lib::to_multiset_insert(s, 0, x);
    } else {
        let d = s.drop_first();
        lemma_insert_tag_multiset(x, d);
        let rec = insert_tag(x, d);
        assert(seq![s[0]] + rec =~= rec.insert(0, s[0]));
        vstd::seq_lib::to_multiset_insert(rec, 0, s[0]);
        assert(seq![s[0]] + d =~= d.insert(0, s[0]));
        vstd::seq_lib::to_multiset_insert(d, 0, s[0]);
        assert(s =~= seq![s[0]] + d);
        assert(insert_tag(x, s).to_multiset() =~= s.to_multiset().insert(x));
    }
}

/// Sorting keeps exactly the same element values.
pub proof fn lemma_sort_tags_multiset(s: Seq<TagCountView>)
    ensures
        sort_tags(s).to_multiset() == s.to_multiset(),
        sort_tags(s).len() == s.len(),
    decreases s.len(),
{
    broadcast use vstd::multiset::group_multiset_axioms;

    if s.len() == 0 {
        assert(s =~= Seq::<TagCountView>::empty());
        assert(sort_tags(s).to_multiset() == s.to_multiset());
    } else {
        let d = s.drop_last();
        lemma_sort_tags_multiset(d);
        lemma_insert_tag_multiset(s.last(), sort_tags(d));
        vstd::seq_lib::to_multiset_build(d, s.last());
        assert(d.push(s.last()) =~= s);
        assert(s.to_multiset() == d.push(s.last()).to_multiset());
        assert(sort_tags(s).to_multiset() == sort_tags(d).to_multiset().insert(s.last()));
        vstd::multiset::axiom_multiset_ext_equal(sort_tags(s).to_multiset(), s.to_multiset());
        assert(sort_tags(s).to_multiset() =~= s.to_multiset());
        vstd::seq_lib::to_multiset_len(sort_tags(s));
        vstd::seq_lib::to_multiset_len(s);
    }
}

proof fn lemma_insert_tag_sorted(x: TagCountView, s: Seq<TagCountView>)
    requires
        tags_sorted(s),
    ensures
        tags_sorted(insert_tag(x, s)),
    decreases s.len(),
{
    let r = insert_tag(x, s);
    if s.len() == 0 {
    } else if tag_le(x, s[0]) {
        assert forall|i: int, j: int| 0 <= i < j < r.len() implies tag_le(
            #[trigger] r[i],
            #[trigger] r[j],
        ) by {
            if i == 0 {
                assert(r[j] == s[j - 1]);
                if j > 1 {
                    lemma_tag_le_trans(x, s[0], s[j - 1]);
                }
            } else {
                assert(r[i] == s[i - 1] && r[j] == s[j - 1]);
            }
        }
    } else {
        let d = s.drop_first();
        assert forall|i: int, j: int| 0 <= i < j < d.len() implies tag_le(
            #[trigger] d[i],
            #[trigger] d[j],
        ) by {
            assert(d[i] == s[i + 1] && d[j] == s[j + 1]);
        }
        lemma_insert_tag_sorted(x, d);
        let rd = insert_tag(x, d);
        lemma_tag_le_total(x, s[0]);
        assert forall|i: int, j: int| 0 <= i < j < r.len() implies tag_le(
            #[trigger] r[i],
            #[trigger] r[j],
        ) by {
            if i == 0 {
                assert(r[j] == rd[j - 1]);
                // the head precedes everything inserted behind it
                lemma_insert_tag_elements(x, d);
                if rd[j - 1] == x {
                    assert(tag_le(s[0], x));
                } else {
                    let w = choose|w: int| 0 <= w < d.len() && d[w] == rd[j - 1];
                    if s.len() > 1 {
                        assert(d[w] == s[w + 1]);
                        assert(tag_le(s[0], s[w + 1]));
                    }
                }
            } else {
                assert(r[i] == rd[i - 1] && r[j] == rd[j - 1]);
            }
        }
    }
}

/// What insertion holds: the new value and the old ones, nothing else.
proof fn lemma_insert_tag_elements(x: TagCountView, s: Seq<TagCountView>)
    ensures
        forall|w: int|
            0 <= w < insert_tag(x, s).len() ==> (#[trigger] insert_tag(x, s)[w] == x || s.contains(
                insert_tag(x, s)[w],
            )),
    decreases s.len(),
{
    let r = insert_tag(x, s);
    if s.len() == 0 {
    } else if tag_le(x, s[0]) {
        assert forall|w: int| 0 <= w < r.len() implies (#[trigger] r[w] == x || s.contains(
            r[w],
        )) by {
            if w > 0 {
                assert(r[w] == s[w - 1]);
            }
        }
    } else {
        let d = s.drop_first();
        lemma_insert_tag_elements(x, d);
        let rd = insert_tag(x, d);
        assert forall|w: int| 0 <= w < r.len() implies (#[trigger] r[w] == x || s.contains(
            r[w],
        )) by {
            if w == 0 {
                assert(r[0] == s[0]);
                assert(s[0] == s[0]);
            } else {
                assert(r[w] == rd[w - 1]);
                if rd[w - 1] != x {
                    let u = choose|u: int| 0 <= u < d.len() && d[u] == rd[w - 1];
                    assert(s[u + 1] == rd[w - 1]);
                }
            }
        }
    }
}

/// A sorted sequence stays sorted as its values say; the specification
/// sort is pairwise ordered.
pub proof fn lemma_sort_tags_sorted(s: Seq<TagCountView>)
    ensures
        tags_sorted(sort_tags(s)),
    decreases s.len(),
{
    if s.len() > 0 {
        lemma_sort_tags_sorted(s.drop_last());
        lemma_insert_tag_sorted(s.last(), sort_tags(s.drop_last()));
    }
}

fn tag_le_exec(a: &TagCount, b: &TagCount) -> (r: bool)
    ensures
        r == tag_le(a@, b@),
{
    a.count > b.count || (a.count == b.count && lex_le_exec(&chars_of(a.name.as_str()), &chars_of(
        b.name.as_str(),
    )))
}

fn duplicate_tag(a: &TagCount) -> (r: TagCount)
    ensures
        r@ == a@,
{
    TagCount { name: a.name.clone(), count: a.count }
}

/// `v` rearranged by the tag order, exactly as the specification sort
/// arranges its element values.
pub fn sort_tag_counts(v: &Vec<TagCount>) -> (r: Vec<TagCount>)
    ensures
        tag_views(r@) == sort_tags(tag_views(v@)),
{
    let ghost orig = tag_views(v@);
    let mut out: Vec<TagCount> = Vec::new();
    let mut m: usize = 0;
    proof {
        assert(tag_views(out@) =~= sort_tags(orig.take(0)));
    }
    while m < v.len()
        invariant
            m <= v@.len(),
            orig == tag_views(v@),
            tag_views(out@) == sort_tags(orig.take(m as int)),
            out@.len() == m,
        decreases v@.len() - m,
    {
        let x = duplicate_tag(&v[m]);
        let mut p: usize = 0;
        while p < out.len() && !tag_le_exec(&x, &out[p])
            invariant
                p <= out@.len(),
                x@ == orig[m as int],
                forall|k: int| 0 <= k < p ==> !tag_le(x@, #[trigger] tag_views(out@)[k]),
            decreases out@.len() - p,
        {
            p += 1;
        }
        let ghost pre = tag_views(out@);
        proof {
            lemma_insert_tag_at(x@, pre, p as int);
        }
        out.insert(p, x);
        proof {
            assert(tag_views(out@) =~= pre.take(p as int).push(x@) + pre.skip(p as int));
            assert(orig.take(m + 1).drop_last() =~= orig.take(m as int));
            assert(orig.take(m + 1).last() == orig[m as int]);
            assert(tag_views(out@) =~= sort_tags(orig.take(m + 1)));
        }
        m += 1;
    }
    proof {
        assert(orig.take(v@.len() as int) =~= orig);
    }
    out
}

} // verus!
