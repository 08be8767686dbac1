//! The order of texts by their bytes, and sorting in it.

use crate::text;
use vstd::prelude::*;
#[allow(unused_imports)]
use vstd::string::StringSliceAdditionalSpecFns;

verus! {

/// The order of texts by their bytes.
pub open spec fn is_less(a: Seq<u8>, b: Seq<u8>) -> bool
    decreases a.len(),
{
    if b.len() == 0 {
        false
    } else if a.len() == 0 {
        true
    } else if a[0] != b[0] {
        a[0] < b[0]
    } else {
        is_less(a.drop_first(), b.drop_first())
    }
}

/// Of two different texts exactly one comes before the other.
pub proof fn lemma_is_less_total(a: Seq<u8>, b: Seq<u8>)
    ensures
        a == b || is_less(a, b) || is_less(b, a),
        !(is_less(a, b) && is_less(b, a)),
        is_less(a, b) ==> a != b,
    decreases a.len(),
{
    if a.len() > 0 && b.len() > 0 {
        lemma_is_less_total(a.drop_first(), b.drop_first());
        if a[0] == b[0] && a.drop_first() == b.drop_first() {
            assert(a =~= seq![a[0]] + a.drop_first());
            assert(b =~= seq![b[0]] + b.drop_first());
        }
    } else if a.len() == 0 && b.len() == 0 {
        assert(a =~= b);
    }
}

/// What comes before a text comes before what follows it.
pub proof fn lemma_is_less_transitive(a: Seq<u8>, b: Seq<u8>, c: Seq<u8>)
    requires
        is_less(a, b),
        is_less(b, c),
    ensures
        is_less(a, c),
    decreases a.len(),
{
    if a.len() > 0 && a[0] == b[0] && b[0] == c[0] {
        lemma_is_less_transitive(a.drop_first(), b.drop_first(), c.drop_first());
    }
}

/// Whether one text comes before another in the order of their bytes.
pub fn less(a: &[u8], b: &[u8]) -> (r: bool)
    ensures
        r == is_less(a@, b@),
{
    let mut i: usize = 0;
    assert(a@.skip(0) =~= a@);
    assert(b@.skip(0) =~= b@);
    while i < a.len() && i < b.len()
        invariant
            i <= a@.len(),
            i <= b@.len(),
            is_less(a@, b@) == is_less(a@.skip(i as int), b@.skip(i as int)),
        decreases a@.len() - i,
    {
        let ghost x = a@.skip(i as int);
        let ghost y = b@.skip(i as int);
        assert(x[0] == a@[i as int] && y[0] == b@[i as int]);
        if a[i] != b[i] {
            return a[i] < b[i];
        }
        assert(x.drop_first() =~= a@.skip(i + 1));
        assert(y.drop_first() =~= b@.skip(i + 1));
        i = i + 1;
    }
    i < b.len()
}

/// The order of texts by their bytes, where a text may be followed by itself.
pub open spec fn at_most(a: Seq<char>, b: Seq<char>) -> bool {
    !is_less(vstd::utf8::encode_utf8(b), vstd::utf8::encode_utf8(a))
}

/// Whether texts stand in the order of their bytes.
pub open spec fn is_sorted(list: Seq<Seq<char>>) -> bool {
    forall|i: int, j: int|
        0 <= i <= j < list.len() ==> at_most(#[trigger] list[i], #[trigger] list[j])
}

proof fn lemma_at_most_transitive(a: Seq<char>, b: Seq<char>, c: Seq<char>)
    requires
        at_most(a, b),
        at_most(b, c),
    ensures
        at_most(a, c),
{
    let x = vstd::utf8::encode_utf8(a);
    let y = vstd::utf8::encode_utf8(b);
    let z = vstd::utf8::encode_utf8(c);
    lemma_is_less_total(x, y);
    lemma_is_less_total(y, z);
    lemma_is_less_total(x, z);
    if is_less(x, y) && is_less(y, z) {
        lemma_is_less_transitive(x, y, z);
    }
}

/// Puts a text in its place among sorted texts.
fn insert_sorted(list: &mut Vec<String>, s: String)
    requires
        is_sorted(text::texts(old(list)@)),
    ensures
        is_sorted(text::texts(final(list)@)),
        text::texts(final(list)@).to_multiset() == text::texts(old(list)@).to_multiset().insert(s@),
{
    let ghost before = text::texts(list@);
    let n: usize = list.len();
    let mut i: usize = n;
    while i > 0 && less(s.as_str().as_bytes(), list[i - 1].as_str().as_bytes())
        invariant
            i <= n,
            n == list@.len(),
            before == text::texts(list@),
            forall|j: int| i <= j < n ==> !at_most(#[trigger] before[j], s@),
        decreases i,
    {
        i = i - 1;
        assert(before[i as int] == list@[i as int]@);
    }
    list.insert(i, s);
    proof {
        let after = text::texts(list@);
        assert(after =~= before.insert(i as int, s@));
        vstd::seq_lib::to_multiset_insert(before, i as int, s@);
        lemma_insert_sorted(before, i as int, s@);
    }
}

proof fn lemma_insert_sorted(list: Seq<Seq<char>>, i: int, s: Seq<char>)
    requires
        is_sorted(list),
        0 <= i <= list.len(),
        i > 0 ==> at_most(list[i - 1], s),
        forall|j: int| i <= j < list.len() ==> !at_most(#[trigger] list[j], s),
    ensures
        is_sorted(list.insert(i, s)),
{
    let after = list.insert(i, s);
    assert forall|j: int| 0 <= j < i implies at_most(#[trigger] list[j], s) by {
        lemma_at_most_transitive(list[j], list[i - 1], s);
    }
    assert forall|j: int| i <= j < list.len() implies at_most(s, #[trigger] list[j]) by {
        lemma_is_less_total(vstd::utf8::encode_utf8(s), vstd::utf8::encode_utf8(list[j]));
    }
    lemma_is_less_total(vstd::utf8::encode_utf8(s), vstd::utf8::encode_utf8(s));
    assert forall|j: int, k: int| 0 <= j <= k < after.len() implies at_most(
        #[trigger] after[j],
        #[trigger] after[k],
    ) by {
        let x = if j < i {
            j
        } else {
            j - 1
        };
        let y = if k < i {
            k
        } else {
            k - 1
        };
        if j != i {
            assert(after[j] == list[x]);
        }
        if k != i {
            assert(after[k] == list[y]);
        }
    }
}

/// Sorts texts by their bytes.
pub fn sort(list: Vec<String>) -> (sorted: Vec<String>)
    ensures
        is_sorted(text::texts(sorted@)),
        text::texts(sorted@).to_multiset() == text::texts(list@).to_multiset(),
{
    let ghost all = text::texts(list@);
    let mut sorted: Vec<String> = Vec::new();
    assert(all.take(0) =~= Seq::empty());
    assert(text::texts(sorted@) =~= Seq::empty());
    let n: usize = list.len();
    let mut i: usize = 0;
    for s in it: list
        invariant
            n == it.seq().len(),
            i == it.index(),
            all == text::texts(it.seq()),
            is_sorted(text::texts(sorted@)),
            text::texts(sorted@).to_multiset() == all.take(i as int).to_multiset(),
    {
        assert(all.take(i + 1) =~= all.take(i as int).push(all[i as int]));
        proof {
            all.take(i as int).to_multiset_ensures();
        }
        insert_sorted(&mut sorted, s);
        i = i + 1;
    }
    assert(all.take(all.len() as int) =~= all);
    sorted
}

/// There is one way to sort: sorted texts that are the same but for their order are
/// the same.
pub proof fn law_sorting_is_unique(a: Seq<Seq<char>>, b: Seq<Seq<char>>)
    requires
        is_sorted(a),
        is_sorted(b),
        a.to_multiset() == b.to_multiset(),
    ensures
        a == b,
    decreases a.len(),
{
    a.to_multiset_ensures();
    b.to_multiset_ensures();
    if a.len() == 0 {
        assert(a =~= b);
    } else {
        let n = a.len() - 1;
        let x = a[n];
        let y = b[n];
        assert(a.contains(x) && b.contains(y));
        assert(b.contains(x)) by {
            assert(b.to_multiset().count(x) > 0);
        }
        assert(a.contains(y)) by {
            assert(a.to_multiset().count(y) > 0);
        }
        let i = b.index_of(x);
        let j = a.index_of(y);
        assert(at_most(b[i], b[n]));
        assert(at_most(a[j], a[n]));
        lemma_is_less_total(vstd::utf8::encode_utf8(x), vstd::utf8::encode_utf8(y));
        text::lemma_encoding_is_injective(x, y);
        assert(x == y);
        assert(a =~= a.drop_last().push(x));
        assert(b =~= b.drop_last().push(x));
        a.drop_last().to_multiset_ensures();
        b.drop_last().to_multiset_ensures();
        assert(a.drop_last().to_multiset() =~= a.to_multiset().remove(x));
        assert(b.drop_last().to_multiset() =~= b.to_multiset().remove(x));
        law_sorting_is_unique(a.drop_last(), b.drop_last());
    }
}

/// Texts are ordered by the first byte in which they differ.
pub proof fn law_first_difference_decides(p: Seq<u8>, x: u8, a: Seq<u8>, y: u8, b: Seq<u8>)
    ensures
        is_less(p.push(x) + a, p.push(y) + b) <==> x < y || (x == y && is_less(a, b)),
    decreases p.len(),
{
    let s = p.push(x) + a;
    let t = p.push(y) + b;
    if p.len() == 0 {
        assert(s.drop_first() =~= a);
        assert(t.drop_first() =~= b);
    } else {
        let q = p.drop_first();
        assert(s.drop_first() =~= q.push(x) + a);
        assert(t.drop_first() =~= q.push(y) + b);
        law_first_difference_decides(q, x, a, y, b);
    }
}

/// A text comes before those that it begins, and nothing comes before the empty one.
pub proof fn law_shorter_comes_first(a: Seq<u8>, b: Seq<u8>)
    ensures
        is_less(a, a + b) <==> b.len() > 0,
        !is_less(a, Seq::empty()),
    decreases a.len(),
{
    if a.len() == 0 {
        assert(a + b =~= b);
    } else {
        assert((a + b).drop_first() =~= a.drop_first() + b);
        law_shorter_comes_first(a.drop_first(), b);
    }
}

/// Of sorted texts each is the one behind it or comes before it.
pub proof fn law_sorted_texts_ascend(list: Seq<Seq<char>>, i: int, j: int)
    requires
        is_sorted(list),
        0 <= i < j < list.len(),
    ensures
        list[i] == list[j] || is_less(
            vstd::utf8::encode_utf8(list[i]),
            vstd::utf8::encode_utf8(list[j]),
        ),
{
    let x = vstd::utf8::encode_utf8(list[i]);
    let y = vstd::utf8::encode_utf8(list[j]);
    assert(at_most(list[i], list[j]));
    lemma_is_less_total(x, y);
    if x == y {
        text::lemma_encoding_is_injective(list[i], list[j]);
    }
}

} // verus!
