//! Removal of machine specific path prefixes.

use crate::order;
use crate::order::less;
use crate::text;
use crate::text::{find_at, str_equal, to_chars};
use vstd::prelude::*;
#[allow(unused_imports)]
use vstd::string::StringSliceAdditionalSpecFns;

verus! {

/// Text with path separators normalised to `/`.
pub open spec fn normalized(s: Seq<char>, windows: bool) -> Seq<char> {
    if windows {
        Seq::new(
            s.len(),
            |i: int|
                if s[i] == '\\' {
                    '/'
                } else {
                    s[i]
                },
        )
    } else {
        s
    }
}

/// The prefix that a directory stands for: it ends in a separator.
pub open spec fn as_prefix(dir: Seq<char>, windows: bool) -> Seq<char> {
    let s = normalized(dir, windows);
    if s.len() > 0 && s.last() == '/' {
        s
    } else {
        s.push('/')
    }
}

/// Text without the occurrences of a pattern, which are looked for from the left and
/// do not overlap.
pub open spec fn without(s: Seq<char>, p: Seq<char>) -> Seq<char>
    decreases s.len(),
{
    if p.len() == 0 || s.len() == 0 {
        s
    } else if text::stands_at(s, 0, p) {
        without(s.skip(p.len() as int), p)
    } else {
        seq![s[0]] + without(s.drop_first(), p)
    }
}

/// Text without the occurrences of some patterns, one pattern after the other.
pub open spec fn without_all(s: Seq<char>, patterns: Seq<Seq<char>>) -> Seq<char>
    decreases patterns.len(),
{
    if patterns.len() == 0 {
        s
    } else {
        without(without_all(s, patterns.drop_last()), patterns.last())
    }
}

/// Longer first, and in the order of the bytes where the lengths are the same.
pub open spec fn precedes(a: Seq<char>, b: Seq<char>) -> bool {
    let x = vstd::utf8::encode_utf8(a);
    let y = vstd::utf8::encode_utf8(b);
    x.len() > y.len() || (x.len() == y.len() && order::is_less(x, y))
}

/// Whether each text precedes those behind it, so that none occurs twice.
pub open spec fn is_ordered(list: Seq<Seq<char>>) -> bool {
    forall|i: int, j: int|
        0 <= i < j < list.len() ==> precedes(#[trigger] list[i], #[trigger] list[j])
}

/// Normalises the path separators of a text to `/`.
pub fn normalize_separators(s: &str, windows: bool) -> (r: String)
    ensures
        r@ == normalized(s@, windows),
{
    if !windows {
        return s.to_owned();
    }
    let chars = to_chars(s);
    let mut r = String::new();
    for i in 0..chars.len()
        invariant
            chars@ == s@,
            r@ == normalized(s@, true).take(i as int),
    {
        let ghost before = r@;
        r.push(
            if chars[i] == '\\' {
                '/'
            } else {
                chars[i]
            },
        );
        assert(normalized(s@, true).take(i + 1) =~= before.push(normalized(s@, true)[i as int]));
    }
    assert(normalized(s@, true).take(s@.len() as int) =~= normalized(s@, true));
    r
}

proof fn lemma_without_step(s: Seq<char>, p: Seq<char>, i: int)
    requires
        0 <= i < s.len(),
        p.len() > 0,
    ensures
        text::stands_at(s, i, p) ==> without(s.skip(i), p) == without(s.skip(i + p.len()), p),
        !text::stands_at(s, i, p) ==> without(s.skip(i), p) == seq![s[i]] + without(
            s.skip(i + 1),
            p,
        ),
{
    let t = s.skip(i);
    if text::stands_at(s, i, p) {
        assert(t.subrange(0, p.len() as int) =~= s.subrange(i, i + p.len()));
        assert(text::stands_at(t, 0, p));
        assert(t.skip(p.len() as int) =~= s.skip(i + p.len()));
    } else {
        if text::stands_at(t, 0, p) {
            assert(s.subrange(i, i + p.len()) =~= t.subrange(0, p.len() as int));
        }
        assert(t.drop_first() =~= s.skip(i + 1));
    }
}

/// Removes a pattern wherever it occurs in a text.
pub fn remove_occurrences(s: &str, p: &str) -> (r: String)
    ensures
        r@ == without(s@, p@),
{
    let chars = to_chars(s);
    let pattern = to_chars(p);
    let n: usize = chars.len();
    let m: usize = pattern.len();
    if m == 0 {
        return s.to_owned();
    }
    let mut r = String::new();
    let mut i: usize = 0;
    assert(s@.skip(0) =~= s@);
    assert(r@ + without(s@, p@) =~= without(s@, p@));
    while i < n
        invariant
            chars@ == s@,
            pattern@ == p@,
            n == s@.len(),
            m == p@.len(),
            m > 0,
            i <= n,
            r@ + without(s@.skip(i as int), p@) == without(s@, p@),
        decreases n - i,
    {
        proof {
            lemma_without_step(s@, p@, i as int);
        }
        if find_at(chars.as_slice(), i, pattern.as_slice()) {
            i = i + m;
        } else {
            let ghost before = r@;
            let ghost rest = without(s@.skip(i + 1), p@);
            r.push(chars[i]);
            assert(r@ + rest =~= before + (seq![s@[i as int]] + rest));
            i = i + 1;
        }
    }
    assert(s@.skip(n as int) =~= Seq::empty());
    assert(r@ + without(s@.skip(n as int), p@) =~= r@);
    r
}

/// Removes machine specific path prefixes from strings before they are hashed, similar
/// to CTCACHE_STRIP. Prefixes are removed wherever they occur inside an argument (so
/// `--out=/repo/build/x` becomes `--out=build/x`), and path separators are normalised to
/// `/` so Windows and Unix agree.
#[derive(Debug)]
pub struct PathStripper {
    prefixes: Vec<String>,
    windows: bool,
}

/// Whether a text is the prefix of one of some directories, and not that of the root.
pub open spec fn is_prefix_of_one(t: Seq<char>, dirs: Seq<Seq<char>>, windows: bool) -> bool {
    t != "/"@ && exists|i: int| 0 <= i < dirs.len() && t == as_prefix(#[trigger] dirs[i], windows)
}

proof fn lemma_precedes_total(a: Seq<char>, b: Seq<char>)
    ensures
        a == b || precedes(a, b) || precedes(b, a),
        !(precedes(a, b) && precedes(b, a)),
        precedes(a, b) ==> a != b,
{
    order::lemma_is_less_total(vstd::utf8::encode_utf8(a), vstd::utf8::encode_utf8(b));
    if vstd::utf8::encode_utf8(a) == vstd::utf8::encode_utf8(b) {
        text::lemma_encoding_is_injective(a, b);
    }
}

proof fn lemma_precedes_transitive(a: Seq<char>, b: Seq<char>, c: Seq<char>)
    requires
        precedes(a, b),
        precedes(b, c),
    ensures
        precedes(a, c),
{
    let x = vstd::utf8::encode_utf8(a);
    let y = vstd::utf8::encode_utf8(b);
    let z = vstd::utf8::encode_utf8(c);
    if x.len() == y.len() && y.len() == z.len() {
        order::lemma_is_less_transitive(x, y, z);
    }
}

fn comes_before(a: &str, b: &str) -> (r: bool)
    ensures
        r == precedes(a@, b@),
{
    let x = a.as_bytes();
    let y = b.as_bytes();
    x.len() > y.len() || (x.len() == y.len() && less(x, y))
}

/// Puts a prefix in its place, unless it is there already.
fn insert_prefix(list: &mut Vec<String>, s: String)
    requires
        is_ordered(text::texts(old(list)@)),
    ensures
        is_ordered(text::texts(final(list)@)),
        forall|t: Seq<char>| #[trigger]
            text::texts(final(list)@).contains(t) <==> text::texts(old(list)@).contains(t) || t
                == s@,
{
    let ghost before = text::texts(list@);
    let n: usize = list.len();
    let mut i: usize = 0;
    while i < n && comes_before(list[i].as_str(), s.as_str())
        invariant
            i <= n,
            n == list@.len(),
            before == text::texts(list@),
            forall|j: int| 0 <= j < i ==> precedes(#[trigger] before[j], s@),
        decreases n - i,
    {
        assert(before[i as int] == list@[i as int]@);
        i = i + 1;
    }
    if i < n {
        assert(before[i as int] == list@[i as int]@);
        if str_equal(list[i].as_str(), s.as_str()) {
            return ;
        }
    }
    list.insert(i, s);
    proof {
        let after = text::texts(list@);
        assert(after =~= before.insert(i as int, s@));
        assert forall|j: int| i <= j < n implies precedes(s@, #[trigger] before[j]) by {
            lemma_precedes_total(s@, before[i as int]);
            if j > i {
                lemma_precedes_transitive(s@, before[i as int], before[j]);
            }
        }
        assert forall|j: int, k: int| 0 <= j < k < after.len() implies precedes(
            #[trigger] after[j],
            #[trigger] after[k],
        ) by {
            if j != i {
                assert(after[j] == before[if j < i {
                    j
                } else {
                    j - 1
                }]);
            }
            if k != i {
                assert(after[k] == before[if k < i {
                    k
                } else {
                    k - 1
                }]);
            }
        }
        assert forall|t: Seq<char>| #[trigger] after.contains(t) <==> before.contains(t) || t
            == s@ by {
            if before.contains(t) {
                let j = before.index_of(t);
                assert(after[if j < i {
                    j
                } else {
                    j + 1
                }] == t);
            }
            if t == s@ {
                assert(after[i as int] == t);
            }
            if after.contains(t) && t != s@ {
                let j = after.index_of(t);
                assert(before[if j < i {
                    j
                } else {
                    j - 1
                }] == t);
            }
        }
    }
}

impl PathStripper {
    /// The prefixes in the order in which they are removed.
    pub closed spec fn prefixes(self) -> Seq<Seq<char>> {
        text::texts(self.prefixes@)
    }

    /// Whether a backslash separates paths.
    pub closed spec fn windows(self) -> bool {
        self.windows
    }

    /// The text without the prefixes.
    pub open spec fn stripped(self, input: Seq<char>) -> Seq<char> {
        without_all(normalized(input, self.windows()), self.prefixes())
    }

    /// Takes the directories that are specific to a machine. The root is ignored.
    pub fn new(dirs: &Vec<String>, windows: bool) -> (stripper: PathStripper)
        ensures
            stripper.windows() == windows,
            is_ordered(stripper.prefixes()),
            forall|t: Seq<char>| #[trigger]
                stripper.prefixes().contains(t) <==> is_prefix_of_one(
                    t,
                    text::texts(dirs@),
                    windows,
                ),
    {
        let ghost all = text::texts(dirs@);
        let mut prefixes: Vec<String> = Vec::new();
        assert(text::texts(prefixes@) =~= Seq::empty());
        for i in 0..dirs.len()
            invariant
                all == text::texts(dirs@),
                is_ordered(text::texts(prefixes@)),
                forall|t: Seq<char>| #[trigger]
                    text::texts(prefixes@).contains(t) <==> is_prefix_of_one(
                        t,
                        all.take(i as int),
                        windows,
                    ),
        {
            let mut s = normalize_separators(dirs[i].as_str(), windows);
            let chars = to_chars(s.as_str());
            let k: usize = chars.len();
            if k == 0 || chars[k - 1] != '/' {
                s.push('/');
            }
            let ghost p = as_prefix(all[i as int], windows);
            assert(s@ == p);
            let ghost part = all.take(i as int);
            let ghost longer = all.take(i + 1);
            let ghost before = text::texts(prefixes@);
            if !str_equal(s.as_str(), "/") {
                insert_prefix(&mut prefixes, s);
            }
            assert forall|t: Seq<char>| #[trigger]
                text::texts(prefixes@).contains(t) <==> is_prefix_of_one(t, longer, windows) by {
                if is_prefix_of_one(t, part, windows) {
                    let j = choose|j: int|
                        0 <= j < part.len() && t == as_prefix(#[trigger] part[j], windows);
                    assert(longer[j] == part[j]);
                }
                if t != "/"@ && t == p {
                    assert(longer[i as int] == all[i as int]);
                }
                if is_prefix_of_one(t, longer, windows) {
                    let j = choose|j: int|
                        0 <= j < longer.len() && t == as_prefix(#[trigger] longer[j], windows);
                    if j < i {
                        assert(part[j] == longer[j]);
                    }
                }
                assert(before.contains(t) <==> is_prefix_of_one(t, part, windows));
            }
        }
        assert(all.take(all.len() as int) =~= all);
        PathStripper { prefixes, windows }
    }

    /// Removes the prefixes from a text.
    pub fn strip(&self, input: &str) -> (s: String)
        ensures
            s@ == self.stripped(input@),
    {
        let mut s = normalize_separators(input, self.windows);
        let ghost all = self.prefixes();
        let ghost start = s@;
        for i in 0..self.prefixes.len()
            invariant
                all == text::texts(self.prefixes@),
                s@ == without_all(start, all.take(i as int)),
        {
            s = remove_occurrences(s.as_str(), self.prefixes[i].as_str());
            assert(all.take(i + 1).drop_last() =~= all.take(i as int));
        }
        assert(all.take(all.len() as int) =~= all);
        s
    }
}

/// The prefixes do not depend on the order in which the directories are given: an
/// ordered list is determined by what it holds.
pub proof fn law_prefix_order_is_irrelevant(a: Seq<Seq<char>>, b: Seq<Seq<char>>)
    requires
        is_ordered(a),
        is_ordered(b),
        forall|t: Seq<char>| #[trigger] a.contains(t) <==> b.contains(t),
    ensures
        a == b,
    decreases a.len(),
{
    if a.len() == 0 || b.len() == 0 {
        if a.len() > 0 {
            assert(a.contains(a[0]));
        }
        if b.len() > 0 {
            assert(b.contains(b[0]));
            assert(a.contains(b[0]));
        }
        assert(a =~= b);
    } else {
        assert(a.contains(a[0]));
        assert(b.contains(b[0]));
        let i = b.index_of(a[0]);
        assert(a.contains(b[0]));
        let j = a.index_of(b[0]);
        lemma_precedes_total(a[0], b[0]);
        assert(a[0] == b[0]);
        let x = a.drop_first();
        let y = b.drop_first();
        assert forall|t: Seq<char>| #[trigger] x.contains(t) <==> y.contains(t) by {
            if x.contains(t) {
                let k = x.index_of(t);
                assert(a[k + 1] == t);
                lemma_precedes_total(a[0], t);
                assert(a.contains(t));
                let l = b.index_of(t);
                assert(y[l - 1] == t);
            }
            if y.contains(t) {
                let k = y.index_of(t);
                assert(b[k + 1] == t);
                lemma_precedes_total(b[0], t);
                assert(b.contains(t));
                assert(a.contains(t));
                let l = a.index_of(t);
                assert(x[l - 1] == t);
            }
        }
        assert forall|k: int, l: int| 0 <= k < l < x.len() implies precedes(
            #[trigger] x[k],
            #[trigger] x[l],
        ) by {
            assert(x[k] == a[k + 1] && x[l] == a[l + 1]);
        }
        assert forall|k: int, l: int| 0 <= k < l < y.len() implies precedes(
            #[trigger] y[k],
            #[trigger] y[l],
        ) by {
            assert(y[k] == b[k + 1] && y[l] == b[l + 1]);
        }
        law_prefix_order_is_irrelevant(x, y);
        assert(a =~= seq![a[0]] + x);
        assert(b =~= seq![b[0]] + y);
    }
}

/// A text that holds no occurrence of a prefix is kept as it is.
pub proof fn law_other_text_is_kept(s: Seq<char>, p: Seq<char>)
    requires
        !text::occurs(s, p),
    ensures
        without(s, p) == s,
    decreases s.len(),
{
    if p.len() > 0 && s.len() > 0 {
        assert(!text::stands_at(s, 0, p));
        let t = s.drop_first();
        assert forall|i: int| !text::stands_at(t, i, p) by {
            if text::stands_at(t, i, p) {
                assert(s.subrange(i + 1, i + 1 + p.len()) =~= t.subrange(i, i + p.len()));
                assert(text::stands_at(s, i + 1, p));
            }
        }
        law_other_text_is_kept(t, p);
        assert(s =~= seq![s[0]] + t);
    }
}

/// Whether the only occurrence of a prefix in a text is the one between two parts.
pub open spec fn is_marked_off(x: Seq<char>, p: Seq<char>, y: Seq<char>) -> bool {
    &&& p.len() > 0
    &&& forall|i: int| 0 <= i < x.len() ==> !#[trigger] text::stands_at(x + p + y, i, p)
    &&& !text::occurs(y, p)
}

/// A prefix is removed wherever it occurs inside an argument.
pub proof fn law_prefix_is_removed_anywhere(x: Seq<char>, p: Seq<char>, y: Seq<char>)
    requires
        is_marked_off(x, p, y),
    ensures
        without(x + p + y, p) == x + y,
    decreases x.len(),
{
    let s = x + p + y;
    if x.len() == 0 {
        assert(s.subrange(0, p.len() as int) =~= p);
        assert(text::stands_at(s, 0, p));
        assert(s.skip(p.len() as int) =~= y);
        law_other_text_is_kept(y, p);
        assert(x + y =~= y);
    } else {
        let t = x.drop_first();
        assert(s.drop_first() =~= t + p + y);
        assert(!text::stands_at(s, 0, p));
        assert forall|i: int| 0 <= i < t.len() implies !#[trigger] text::stands_at(
            t + p + y,
            i,
            p,
        ) by {
            if text::stands_at(t + p + y, i, p) {
                assert(s.subrange(i + 1, i + 1 + p.len()) =~= (t + p + y).subrange(
                    i,
                    i + p.len(),
                ));
                assert(text::stands_at(s, i + 1, p));
            }
        }
        law_prefix_is_removed_anywhere(t, p, y);
        assert(x + y =~= seq![s[0]] + (t + y));
    }
}

proof fn lemma_others_are_kept(s: Seq<char>, prefixes: Seq<Seq<char>>)
    requires
        forall|j: int| 0 <= j < prefixes.len() ==> !text::occurs(s, #[trigger] prefixes[j]),
    ensures
        without_all(s, prefixes) == s,
    decreases prefixes.len(),
{
    if prefixes.len() > 0 {
        let init = prefixes.drop_last();
        assert forall|j: int| 0 <= j < init.len() implies !text::occurs(s, #[trigger] init[j]) by {
            assert(init[j] == prefixes[j]);
        }
        lemma_others_are_kept(s, init);
        assert(!text::occurs(s, prefixes[prefixes.len() - 1]));
        law_other_text_is_kept(s, prefixes.last());
    }
}

proof fn lemma_without_all_splits(s: Seq<char>, prefixes: Seq<Seq<char>>, i: int)
    requires
        0 <= i <= prefixes.len(),
    ensures
        without_all(s, prefixes) == without_all(
            without_all(s, prefixes.take(i)),
            prefixes.skip(i),
        ),
    decreases prefixes.len() - i,
{
    let n = prefixes.len() as int;
    if i == n {
        assert(prefixes.take(n) =~= prefixes);
    } else {
        let init = prefixes.drop_last();
        lemma_without_all_splits(s, init, i);
        assert(init.take(i) =~= prefixes.take(i));
        assert(prefixes.skip(i).drop_last() =~= init.skip(i));
        assert(prefixes.skip(i).last() == prefixes.last());
    }
}

/// Whether the prefix at a place is the only one to be removed from a text that holds
/// it between two parts.
pub open spec fn is_only_prefix(
    prefixes: Seq<Seq<char>>,
    i: int,
    x: Seq<char>,
    y: Seq<char>,
) -> bool {
    &&& 0 <= i < prefixes.len()
    &&& is_marked_off(x, prefixes[i], y)
    &&& forall|j: int|
        0 <= j < i ==> !text::occurs(x + prefixes[i] + y, #[trigger] prefixes[j])
    &&& forall|j: int| i < j < prefixes.len() ==> !text::occurs(x + y, #[trigger] prefixes[j])
}

/// Two machines agree: an argument that differs only in the prefix of the machine is
/// stripped to the same text on both.
pub proof fn law_machines_agree(
    a: Seq<Seq<char>>,
    i: int,
    b: Seq<Seq<char>>,
    j: int,
    x: Seq<char>,
    y: Seq<char>,
)
    requires
        is_only_prefix(a, i, x, y),
        is_only_prefix(b, j, x, y),
    ensures
        without_all(x + a[i] + y, a) == x + y,
        without_all(x + a[i] + y, a) == without_all(x + b[j] + y, b),
{
    lemma_only_prefix(a, i, x, y);
    lemma_only_prefix(b, j, x, y);
}

proof fn lemma_only_prefix(a: Seq<Seq<char>>, i: int, x: Seq<char>, y: Seq<char>)
    requires
        is_only_prefix(a, i, x, y),
    ensures
        without_all(x + a[i] + y, a) == x + y,
{
    let s = x + a[i] + y;
    lemma_without_all_splits(s, a, i + 1);
    assert(a.take(i + 1).drop_last() =~= a.take(i));
    assert forall|j: int| 0 <= j < i implies !text::occurs(s, #[trigger] a.take(i)[j]) by {
        assert(!text::occurs(s, a[j]));
    }
    lemma_others_are_kept(s, a.take(i));
    law_prefix_is_removed_anywhere(x, a[i], y);
    assert forall|j: int| 0 <= j < a.skip(i + 1).len() implies !text::occurs(
        x + y,
        #[trigger] a.skip(i + 1)[j],
    ) by {
        assert(!text::occurs(x + y, a[j + i + 1]));
    }
    lemma_others_are_kept(x + y, a.skip(i + 1));
}

/// The root is ignored: where no other directory is given, nothing is removed.
pub proof fn law_root_is_ignored(stripper: PathStripper, dirs: Seq<Seq<char>>, input: Seq<char>)
    requires
        forall|t: Seq<char>| #[trigger]
            stripper.prefixes().contains(t) <==> is_prefix_of_one(t, dirs, stripper.windows()),
        forall|i: int|
            0 <= i < dirs.len() ==> as_prefix(#[trigger] dirs[i], stripper.windows()) == "/"@,
    ensures
        stripper.stripped(input) == normalized(input, stripper.windows()),
{
    if stripper.prefixes().len() > 0 {
        let t = stripper.prefixes()[0];
        assert(stripper.prefixes().contains(t));
        assert(is_prefix_of_one(t, dirs, stripper.windows()));
    }
}

/// Windows and Unix agree: a path with backslashes is read as the same path with
/// slashes.
pub proof fn law_separators_agree(windows: Seq<char>, unix: Seq<char>)
    requires
        windows.len() == unix.len(),
        !unix.contains('\\'),
        forall|i: int|
            0 <= i < unix.len() ==> (#[trigger] windows[i] == unix[i] || (windows[i] == '\\'
                && unix[i] == '/')),
    ensures
        normalized(windows, true) == normalized(unix, false),
{
    assert forall|i: int| 0 <= i < unix.len() implies normalized(windows, true)[i] == unix[i] by {
        assert(windows[i] == unix[i] || windows[i] == '\\');
        assert(unix.contains(unix[i]));
    }
    assert(normalized(windows, true) =~= unix);
}

/// Parts with a pattern between each and the next.
pub open spec fn joined(parts: Seq<Seq<char>>, p: Seq<char>) -> Seq<char>
    decreases parts.len(),
{
    if parts.len() == 0 {
        Seq::empty()
    } else if parts.len() == 1 {
        parts[0]
    } else {
        parts[0] + p + joined(parts.drop_first(), p)
    }
}

/// Parts one after another, with nothing between them.
pub open spec fn together(parts: Seq<Seq<char>>) -> Seq<char>
    decreases parts.len(),
{
    if parts.len() == 0 {
        Seq::empty()
    } else {
        parts[0] + together(parts.drop_first())
    }
}

/// Whether a pattern, looked for from the left, is found in joined parts only where they are
/// joined.
pub open spec fn is_joint(parts: Seq<Seq<char>>, p: Seq<char>) -> bool
    decreases parts.len(),
{
    if parts.len() == 0 {
        true
    } else if parts.len() == 1 {
        !text::occurs(parts[0], p)
    } else {
        &&& forall|i: int|
            0 <= i < parts[0].len() ==> !#[trigger] text::stands_at(joined(parts, p), i, p)
        &&& is_joint(parts.drop_first(), p)
    }
}

proof fn lemma_without_first(x: Seq<char>, p: Seq<char>, y: Seq<char>)
    requires
        p.len() > 0,
        forall|i: int| 0 <= i < x.len() ==> !#[trigger] text::stands_at(x + p + y, i, p),
    ensures
        without(x + p + y, p) == x + without(y, p),
    decreases x.len(),
{
    let s = x + p + y;
    if x.len() == 0 {
        text::law_pattern_is_found(x, p, y);
        assert(s.skip(p.len() as int) =~= y);
        assert(x + without(y, p) =~= without(y, p));
    } else {
        let t = x.drop_first();
        assert(s.drop_first() =~= t + p + y);
        assert(!text::stands_at(s, 0, p));
        assert forall|i: int| 0 <= i < t.len() implies !#[trigger] text::stands_at(
            t + p + y,
            i,
            p,
        ) by {
            if text::stands_at(t + p + y, i, p) {
                assert(s.subrange(i + 1, i + 1 + p.len()) =~= (t + p + y).subrange(
                    i,
                    i + p.len(),
                ));
                assert(text::stands_at(s, i + 1, p));
            }
        }
        lemma_without_first(t, p, y);
        assert(x + without(y, p) =~= seq![s[0]] + (t + without(y, p)));
    }
}

/// Every occurrence of a prefix is removed, however many there are: of parts with the prefix
/// between them the parts are left.
pub proof fn law_all_occurrences_are_removed(parts: Seq<Seq<char>>, p: Seq<char>)
    requires
        p.len() > 0,
        is_joint(parts, p),
    ensures
        without(joined(parts, p), p) == together(parts),
    decreases parts.len(),
{
    if parts.len() == 1 {
        law_other_text_is_kept(parts[0], p);
        assert(together(parts.drop_first()) =~= Seq::empty());
        assert(together(parts) =~= parts[0]);
    } else if parts.len() > 1 {
        let rest = parts.drop_first();
        let y = joined(rest, p);
        assert(joined(parts, p) == parts[0] + p + y);
        assert forall|i: int| 0 <= i < parts[0].len() implies !#[trigger] text::stands_at(
            parts[0] + p + y,
            i,
            p,
        ) by {
            assert(!text::stands_at(joined(parts, p), i, p));
        }
        lemma_without_first(parts[0], p, y);
        law_all_occurrences_are_removed(rest, p);
    }
}

/// The prefixes are removed one after the other: the last of them from what the others left.
pub proof fn law_prefixes_are_removed_in_turn(
    s: Seq<char>,
    prefixes: Seq<Seq<char>>,
    p: Seq<char>,
)
    ensures
        without_all(s, Seq::empty()) == s,
        without_all(s, prefixes.push(p)) == without(without_all(s, prefixes), p),
{
    assert(prefixes.push(p).drop_last() =~= prefixes);
}

/// What a stripper makes of an input is what is left once each of its prefixes, in their
/// order, was removed from the input with its separators normalised.
pub proof fn law_stripper_removes_its_prefixes(
    stripper: PathStripper,
    input: Seq<char>,
    left: Seq<Seq<char>>,
)
    requires
        left.len() == stripper.prefixes().len() + 1,
        left[0] == normalized(input, stripper.windows()),
        forall|i: int|
            0 <= i < stripper.prefixes().len() ==> left[i + 1] == without(
                left[i],
                #[trigger] stripper.prefixes()[i],
            ),
    ensures
        stripper.stripped(input) == left.last(),
{
    let all = stripper.prefixes();
    lemma_left(all, all.len() as int, left);
    assert(all.take(all.len() as int) =~= all);
}

proof fn lemma_left(all: Seq<Seq<char>>, n: int, left: Seq<Seq<char>>)
    requires
        0 <= n <= all.len(),
        left.len() == all.len() + 1,
        forall|i: int| 0 <= i < all.len() ==> left[i + 1] == without(left[i], #[trigger] all[i]),
    ensures
        without_all(left[0], all.take(n)) == left[n],
    decreases n,
{
    if n == 0 {
        assert(all.take(0) =~= Seq::empty());
    } else {
        lemma_left(all, n - 1, left);
        assert(all.take(n) =~= all.take(n - 1).push(all[n - 1]));
        law_prefixes_are_removed_in_turn(left[0], all.take(n - 1), all[n - 1]);
        assert(left[n - 1 + 1] == without(left[n - 1], all[n - 1]));
    }
}

/// A directory that is specific to a machine does not go into what is hashed: with one such
/// directory, an argument that names files below it, any number of them, is left with their
/// paths below the directory.
pub proof fn law_directory_is_stripped(
    stripper: PathStripper,
    dir: Seq<char>,
    parts: Seq<Seq<char>>,
)
    requires
        !stripper.windows(),
        is_ordered(stripper.prefixes()),
        forall|t: Seq<char>| #[trigger]
            stripper.prefixes().contains(t) <==> is_prefix_of_one(t, seq![dir], false),
        dir.len() > 0,
        dir.last() != '/',
        is_joint(parts, dir.push('/')),
    ensures
        stripper.stripped(joined(parts, dir.push('/'))) == together(parts),
{
    reveal_strlit("/");
    let p = dir.push('/');
    let all = stripper.prefixes();
    assert(p != "/"@) by {
        assert(p.len() != "/"@.len());
    }
    assert(seq![dir][0] == dir);
    assert(p == as_prefix(dir, false));
    assert(is_prefix_of_one(p, seq![dir], false));
    assert(all.contains(p));
    assert(all =~= seq![p]) by {
        assert forall|i: int| 0 <= i < all.len() implies all[i] == p by {
            assert(all.contains(all[i]));
            assert(is_prefix_of_one(all[i], seq![dir], false));
        }
        if all.len() > 1 {
            lemma_precedes_total(all[0], all[1]);
        }
    }
    let input = joined(parts, p);
    law_prefixes_are_removed_in_turn(input, Seq::empty(), p);
    assert(all =~= Seq::<Seq<char>>::empty().push(p));
    law_all_occurrences_are_removed(parts, p);
}

/// Where a backslash separates no paths, a text is kept as it is. Where it does, each is read
/// as a slash, and nothing else changes.
pub proof fn law_separators_are_normalised(s: Seq<char>, i: int)
    requires
        0 <= i < s.len(),
    ensures
        normalized(s, false) == s,
        normalized(s, true).len() == s.len(),
        s[i] == '\\' ==> normalized(s, true)[i] == '/',
        s[i] != '\\' ==> normalized(s, true)[i] == s[i],
{
}

/// Whether a directory is given with a separator at its end makes no difference, and what is
/// removed ends in one.
pub proof fn law_trailing_separator_is_irrelevant(dir: Seq<char>, windows: bool)
    ensures
        as_prefix(dir, windows).len() > 0,
        as_prefix(dir, windows).last() == '/',
        dir.len() == 0 || normalized(dir, windows).last() != '/' ==> as_prefix(
            dir.push('/'),
            windows,
        ) == as_prefix(dir, windows),
        as_prefix(dir.push('/'), false) == dir.push('/'),
{
    assert(normalized(dir.push('/'), windows) =~= normalized(dir, windows).push('/'));
}

/// Longer prefixes are removed first, so that a directory goes before the one that holds it.
pub proof fn law_longer_prefixes_go_first(list: Seq<Seq<char>>, i: int, j: int)
    requires
        is_ordered(list),
        0 <= i < j < list.len(),
    ensures
        vstd::utf8::encode_utf8(list[i]).len() >= vstd::utf8::encode_utf8(list[j]).len(),
        list[i] != list[j],
{
    assert(precedes(list[i], list[j]));
    lemma_precedes_total(list[i], list[j]);
}

/// Each directory but the root is among the prefixes, and each prefix is that of a directory.
pub proof fn law_prefixes_are_those_of_the_directories(
    dirs: Seq<Seq<char>>,
    i: int,
    t: Seq<char>,
    windows: bool,
)
    requires
        0 <= i < dirs.len(),
    ensures
        as_prefix(dirs[i], windows) != "/"@ ==> is_prefix_of_one(
            as_prefix(dirs[i], windows),
            dirs,
            windows,
        ),
        is_prefix_of_one(t, dirs, windows) ==> t != "/"@ && exists|j: int|
            0 <= j < dirs.len() && t == as_prefix(#[trigger] dirs[j], windows),
{
}

} // verus!
