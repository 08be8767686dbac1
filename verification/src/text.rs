//! Strings as sequences of characters and of bytes.

use vstd::prelude::*;

verus! {

/// `String::push` appends one character.
pub assume_specification[ String::push ](s: &mut String, c: char)
    ensures
        final(s)@ == old(s)@.push(c),
;

/// The character for a decimal digit.
pub open spec fn digit(d: int) -> char {
    (48 + d) as char
}

/// A number in decimal, without leading zeros.
pub open spec fn decimal(n: nat) -> Seq<char>
    decreases n,
{
    if n < 10 {
        seq![digit(n as int)]
    } else {
        decimal(n / 10).push(digit((n % 10) as int))
    }
}

/// The texts of some strings.
pub open spec fn texts(v: Seq<String>) -> Seq<Seq<char>> {
    v.map_values(|s: String| s@)
}

pub broadcast proof fn lemma_texts_push(v: Seq<String>, s: String)
    ensures
        #[trigger] texts(v.push(s)) == texts(v).push(s@),
{
    assert(texts(v.push(s)) =~= texts(v).push(s@));
}

/// The characters of a string.
pub fn to_chars(s: &str) -> (v: Vec<char>)
    ensures
        v@ == s@,
{
    let mut v: Vec<char> = Vec::new();
    for c in it: s.chars()
        invariant
            v@ == it.seq().take(it.index() as int),
            it.seq() == s@,
    {
        v.push(c);
    }
    v
}

/// The string made of some characters.
pub fn from_chars(v: &[char]) -> (s: String)
    ensures
        s@ == v@,
{
    let mut s = String::new();
    for i in 0..v.len()
        invariant
            s@ == v@.take(i as int),
    {
        s.push(v[i]);
        assert(v@.take(i + 1) =~= v@.take(i as int).push(v@[i as int]));
    }
    assert(v@.take(v@.len() as int) =~= v@);
    s
}

/// Whether two byte slices hold the same bytes.
pub fn bytes_equal(a: &[u8], b: &[u8]) -> (r: bool)
    ensures
        r == (a@ == b@),
{
    if a.len() != b.len() {
        return false;
    }
    for i in 0..a.len()
        invariant
            a@.len() == b@.len(),
            a@.take(i as int) == b@.take(i as int),
    {
        if a[i] != b[i] {
            return false;
        }
        assert(a@.take(i + 1) =~= a@.take(i as int).push(a@[i as int]));
        assert(b@.take(i + 1) =~= b@.take(i as int).push(b@[i as int]));
    }
    assert(a@.take(a@.len() as int) =~= a@);
    assert(b@.take(a@.len() as int) =~= b@);
    true
}

/// Strings with the same UTF-8 encoding are the same string.
pub proof fn lemma_encoding_is_injective(a: Seq<char>, b: Seq<char>)
    requires
        vstd::utf8::encode_utf8(a) == vstd::utf8::encode_utf8(b),
    ensures
        a == b,
{
    vstd::utf8::encode_utf8_decode_utf8(a);
    vstd::utf8::encode_utf8_decode_utf8(b);
}

/// Whether two strings are the same.
pub fn str_equal(a: &str, b: &str) -> (r: bool)
    ensures
        r == (a@ == b@),
{
    let r = bytes_equal(a.as_bytes(), b.as_bytes());
    proof {
        if r {
            lemma_encoding_is_injective(a@, b@);
        }
    }
    r
}

/// Writes a number in decimal.
pub fn write_decimal(n: u64) -> (s: String)
    ensures
        s@ == decimal(n as nat),
    decreases n,
{
    let d: u8 = (n % 10) as u8;
    let c: char = (48 + d) as char;
    if n < 10 {
        let mut s = String::new();
        s.push(c);
        s
    } else {
        let mut s = write_decimal(n / 10);
        s.push(c);
        s
    }
}

/// Whether a pattern stands at a place in a text.
pub open spec fn stands_at(s: Seq<char>, i: int, p: Seq<char>) -> bool {
    0 <= i && i + p.len() <= s.len() && s.subrange(i, i + p.len()) == p
}

/// Whether a pattern occurs in a text.
pub open spec fn occurs(s: Seq<char>, p: Seq<char>) -> bool {
    exists|i: int| stands_at(s, i, p)
}

/// Looks for a pattern at a place in a text.
pub fn find_at(s: &[char], i: usize, p: &[char]) -> (r: bool)
    requires
        i <= s@.len(),
    ensures
        r == stands_at(s@, i as int, p@),
{
    let n: usize = s.len();
    if n - i < p.len() {
        return false;
    }
    for j in 0..p.len()
        invariant
            n == s@.len(),
            i + p@.len() <= n,
            forall|k: int| 0 <= k < j ==> s@[i + k] == p@[k],
    {
        if s[i + j] != p[j] {
            assert(s@.subrange(i as int, i + p@.len())[j as int] != p@[j as int]);
            return false;
        }
    }
    assert(s@.subrange(i as int, i + p@.len()) =~= p@);
    true
}

/// Looks for a pattern anywhere in a text.
pub fn contains(s: &str, p: &str) -> (r: bool)
    ensures
        r == occurs(s@, p@),
{
    let text = to_chars(s);
    let pattern = to_chars(p);
    let n: usize = text.len();
    let mut i: usize = 0;
    while i < n
        invariant
            n == text@.len(),
            text@ == s@,
            pattern@ == p@,
            i <= n,
            forall|k: int| 0 <= k < i ==> !stands_at(s@, k, p@),
        decreases n - i,
    {
        if find_at(text.as_slice(), i, pattern.as_slice()) {
            assert(stands_at(s@, i as int, p@));
            return true;
        }
        i = i + 1;
    }
    let last = find_at(text.as_slice(), n, pattern.as_slice());
    assert(last ==> stands_at(s@, n as int, p@));
    last
}

/// A text up to the first occurrence of a character, or all of it.
pub open spec fn up_to(s: Seq<char>, c: char) -> Seq<char>
    decreases s.len(),
{
    if s.len() == 0 || s[0] == c {
        Seq::empty()
    } else {
        seq![s[0]] + up_to(s.drop_first(), c)
    }
}

/// A text without the character is all there is up to it; the first of a text with
/// it ends the part.
pub proof fn lemma_up_to(s: Seq<char>, c: char, n: int)
    requires
        0 <= n <= s.len(),
        !s.take(n).contains(c),
        n == s.len() || s[n] == c,
    ensures
        up_to(s, c) == s.take(n),
    decreases s.len(),
{
    if s.len() == 0 {
        assert(s.take(n) =~= Seq::empty());
    } else if s[0] == c {
        if n > 0 {
            assert(s.take(n)[0] == c);
        }
        assert(s.take(n) =~= Seq::empty());
    } else {
        let t = s.drop_first();
        assert(t.take(n - 1) =~= s.take(n).drop_first());
        assert forall|i: int| 0 <= i < n - 1 implies #[trigger] t.take(n - 1)[i] != c by {
            assert(s.take(n)[i + 1] == t.take(n - 1)[i]);
        }
        lemma_up_to(t, c, n - 1);
        assert(s.take(n) =~= seq![s[0]] + t.take(n - 1));
    }
}

/// The part of a text before the first occurrence of a character.
pub fn before(s: &str, c: char) -> (r: String)
    ensures
        r@ == up_to(s@, c),
{
    let text = to_chars(s);
    let n: usize = text.len();
    let mut r = String::new();
    let mut i: usize = 0;
    while i < n
        invariant
            n == text@.len(),
            text@ == s@,
            i <= n,
            r@ == s@.take(i as int),
            !s@.take(i as int).contains(c),
        decreases n - i,
    {
        if text[i] == c {
            proof {
                lemma_up_to(s@, c, i as int);
            }
            return r;
        }
        r.push(text[i]);
        assert(s@.take(i + 1) =~= s@.take(i as int).push(s@[i as int]));
        i = i + 1;
    }
    proof {
        lemma_up_to(s@, c, n as int);
    }
    r
}

/// A number in decimal is digits and nothing else.
pub proof fn lemma_decimal_is_digits(n: nat)
    ensures
        decimal(n).len() > 0,
        forall|i: int|
            0 <= i < decimal(n).len() ==> '0' <= #[trigger] decimal(n)[i] && decimal(n)[i] <= '9',
    decreases n,
{
    if n >= 10 {
        lemma_decimal_is_digits(n / 10);
    }
}

/// Numbers that look the same in decimal are the same.
pub proof fn law_decimal_is_injective(a: nat, b: nat)
    requires
        decimal(a) == decimal(b),
    ensures
        a == b,
    decreases a,
{
    lemma_decimal_is_digits(a / 10);
    lemma_decimal_is_digits(b / 10);
    if a >= 10 {
        assert(decimal(a).drop_last() =~= decimal(a / 10));
        assert(decimal(a).last() == digit((a % 10) as int));
    }
    if b >= 10 {
        assert(decimal(b).drop_last() =~= decimal(b / 10));
        assert(decimal(b).last() == digit((b % 10) as int));
    }
    if a >= 10 && b >= 10 {
        law_decimal_is_injective(a / 10, b / 10);
    } else {
        assert(decimal(a)[decimal(a).len() - 1] == digit((a % 10) as int));
        assert(decimal(b)[decimal(b).len() - 1] == digit((b % 10) as int));
    }
}

/// A text up to the first occurrence of a character fixes what stands before and
/// behind it.
pub proof fn lemma_split_is_unique<T>(a: Seq<T>, x: Seq<T>, b: Seq<T>, y: Seq<T>, c: T)
    requires
        a.push(c) + x == b.push(c) + y,
        !a.contains(c),
        !b.contains(c),
    ensures
        a == b,
        x == y,
{
    let left = a.push(c) + x;
    let right = b.push(c) + y;
    assert(left[a.len() as int] == c);
    assert(right[b.len() as int] == c);
    if a.len() < b.len() {
        assert(right[a.len() as int] == b[a.len() as int]);
    }
    if b.len() < a.len() {
        assert(left[b.len() as int] == a[b.len() as int]);
    }
    assert(a =~= left.take(a.len() as int));
    assert(b =~= right.take(a.len() as int));
    assert(x =~= left.skip(a.len() as int + 1));
    assert(y =~= right.skip(a.len() as int + 1));
}

/// The texts of some strings are theirs, one for one.
pub proof fn law_texts_are_those_of_the_strings(v: Seq<String>, i: int)
    requires
        0 <= i < v.len(),
    ensures
        texts(v).len() == v.len(),
        texts(v)[i] == v[i]@,
{
}

/// The number that decimal digits stand for.
pub open spec fn number(digits: Seq<char>) -> int
    decreases digits.len(),
{
    if digits.len() == 0 {
        0
    } else {
        10 * number(digits.drop_last()) + (digits.last() as int - '0' as int)
    }
}

/// A number in decimal reads back as the number, and begins with no needless zero.
pub proof fn law_decimal_reads_back(n: nat)
    ensures
        number(decimal(n)) == n,
        decimal(n).len() > 0,
        forall|i: int|
            0 <= i < decimal(n).len() ==> '0' <= #[trigger] decimal(n)[i] && decimal(n)[i] <= '9',
        decimal(n).len() > 1 ==> decimal(n)[0] != '0',
    decreases n,
{
    lemma_decimal_is_digits(n);
    if n >= 10 {
        law_decimal_reads_back(n / 10);
        assert(decimal(n).drop_last() =~= decimal(n / 10));
        assert(decimal(n)[0] == decimal(n / 10)[0]);
        if decimal(n / 10).len() == 1 {
            let init = decimal(n / 10);
            assert(init.drop_last() =~= Seq::empty());
            assert(number(init.drop_last()) == 0);
            assert(number(init) == init.last() as int - '0' as int);
            assert(init.last() == init[0]);
        }
    } else {
        let d = decimal(n);
        assert(d.drop_last() =~= Seq::empty());
        assert(number(d.drop_last()) == 0);
    }
}

/// A pattern stands behind what precedes it in a text, and occurs in it.
pub proof fn law_pattern_is_found(x: Seq<char>, p: Seq<char>, y: Seq<char>)
    ensures
        stands_at(x + p + y, x.len() as int, p),
        occurs(x + p + y, p),
{
    let s = x + p + y;
    assert(s.subrange(x.len() as int, (x.len() + p.len()) as int) =~= p);
    assert(stands_at(s, x.len() as int, p));
}

/// Where a pattern stands, the text is what precedes it, the pattern, and what follows it.
pub proof fn law_found_pattern_is_there(s: Seq<char>, i: int, p: Seq<char>)
    ensures
        stands_at(s, i, p) ==> {
            &&& 0 <= i
            &&& i + p.len() <= s.len()
            &&& s == s.take(i) + p + s.skip(i + p.len())
        },
        occurs(s, p) ==> exists|x: Seq<char>, y: Seq<char>| s == #[trigger] (x + p + y),
{
    if stands_at(s, i, p) {
        lemma_split_at(s, i, p);
    }
    if occurs(s, p) {
        let j = choose|j: int| stands_at(s, j, p);
        lemma_split_at(s, j, p);
        let x = s.take(j);
        let y = s.skip(j + p.len());
        assert(s == x + p + y);
    }
}

proof fn lemma_split_at(s: Seq<char>, i: int, p: Seq<char>)
    requires
        stands_at(s, i, p),
    ensures
        0 <= i,
        i + p.len() <= s.len(),
        s == s.take(i) + p + s.skip(i + p.len()),
{
    let part = s.subrange(i, i + p.len());
    assert(s =~= s.take(i) + part + s.skip(i + p.len()));
}

/// What stands before the first occurrence of a character is all that stands before it, and a
/// text without the character stands before it whole.
pub proof fn law_text_ends_at_the_character(a: Seq<char>, c: char, b: Seq<char>)
    requires
        !a.contains(c),
    ensures
        up_to(a.push(c) + b, c) == a,
        up_to(a, c) == a,
{
    let s = a.push(c) + b;
    let n = a.len() as int;
    assert(s.take(n) =~= a);
    assert(s[n] == c);
    lemma_up_to(s, c, n);
    assert(a.take(n) =~= a);
    lemma_up_to(a, c, n);
}

} // verus!
