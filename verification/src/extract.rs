//! What is read off a request: the address of a blob, and who is calling.

use crate::address;
use crate::address::Address;
use crate::clients;
use crate::clients::Client;
use crate::text;
use crate::text::{before, from_chars, to_chars};
use vstd::prelude::*;
use vstd::slice::slice_subrange;
#[allow(unused_imports)]
use vstd::string::StringSliceAdditionalSpecFns;

verus! {

/// How many characters of a hostname are kept.
pub const MAX_HOSTNAME: usize = 128;

/// The `{address}` path segment, parsed. Rejects with 400 when malformed.
#[derive(Clone, Copy, Debug)]
pub struct BlobAddress(pub Address);

impl BlobAddress {
    /// Reads the segment, which is none if the request has no proper one. An error is the
    /// status to reject with.
    pub fn from_segment(segment: Option<&str>) -> (r: Result<BlobAddress, u16>)
        ensures
            match segment {
                Some(hex) => {
                    let bytes = hex.spec_bytes();
                    if address::is_hex(bytes) && bytes.len() == 128 {
                        r matches Ok(a) && a.0@ == address::hex_decoding(bytes)
                    } else {
                        r == Err::<BlobAddress, u16>(400)
                    }
                },
                None => r == Err::<BlobAddress, u16>(400),
            },
    {
        match segment {
            Some(hex) => match Address::from_hex(hex) {
                Ok(address) => Ok(BlobAddress(address)),
                Err(_) => Err(400),
            },
            None => Err(400),
        }
    }
}

/// The characters with the property White_Space.
pub open spec fn is_white(c: char) -> bool {
    let n = c as u32;
    9 <= n <= 13 || n == 32 || n == 133 || n == 160 || n == 5760 || 8192 <= n <= 8202 || n == 8232
        || n == 8233 || n == 8239 || n == 8287 || n == 12288
}

fn white(c: char) -> (r: bool)
    ensures
        r == is_white(c),
{
    let n: u32 = c as u32;
    (9 <= n && n <= 13) || n == 32 || n == 133 || n == 160 || n == 5760 || (8192 <= n && n <= 8202)
        || n == 8232 || n == 8233 || n == 8239 || n == 8287 || n == 12288
}

/// A text without the white space at its beginning.
pub open spec fn trimmed_start(s: Seq<char>) -> Seq<char>
    decreases s.len(),
{
    if s.len() > 0 && is_white(s[0]) {
        trimmed_start(s.drop_first())
    } else {
        s
    }
}

/// A text without the white space at its end.
pub open spec fn trimmed_end(s: Seq<char>) -> Seq<char>
    decreases s.len(),
{
    if s.len() > 0 && is_white(s.last()) {
        trimmed_end(s.drop_last())
    } else {
        s
    }
}

/// A text without the white space around it.
pub open spec fn trimmed(s: Seq<char>) -> Seq<char> {
    trimmed_end(trimmed_start(s))
}

/// Removes the white space around a text.
pub fn trim(s: &str) -> (r: Vec<char>)
    ensures
        r@ == trimmed(s@),
{
    let chars = to_chars(s);
    let n: usize = chars.len();
    let mut i: usize = 0;
    assert(s@.skip(0) =~= s@);
    while i < n && white(chars[i])
        invariant
            i <= n,
            n == chars@.len(),
            chars@ == s@,
            trimmed_start(s@) == trimmed_start(s@.skip(i as int)),
        decreases n - i,
    {
        assert(s@.skip(i as int).drop_first() =~= s@.skip(i + 1));
        i = i + 1;
    }
    let ghost rest = s@.skip(i as int);
    assert(trimmed_start(s@) == rest);
    let mut j: usize = n;
    assert(rest =~= s@.subrange(i as int, j as int));
    while j > i && white(chars[j - 1])
        invariant
            i <= j <= n,
            n == chars@.len(),
            chars@ == s@,
            trimmed_end(rest) == trimmed_end(s@.subrange(i as int, j as int)),
        decreases j,
    {
        assert(s@.subrange(i as int, j as int).drop_last() =~= s@.subrange(i as int, j - 1));
        j = j - 1;
    }
    let part = slice_subrange(chars.as_slice(), i, j);
    let mut r: Vec<char> = Vec::new();
    r.extend_from_slice(part);
    assert(r@ =~= s@.subrange(i as int, j as int));
    r
}

/// The entry of an `X-Forwarded-For` header that names the client: the first.
pub fn forwarded_entry(header: &str) -> (entry: String)
    ensures
        entry@ == trimmed(text::up_to(header@, ',')),
{
    let first = before(header, ',');
    from_chars(trim(first.as_str()).as_slice())
}

/// The hostname that a header gives, if it gives one.
pub open spec fn hostname_of(header: Seq<char>) -> Option<Seq<char>> {
    let name = trimmed(header);
    if name.len() == 0 {
        None
    } else if name.len() > MAX_HOSTNAME {
        Some(name.take(MAX_HOSTNAME as int))
    } else {
        Some(name)
    }
}

/// Reads a hostname off a header.
pub fn read_hostname(header: &str) -> (r: Option<String>)
    ensures
        clients::optional_text(r) == hostname_of(header@),
{
    let name = trim(header);
    if name.len() == 0 {
        return None;
    }
    let n: usize = if name.len() > MAX_HOSTNAME {
        MAX_HOSTNAME
    } else {
        name.len()
    };
    let r = from_chars(slice_subrange(name.as_slice(), 0, n));
    assert(r@ =~= name@.take(n as int));
    assert(name@.take(name@.len() as int) =~= name@);
    Some(r)
}

/// Who is calling, for the client table. Behind a reverse proxy the first
/// `X-Forwarded-For` entry is used instead of the proxy's own address.
#[derive(Debug)]
pub struct ClientId(pub Client);

impl ClientId {
    /// The client with the address that was forwarded, if that is one, or else the address
    /// of the peer, and with the hostname that the header gives.
    pub fn identify(forwarded: Option<String>, peer: String, hostname: Option<&str>) -> (id:
        ClientId)
        ensures
            id.0.ip@ == match forwarded {
                Some(ip) => ip@,
                None => peer@,
            },
            clients::optional_text(id.0.hostname) == match hostname {
                Some(h) => hostname_of(h@),
                None => None,
            },
    {
        let ip = match forwarded {
            Some(ip) => ip,
            None => peer,
        };
        let hostname = match hostname {
            Some(h) => read_hostname(h),
            None => None,
        };
        ClientId(Client { ip, hostname })
    }
}

/// Whether a text is white space and nothing else.
pub open spec fn all_white(s: Seq<char>) -> bool {
    forall|i: int| 0 <= i < s.len() ==> is_white(#[trigger] s[i])
}

proof fn lemma_trimmed_start(a: Seq<char>, s: Seq<char>)
    requires
        all_white(a),
        s.len() > 0 ==> !is_white(s[0]),
    ensures
        trimmed_start(a + s) == s,
    decreases a.len(),
{
    if a.len() == 0 {
        assert(a + s =~= s);
    } else {
        assert((a + s)[0] == a[0]);
        assert(is_white(a[0]));
        let b = a.drop_first();
        assert((a + s).drop_first() =~= b + s);
        assert forall|i: int| 0 <= i < b.len() implies is_white(#[trigger] b[i]) by {
            assert(b[i] == a[i + 1]);
        }
        lemma_trimmed_start(b, s);
    }
}

proof fn lemma_trimmed_end(s: Seq<char>, b: Seq<char>)
    requires
        all_white(b),
        s.len() > 0 ==> !is_white(s.last()),
    ensures
        trimmed_end(s + b) == s,
    decreases b.len(),
{
    if b.len() == 0 {
        assert(s + b =~= s);
    } else {
        assert((s + b).last() == b[b.len() - 1]);
        assert(is_white(b[b.len() - 1]));
        let c = b.drop_last();
        assert((s + b).drop_last() =~= s + c);
        assert forall|i: int| 0 <= i < c.len() implies is_white(#[trigger] c[i]) by {
            assert(c[i] == b[i]);
        }
        lemma_trimmed_end(s, c);
    }
}

/// What is left of a text without the white space around it is all that stands between, with
/// the white space inside it.
pub proof fn law_white_space_is_trimmed(a: Seq<char>, s: Seq<char>, b: Seq<char>)
    requires
        all_white(a),
        all_white(b),
        s.len() > 0 ==> !is_white(s[0]) && !is_white(s.last()),
    ensures
        trimmed(a + s + b) == s,
{
    if s.len() > 0 {
        assert(a + s + b =~= a + (s + b));
        assert((s + b)[0] == s[0]);
        lemma_trimmed_start(a, s + b);
        lemma_trimmed_end(s, b);
    } else {
        let w = a + s + b;
        assert forall|i: int| 0 <= i < w.len() implies is_white(#[trigger] w[i]) by {
            if i < a.len() {
                assert(w[i] == a[i]);
            } else {
                assert(w[i] == b[i - a.len()]);
            }
        }
        assert(w + s =~= w);
        lemma_trimmed_start(w, s);
        lemma_trimmed_end(s, Seq::empty());
        assert(s + Seq::<char>::empty() =~= s);
        assert(s =~= Seq::empty());
    }
}

/// Tabs, line breaks and spaces are white space, in ASCII and beyond it, and no other
/// character is.
pub proof fn law_white_space_is_breaks_and_spaces(c: char)
    ensures
        (c as u32) < 0x80 ==> (is_white(c) <==> c == ' ' || 0x09 <= c as u32 <= 0x0d),
        0x80 <= (c as u32) < 0x2000 ==> (is_white(c) <==> c as u32 == 0x85 || c as u32 == 0xa0
            || c as u32 == 0x1680),
        (c as u32) >= 0x2000 ==> (is_white(c) <==> c as u32 <= 0x200a || c as u32 == 0x2028
            || c as u32 == 0x2029 || c as u32 == 0x202f || c as u32 == 0x205f || c as u32
            == 0x3000),
{
}

/// A header that holds more than white space gives a hostname: what it holds without the white
/// space around it, or the first 128 characters of that. No other header gives one.
pub proof fn law_hostname_is_what_the_header_holds(header: Seq<char>)
    ensures
        hostname_of(header) is None <==> trimmed(header).len() == 0,
        hostname_of(header) matches Some(name) ==> {
            &&& 0 < name.len() <= 128
            &&& name.len() <= trimmed(header).len()
            &&& name == trimmed(header).take(name.len() as int)
            &&& name.len() == 128 || name == trimmed(header)
        },
{
    let name = trimmed(header);
    assert(name.take(name.len() as int) =~= name);
}

} // verus!
