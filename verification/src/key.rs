//! Cache addresses: what goes into them, and how it is laid out.

use crate::address::Address;
use crate::text;
use vstd::prelude::*;
#[allow(unused_imports)]
use vstd::string::StringSliceAdditionalSpecFns;

verus! {

/// Bump whenever the set or encoding of hashed inputs changes, so that entries
/// produced by older versions can never be confused with new ones on a shared cache
/// server.
///
/// The second version hashes the fields that `KeyFields::listed` lists, each with a NUL
/// behind it. Texts and contents stand in their fields as they are. It is the version of
/// inputs whose contents hold no NUL and are not empty: these fields can be told apart.
pub const KEY_SCHEME_VERSION: &'static str = "halide-cache-key-v2";

/// The version of all other inputs. Its fields are those of the second version, but that the
/// contents are escaped, all of them, as `dependency_field` says.
pub const ESCAPED_KEY_SCHEME_VERSION: &'static str = "halide-cache-key-v3";

/// The first 64 bytes of the extendable output of BLAKE3 for some bytes.
pub uninterp spec fn blake3_output(data: Seq<u8>) -> Seq<u8>;

/// `blake3::Hasher::new`, `update`, `finalize_xof` and `OutputReader::fill` on some
/// bytes: the first 64 bytes of the output, which depend on the bytes alone.
#[verifier::external_body]
fn blake3_hash(data: &[u8]) -> (out: [u8; 64])
    ensures
        out@ == blake3_output(data@),
{
    let mut out = [0u8; 64];
    blake3::Hasher::new().update(data).finalize_xof().fill(&mut out);
    out
}

/// Everything that goes into a cache address except the output path. Both outputs of
/// one generator invocation share these.
#[derive(Debug)]
pub struct KeyInputs {
    /// The platform. Generated objects are only valid for the platform they were
    /// built on.
    pub os: String,
    pub arch: String,
    /// The contents of the files that the outputs depend on.
    pub dependencies: Vec<Vec<u8>>,
    pub env: Vec<String>,
    pub cmdline: Vec<String>,
    pub builder_id: Option<String>,
}

/// The inputs of a cache address as bytes. A builder without an identifier counts as
/// one with an empty one.
#[verifier::ext_equal]
pub struct KeyFields {
    pub os: Seq<u8>,
    pub arch: Seq<u8>,
    pub builder_id: Seq<u8>,
    pub path: Seq<u8>,
    pub dependencies: Seq<Seq<u8>>,
    pub env: Seq<Seq<u8>>,
    pub cmdline: Seq<Seq<u8>>,
}

/// The bytes of a text.
pub open spec fn bytes_of(s: Seq<char>) -> Seq<u8> {
    vstd::utf8::encode_utf8(s)
}

/// The bytes of some texts.
pub open spec fn all_bytes_of(texts: Seq<String>) -> Seq<Seq<u8>> {
    Seq::new(texts.len(), |i: int| bytes_of(texts[i]@))
}

/// Some byte strings.
pub open spec fn contents(parts: Seq<Vec<u8>>) -> Seq<Seq<u8>> {
    Seq::new(parts.len(), |i: int| parts[i]@)
}

/// A byte of the contents of a dependency, so that none is NUL.
pub open spec fn escaped_byte(b: u8) -> Seq<u8> {
    if b == 0 {
        seq![1u8, 1u8]
    } else if b == 1 {
        seq![1u8, 2u8]
    } else {
        seq![b]
    }
}

/// The contents of a dependency, so that no byte is NUL.
pub open spec fn escaped(content: Seq<u8>) -> Seq<u8>
    decreases content.len(),
{
    if content.len() == 0 {
        Seq::empty()
    } else {
        escaped_byte(content[0]) + escaped(content.drop_first())
    }
}

/// The field of a dependency. It holds no NUL and is not empty, whatever the contents are.
pub open spec fn dependency_field(content: Seq<u8>) -> Seq<u8> {
    if content.len() == 0 {
        seq![1u8, 3u8]
    } else {
        escaped(content)
    }
}

/// The fields of some dependencies.
pub open spec fn dependency_fields(contents: Seq<Seq<u8>>) -> Seq<Seq<u8>> {
    Seq::new(contents.len(), |i: int| dependency_field(contents[i]))
}

/// Fields one after another, each with a NUL behind it.
pub open spec fn laid_out(fields: Seq<Seq<u8>>) -> Seq<u8>
    decreases fields.len(),
{
    if fields.len() == 0 {
        Seq::empty()
    } else {
        laid_out(fields.drop_last()) + fields.last().push(0)
    }
}

impl KeyFields {
    /// Whether the contents of the dependencies stand in their fields as they are.
    pub open spec fn is_verbatim(self) -> bool {
        all_plain(self.dependencies)
    }

    /// The version of the key scheme, which says how the contents are encoded.
    pub open spec fn version(self) -> Seq<char> {
        if self.is_verbatim() {
            KEY_SCHEME_VERSION@
        } else {
            ESCAPED_KEY_SCHEME_VERSION@
        }
    }

    /// The fields of the dependencies.
    pub open spec fn encoded_dependencies(self) -> Seq<Seq<u8>> {
        if self.is_verbatim() {
            self.dependencies
        } else {
            dependency_fields(self.dependencies)
        }
    }

    /// The fields in order. Every group of fields ends with an empty field.
    pub open spec fn listed(self) -> Seq<Seq<u8>> {
        let end = seq![Seq::<u8>::empty()];
        seq![bytes_of(self.version()), self.os, self.arch, self.builder_id] + end
            + seq![self.path] + end + self.encoded_dependencies() + end + self.env + end
            + self.cmdline + end
    }

    /// The bytes that are hashed.
    pub open spec fn stream(self) -> Seq<u8> {
        laid_out(self.listed())
    }

    /// No text holds a NUL, and no variable of the environment is empty. Of the dependencies
    /// nothing is asked.
    pub open spec fn is_plain(self) -> bool {
        &&& !self.os.contains(0)
        &&& !self.arch.contains(0)
        &&& !self.builder_id.contains(0)
        &&& !self.path.contains(0)
        &&& all_plain(self.env)
        &&& forall|i: int| 0 <= i < self.cmdline.len() ==> !(#[trigger] self.cmdline[i]).contains(0)
    }
}

/// Whether fields hold no NUL and none is empty.
pub open spec fn all_plain(fields: Seq<Seq<u8>>) -> bool {
    forall|i: int| 0 <= i < fields.len() ==> !(#[trigger] fields[i]).contains(0) && fields[i].len() > 0
}

impl KeyInputs {
    /// The fields for the output at a path.
    pub open spec fn fields(self, path: Seq<char>) -> KeyFields {
        KeyFields {
            os: bytes_of(self.os@),
            arch: bytes_of(self.arch@),
            builder_id: match self.builder_id {
                Some(id) => bytes_of(id@),
                None => Seq::empty(),
            },
            path: bytes_of(path),
            dependencies: contents(self.dependencies@),
            env: all_bytes_of(self.env@),
            cmdline: all_bytes_of(self.cmdline@),
        }
    }

    /// The bytes that are hashed for the output at `path`.
    pub fn stream(&self, path: &str) -> (stream: Vec<u8>)
        ensures
            stream@ == self.fields(path@).stream(),
    {
        broadcast use lemma_laid_out_push;

        let mut s: Vec<u8> = Vec::new();
        let ghost fields = self.fields(path@);
        let ghost none = Seq::<u8>::empty();
        let verbatim = are_plain(&self.dependencies);
        if verbatim {
            put(&mut s, KEY_SCHEME_VERSION.as_bytes());
        } else {
            put(&mut s, ESCAPED_KEY_SCHEME_VERSION.as_bytes());
        }
        put(&mut s, self.os.as_str().as_bytes());
        put(&mut s, self.arch.as_str().as_bytes());
        match &self.builder_id {
            Some(id) => put(&mut s, id.as_str().as_bytes()),
            None => put_end(&mut s),
        }
        put_end(&mut s);
        put(&mut s, path.as_bytes());
        put_end(&mut s);
        let ghost head = Seq::<Seq<u8>>::empty().push(bytes_of(fields.version())).push(
            fields.os,
        ).push(fields.arch).push(fields.builder_id).push(none).push(fields.path).push(none);
        assert(s@ == laid_out(head));
        let ghost deps = fields.encoded_dependencies();
        for i in 0..self.dependencies.len()
            invariant
                fields == self.fields(path@),
                verbatim == fields.is_verbatim(),
                deps == fields.encoded_dependencies(),
                s@ == laid_out(head + deps.take(i as int)),
        {
            broadcast use lemma_laid_out_push;

            if verbatim {
                put(&mut s, self.dependencies[i].as_slice());
            } else {
                put_dependency(&mut s, self.dependencies[i].as_slice());
            }
            assert(head + deps.take(i + 1) =~= (head + deps.take(i as int)).push(deps[i as int]));
        }
        assert(deps.take(deps.len() as int) =~= deps);
        put_end(&mut s);
        let ghost head = (head + deps).push(none);
        put_all(&mut s, &self.env, Ghost(head));
        put_end(&mut s);
        let ghost head = (head + fields.env).push(none);
        put_all(&mut s, &self.cmdline, Ghost(head));
        put_end(&mut s);
        assert((head + fields.cmdline).push(none) =~= fields.listed());
        s
    }

    /// The address for the output at `path` (already stripped of machine specific
    /// prefixes).
    pub fn address_for(&self, path: &str) -> (address: Address)
        ensures
            address@ == blake3_output(self.fields(path@).stream()),
    {
        let stream = self.stream(path);
        Address::from(blake3_hash(stream.as_slice()))
    }
}

/// Whether contents hold no NUL and none are empty.
fn are_plain(parts: &Vec<Vec<u8>>) -> (plain: bool)
    ensures
        plain == all_plain(contents(parts@)),
{
    for i in 0..parts.len()
        invariant
            forall|j: int|
                0 <= j < i ==> !(#[trigger] contents(parts@)[j]).contains(0) && contents(
                    parts@,
                )[j].len() > 0,
    {
        assert(contents(parts@)[i as int] == parts@[i as int]@);
        if !is_plain(parts[i].as_slice()) {
            return false;
        }
    }
    true
}

/// Whether bytes hold no NUL and are not empty.
fn is_plain(bytes: &[u8]) -> (plain: bool)
    ensures
        plain == (!bytes@.contains(0) && bytes@.len() > 0),
{
    for i in 0..bytes.len()
        invariant
            forall|j: int| 0 <= j < i ==> bytes@[j] != 0,
    {
        if bytes[i] == 0 {
            assert(bytes@[i as int] == 0);
            return false;
        }
    }
    bytes.len() > 0
}

/// Adds a field to a stream.
fn put(stream: &mut Vec<u8>, bytes: &[u8])
    ensures
        final(stream)@ == old(stream)@ + bytes@.push(0),
{
    stream.extend_from_slice(bytes);
    assert(stream@ =~= old(stream)@ + bytes@);
    stream.push(0);
    assert(stream@ =~= old(stream)@ + bytes@.push(0));
}

/// Adds the field of a dependency to a stream.
fn put_dependency(stream: &mut Vec<u8>, content: &[u8])
    ensures
        final(stream)@ == old(stream)@ + dependency_field(content@).push(0),
{
    let ghost before = stream@;
    if content.len() == 0 {
        stream.push(1);
        stream.push(3);
    } else {
        assert(content@.skip(0) =~= content@);
        assert(before + escaped(content@) =~= stream@ + escaped(content@.skip(0)));
        for i in 0..content.len()
            invariant
                before + escaped(content@) == stream@ + escaped(content@.skip(i as int)),
        {
            let b: u8 = content[i];
            let ghost start = stream@;
            let ghost rest = escaped(content@.skip(i + 1));
            assert(content@.skip(i as int).drop_first() =~= content@.skip(i + 1));
            if b == 0 {
                stream.push(1);
                stream.push(1);
            } else if b == 1 {
                stream.push(1);
                stream.push(2);
            } else {
                stream.push(b);
            }
            assert(stream@ =~= start + escaped_byte(b));
            assert(stream@ + rest =~= start + (escaped_byte(b) + rest));
        }
        assert(content@.skip(content@.len() as int) =~= Seq::empty());
        assert(stream@ + Seq::<u8>::empty() =~= stream@);
    }
    stream.push(0);
    assert(stream@ =~= before + dependency_field(content@).push(0));
}

/// Adds the empty field that ends a group.
fn put_end(stream: &mut Vec<u8>)
    ensures
        final(stream)@ == old(stream)@ + Seq::<u8>::empty().push(0),
{
    stream.push(0);
}

/// Adds texts to a stream that holds some fields.
fn put_all(stream: &mut Vec<u8>, texts: &Vec<String>, Ghost(before): Ghost<Seq<Seq<u8>>>)
    requires
        old(stream)@ == laid_out(before),
    ensures
        final(stream)@ == laid_out(before + all_bytes_of(texts@)),
{
    let ghost all = all_bytes_of(texts@);
    assert(before + all.take(0) =~= before);
    for i in 0..texts.len()
        invariant
            all == all_bytes_of(texts@),
            stream@ == laid_out(before + all.take(i as int)),
    {
        broadcast use lemma_laid_out_push;

        put(stream, texts[i].as_str().as_bytes());
        assert(before + all.take(i + 1) =~= (before + all.take(i as int)).push(all[i as int]));
    }
    assert(all.take(texts@.len() as int) =~= all);
}

broadcast proof fn lemma_laid_out_push(fields: Seq<Seq<u8>>, f: Seq<u8>)
    ensures
        #[trigger] laid_out(fields.push(f)) == laid_out(fields) + f.push(0),
{
    assert(fields.push(f).drop_last() =~= fields);
}

/// Fields without a NUL can be read off their layout.
pub proof fn law_layout_is_injective(a: Seq<Seq<u8>>, b: Seq<Seq<u8>>)
    requires
        laid_out(a) == laid_out(b),
        forall|i: int| 0 <= i < a.len() ==> !(#[trigger] a[i]).contains(0),
        forall|i: int| 0 <= i < b.len() ==> !(#[trigger] b[i]).contains(0),
    ensures
        a == b,
    decreases a.len(),
{
    if a.len() == 0 || b.len() == 0 {
        if a.len() > 0 {
            assert(laid_out(a).len() > 0);
        }
        if b.len() > 0 {
            assert(laid_out(b).len() > 0);
        }
        assert(a =~= b);
    } else {
        lemma_laid_out_first(a);
        lemma_laid_out_first(b);
        let x = a.drop_first();
        let y = b.drop_first();
        assert forall|i: int| 0 <= i < x.len() implies !(#[trigger] x[i]).contains(0) by {
            assert(x[i] == a[i + 1]);
        }
        assert forall|i: int| 0 <= i < y.len() implies !(#[trigger] y[i]).contains(0) by {
            assert(y[i] == b[i + 1]);
        }
        assert(!a[0].contains(0) && !b[0].contains(0));
        text::lemma_split_is_unique(a[0], laid_out(x), b[0], laid_out(y), 0u8);
        law_layout_is_injective(x, y);
        assert(a =~= seq![a[0]] + x);
        assert(b =~= seq![b[0]] + y);
    }
}

proof fn lemma_laid_out_first(fields: Seq<Seq<u8>>)
    requires
        fields.len() > 0,
    ensures
        laid_out(fields) == fields[0].push(0) + laid_out(fields.drop_first()),
    decreases fields.len(),
{
    let rest = fields.drop_first();
    if fields.len() == 1 {
        assert(fields.drop_last() =~= Seq::empty());
        assert(rest =~= Seq::empty());
        assert(laid_out(fields) =~= fields[0].push(0) + laid_out(rest));
    } else {
        lemma_laid_out_first(fields.drop_last());
        assert(fields.drop_last().drop_first() =~= rest.drop_last());
        assert(laid_out(fields) =~= fields[0].push(0) + laid_out(rest));
    }
}

/// A group of fields that are not empty ends at the first empty field.
proof fn lemma_group_is_unique(a: Seq<Seq<u8>>, x: Seq<Seq<u8>>, b: Seq<Seq<u8>>, y: Seq<Seq<u8>>)
    requires
        a + seq![Seq::<u8>::empty()] + x == b + seq![Seq::<u8>::empty()] + y,
        all_plain(a),
        all_plain(b),
    ensures
        a == b,
        x == y,
{
    let none = Seq::<u8>::empty();
    assert(a + seq![none] + x =~= a.push(none) + x);
    assert(b + seq![none] + y =~= b.push(none) + y);
    assert(!a.contains(none)) by {
        if a.contains(none) {
            let i = a.index_of(none);
            assert(a[i].len() > 0);
        }
    }
    assert(!b.contains(none)) by {
        if b.contains(none) {
            let i = b.index_of(none);
            assert(b[i].len() > 0);
        }
    }
    text::lemma_split_is_unique(a, x, b, y, none);
}

proof fn lemma_escaped(content: Seq<u8>)
    ensures
        !escaped(content).contains(0),
        content.len() > 0 ==> escaped(content).len() > 0,
        escaped(content) != seq![1u8, 3u8],
    decreases content.len(),
{
    if content.len() > 0 {
        let rest = content.drop_first();
        lemma_escaped(rest);
        let first = escaped_byte(content[0]);
        assert forall|i: int| 0 <= i < escaped(content).len() implies #[trigger] escaped(content)[i]
            != 0 by {
            if i >= first.len() {
                assert(escaped(content)[i] == escaped(rest)[i - first.len()]);
                assert(escaped(rest).contains(escaped(rest)[i - first.len()]));
            }
        }
        if escaped(content) == seq![1u8, 3u8] {
            assert(escaped(content)[0] == 1 && escaped(content)[1] == 3);
        }
    } else {
        assert(escaped(content).len() != seq![1u8, 3u8].len());
    }
}

proof fn lemma_escaped_is_injective(a: Seq<u8>, b: Seq<u8>)
    requires
        escaped(a) == escaped(b),
    ensures
        a == b,
    decreases a.len(),
{
    lemma_escaped(a);
    lemma_escaped(b);
    if a.len() == 0 || b.len() == 0 {
        assert(a =~= b);
    } else {
        let x = escaped_byte(a[0]);
        let y = escaped_byte(b[0]);
        let s = escaped(a);
        let t = escaped(b);
        assert(s[0] == x[0] && t[0] == y[0]);
        if a[0] <= 1 {
            assert(s[1] == x[1]);
        }
        if b[0] <= 1 {
            assert(t[1] == y[1]);
        }
        assert(a[0] == b[0]);
        let n = x.len() as int;
        assert(s.skip(n) =~= escaped(a.drop_first()));
        assert(t.skip(n) =~= escaped(b.drop_first()));
        lemma_escaped_is_injective(a.drop_first(), b.drop_first());
        assert(a =~= seq![a[0]] + a.drop_first());
        assert(b =~= seq![b[0]] + b.drop_first());
    }
}

/// The contents of a dependency can be read off its field, which holds no NUL and is not
/// empty.
pub proof fn law_dependency_fields_are_plain(a: Seq<u8>, b: Seq<u8>)
    ensures
        !dependency_field(a).contains(0),
        dependency_field(a).len() > 0,
        dependency_field(a) == dependency_field(b) ==> a == b,
{
    lemma_escaped(a);
    lemma_escaped(b);
    if dependency_field(a) == dependency_field(b) {
        if a.len() > 0 && b.len() > 0 {
            lemma_escaped_is_injective(a, b);
        } else {
            assert(a =~= b);
        }
    }
}

proof fn lemma_encoded_dependencies(fields: KeyFields)
    ensures
        all_plain(fields.encoded_dependencies()),
{
    let a = fields.dependencies;
    assert forall|i: int| 0 <= i < a.len() implies !(
    #[trigger] dependency_fields(a)[i]).contains(0) && dependency_fields(a)[i].len() > 0 by {
        law_dependency_fields_are_plain(a[i], a[i]);
    }
}

/// No two different inputs share a byte stream, whatever the dependencies hold. It takes that
/// texts hold no NUL, which no argument, path or variable of a process can, and that no
/// variable is empty, as each holds its name.
pub proof fn law_streams_are_distinct(a: KeyFields, b: KeyFields)
    requires
        a.is_plain(),
        b.is_plain(),
        a.stream() == b.stream(),
    ensures
        a == b,
{
    lemma_fields_hold_no_nul(a);
    lemma_fields_hold_no_nul(b);
    law_layout_is_injective(a.listed(), b.listed());
    let end = seq![Seq::<u8>::empty()];
    let l = a.listed();
    let m = b.listed();
    assert(bytes_of(a.version()) == l[0] && bytes_of(b.version()) == m[0]);
    text::lemma_encoding_is_injective(a.version(), b.version());
    lemma_versions();
    assert(a.is_verbatim() == b.is_verbatim());
    assert(a.os == l[1] && b.os == m[1]);
    assert(a.arch == l[2] && b.arch == m[2]);
    assert(a.builder_id == l[3] && b.builder_id == m[3]);
    assert(a.path == l[5] && b.path == m[5]);
    let x = a.env + end + a.cmdline + end;
    let y = b.env + end + b.cmdline + end;
    let d = a.encoded_dependencies();
    let e = b.encoded_dependencies();
    assert(l.skip(7) =~= d + end + x);
    assert(m.skip(7) =~= e + end + y);
    lemma_encoded_dependencies(a);
    lemma_encoded_dependencies(b);
    lemma_group_is_unique(d, x, e, y);
    assert(a.dependencies.len() == d.len() && b.dependencies.len() == e.len());
    assert forall|i: int| 0 <= i < d.len() implies #[trigger] a.dependencies[i]
        == b.dependencies[i] by {
        assert(d[i] == e[i]);
        if !a.is_verbatim() {
            law_dependency_fields_are_plain(a.dependencies[i], b.dependencies[i]);
        }
    }
    assert(a.dependencies =~= b.dependencies);
    assert(x =~= a.env + end + (a.cmdline + end));
    assert(y =~= b.env + end + (b.cmdline + end));
    lemma_group_is_unique(a.env, a.cmdline + end, b.env, b.cmdline + end);
    assert(a.cmdline =~= (a.cmdline + end).drop_last());
    assert(b.cmdline =~= (b.cmdline + end).drop_last());
}

/// Entries of another version of the key scheme are never confused with these: fields that
/// begin with another version make another byte stream.
pub proof fn law_versions_are_told_apart(a: KeyFields, other: Seq<Seq<u8>>)
    requires
        other.len() > 0,
        other[0] != bytes_of(a.version()),
        !other[0].contains(0),
    ensures
        laid_out(other) != a.stream(),
{
    lemma_versions();
    let own = a.listed();
    assert(own[0] == bytes_of(a.version()));
    lemma_laid_out_first(own);
    lemma_laid_out_first(other);
    if laid_out(other) == laid_out(own) {
        text::lemma_split_is_unique(
            other[0],
            laid_out(other.drop_first()),
            own[0],
            laid_out(own.drop_first()),
            0u8,
        );
    }
}

proof fn lemma_versions()
    ensures
        KEY_SCHEME_VERSION@ != ESCAPED_KEY_SCHEME_VERSION@,
        !bytes_of(KEY_SCHEME_VERSION@).contains(0),
        !bytes_of(ESCAPED_KEY_SCHEME_VERSION@).contains(0),
{
    reveal_strlit("halide-cache-key-v2");
    reveal_strlit("halide-cache-key-v3");
    let verbatim = KEY_SCHEME_VERSION@;
    let escaped = ESCAPED_KEY_SCHEME_VERSION@;
    assert(verbatim[18] != escaped[18]);
    assert(vstd::utf8::is_ascii_chars(verbatim));
    assert(vstd::utf8::is_ascii_chars(escaped));
    vstd::utf8::is_ascii_chars_encode_utf8(verbatim);
    vstd::utf8::is_ascii_chars_encode_utf8(escaped);
}

/// Contents that hold no NUL and are not empty are hashed as they are, with the second version
/// before them; the two encodings never make one byte stream.
pub proof fn law_encodings_are_told_apart(a: KeyFields, b: KeyFields)
    requires
        a.is_verbatim(),
        !b.is_verbatim(),
    ensures
        a.encoded_dependencies() == a.dependencies,
        a.stream() != b.stream(),
{
    lemma_versions();
    if bytes_of(a.version()) == bytes_of(b.version()) {
        text::lemma_encoding_is_injective(a.version(), b.version());
    }
    law_versions_are_told_apart(a, b.listed());
}

/// The inputs of two cache addresses with the same byte stream are the same, whatever the
/// dependencies hold, but that no builder identifier counts as an empty one.
pub proof fn law_inputs_are_told_apart(a: KeyInputs, p: Seq<char>, b: KeyInputs, q: Seq<char>)
    requires
        a.fields(p).is_plain(),
        b.fields(q).is_plain(),
        a.fields(p).stream() == b.fields(q).stream(),
    ensures
        p == q,
        a.os@ == b.os@,
        a.arch@ == b.arch@,
        builder_text(a.builder_id) == builder_text(b.builder_id),
        contents(a.dependencies@) == contents(b.dependencies@),
        text::texts(a.env@) == text::texts(b.env@),
        text::texts(a.cmdline@) == text::texts(b.cmdline@),
{
    law_streams_are_distinct(a.fields(p), b.fields(q));
    text::lemma_encoding_is_injective(p, q);
    text::lemma_encoding_is_injective(a.os@, b.os@);
    text::lemma_encoding_is_injective(a.arch@, b.arch@);
    lemma_builder_text(a.builder_id);
    lemma_builder_text(b.builder_id);
    text::lemma_encoding_is_injective(builder_text(a.builder_id), builder_text(b.builder_id));
    lemma_texts_from_bytes(a.env@, b.env@);
    lemma_texts_from_bytes(a.cmdline@, b.cmdline@);
}

/// The identifier of a builder; none counts as an empty one.
pub open spec fn builder_text(id: Option<String>) -> Seq<char> {
    match id {
        Some(id) => id@,
        None => Seq::empty(),
    }
}

pub proof fn lemma_builder_text(id: Option<String>)
    ensures
        bytes_of(builder_text(id)) == match id {
            Some(id) => bytes_of(id@),
            None => Seq::empty(),
        },
{
    if id is None {
        let none = Seq::<char>::empty();
        assert(vstd::utf8::is_ascii_chars(none));
        vstd::utf8::is_ascii_chars_encode_utf8(none);
        assert(bytes_of(none) =~= Seq::empty());
    }
}

pub proof fn lemma_bytes_from_texts(a: Seq<String>, b: Seq<String>)
    requires
        text::texts(a) == text::texts(b),
    ensures
        all_bytes_of(a) == all_bytes_of(b),
{
    assert(text::texts(a).len() == a.len());
    assert(text::texts(b).len() == b.len());
    assert forall|i: int| 0 <= i < a.len() implies #[trigger] all_bytes_of(a)[i] == all_bytes_of(
        b,
    )[i] by {
        assert(text::texts(a)[i] == text::texts(b)[i]);
    }
    assert(all_bytes_of(a) =~= all_bytes_of(b));
}

proof fn lemma_texts_from_bytes(a: Seq<String>, b: Seq<String>)
    requires
        all_bytes_of(a) == all_bytes_of(b),
    ensures
        text::texts(a) == text::texts(b),
{
    assert(all_bytes_of(a).len() == a.len());
    assert(all_bytes_of(b).len() == b.len());
    assert forall|i: int| 0 <= i < a.len() implies #[trigger] text::texts(a)[i] == text::texts(
        b,
    )[i] by {
        assert(all_bytes_of(a)[i] == all_bytes_of(b)[i]);
        text::lemma_encoding_is_injective(a[i]@, b[i]@);
    }
    assert(text::texts(a) =~= text::texts(b));
}

proof fn lemma_fields_hold_no_nul(a: KeyFields)
    requires
        a.is_plain(),
    ensures
        forall|i: int| 0 <= i < a.listed().len() ==> !(#[trigger] a.listed()[i]).contains(0),
{
    lemma_versions();
    lemma_encoded_dependencies(a);
    let d = a.dependencies.len() as int;
    let e = a.env.len() as int;
    let c = a.cmdline.len() as int;
    assert forall|i: int| 0 <= i < a.listed().len() implies !(
    #[trigger] a.listed()[i]).contains(0) by {
        if 7 <= i < 7 + d {
            assert(a.listed()[i] == a.encoded_dependencies()[i - 7]);
        } else if 8 + d <= i < 8 + d + e {
            assert(a.listed()[i] == a.env[i - 8 - d]);
        } else if 9 + d + e <= i < 9 + d + e + c {
            assert(a.listed()[i] == a.cmdline[i - 9 - d - e]);
        }
    }
}

/// The bytes of texts and contents are theirs, one for one.
pub proof fn law_fields_are_those_of_the_inputs(inputs: KeyInputs, path: Seq<char>, i: int)
    ensures
        ({
            let f = inputs.fields(path);
            &&& f.os == vstd::utf8::encode_utf8(inputs.os@)
            &&& f.arch == vstd::utf8::encode_utf8(inputs.arch@)
            &&& f.path == vstd::utf8::encode_utf8(path)
            &&& f.dependencies.len() == inputs.dependencies@.len()
            &&& f.env.len() == inputs.env@.len()
            &&& f.cmdline.len() == inputs.cmdline@.len()
            &&& 0 <= i < f.dependencies.len() ==> f.dependencies[i] == inputs.dependencies@[i]@
            &&& 0 <= i < f.env.len() ==> f.env[i] == vstd::utf8::encode_utf8(inputs.env@[i]@)
            &&& 0 <= i < f.cmdline.len() ==> f.cmdline[i] == vstd::utf8::encode_utf8(
                inputs.cmdline@[i]@,
            )
            &&& inputs.builder_id matches Some(id) ==> f.builder_id == vstd::utf8::encode_utf8(id@)
            &&& inputs.builder_id is None ==> f.builder_id.len() == 0
        }),
{
}

} // verus!
