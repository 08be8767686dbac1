//! The two outputs of a generator invocation, and what their addresses are made of.

use crate::address::Address;
use crate::error::Error;
use crate::key;
use crate::key::KeyInputs;
use crate::lru::{EvictStep, LRU};
use crate::order;
use crate::order::sort;
use crate::strip::PathStripper;
use crate::text;
use crate::text::to_chars;
use vstd::prelude::*;
#[allow(unused_imports)]
use vstd::string::StringSliceAdditionalSpecFns;

verus! {

/// The size that a local cache is kept at, in bytes: 10 GiB.
pub const MAX_CACHE_SIZE_BYTES: u64 = 10737418240;

/// One generator output: where it lives on disk, its file name and its cache address.
#[derive(Debug)]
pub struct Output {
    pub path: String,
    pub name: String,
    pub address: Address,
}

/// The two outputs of one generator invocation. They are always cached and looked up
/// together.
#[derive(Debug)]
pub struct Outputs {
    pub object: Output,
    pub header: Output,
}

/// Which of the outputs.
#[derive(Clone, Copy, Debug, PartialEq, Eq, Structural)]
pub enum Part {
    Object,
    Header,
}

/// A file name up to its first dot that does not begin it.
pub open spec fn file_prefix(name: Seq<char>) -> Seq<char> {
    if name.len() == 0 {
        name
    } else {
        seq![name[0]] + text::up_to(name.drop_first(), '.')
    }
}

impl Outputs {
    /// The output for a part.
    pub fn get(&self, part: Part) -> (output: &Output)
        ensures
            *output == match part {
                Part::Object => self.object,
                Part::Header => self.header,
            },
    {
        match part {
            Part::Object => &self.object,
            Part::Header => &self.header,
        }
    }

    /// The outputs in order.
    pub fn iter(&self) -> (outputs: Vec<&Output>)
        ensures
            outputs@ == seq![&self.object, &self.header],
    {
        let mut outputs: Vec<&Output> = Vec::new();
        outputs.push(&self.object);
        outputs.push(&self.header);
        assert(outputs@ =~= seq![&self.object, &self.header]);
        outputs
    }

    /// The Halide target name: the generated files always share its base name.
    pub fn target(&self) -> (target: String)
        ensures
            target@ == file_prefix(self.object.name@),
    {
        let chars = to_chars(self.object.name.as_str());
        let n: usize = chars.len();
        let mut target = String::new();
        if n == 0 {
            assert(target@ =~= self.object.name@);
            return target;
        }
        target.push(chars[0]);
        let ghost rest = chars@.drop_first();
        let mut i: usize = 1;
        while i < n && chars[i] != '.'
            invariant
                1 <= i <= n,
                n == chars@.len(),
                rest == chars@.drop_first(),
                target@ == seq![chars@[0]] + rest.take(i - 1),
                !rest.take(i - 1).contains('.'),
            decreases n - i,
        {
            target.push(chars[i]);
            assert(rest.take(i as int) =~= rest.take(i - 1).push(chars@[i as int]));
            i = i + 1;
        }
        proof {
            text::lemma_up_to(rest, '.', i - 1);
        }
        target
    }
}

/// Why the two outputs could not be extracted.
#[derive(Debug)]
pub enum LookupError {
    /// Neither was, and not because they are absent.
    Both { object: Error, header: Error },
    /// The object was extracted, the header was not.
    Header { cause: Error },
    /// The header was extracted, the object was not.
    Object { cause: Error },
}

impl LookupError {
    /// The text that stands before the cause.
    pub open spec fn context_text(self) -> Seq<char> {
        match self {
            LookupError::Both { object, header } => header.text(),
            LookupError::Header { .. } => "Retrieving the object was successful"@,
            LookupError::Object { .. } => "Retrieving the header was successful"@,
        }
    }

    /// The text of the cause.
    pub open spec fn cause_text(self) -> Seq<char> {
        match self {
            LookupError::Both { object, header } => object.text(),
            LookupError::Header { cause } => cause.text(),
            LookupError::Object { cause } => cause.text(),
        }
    }

    /// What stands before the cause.
    pub fn context(&self) -> (s: String)
        ensures
            s@ == self.context_text(),
    {
        match self {
            LookupError::Both { object, header } => header.message(),
            LookupError::Header { .. } => "Retrieving the object was successful".to_owned(),
            LookupError::Object { .. } => "Retrieving the header was successful".to_owned(),
        }
    }

    /// The cause.
    pub fn cause(&self) -> (s: String)
        ensures
            s@ == self.cause_text(),
    {
        match self {
            LookupError::Both { object, header } => object.message(),
            LookupError::Header { cause } => cause.message(),
            LookupError::Object { cause } => cause.message(),
        }
    }
}

/// What the extraction of the two outputs comes to.
pub open spec fn both(object: Result<(), Error>, header: Result<(), Error>) -> Result<
    bool,
    LookupError,
> {
    match (object, header) {
        (Ok(_), Ok(_)) => Ok(true),
        (Err(o), Err(h)) => if o is NotFound && h is NotFound {
            Ok(false)
        } else {
            Err(LookupError::Both { object: o, header: h })
        },
        (Ok(_), Err(e)) => Err(LookupError::Header { cause: e }),
        (Err(e), Ok(_)) => Err(LookupError::Object { cause: e }),
    }
}

/// Takes what the extraction of each output from the local cache came to. `Ok(false)`
/// when neither is there; a lone entry or a broken one is an error, since the two are
/// always stored together.
pub fn retrieve_both(object: Result<(), Error>, header: Result<(), Error>) -> (r: Result<
    bool,
    LookupError,
>)
    ensures
        r == both(object, header),
{
    match object {
        Ok(()) => match header {
            Ok(()) => Ok(true),
            Err(e) => Err(LookupError::Header { cause: e }),
        },
        Err(o) => match header {
            Ok(()) => Err(LookupError::Object { cause: o }),
            Err(h) => {
                let absent = matches!(o, Error::NotFound { .. }) && matches!(h, Error::NotFound { .. });
                if absent {
                    Ok(false)
                } else {
                    Err(LookupError::Both { object: o, header: h })
                }
            },
        },
    }
}

/// Whether a variable of the environment goes into addresses.
pub open spec fn is_hashed_variable(name: Seq<char>) -> bool {
    text::stands_at(name, 0, "ZIVID_"@)
}

/// The variables that go into addresses, each with its value.
pub open spec fn hashed_variables(vars: Seq<(String, String)>) -> Seq<Seq<char>>
    decreases vars.len(),
{
    if vars.len() == 0 {
        Seq::empty()
    } else {
        let before = hashed_variables(vars.drop_last());
        let (name, value) = vars.last();
        if is_hashed_variable(name@) {
            before.push(name@ + "="@ + value@)
        } else {
            before
        }
    }
}

/// Picks the variables of the environment that go into addresses, and sorts them.
pub fn collect_zivid_env(vars: &Vec<(String, String)>) -> (env: Vec<String>)
    ensures
        order::is_sorted(text::texts(env@)),
        text::texts(env@).to_multiset() == hashed_variables(vars@).to_multiset(),
        forall|i: int|
            0 <= i < vars@.len() && (#[trigger] vars@[i]).0@.len() >= 6 && vars@[i].0@.take(6)
                == "ZIVID_"@ ==> text::texts(env@).contains(vars@[i].0@ + "="@ + vars@[i].1@),
        forall|t: Seq<char>| #[trigger]
            text::texts(env@).contains(t) ==> exists|i: int|
                0 <= i < vars@.len() && (#[trigger] vars@[i]).0@.len() >= 6 && vars@[i].0@.take(6)
                    == "ZIVID_"@ && t == vars@[i].0@ + "="@ + vars@[i].1@,
{
    let prefix = to_chars("ZIVID_");
    let mut env: Vec<String> = Vec::new();
    assert(text::texts(env@) =~= Seq::empty());
    for i in 0..vars.len()
        invariant
            prefix@ == "ZIVID_"@,
            text::texts(env@) == hashed_variables(vars@.take(i as int)),
    {
        broadcast use text::lemma_texts_push;

        assert(vars@.take(i + 1).drop_last() =~= vars@.take(i as int));
        let name = to_chars(vars[i].0.as_str());
        if text::find_at(name.as_slice(), 0, prefix.as_slice()) {
            let mut entry = vars[i].0.clone();
            entry.append("=");
            entry.append(vars[i].1.as_str());
            env.push(entry);
        }
    }
    assert(vars@.take(vars@.len() as int) =~= vars@);
    let env = sort(env);
    proof {
        let all = text::texts(env@);
        assert forall|i: int|
            0 <= i < vars@.len() && (#[trigger] vars@[i]).0@.len() >= 6 && vars@[i].0@.take(6)
                == "ZIVID_"@ implies all.contains(vars@[i].0@ + "="@ + vars@[i].1@) by {
            law_zivid_variables_are_collected(vars@, all, i, vars@[i].0@);
        }
        assert forall|t: Seq<char>| #[trigger] all.contains(t) implies exists|i: int|
            0 <= i < vars@.len() && (#[trigger] vars@[i]).0@.len() >= 6 && vars@[i].0@.take(6)
                == "ZIVID_"@ && t == vars@[i].0@ + "="@ + vars@[i].1@ by {
            law_only_zivid_variables_are_collected(vars@, all, t);
        }
    }
    env
}

proof fn lemma_hashed_variables(vars: Seq<(String, String)>, t: Seq<char>)
    ensures
        hashed_variables(vars).contains(t) <==> exists|i: int|
            0 <= i < vars.len() && is_hashed_variable((#[trigger] vars[i]).0@) && t == vars[i].0@
                + "="@ + vars[i].1@,
    decreases vars.len(),
{
    if vars.len() > 0 {
        let init = vars.drop_last();
        let before = hashed_variables(init);
        let all = hashed_variables(vars);
        let n = vars.len() - 1;
        lemma_hashed_variables(init, t);
        let (name, value) = vars.last();
        let last = name@ + "="@ + value@;
        if all.contains(t) {
            let j = all.index_of(t);
            if j < before.len() {
                assert(before[j] == t);
                assert(before.contains(t));
                let i = choose|i: int|
                    0 <= i < init.len() && is_hashed_variable((#[trigger] init[i]).0@) && t
                        == init[i].0@ + "="@ + init[i].1@;
                assert(vars[i] == init[i]);
            } else {
                assert(is_hashed_variable(vars[n].0@) && t == vars[n].0@ + "="@ + vars[n].1@);
            }
        }
        if exists|i: int|
            0 <= i < vars.len() && is_hashed_variable((#[trigger] vars[i]).0@) && t == vars[i].0@
                + "="@ + vars[i].1@ {
            let i = choose|i: int|
                0 <= i < vars.len() && is_hashed_variable((#[trigger] vars[i]).0@) && t
                    == vars[i].0@ + "="@ + vars[i].1@;
            if i < n {
                assert(init[i] == vars[i]);
                let j = before.index_of(t);
                assert(all[j] == t);
            } else {
                assert(all[before.len() as int] == t);
            }
        }
    }
}

proof fn lemma_hashed_variable(name: Seq<char>)
    ensures
        is_hashed_variable(name) <==> name.len() >= 6 && name.take(6) == "ZIVID_"@,
{
    reveal_strlit("ZIVID_");
    assert(name.len() >= 6 ==> name.subrange(0, 6) =~= name.take(6));
}

/// Every variable whose name begins with `ZIVID_`, however long it is, is collected with its
/// value.
pub proof fn law_zivid_variables_are_collected(
    vars: Seq<(String, String)>,
    env: Seq<Seq<char>>,
    i: int,
    name: Seq<char>,
)
    requires
        env.to_multiset() == hashed_variables(vars).to_multiset(),
        0 <= i < vars.len(),
        name == vars[i].0@,
        name.len() >= 6,
        name.take(6) == "ZIVID_"@,
    ensures
        env.contains(name + "="@ + vars[i].1@),
{
    let t = name + "="@ + vars[i].1@;
    lemma_hashed_variable(name);
    lemma_hashed_variables(vars, t);
    assert(is_hashed_variable(vars[i].0@));
    env.to_multiset_ensures();
    hashed_variables(vars).to_multiset_ensures();
    assert(hashed_variables(vars).contains(t));
    assert(env.to_multiset().count(t) > 0);
}

/// Nothing but such variables is collected.
pub proof fn law_only_zivid_variables_are_collected(
    vars: Seq<(String, String)>,
    env: Seq<Seq<char>>,
    t: Seq<char>,
)
    requires
        env.to_multiset() == hashed_variables(vars).to_multiset(),
        env.contains(t),
    ensures
        exists|i: int|
            0 <= i < vars.len() && (#[trigger] vars[i]).0@.len() >= 6 && vars[i].0@.take(6)
                == "ZIVID_"@ && t == vars[i].0@ + "="@ + vars[i].1@,
{
    lemma_hashed_variables(vars, t);
    env.to_multiset_ensures();
    hashed_variables(vars).to_multiset_ensures();
    assert(env.to_multiset().count(t) > 0);
    assert(hashed_variables(vars).contains(t));
    let i = choose|i: int|
        0 <= i < vars.len() && is_hashed_variable((#[trigger] vars[i]).0@) && t == vars[i].0@
            + "="@ + vars[i].1@;
    lemma_hashed_variable(vars[i].0@);
    assert(vars[i].0@.len() >= 6 && vars[i].0@.take(6) == "ZIVID_"@);
}

/// Builds whose environments differ are told apart: where a variable whose name begins with
/// `ZIVID_` has a value in one environment that it does not have in another, the hashed bytes
/// differ, whatever else goes into them. Names of variables hold no `=`.
pub proof fn law_variables_tell_builds_apart(
    vars: Seq<(String, String)>,
    i: int,
    a: KeyInputs,
    p: Seq<char>,
    others: Seq<(String, String)>,
    b: KeyInputs,
    q: Seq<char>,
)
    requires
        text::texts(a.env@).to_multiset() == hashed_variables(vars).to_multiset(),
        text::texts(b.env@).to_multiset() == hashed_variables(others).to_multiset(),
        a.fields(p).is_plain(),
        b.fields(q).is_plain(),
        0 <= i < vars.len(),
        vars[i].0@.len() >= 6,
        vars[i].0@.take(6) == "ZIVID_"@,
        !vars[i].0@.contains('='),
        forall|j: int| 0 <= j < others.len() ==> !(#[trigger] others[j]).0@.contains('='),
        forall|j: int|
            0 <= j < others.len() && (#[trigger] others[j]).0@ == vars[i].0@ ==> others[j].1@
                != vars[i].1@,
    ensures
        text::texts(a.env@) != text::texts(b.env@),
        a.fields(p).stream() != b.fields(q).stream(),
{
    reveal_strlit("=");
    let t = vars[i].0@ + "="@ + vars[i].1@;
    law_zivid_variables_are_collected(vars, text::texts(a.env@), i, vars[i].0@);
    if text::texts(b.env@).contains(t) {
        law_only_zivid_variables_are_collected(others, text::texts(b.env@), t);
        let j = choose|j: int|
            0 <= j < others.len() && (#[trigger] others[j]).0@.len() >= 6 && others[j].0@.take(6)
                == "ZIVID_"@ && t == others[j].0@ + "="@ + others[j].1@;
        assert("="@ =~= seq!['=']);
        assert(t =~= vars[i].0@.push('=') + vars[i].1@);
        assert(t =~= others[j].0@.push('=') + others[j].1@);
        text::lemma_split_is_unique(
            vars[i].0@,
            vars[i].1@,
            others[j].0@,
            others[j].1@,
            '=',
        );
    }
    if a.fields(p).stream() == b.fields(q).stream() {
        key::law_inputs_are_told_apart(a, p, b, q);
    }
}

/// What is known of an invocation before anything is hashed.
#[derive(Debug)]
pub struct Invocation {
    pub os: String,
    pub arch: String,
    pub dependencies: Vec<Vec<u8>>,
    pub vars: Vec<(String, String)>,
    pub builder: Vec<String>,
    pub builder_id: Option<String>,
}

/// The inputs that the outputs of an invocation share. The arguments of the builder are
/// stripped of what is specific to the machine.
pub fn key_inputs(invocation: Invocation, stripper: &PathStripper) -> (inputs: KeyInputs)
    ensures
        inputs.os == invocation.os,
        inputs.arch == invocation.arch,
        inputs.dependencies == invocation.dependencies,
        inputs.builder_id == invocation.builder_id,
        order::is_sorted(text::texts(inputs.env@)),
        text::texts(inputs.env@).to_multiset() == hashed_variables(
            invocation.vars@,
        ).to_multiset(),
        forall|i: int|
            0 <= i < invocation.vars@.len() && (#[trigger] invocation.vars@[i]).0@.len() >= 6
                && invocation.vars@[i].0@.take(6) == "ZIVID_"@ ==> text::texts(
                inputs.env@,
            ).contains(invocation.vars@[i].0@ + "="@ + invocation.vars@[i].1@),
        text::texts(inputs.cmdline@) == invocation.builder@.map_values(
            |c: String| stripper.stripped(c@),
        ),
{
    let ghost stripped = invocation.builder@.map_values(|c: String| stripper.stripped(c@));
    let mut cmdline: Vec<String> = Vec::new();
    for i in 0..invocation.builder.len()
        invariant
            stripped == invocation.builder@.map_values(|c: String| stripper.stripped(c@)),
            text::texts(cmdline@) == stripped.take(i as int),
    {
        broadcast use text::lemma_texts_push;

        cmdline.push(stripper.strip(invocation.builder[i].as_str()));
        assert(stripped.take(i + 1) =~= stripped.take(i as int).push(stripped[i as int]));
    }
    assert(stripped.take(stripped.len() as int) =~= stripped);
    let env = collect_zivid_env(&invocation.vars);
    KeyInputs {
        os: invocation.os,
        arch: invocation.arch,
        dependencies: invocation.dependencies,
        env,
        cmdline,
        builder_id: invocation.builder_id,
    }
}

/// The output at a path: its address is that of the path without what is specific to the
/// machine.
pub fn output(inputs: &KeyInputs, stripper: &PathStripper, path: String, name: String) -> (o: Output)
    ensures
        o.path == path,
        o.name == name,
        o.address@ == key::blake3_output(inputs.fields(stripper.stripped(path@)).stream()),
{
    let address = inputs.address_for(stripper.strip(path.as_str()).as_str());
    Output { path, name, address }
}

/// Begins to shrink a local cache that was scanned, if it is too large.
pub fn try_cleaning_up<R>(lru: LRU<R>) -> (step: EvictStep<R>)
    requires
        lru.inv(),
    ensures
        step.is_next(lru.items(), lru.size(), lru.lager(), MAX_CACHE_SIZE_BYTES, Seq::empty()),
{
    lru.evict_until(MAX_CACHE_SIZE_BYTES)
}

/// A search for the root of a repository, upwards from the working directory.
#[derive(Clone, Copy, Debug)]
pub struct RootSearch {
    /// How far up the directory is that is looked at.
    pub ups: usize,
}

/// How far the search has come.
#[derive(Clone, Copy, Debug)]
pub enum RootStep {
    /// The root is this far up.
    Found { ups: usize },
    /// Look at the next directory up.
    Up(RootSearch),
    /// Could not determine root.
    Missing,
}

impl RootSearch {
    /// Begins a search.
    pub fn start() -> (search: RootSearch)
        ensures
            search.ups == 0,
    {
        RootSearch { ups: 0 }
    }

    /// Goes on once it is known whether the directory holds a repository, and whether
    /// there is one above it.
    pub fn resume(self, is_root: bool, has_parent: bool) -> (step: RootStep)
        requires
            self.ups < usize::MAX,
        ensures
            step == if is_root {
                RootStep::Found { ups: self.ups }
            } else if has_parent {
                RootStep::Up(RootSearch { ups: (self.ups + 1) as usize })
            } else {
                RootStep::Missing
            },
    {
        if is_root {
            RootStep::Found { ups: self.ups }
        } else if has_parent {
            RootStep::Up(RootSearch { ups: self.ups + 1 })
        } else {
            RootStep::Missing
        }
    }
}

/// The whole of a search: what it comes to in directories of which it is known, from the
/// working directory upwards, whether each is a root.
pub open spec fn searched(roots: Seq<bool>, search: RootSearch) -> RootStep
    decreases roots.len() - search.ups,
{
    if search.ups >= roots.len() || search.ups == usize::MAX {
        RootStep::Missing
    } else if roots[search.ups as int] {
        RootStep::Found { ups: search.ups }
    } else if search.ups + 1 < roots.len() {
        searched(roots, RootSearch { ups: (search.ups + 1) as usize })
    } else {
        RootStep::Missing
    }
}

/// The nearest root is found, and none only if there is none.
pub proof fn law_nearest_root_is_found(roots: Seq<bool>, search: RootSearch)
    requires
        roots.len() <= usize::MAX,
        search.ups < roots.len(),
    ensures
        match searched(roots, search) {
            RootStep::Found { ups } => search.ups <= ups < roots.len() && roots[ups as int]
                && forall|j: int| search.ups <= j < ups ==> !#[trigger] roots[j],
            RootStep::Missing => forall|j: int|
                search.ups <= j < roots.len() ==> !#[trigger] roots[j],
            RootStep::Up(_) => false,
        },
    decreases roots.len() - search.ups,
{
    if !roots[search.ups as int] && search.ups + 1 < roots.len() {
        law_nearest_root_is_found(roots, RootSearch { ups: (search.ups + 1) as usize });
    }
}

/// Addresses are identical across machines: where the platform, the builder, the
/// dependencies, the stripped arguments and the stripped path are the same, and the
/// variables are, in whatever order they came, the hashed bytes are the same.
pub proof fn law_machines_share_addresses(
    a: KeyInputs,
    p: Seq<char>,
    b: KeyInputs,
    q: Seq<char>,
)
    requires
        p == q,
        a.os@ == b.os@,
        a.arch@ == b.arch@,
        key::builder_text(a.builder_id) == key::builder_text(b.builder_id),
        key::contents(a.dependencies@) == key::contents(b.dependencies@),
        text::texts(a.cmdline@) == text::texts(b.cmdline@),
        order::is_sorted(text::texts(a.env@)),
        order::is_sorted(text::texts(b.env@)),
        text::texts(a.env@).to_multiset() == text::texts(b.env@).to_multiset(),
    ensures
        a.fields(p) == b.fields(q),
        a.fields(p).stream() == b.fields(q).stream(),
        key::blake3_output(a.fields(p).stream()) == key::blake3_output(b.fields(q).stream()),
{
    order::law_sorting_is_unique(text::texts(a.env@), text::texts(b.env@));
    key::lemma_builder_text(a.builder_id);
    key::lemma_builder_text(b.builder_id);
    key::lemma_bytes_from_texts(a.env@, b.env@);
    key::lemma_bytes_from_texts(a.cmdline@, b.cmdline@);
}

/// The target of an object is the name of its file up to the first dot, which may stand
/// anywhere but at the beginning.
pub proof fn law_target_ends_at_the_first_dot(c: char, a: Seq<char>, b: Seq<char>)
    requires
        !a.contains('.'),
    ensures
        file_prefix(seq![c] + a.push('.') + b) == seq![c] + a,
        file_prefix(seq![c] + a) == seq![c] + a,
        file_prefix(Seq::empty()) == Seq::<char>::empty(),
{
    let name = seq![c] + a.push('.') + b;
    assert(name.drop_first() =~= a.push('.') + b);
    assert((seq![c] + a).drop_first() =~= a);
    text::law_text_ends_at_the_character(a, '.', b);
}

/// The two outputs are found together or not at all: both is a hit, that both are absent is a
/// miss, and anything else is an error that names what went wrong.
pub proof fn law_outputs_are_found_together(object: Result<(), Error>, header: Result<(), Error>)
    ensures
        both(object, header) == Ok::<bool, LookupError>(true) <==> object is Ok && header is Ok,
        both(object, header) == Ok::<bool, LookupError>(false) <==> (object matches Err(o)
            && o is NotFound) && (header matches Err(h) && h is NotFound),
        both(object, header) matches Err(e) ==> match e {
            LookupError::Both { object: o, header: h } => object == Err::<(), Error>(o) && header
                == Err::<(), Error>(h),
            LookupError::Header { cause } => object is Ok && header == Err::<(), Error>(cause),
            LookupError::Object { cause } => header is Ok && object == Err::<(), Error>(cause),
        },
{
}

/// A local cache is kept at ten gibibytes.
pub proof fn law_local_cache_is_ten_gibibytes()
    ensures
        MAX_CACHE_SIZE_BYTES == 10 * 1024 * 1024 * 1024,
{
}

/// The text of a failed lookup ends in that of the error which an output gave.
pub proof fn law_failed_lookup_names_its_cause(e: LookupError)
    ensures
        match e {
            LookupError::Both { object, header } => e.cause_text() == object.text()
                && e.context_text() == header.text(),
            LookupError::Header { cause } => e.cause_text() == cause.text() && e.context_text()
                == "Retrieving the object was successful"@,
            LookupError::Object { cause } => e.cause_text() == cause.text() && e.context_text()
                == "Retrieving the header was successful"@,
        },
{
}

/// Each variable of the environment is looked at by itself, in its turn.
pub proof fn law_variables_are_taken_up_one_by_one(
    vars: Seq<(String, String)>,
    name: String,
    value: String,
)
    ensures
        hashed_variables(Seq::empty()) == Seq::<Seq<char>>::empty(),
        hashed_variables(vars.push((name, value))) == if name@.len() >= 6 && name@.take(6)
            == "ZIVID_"@ {
            hashed_variables(vars).push(name@ + "="@ + value@)
        } else {
            hashed_variables(vars)
        },
{
    lemma_hashed_variable(name@);
    assert(vars.push((name, value)).drop_last() =~= vars);
}

} // verus!
