//! The store: where entries stand below its root, and what each operation asks
//! of the file system.
//!
//! An operation is a machine. It says which request it makes, and from the reply
//! it goes on to the next request or ends with its result. Whoever owns the
//! files performs the requests.

use crate::address::Address;
use crate::error::{Error, IoError};
use crate::operations::{
    OpenRaw, Remove, RemoveIfUnused, Retrieve, StoreAt, StoreAtStage, StoreRaw, StoreRawStage,
};
use crate::address;
use crate::text;
use crate::text::{str_equal, to_chars, write_decimal};
use vstd::prelude::*;

verus! {

/// How many directories stand between the root and an entry.
pub const SHARDING_LEVELS: usize = 2;

/// Suffix of in-progress writes; ignored by lookups and by the LRU scan.
pub const TEMP_SUFFIX: &'static str = ".tmp";

/// What a stored blob decompresses to.
#[derive(Clone, Copy, Debug, PartialEq, Eq, Structural)]
pub enum Kind {
    /// A zstd compressed single file.
    File,
    /// A zstd compressed tar archive of a directory.
    Dir,
}

impl Kind {
    /// The name of the kind.
    pub open spec fn name(self) -> Seq<char> {
        match self {
            Kind::File => "file"@,
            Kind::Dir => "dir"@,
        }
    }

    /// The kind with a name, if there is one.
    pub open spec fn named(s: Seq<char>) -> Option<Kind> {
        if s == Kind::File.name() {
            Some(Kind::File)
        } else if s == Kind::Dir.name() {
            Some(Kind::Dir)
        } else {
            None
        }
    }

    /// The extension of the file names of entries of the kind.
    pub open spec fn extension_text(self) -> Seq<char> {
        match self {
            Kind::File => "zst"@,
            Kind::Dir => "tar.zst"@,
        }
    }

    /// What ends the file names of entries of the kind.
    pub open spec fn suffix(self) -> Seq<char> {
        "."@ + self.extension_text()
    }

    /// The kind that this one is not.
    pub open spec fn other_kind(self) -> Kind {
        match self {
            Kind::File => Kind::Dir,
            Kind::Dir => Kind::File,
        }
    }

    /// The name of the kind, for headers.
    pub fn as_str(&self) -> (s: &'static str)
        ensures
            s@ == self.name(),
    {
        match self {
            Kind::File => "file",
            Kind::Dir => "dir",
        }
    }

    /// Reads the name of a kind.
    pub fn parse(s: &str) -> (r: Option<Kind>)
        ensures
            r == Kind::named(s@),
    {
        if str_equal(s, "file") {
            Some(Kind::File)
        } else if str_equal(s, "dir") {
            Some(Kind::Dir)
        } else {
            None
        }
    }

    /// The extension for file names.
    pub fn extension(&self) -> (s: &'static str)
        ensures
            s@ == self.extension_text(),
    {
        match self {
            Kind::File => "zst",
            Kind::Dir => "tar.zst",
        }
    }

    /// The kind that this one is not.
    pub fn other(&self) -> (k: Kind)
        ensures
            k == self.other_kind(),
    {
        match self {
            Kind::File => Kind::Dir,
            Kind::Dir => Kind::File,
        }
    }
}

/// The name of a kind reads back as the kind.
pub proof fn law_kind_round_trip(kind: Kind)
    ensures
        Kind::named(kind.name()) == Some(kind),
{
    reveal_strlit("file");
    reveal_strlit("dir");
    assert("file"@.len() != "dir"@.len());
}

/// A name is that of one kind or of none, and the kinds go by the names `file` and `dir`.
pub proof fn law_names_are_those_of_kinds(s: Seq<char>, kind: Kind)
    ensures
        Kind::named(s) == Some(kind) <==> s == kind.name(),
        Kind::named(s) is None <==> s != "file"@ && s != "dir"@,
        Kind::named("file"@) == Some(Kind::File),
        Kind::named("dir"@) == Some(Kind::Dir),
{
    reveal_strlit("file");
    reveal_strlit("dir");
    assert("file"@.len() != "dir"@.len());
}

/// The other kind is not the kind, and its other one is the kind again.
pub proof fn law_other_kind_is_the_other(kind: Kind)
    ensures
        kind.other_kind() != kind,
        kind.other_kind().other_kind() == kind,
{
}

/// Files end in `.zst` and directories in `.tar.zst`.
pub proof fn law_suffixes_tell_kinds_apart(kind: Kind)
    ensures
        kind.suffix()[0] == '.',
        kind.suffix() != kind.other_kind().suffix(),
        Kind::Dir.suffix() == ".tar"@ + Kind::File.suffix(),
        Kind::File.suffix() == ".zst"@,
{
    reveal_strlit(".");
    reveal_strlit("zst");
    reveal_strlit("tar.zst");
    reveal_strlit(".tar");
    reveal_strlit(".zst");
    assert(Kind::Dir.suffix() =~= ".tar"@ + Kind::File.suffix());
    assert(Kind::File.suffix() =~= ".zst"@);
    assert(Kind::File.suffix().len() != Kind::Dir.suffix().len());
}

/// The path components for a hexadecimal address: the first pairs of digits, one
/// for each level, then the whole.
pub open spec fn shard_components(hex: Seq<char>, levels: nat) -> Seq<Seq<char>> {
    Seq::new(levels, |i: int| hex.subrange(2 * i, 2 * i + 2)).push(hex)
}

/// The components of an entry's path below the root.
pub open spec fn entry_components(address: Seq<u8>, kind: Kind) -> Seq<Seq<char>> {
    let hex = address::hex_encoding(address);
    shard_components(hex, 2).update(2, hex + kind.suffix())
}

/// What a temporary file adds to the name of the entry that it becomes.
pub open spec fn temp_suffix(pid: u32, seq: u64) -> Seq<char> {
    TEMP_SUFFIX@ + "-"@ + text::decimal(pid as nat) + "-"@ + text::decimal(seq as nat)
}

/// The components of a temporary file's path below the root.
pub open spec fn temp_components(address: Seq<u8>, kind: Kind, pid: u32, seq: u64) -> Seq<
    Seq<char>,
> {
    let hex = address::hex_encoding(address);
    shard_components(hex, 2).update(2, hex + kind.suffix() + temp_suffix(pid, seq))
}

/// The path components for an address, sharded over some levels of directories.
pub fn shard_path(address: &Address, levels: usize) -> (path: Vec<String>)
    requires
        levels <= 64,
    ensures
        text::texts(path@) == shard_components(address.hex(), levels as nat),
{
    broadcast use {crate::address::lemma_address_length, crate::text::lemma_texts_push};

    let hex = address.to_hex();
    let digits = to_chars(hex.as_str());
    let mut path: Vec<String> = Vec::new();
    for i in 0..levels
        invariant
            levels <= 64,
            digits@ == address.hex(),
            digits@.len() == 128,
            text::texts(path@) == Seq::new(
                i as nat,
                |j: int| address.hex().subrange(2 * j, 2 * j + 2),
            ),
    {
        let mut shard = String::new();
        shard.push(digits[2 * i]);
        shard.push(digits[2 * i + 1]);
        assert(shard@ =~= address.hex().subrange(2 * i as int, 2 * i + 2));
        let ghost piece = shard@;
        let ghost before = path@;
        path.push(shard);
        assert(text::texts(path@) == text::texts(before).push(piece));
        assert(text::texts(path@) =~= Seq::new(
            (i + 1) as nat,
            |j: int| address.hex().subrange(2 * j, 2 * j + 2),
        ));
    }
    path.push(hex);
    assert(text::texts(path@) =~= shard_components(address.hex(), levels as nat));
    path
}

fn entry_name(address: &Address, kind: Kind) -> (name: String)
    ensures
        name@ == address.hex() + kind.suffix(),
{
    let mut name = address.to_hex();
    name.append(".");
    name.append(kind.extension());
    assert(name@ =~= address.hex() + kind.suffix());
    name
}

/// The directory that holds the entries of an address.
pub fn parent_path(address: &Address) -> (path: Vec<String>)
    ensures
        text::texts(path@) == shard_components(address.hex(), 2).take(2),
{
    let mut path = shard_path(address, SHARDING_LEVELS);
    let ghost whole = path@;
    assert(text::texts(whole).len() == 3);
    let _ = path.pop();
    assert(text::texts(path@) =~= text::texts(whole).take(2));
    path
}

/// The path of the entry of a kind at an address.
pub fn entry_path(address: &Address, kind: Kind) -> (path: Vec<String>)
    ensures
        text::texts(path@) == entry_components(address@, kind),
{
    broadcast use crate::text::lemma_texts_push;

    let mut path = parent_path(address);
    path.push(entry_name(address, kind));
    assert(text::texts(path@) =~= entry_components(address@, kind));
    path
}

/// The path of a temporary file for the entry of a kind at an address. The
/// process and the number of the write make it unique.
pub fn temp_path(address: &Address, kind: Kind, pid: u32, seq: u64) -> (path: Vec<String>)
    ensures
        text::texts(path@) == temp_components(address@, kind, pid, seq),
{
    broadcast use crate::text::lemma_texts_push;

    let mut path = parent_path(address);
    let mut name = entry_name(address, kind);
    name.append(TEMP_SUFFIX);
    name.append("-");
    name.append(write_decimal(pid as u64).as_str());
    name.append("-");
    name.append(write_decimal(seq).as_str());
    assert(name@ =~= address.hex() + kind.suffix() + temp_suffix(pid, seq));
    path.push(name);
    assert(text::texts(path@) =~= temp_components(address@, kind, pid, seq));
    path
}

/// A store below a root directory. The root is opaque: paths are given as
/// components below it.
#[derive(Clone, Debug)]
pub struct Lager<R> {
    root: R,
}

impl<R> Lager<R> {
    /// The directory that the store stands in.
    pub closed spec fn root(self) -> R {
        self.root
    }

    /// The store below a directory, which is given by its canonical path or by why
    /// it has none.
    pub fn new(canonical: Result<R, IoError>) -> (r: Result<Self, Error>)
        ensures
            match canonical {
                Ok(root) => r matches Ok(lager) && lager.root() == root,
                Err(e) => r == Err::<Self, Error>(Error::Io(e)),
            },
    {
        match canonical {
            Ok(root) => Ok(Lager { root }),
            Err(e) => Err(Error::Io(e)),
        }
    }

    /// The root of the store.
    pub fn dir(&self) -> (root: &R)
        ensures
            *root == self.root(),
    {
        &self.root
    }

    /// Stores the file or directory at a source path. The process and a number that it has
    /// not used before name the temporary file.
    pub fn store_at(&self, address: &Address, source: String, pid: u32, seq: u64) -> (op: StoreAt)
        ensures
            op == (StoreAt {
                address: *address,
                source,
                pid,
                seq,
                stage: StoreAtStage::MakeDirs,
            }),
    {
        StoreAt { address: *address, source, pid, seq, stage: StoreAtStage::MakeDirs }
    }

    /// Extracts the entry of an address to a destination path.
    pub fn retrieve(&self, address: &Address) -> (op: Retrieve)
        ensures
            op == Retrieve::Opening(
                OpenRaw { address: *address, kind: Kind::File, opened: false },
            ),
    {
        Retrieve::Opening(self.open_raw(address))
    }

    /// Opens the stored, still compressed, blob for an address and marks it as
    /// recently used. Used to move blobs between lagers without recompressing.
    pub fn open_raw(&self, address: &Address) -> (op: OpenRaw)
        ensures
            op == (OpenRaw { address: *address, kind: Kind::File, opened: false }),
    {
        OpenRaw { address: *address, kind: Kind::File, opened: false }
    }

    /// Stores an already compressed blob, as `open_raw` on another lager gives it.
    /// The process and a number that it has not used before name the temporary
    /// file.
    pub fn store_raw(&self, address: &Address, kind: Kind, pid: u32, seq: u64) -> (op: StoreRaw)
        ensures
            op == (StoreRaw {
                address: *address,
                kind,
                pid,
                seq,
                stage: StoreRawStage::MakeDirs,
            }),
    {
        StoreRaw { address: *address, kind, pid, seq, stage: StoreRawStage::MakeDirs }
    }

    /// Removes the entry, whatever its kind. Removing an absent entry is not an error.
    pub fn remove(&self, address: &Address) -> (op: Remove)
        ensures
            op == (Remove { address: *address, kind: Kind::File }),
    {
        Remove { address: *address, kind: Kind::File }
    }

    /// Removes the entry unless it was stored or retrieved after a time.
    pub fn remove_if_unused_since(&self, address: &Address, since: i128) -> (op: RemoveIfUnused)
        ensures
            op == (RemoveIfUnused { address: *address, since, kind: Kind::File, unused: false }),
    {
        RemoveIfUnused { address: *address, since, kind: Kind::File, unused: false }
    }
}

/// An entry stands below two directories, which are named by the first four digits of its
/// address, two each. Its own name is the whole address with the suffix of its kind.
pub proof fn law_entries_stand_in_shards(address: Seq<u8>, kind: Kind)
    requires
        address.len() >= 2,
    ensures
        ({
            let hex = address::hex_encoding(address);
            let path = entry_components(address, kind);
            &&& path.len() == 3
            &&& path[0].len() == 2 && path[1].len() == 2
            &&& path[0] + path[1] == hex.take(4)
            &&& path[2] == hex + kind.suffix()
        }),
{
    let hex = address::hex_encoding(address);
    let path = entry_components(address, kind);
    assert(path[0] == hex.subrange(0, 2));
    assert(path[1] == hex.subrange(2, 4));
    assert(path[0] + path[1] =~= hex.take(4));
}

/// The path of an address over any number of levels: each directory is named by the next two
/// digits, and the whole comes last.
pub proof fn law_shards_spell_the_address(hex: Seq<char>, levels: nat, i: int)
    requires
        2 * levels <= hex.len(),
        0 <= i < levels,
    ensures
        shard_components(hex, levels).len() == levels + 1,
        shard_components(hex, levels)[i].len() == 2,
        shard_components(hex, levels)[i][0] == hex[2 * i],
        shard_components(hex, levels)[i][1] == hex[2 * i + 1],
        shard_components(hex, levels).last() == hex,
{
}

/// A temporary file stands in the directory of the entry that it becomes, under the name of
/// the entry with the process and the number of the write behind it.
pub proof fn law_temp_stands_beside_its_entry(address: Seq<u8>, kind: Kind, pid: u32, seq: u64)
    requires
        address.len() >= 2,
    ensures
        ({
            let entry = entry_components(address, kind);
            let temp = temp_components(address, kind, pid, seq);
            &&& temp.len() == 3
            &&& temp[0] == entry[0] && temp[1] == entry[1]
            &&& temp[2] == entry[2] + ".tmp-"@ + text::decimal(pid as nat) + "-"@ + text::decimal(
                seq as nat,
            )
        }),
{
    reveal_strlit(".tmp");
    reveal_strlit("-");
    reveal_strlit(".tmp-");
    let entry = entry_components(address, kind);
    let temp = temp_components(address, kind, pid, seq);
    assert(TEMP_SUFFIX@ + "-"@ =~= ".tmp-"@);
    assert(temp[2] =~= entry[2] + ".tmp-"@ + text::decimal(pid as nat) + "-"@ + text::decimal(
        seq as nat,
    ));
}

} // verus!
