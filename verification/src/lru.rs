//! Eviction of the least recently used entries.
//!
//! A scan takes stock of the files of a store. An eviction pass then removes entries,
//! the oldest first, until the store is small enough.

use crate::address;
use crate::address::Address;
use crate::error::{Error, IoError};
use crate::lager::{Kind, Lager, TEMP_SUFFIX};
use crate::operations::RemoveIfUnused;
use crate::text;
use vstd::prelude::*;
#[allow(unused_imports)]
use vstd::string::StringSliceAdditionalSpecFns;

verus! {

/// Temporary files older than this many nanoseconds are considered abandoned (a
/// writer that was killed mid-upload).
pub const STALE_TEMP_AGE: i128 = 3600000000000;

/// An entry of the store, as a scan found it.
#[derive(Clone, Copy, Debug)]
pub struct Item {
    pub address: Address,
    /// When the entry was last stored or retrieved, in nanoseconds since the epoch.
    pub modified: i128,
    pub size: u64,
}

/// An item with its address as bytes.
pub struct ItemView {
    pub address: Seq<u8>,
    pub modified: i128,
    pub size: u64,
}

impl View for Item {
    type V = ItemView;

    open spec fn view(&self) -> ItemView {
        ItemView { address: self.address@, modified: self.modified, size: self.size }
    }
}

/// Items with their addresses as bytes.
pub open spec fn views(items: Seq<Item>) -> Seq<ItemView> {
    Seq::new(items.len(), |i: int| items[i]@)
}

/// The bytes that items take up together.
pub open spec fn total(items: Seq<ItemView>) -> nat
    decreases items.len(),
{
    if items.len() == 0 {
        0
    } else {
        total(items.drop_last()) + items.last().size as nat
    }
}

/// The place of the oldest item: the first of those that were used least recently.
pub open spec fn is_oldest(items: Seq<Item>, i: int) -> bool {
    &&& 0 <= i < items.len()
    &&& forall|j: int| 0 <= j < items.len() ==> items[i].modified <= (#[trigger] items[j]).modified
    &&& forall|j: int| 0 <= j < i ==> items[i].modified < (#[trigger] items[j]).modified
}

/// An entry removed by an eviction.
#[derive(Clone, Copy, Debug)]
pub struct Evicted {
    pub address: Address,
    /// When the entry was last stored or retrieved, in nanoseconds since the epoch.
    pub last_used: i128,
    pub size: u64,
}

/// What is known of an item once it is removed.
pub open spec fn evicted(item: Item) -> Evicted {
    Evicted { address: item.address, last_used: item.modified, size: item.size }
}

/// A file or directory that a walk of the store came upon.
#[derive(Debug)]
pub struct Listed {
    pub name: String,
    pub is_file: bool,
    pub len: u64,
    pub modified: Result<i128, IoError>,
}

/// Whether a name is that of a temporary file: an unfinished write of some process,
/// which is no part of the cache.
pub open spec fn is_temp_name(name: Seq<char>) -> bool {
    text::occurs(name, TEMP_SUFFIX@)
}

/// The part of the name of an entry that holds its address, as bytes.
pub open spec fn address_text(name: Seq<char>) -> Seq<u8> {
    vstd::utf8::encode_utf8(text::up_to(name, '.'))
}

/// Whether a name begins with an address.
pub open spec fn names_address(name: Seq<char>) -> bool {
    address::is_hex(address_text(name)) && address_text(name).len() == 128
}

impl Listed {
    pub open spec fn is_temp(self) -> bool {
        self.is_file && is_temp_name(self.name@)
    }

    /// Whether this is a temporary file that was left behind.
    pub open spec fn is_stale(self, now: i128) -> bool {
        &&& self.is_temp()
        &&& self.modified matches Ok(m)
        &&& now - m > STALE_TEMP_AGE
    }

    /// Whether this counts toward the size of the store.
    pub open spec fn is_counted(self) -> bool {
        self.is_file && !is_temp_name(self.name@)
    }

    /// Whether a scan can take this up.
    pub open spec fn is_sound(self) -> bool {
        self.is_counted() ==> names_address(self.name@) && self.modified is Ok
    }

    /// The item that a scan makes of this.
    pub open spec fn item(self) -> ItemView {
        ItemView {
            address: address::hex_decoding(address_text(self.name@)),
            modified: self.modified->Ok_0,
            size: self.len,
        }
    }

    /// Whether an error says why a scan cannot take this up: the name is looked at
    /// before the time.
    pub open spec fn refusal(self, e: Error) -> bool {
        let text = address_text(self.name@);
        if !names_address(self.name@) {
            match e {
                Error::InvalidAddress(refusal) => address::hex_refusal(text, refusal),
                Error::Runtime { msg } => address::is_hex(text) && msg@ == address::length_message(
                    (text.len() / 2) as nat,
                ),
                _ => false,
            }
        } else {
            self.modified matches Err(io) && e == Error::Io(io)
        }
    }
}

/// Whether a scan goes on after what a walk yielded.
pub open spec fn goes_on(entry: Result<Listed, Error>) -> bool {
    entry matches Ok(listed) && listed.is_sound()
}

/// How many of what a walk yielded a scan takes up before it ends or fails.
pub open spec fn taken(listing: Seq<Result<Listed, Error>>) -> nat
    decreases listing.len(),
{
    if listing.len() == 0 {
        0
    } else {
        let n = taken(listing.drop_last());
        if n == listing.len() - 1 && goes_on(listing.last()) {
            n + 1
        } else {
            n
        }
    }
}

/// The items that a scan makes of what a walk yielded.
pub open spec fn items_of(listing: Seq<Result<Listed, Error>>) -> Seq<ItemView>
    decreases listing.len(),
{
    if listing.len() == 0 {
        Seq::empty()
    } else {
        let items = items_of(listing.drop_last());
        match listing.last() {
            Ok(listed) if listed.is_counted() => items.push(listed.item()),
            _ => items,
        }
    }
}

/// The places of the temporary files that were left behind.
pub open spec fn stale_of(listing: Seq<Result<Listed, Error>>, now: i128) -> Seq<usize>
    decreases listing.len(),
{
    if listing.len() == 0 {
        Seq::empty()
    } else {
        let places = stale_of(listing.drop_last(), now);
        match listing.last() {
            Ok(listed) if listed.is_stale(now) => places.push((listing.len() - 1) as usize),
            _ => places,
        }
    }
}

/// The bytes of what a scan counts, up to and with what it fails on.
pub open spec fn counted(listing: Seq<Result<Listed, Error>>) -> nat {
    let n = taken(listing) as int;
    total(items_of(listing.take(n))) + if n < listing.len() {
        match listing[n] {
            Ok(listed) if listed.is_counted() => listed.len as nat,
            _ => 0,
        }
    } else {
        0
    }
}

/// A prefix is taken up whole, and what follows it is not, exactly if it is the part
/// that a scan takes up.
pub proof fn lemma_taken(listing: Seq<Result<Listed, Error>>, n: int)
    requires
        0 <= n <= listing.len(),
        forall|i: int| 0 <= i < n ==> goes_on(#[trigger] listing[i]),
        n == listing.len() || !goes_on(listing[n]),
    ensures
        taken(listing) == n,
    decreases listing.len(),
{
    if listing.len() > 0 {
        let init = listing.drop_last();
        if n < listing.len() {
            lemma_taken(init, n);
        } else {
            lemma_taken(init, n - 1);
        }
    }
}

/// What a scan counts covers each part that it takes up.
proof fn lemma_counted(listing: Seq<Result<Listed, Error>>, n: int)
    requires
        0 <= n <= listing.len(),
        forall|i: int| 0 <= i < n ==> goes_on(#[trigger] listing[i]),
    ensures
        total(items_of(listing.take(n))) <= counted(listing),
    decreases listing.len() - n,
{
    if n < listing.len() && goes_on(listing[n]) {
        lemma_counted(listing, n + 1);
        let longer = listing.take(n + 1);
        assert(longer.drop_last() =~= listing.take(n));
        if listing[n] is Ok && listing[n]->Ok_0.is_counted() {
            assert(items_of(longer).drop_last() =~= items_of(listing.take(n)));
        }
    } else {
        lemma_taken(listing, n);
    }
}

/// The stock of a store: what it holds and how many bytes it takes up.
pub struct LRU<R> {
    items: Vec<Item>,
    size: u64,
    lager: Lager<R>,
}

/// What a scan found to be cleared away, and how it ended.
pub struct Scan {
    /// The places, in what the walk yielded, of the abandoned temporary files.
    pub stale: Vec<usize>,
    pub result: Result<(), Error>,
}

/// The place of the oldest item.
fn find_oldest(items: &Vec<Item>) -> (r: Option<usize>)
    ensures
        match r {
            Some(i) => is_oldest(items@, i as int),
            None => items@.len() == 0,
        },
{
    let n: usize = items.len();
    if n == 0 {
        return None;
    }
    let mut oldest: usize = 0;
    for i in 1..n
        invariant
            n == items@.len(),
            is_oldest(items@.take(i as int), oldest as int),
    {
        let ghost before = items@.take(i as int);
        let ghost after = items@.take(i + 1);
        assert forall|j: int| 0 <= j < i implies after[j] == before[j] by {}
        if items[i].modified < items[oldest].modified {
            oldest = i;
            assert(is_oldest(after, i as int));
        } else {
            assert(is_oldest(after, oldest as int));
        }
    }
    assert(items@.take(n as int) =~= items@);
    Some(oldest)
}

impl<R> LRU<R> {
    /// The entries that were not considered for eviction yet.
    pub closed spec fn items(self) -> Seq<Item> {
        self.items@
    }

    /// The bytes that the store takes up, as far as is known.
    pub closed spec fn size(self) -> u64 {
        self.size
    }

    pub closed spec fn lager(self) -> Lager<R> {
        self.lager
    }

    /// The size covers the entries.
    pub open spec fn inv(self) -> bool {
        total(views(self.items())) <= self.size()
    }

    /// An empty stock of a store.
    pub fn new(lager: Lager<R>) -> (lru: Self)
        ensures
            lru.inv(),
            lru.items() == Seq::<Item>::empty(),
            lru.size() == 0,
            lru.lager() == lager,
    {
        LRU { items: Vec::new(), size: 0, lager }
    }

    /// Takes up one thing that a walk of the store came upon. The result tells whether
    /// it is an abandoned temporary file, which is to be removed.
    pub fn visit(&mut self, listed: Listed, now: i128) -> (r: Result<bool, Error>)
        requires
            old(self).inv(),
            listed.is_counted() ==> old(self).size() + listed.len <= u64::MAX,
        ensures
            final(self).inv(),
            final(self).lager() == old(self).lager(),
            final(self).size() == old(self).size() + if listed.is_counted() {
                listed.len as int
            } else {
                0
            },
            r is Ok <==> listed.is_sound(),
            views(final(self).items()) == if listed.is_counted() && listed.is_sound() {
                views(old(self).items()).push(listed.item())
            } else {
                views(old(self).items())
            },
            listed.is_counted() && r is Ok ==> {
                let item = final(self).items().last();
                &&& final(self).items().len() == old(self).items().len() + 1
                &&& listed.modified == Ok::<i128, IoError>(item.modified)
                &&& item.size == listed.len
            },
            match r {
                Ok(stale) => stale == listed.is_stale(now),
                Err(e) => listed.refusal(e),
            },
    {
        if !listed.is_file {
            return Ok(false);
        }
        if text::contains(listed.name.as_str(), TEMP_SUFFIX) {
            let stale = match &listed.modified {
                Ok(m) => now >= i128::MIN + STALE_TEMP_AGE && *m < now - STALE_TEMP_AGE,
                Err(_) => false,
            };
            return Ok(stale);
        }
        self.size = self.size + listed.len;
        let hex = text::before(listed.name.as_str(), '.');
        let address = match Address::from_hex(hex.as_str()) {
            Ok(address) => address,
            Err(e) => return Err(e),
        };
        let modified: i128 = match listed.modified {
            Ok(m) => m,
            Err(e) => return Err(Error::Io(e)),
        };
        let item = Item { address, modified, size: listed.len };
        let ghost before = self.items@;
        self.items.push(item);
        proof {
            let after = views(self.items@);
            assert(after =~= views(before).push(item@));
            assert(after.drop_last() =~= views(before));
        }
        Ok(false)
    }

    /// Takes stock of what a walk of the store yielded. Unfinished writes are passed
    /// over. One that is old enough to be abandoned would otherwise take up space
    /// outside the limit forever: it is reported, to be removed.
    pub fn scan(&mut self, listing: Vec<Result<Listed, Error>>, now: i128) -> (scan: Scan)
        requires
            old(self).inv(),
            old(self).size() + counted(listing@) <= u64::MAX,
        ensures
            final(self).inv(),
            final(self).lager() == old(self).lager(),
            ({
                let n = taken(listing@) as int;
                let whole = listing@.take(n);
                &&& scan.stale@ == stale_of(whole, now)
                &&& views(final(self).items()) == views(old(self).items()) + items_of(whole)
                &&& final(self).size() == old(self).size() + counted(listing@)
                &&& scan.result is Ok <==> n == listing@.len()
                &&& scan.result matches Err(e) ==> match listing@[n] {
                    Err(walk) => e == walk,
                    Ok(listed) => listed.refusal(e),
                }
            }),
    {
        let ghost all = listing@;
        let n: usize = listing.len();
        let ghost start = views(self.items());
        let mut stale: Vec<usize> = Vec::new();
        let mut i: usize = 0;
        for entry in it: listing
            invariant
                it.seq() == all,
                i == it.index(),
                self.inv(),
                self.lager() == old(self).lager(),
                all.len() == n,
                forall|j: int| 0 <= j < i ==> goes_on(#[trigger] all[j]),
                stale@ == stale_of(all.take(i as int), now),
                start == views(old(self).items()),
                views(self.items()) == start + items_of(all.take(i as int)),
                self.size() == old(self).size() + total(items_of(all.take(i as int))),
                old(self).size() + counted(all) <= u64::MAX,
        {
            let ghost part = all.take(i as int);
            let ghost longer = all.take(i + 1);
            assert(longer.drop_last() =~= part);
            match entry {
                Err(e) => {
                    proof {
                        lemma_taken(all, i as int);
                    }
                    return Scan { stale, result: Err(e) };
                },
                Ok(listed) => {
                    proof {
                        if goes_on(all[i as int]) {
                            lemma_counted(all, i + 1);
                        } else {
                            lemma_taken(all, i as int);
                        }
                        if listed.is_counted() {
                            let items = items_of(part).push(listed.item());
                            assert(items.drop_last() =~= items_of(part));
                        }
                    }
                    match self.visit(listed, now) {
                        Ok(abandoned) => {
                            if abandoned {
                                stale.push(i);
                            }
                        },
                        Err(e) => {
                            return Scan { stale, result: Err(e) };
                        },
                    }
                    proof {
                        if listed.is_counted() {
                            assert(start + items_of(longer) =~= (start + items_of(part)).push(
                                listed.item(),
                            ));
                        }
                    }
                },
            }
            i = i + 1;
        }
        proof {
            assert(all.take(all.len() as int) =~= all);
            lemma_taken(all, all.len() as int);
        }
        Scan { stale, result: Ok(()) }
    }

    /// Removes least recently used entries until the store is at most `target_size`
    /// bytes.
    ///
    /// The scan is a snapshot: an entry may have been retrieved (touched) or re-stored
    /// since. Such entries are skipped rather than removed, so eviction never deletes
    /// something that is in active use. They remain counted in the size, since they are
    /// still on disk.
    pub fn evict_until(self, target_size: u64) -> (step: EvictStep<R>)
        requires
            self.inv(),
        ensures
            step.is_next(self.items(), self.size(), self.lager(), target_size, Seq::empty()),
    {
        next_eviction(self, target_size, Vec::new())
    }

    /// The store.
    pub fn store(&self) -> (lager: &Lager<R>)
        ensures
            *lager == self.lager(),
    {
        &self.lager
    }

    /// The bytes that the store takes up.
    pub fn lager_size(&self) -> (size: u64)
        ensures
            size == self.size(),
    {
        self.size
    }

    /// The number of entries that were not considered for eviction yet.
    pub fn entries(&self) -> (n: usize)
        ensures
            n == self.items().len(),
    {
        self.items.len()
    }
}

/// An eviction that waits for one entry to be removed, or to be found in use.
pub struct Eviction<R> {
    lru: LRU<R>,
    target_size: u64,
    evicted: Vec<Evicted>,
    candidate: Item,
}

/// How far an eviction has come.
pub enum EvictStep<R> {
    /// Remove the candidate unless it was used since the scan.
    Remove(Eviction<R>),
    /// The eviction is over: what is left, and what was removed.
    Done { lru: LRU<R>, result: Result<Vec<Evicted>, Error> },
}

impl<R> EvictStep<R> {
    /// Whether this is how an eviction goes on with some items, a size and what was
    /// removed so far: the oldest item is next, unless the size is down to the target
    /// or no item is left.
    pub open spec fn is_next(
        self,
        items: Seq<Item>,
        size: u64,
        lager: Lager<R>,
        target: u64,
        removed: Seq<Evicted>,
    ) -> bool {
        match self {
            EvictStep::Remove(e) => {
                &&& size > target
                &&& exists|i: int| #[trigger]
                    is_oldest(items, i) && e.candidate() == items[i] && e.items() == items.remove(i)
                &&& e.inv()
                &&& e.size() == size
                &&& e.lager() == lager
                &&& e.target() == target
                &&& e.removed() == removed
            },
            EvictStep::Done { lru, result } => {
                &&& size <= target || items.len() == 0
                &&& lru.inv()
                &&& lru.items() == items
                &&& lru.size() == size
                &&& lru.lager() == lager
                &&& result matches Ok(all) && all@ == removed
            },
        }
    }
}

/// Taking an item out takes its bytes out.
pub proof fn lemma_total_remove(items: Seq<Item>, i: int)
    requires
        0 <= i < items.len(),
    ensures
        total(views(items)) == total(views(items.remove(i))) + items[i].size,
    decreases items.len(),
{
    let all = views(items);
    let rest = views(items.remove(i));
    assert(all.drop_last() =~= views(items.drop_last()));
    if i == items.len() - 1 {
        assert(rest =~= all.drop_last());
    } else {
        lemma_total_remove(items.drop_last(), i);
        assert(rest.drop_last() =~= views(items.drop_last().remove(i)));
        assert(rest.last() == all.last());
    }
}

fn next_eviction<R>(lru: LRU<R>, target_size: u64, evicted: Vec<Evicted>) -> (step: EvictStep<R>)
    requires
        lru.inv(),
    ensures
        step.is_next(lru.items(), lru.size(), lru.lager(), target_size, evicted@),
{
    if lru.size <= target_size {
        return EvictStep::Done { lru, result: Ok(evicted) };
    }
    match find_oldest(&lru.items) {
        None => EvictStep::Done { lru, result: Ok(evicted) },
        Some(i) => {
            let mut lru = lru;
            proof {
                lemma_total_remove(lru.items@, i as int);
            }
            let ghost items = lru.items@;
            let candidate = lru.items.remove(i);
            assert(is_oldest(items, i as int));
            EvictStep::Remove(Eviction { lru, target_size, evicted, candidate })
        },
    }
}

impl<R> Eviction<R> {
    /// The items that follow the candidate.
    pub closed spec fn items(self) -> Seq<Item> {
        self.lru.items()
    }

    pub closed spec fn size(self) -> u64 {
        self.lru.size()
    }

    pub closed spec fn lager(self) -> Lager<R> {
        self.lru.lager()
    }

    pub closed spec fn target(self) -> u64 {
        self.target_size
    }

    /// What was removed so far.
    pub closed spec fn removed(self) -> Seq<Evicted> {
        self.evicted@
    }

    /// The entry that is to be removed.
    pub closed spec fn candidate(self) -> Item {
        self.candidate
    }

    /// The size covers the candidate and the items that follow it.
    pub open spec fn inv(self) -> bool {
        total(views(self.items())) + self.candidate().size <= self.size()
    }

    /// The store.
    pub fn store(&self) -> (lager: &Lager<R>)
        ensures
            *lager == self.lager(),
    {
        &self.lru.lager
    }

    /// The removal of the candidate, unless it was used since the scan.
    pub fn removal(&self) -> (op: RemoveIfUnused)
        ensures
            op == removal_of(self.candidate()),
    {
        self.lru.lager.remove_if_unused_since(&self.candidate.address, self.candidate.modified)
    }

    /// Goes on once it is known whether the candidate was removed. One that was used
    /// since the scan stays, and stays counted. An error ends the eviction.
    pub fn resume(self, removed: Result<bool, Error>) -> (step: EvictStep<R>)
        requires
            self.inv(),
        ensures
            match removed {
                Ok(true) => step.is_next(
                    self.items(),
                    (self.size() - self.candidate().size) as u64,
                    self.lager(),
                    self.target(),
                    self.removed().push(evicted(self.candidate())),
                ),
                Ok(false) => step.is_next(
                    self.items(),
                    self.size(),
                    self.lager(),
                    self.target(),
                    self.removed(),
                ),
                Err(e) => step matches EvictStep::Done { lru, result } && {
                    &&& lru.inv()
                    &&& lru.items() == self.items()
                    &&& lru.size() == self.size()
                    &&& lru.lager() == self.lager()
                    &&& result == Err::<Vec<Evicted>, Error>(e)
                },
            },
    {
        let Eviction { mut lru, target_size, mut evicted, candidate } = self;
        match removed {
            Err(e) => EvictStep::Done { lru, result: Err(e) },
            Ok(gone) => {
                if gone {
                    lru.size = lru.size - candidate.size;
                    evicted.push(
                        Evicted {
                            address: candidate.address,
                            last_used: candidate.modified,
                            size: candidate.size,
                        },
                    );
                }
                next_eviction(lru, target_size, evicted)
            },
        }
    }
}

/// The operation that removes an item unless it was used since the scan.
pub open spec fn removal_of(item: Item) -> RemoveIfUnused {
    RemoveIfUnused {
        address: item.address,
        since: item.modified,
        kind: Kind::File,
        unused: false,
    }
}

/// An item carries what the walk reported of its entry: the time of its last use, whenever
/// that was, and its length.
pub proof fn law_item_is_as_listed(listed: Listed, m: i128)
    requires
        listed.modified == Ok::<i128, IoError>(m),
    ensures
        listed.item().modified == m,
        listed.item().size == listed.len,
{
}

/// A temporary file is abandoned exactly if it was last written more than an hour ago, and
/// nothing else is.
pub proof fn law_abandoned_files_are_old(listed: Listed, now: i128)
    ensures
        listed.is_stale(now) <==> {
            &&& listed.is_file
            &&& text::occurs(listed.name@, TEMP_SUFFIX@)
            &&& listed.modified matches Ok(m) && now > m + 3600 * 1000000000
        },
        listed.is_stale(now) ==> !listed.is_counted(),
{
}

/// A directory counts for nothing and stops no scan. A file counts unless it is temporary.
pub proof fn law_files_count(listed: Listed)
    ensures
        !listed.is_file ==> !listed.is_counted() && listed.is_sound(),
        listed.is_file ==> (listed.is_counted() <==> !text::occurs(listed.name@, TEMP_SUFFIX@)),
        !listed.is_counted() ==> listed.is_sound(),
        listed.is_counted() && listed.modified is Err ==> !listed.is_sound(),
{
}

/// A scan takes up what a walk yielded until it fails: all that comes before, and nothing from
/// there on.
pub proof fn law_scan_stops_where_it_fails(listing: Seq<Result<Listed, Error>>, i: int)
    requires
        0 <= i < listing.len(),
    ensures
        taken(listing) <= listing.len(),
        i < taken(listing) ==> (listing[i] matches Ok(listed) && listed.is_sound()),
        i == taken(listing) ==> !(listing[i] matches Ok(listed) && listed.is_sound()),
    decreases listing.len(),
{
    let init = listing.drop_last();
    if i < init.len() {
        law_scan_stops_where_it_fails(init, i);
        assert(init[i] == listing[i]);
    }
    if init.len() > 0 {
        law_scan_stops_where_it_fails(init, 0);
    }
}

/// The items of a listing are those of its files that count, in the order of the walk.
pub proof fn law_items_are_those_listed(
    listing: Seq<Result<Listed, Error>>,
    next: Result<Listed, Error>,
)
    ensures
        items_of(Seq::empty()) == Seq::<ItemView>::empty(),
        items_of(listing.push(next)) == match next {
            Ok(listed) => if listed.is_counted() {
                items_of(listing).push(listed.item())
            } else {
                items_of(listing)
            },
            Err(_) => items_of(listing),
        },
{
    assert(listing.push(next).drop_last() =~= listing);
}

/// What is reported for removal is the places of the abandoned files, each once and in order.
pub proof fn law_abandoned_files_are_reported(
    listing: Seq<Result<Listed, Error>>,
    now: i128,
    i: int,
)
    requires
        listing.len() <= usize::MAX,
        0 <= i < listing.len(),
    ensures
        stale_of(listing, now).contains(i as usize) <==> (listing[i] matches Ok(listed)
            && listed.is_stale(now)),
        forall|j: int|
            0 <= j < stale_of(listing, now).len() ==> (#[trigger] stale_of(listing, now)[j])
                < listing.len(),
        forall|j: int, l: int|
            0 <= j < l < stale_of(listing, now).len() ==> (#[trigger] stale_of(listing, now)[j])
                < (#[trigger] stale_of(listing, now)[l]),
    decreases listing.len(),
{
    let n = listing.len() - 1;
    let init = listing.drop_last();
    let before = stale_of(init, now);
    let all = stale_of(listing, now);
    lemma_stale_ascend(init, now);
    lemma_stale_ascend(listing, now);
    if i < n {
        law_abandoned_files_are_reported(init, now, i);
        assert(init[i] == listing[i]);
        if before.contains(i as usize) {
            let j = before.index_of(i as usize);
            assert(all[j] == i as usize);
        }
        if all.contains(i as usize) {
            let j = all.index_of(i as usize);
            assert(j < before.len());
            assert(before[j] == i as usize);
        }
    } else {
        if listing[i] is Ok && listing[i]->Ok_0.is_stale(now) {
            assert(all[before.len() as int] == i as usize);
        }
        if all.contains(i as usize) {
            let j = all.index_of(i as usize);
            if j < before.len() {
                assert(before[j] < init.len());
            }
        }
    }
}

proof fn lemma_stale_ascend(listing: Seq<Result<Listed, Error>>, now: i128)
    requires
        listing.len() <= usize::MAX,
    ensures
        forall|j: int|
            0 <= j < stale_of(listing, now).len() ==> (#[trigger] stale_of(listing, now)[j])
                < listing.len(),
        forall|j: int, l: int|
            0 <= j < l < stale_of(listing, now).len() ==> (#[trigger] stale_of(listing, now)[j])
                < (#[trigger] stale_of(listing, now)[l]),
    decreases listing.len(),
{
    if listing.len() > 0 {
        let init = listing.drop_last();
        let before = stale_of(init, now);
        let all = stale_of(listing, now);
        lemma_stale_ascend(init, now);
        assert forall|j: int| 0 <= j < before.len() implies all[j] == #[trigger] before[j] by {}
        assert forall|j: int| before.len() <= j < all.len() implies #[trigger] all[j]
            == listing.len() - 1 by {}
        assert forall|j: int| 0 <= j < all.len() implies (#[trigger] all[j]) < listing.len() by {
            if j < before.len() {
                assert(before[j] < init.len());
            }
        }
        assert forall|j: int, l: int| 0 <= j < l < all.len() implies (#[trigger] all[j]) < (
        #[trigger] all[l]) by {
            assert(before[j] < init.len());
            if l < before.len() {
                assert(before[j] < before[l]);
            }
        }
    }
}

/// The size of items is that of each added up.
pub proof fn law_sizes_add_up(items: Seq<ItemView>, item: ItemView)
    ensures
        total(Seq::empty()) == 0,
        total(items.push(item)) == total(items) + item.size,
{
    assert(items.push(item).drop_last() =~= items);
}

/// A scan that fails counts no more than what it took up and what it failed on, and one that
/// does not fail counts what it took up.
pub proof fn law_counted_is_what_was_taken_up(listing: Seq<Result<Listed, Error>>)
    ensures
        taken(listing) == listing.len() ==> counted(listing) == total(items_of(listing)),
        taken(listing) < listing.len() ==> counted(listing) == total(
            items_of(listing.take(taken(listing) as int)),
        ) + match listing[taken(listing) as int] {
            Ok(listed) => if listed.is_counted() {
                listed.len as nat
            } else {
                0
            },
            Err(_) => 0,
        },
{
    assert(listing.take(listing.len() as int) =~= listing);
}

/// What is reported of a removed entry, and asked of its removal, is what the scan found: its
/// address, when it was last used, and its size.
pub proof fn law_removal_is_of_the_item(item: Item)
    ensures
        removal_of(item).address == item.address,
        removal_of(item).since == item.modified,
        removal_of(item).kind == Kind::File,
        !removal_of(item).unused,
        evicted(item).address == item.address,
        evicted(item).last_used == item.modified,
        evicted(item).size == item.size,
{
}

/// The items of a stock are viewed as they are, one for one.
pub proof fn law_views_are_those_of_the_items(items: Seq<Item>, i: int)
    requires
        0 <= i < items.len(),
    ensures
        views(items).len() == items.len(),
        views(items)[i].address == items[i].address@,
        views(items)[i].modified == items[i].modified,
        views(items)[i].size == items[i].size,
{
}

/// A file is named by an address if what stands before the first dot of its name is an address
/// in hexadecimal, whatever follows.
pub proof fn law_names_begin_with_addresses(t: Seq<char>, rest: Seq<char>)
    requires
        !t.contains('.'),
    ensures
        ({
            let bytes = vstd::utf8::encode_utf8(t);
            let named = address::is_hex(bytes) && bytes.len() == 128;
            &&& names_address(t.push('.') + rest) <==> named
            &&& names_address(t) <==> named
            &&& address_text(t.push('.') + rest) == bytes
        }),
{
    text::law_text_ends_at_the_character(t, '.', rest);
}

/// What stops a scan is said: a name that is no address, or why the time of the last use is
/// not known, which is looked at last.
pub proof fn law_refusal_says_why(listed: Listed, e: Error)
    requires
        listed.is_counted(),
        listed.refusal(e),
    ensures
        names_address(listed.name@) ==> (listed.modified matches Err(io) && e == Error::Io(io)),
        !names_address(listed.name@) ==> e is InvalidAddress || e is Runtime,
        e is InvalidAddress ==> !address::is_hex(address_text(listed.name@)),
        e is Runtime ==> address::is_hex(address_text(listed.name@)) && address_text(
            listed.name@,
        ).len() != 128,
        !listed.is_sound(),
{
    if let Error::InvalidAddress(refusal) = e {
        address::law_refusals_are_justified(address_text(listed.name@), refusal);
    }
}

/// A step of an eviction keeps what it does not change: the target, the store, the size and
/// what was removed so far. It goes on exactly if the size is above the target and an item is
/// left, with an item that was used no later than any other.
pub proof fn law_steps_keep_what_they_do_not_change<R>(
    step: EvictStep<R>,
    items: Seq<Item>,
    size: u64,
    lager: Lager<R>,
    target: u64,
    removed: Seq<Evicted>,
)
    requires
        step.is_next(items, size, lager, target, removed),
    ensures
        step is Remove <==> size > target && items.len() > 0,
        step matches EvictStep::Remove(e) ==> {
            &&& e.target() == target
            &&& e.lager() == lager
            &&& e.size() == size
            &&& e.removed() == removed
            &&& items.contains(e.candidate())
            &&& e.items().len() == items.len() - 1
            &&& forall|i: int|
                0 <= i < items.len() ==> e.candidate().modified <= (#[trigger] items[i]).modified
            &&& forall|i: int|
                0 <= i < e.items().len() ==> items.contains(#[trigger] e.items()[i])
        },
        step matches EvictStep::Done { lru, result } ==> {
            &&& lru.items() == items
            &&& lru.size() == size
            &&& lru.lager() == lager
            &&& result matches Ok(all) && all@ == removed
        },
{
    if let EvictStep::Remove(e) = step {
        let i = choose|i: int| #[trigger]
            is_oldest(items, i) && e.candidate() == items[i] && e.items() == items.remove(i);
        assert(items.contains(items[i]));
        assert forall|j: int| 0 <= j < e.items().len() implies items.contains(
            #[trigger] e.items()[j],
        ) by {
            assert(e.items()[j] == items[if j < i {
                j
            } else {
                j + 1
            }]);
        }
    }
}

/// The size of a stock covers its items, and while one of them is to be removed that one too.
pub proof fn law_size_covers_the_items<R>(lru: LRU<R>, e: Eviction<R>)
    ensures
        lru.inv() ==> total(views(lru.items())) <= lru.size(),
        e.inv() ==> total(views(e.items())) + e.candidate().size <= e.size(),
{
}

} // verus!
