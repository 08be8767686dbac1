//! The table of clients.

use crate::metrics::Event;
use vstd::prelude::*;

verus! {

/// How many clients are kept track of.
pub const MAX_CLIENTS: usize = 4096;

/// A client, for the client table.
#[derive(Debug)]
pub struct Client {
    /// The source address.
    pub ip: String,
    pub hostname: Option<String>,
}

/// What is known of a client.
#[derive(Debug)]
pub struct ClientStats {
    pub ip: String,
    pub hostname: Option<String>,
    pub hits: u64,
    pub misses: u64,
    pub uploads: u64,
    pub unauthorized: u64,
    /// Bytes sent to and received from the client.
    pub bytes: u64,
    /// In seconds since the epoch.
    pub first_seen: u64,
    pub last_seen: u64,
}

/// What is known of a client, but its address.
pub struct ClientView {
    pub hostname: Option<Seq<char>>,
    pub hits: u64,
    pub misses: u64,
    pub uploads: u64,
    pub unauthorized: u64,
    pub bytes: u64,
    pub first_seen: u64,
    pub last_seen: u64,
}

/// The text of an optional string.
pub open spec fn optional_text(s: Option<String>) -> Option<Seq<char>> {
    match s {
        Some(t) => Some(t@),
        None => None,
    }
}

impl View for ClientStats {
    type V = ClientView;

    open spec fn view(&self) -> ClientView {
        ClientView {
            hostname: optional_text(self.hostname),
            hits: self.hits,
            misses: self.misses,
            uploads: self.uploads,
            unauthorized: self.unauthorized,
            bytes: self.bytes,
            first_seen: self.first_seen,
            last_seen: self.last_seen,
        }
    }
}

impl ClientView {
    /// A client at its first request.
    pub open spec fn fresh(now: u64) -> ClientView {
        ClientView {
            hostname: None,
            hits: 0,
            misses: 0,
            uploads: 0,
            unauthorized: 0,
            bytes: 0,
            first_seen: now,
            last_seen: now,
        }
    }

    /// The client after a request. It goes by the hostname that it gave last.
    pub open spec fn after(
        self,
        hostname: Option<Seq<char>>,
        event: Event,
        bytes: u64,
        now: u64,
    ) -> ClientView {
        let seen = ClientView {
            hostname: if hostname is Some {
                hostname
            } else {
                self.hostname
            },
            last_seen: now,
            ..self
        };
        match event {
            Event::Hit => ClientView {
                hits: self.hits.wrapping_add(1),
                bytes: self.bytes.wrapping_add(bytes),
                ..seen
            },
            Event::Miss => ClientView { misses: self.misses.wrapping_add(1), ..seen },
            Event::Upload => ClientView {
                uploads: self.uploads.wrapping_add(1),
                bytes: self.bytes.wrapping_add(bytes),
                ..seen
            },
            Event::Duplicate => ClientView { bytes: self.bytes.wrapping_add(bytes), ..seen },
            Event::Unauthorized => ClientView {
                unauthorized: self.unauthorized.wrapping_add(1),
                ..seen
            },
        }
    }
}

impl ClientStats {
    /// Takes up a request.
    pub fn note(&mut self, client: &Client, event: Event, bytes: u64, now: u64)
        ensures
            final(self).ip == old(self).ip,
            final(self)@ == old(self)@.after(optional_text(client.hostname), event, bytes, now),
    {
        match &client.hostname {
            Some(name) => {
                self.hostname = Some(name.clone());
            },
            None => {},
        }
        self.last_seen = now;
        match event {
            Event::Hit => {
                self.hits = self.hits.wrapping_add(1);
                self.bytes = self.bytes.wrapping_add(bytes);
            },
            Event::Miss => {
                self.misses = self.misses.wrapping_add(1);
            },
            Event::Upload => {
                self.uploads = self.uploads.wrapping_add(1);
                self.bytes = self.bytes.wrapping_add(bytes);
            },
            Event::Duplicate => {
                self.bytes = self.bytes.wrapping_add(bytes);
            },
            Event::Unauthorized => {
                self.unauthorized = self.unauthorized.wrapping_add(1);
            },
        }
    }
}

/// The table of clients by their addresses.
pub open spec fn table(clients: Seq<ClientStats>) -> Map<Seq<char>, ClientView>
    decreases clients.len(),
{
    if clients.len() == 0 {
        Map::empty()
    } else {
        table(clients.drop_last()).insert(clients.last().ip@, clients.last()@)
    }
}

/// The addresses of clients, in order.
pub open spec fn addresses(clients: Seq<ClientStats>) -> Seq<Seq<char>> {
    Seq::new(clients.len(), |i: int| clients[i].ip@)
}

/// Whether no two clients share an address.
pub open spec fn are_distinct(clients: Seq<ClientStats>) -> bool {
    forall|i: int, j: int|
        0 <= i < j < clients.len() ==> (#[trigger] clients[i]).ip@ != (#[trigger] clients[j]).ip@
}

/// The table holds the clients and no others.
pub proof fn lemma_table(clients: Seq<ClientStats>)
    requires
        are_distinct(clients),
    ensures
        forall|i: int|
            0 <= i < clients.len() ==> table(clients).contains_key((#[trigger] clients[i]).ip@)
                && table(clients)[clients[i].ip@] == clients[i]@,
        forall|ip: Seq<char>| #[trigger]
            table(clients).contains_key(ip) ==> exists|i: int|
                0 <= i < clients.len() && (#[trigger] clients[i]).ip@ == ip,
    decreases clients.len(),
{
    if clients.len() > 0 {
        let init = clients.drop_last();
        lemma_table(init);
        assert forall|i: int| 0 <= i < clients.len() implies table(clients).contains_key(
            (#[trigger] clients[i]).ip@,
        ) && table(clients)[clients[i].ip@] == clients[i]@ by {
            if i < init.len() {
                assert(init[i] == clients[i]);
            }
        }
        assert forall|ip: Seq<char>| #[trigger] table(clients).contains_key(ip) implies exists|
            i: int,
        | 0 <= i < clients.len() && (#[trigger] clients[i]).ip@ == ip by {
            if table(init).contains_key(ip) {
                let i = choose|i: int| 0 <= i < init.len() && (#[trigger] init[i]).ip@ == ip;
                assert(clients[i] == init[i]);
            } else {
                assert(clients[clients.len() - 1].ip@ == ip);
            }
        }
    }
}

/// A changed client changes its row.
pub proof fn lemma_table_update(clients: Seq<ClientStats>, i: int, c: ClientStats)
    requires
        0 <= i < clients.len(),
        are_distinct(clients),
        c.ip@ == clients[i].ip@,
    ensures
        table(clients.update(i, c)) == table(clients).insert(c.ip@, c@),
    decreases clients.len(),
{
    let init = clients.drop_last();
    let after = clients.update(i, c);
    if i == clients.len() - 1 {
        assert(after.drop_last() =~= init);
        assert(table(after) =~= table(clients).insert(c.ip@, c@));
    } else {
        lemma_table_update(init, i, c);
        assert(after.drop_last() =~= init.update(i, c));
        assert(after.last() == clients.last());
        assert(clients[i].ip@ != clients[clients.len() - 1].ip@);
        assert(table(after) =~= table(clients).insert(c.ip@, c@));
    }
}

/// A request of a client goes up in one counter at most, the one that it came to, by one. Its
/// bytes are counted if any were sent or received, it was seen last at that time, and when it
/// was seen first stays.
pub proof fn law_request_is_counted_once(
    c: ClientView,
    hostname: Option<Seq<char>>,
    event: Event,
    bytes: u64,
    now: u64,
)
    ensures
        ({
            let d = c.after(hostname, event, bytes, now);
            &&& d.hits == c.hits.wrapping_add(
                if event is Hit {
                    1
                } else {
                    0
                },
            )
            &&& d.misses == c.misses.wrapping_add(
                if event is Miss {
                    1
                } else {
                    0
                },
            )
            &&& d.uploads == c.uploads.wrapping_add(
                if event is Upload {
                    1
                } else {
                    0
                },
            )
            &&& d.unauthorized == c.unauthorized.wrapping_add(
                if event is Unauthorized {
                    1
                } else {
                    0
                },
            )
            &&& d.bytes == c.bytes.wrapping_add(
                if event is Miss || event is Unauthorized {
                    0
                } else {
                    bytes
                },
            )
            &&& d.first_seen == c.first_seen
            &&& d.last_seen == now
            &&& hostname is Some ==> d.hostname == hostname
            &&& hostname is None ==> d.hostname == c.hostname
        }),
{
}

/// A new client begins with nothing counted, and was first seen when it came.
pub proof fn law_new_client_has_nothing_counted(now: u64)
    ensures
        ({
            let c = ClientView::fresh(now);
            &&& c.hits == 0 && c.misses == 0 && c.uploads == 0 && c.unauthorized == 0
            &&& c.bytes == 0
            &&& c.first_seen == now && c.last_seen == now
            &&& c.hostname is None
        }),
{
}

/// The row of a client shows what is known of it.
pub proof fn law_rows_show_what_is_known(clients: Seq<ClientStats>, i: int)
    requires
        are_distinct(clients),
        0 <= i < clients.len(),
    ensures
        table(clients).contains_key(clients[i].ip@),
        table(clients)[clients[i].ip@].hits == clients[i].hits,
        table(clients)[clients[i].ip@].misses == clients[i].misses,
        table(clients)[clients[i].ip@].uploads == clients[i].uploads,
        table(clients)[clients[i].ip@].unauthorized == clients[i].unauthorized,
        table(clients)[clients[i].ip@].bytes == clients[i].bytes,
        table(clients)[clients[i].ip@].first_seen == clients[i].first_seen,
        table(clients)[clients[i].ip@].last_seen == clients[i].last_seen,
        clients[i].hostname matches Some(h) ==> table(clients)[clients[i].ip@].hostname == Some(
            h@,
        ),
        clients[i].hostname is None ==> table(clients)[clients[i].ip@].hostname is None,
        addresses(clients).len() == clients.len(),
        addresses(clients)[i] == clients[i].ip@,
{
    lemma_table(clients);
}

} // verus!
