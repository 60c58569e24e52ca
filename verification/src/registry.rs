//! The daemon's watch/client registry.
//!
//! The registry owns the table of connected clients and the table of live
//! watches.  A watch is created by the first subscription to a path and
//! destroyed when its last subscriber leaves; a path never has more than one
//! watch, and later subscribers to the same path share its descriptor, with
//! their requested masks merged in.  Cross-references store identifiers
//! only: a watch lists the ids of its subscribers, a client lists the
//! descriptors of its watches, and [`DaemonState::wf`] keeps the two sides
//! in exact agreement.
//!
//! Watch descriptors and client ids are allocated from monotonic counters
//! and never reused within the registry's lifetime.

use vstd::prelude::*;

verus! {

/// One connected client: its identifier and the descriptors of the watches
/// it subscribes to, in subscription order.  The socket endpoint and the
/// connection timestamp live with the caller, keyed by the id.
#[derive(Debug, Clone)]
pub struct Client {
    /// Unique client id.
    pub id: u64,
    /// Descriptors of the watches this client subscribes to.
    pub watches: Vec<i32>,
}

/// One live watch.
#[derive(Debug, Clone)]
pub struct WatchInfo {
    /// Watch descriptor.
    pub wd: i32,
    /// Watched path, canonicalised by the caller before insertion.
    pub path: Vec<u8>,
    /// Union of the masks the subscribers asked for.
    pub mask: u32,
    /// Whether events under descendants of the path are attributed here.
    pub recursive: bool,
    /// Ids of the subscribed clients; membership is a set.
    pub clients: Vec<u64>,
}

/// Counters of a registry snapshot.
#[derive(Debug, Clone)]
pub struct DaemonStats {
    /// Seconds since the daemon started, supplied by the caller.
    pub uptime_secs: u64,
    /// Number of connected clients.
    pub total_clients: usize,
    /// Number of live watches.
    pub total_watches: usize,
}

/// The registry: clients, watches, and the allocation counters.
pub struct DaemonState {
    /// Connected clients.
    pub clients: Vec<Client>,
    /// Live watches.
    pub watches: Vec<WatchInfo>,
    /// Next client id to hand out.
    pub next_client_id: u64,
    /// Next watch descriptor to hand out.
    pub next_wd: i32,
}

/// `a` holds the same watch as `b`, field for field.
pub open spec fn watch_like(a: WatchInfo, b: WatchInfo) -> bool {
    &&& a.wd == b.wd
    &&& a.path@ == b.path@
    &&& a.mask == b.mask
    &&& a.recursive == b.recursive
    &&& a.clients@ == b.clients@
}

impl WatchInfo {
    /// A field-for-field copy of this watch.
    pub fn snapshot(&self) -> (r: WatchInfo)
        ensures
            watch_like(r, *self),
    {
        WatchInfo {
            wd: self.wd,
            path: copy_vec(&self.path),
            mask: self.mask,
            recursive: self.recursive,
            clients: copy_vec(&self.clients),
        }
    }
}

impl Client {
    /// A field-for-field copy of this client record.
    pub fn snapshot(&self) -> (r: Client)
        ensures
            r.id == self.id,
            r.watches@ == self.watches@,
    {
        Client { id: self.id, watches: copy_vec(&self.watches) }
    }
}

impl DaemonState {
    /// A client with this id is connected.
    pub open spec fn spec_has_client(self, id: u64) -> bool {
        exists|i: int| 0 <= i < self.clients@.len() && self.clients@[i].id == id
    }

    /// Index of the client with this id.
    pub open spec fn spec_client_idx(self, id: u64) -> int {
        choose|i: int| 0 <= i < self.clients@.len() && self.clients@[i].id == id
    }

    /// The client with this id.
    pub open spec fn spec_client(self, id: u64) -> Client {
        self.clients@[self.spec_client_idx(id)]
    }

    /// A watch with this descriptor is live.
    pub open spec fn spec_has_watch(self, wd: i32) -> bool {
        exists|i: int| 0 <= i < self.watches@.len() && self.watches@[i].wd == wd
    }

    /// Index of the watch with this descriptor.
    pub open spec fn spec_watch_idx(self, wd: i32) -> int {
        choose|i: int| 0 <= i < self.watches@.len() && self.watches@[i].wd == wd
    }

    /// The watch with this descriptor.
    pub open spec fn spec_watch(self, wd: i32) -> WatchInfo {
        self.watches@[self.spec_watch_idx(wd)]
    }

    /// A watch on exactly this path is live: the path stands in the
    /// path index.
    pub open spec fn spec_has_path(self, path: Seq<u8>) -> bool {
        exists|i: int| 0 <= i < self.watches@.len() && self.watches@[i].path@ == path
    }

    /// Index of the watch on this path.
    pub open spec fn spec_path_idx(self, path: Seq<u8>) -> int {
        choose|i: int| 0 <= i < self.watches@.len() && self.watches@[i].path@ == path
    }

    /// The watch on this path.
    pub open spec fn spec_watch_by_path(self, path: Seq<u8>) -> WatchInfo {
        self.watches@[self.spec_path_idx(path)]
    }

    /// Well-formedness: the registry invariants of the data model.
    ///
    /// - client ids, watch descriptors and watch paths are unique;
    /// - every live id and descriptor is below its allocation counter, so
    ///   descriptors are handed out strictly increasing and never reused;
    /// - every watch has at least one subscriber, every subscriber list and
    ///   watch list is duplicate-free, and cross-references only name live
    ///   entries;
    /// - a client id stands in a watch's subscriber list exactly when the
    ///   watch's descriptor stands in that client's watch list.
    pub open spec fn wf(self) -> bool {
        &&& 1 <= self.next_wd
        &&& 1 <= self.next_client_id
        &&& (forall|i: int, j: int|
            #![trigger self.clients@[i].id, self.clients@[j].id]
            0 <= i < j < self.clients@.len() ==> self.clients@[i].id != self.clients@[j].id)
        &&& (forall|i: int, j: int|
            #![trigger self.watches@[i].wd, self.watches@[j].wd]
            0 <= i < j < self.watches@.len() ==> self.watches@[i].wd != self.watches@[j].wd)
        &&& (forall|i: int, j: int|
            #![trigger self.watches@[i].path, self.watches@[j].path]
            0 <= i < j < self.watches@.len() ==> self.watches@[i].path@ != self.watches@[j].path@)
        &&& (forall|i: int|
            0 <= i < self.watches@.len() ==> 1 <= (#[trigger] self.watches@[i]).wd
                < self.next_wd)
        &&& (forall|i: int|
            0 <= i < self.clients@.len() ==> 1 <= (#[trigger] self.clients@[i]).id
                < self.next_client_id)
        &&& (forall|i: int|
            0 <= i < self.watches@.len() ==> (#[trigger] self.watches@[i]).clients@.len() > 0)
        &&& (forall|i: int|
            0 <= i < self.watches@.len() ==> (
            #[trigger] self.watches@[i]).clients@.no_duplicates())
        &&& (forall|i: int|
            0 <= i < self.clients@.len() ==> (
            #[trigger] self.clients@[i]).watches@.no_duplicates())
        &&& (forall|i: int, k: int|
            #![trigger self.watches@[i].clients@[k]]
            0 <= i < self.watches@.len() && 0 <= k < self.watches@[i].clients@.len()
                ==> self.spec_has_client(self.watches@[i].clients@[k]))
        &&& (forall|i: int, k: int|
            #![trigger self.clients@[i].watches@[k]]
            0 <= i < self.clients@.len() && 0 <= k < self.clients@[i].watches@.len()
                ==> self.spec_has_watch(self.clients@[i].watches@[k]))
        &&& (forall|i: int, j: int|
            #![trigger self.watches@[i].clients@.contains(self.clients@[j].id)]
            #![trigger self.clients@[j].watches@.contains(self.watches@[i].wd)]
            0 <= i < self.watches@.len() && 0 <= j < self.clients@.len()
                ==> (self.watches@[i].clients@.contains(self.clients@[j].id)
                <==> self.clients@[j].watches@.contains(self.watches@[i].wd)))
    }

    /// An empty registry, counters at their first values.
    pub fn new() -> (r: DaemonState)
        ensures
            r.wf(),
            r.clients@.len() == 0,
            r.watches@.len() == 0,
            r.next_client_id == 1,
            r.next_wd == 1,
    {
        DaemonState { clients: Vec::new(), watches: Vec::new(), next_client_id: 1, next_wd: 1 }
    }

    /// Index of the client with `id` in the client table.
    fn find_client_index(&self, id: u64) -> (r: Option<usize>)
        ensures
            match r {
                Some(i) => i < self.clients@.len() && self.clients@[i as int].id == id,
                None => !self.spec_has_client(id),
            },
    {
        let mut i: usize = 0;
        while i < self.clients.len()
            invariant
                i <= self.clients@.len(),
                forall|k: int| 0 <= k < i ==> self.clients@[k].id != id,
            decreases self.clients@.len() - i,
        {
            if self.clients[i].id == id {
                return Some(i);
            }
            i = i + 1;
        }
        None
    }

    /// Index of the watch with descriptor `wd` in the watch table.
    fn find_watch_index(&self, wd: i32) -> (r: Option<usize>)
        ensures
            match r {
                Some(i) => i < self.watches@.len() && self.watches@[i as int].wd == wd,
                None => !self.spec_has_watch(wd),
            },
    {
        let mut i: usize = 0;
        while i < self.watches.len()
            invariant
                i <= self.watches@.len(),
                forall|k: int| 0 <= k < i ==> self.watches@[k].wd != wd,
            decreases self.watches@.len() - i,
        {
            if self.watches[i].wd == wd {
                return Some(i);
            }
            i = i + 1;
        }
        None
    }

    /// Index of the watch on exactly `path` in the watch table.
    fn find_path_index(&self, path: &Vec<u8>) -> (r: Option<usize>)
        ensures
            match r {
                Some(i) => i < self.watches@.len() && self.watches@[i as int].path@ == path@,
                None => !self.spec_has_path(path@),
            },
    {
        let mut i: usize = 0;
        while i < self.watches.len()
            invariant
                i <= self.watches@.len(),
                forall|k: int| 0 <= k < i ==> self.watches@[k].path@ != path@,
            decreases self.watches@.len() - i,
        {
            if bytes_eq(&self.watches[i].path, path) {
                return Some(i);
            }
            i = i + 1;
        }
        None
    }

    /// Register a new client: allocate the next id and insert the client
    /// with an empty watch list.  Every call yields a fresh id.
    pub fn register_client(&mut self) -> (id: u64)
        requires
            old(self).wf(),
            old(self).next_client_id < u64::MAX,
        ensures
            final(self).wf(),
            id == old(self).next_client_id,
            !old(self).spec_has_client(id),
            final(self).spec_has_client(id),
            final(self).spec_client(id).watches@.len() == 0,
            final(self).next_client_id == old(self).next_client_id + 1,
            final(self).next_wd == old(self).next_wd,
            final(self).watches@ == old(self).watches@,
            final(self).clients@.len() == old(self).clients@.len() + 1,
            final(self).clients@[old(self).clients@.len() as int].id == id,
            forall|i: int|
                0 <= i < old(self).clients@.len() ==> final(self).clients@[i]
                    == old(self).clients@[i],
    {
        let id = self.next_client_id;
        self.next_client_id = self.next_client_id + 1;
        self.clients.push(Client { id, watches: Vec::new() });
        proof {
            let n = self.clients@.len() - 1;
            assert(self.clients@[n].id == id);
            assert(self.spec_has_client(id));
            assert(self.spec_client_idx(id) == n) by {
                let i = self.spec_client_idx(id);
                assert(0 <= i < self.clients@.len() && self.clients@[i].id == id);
                if i < n {
                    assert(old(self).clients@[i].id == id);
                    assert(false);
                }
            }
            assert forall|i: int, k: int|
                #![trigger self.clients@[i].watches@[k]]
                0 <= i < self.clients@.len() && 0 <= k < self.clients@[i].watches@.len()
                    implies self.spec_has_watch(self.clients@[i].watches@[k]) by {
                if i < n {
                    assert(old(self).spec_has_watch(old(self).clients@[i].watches@[k]));
                }
            }
            assert forall|i: int, k: int|
                #![trigger self.watches@[i].clients@[k]]
                0 <= i < self.watches@.len() && 0 <= k < self.watches@[i].clients@.len()
                    implies self.spec_has_client(self.watches@[i].clients@[k]) by {
                assert(old(self).spec_has_client(old(self).watches@[i].clients@[k]));
                let j = old(self).spec_client_idx(old(self).watches@[i].clients@[k]);
                assert(self.clients@[j].id == self.watches@[i].clients@[k]);
            }
            assert forall|i: int, j: int|
                #![trigger self.watches@[i].clients@.contains(self.clients@[j].id)]
                #![trigger self.clients@[j].watches@.contains(self.watches@[i].wd)]
                0 <= i < self.watches@.len() && 0 <= j < self.clients@.len()
                    implies (self.watches@[i].clients@.contains(self.clients@[j].id)
                    <==> self.clients@[j].watches@.contains(self.watches@[i].wd)) by {
                if j < n {
                } else {
                    assert(!self.clients@[j].watches@.contains(self.watches@[i].wd));
                    if self.watches@[i].clients@.contains(id) {
                        let k = choose|k: int|
                            0 <= k < self.watches@[i].clients@.len()
                                && self.watches@[i].clients@[k] == id;
                        assert(old(self).spec_has_client(old(self).watches@[i].clients@[k]));
                        assert(false);
                    }
                }
            }
        }
        id
    }

    /// The client with `id`, copied out, if connected.
    pub fn get_client(&self, id: u64) -> (r: Option<Client>)
        requires
            self.wf(),
        ensures
            match r {
                Some(c) => self.spec_has_client(id) && c.id == id
                    && c.watches@ == self.spec_client(id).watches@,
                None => !self.spec_has_client(id),
            },
    {
        match self.find_client_index(id) {
            Some(i) => {
                let c = self.clients[i].snapshot();
                proof {
                    lemma_client_lookup(*self, id, i as int);
                }
                Some(c)
            },
            None => None,
        }
    }

    /// The watch with descriptor `wd`, copied out, if live.
    pub fn get_watch(&self, wd: i32) -> (r: Option<WatchInfo>)
        requires
            self.wf(),
        ensures
            match r {
                Some(w) => self.spec_has_watch(wd) && watch_like(w, self.spec_watch(wd))
                    && w.wd == wd,
                None => !self.spec_has_watch(wd),
            },
    {
        match self.find_watch_index(wd) {
            Some(i) => {
                let w = self.watches[i].snapshot();
                proof {
                    lemma_watch_lookup(*self, wd, i as int);
                }
                Some(w)
            },
            None => None,
        }
    }

    /// The descriptor of the watch on exactly `path`, if one is live.
    pub fn get_wd_for_path(&self, path: &Vec<u8>) -> (r: Option<i32>)
        requires
            self.wf(),
        ensures
            match r {
                Some(wd) => self.spec_has_path(path@) && wd == self.spec_watch_by_path(path@).wd,
                None => !self.spec_has_path(path@),
            },
    {
        match self.find_path_index(path) {
            Some(i) => {
                proof {
                    lemma_path_lookup(*self, path@, i as int);
                }
                Some(self.watches[i].wd)
            },
            None => None,
        }
    }

    /// The paths of all live watches, in table order.
    pub fn get_watched_paths(&self) -> (r: Vec<Vec<u8>>)
        ensures
            r@.len() == self.watches@.len(),
            forall|i: int| 0 <= i < r@.len() ==> r@[i]@ == self.watches@[i].path@,
    {
        let mut out: Vec<Vec<u8>> = Vec::new();
        let mut i: usize = 0;
        while i < self.watches.len()
            invariant
                i <= self.watches@.len(),
                out@.len() == i,
                forall|k: int| 0 <= k < i ==> out@[k]@ == self.watches@[k].path@,
            decreases self.watches@.len() - i,
        {
            out.push(copy_vec(&self.watches[i].path));
            i = i + 1;
        }
        out
    }

    /// The subscriber ids of the watch with descriptor `wd`; empty when no
    /// such watch is live.  Every returned id names a connected client.
    pub fn get_clients_for_watch(&self, wd: i32) -> (r: Vec<u64>)
        requires
            self.wf(),
        ensures
            self.spec_has_watch(wd) ==> r@ == self.spec_watch(wd).clients@,
            !self.spec_has_watch(wd) ==> r@.len() == 0,
            forall|k: int| 0 <= k < r@.len() ==> self.spec_has_client(#[trigger] r@[k]),
    {
        match self.find_watch_index(wd) {
            Some(i) => {
                proof {
                    lemma_watch_lookup(*self, wd, i as int);
                }
                copy_vec(&self.watches[i].clients)
            },
            None => Vec::new(),
        }
    }

    /// A snapshot of the registry's counters; the caller supplies the
    /// uptime, which is wall-clock state it owns.
    pub fn stats(&self, uptime_secs: u64) -> (r: DaemonStats)
        ensures
            r.uptime_secs == uptime_secs,
            r.total_clients == self.clients@.len(),
            r.total_watches == self.watches@.len(),
    {
        DaemonStats {
            uptime_secs,
            total_clients: self.clients.len(),
            total_watches: self.watches.len(),
        }
    }

    /// Append `wd` to the client's watch list unless already listed.
    /// Touches nothing but that one client record.
    fn client_add_wd(&mut self, client_id: u64, wd: i32)
        requires
            old(self).spec_has_client(client_id),
            forall|i: int, j: int|
                #![trigger old(self).clients@[i].id, old(self).clients@[j].id]
                0 <= i < j < old(self).clients@.len() ==> old(self).clients@[i].id != old(self).clients@[j].id,
        ensures
            final(self).watches@ == old(self).watches@,
            final(self).next_wd == old(self).next_wd,
            final(self).next_client_id == old(self).next_client_id,
            final(self).clients@.len() == old(self).clients@.len(),
            forall|j: int|
                0 <= j < final(self).clients@.len() ==> #[trigger] final(self).clients@[j].id
                    == old(self).clients@[j].id,
            forall|j: int|
                0 <= j < final(self).clients@.len() && old(self).clients@[j].id != client_id
                    ==> #[trigger] final(self).clients@[j] == old(self).clients@[j],
            forall|j: int|
                #![trigger final(self).clients@[j].watches]
                0 <= j < final(self).clients@.len() && old(self).clients@[j].id == client_id
                    ==> {
                    &&& (forall|w: i32|
                        #[trigger] final(self).clients@[j].watches@.contains(w) <==> (old(self).clients@[j].watches@.contains(w) || w == wd))
                    &&& (old(self).clients@[j].watches@.no_duplicates() ==> final(self).clients@[j].watches@.no_duplicates())
                },
    {
        let cidx_opt = self.find_client_index(client_id);
        let cidx = cidx_opt.unwrap();
        let ghost s0 = *self;
        let mut new_watches = copy_vec(&self.clients[cidx].watches);
        let already = vec_contains_i32(&new_watches, wd);
        if !already {
            new_watches.push(wd);
        }
        let newc = Client { id: client_id, watches: new_watches };
        self.clients[cidx] = newc;
        proof {
            let ci = cidx as int;
            let oldl = s0.clients@[ci].watches@;
            let newl = self.clients@[ci].watches@;
            if !already {
                assert(newl == oldl.push(wd));
                assert forall|w: i32| #[trigger] newl.contains(w) implies (oldl.contains(w) || w
                    == wd) by {
                    let k = choose|k: int| 0 <= k < newl.len() && newl[k] == w;
                    if k < oldl.len() {
                        assert(oldl[k] == w);
                    }
                }
                assert forall|w: i32| oldl.contains(w) || w == wd implies #[trigger] newl.contains(
                    w,
                ) by {
                    if oldl.contains(w) {
                        let k = choose|k: int| 0 <= k < oldl.len() && oldl[k] == w;
                        assert(newl[k] == w);
                    } else {
                        assert(newl[newl.len() - 1] == wd);
                    }
                }
                if oldl.no_duplicates() {
                    assert forall|p: int, q: int|
                        0 <= p < newl.len() && 0 <= q < newl.len() && p != q implies newl[p]
                        != newl[q] by {
                        if p < oldl.len() && q < oldl.len() {
                        } else if p == oldl.len() {
                            assert(newl[p] == wd && newl[q] == oldl[q]);
                            assert(!oldl.contains(wd));
                        } else {
                            assert(newl[q] == wd && newl[p] == oldl[p]);
                            assert(!oldl.contains(wd));
                        }
                    }
                }
            } else {
                assert(newl == oldl);
                assert(oldl.contains(wd));
            }
            assert forall|j: int|
                0 <= j < self.clients@.len() && s0.clients@[j].id == client_id implies j
                == ci by {
                if j != ci {
                    assert(s0.clients@[j].id != s0.clients@[ci].id);
                }
            }
        }
    }

    /// Subscribe `client_id` to `path`, requesting the events of `mask`.
    ///
    /// When a watch on the path is already live the client joins it: the
    /// client id enters its subscriber list (a no-op when already there),
    /// the requested mask is merged in by bitwise or, the recursive flag
    /// keeps its first value, and the shared descriptor is returned.
    /// Otherwise a fresh descriptor — larger than every descriptor ever
    /// handed out — is allocated and a new watch inserted with the client
    /// as sole subscriber.
    #[verifier::rlimit(50)]
    pub fn add_watch(&mut self, client_id: u64, path: Vec<u8>, mask: u32, recursive: bool) -> (wd:
        i32)
        requires
            old(self).wf(),
            old(self).spec_has_client(client_id),
            old(self).next_wd < i32::MAX,
        ensures
            final(self).wf(),
            final(self).next_client_id == old(self).next_client_id,
            final(self).spec_has_watch(wd),
            final(self).spec_watch(wd).clients@.contains(client_id),
            final(self).spec_client(client_id).watches@.contains(wd),
            forall|id: u64| #[trigger]
                final(self).spec_has_client(id) == old(self).spec_has_client(id),
            forall|id: u64|
                id != client_id && old(self).spec_has_client(id)
                    ==> #[trigger] final(self).spec_client(id) == old(self).spec_client(id),
            final(self).spec_client(client_id).id == client_id,
            forall|w: i32|
                #[trigger] final(self).spec_client(client_id).watches@.contains(w) <==> (old(self).spec_client(client_id).watches@.contains(w) || w == wd),
            old(self).spec_has_path(path@) ==> {
                let before = old(self).spec_watch_by_path(path@);
                &&& wd == before.wd
                &&& final(self).next_wd == old(self).next_wd
                &&& final(self).watches@.len() == old(self).watches@.len()
                &&& {
                    let after = final(self).spec_watch(wd);
                    &&& after.path@ == before.path@
                    &&& after.mask == (before.mask | mask)
                    &&& after.recursive == before.recursive
                    &&& forall|c: u64|
                        #[trigger] after.clients@.contains(c) <==> (before.clients@.contains(c)
                            || c == client_id)
                }
            },
            !old(self).spec_has_path(path@) ==> {
                &&& wd == old(self).next_wd
                &&& final(self).next_wd == old(self).next_wd + 1
                &&& !old(self).spec_has_watch(wd)
                &&& final(self).watches@.len() == old(self).watches@.len() + 1
                &&& {
                    let after = final(self).spec_watch(wd);
                    &&& after.path@ == path@
                    &&& after.mask == mask
                    &&& after.recursive == recursive
                    &&& after.clients@ == seq![client_id]
                }
            },
            forall|w: i32|
                w != wd ==> #[trigger] final(self).spec_has_watch(w) == old(self).spec_has_watch(
                    w,
                ),
            forall|w: i32|
                w != wd && old(self).spec_has_watch(w) ==> #[trigger] final(self).spec_watch(w)
                    == old(self).spec_watch(w),
    {
        let ghost s0 = *self;
        let pidx_opt = self.find_path_index(&path);
        match pidx_opt {
            Some(pidx) => {
                proof {
                    lemma_path_lookup(s0, path@, pidx as int);
                }
                let wd = self.watches[pidx].wd;
                proof {
                    lemma_watch_lookup(s0, wd, pidx as int);
                }
                let mut new_clients = copy_vec(&self.watches[pidx].clients);
                let already = vec_contains_u64(&new_clients, client_id);
                if !already {
                    new_clients.push(client_id);
                }
                let neww = WatchInfo {
                    wd,
                    path: copy_vec(&self.watches[pidx].path),
                    mask: self.watches[pidx].mask | mask,
                    recursive: self.watches[pidx].recursive,
                    clients: new_clients,
                };
                self.watches[pidx] = neww;
                proof {
                    let pi = pidx as int;
                    let oldc = s0.watches@[pi].clients@;
                    let newc = self.watches@[pi].clients@;
                    if !already {
                        assert(newc == oldc.push(client_id));
                        assert forall|c: u64| #[trigger] newc.contains(c) implies (oldc.contains(c)
                            || c == client_id) by {
                            let k = choose|k: int| 0 <= k < newc.len() && newc[k] == c;
                            if k < oldc.len() {
                                assert(oldc[k] == c);
                            }
                        }
                        assert forall|c: u64|
                            oldc.contains(c) || c == client_id implies #[trigger] newc.contains(
                            c,
                        ) by {
                            if oldc.contains(c) {
                                let k = choose|k: int| 0 <= k < oldc.len() && oldc[k] == c;
                                assert(newc[k] == c);
                            } else {
                                assert(newc[newc.len() - 1] == client_id);
                            }
                        }
                        assert forall|p: int, q: int|
                            0 <= p < newc.len() && 0 <= q < newc.len() && p != q implies newc[p]
                            != newc[q] by {
                            if p < oldc.len() && q < oldc.len() {
                            } else if p == oldc.len() {
                                assert(newc[p] == client_id && newc[q] == oldc[q]);
                                assert(!oldc.contains(client_id));
                            } else {
                                assert(newc[q] == client_id && newc[p] == oldc[p]);
                                assert(!oldc.contains(client_id));
                            }
                        }
                    } else {
                        assert(newc == oldc);
                        assert(oldc.contains(client_id));
                    }
                }
                self.client_add_wd(client_id, wd);
                proof {
                    let sf = *self;
                    let ow = s0.watches@;
                    let oc = s0.clients@;
                    let nw = sf.watches@;
                    let nc = sf.clients@;
                    let pi = pidx as int;
                    let before = ow[pi];

                    // Watch table: only slot `pi` changed, keeping wd and path.
                    assert(nw.len() == ow.len());
                    assert(forall|k: int| 0 <= k < nw.len() && k != pi ==> nw[k] == ow[k]);
                    assert(nw[pi].wd == wd && nw[pi].path@ == before.path@ && nw[pi].mask == (
                    before.mask | mask) && nw[pi].recursive == before.recursive);
                    assert(forall|c: u64|
                        #[trigger] nw[pi].clients@.contains(c) <==> (before.clients@.contains(c)
                            || c == client_id));
                    assert(nw[pi].clients@.no_duplicates());

                    // Client table: ids in place, only the caller's list changed.
                    let ci = s0.spec_client_idx(client_id);
                    lemma_client_lookup(s0, client_id, ci);
                    assert(nc.len() == oc.len());
                    assert(forall|j: int|
                        0 <= j < nc.len() ==> #[trigger] nc[j].id == oc[j].id);
                    assert forall|j: int| 0 <= j < nc.len() && j != ci implies #[trigger] nc[j]
                        == oc[j] by {
                        assert(oc[j].id != oc[ci].id);
                    }
                    assert(forall|w: i32|
                        #[trigger] nc[ci].watches@.contains(w) <==> (oc[ci].watches@.contains(w)
                            || w == wd));
                    assert(nc[ci].watches@.no_duplicates());

                    // Well-formedness.
                    assert forall|i: int, k: int|
                        #![trigger nw[i].clients@[k]]
                        0 <= i < nw.len() && 0 <= k < nw[i].clients@.len()
                            implies sf.spec_has_client(nw[i].clients@[k]) by {
                        let c = nw[i].clients@[k];
                        assert(nw[i].clients@.contains(c));
                        if i == pi && c == client_id {
                            assert(nc[ci].id == client_id);
                        } else {
                            assert(before.clients@.contains(c) || ow[i].clients@.contains(c));
                            let src: int = if i == pi {
                                pi
                            } else {
                                i
                            };
                            let k0 = choose|k0: int|
                                0 <= k0 < ow[src].clients@.len() && #[trigger] ow[src].clients@[k0]
                                    == c;
                            assert(s0.spec_has_client(ow[src].clients@[k0]));
                            let j0 = choose|j0: int| 0 <= j0 < oc.len() && oc[j0].id == c;
                            assert(nc[j0].id == c);
                        }
                    }
                    assert forall|i: int, k: int|
                        #![trigger nc[i].watches@[k]]
                        0 <= i < nc.len() && 0 <= k < nc[i].watches@.len()
                            implies sf.spec_has_watch(nc[i].watches@[k]) by {
                        let w = nc[i].watches@[k];
                        assert(nc[i].watches@.contains(w));
                        if i == ci && w == wd {
                            assert(nw[pi].wd == wd);
                        } else {
                            assert(oc[i].watches@.contains(w));
                            let k0 = choose|k0: int|
                                0 <= k0 < oc[i].watches@.len() && #[trigger] oc[i].watches@[k0]
                                    == w;
                            assert(s0.spec_has_watch(oc[i].watches@[k0]));
                            let j0 = choose|j0: int| 0 <= j0 < ow.len() && ow[j0].wd == w;
                            assert(nw[j0].wd == w);
                        }
                    }
                    assert forall|i: int, j: int|
                        #![trigger nw[i].clients@.contains(nc[j].id)]
                        #![trigger nc[j].watches@.contains(nw[i].wd)]
                        0 <= i < nw.len() && 0 <= j < nc.len() implies (nw[i].clients@.contains(
                        nc[j].id) <==> nc[j].watches@.contains(nw[i].wd)) by {
                        let cid = nc[j].id;
                        let w = nw[i].wd;
                        assert(cid == oc[j].id);
                        assert(w == ow[i].wd);
                        assert(ow[i].clients@.contains(oc[j].id) <==> oc[j].watches@.contains(
                        ow[i].wd));
                        if i == pi && j == ci {
                            assert(nw[pi].clients@.contains(client_id));
                            assert(nc[ci].watches@.contains(wd));
                        } else if i == pi {
                            assert(cid != client_id) by {
                                assert(oc[j].id != oc[ci].id);
                            }
                            assert(nc[j] == oc[j]);
                        } else if j == ci {
                            assert(w != wd) by {
                                if w == wd {
                                    assert(ow[i].wd == ow[pi].wd);
                                }
                            }
                            assert(nw[i] == ow[i]);
                        } else {
                            assert(nw[i] == ow[i] && nc[j] == oc[j]);
                        }
                    }
                    assert(sf.wf());

                    // The contract's description of the change.
                    assert forall|id: u64| #[trigger] sf.spec_has_client(id)
                        == s0.spec_has_client(id) by {
                        if sf.spec_has_client(id) {
                            let j = choose|j: int| 0 <= j < nc.len() && nc[j].id == id;
                            assert(oc[j].id == id);
                        }
                        if s0.spec_has_client(id) {
                            let j = choose|j: int| 0 <= j < oc.len() && oc[j].id == id;
                            assert(nc[j].id == id);
                        }
                    }
                    assert forall|id: u64|
                        id != client_id && s0.spec_has_client(id) implies #[trigger] sf.spec_client(
                        id,
                    ) == s0.spec_client(id) by {
                        let j = s0.spec_client_idx(id);
                        lemma_client_lookup(s0, id, j);
                        assert(j != ci);
                        lemma_client_lookup(sf, id, j);
                    }
                    lemma_client_lookup(sf, client_id, ci);
                    lemma_watch_lookup(sf, wd, pi);
                    assert forall|w: i32| w != wd implies #[trigger] sf.spec_has_watch(w)
                        == s0.spec_has_watch(w) by {
                        if sf.spec_has_watch(w) {
                            let k = choose|k: int| 0 <= k < nw.len() && nw[k].wd == w;
                            assert(ow[k].wd == w);
                        }
                        if s0.spec_has_watch(w) {
                            let k = choose|k: int| 0 <= k < ow.len() && ow[k].wd == w;
                            assert(nw[k].wd == w);
                        }
                    }
                    assert forall|w: i32|
                        w != wd && s0.spec_has_watch(w) implies #[trigger] sf.spec_watch(w)
                        == s0.spec_watch(w) by {
                        let k = s0.spec_watch_idx(w);
                        lemma_watch_lookup(s0, w, k);
                        assert(k != pi);
                        lemma_watch_lookup(sf, w, k);
                    }
                }
                wd
            },
            None => {
                let wd = self.next_wd;
                self.next_wd = self.next_wd + 1;
                let mut sole: Vec<u64> = Vec::new();
                sole.push(client_id);
                let neww = WatchInfo { wd, path, mask, recursive, clients: sole };
                self.watches.push(neww);
                self.client_add_wd(client_id, wd);
                proof {
                    let sf = *self;
                    let ow = s0.watches@;
                    let oc = s0.clients@;
                    let nw = sf.watches@;
                    let nc = sf.clients@;
                    let n = ow.len() as int;

                    // Watch table: the old slots, then the new watch.
                    assert(nw.len() == ow.len() + 1);
                    assert(forall|k: int| 0 <= k < n ==> nw[k] == ow[k]);
                    assert(nw[n].wd == wd && nw[n].path@ == path@ && nw[n].mask == mask
                        && nw[n].recursive == recursive);
                    assert(nw[n].clients@ =~= seq![client_id]);
                    assert(!s0.spec_has_path(path@));
                    assert(!s0.spec_has_watch(wd)) by {
                        if s0.spec_has_watch(wd) {
                            let k = choose|k: int| 0 <= k < ow.len() && ow[k].wd == wd;
                            assert(1 <= ow[k].wd < s0.next_wd);
                        }
                    }

                    // Client table: ids in place, only the caller's list changed.
                    let ci = s0.spec_client_idx(client_id);
                    lemma_client_lookup(s0, client_id, ci);
                    assert(nc.len() == oc.len());
                    assert(forall|j: int|
                        0 <= j < nc.len() ==> #[trigger] nc[j].id == oc[j].id);
                    assert forall|j: int| 0 <= j < nc.len() && j != ci implies #[trigger] nc[j]
                        == oc[j] by {
                        assert(oc[j].id != oc[ci].id);
                    }
                    assert(forall|w: i32|
                        #[trigger] nc[ci].watches@.contains(w) <==> (oc[ci].watches@.contains(w)
                            || w == wd));
                    assert(nc[ci].watches@.no_duplicates());
                    // No old watch list holds the fresh descriptor.
                    assert forall|j: int|
                        0 <= j < oc.len() implies !(#[trigger] oc[j].watches@.contains(wd)) by {
                        if oc[j].watches@.contains(wd) {
                            let k = choose|k: int|
                                0 <= k < oc[j].watches@.len() && #[trigger] oc[j].watches@[k]
                                    == wd;
                            assert(s0.spec_has_watch(oc[j].watches@[k]));
                        }
                    }

                    // Well-formedness.
                    assert forall|i: int, j: int|
                        #![trigger nw[i].wd, nw[j].wd]
                        0 <= i < j < nw.len() implies nw[i].wd != nw[j].wd by {
                        if j == n {
                            assert(1 <= ow[i].wd < s0.next_wd);
                        }
                    }
                    assert forall|i: int, j: int|
                        #![trigger nw[i].path, nw[j].path]
                        0 <= i < j < nw.len() implies nw[i].path@ != nw[j].path@ by {
                        if j == n {
                            if ow[i].path@ == path@ {
                                assert(s0.spec_has_path(path@));
                            }
                        }
                    }
                    assert forall|i: int, k: int|
                        #![trigger nw[i].clients@[k]]
                        0 <= i < nw.len() && 0 <= k < nw[i].clients@.len()
                            implies sf.spec_has_client(nw[i].clients@[k]) by {
                        if i == n {
                            assert(nw[i].clients@[k] == client_id);
                            assert(nc[ci].id == client_id);
                        } else {
                            assert(s0.spec_has_client(ow[i].clients@[k]));
                            let j0 = choose|j0: int|
                                0 <= j0 < oc.len() && oc[j0].id == ow[i].clients@[k];
                            assert(nc[j0].id == ow[i].clients@[k]);
                        }
                    }
                    assert forall|i: int, k: int|
                        #![trigger nc[i].watches@[k]]
                        0 <= i < nc.len() && 0 <= k < nc[i].watches@.len()
                            implies sf.spec_has_watch(nc[i].watches@[k]) by {
                        let w = nc[i].watches@[k];
                        assert(nc[i].watches@.contains(w));
                        if i == ci && w == wd {
                            assert(nw[n].wd == wd);
                        } else {
                            assert(oc[i].watches@.contains(w));
                            let k0 = choose|k0: int|
                                0 <= k0 < oc[i].watches@.len() && #[trigger] oc[i].watches@[k0]
                                    == w;
                            assert(s0.spec_has_watch(oc[i].watches@[k0]));
                            let j0 = choose|j0: int| 0 <= j0 < ow.len() && ow[j0].wd == w;
                            assert(nw[j0].wd == w);
                        }
                    }
                    assert forall|i: int, j: int|
                        #![trigger nw[i].clients@.contains(nc[j].id)]
                        #![trigger nc[j].watches@.contains(nw[i].wd)]
                        0 <= i < nw.len() && 0 <= j < nc.len() implies (nw[i].clients@.contains(
                        nc[j].id) <==> nc[j].watches@.contains(nw[i].wd)) by {
                        let cid = nc[j].id;
                        let w = nw[i].wd;
                        assert(cid == oc[j].id);
                        if i == n && j == ci {
                            assert(nw[n].clients@[0] == client_id);
                            assert(nw[n].clients@.contains(client_id));
                            assert(nc[ci].watches@.contains(wd));
                        } else if i == n {
                            assert(cid != client_id) by {
                                assert(oc[j].id != oc[ci].id);
                            }
                            assert(!nw[n].clients@.contains(cid)) by {
                                if nw[n].clients@.contains(cid) {
                                    let k = choose|k: int|
                                        0 <= k < nw[n].clients@.len() && nw[n].clients@[k] == cid;
                                    assert(nw[n].clients@[k] == client_id);
                                }
                            }
                            assert(nc[j] == oc[j]);
                            assert(!oc[j].watches@.contains(wd));
                        } else {
                            assert(w == ow[i].wd);
                            assert(ow[i].clients@.contains(oc[j].id) <==> oc[j].watches@.contains(
                            ow[i].wd));
                            assert(w != wd) by {
                                assert(1 <= ow[i].wd < s0.next_wd);
                            }
                            if j == ci {
                                assert(nw[i] == ow[i]);
                            } else {
                                assert(nw[i] == ow[i] && nc[j] == oc[j]);
                            }
                        }
                    }
                    assert(sf.wf());

                    // The contract's description of the change.
                    assert forall|id: u64| #[trigger] sf.spec_has_client(id)
                        == s0.spec_has_client(id) by {
                        if sf.spec_has_client(id) {
                            let j = choose|j: int| 0 <= j < nc.len() && nc[j].id == id;
                            assert(oc[j].id == id);
                        }
                        if s0.spec_has_client(id) {
                            let j = choose|j: int| 0 <= j < oc.len() && oc[j].id == id;
                            assert(nc[j].id == id);
                        }
                    }
                    assert forall|id: u64|
                        id != client_id && s0.spec_has_client(id) implies #[trigger] sf.spec_client(
                        id,
                    ) == s0.spec_client(id) by {
                        let j = s0.spec_client_idx(id);
                        lemma_client_lookup(s0, id, j);
                        assert(j != ci);
                        lemma_client_lookup(sf, id, j);
                    }
                    lemma_client_lookup(sf, client_id, ci);
                    lemma_watch_lookup(sf, wd, n);
                    assert forall|w: i32| w != wd implies #[trigger] sf.spec_has_watch(w)
                        == s0.spec_has_watch(w) by {
                        if sf.spec_has_watch(w) {
                            let k = choose|k: int| 0 <= k < nw.len() && nw[k].wd == w;
                            assert(k != n);
                            assert(ow[k].wd == w);
                        }
                        if s0.spec_has_watch(w) {
                            let k = choose|k: int| 0 <= k < ow.len() && ow[k].wd == w;
                            assert(nw[k].wd == w);
                        }
                    }
                    assert forall|w: i32|
                        w != wd && s0.spec_has_watch(w) implies #[trigger] sf.spec_watch(w)
                        == s0.spec_watch(w) by {
                        let k = s0.spec_watch_idx(w);
                        lemma_watch_lookup(s0, w, k);
                        lemma_watch_lookup(sf, w, k);
                    }
                }
                wd
            },
        }
    }

    /// Drop `client_id`'s subscription to the watch with descriptor `wd`.
    ///
    /// When the watch is live, `client_id` leaves its subscriber list and
    /// `wd` leaves the client's watch list, the watch is deleted as soon as
    /// no subscriber remains, and `true` is returned.  When no such watch
    /// is live the registry is unchanged and `false` is returned.
    #[verifier::rlimit(50)]
    pub fn remove_watch(&mut self, client_id: u64, wd: i32) -> (r: bool)
        requires
            old(self).wf(),
        ensures
            final(self).wf(),
            r == old(self).spec_has_watch(wd),
            final(self).next_wd == old(self).next_wd,
            final(self).next_client_id == old(self).next_client_id,
            !old(self).spec_has_watch(wd) ==> *final(self) == *old(self),
            forall|id: u64| #[trigger]
                final(self).spec_has_client(id) == old(self).spec_has_client(id),
            forall|id: u64|
                id != client_id && old(self).spec_has_client(id)
                    ==> #[trigger] final(self).spec_client(id) == old(self).spec_client(id),
            old(self).spec_has_client(client_id) ==> {
                &&& final(self).spec_client(client_id).id == client_id
                &&& forall|w: i32|
                    #[trigger] final(self).spec_client(client_id).watches@.contains(w) <==> (old(self).spec_client(client_id).watches@.contains(w) && !(old(self).spec_has_watch(
                        wd,
                    ) && w == wd))
                &&& old(self).spec_has_watch(wd) ==> final(self).spec_client(
                    client_id,
                ).watches@.len() == old(self).spec_client(client_id).watches@.len() - (if old(self).spec_client(client_id).watches@.contains(wd) {
                    1int
                } else {
                    0int
                })
            },
            forall|w: i32|
                w != wd ==> #[trigger] final(self).spec_has_watch(w) == old(self).spec_has_watch(
                    w,
                ),
            forall|w: i32|
                w != wd && old(self).spec_has_watch(w) ==> #[trigger] final(self).spec_watch(w)
                    == old(self).spec_watch(w),
            old(self).spec_has_watch(wd) ==> {
                let before = old(self).spec_watch(wd);
                &&& (final(self).spec_has_watch(wd) <==> exists|c: u64|
                    before.clients@.contains(c) && c != client_id)
                &&& (final(self).spec_has_watch(wd) ==> {
                    let after = final(self).spec_watch(wd);
                    &&& after.wd == before.wd
                    &&& after.path@ == before.path@
                    &&& after.mask == before.mask
                    &&& after.recursive == before.recursive
                    &&& forall|c: u64|
                        #[trigger] after.clients@.contains(c) <==> (before.clients@.contains(c)
                            && c != client_id)
                })
            },
    {
        let widx = match self.find_watch_index(wd) {
            None => {
                return false;
            },
            Some(i) => i,
        };
        proof {
            lemma_watch_lookup(*self, wd, widx as int);
        }
        let ghost s0 = *self;

        // Edit the watch's subscriber list; delete the watch when the list
        // runs empty.
        let mut new_clients = copy_vec(&self.watches[widx].clients);
        remove_u64(&mut new_clients, client_id);
        let ghost kept_clients = new_clients@;
        let kept = new_clients.len() > 0;
        if kept {
            let neww = WatchInfo {
                wd,
                path: copy_vec(&self.watches[widx].path),
                mask: self.watches[widx].mask,
                recursive: self.watches[widx].recursive,
                clients: new_clients,
            };
            self.watches[widx] = neww;
        } else {
            self.watches.remove(widx);
        }

        // Edit the client's own watch list.
        let cidx_opt = self.find_client_index(client_id);
        let ghost cfound = cidx_opt is Some;
        let ghost gcidx: int = if cidx_opt is Some { cidx_opt->0 as int } else { 0 };
        if let Some(cidx) = cidx_opt {
            let mut new_watches = copy_vec(&self.clients[cidx].watches);
            remove_i32(&mut new_watches, wd);
            let newc = Client { id: client_id, watches: new_watches };
            self.clients[cidx] = newc;
        }

        proof {
            let sf = *self;
            let ow = s0.watches@;
            let oc = s0.clients@;
            let nw = sf.watches@;
            let nc = sf.clients@;
            let wi = widx as int;
            let before = ow[wi];

            // Shape of the new watch table.
            if kept {
                assert(nw.len() == ow.len());
                assert(forall|k: int| 0 <= k < nw.len() && k != wi ==> nw[k] == ow[k]);
                assert(nw[wi].wd == wd && nw[wi].path@ == before.path@ && nw[wi].mask
                    == before.mask && nw[wi].recursive == before.recursive);
                assert(nw[wi].clients@ == kept_clients);
            } else {
                assert(nw == ow.remove(wi));
                assert forall|k: int| 0 <= k < nw.len() implies nw[k] == (if k < wi {
                    ow[k]
                } else {
                    ow[k + 1]
                }) by {
                    lemma_seq_remove_index(ow, wi, k);
                }
            }
            assert(forall|c: u64| kept_clients.contains(c) <==> (before.clients@.contains(c)
                && c != client_id));
            assert(kept_clients.no_duplicates());

            // Shape of the new client table.
            if cfound {
                assert(nc.len() == oc.len());
                assert(forall|j: int| 0 <= j < nc.len() && j != gcidx ==> nc[j] == oc[j]);
                assert(oc[gcidx].id == client_id);
                assert(nc[gcidx].id == client_id);
                assert(forall|w: i32| nc[gcidx].watches@.contains(w)
                    <==> (oc[gcidx].watches@.contains(w) && w != wd));
                assert(nc[gcidx].watches@.no_duplicates());
            } else {
                assert(nc == oc);
                assert(!s0.spec_has_client(client_id));
            }
            assert(forall|j: int| 0 <= j < nc.len() ==> #[trigger] nc[j].id == oc[j].id);

            // Where each new watch slot comes from in the old table.
            let back = |k: int| if kept || k < wi { k } else { k + 1 };
            assert forall|k: int| #![trigger nw[k]] 0 <= k < nw.len() implies {
                let b = back(k);
                &&& 0 <= b < ow.len()
                &&& (k == wi && kept ==> b == wi)
                &&& (!(k == wi && kept) ==> nw[k] == ow[b])
                &&& nw[k].wd == ow[b].wd
                &&& nw[k].path@ == ow[b].path@
                &&& (!kept ==> b != wi)
                &&& (forall|c: u64| #[trigger] nw[k].clients@.contains(c)
                    ==> ow[b].clients@.contains(c))
                &&& nw[k].clients@.no_duplicates()
                &&& nw[k].clients@.len() > 0
            } by {
                if kept && k == wi {
                    assert(kept_clients.len() > 0);
                    assert forall|c: u64| #[trigger] nw[k].clients@.contains(c)
                        implies ow[wi].clients@.contains(c) by {}
                }
            }
            // Injectivity of the back map.
            assert(forall|k1: int, k2: int|
                #![trigger back(k1), back(k2)]
                0 <= k1 < nw.len() && 0 <= k2 < nw.len() && k1 != k2 ==> back(k1) != back(k2));

            // Well-formedness, conjunct by conjunct.
            assert forall|i: int, j: int|
                #![trigger nc[i].id, nc[j].id]
                0 <= i < j < nc.len() implies nc[i].id != nc[j].id by {
                assert(oc[i].id != oc[j].id);
            }
            assert forall|i: int, j: int|
                #![trigger nw[i].wd, nw[j].wd]
                0 <= i < j < nw.len() implies nw[i].wd != nw[j].wd by {
                assert(nw[i].wd == ow[back(i)].wd && nw[j].wd == ow[back(j)].wd);
                assert(back(i) != back(j));
            }
            assert forall|i: int, j: int|
                #![trigger nw[i].path, nw[j].path]
                0 <= i < j < nw.len() implies nw[i].path@ != nw[j].path@ by {
                assert(nw[i].path@ == ow[back(i)].path@ && nw[j].path@ == ow[back(j)].path@);
                assert(back(i) != back(j));
            }
            assert forall|i: int| 0 <= i < nw.len() implies 1 <= (#[trigger] nw[i]).wd
                < sf.next_wd by {
                assert(nw[i].wd == ow[back(i)].wd);
            }
            assert forall|i: int| 0 <= i < nc.len() implies 1 <= (#[trigger] nc[i]).id
                < sf.next_client_id by {
                assert(nc[i].id == oc[i].id);
            }
            assert forall|i: int, k: int|
                #![trigger nw[i].clients@[k]]
                0 <= i < nw.len() && 0 <= k < nw[i].clients@.len()
                    implies sf.spec_has_client(nw[i].clients@[k]) by {
                let c = nw[i].clients@[k];
                assert(nw[i].clients@.contains(c));
                assert(ow[back(i)].clients@.contains(c));
                let b = back(i);
                let k0 = choose|k0: int|
                    0 <= k0 < ow[b].clients@.len() && #[trigger] ow[b].clients@[k0] == c;
                assert(s0.spec_has_client(ow[b].clients@[k0]));
                let j0 = choose|j0: int| 0 <= j0 < oc.len() && oc[j0].id == c;
                assert(nc[j0].id == c);
            }
            assert forall|i: int, k: int|
                #![trigger nc[i].watches@[k]]
                0 <= i < nc.len() && 0 <= k < nc[i].watches@.len()
                    implies sf.spec_has_watch(nc[i].watches@[k]) by {
                let w = nc[i].watches@[k];
                assert(nc[i].watches@.contains(w));
                if cfound && i == gcidx {
                    assert(oc[i].watches@.contains(w) && w != wd);
                } else {
                    assert(nc[i] == oc[i]);
                    assert(s0.spec_has_watch(oc[i].watches@[k]));
                }
                // In the old table `w` is live; find it and map it forward.
                let j0 = choose|j0: int| 0 <= j0 < ow.len() && ow[j0].wd == w;
                if j0 == wi {
                    // Only the removed watch could die; show w != wd cases.
                    if kept {
                        assert(nw[wi].wd == wd);
                        assert(ow[wi].wd == wd);
                        assert(nw[wi].wd == w);
                    } else {
                        // The watch died: its old subscribers were only
                        // `client_id`, so no client list still holds `w`.
                        assert(w == wd);
                        // Symmetry in s0: oc[i] holds wd  ==>  before holds oc[i].id.
                        if cfound && i == gcidx {
                            assert(false);
                        } else {
                            assert(oc[i].watches@.contains(ow[wi].wd));
                            assert(before.clients@.contains(oc[i].id));
                            assert(kept_clients.contains(oc[i].id) <==> (
                                before.clients@.contains(oc[i].id) && oc[i].id != client_id));
                            if oc[i].id == client_id {
                                // then i is the client's slot, contradicting the case
                                if cfound {
                                    assert(oc[gcidx].id == client_id);
                                    assert(i == gcidx || oc[i].id != oc[gcidx].id);
                                    assert(false);
                                } else {
                                    assert(!s0.spec_has_client(client_id));
                                    assert(false);
                                }
                            } else {
                                assert(kept_clients.contains(oc[i].id));
                                assert(false);
                            }
                        }
                    }
                } else {
                    let kk: int = if kept || j0 < wi {
                        j0
                    } else {
                        j0 - 1
                    };
                    assert(back(kk) == j0);
                    assert(nw[kk].wd == w);
                }
            }
            assert forall|i: int, j: int|
                #![trigger nw[i].clients@.contains(nc[j].id)]
                #![trigger nc[j].watches@.contains(nw[i].wd)]
                0 <= i < nw.len() && 0 <= j < nc.len() implies (nw[i].clients@.contains(
                nc[j].id) <==> nc[j].watches@.contains(nw[i].wd)) by {
                let b = back(i);
                let cid = nc[j].id;
                let w = nw[i].wd;
                assert(cid == oc[j].id);
                assert(w == ow[b].wd);
                assert(ow[b].clients@.contains(oc[j].id) <==> oc[j].watches@.contains(ow[b].wd));
                if kept && i == wi {
                    // the edited watch: lost exactly client_id
                    assert(nw[i].clients@.contains(cid) <==> (before.clients@.contains(cid)
                        && cid != client_id));
                    if cfound && j == gcidx {
                        assert(cid == client_id);
                        assert(!nw[i].clients@.contains(cid));
                        assert(nc[j].watches@.contains(w) <==> (oc[j].watches@.contains(w)
                            && w != wd));
                        assert(w == wd);
                    } else {
                        assert(nc[j] == oc[j]);
                        if cid == client_id {
                            if cfound {
                                assert(oc[j].id != oc[gcidx].id || j == gcidx);
                                assert(false);
                            } else {
                                assert(!s0.spec_has_client(client_id));
                                assert(false);
                            }
                        }
                    }
                } else {
                    // an untouched watch: w != wd
                    assert(nw[i] == ow[b]);
                    assert(b != wi || (kept && i == wi));
                    assert(w != wd) by {
                        if w == wd {
                            assert(ow[b].wd == ow[wi].wd);
                            assert(b == wi);
                        }
                    }
                    if cfound && j == gcidx {
                        assert(nc[j].watches@.contains(w) <==> (oc[j].watches@.contains(w)
                            && w != wd));
                    } else {
                        assert(nc[j] == oc[j]);
                    }
                }
            }
            assert(sf.wf());

            // The contract's description of the change.
            assert forall|id: u64| #[trigger] sf.spec_has_client(id) == s0.spec_has_client(
                id,
            ) by {
                if sf.spec_has_client(id) {
                    let j = choose|j: int| 0 <= j < nc.len() && nc[j].id == id;
                    assert(oc[j].id == id);
                }
                if s0.spec_has_client(id) {
                    let j = choose|j: int| 0 <= j < oc.len() && oc[j].id == id;
                    assert(nc[j].id == id);
                }
            }
            assert forall|id: u64|
                id != client_id && s0.spec_has_client(id) implies #[trigger] sf.spec_client(id)
                == s0.spec_client(id) by {
                let j = s0.spec_client_idx(id);
                lemma_client_lookup(s0, id, j);
                assert(j != gcidx || !cfound);
                assert(nc[j] == oc[j]);
                lemma_client_lookup(sf, id, j);
            }
            if s0.spec_has_client(client_id) {
                assert(cfound) by {
                    if !cfound {
                        assert(!s0.spec_has_client(client_id));
                    }
                }
                lemma_client_lookup(s0, client_id, gcidx);
                lemma_client_lookup(sf, client_id, gcidx);
                assert(sf.spec_client(client_id) == nc[gcidx]);
                assert(s0.spec_client(client_id) == oc[gcidx]);
            }
            assert forall|w: i32| w != wd implies #[trigger] sf.spec_has_watch(w)
                == s0.spec_has_watch(w) by {
                if sf.spec_has_watch(w) {
                    let k = choose|k: int| 0 <= k < nw.len() && nw[k].wd == w;
                    assert(ow[back(k)].wd == w);
                    assert(s0.spec_has_watch(w));
                }
                if s0.spec_has_watch(w) {
                    let j0 = choose|j0: int| 0 <= j0 < ow.len() && ow[j0].wd == w;
                    assert(j0 != wi);
                    let kk: int = if kept || j0 < wi {
                        j0
                    } else {
                        j0 - 1
                    };
                    assert(back(kk) == j0);
                    assert(nw[kk].wd == w);
                }
            }
            assert forall|w: i32| w != wd && s0.spec_has_watch(w) implies #[trigger] sf.spec_watch(
                w,
            ) == s0.spec_watch(w) by {
                let j0 = s0.spec_watch_idx(w);
                lemma_watch_lookup(s0, w, j0);
                assert(j0 != wi);
                let kk: int = if kept || j0 < wi {
                    j0
                } else {
                    j0 - 1
                };
                assert(back(kk) == j0);
                assert(nw[kk] == ow[j0]);
                lemma_watch_lookup(sf, w, kk);
            }
            // The edited watch itself.
            assert(s0.spec_watch(wd) == before);
            if kept {
                lemma_watch_lookup(sf, wd, wi);
                assert(sf.spec_watch(wd) == nw[wi]);
                assert(kept_clients.len() > 0);
                let c0 = kept_clients[0];
                assert(kept_clients.contains(c0));
                assert(before.clients@.contains(c0) && c0 != client_id);
            } else {
                assert(!sf.spec_has_watch(wd)) by {
                    if sf.spec_has_watch(wd) {
                        let k = choose|k: int| 0 <= k < nw.len() && nw[k].wd == wd;
                        assert(ow[back(k)].wd == wd);
                        assert(back(k) != wi);
                        assert(ow[back(k)].wd == ow[wi].wd);
                    }
                }
                assert forall|c: u64| !(before.clients@.contains(c) && c != client_id) by {
                    if before.clients@.contains(c) && c != client_id {
                        assert(kept_clients.contains(c));
                    }
                }
            }
        }
        true
    }

    /// Disconnect `client_id`: leave every watch it subscribes to — deleting
    /// each watch left without subscribers — then drop the client itself.
    /// A registry without that client is left unchanged.
    pub fn unregister_client(&mut self, client_id: u64)
        requires
            old(self).wf(),
        ensures
            final(self).wf(),
            final(self).next_wd == old(self).next_wd,
            final(self).next_client_id == old(self).next_client_id,
            !old(self).spec_has_client(client_id) ==> *final(self) == *old(self),
            !final(self).spec_has_client(client_id),
            forall|id: u64|
                id != client_id ==> #[trigger] final(self).spec_has_client(id) == old(
                    self,
                ).spec_has_client(id),
            forall|id: u64|
                id != client_id && old(self).spec_has_client(id)
                    ==> #[trigger] final(self).spec_client(id) == old(self).spec_client(id),
            forall|w: i32| #[trigger]
                final(self).spec_has_watch(w) <==> (old(self).spec_has_watch(w) && exists|c: u64|
                    old(self).spec_watch(w).clients@.contains(c) && c != client_id),
            forall|w: i32|
                #[trigger] final(self).spec_has_watch(w) ==> {
                    let before = old(self).spec_watch(w);
                    let after = final(self).spec_watch(w);
                    &&& after.wd == before.wd
                    &&& after.path@ == before.path@
                    &&& after.mask == before.mask
                    &&& after.recursive == before.recursive
                    &&& forall|c: u64|
                        #[trigger] after.clients@.contains(c) <==> (before.clients@.contains(c)
                            && c != client_id)
                },
    {
        let ghost s0 = *old(self);
        if self.find_client_index(client_id).is_none() {
            proof {
                // Every live watch keeps a subscriber other than the absent id.
                assert forall|w: i32| #[trigger] self.spec_has_watch(w) implies exists|c: u64|
                    self.spec_watch(w).clients@.contains(c) && c != client_id by {
                    let wi = self.spec_watch_idx(w);
                    lemma_watch_lookup(*self, w, wi);
                    let cs = self.spec_watch(w).clients@;
                    assert(cs.len() > 0);
                    let c0 = cs[0];
                    assert(cs.contains(c0));
                    assert(self.spec_has_client(c0));
                    assert(c0 != client_id);
                }
            }
            return ;
        }
        proof {
            // Initially nothing is processed: watches off the client's list
            // do not subscribe it, by symmetry.
            lemma_client_lookup(s0, client_id, s0.spec_client_idx(client_id));
            assert forall|w: i32|
                s0.spec_has_watch(w) && !s0.spec_client(client_id).watches@.contains(w)
                    implies !s0.spec_watch(w).clients@.contains(client_id) by {
                let wi = s0.spec_watch_idx(w);
                lemma_watch_lookup(s0, w, wi);
                let ci = s0.spec_client_idx(client_id);
                assert(s0.watches@[wi].clients@.contains(s0.clients@[ci].id)
                    <==> s0.clients@[ci].watches@.contains(s0.watches@[wi].wd));
            }
            assert forall|w: i32|
                s0.spec_has_watch(w) && !s0.spec_client(client_id).watches@.contains(w)
                    implies exists|c: u64| s0.spec_watch(w).clients@.contains(c) && c
                    != client_id by {
                let wi = s0.spec_watch_idx(w);
                lemma_watch_lookup(s0, w, wi);
                let cs = s0.spec_watch(w).clients@;
                assert(cs.len() > 0);
                let c0 = cs[0];
                assert(cs.contains(c0));
                assert(c0 != client_id);
            }
        }
        loop
            invariant
                self.wf(),
                s0.wf(),
                s0.spec_has_client(client_id),
                self.spec_has_client(client_id),
                self.next_wd == s0.next_wd,
                self.next_client_id == s0.next_client_id,
                forall|id: u64|
                    id != client_id ==> #[trigger] self.spec_has_client(id)
                        == s0.spec_has_client(id),
                forall|id: u64|
                    id != client_id && s0.spec_has_client(id) ==> #[trigger] self.spec_client(id)
                        == s0.spec_client(id),
                forall|w: i32| #[trigger]
                    self.spec_client(client_id).watches@.contains(w) ==> s0.spec_client(
                        client_id,
                    ).watches@.contains(w),
                forall|w: i32| #[trigger]
                    self.spec_client(client_id).watches@.contains(w) ==> self.spec_has_watch(w)
                        && self.spec_watch(w) == s0.spec_watch(w) && s0.spec_has_watch(w),
                forall|w: i32|
                    !self.spec_client(client_id).watches@.contains(w) ==> (
                    #[trigger] self.spec_has_watch(w) <==> (s0.spec_has_watch(w) && exists|c: u64|
                        s0.spec_watch(w).clients@.contains(c) && c != client_id)),
                forall|w: i32|
                    !self.spec_client(client_id).watches@.contains(w) && #[trigger] self.spec_has_watch(
                        w,
                    ) ==> {
                        let before = s0.spec_watch(w);
                        let after = self.spec_watch(w);
                        &&& after.wd == before.wd
                        &&& after.path@ == before.path@
                        &&& after.mask == before.mask
                        &&& after.recursive == before.recursive
                        &&& forall|c: u64|
                            #[trigger] after.clients@.contains(c) <==> (
                            before.clients@.contains(c) && c != client_id)
                    },
            ensures
                self.wf(),
                self.spec_has_client(client_id),
                self.spec_client(client_id).watches@.len() == 0,
                self.next_wd == s0.next_wd,
                self.next_client_id == s0.next_client_id,
                forall|id: u64|
                    id != client_id ==> #[trigger] self.spec_has_client(id)
                        == s0.spec_has_client(id),
                forall|id: u64|
                    id != client_id && s0.spec_has_client(id) ==> #[trigger] self.spec_client(id)
                        == s0.spec_client(id),
                forall|w: i32| #[trigger]
                    self.spec_has_watch(w) <==> (s0.spec_has_watch(w) && exists|c: u64|
                        s0.spec_watch(w).clients@.contains(c) && c != client_id),
                forall|w: i32|
                    #[trigger] self.spec_has_watch(w) ==> {
                        let before = s0.spec_watch(w);
                        let after = self.spec_watch(w);
                        &&& after.wd == before.wd
                        &&& after.path@ == before.path@
                        &&& after.mask == before.mask
                        &&& after.recursive == before.recursive
                        &&& forall|c: u64|
                            #[trigger] after.clients@.contains(c) <==> (
                            before.clients@.contains(c) && c != client_id)
                    },
            decreases self.spec_client(client_id).watches@.len(),
        {
            let cidx_opt = self.find_client_index(client_id);
            let cidx = cidx_opt.unwrap();
            proof {
                lemma_client_lookup(*self, client_id, cidx as int);
            }
            if self.clients[cidx].watches.len() == 0 {
                break ;
            }
            let wd0 = self.clients[cidx].watches[0];
            proof {
                assert(self.spec_client(client_id).watches@.contains(wd0));
            }
            let ghost mid = *self;
            self.remove_watch(client_id, wd0);
            proof {
                // The processed watch reached its final form; the rest is
                // untouched this round.
                assert(mid.spec_watch(wd0) == s0.spec_watch(wd0));
                assert forall|w: i32| #[trigger]
                    self.spec_client(client_id).watches@.contains(w) implies self.spec_has_watch(
                    w,
                ) && self.spec_watch(w) == s0.spec_watch(w) && s0.spec_has_watch(w) by {
                    assert(mid.spec_client(client_id).watches@.contains(w) && w != wd0);
                    assert(self.spec_has_watch(w) == mid.spec_has_watch(w));
                    assert(self.spec_watch(w) == mid.spec_watch(w));
                }
                assert forall|w: i32|
                    !self.spec_client(client_id).watches@.contains(w) implies (
                #[trigger] self.spec_has_watch(w) <==> (s0.spec_has_watch(w) && exists|c: u64|
                    s0.spec_watch(w).clients@.contains(c) && c != client_id)) by {
                    if w == wd0 {
                        assert(mid.spec_has_watch(wd0));
                        assert(self.spec_has_watch(wd0) <==> exists|c: u64|
                            mid.spec_watch(wd0).clients@.contains(c) && c != client_id);
                    } else {
                        assert(!mid.spec_client(client_id).watches@.contains(w));
                        assert(self.spec_has_watch(w) == mid.spec_has_watch(w));
                        if mid.spec_has_watch(w) {
                            assert(self.spec_watch(w) == mid.spec_watch(w));
                        }
                    }
                }
                assert forall|w: i32|
                    !self.spec_client(client_id).watches@.contains(w)
                        && #[trigger] self.spec_has_watch(w) implies {
                    let before = s0.spec_watch(w);
                    let after = self.spec_watch(w);
                    &&& after.wd == before.wd
                    &&& after.path@ == before.path@
                    &&& after.mask == before.mask
                    &&& after.recursive == before.recursive
                    &&& forall|c: u64|
                        #[trigger] after.clients@.contains(c) <==> (before.clients@.contains(c)
                            && c != client_id)
                } by {
                    if w == wd0 {
                        assert(self.spec_watch(wd0).wd == mid.spec_watch(wd0).wd);
                    } else {
                        assert(!mid.spec_client(client_id).watches@.contains(w));
                        assert(self.spec_watch(w) == mid.spec_watch(w));
                    }
                }
            }
        }
        // The client subscribes to nothing now; drop its record.
        let cidx_opt = self.find_client_index(client_id);
        let cidx = cidx_opt.unwrap();
        proof {
            lemma_client_lookup(*self, client_id, cidx as int);
        }
        let ghost mid = *self;
        self.clients.remove(cidx);
        proof {
            let sf = *self;
            let oc = mid.clients@;
            let nc = sf.clients@;
            let ci = cidx as int;
            assert(oc[ci].watches@.len() == 0);
            assert forall|k: int| 0 <= k < nc.len() implies nc[k] == (if k < ci {
                oc[k]
            } else {
                oc[k + 1]
            }) by {
                lemma_seq_remove_index(oc, ci, k);
            }
            let back = |k: int| if k < ci {
                k
            } else {
                k + 1
            };
            // No watch subscribes the departing client any more.
            assert forall|i: int|
                0 <= i < sf.watches@.len() implies !(#[trigger] sf.watches@[i]).clients@.contains(
                client_id) by {
                if mid.watches@[i].clients@.contains(mid.clients@[ci].id) {
                    assert(mid.clients@[ci].watches@.contains(mid.watches@[i].wd));
                }
            }
            assert forall|i: int, j: int|
                #![trigger nc[i].id, nc[j].id]
                0 <= i < j < nc.len() implies nc[i].id != nc[j].id by {
                assert(nc[i] == oc[back(i)] && nc[j] == oc[back(j)]);
            }
            assert forall|i: int| 0 <= i < nc.len() implies 1 <= (#[trigger] nc[i]).id
                < sf.next_client_id by {
                assert(nc[i] == oc[back(i)]);
            }
            assert forall|i: int, k: int|
                #![trigger sf.watches@[i].clients@[k]]
                0 <= i < sf.watches@.len() && 0 <= k < sf.watches@[i].clients@.len()
                    implies sf.spec_has_client(sf.watches@[i].clients@[k]) by {
                let c = sf.watches@[i].clients@[k];
                assert(mid.spec_has_client(c));
                let j0 = choose|j0: int| 0 <= j0 < oc.len() && oc[j0].id == c;
                assert(sf.watches@[i].clients@.contains(c));
                assert(c != client_id);
                assert(j0 != ci) by {
                    if j0 == ci {
                        assert(oc[ci].id == client_id);
                    }
                }
                let kk: int = if j0 < ci {
                    j0
                } else {
                    j0 - 1
                };
                assert(back(kk) == j0);
                assert(nc[kk].id == c);
            }
            assert forall|i: int, k: int|
                #![trigger nc[i].watches@[k]]
                0 <= i < nc.len() && 0 <= k < nc[i].watches@.len() implies sf.spec_has_watch(
                nc[i].watches@[k]) by {
                assert(nc[i] == oc[back(i)]);
                assert(mid.spec_has_watch(oc[back(i)].watches@[k]));
            }
            assert forall|i: int, j: int|
                #![trigger sf.watches@[i].clients@.contains(nc[j].id)]
                #![trigger nc[j].watches@.contains(sf.watches@[i].wd)]
                0 <= i < sf.watches@.len() && 0 <= j < nc.len() implies (
            sf.watches@[i].clients@.contains(nc[j].id) <==> nc[j].watches@.contains(
                sf.watches@[i].wd,
            )) by {
                assert(nc[j] == oc[back(j)]);
                assert(mid.watches@[i].clients@.contains(oc[back(j)].id)
                    <==> oc[back(j)].watches@.contains(mid.watches@[i].wd));
            }
            assert(sf.wf());
            assert(oc[ci].id == client_id);
            assert(!sf.spec_has_client(client_id)) by {
                if sf.spec_has_client(client_id) {
                    let j = choose|j: int| 0 <= j < nc.len() && nc[j].id == client_id;
                    assert(nc[j] == oc[back(j)]);
                    assert(back(j) != ci);
                    assert(oc[back(j)].id != oc[ci].id);
                }
            }
            assert forall|id: u64| id != client_id implies #[trigger] sf.spec_has_client(id)
                == mid.spec_has_client(id) by {
                if sf.spec_has_client(id) {
                    let j = choose|j: int| 0 <= j < nc.len() && nc[j].id == id;
                    assert(oc[back(j)].id == id);
                }
                if mid.spec_has_client(id) {
                    let j0 = choose|j0: int| 0 <= j0 < oc.len() && oc[j0].id == id;
                    assert(j0 != ci);
                    let kk: int = if j0 < ci {
                        j0
                    } else {
                        j0 - 1
                    };
                    assert(back(kk) == j0);
                    assert(nc[kk].id == id);
                }
            }
            assert forall|id: u64|
                id != client_id && mid.spec_has_client(id) implies #[trigger] sf.spec_client(id)
                == mid.spec_client(id) by {
                let j0 = mid.spec_client_idx(id);
                lemma_client_lookup(mid, id, j0);
                assert(j0 != ci);
                let kk: int = if j0 < ci {
                    j0
                } else {
                    j0 - 1
                };
                assert(back(kk) == j0);
                assert(nc[kk] == oc[j0]);
                lemma_client_lookup(sf, id, kk);
            }
            // Watches were already in final form at loop exit.
            assert(sf.watches@ == mid.watches@);
            assert forall|w: i32| #[trigger]
                sf.spec_has_watch(w) == mid.spec_has_watch(w) && (sf.spec_has_watch(w)
                    ==> sf.spec_watch(w) == mid.spec_watch(w)) by {}
        }
    }

    /// The watch an event at `path` is attributed to when no watch sits on
    /// the path itself: the nearest ancestor carrying a recursive watch.
    pub open spec fn spec_find_watch_from_ancestors(self, path: Seq<u8>) -> Option<WatchInfo>
        decreases path.len(),
    {
        match crate::paths::spec_parent(path) {
            None => None,
            Some(pp) => if pp.len() < path.len() {
                if self.spec_has_path(pp) && self.spec_watch_by_path(pp).recursive {
                    Some(self.spec_watch_by_path(pp))
                } else {
                    self.spec_find_watch_from_ancestors(pp)
                }
            } else {
                // a parent is always shorter; this arm never applies
                None
            },
        }
    }

    /// The watch an event at `path` is attributed to: the watch on the
    /// path itself when one is live, else the nearest recursive ancestor.
    pub open spec fn spec_find_watch(self, path: Seq<u8>) -> Option<WatchInfo> {
        if self.spec_has_path(path) {
            Some(self.spec_watch_by_path(path))
        } else {
            self.spec_find_watch_from_ancestors(path)
        }
    }

    /// The watch an event at `path` belongs to: an exact match first, else
    /// the nearest ancestor whose watch is recursive, walking upward.
    pub fn find_watch_for_path(&self, path: &Vec<u8>) -> (r: Option<WatchInfo>)
        requires
            self.wf(),
        ensures
            match r {
                None => self.spec_find_watch(path@) is None,
                Some(w) => self.spec_find_watch(path@) matches Some(sw) && watch_like(w, sw),
            },
    {
        match self.find_path_index(path) {
            Some(i) => {
                proof {
                    lemma_path_lookup(*self, path@, i as int);
                }
                return Some(self.watches[i].snapshot());
            },
            None => {},
        }
        let mut current = copy_vec(path);
        loop
            invariant
                self.wf(),
                self.spec_find_watch_from_ancestors(path@)
                    == self.spec_find_watch_from_ancestors(current@),
            ensures
                match crate::paths::spec_parent(current@) {
                    None => self.spec_find_watch_from_ancestors(path@) is None,
                    Some(pp) => self.spec_has_path(pp) && self.spec_watch_by_path(pp).recursive
                        && self.spec_find_watch_from_ancestors(path@) == Some(
                        self.spec_watch_by_path(pp),
                    ),
                },
            decreases current@.len(),
        {
            proof {
                crate::paths::lemma_parent_shorter(current@);
            }
            let parent = match crate::paths::parent_of(&current) {
                None => {
                    break ;
                },
                Some(pp) => pp,
            };
            match self.find_path_index(&parent) {
                Some(i) => {
                    proof {
                        lemma_path_lookup(*self, parent@, i as int);
                    }
                    if self.watches[i].recursive {
                        break ;
                    }
                },
                None => {},
            }
            current = parent;
        }
        let parent = match crate::paths::parent_of(&current) {
            None => {
                return None;
            },
            Some(pp) => pp,
        };
        match self.find_path_index(&parent) {
            Some(i) => {
                proof {
                    lemma_path_lookup(*self, parent@, i as int);
                }
                Some(self.watches[i].snapshot())
            },
            None => None,
        }
    }
}

/// In a well-formed registry, any table slot holding id `id` is the slot
/// [`DaemonState::spec_client`] denotes.
pub proof fn lemma_client_lookup(s: DaemonState, id: u64, i: int)
    requires
        s.wf(),
        0 <= i < s.clients@.len(),
        s.clients@[i].id == id,
    ensures
        s.spec_has_client(id),
        s.spec_client_idx(id) == i,
        s.spec_client(id) == s.clients@[i],
{
    assert(s.spec_has_client(id));
    let j = s.spec_client_idx(id);
    assert(0 <= j < s.clients@.len() && s.clients@[j].id == id);
    if i < j {
        assert(s.clients@[i].id != s.clients@[j].id);
    } else if j < i {
        assert(s.clients@[j].id != s.clients@[i].id);
    }
}

/// In a well-formed registry, any table slot holding descriptor `wd` is the
/// slot [`DaemonState::spec_watch`] denotes.
pub proof fn lemma_watch_lookup(s: DaemonState, wd: i32, i: int)
    requires
        s.wf(),
        0 <= i < s.watches@.len(),
        s.watches@[i].wd == wd,
    ensures
        s.spec_has_watch(wd),
        s.spec_watch_idx(wd) == i,
        s.spec_watch(wd) == s.watches@[i],
{
    assert(s.spec_has_watch(wd));
    let j = s.spec_watch_idx(wd);
    assert(0 <= j < s.watches@.len() && s.watches@[j].wd == wd);
    if i < j {
        assert(s.watches@[i].wd != s.watches@[j].wd);
    } else if j < i {
        assert(s.watches@[j].wd != s.watches@[i].wd);
    }
}

/// In a well-formed registry, any table slot holding path `path` is the
/// slot [`DaemonState::spec_watch_by_path`] denotes.
pub proof fn lemma_path_lookup(s: DaemonState, path: Seq<u8>, i: int)
    requires
        s.wf(),
        0 <= i < s.watches@.len(),
        s.watches@[i].path@ == path,
    ensures
        s.spec_has_path(path),
        s.spec_path_idx(path) == i,
        s.spec_watch_by_path(path) == s.watches@[i],
{
    assert(s.spec_has_path(path));
    let j = s.spec_path_idx(path);
    assert(0 <= j < s.watches@.len() && s.watches@[j].path@ == path);
    if i < j {
        assert(s.watches@[i].path@ != s.watches@[j].path@);
    } else if j < i {
        assert(s.watches@[j].path@ != s.watches@[i].path@);
    }
}

/// Referential symmetry, one direction: every id in a live watch's
/// subscriber list names a connected client, and that client's watch list
/// holds the watch's descriptor.
pub proof fn lemma_watch_subscribers_live(s: DaemonState, wd: i32, id: u64)
    requires
        s.wf(),
        s.spec_has_watch(wd),
        s.spec_watch(wd).clients@.contains(id),
    ensures
        s.spec_has_client(id),
        s.spec_client(id).watches@.contains(wd),
{
    let wi = s.spec_watch_idx(wd);
    lemma_watch_lookup(s, wd, wi);
    let k = choose|k: int|
        0 <= k < s.watches@[wi].clients@.len() && s.watches@[wi].clients@[k] == id;
    assert(s.spec_has_client(s.watches@[wi].clients@[k]));
    let ci = s.spec_client_idx(id);
    lemma_client_lookup(s, id, ci);
    assert(s.watches@[wi].clients@.contains(s.clients@[ci].id) <==> s.clients@[ci].watches@.contains(
        s.watches@[wi].wd,
    ));
}

/// Referential symmetry, the other direction: every descriptor in a
/// connected client's watch list names a live watch, and that watch's
/// subscriber list holds the client's id.
pub proof fn lemma_client_watches_live(s: DaemonState, id: u64, wd: i32)
    requires
        s.wf(),
        s.spec_has_client(id),
        s.spec_client(id).watches@.contains(wd),
    ensures
        s.spec_has_watch(wd),
        s.spec_watch(wd).clients@.contains(id),
{
    let ci = s.spec_client_idx(id);
    lemma_client_lookup(s, id, ci);
    let k = choose|k: int|
        0 <= k < s.clients@[ci].watches@.len() && s.clients@[ci].watches@[k] == wd;
    assert(s.spec_has_watch(s.clients@[ci].watches@[k]));
    let wi = s.spec_watch_idx(wd);
    lemma_watch_lookup(s, wd, wi);
    assert(s.watches@[wi].clients@.contains(s.clients@[ci].id) <==> s.clients@[ci].watches@.contains(
        s.watches@[wi].wd,
    ));
}

/// The watch table and the path index agree: a live descriptor's path is
/// indexed and maps back to the same descriptor, and every indexed path
/// belongs to exactly the watch that holds it.
pub proof fn lemma_watch_path_index(s: DaemonState, wd: i32, path: Seq<u8>)
    requires
        s.wf(),
    ensures
        s.spec_has_watch(wd) ==> s.spec_has_path(s.spec_watch(wd).path@) && s.spec_watch_by_path(
            s.spec_watch(wd).path@,
        ).wd == wd,
        s.spec_has_path(path) ==> s.spec_has_watch(s.spec_watch_by_path(path).wd)
            && s.spec_watch(s.spec_watch_by_path(path).wd).path@ == path,
{
    if s.spec_has_watch(wd) {
        let wi = s.spec_watch_idx(wd);
        lemma_watch_lookup(s, wd, wi);
        lemma_path_lookup(s, s.watches@[wi].path@, wi);
    }
    if s.spec_has_path(path) {
        let pi = s.spec_path_idx(path);
        lemma_path_lookup(s, path, pi);
        lemma_watch_lookup(s, s.watches@[pi].wd, pi);
    }
}

/// No live watch is without subscribers.
pub proof fn lemma_no_orphan_watch(s: DaemonState, wd: i32)
    requires
        s.wf(),
        s.spec_has_watch(wd),
    ensures
        s.spec_watch(wd).clients@.len() > 0,
{
    let wi = s.spec_watch_idx(wd);
    lemma_watch_lookup(s, wd, wi);
}

/// Every live descriptor lies below the allocation counter.  A fresh
/// descriptor therefore exceeds every descriptor ever handed out, so the
/// descriptors a daemon emits are strictly increasing and never repeat.
pub proof fn lemma_descriptors_below_counter(s: DaemonState, wd: i32)
    requires
        s.wf(),
        s.spec_has_watch(wd),
    ensures
        s.spec_watch(wd).wd == wd,
        1 <= wd < s.next_wd,
{
    let wi = s.spec_watch_idx(wd);
    lemma_watch_lookup(s, wd, wi);
}

/// Attribution by walking ancestors: with the registry's single watch
/// rooted at `root` and marked recursive, every path below the root is
/// attributed to it.
proof fn lemma_ancestor_attribution(s: DaemonState, root: Seq<u8>, p: Seq<u8>)
    requires
        s.wf(),
        root.len() >= 1,
        s.watches@.len() == 1,
        s.watches@[0].path@ == root,
        s.watches@[0].recursive,
        crate::paths::spec_descends_from(root, p),
    ensures
        s.spec_find_watch_from_ancestors(p) == Some(s.watches@[0]),
    decreases p.len(),
{
    crate::paths::lemma_parent_stays_below(root, p);
    crate::paths::lemma_parent_shorter(p);
    let pp = crate::paths::spec_parent(p)->Some_0;
    if pp == root {
        lemma_path_lookup(s, root, 0);
    } else {
        assert(!s.spec_has_path(pp)) by {
            if s.spec_has_path(pp) {
                let pi = s.spec_path_idx(pp);
                assert(s.watches@[pi].path@ == pp);
            }
        }
        lemma_ancestor_attribution(s, root, pp);
    }
}

/// A single recursive watch at `root` is attributed every change below
/// its root: when the changed path has a relative name under `root`, the
/// lookup lands on that watch (and the dispatcher then emits the record
/// under that relative name).
pub proof fn lemma_recursive_watch_attribution(s: DaemonState, p: Seq<u8>)
    requires
        s.wf(),
        s.watches@.len() == 1,
        s.watches@[0].recursive,
        s.watches@[0].path@.len() >= 1,
        crate::paths::spec_relative_name(s.watches@[0].path@, p) is Some,
    ensures
        s.spec_find_watch(p) == Some(s.watches@[0]),
{
    let root = s.watches@[0].path@;
    crate::paths::lemma_relative_name_descends(root, p);
    assert(!s.spec_has_path(p)) by {
        if s.spec_has_path(p) {
            let pi = s.spec_path_idx(p);
            assert(s.watches@[pi].path@ == p);
        }
    }
    lemma_ancestor_attribution(s, root, p);
}

/// A watch found by walking ancestors is a live table entry.
proof fn lemma_from_ancestors_live(s: DaemonState, path: Seq<u8>)
    requires
        s.wf(),
        s.spec_find_watch_from_ancestors(path) is Some,
    ensures
        ({
            let w = s.spec_find_watch_from_ancestors(path)->Some_0;
            &&& s.spec_has_watch(w.wd)
            &&& s.spec_watch(w.wd) == w
        }),
    decreases path.len(),
{
    crate::paths::lemma_parent_shorter(path);
    let pp = crate::paths::spec_parent(path)->Some_0;
    if s.spec_has_path(pp) && s.spec_watch_by_path(pp).recursive {
        let pi = s.spec_path_idx(pp);
        lemma_path_lookup(s, pp, pi);
        lemma_watch_lookup(s, s.watches@[pi].wd, pi);
    } else {
        lemma_from_ancestors_live(s, pp);
    }
}

/// The watch the lookup attributes an event to is a live table entry, so
/// its descriptor resolves back to it.
pub proof fn lemma_found_watch_live(s: DaemonState, path: Seq<u8>)
    requires
        s.wf(),
        s.spec_find_watch(path) is Some,
    ensures
        ({
            let w = s.spec_find_watch(path)->Some_0;
            &&& s.spec_has_watch(w.wd)
            &&& s.spec_watch(w.wd) == w
        }),
{
    if s.spec_has_path(path) {
        let pi = s.spec_path_idx(path);
        lemma_path_lookup(s, path, pi);
        lemma_watch_lookup(s, s.watches@[pi].wd, pi);
    } else {
        lemma_from_ancestors_live(s, path);
    }
}

/// A field-for-field copy of a vector of plain values.
pub fn copy_vec<T: Copy>(v: &Vec<T>) -> (r: Vec<T>)
    ensures
        r@ == v@,
{
    let mut r: Vec<T> = Vec::new();
    let mut i: usize = 0;
    while i < v.len()
        invariant
            i <= v@.len(),
            r@ == v@.subrange(0, i as int),
        decreases v@.len() - i,
    {
        r.push(v[i]);
        assert(r@ =~= v@.subrange(0, i + 1));
        i = i + 1;
    }
    assert(r@ =~= v@);
    r
}

/// Whether `x` occurs in `v`.
fn vec_contains_u64(v: &Vec<u64>, x: u64) -> (r: bool)
    ensures
        r == v@.contains(x),
{
    let mut i: usize = 0;
    while i < v.len()
        invariant
            i <= v@.len(),
            forall|k: int| 0 <= k < i ==> v@[k] != x,
        decreases v@.len() - i,
    {
        if v[i] == x {
            return true;
        }
        i = i + 1;
    }
    false
}

/// Whether `x` occurs in `v`.
fn vec_contains_i32(v: &Vec<i32>, x: i32) -> (r: bool)
    ensures
        r == v@.contains(x),
{
    let mut i: usize = 0;
    while i < v.len()
        invariant
            i <= v@.len(),
            forall|k: int| 0 <= k < i ==> v@[k] != x,
        decreases v@.len() - i,
    {
        if v[i] == x {
            return true;
        }
        i = i + 1;
    }
    false
}

/// Index arithmetic of `Seq::remove`: element `k` of `s.remove(i)` is the
/// element of `s` at `k` or `k + 1`, by the side of `i` it falls on.
pub proof fn lemma_seq_remove_index<T>(s: Seq<T>, i: int, k: int)
    requires
        0 <= i < s.len(),
        0 <= k < s.len() - 1,
    ensures
        s.remove(i)[k] == (if k < i {
            s[k]
        } else {
            s[k + 1]
        }),
{
    if k < i {
        assert(s.remove(i)[k] == s.subrange(0, i)[k]);
    } else {
        assert(s.remove(i)[k] == s.subrange(i + 1, s.len() as int)[k - i]);
    }
}

/// Remove the occurrence of `x` from a duplicate-free vector, keeping the
/// order of the rest.
fn remove_u64(v: &mut Vec<u64>, x: u64)
    requires
        old(v)@.no_duplicates(),
    ensures
        final(v)@.no_duplicates(),
        forall|y: u64| final(v)@.contains(y) <==> (old(v)@.contains(y) && y != x),
        old(v)@.contains(x) ==> final(v)@.len() == old(v)@.len() - 1,
        !old(v)@.contains(x) ==> final(v)@ == old(v)@,
{
    let ghost orig = v@;
    let mut i: usize = 0;
    while i < v.len()
        invariant
            v@ == orig,
            orig == old(v)@,
            orig.no_duplicates(),
            i <= orig.len(),
            forall|k: int| 0 <= k < i ==> orig[k] != x,
        decreases orig.len() - i,
    {
        if v[i] == x {
            v.remove(i);
            proof {
                let n = v@;
                assert(n == orig.remove(i as int));
                assert forall|k: int| 0 <= k < n.len() implies n[k] == (if k < i {
                    orig[k]
                } else {
                    orig[k + 1]
                }) by {
                    if k < i {
                        assert(n[k] == orig.subrange(0, i as int)[k]);
                    } else {
                        assert(n[k] == orig.subrange(i as int + 1, orig.len() as int)[k - i]);
                    }
                }
                assert forall|y: u64| n.contains(y) implies (orig.contains(y) && y != x) by {
                    let k = choose|k: int| 0 <= k < n.len() && n[k] == y;
                    if k < i {
                        assert(orig[k] == y);
                        if y == x {
                            assert(orig[k] != x);
                            assert(false);
                        }
                    } else {
                        assert(orig[k + 1] == y);
                        assert(k + 1 != i);
                        if y == x {
                            assert(orig[i as int] == x && orig[k + 1] == x);
                            assert(orig.no_duplicates());
                            assert(orig[k + 1] != orig[i as int]);
                            assert(false);
                        }
                    }
                }
                assert forall|y: u64| orig.contains(y) && y != x implies n.contains(y) by {
                    let k = choose|k: int| 0 <= k < orig.len() && orig[k] == y;
                    if k < i {
                        assert(n[k] == y);
                    } else {
                        assert(k != i);
                        assert(n[k - 1] == y);
                    }
                }
                assert forall|p: int, q: int|
                    0 <= p < n.len() && 0 <= q < n.len() && p != q implies n[p] != n[q] by {
                    let op: int = if p < i { p } else { p + 1 };
                    let oq: int = if q < i { q } else { q + 1 };
                    assert(n[p] == orig[op] && n[q] == orig[oq]);
                }
                assert(n.no_duplicates());
            }
            return;
        }
        i = i + 1;
    }
    proof {
        assert(!orig.contains(x));
    }
}

/// Remove the occurrence of `x` from a duplicate-free vector, keeping the
/// order of the rest.
fn remove_i32(v: &mut Vec<i32>, x: i32)
    requires
        old(v)@.no_duplicates(),
    ensures
        final(v)@.no_duplicates(),
        forall|y: i32| final(v)@.contains(y) <==> (old(v)@.contains(y) && y != x),
        old(v)@.contains(x) ==> final(v)@.len() == old(v)@.len() - 1,
        !old(v)@.contains(x) ==> final(v)@ == old(v)@,
{
    let ghost orig = v@;
    let mut i: usize = 0;
    while i < v.len()
        invariant
            v@ == orig,
            orig == old(v)@,
            orig.no_duplicates(),
            i <= orig.len(),
            forall|k: int| 0 <= k < i ==> orig[k] != x,
        decreases orig.len() - i,
    {
        if v[i] == x {
            v.remove(i);
            proof {
                let n = v@;
                assert(n == orig.remove(i as int));
                assert forall|k: int| 0 <= k < n.len() implies n[k] == (if k < i {
                    orig[k]
                } else {
                    orig[k + 1]
                }) by {
                    if k < i {
                        assert(n[k] == orig.subrange(0, i as int)[k]);
                    } else {
                        assert(n[k] == orig.subrange(i as int + 1, orig.len() as int)[k - i]);
                    }
                }
                assert forall|y: i32| n.contains(y) implies (orig.contains(y) && y != x) by {
                    let k = choose|k: int| 0 <= k < n.len() && n[k] == y;
                    if k < i {
                        assert(orig[k] == y);
                        if y == x {
                            assert(orig[k] != x);
                            assert(false);
                        }
                    } else {
                        assert(orig[k + 1] == y);
                        assert(k + 1 != i);
                        if y == x {
                            assert(orig[i as int] == x && orig[k + 1] == x);
                            assert(orig.no_duplicates());
                            assert(orig[k + 1] != orig[i as int]);
                            assert(false);
                        }
                    }
                }
                assert forall|y: i32| orig.contains(y) && y != x implies n.contains(y) by {
                    let k = choose|k: int| 0 <= k < orig.len() && orig[k] == y;
                    if k < i {
                        assert(n[k] == y);
                    } else {
                        assert(k != i);
                        assert(n[k - 1] == y);
                    }
                }
                assert forall|p: int, q: int|
                    0 <= p < n.len() && 0 <= q < n.len() && p != q implies n[p] != n[q] by {
                    let op: int = if p < i { p } else { p + 1 };
                    let oq: int = if q < i { q } else { q + 1 };
                    assert(n[p] == orig[op] && n[q] == orig[oq]);
                }
                assert(n.no_duplicates());
            }
            return;
        }
        i = i + 1;
    }
    proof {
        assert(!orig.contains(x));
    }
}

/// Byte-string equality, stated over the views.
pub fn bytes_eq(a: &Vec<u8>, b: &Vec<u8>) -> (r: bool)
    ensures
        r == (a@ == b@),
{
    if a.len() != b.len() {
        return false;
    }
    let mut i: usize = 0;
    while i < a.len()
        invariant
            i <= a@.len(),
            a@.len() == b@.len(),
            forall|k: int| 0 <= k < i ==> a@[k] == b@[k],
        decreases a@.len() - i,
    {
        if a[i] != b[i] {
            return false;
        }
        i = i + 1;
    }
    proof {
        assert(a@ =~= b@);
    }
    true
}

} // verus!
