//! The shared store: one `Store` behind a verified reader/writer lock, the
//! single piece of state the request handlers and the periodic publisher
//! have in common.
//!
//! Writers hold the lock for one map mutation, readers for one full copy;
//! the lock is never held across anything else.  The lock's invariant keeps
//! every value that passes through it well formed, so any snapshot a reader
//! takes carries the store's key-uniqueness invariant.

use crate::api;
use crate::api::Method;
use crate::api::Response;
use crate::json;
use crate::store::Store;
use vstd::prelude::*;
use vstd::rwlock::RwLock;
use vstd::rwlock::RwLockPredicate;

verus! {

/// The lock invariant: whatever sits in the lock is a well-formed store.
pub struct WfStore {}

impl RwLockPredicate<Store> for WfStore {
    open spec fn inv(self, s: Store) -> bool {
        s.wf()
    }
}

/// A store shared between any number of readers and writers.
pub struct SharedStore {
    lock: RwLock<Store, WfStore>,
}

impl SharedStore {
    /// Creates a shared store holding the empty mapping.
    pub fn new() -> SharedStore {
        SharedStore { lock: RwLock::new(Store::new(), Ghost(WfStore {})) }
    }

    /// Inserts or overwrites one entry under the write lock.  The critical
    /// section is the single map mutation.
    pub fn upsert(&self, name: Vec<u8>, quantity: i32) {
        let (mut s, handle) = self.lock.acquire_write();
        s.upsert(name, quantity);
        handle.release_write(s);
    }

    /// Takes an independent, well-formed copy of the mapping under a read
    /// lock.  The critical section is the single full copy.
    pub fn snapshot(&self) -> (s: Store)
        ensures
            s.wf(),
    {
        let read_handle = self.lock.acquire_read();
        let s = read_handle.borrow().snapshot();
        read_handle.release_read();
        s
    }

    /// Serves one request against the shared store.  The status depends on
    /// the route, the method and the body alone, so it is pinned here even
    /// though concurrent writers keep the mapping itself out of reach of
    /// any one caller's contract; what each request does to the mapping is
    /// stated on [`api::handle_request`].
    pub fn handle(&self, method: Method, path: &Vec<u8>, body: &Vec<u8>) -> (r: Response)
        ensures
            path@ != api::groceries_path() ==> r.status == 404,
            path@ == api::groceries_path() ==> match method {
                Method::Get => r.status == 200 && (exists|v: Seq<(Seq<u8>, int)>|
                    crate::store::distinct_keys(v) && r.body@ == json::render(v)),
                Method::Post => r.status == api::post_status(body@) && r.body@ == api::post_reply(
                    body@,
                ),
                Method::Other => r.status == 405,
            },
    {
        if !api::is_groceries_path(path) {
            return Response { status: 404, body: Vec::new() };
        }
        match method {
            Method::Get => {
                let snap = self.snapshot();
                let r = api::handle_get(&snap);
                proof {
                    assert(crate::store::distinct_keys(snap.entries_view()) && r.body@
                        == json::render(snap.entries_view()));
                }
                r
            },
            Method::Post => {
                if body.len() > api::BODY_LIMIT {
                    return Response { status: 413, body: Vec::new() };
                }
                match json::parse_item(body) {
                    None => Response { status: 400, body: Vec::new() },
                    Some(e) => {
                        self.upsert(e.name, e.quantity);
                        Response { status: 201, body: api::confirmation_body() }
                    },
                }
            },
            Method::Other => Response { status: 405, body: Vec::new() },
        }
    }

    /// The periodic publisher's message: a snapshot rendered as the same
    /// JSON object a `GET` would return.
    pub fn publish_message(&self) -> (r: Vec<u8>)
        ensures
            exists|v: Seq<(Seq<u8>, int)>| crate::store::distinct_keys(v) && r@ == json::render(v),
    {
        let snap = self.snapshot();
        let r = json::render_pairs(&snap.entries);
        proof {
            assert(snap.entries@.map_values(|e: crate::store::Entry| crate::store::pair_of(e))
                =~= snap.entries_view());
            assert(crate::store::distinct_keys(snap.entries_view()) && r@ == json::render(
                snap.entries_view(),
            ));
        }
        r
    }
}

} // verus!
