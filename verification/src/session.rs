//! The session manager: reusable transport clients keyed by session ID.
//!
//! A managed session owns a persistent cookie store and is bound to an
//! emulation profile and an optional proxy. Creating an existing ID reuses
//! it unchanged; clearing empties the cookie store in place, keeping the
//! same handle and underlying client; dropping releases it and is a silent
//! no-op when the ID is unknown. Building the real transport client is the
//! collaborator's work: creation takes that attempt's outcome and decides
//! everything else.

use vstd::prelude::*;

use crate::assoc::{assoc_map, lemma_assoc_map_contains, lemma_assoc_map_index,
    lemma_assoc_map_push, lemma_assoc_map_remove_at, lemma_assoc_map_update_at, unique_keys};
use crate::cookies::{cookie_map, cookie_upsert_all, unique_names, upsert_all};
use crate::errors::BridgeError;
use crate::handles::HandleAllocator;

verus! {

/// One managed session: its registry handle, the identity of the
/// underlying transport client (a token the caller's transport layer maps
/// to the real cookie-persisting client), the configuration it was built
/// with, and the model of its cookie store.
pub struct ManagedSession {
    /// The handle this session is registered under.
    pub handle: u64,
    /// The identity of the underlying transport client. Clearing cookies
    /// keeps this identity; only creation assigns it.
    pub client: u64,
    /// The emulation profile the client was built with.
    pub profile: String,
    /// The proxy the client was built with, if any.
    pub proxy: Option<String>,
    /// The session's cookie store: name/value pairs, names distinct.
    pub cookies: Vec<(String, String)>,
}

/// What the transport collaborator's client-build attempt produced. The
/// caller builds the client — proxy parsing included — only when the
/// session ID is new; on reuse the outcome is ignored.
#[derive(Debug)]
pub enum ClientBuild {
    /// The client was built and is ready to be bound to the session.
    Ready,
    /// Proxy parsing or client construction failed with this message.
    Failed(String),
}

/// The session half of the resource registry: a map from session ID to the
/// live session it names, as an explicit service instance.
pub struct SessionManager {
    entries: Vec<(String, ManagedSession)>,
}

/// A session table as key/value pairs at the specification level, keyed by
/// the ID's characters.
pub open spec fn session_pairs(s: Seq<(String, ManagedSession)>) -> Seq<(Seq<char>, ManagedSession)> {
    s.map_values(|p: (String, ManagedSession)| (p.0@, p.1))
}

impl View for SessionManager {
    type V = Map<Seq<char>, ManagedSession>;

    closed spec fn view(&self) -> Map<Seq<char>, ManagedSession> {
        assoc_map(session_pairs(self.entries@))
    }
}

impl SessionManager {
    /// At most one entry per session ID, and every session's cookie store
    /// has distinct names.
    pub closed spec fn wf(self) -> bool {
        &&& unique_keys(session_pairs(self.entries@))
        &&& forall|i: int|
            0 <= i < self.entries@.len() ==> unique_names((#[trigger] self.entries@[i]).1.cookies@)
    }

    /// An empty session table.
    pub fn new() -> (r: SessionManager)
        ensures
            r.wf(),
            r@ == Map::<Seq<char>, ManagedSession>::empty(),
    {
        SessionManager { entries: Vec::new() }
    }

    /// The index of the entry for `session_id`, if any; private search
    /// shared by the operations.
    fn find(&self, session_id: &String) -> (r: Option<usize>)
        requires
            self.wf(),
        ensures
            match r {
                Some(i) => i < self.entries@.len() && self.entries@[i as int].0@ == session_id@
                    && self@.contains_key(session_id@) && self@[session_id@] == self.entries@[
                    i as int].1,
                None => !self@.contains_key(session_id@),
            },
    {
        let n = self.entries.len();
        let mut i: usize = 0;
        while i < n
            invariant
                self.wf(),
                n == self.entries@.len(),
                0 <= i <= n,
                forall|j: int| 0 <= j < i ==> (#[trigger] self.entries@[j]).0@ != session_id@,
            decreases n - i,
        {
            if self.entries[i].0 == *session_id {
                proof {
                    lemma_assoc_map_index(session_pairs(self.entries@), i as int);
                }
                return Some(i);
            }
            i = i + 1;
        }
        proof {
            lemma_assoc_map_contains(session_pairs(self.entries@), session_id@);
        }
        None
    }

    /// A shared look at a live session; `None` exactly when the ID names
    /// none.
    pub fn get_session(&self, session_id: &String) -> (r: Option<&ManagedSession>)
        requires
            self.wf(),
        ensures
            match r {
                Some(s) => self@.contains_key(session_id@) && *s == self@[session_id@],
                None => !self@.contains_key(session_id@),
            },
    {
        match self.find(session_id) {
            Some(i) => Some(&self.entries[i].1),
            None => None,
        }
    }

    /// Creates or reuses a session. An ID that already names a live
    /// session is reused: the same handle comes back and nothing — not the
    /// configuration, not the cookie store — is touched. A new ID binds
    /// the freshly built client under a fresh handle with an empty cookie
    /// store, or reports the build's failure as a configuration error with
    /// nothing registered.
    pub fn create_session(
        &mut self,
        alloc: &mut HandleAllocator,
        session_id: String,
        profile: String,
        proxy: Option<String>,
        build: ClientBuild,
    ) -> (r: Result<u64, BridgeError>)
        requires
            old(self).wf(),
            old(alloc).counter < u64::MAX - 1,
        ensures
            final(self).wf(),
            old(self)@.contains_key(session_id@) ==> r == Result::<u64, BridgeError>::Ok(
                old(self)@[session_id@].handle,
            ) && *final(self) == *old(self) && *final(alloc) == *old(alloc),
            !old(self)@.contains_key(session_id@) ==> match build {
                ClientBuild::Ready => {
                    &&& r == Result::<u64, BridgeError>::Ok(old(alloc).counter)
                    &&& final(alloc).counter == old(alloc).counter + 2
                    &&& final(self)@.dom() == old(self)@.dom().insert(session_id@)
                    &&& forall|k: Seq<char>|
                        old(self)@.contains_key(k) && k != session_id@ ==> final(self)@[k] == old(
                            self,
                        )@[k]
                    &&& final(self)@[session_id@].handle == old(alloc).counter
                    &&& final(self)@[session_id@].client == old(alloc).counter + 1
                    &&& final(self)@[session_id@].profile == profile
                    &&& final(self)@[session_id@].proxy == proxy
                    &&& final(self)@[session_id@].cookies@ == Seq::<(String, String)>::empty()
                },
                ClientBuild::Failed(m) => {
                    &&& r == Result::<u64, BridgeError>::Err(BridgeError::Configuration(m))
                    &&& *final(self) == *old(self)
                    &&& *final(alloc) == *old(alloc)
                },
            },
    {
        match self.find(&session_id) {
            Some(i) => Ok(self.entries[i].1.handle),
            None => {
                match build {
                    ClientBuild::Ready => {
                        let handle = alloc.next();
                        let client = alloc.next();
                        let session = ManagedSession {
                            handle,
                            client,
                            profile,
                            proxy,
                            cookies: Vec::new(),
                        };
                        let ghost pre = self.entries@;
                        self.entries.push((session_id, session));
                        proof {
                            assert(session_pairs(self.entries@) =~= session_pairs(pre).push(
                                (self.entries@.last().0@, self.entries@.last().1),
                            ));
                            lemma_assoc_map_push(
                                session_pairs(pre),
                                self.entries@.last().0@,
                                self.entries@.last().1,
                            );
                            lemma_assoc_map_contains(session_pairs(pre), self.entries@.last().0@);
                            assert forall|a: int, b: int|
                                0 <= a < b < session_pairs(self.entries@).len() implies (
                            #[trigger] session_pairs(self.entries@)[a]).0 != (#[trigger] session_pairs(
                                self.entries@,
                            )[b]).0 by {
                                if b < pre.len() {
                                    assert(session_pairs(self.entries@)[a] == session_pairs(pre)[a]);
                                    assert(session_pairs(self.entries@)[b] == session_pairs(pre)[b]);
                                } else {
                                    assert(session_pairs(self.entries@)[a] == session_pairs(pre)[a]);
                                }
                            }
                            assert(final(self)@.dom() =~= old(self)@.dom().insert(
                                self.entries@.last().0@,
                            ));
                        }
                        Ok(handle)
                    },
                    ClientBuild::Failed(m) => Err(BridgeError::Configuration(m)),
                }
            },
        }
    }

    /// Empties a live session's cookie store in place. The session keeps
    /// its handle, its underlying client identity, and its configuration;
    /// only the cookies go. An unknown ID is a not-found error.
    pub fn clear_session(&mut self, session_id: &String) -> (r: Result<(), BridgeError>)
        requires
            old(self).wf(),
        ensures
            final(self).wf(),
            match r {
                Ok(()) => {
                    &&& old(self)@.contains_key(session_id@)
                    &&& final(self)@.dom() == old(self)@.dom()
                    &&& forall|k: Seq<char>|
                        old(self)@.contains_key(k) && k != session_id@ ==> final(self)@[k] == old(
                            self,
                        )@[k]
                    &&& final(self)@[session_id@].handle == old(self)@[session_id@].handle
                    &&& final(self)@[session_id@].client == old(self)@[session_id@].client
                    &&& final(self)@[session_id@].profile == old(self)@[session_id@].profile
                    &&& final(self)@[session_id@].proxy == old(self)@[session_id@].proxy
                    &&& final(self)@[session_id@].cookies@ == Seq::<(String, String)>::empty()
                },
                Err(e) => {
                    &&& !old(self)@.contains_key(session_id@)
                    &&& e is NotFound
                    &&& *final(self) == *old(self)
                },
            },
    {
        match self.find(session_id) {
            Some(i) => {
                let ghost pre = self.entries@;
                let (key, sess) = self.entries.remove(i);
                let ManagedSession { handle, client, profile, proxy, cookies: _ } = sess;
                let cleared = ManagedSession { handle, client, profile, proxy, cookies: Vec::new() };
                self.entries.insert(i, (key, cleared));
                proof {
                    assert(self.entries@ =~= pre.update(
                        i as int,
                        (self.entries@[i as int].0, self.entries@[i as int].1),
                    ));
                    assert(session_pairs(self.entries@) =~= session_pairs(pre).update(
                        i as int,
                        (session_pairs(pre)[i as int].0, self.entries@[i as int].1),
                    ));
                    lemma_assoc_map_update_at(
                        session_pairs(pre),
                        i as int,
                        self.entries@[i as int].1,
                    );
                    assert(final(self)@.dom() =~= old(self)@.dom());
                }
                Ok(())
            },
            None => Err(BridgeError::NotFound),
        }
    }

    /// Removes and releases a session. Idempotent by design: the caller
    /// cannot always know whether cleanup already happened, so dropping an
    /// unknown or already-dropped ID changes nothing and is not an error.
    pub fn drop_session(&mut self, session_id: &String)
        requires
            old(self).wf(),
        ensures
            final(self).wf(),
            final(self)@ == old(self)@.remove(session_id@),
            !old(self)@.contains_key(session_id@) ==> *final(self) == *old(self),
    {
        match self.find(session_id) {
            Some(i) => {
                let ghost pre = self.entries@;
                let _ = self.entries.remove(i);
                proof {
                    assert(session_pairs(self.entries@) =~= session_pairs(pre).remove(i as int));
                    lemma_assoc_map_remove_at(session_pairs(pre), i as int);
                    assert forall|a: int, b: int|
                        0 <= a < b < session_pairs(self.entries@).len() implies (
                    #[trigger] session_pairs(self.entries@)[a]).0 != (#[trigger] session_pairs(
                        self.entries@,
                    )[b]).0 by {
                        let sp = session_pairs(pre).remove(i as int);
                        assert(session_pairs(self.entries@)[a] == sp[a]);
                        assert(session_pairs(self.entries@)[b] == sp[b]);
                    }
                }
            },
            None => {
                proof {
                    assert(final(self)@ =~= old(self)@.remove(session_id@));
                }
            },
        }
    }

    /// Records cookies that a response under this session set: each pair in
    /// order overwrites any earlier value of its name, as the persistent
    /// store of the underlying client does. A dropped or unknown ID takes
    /// nothing and is not an error.
    pub fn record_cookies(&mut self, session_id: &String, pairs: Vec<(String, String)>) -> (found:
        bool)
        requires
            old(self).wf(),
        ensures
            final(self).wf(),
            found == old(self)@.contains_key(session_id@),
            !found ==> *final(self) == *old(self),
            found ==> {
                &&& final(self)@.dom() == old(self)@.dom()
                &&& forall|k: Seq<char>|
                    old(self)@.contains_key(k) && k != session_id@ ==> final(self)@[k] == old(
                        self,
                    )@[k]
                &&& final(self)@[session_id@].handle == old(self)@[session_id@].handle
                &&& final(self)@[session_id@].client == old(self)@[session_id@].client
                &&& final(self)@[session_id@].profile == old(self)@[session_id@].profile
                &&& final(self)@[session_id@].proxy == old(self)@[session_id@].proxy
                &&& cookie_map(final(self)@[session_id@].cookies@) == upsert_all(
                    cookie_map(old(self)@[session_id@].cookies@),
                    crate::cookies::cookie_pairs(pairs@),
                )
            },
    {
        match self.find(session_id) {
            Some(i) => {
                let ghost pre = self.entries@;
                let (key, sess) = self.entries.remove(i);
                let ManagedSession { handle, client, profile, proxy, cookies } = sess;
                let mut store = cookies;
                cookie_upsert_all(&mut store, pairs);
                let updated = ManagedSession { handle, client, profile, proxy, cookies: store };
                self.entries.insert(i, (key, updated));
                proof {
                    assert(self.entries@ =~= pre.update(
                        i as int,
                        (self.entries@[i as int].0, self.entries@[i as int].1),
                    ));
                    assert(session_pairs(self.entries@) =~= session_pairs(pre).update(
                        i as int,
                        (session_pairs(pre)[i as int].0, self.entries@[i as int].1),
                    ));
                    lemma_assoc_map_update_at(
                        session_pairs(pre),
                        i as int,
                        self.entries@[i as int].1,
                    );
                    assert(final(self)@.dom() =~= old(self)@.dom());
                }
                true
            },
            None => false,
        }
    }
}

} // verus!
