//! A virtual host at run time: its listeners, its routes and its sessions.
//!
//! The event loop itself belongs to the caller. It waits for events, asks the server
//! what an event means, does the reading and writing, and hands the results back.

use crate::config::config::{Config, ErrorPages, ServerConfig};
use crate::http::request::Request;
use crate::http::response::Response;
use crate::http::sessions::{
    swept, SessionStore, StoreView, Timestamp, MAX_TIMEOUT_MINUTES,
};
use crate::server::listener::listener::ListenerState;
use crate::server::router::mux::Mux;
use crate::server::router::route::{copy_strings, copy_text};
use crate::text::{string_views, text_of};
use vstd::prelude::*;

verus! {

/// What a descriptor is to a server.
#[derive(Debug, Clone, Copy, PartialEq, Eq, Structural)]
pub enum Target {
    /// The listening socket of the listener at this position.
    Listener(usize),
    /// A connection of the listener at this position.
    Connection(usize),
    /// Nothing that the server knows.
    Unknown,
}

/// What to do about an event.
#[derive(Debug, Clone, Copy, PartialEq, Eq, Structural)]
pub enum Action {
    /// Accept the connections that wait on the listener at this position.
    Accept(usize),
    /// Read from the connection, which the listener at this position owns.
    Read(usize),
    /// Nothing.
    Skip,
    /// Close the connection and forget it.
    Forget,
    /// The event is for a descriptor that no listener owns: the loop is broken.
    Stray,
}

/// The timeout of the sessions of a virtual host, in minutes: its own where its own
/// sessions are enabled, the global one where only those are, and none otherwise.
pub open spec fn session_minutes(server_config: ServerConfig, config: Config) -> Option<i64> {
    if server_config.sessions.enabled {
        Some(server_config.sessions.timeout_minutes)
    } else if config.global.sessions.enabled {
        Some(config.global.sessions.timeout_minutes)
    } else {
        None
    }
}

/// A virtual host at run time.
#[derive(Debug)]
pub struct Server {
    pub listeners: Vec<ListenerState>,
    pub server_name: Vec<String>,
    pub host: String,
    pub ports: Vec<u16>,
    pub is_default: bool,
    pub mux: Mux,
    pub client_max_body_size: Option<String>,
    pub error_pages: ErrorPages,
    pub session_store: Option<SessionStore>,
}

impl Server {
    /// Every listener is well formed.
    pub open spec fn wf(&self) -> bool {
        forall|i: int| 0 <= i < self.listeners@.len() ==> (#[trigger] self.listeners@[i]).wf()
    }

    /// The position of the first listener with this descriptor.
    pub open spec fn listener_at(&self, fd: i32, i: int) -> bool {
        &&& 0 <= i < self.listeners@.len()
        &&& self.listeners@[i].ident() == fd
        &&& forall|k: int| 0 <= k < i ==> (#[trigger] self.listeners@[k]).ident() != fd
    }

    /// The position of the first listener that owns this connection.
    pub open spec fn owner_at(&self, fd: i32, i: int) -> bool {
        &&& 0 <= i < self.listeners@.len()
        &&& self.listeners@[i].descriptors().contains(fd)
        &&& forall|k: int|
            0 <= k < i ==> !(#[trigger] self.listeners@[k]).descriptors().contains(fd)
    }

    /// `target` is what the descriptor is to the server: a listener where one has
    /// it as its own, else a connection of the listener that owns it, else unknown.
    pub open spec fn is_target(&self, fd: i32, target: Target) -> bool {
        match target {
            Target::Listener(i) => self.listener_at(fd, i as int),
            Target::Connection(i) => {
                &&& forall|k: int|
                    0 <= k < self.listeners@.len() ==> (#[trigger] self.listeners@[k]).ident()
                        != fd
                &&& self.owner_at(fd, i as int)
            },
            Target::Unknown => {
                &&& forall|k: int|
                    0 <= k < self.listeners@.len() ==> (#[trigger] self.listeners@[k]).ident()
                        != fd
                &&& forall|k: int|
                    0 <= k < self.listeners@.len() ==> !(
                    #[trigger] self.listeners@[k]).descriptors().contains(fd)
            },
        }
    }

    /// What to do about an event on a descriptor that is `target` to the server.
    ///
    /// A readable listener accepts; a readable connection is read. A connection that
    /// is not readable is closed. An unknown descriptor is forgotten, unless it is
    /// readable: then the loop has lost track of a connection.
    pub open spec fn action_for(target: Target, readable: bool) -> Action {
        match target {
            Target::Listener(i) => if readable {
                Action::Accept(i)
            } else {
                Action::Skip
            },
            Target::Connection(i) => if readable {
                Action::Read(i)
            } else {
                Action::Forget
            },
            Target::Unknown => if readable {
                Action::Stray
            } else {
                Action::Forget
            },
        }
    }

    /// The server of a virtual host, without listeners. Its sessions are kept where
    /// the virtual host or the global settings enable them.
    pub fn new(server_config: ServerConfig, config: Config) -> (s: Server)
        requires
            session_minutes(server_config, config) matches Some(m) ==> -MAX_TIMEOUT_MINUTES <= m
                <= MAX_TIMEOUT_MINUTES,
        ensures
            s.wf(),
            s.listeners@.len() == 0,
            string_views(s.server_name@) == string_views(server_config.server_name@),
            s.host@ == server_config.host@,
            s.ports@ == server_config.ports@,
            s.is_default == server_config.is_default,
            text_of(s.client_max_body_size) == text_of(server_config.client_max_body_size),
            s.error_pages.pages@ == server_config.error_pages.pages@,
            s.mux.config == server_config,
            s.mux.routes@.len() == server_config.routes@.len(),
            forall|i: int|
                0 <= i < s.mux.routes@.len() ==> (#[trigger] s.mux.routes@[i])@
                    == crate::server::router::route::route_of(
                    server_config.routes@[i],
                    config.global,
                ),
            match session_minutes(server_config, config) {
                Some(m) => s.session_store matches Some(store) && store@ == (StoreView {
                    sessions: Seq::empty(),
                    timeout: (m * 60) as i64,
                    cookie_path: "/"@,
                    cookie_secure: false,
                    cookie_http_only: true,
                }),
                None => s.session_store is None,
            },
    {
        let session_store = if server_config.sessions.enabled {
            Some(SessionStore::new(server_config.sessions.timeout_minutes))
        } else if config.global.sessions.enabled {
            Some(SessionStore::new(config.global.sessions.timeout_minutes))
        } else {
            None
        };
        let server_name = copy_strings(&server_config.server_name);
        let host = server_config.host.clone();
        let mut ports: Vec<u16> = Vec::new();
        let n = server_config.ports.len();
        let mut i: usize = 0;
        while i < n
            invariant
                n == server_config.ports@.len(),
                i <= n,
                ports@ == server_config.ports@.take(i as int),
            decreases n - i,
        {
            ports.push(server_config.ports[i]);
            proof {
                assert(server_config.ports@.take(i + 1) =~= server_config.ports@.take(
                    i as int,
                ).push(server_config.ports@[i as int]));
            }
            i += 1;
        }
        proof {
            assert(server_config.ports@.take(n as int) =~= server_config.ports@);
        }
        let is_default = server_config.is_default;
        let client_max_body_size = copy_text(&server_config.client_max_body_size);
        let error_pages = ErrorPages { pages: server_config.error_pages.pages.duplicate() };
        Server {
            listeners: Vec::new(),
            server_name,
            host,
            ports,
            is_default,
            mux: Mux::new(server_config, config),
            client_max_body_size,
            error_pages,
            session_store,
        }
    }

    /// Adds a listener, known by the descriptor of its listening socket.
    pub fn add_listener(&mut self, id: i32)
        requires
            old(self).wf(),
        ensures
            final(self).wf(),
            final(self).listeners@.len() == old(self).listeners@.len() + 1,
            forall|i: int|
                0 <= i < old(self).listeners@.len() ==> final(self).listeners@[i] == old(
                    self,
                ).listeners@[i],
            final(self).listeners@.last().ident() == id,
            final(self).listeners@.last().descriptors() == Set::<i32>::empty(),
            final(self).mux == old(self).mux,
            final(self).session_store == old(self).session_store,
    {
        self.listeners.push(ListenerState::new(id));
    }

    /// What the descriptor `fd` is to the server.
    pub fn locate(&self, fd: i32) -> (target: Target)
        ensures
            self.is_target(fd, target),
    {
        let n = self.listeners.len();
        let mut i: usize = 0;
        while i < n
            invariant
                n == self.listeners@.len(),
                i <= n,
                forall|k: int| 0 <= k < i ==> (#[trigger] self.listeners@[k]).ident() != fd,
            decreases n - i,
        {
            if self.listeners[i].get_id() == fd {
                return Target::Listener(i);
            }
            i += 1;
        }
        let mut j: usize = 0;
        while j < n
            invariant
                n == self.listeners@.len(),
                j <= n,
                forall|k: int| 0 <= k < n ==> (#[trigger] self.listeners@[k]).ident() != fd,
                forall|k: int|
                    0 <= k < j ==> !(#[trigger] self.listeners@[k]).descriptors().contains(fd),
            decreases n - j,
        {
            if self.listeners[j].owns(fd) {
                return Target::Connection(j);
            }
            j += 1;
        }
        Target::Unknown
    }

    /// What to do about an event on the descriptor `fd`.
    pub fn on_event(&self, fd: i32, readable: bool) -> (action: Action)
        ensures
            exists|target: Target| #[trigger]
                self.is_target(fd, target) && action == Self::action_for(target, readable),
            action matches Action::Accept(i) ==> i < self.listeners@.len(),
            action matches Action::Read(i) ==> i < self.listeners@.len()
                && self.listeners@[i as int].descriptors().contains(fd),
    {
        let target = self.locate(fd);
        match target {
            Target::Listener(i) => if readable {
                Action::Accept(i)
            } else {
                Action::Skip
            },
            Target::Connection(i) => if readable {
                Action::Read(i)
            } else {
                Action::Forget
            },
            Target::Unknown => if readable {
                Action::Stray
            } else {
                Action::Forget
            },
        }
    }

    /// Forgets the connection `fd`, whichever listener owns it. The other connections
    /// are left as they are.
    pub fn close(&mut self, fd: i32)
        requires
            old(self).wf(),
        ensures
            final(self).wf(),
            final(self).listeners@.len() == old(self).listeners@.len(),
            forall|i: int|
                0 <= i < final(self).listeners@.len() ==> {
                    &&& (#[trigger] final(self).listeners@[i]).ident() == old(
                        self,
                    ).listeners@[i].ident()
                    &&& final(self).listeners@[i].descriptors() == old(
                        self,
                    ).listeners@[i].descriptors().remove(fd)
                    &&& forall|other: i32|
                        other != fd ==> #[trigger] final(self).listeners@[i].received(other) == old(
                            self,
                        ).listeners@[i].received(other)
                    &&& forall|other: i32|
                        other != fd ==> #[trigger] final(self).listeners@[i].phase(other) == old(
                            self,
                        ).listeners@[i].phase(other)
                },
            final(self).mux == old(self).mux,
            final(self).session_store == old(self).session_store,
    {
        let n = self.listeners.len();
        let mut i: usize = 0;
        while i < n
            invariant
                n == self.listeners@.len(),
                n == old(self).listeners@.len(),
                i <= n,
                self.mux == old(self).mux,
                self.session_store == old(self).session_store,
                forall|k: int| 0 <= k < n ==> (#[trigger] self.listeners@[k]).wf(),
                forall|k: int| i <= k < n ==> self.listeners@[k] == old(self).listeners@[k],
                forall|k: int|
                    0 <= k < i ==> {
                        &&& (#[trigger] self.listeners@[k]).ident() == old(
                            self,
                        ).listeners@[k].ident()
                        &&& self.listeners@[k].descriptors() == old(
                            self,
                        ).listeners@[k].descriptors().remove(fd)
                        &&& forall|other: i32|
                            other != fd ==> #[trigger] self.listeners@[k].received(other) == old(
                                self,
                            ).listeners@[k].received(other)
                        &&& forall|other: i32|
                            other != fd ==> #[trigger] self.listeners@[k].phase(other) == old(
                                self,
                            ).listeners@[k].phase(other)
                    },
            decreases n - i,
        {
            self.listeners[i].remove_connection(fd);
            i += 1;
        }
    }

    /// The session that serves a request, where the server keeps sessions. With
    /// `sweep`, expired sessions are removed first.
    pub fn begin_request(
        &mut self,
        request: &Request,
        sweep: bool,
        now: Timestamp,
        fresh_id: String,
    ) -> (id: Option<String>)
        ensures
            final(self).listeners == old(self).listeners,
            final(self).mux == old(self).mux,
            match old(self).session_store {
                Some(store) => {
                    let ready = if sweep {
                        StoreView {
                            sessions: swept(store@.sessions, now, store@.timeout),
                            ..store@
                        }
                    } else {
                        store@
                    };
                    &&& id matches Some(text) && text@ == ready.serve(request@, now, fresh_id@).0
                    &&& final(self).session_store matches Some(after) && after@ == ready.serve(
                        request@,
                        now,
                        fresh_id@,
                    ).1
                },
                None => id is None && final(self).session_store is None,
            },
    {
        match &mut self.session_store {
            Some(store) => {
                if sweep {
                    store.cleanup_expired_at(now);
                }
                Some(store.session_from_request_at(request, now, fresh_id))
            },
            None => None,
        }
    }

    /// Sets the session cookie on a response, where the server keeps sessions and
    /// the expiry of the cookie can be written as a date. Says whether it did.
    pub fn finish_request(&self, response: &mut Response, session_id: &Option<String>, now: Timestamp)
        -> (added: bool)
        ensures
            added == (session_id is Some && self.session_store is Some
                && self.session_store->0@.can_expire_at(now)),
            added ==> final(response)@ == old(response)@.with_header(
                "set-cookie"@,
                self.session_store->0@.cookie(session_id->0@, now).text(),
            ),
            !added ==> final(response)@ == old(response)@,
    {
        match (&self.session_store, session_id) {
            (Some(store), Some(id)) => {
                if store.can_expire_at(now) {
                    store.add_session_cookie_at(response, id.as_str(), now);
                    true
                } else {
                    false
                }
            },
            _ => false,
        }
    }
}

} // verus!
