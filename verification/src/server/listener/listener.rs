//! Connections and the listeners that own them.
//!
//! A connection collects the bytes that arrive in bursts until they hold a complete
//! request. Sockets are the caller's: a connection is known here by its descriptor.

use crate::chars::{chars_of, split_chars};
use crate::http::headers::{content_length_of, headers_of_lines, Headers};
use crate::foreign::utf8_text;
use crate::http::request::{find_headers_end, head_end_mark, parsed, ParseError, Request, RequestView};
use crate::text::{
    append_bytes, find, lemma_find_from, lemma_find_from_unique, occurs_at, seqs_of, split,
};
use std::collections::HashMap;
use vstd::prelude::*;
use vstd::slice::slice_subrange;
use vstd::utf8::{decode_utf8, valid_utf8};

verus! {

broadcast use vstd::std_specs::hash::group_hash_axioms;

/// How many events are taken from the readiness notifier at once.
pub const MAX_EVENTS: usize = 1024;

/// The body length that the head of a request declares: that of its header fields,
/// read as the parser reads them. A head that is not UTF-8 declares none.
pub open spec fn declared_length(head: Seq<u8>) -> Option<u64> {
    if valid_utf8(head) {
        content_length_of(headers_of_lines(split(decode_utf8(head), "\r\n"@).skip(1)))
    } else {
        None
    }
}

/// Where a connection stands in its one cycle of request and response.
#[derive(Debug, Clone, Copy, PartialEq, Eq, Structural)]
pub enum Phase {
    /// Accepted; nothing was received yet.
    Accepted,
    /// Part of a request was received.
    Reading,
    /// The request is complete and was handed out for routing.
    Dispatched,
    /// The response was written.
    Written,
    /// Reading failed, or the connection was closed.
    Closed,
}

impl Phase {
    /// Whether bytes are still taken in.
    pub open spec fn can_read(self) -> bool {
        self == Phase::Accepted || self == Phase::Reading
    }

    /// The place of the phase in the cycle.
    pub open spec fn rank(self) -> nat {
        match self {
            Phase::Accepted => 0,
            Phase::Reading => 1,
            Phase::Dispatched => 2,
            Phase::Written => 3,
            Phase::Closed => 4,
        }
    }
}

/// Why reading a request ended without one.
#[derive(Debug, Clone, Copy, PartialEq, Eq, Structural)]
pub enum ReadError {
    /// The peer closed the connection.
    Closed,
    /// What arrived is not a request.
    Invalid(ParseError),
    /// Nothing has arrived.
    NoData,
    /// The connection has had its request: no more is read.
    NotReading,
}

/// Where reading stands after a burst of bytes.
#[derive(Debug)]
pub enum ReadStep {
    /// The request is not complete: read on.
    More,
    /// The request is complete.
    Complete(Request),
    /// Reading failed: close the connection.
    Failed(ReadError),
}

/// The model of a [`ReadStep`].
pub enum ReadView {
    More,
    Complete(RequestView),
    Failed(ReadError),
}

impl View for ReadStep {
    type V = ReadView;

    open spec fn view(&self) -> ReadView {
        match self {
            ReadStep::More => ReadView::More,
            ReadStep::Complete(r) => ReadView::Complete(r@),
            ReadStep::Failed(e) => ReadView::Failed(*e),
        }
    }
}

/// The phase that a step of reading leads to.
pub open spec fn phase_after(step: ReadView) -> Phase {
    match step {
        ReadView::More => Phase::Reading,
        ReadView::Complete(_) => Phase::Dispatched,
        ReadView::Failed(_) => Phase::Closed,
    }
}

/// What the bytes received so far amount to, once the head is complete.
pub open spec fn parse_step(buffer: Seq<u8>) -> ReadView {
    match parsed(buffer) {
        Ok(request) => ReadView::Complete(request),
        Err(e) => ReadView::Failed(ReadError::Invalid(e)),
    }
}

/// Where reading stands with `buffer` received.
///
/// Until the empty line that ends the head is there, more is needed. With a declared
/// length, more is needed until that many bytes follow the head. Then, or with no
/// declared length, the buffer is parsed.
pub open spec fn reading(buffer: Seq<u8>) -> ReadView {
    match find(buffer, head_end_mark()) {
        None => ReadView::More,
        Some(end) => match declared_length(buffer.take(end)) {
            Some(length) => if buffer.len() >= end + 4 + length {
                parse_step(buffer)
            } else {
                ReadView::More
            },
            None => parse_step(buffer),
        },
    }
}

/// The model of a [`Connection`]: the bytes received and the phase.
pub struct ConnectionView {
    pub received: Seq<u8>,
    pub phase: Phase,
}

impl ConnectionView {
    /// A connection that was just accepted.
    pub open spec fn fresh() -> ConnectionView {
        ConnectionView { received: Seq::empty(), phase: Phase::Accepted }
    }

    /// The connection after a burst of bytes, and where reading then stands. A
    /// connection that has had its request takes nothing in; an empty burst closes
    /// the connection; any other burst is added to what was received, and the whole
    /// is read.
    pub open spec fn after(self, data: Seq<u8>) -> (ConnectionView, ReadView) {
        if !self.phase.can_read() {
            (self, ReadView::Failed(ReadError::NotReading))
        } else if data.len() == 0 {
            (
                ConnectionView { phase: Phase::Closed, ..self },
                ReadView::Failed(ReadError::Closed),
            )
        } else {
            (
                ConnectionView {
                    received: self.received + data,
                    phase: phase_after(reading(self.received + data)),
                },
                reading(self.received + data),
            )
        }
    }

    /// The connection after the bursts, one after the other.
    pub open spec fn after_all(self, bursts: Seq<Seq<u8>>) -> ConnectionView
        decreases bursts.len(),
    {
        if bursts.len() == 0 {
            self
        } else {
            self.after_all(bursts.drop_last()).after(bursts.last()).0
        }
    }
}

/// What to do when the socket has no more bytes for now.
#[derive(Debug, Clone, Copy, PartialEq, Eq, Structural)]
pub enum WaitStep {
    /// Keep the connection and wait for the next event.
    Wait,
    /// Nothing was ever received: close the connection.
    Failed(ReadError),
}

/// The reading side of a connection.
#[derive(Debug)]
pub struct Connection {
    buffer: Vec<u8>,
    headers_end: Option<usize>,
    content_length: Option<u64>,
    phase: Phase,
}

impl Connection {
    /// The bytes received so far.
    pub closed spec fn received(&self) -> Seq<u8> {
        self.buffer@
    }

    /// Where the connection stands in its cycle.
    pub closed spec fn phase(&self) -> Phase {
        self.phase
    }

    /// The model of the connection.
    pub open spec fn model(&self) -> ConnectionView {
        ConnectionView { received: self.received(), phase: self.phase() }
    }

    /// What the connection remembers of the head agrees with the bytes received.
    pub closed spec fn wf(&self) -> bool {
        match find(self.buffer@, head_end_mark()) {
            Some(end) => {
                &&& self.headers_end == Some(end as usize)
                &&& end + 4 <= self.buffer@.len()
                &&& self.content_length == declared_length(self.buffer@.take(end))
            },
            None => self.headers_end is None && self.content_length is None,
        }
    }

    /// A connection on which nothing was received yet.
    pub fn new() -> (c: Connection)
        ensures
            c.wf(),
            c.received() == Seq::<u8>::empty(),
            c.phase() == Phase::Accepted,
    {
        let c = Connection {
            buffer: Vec::new(),
            headers_end: None,
            content_length: None,
            phase: Phase::Accepted,
        };
        proof {
            lemma_find_from(c.buffer@, head_end_mark(), 0);
        }
        c
    }

    /// The bytes received so far.
    pub fn buffer(&self) -> (b: &[u8])
        ensures
            b@ == self.received(),
    {
        self.buffer.as_slice()
    }

    fn length_in(head: &[u8]) -> (r: Option<u64>)
        ensures
            r == declared_length(head@),
    {
        let text = match utf8_text(head) {
            Some(s) => chars_of(s),
            None => {
                return None;
            },
        };
        let crlf = chars_of("\r\n");
        let lines = split_chars(text.as_slice(), crlf.as_slice());
        let rest = slice_subrange(lines.as_slice(), 1, lines.len());
        proof {
            assert(seqs_of(rest@) =~= seqs_of(lines@).skip(1));
        }
        Headers::parse_lines(rest).get_content_length()
    }

    /// Where the connection stands in its cycle.
    pub fn current_phase(&self) -> (p: Phase)
        ensures
            p == self.phase(),
    {
        self.phase
    }

    fn take_in(&mut self, data: &[u8]) -> (step: ReadStep)
        requires
            old(self).wf(),
            data@.len() > 0,
        ensures
            final(self).wf(),
            final(self).phase() == old(self).phase(),
            final(self).received() == old(self).received() + data@,
            step@ == reading(final(self).received()),
    {
        let ghost before = self.buffer@;
        append_bytes(&mut self.buffer, data);
        proof {
            lemma_mark_stays(before, data@);
            lemma_find_from(self.buffer@, head_end_mark(), 0);
            assert(head_end_mark().len() == 4);
        }
        if self.headers_end.is_none() {
            match find_headers_end(self.buffer.as_slice()) {
                Some(end) => {
                    self.headers_end = Some(end);
                    let head = slice_subrange(self.buffer.as_slice(), 0, end);
                    proof {
                        assert(head@ =~= self.buffer@.take(end as int));
                    }
                    self.content_length = Self::length_in(head);
                },
                None => {
                    return ReadStep::More;
                },
            }
        }
        let end = match self.headers_end {
            Some(end) => end,
            None => {
                return ReadStep::More;
            },
        };
        match self.content_length {
            Some(length) => {
                let after_head = (self.buffer.len() - end - 4) as u64;
                if after_head < length {
                    return ReadStep::More;
                }
            },
            None => {},
        }
        match Request::parse(self.buffer.as_slice()) {
            Ok(request) => ReadStep::Complete(request),
            Err(e) => ReadStep::Failed(ReadError::Invalid(e)),
        }
    }

    /// Takes in a burst of bytes and says where reading stands. An empty burst means
    /// that the peer closed the connection. A connection that has had its request,
    /// or was closed, takes nothing in.
    pub fn on_data(&mut self, data: &[u8]) -> (step: ReadStep)
        requires
            old(self).wf(),
        ensures
            final(self).wf(),
            (final(self).model(), step@) == old(self).model().after(data@),
            old(self).phase().rank() <= final(self).phase().rank(),
            !old(self).phase().can_read() ==> {
                &&& step@ == ReadView::Failed(ReadError::NotReading)
                &&& final(self).received() == old(self).received()
                &&& final(self).phase() == old(self).phase()
            },
            old(self).phase().can_read() && data@.len() == 0 ==> {
                &&& step@ == ReadView::Failed(ReadError::Closed)
                &&& final(self).received() == old(self).received()
                &&& final(self).phase() == Phase::Closed
            },
            old(self).phase().can_read() && data@.len() > 0 ==> {
                &&& final(self).received() == old(self).received() + data@
                &&& step@ == reading(final(self).received())
                &&& final(self).phase() == phase_after(step@)
            },
    {
        match self.phase {
            Phase::Accepted | Phase::Reading => {},
            _ => {
                return ReadStep::Failed(ReadError::NotReading);
            },
        }
        if data.len() == 0 {
            self.phase = Phase::Closed;
            return ReadStep::Failed(ReadError::Closed);
        }
        let step = self.take_in(data);
        self.phase = match &step {
            ReadStep::More => Phase::Reading,
            ReadStep::Complete(_) => Phase::Dispatched,
            ReadStep::Failed(_) => Phase::Closed,
        };
        step
    }

    /// Records that the response was written. Says whether the connection was
    /// waiting for it: a response follows a complete request, once.
    pub fn written(&mut self) -> (was_due: bool)
        requires
            old(self).wf(),
        ensures
            final(self).wf(),
            was_due == (old(self).phase() == Phase::Dispatched),
            final(self).phase() == if was_due {
                Phase::Written
            } else {
                old(self).phase()
            },
            final(self).received() == old(self).received(),
            old(self).phase().rank() <= final(self).phase().rank(),
    {
        match self.phase {
            Phase::Dispatched => {
                self.phase = Phase::Written;
                true
            },
            _ => false,
        }
    }

    /// Records that the connection was closed.
    pub fn close(&mut self)
        requires
            old(self).wf(),
        ensures
            final(self).wf(),
            final(self).phase() == Phase::Closed,
            final(self).received() == old(self).received(),
            old(self).phase().rank() <= final(self).phase().rank(),
    {
        self.phase = Phase::Closed;
    }

    /// What to do when the socket has no more bytes for now: wait for more, unless
    /// nothing was received at all.
    pub fn on_would_block(&self) -> (step: WaitStep)
        ensures
            step == if self.received().len() == 0 {
                WaitStep::Failed(ReadError::NoData)
            } else {
                WaitStep::Wait
            },
    {
        if self.buffer.len() == 0 {
            WaitStep::Failed(ReadError::NoData)
        } else {
            WaitStep::Wait
        }
    }
}

/// The end of the head stays where it is when more bytes arrive.
pub proof fn lemma_mark_stays(buffer: Seq<u8>, data: Seq<u8>)
    ensures
        find(buffer, head_end_mark()) matches Some(end) ==> {
            &&& find(buffer + data, head_end_mark()) == Some(end)
            &&& (buffer + data).take(end) == buffer.take(end)
        },
{
    let mark = head_end_mark();
    lemma_find_from(buffer, mark, 0);
    assert(mark.len() == 4);
    if let Some(end) = find(buffer, mark) {
        let longer = buffer + data;
        assert(longer.subrange(end, end + 4) =~= buffer.subrange(end, end + 4));
        assert(occurs_at(buffer, mark, end));
        assert forall|j: int| 0 <= j < end implies !occurs_at(longer, mark, j) by {
            assert(!occurs_at(buffer, mark, j));
            assert(longer.subrange(j, j + 4) =~= buffer.subrange(j, j + 4));
        }
        lemma_find_from_unique(longer, mark, 0, end);
        assert(longer.take(end) =~= buffer.take(end));
    }
}

/// The bursts, one after the other.
pub open spec fn joined(bursts: Seq<Seq<u8>>) -> Seq<u8>
    decreases bursts.len(),
{
    if bursts.len() == 0 {
        Seq::empty()
    } else {
        joined(bursts.drop_last()) + bursts.last()
    }
}

/// Every burst holds a byte, and no burst but the last completes the request.
pub open spec fn arrives_in(bursts: Seq<Seq<u8>>) -> bool {
    &&& bursts.len() > 0
    &&& forall|k: int| 0 <= k < bursts.len() ==> (#[trigger] bursts[k]).len() > 0
    &&& forall|k: int|
        0 < k < bursts.len() ==> reading(joined(#[trigger] bursts.take(k))) is More
}

/// While the request is incomplete the connection keeps every byte and goes on
/// reading.
pub proof fn lemma_incomplete_bursts_are_kept(bursts: Seq<Seq<u8>>)
    requires
        forall|k: int| 0 <= k < bursts.len() ==> (#[trigger] bursts[k]).len() > 0,
        forall|k: int|
            0 < k <= bursts.len() ==> reading(joined(#[trigger] bursts.take(k))) is More,
    ensures
        ConnectionView::fresh().after_all(bursts) == (ConnectionView {
            received: joined(bursts),
            phase: if bursts.len() == 0 {
                Phase::Accepted
            } else {
                Phase::Reading
            },
        }),
    decreases bursts.len(),
{
    if bursts.len() > 0 {
        let earlier = bursts.drop_last();
        assert forall|k: int| 0 < k <= earlier.len() implies reading(
            joined(#[trigger] earlier.take(k)),
        ) is More by {
            assert(earlier.take(k) =~= bursts.take(k));
        }
        assert forall|k: int| 0 <= k < earlier.len() implies (#[trigger] earlier[k]).len()
            > 0 by {
            assert(earlier[k] == bursts[k]);
        }
        lemma_incomplete_bursts_are_kept(earlier);
        assert(bursts.take(bursts.len() as int) =~= bursts);
    }
}

/// However the bytes of a request are cut into bursts, the burst that completes it
/// is answered as the whole would be in one burst: the same request, the same
/// failure, or the same need of more. After every earlier burst the connection holds
/// what has arrived and goes on reading.
pub proof fn lemma_bursts_read_as_one(bursts: Seq<Seq<u8>>)
    requires
        arrives_in(bursts),
    ensures
        ConnectionView::fresh().after_all(bursts.drop_last()).after(bursts.last())
            == ConnectionView::fresh().after(joined(bursts)),
        ConnectionView::fresh().after(joined(bursts)).1 == reading(joined(bursts)),
        ConnectionView::fresh().after_all(bursts).received == joined(bursts),
        forall|k: int|
            0 < k < bursts.len() ==> #[trigger] ConnectionView::fresh().after_all(bursts.take(k))
                == (ConnectionView { received: joined(bursts.take(k)), phase: Phase::Reading }),
{
    let earlier = bursts.drop_last();
    assert forall|k: int| 0 < k <= earlier.len() implies reading(
        joined(#[trigger] earlier.take(k)),
    ) is More by {
        assert(earlier.take(k) =~= bursts.take(k));
    }
    assert forall|k: int| 0 <= k < earlier.len() implies (#[trigger] earlier[k]).len() > 0 by {
        assert(earlier[k] == bursts[k]);
    }
    lemma_incomplete_bursts_are_kept(earlier);
    assert(Seq::<u8>::empty() + joined(bursts) =~= joined(bursts));
    lemma_joined_has_bytes(bursts);
    assert forall|k: int| 0 < k < bursts.len() implies #[trigger] ConnectionView::fresh().after_all(
        bursts.take(k),
    ) == (ConnectionView { received: joined(bursts.take(k)), phase: Phase::Reading }) by {
        let part = bursts.take(k);
        assert forall|j: int| 0 < j <= part.len() implies reading(
            joined(#[trigger] part.take(j)),
        ) is More by {
            assert(part.take(j) =~= bursts.take(j));
        }
        assert forall|j: int| 0 <= j < part.len() implies (#[trigger] part[j]).len() > 0 by {
            assert(part[j] == bursts[j]);
        }
        lemma_incomplete_bursts_are_kept(part);
    }
}

/// Bursts that each hold a byte hold a byte together.
pub proof fn lemma_joined_has_bytes(bursts: Seq<Seq<u8>>)
    requires
        bursts.len() > 0,
        forall|k: int| 0 <= k < bursts.len() ==> (#[trigger] bursts[k]).len() > 0,
    ensures
        joined(bursts).len() > 0,
{
    assert(bursts.last().len() > 0);
}

/// The fields and files of an upload do not depend on how the bytes of the request
/// were cut into bursts: the request that the last burst completes is the one that
/// the whole of the bytes holds.
pub proof fn lemma_upload_ignores_bursts(bursts: Seq<Seq<u8>>)
    requires
        arrives_in(bursts),
        parsed(joined(bursts)) is Ok,
        reading(joined(bursts)) is Complete,
    ensures
        ConnectionView::fresh().after_all(bursts.drop_last()).after(bursts.last()).1
            == ReadView::Complete(parsed(joined(bursts))->Ok_0),
        reading(joined(bursts))->Complete_0.upload() == parsed(joined(bursts))->Ok_0.upload(),
{
    lemma_bursts_read_as_one(bursts);
    lemma_find_from(joined(bursts), head_end_mark(), 0);
}

/// A request is handed out only when its body holds at least as many bytes as its
/// own `content-length` field declares.
pub proof fn lemma_complete_has_declared_body(buffer: Seq<u8>)
    requires
        reading(buffer) is Complete,
    ensures
        content_length_of(reading(buffer)->Complete_0.headers) matches Some(length) ==> reading(
            buffer,
        )->Complete_0.body.len() >= length,
        parsed(buffer) == Ok::<RequestView, ParseError>(reading(buffer)->Complete_0),
{
    lemma_find_from(buffer, head_end_mark(), 0);
}

/// A listening socket and the connections that were accepted on it, by descriptor.
#[derive(Debug)]
pub struct ListenerState {
    id: i32,
    connections: HashMap<i32, Connection>,
}

impl ListenerState {
    /// The descriptor of the listening socket, which identifies the listener.
    pub closed spec fn ident(&self) -> i32 {
        self.id
    }

    /// The descriptors of the connections.
    pub closed spec fn descriptors(&self) -> Set<i32> {
        self.connections@.dom()
    }

    /// The connection `fd`.
    pub closed spec fn connection(&self, fd: i32) -> Connection {
        self.connections@[fd]
    }

    /// The bytes received on the connection `fd`.
    pub closed spec fn received(&self, fd: i32) -> Seq<u8> {
        self.connection(fd).received()
    }

    /// Where the connection `fd` stands in its cycle.
    pub closed spec fn phase(&self, fd: i32) -> Phase {
        self.connection(fd).phase()
    }

    /// Every connection is well formed.
    pub closed spec fn wf(&self) -> bool {
        forall|fd: i32| #[trigger]
            self.connections@.dom().contains(fd) ==> self.connections@[fd].wf()
    }

    /// A listener without connections.
    pub fn new(id: i32) -> (l: ListenerState)
        ensures
            l.wf(),
            l.ident() == id,
            l.descriptors() == Set::<i32>::empty(),
    {
        let l = ListenerState { id, connections: HashMap::new() };
        proof {
            assert(l.descriptors() =~= Set::<i32>::empty());
        }
        l
    }

    /// The descriptor of the listening socket, which identifies the listener.
    pub fn get_id(&self) -> (id: i32)
        ensures
            id == self.ident(),
    {
        self.id
    }

    /// Whether the listener owns the connection `fd`.
    pub fn owns(&self, fd: i32) -> (r: bool)
        ensures
            r == self.descriptors().contains(fd),
    {
        self.connections.contains_key(&fd)
    }

    /// Takes in a connection that was accepted. A connection that had the same
    /// descriptor is forgotten; the others are left as they are, bytes and phase.
    pub fn accept_connection(&mut self, fd: i32)
        requires
            old(self).wf(),
        ensures
            final(self).wf(),
            final(self).ident() == old(self).ident(),
            final(self).descriptors() == old(self).descriptors().insert(fd),
            final(self).received(fd) == Seq::<u8>::empty(),
            final(self).phase(fd) == Phase::Accepted,
            forall|other: i32|
                other != fd ==> #[trigger] final(self).received(other) == old(self).received(other),
            forall|other: i32|
                other != fd ==> #[trigger] final(self).phase(other) == old(self).phase(other),
    {
        self.connections.insert(fd, Connection::new());
    }

    /// Takes in a burst of bytes on the connection `fd` and says where reading
    /// stands; `None` where the listener does not own the connection. The other
    /// connections are left as they are, bytes and phase.
    pub fn handle_connection(&mut self, fd: i32, data: &[u8]) -> (r: Option<ReadStep>)
        requires
            old(self).wf(),
        ensures
            final(self).wf(),
            final(self).ident() == old(self).ident(),
            final(self).descriptors() == old(self).descriptors(),
            forall|other: i32|
                other != fd ==> #[trigger] final(self).received(other) == old(self).received(other),
            forall|other: i32|
                other != fd ==> #[trigger] final(self).phase(other) == old(self).phase(other),
            match r {
                Some(step) => {
                    &&& old(self).descriptors().contains(fd)
                    &&& (ConnectionView {
                        received: final(self).received(fd),
                        phase: final(self).phase(fd),
                    }, step@) == (ConnectionView {
                        received: old(self).received(fd),
                        phase: old(self).phase(fd),
                    }).after(data@)
                },
                None => {
                    &&& !old(self).descriptors().contains(fd)
                    &&& final(self).received(fd) == old(self).received(fd)
                    &&& final(self).phase(fd) == old(self).phase(fd)
                },
            },
    {
        match self.connections.remove(&fd) {
            Some(mut connection) => {
                let step = connection.on_data(data);
                self.connections.insert(fd, connection);
                proof {
                    assert(self.connections@.dom() =~= old(self).connections@.dom());
                }
                Some(step)
            },
            None => {
                proof {
                    assert(self.connections@ =~= old(self).connections@);
                }
                None
            },
        }
    }

    /// Records that the response was written to the connection `fd`. Says whether
    /// the connection was waiting for it.
    pub fn written(&mut self, fd: i32) -> (was_due: bool)
        requires
            old(self).wf(),
        ensures
            final(self).wf(),
            final(self).ident() == old(self).ident(),
            final(self).descriptors() == old(self).descriptors(),
            was_due == (old(self).descriptors().contains(fd) && old(self).phase(fd)
                == Phase::Dispatched),
            was_due ==> final(self).phase(fd) == Phase::Written,
            !was_due ==> final(self).phase(fd) == old(self).phase(fd),
            final(self).received(fd) == old(self).received(fd),
            forall|other: i32|
                other != fd ==> #[trigger] final(self).received(other) == old(self).received(other),
            forall|other: i32|
                other != fd ==> #[trigger] final(self).phase(other) == old(self).phase(other),
    {
        match self.connections.remove(&fd) {
            Some(mut connection) => {
                let was_due = connection.written();
                self.connections.insert(fd, connection);
                proof {
                    assert(self.connections@.dom() =~= old(self).connections@.dom());
                }
                was_due
            },
            None => {
                proof {
                    assert(self.connections@ =~= old(self).connections@);
                }
                false
            },
        }
    }

    /// What to do when the connection `fd` has no more bytes for now; `None` where
    /// the listener does not own it.
    pub fn would_block(&self, fd: i32) -> (r: Option<WaitStep>)
        ensures
            r is Some == self.descriptors().contains(fd),
            r matches Some(step) ==> step == if self.received(fd).len() == 0 {
                WaitStep::Failed(ReadError::NoData)
            } else {
                WaitStep::Wait
            },
    {
        match self.connections.get(&fd) {
            Some(connection) => Some(connection.on_would_block()),
            None => None,
        }
    }

    /// Forgets the connection `fd`. The others are left as they are, bytes and phase.
    pub fn remove_connection(&mut self, fd: i32)
        requires
            old(self).wf(),
        ensures
            final(self).wf(),
            final(self).ident() == old(self).ident(),
            final(self).descriptors() == old(self).descriptors().remove(fd),
            forall|other: i32|
                other != fd ==> #[trigger] final(self).received(other) == old(self).received(other),
            forall|other: i32|
                other != fd ==> #[trigger] final(self).phase(other) == old(self).phase(other),
    {
        self.connections.remove(&fd);
    }
}

} // verus!
