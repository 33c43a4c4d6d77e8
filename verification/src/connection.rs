//! Connection engine decision logic: the states and events the engine emits,
//! the per-turn decisions of the reader and writer workers, and the check
//! that admits or refuses sends. The workers themselves run outside this
//! crate; they perform one read or write, then hand the outcome to these
//! functions.

use vstd::prelude::*;
use vstd::string::StringExecFns;
use vstd::utf8::encode_utf8;
use crate::handshake::HandshakeError;
use crate::stanza::StreamFramer;
use crate::stanza::extract_all;

verus! {

/// Connection states. The numeric ordering is a fixed contract consumed by
/// callers and must not change.
#[derive(Clone, Copy, Debug, PartialEq, Eq, Structural)]
pub enum TransportState {
    Disconnected,
    Connecting,
    Connected,
    TlsSuccess,
    Disconnecting,
    ConnectionFailure,
    Reconnecting,
}

/// The fixed numeric code of each state.
pub open spec fn state_code(s: TransportState) -> int {
    match s {
        TransportState::Disconnected => 0,
        TransportState::Connecting => 1,
        TransportState::Connected => 2,
        TransportState::TlsSuccess => 3,
        TransportState::Disconnecting => 4,
        TransportState::ConnectionFailure => 5,
        TransportState::Reconnecting => 6,
    }
}

impl TransportState {
    /// The numeric code of this state.
    pub fn code(&self) -> (r: i32)
        ensures
            r as int == state_code(*self),
    {
        match self {
            TransportState::Disconnected => 0,
            TransportState::Connecting => 1,
            TransportState::Connected => 2,
            TransportState::TlsSuccess => 3,
            TransportState::Disconnecting => 4,
            TransportState::ConnectionFailure => 5,
            TransportState::Reconnecting => 6,
        }
    }
}

/// Events handed to the boundary layer, produced only by the workers.
#[derive(Debug)]
pub enum TransportEvent {
    /// A state change, by its numeric code.
    State(i32),
    /// One complete stanza, in extraction order.
    Stanza(String),
    /// A worker-confined failure: numeric code and description.
    Error(i32, String),
}

/// What one read attempt on the shared stream produced.
#[derive(Debug)]
pub enum ReadOutcome {
    /// A zero-byte read: the peer closed the stream in an orderly way.
    Eof,
    /// Bytes arrived.
    Data(Vec<u8>),
    /// A would-block, timeout, or interrupt: retry after yielding.
    Transient,
    /// Any other read error: terminal for the reader.
    Failed,
}

/// What the reader decided for one loop turn: the events to emit, in order,
/// and whether the reader exits.
#[derive(Debug)]
pub struct ReaderStep {
    pub events: Vec<TransportEvent>,
    pub exit: bool,
}

/// One turn of the reader loop. On shutdown, an orderly close, or a terminal
/// read error the reader exits, emitting exactly one `Disconnected` state
/// event and nothing else. A transient error emits nothing and retries.
/// Arriving bytes go to the framer; each completed fragment becomes one
/// `Stanza` event, in extraction order.
pub fn reader_step(framer: &mut StreamFramer, shutdown: bool, outcome: ReadOutcome) -> (r:
    ReaderStep)
    ensures
        shutdown ==> ({
            &&& r.exit
            &&& r.events@ =~= seq![TransportEvent::State(0)]
            &&& final(framer).buf() == old(framer).buf()
            &&& final(framer).header_mode() == old(framer).header_mode()
        }),
        !shutdown ==> match outcome {
            ReadOutcome::Eof => {
                &&& r.exit
                &&& r.events@ =~= seq![TransportEvent::State(0)]
                &&& final(framer).buf() == old(framer).buf()
                &&& final(framer).header_mode() == old(framer).header_mode()
            },
            ReadOutcome::Failed => {
                &&& r.exit
                &&& r.events@ =~= seq![TransportEvent::State(0)]
                &&& final(framer).buf() == old(framer).buf()
                &&& final(framer).header_mode() == old(framer).header_mode()
            },
            ReadOutcome::Transient => {
                &&& !r.exit
                &&& r.events@ =~= Seq::<TransportEvent>::empty()
                &&& final(framer).buf() == old(framer).buf()
                &&& final(framer).header_mode() == old(framer).header_mode()
            },
            ReadOutcome::Data(d) => ({
                let all = extract_all(old(framer).buf() + d@, old(framer).header_mode());
                &&& !r.exit
                &&& final(framer).buf() == all.1
                &&& final(framer).header_mode() == all.2
                &&& r.events@.len() == all.0.len()
                &&& forall|i: int|
                    0 <= i < r.events@.len() ==> ((#[trigger] r.events@[i]) matches
                        TransportEvent::Stanza(st) && encode_utf8(st@) == all.0[i])
            }),
        },
{
    if shutdown {
        let mut events: Vec<TransportEvent> = Vec::new();
        events.push(TransportEvent::State(0));
        assert(events@ =~= seq![TransportEvent::State(0)]);
        return ReaderStep { events, exit: true };
    }
    match outcome {
        ReadOutcome::Eof | ReadOutcome::Failed => {
            let mut events: Vec<TransportEvent> = Vec::new();
            events.push(TransportEvent::State(0));
            assert(events@ =~= seq![TransportEvent::State(0)]);
            ReaderStep { events, exit: true }
        },
        ReadOutcome::Transient => {
            let events: Vec<TransportEvent> = Vec::new();
            assert(events@ =~= Seq::<TransportEvent>::empty());
            ReaderStep { events, exit: false }
        },
        ReadOutcome::Data(d) => {
            let ghost all = extract_all(framer.buf() + d@, framer.header_mode());
            let mut events: Vec<TransportEvent> = Vec::new();
            match framer.push(d.as_slice()) {
                Ok(frags) => {
                    let n = frags.len();
                    let mut frags = frags;
                    let ghost frag_seq = frags@;
                    let mut i: usize = 0;
                    loop
                        invariant
                            events@.len() + frags@.len() == n == frag_seq.len(),
                            frags@ =~= frag_seq.subrange(
                                (n - frags@.len()) as int,
                                n as int,
                            ),
                            forall|t: int|
                                0 <= t < events@.len() ==> ((#[trigger] events@[t]) matches
                                    TransportEvent::Stanza(st) && st == frag_seq[t]),
                        ensures
                            frags@.len() == 0,
                            events@.len() == n,
                        decreases frags@.len(),
                    {
                        let ghost before = frags@;
                        if frags.len() == 0 {
                            break;
                        }
                        let st = frags.remove(0);
                        proof {
                            assert(st == before[0]);
                            assert(before[0] == frag_seq[(n - before.len()) as int]);
                            assert(frags@ =~= frag_seq.subrange(
                                (n - frags@.len()) as int,
                                n as int,
                            ));
                        }
                        events.push(TransportEvent::Stanza(st));
                    }
                    proof {
                        assert(forall|i: int|
                            0 <= i < frag_seq.len() ==> crate::stanza::frags_bytes(frag_seq)[i]
                                == encode_utf8(#[trigger] frag_seq[i]@));
                    }
                    ReaderStep { events, exit: false }
                },
                Err(_) => {
                    // Unreachable: push always succeeds; its contract says so.
                    assert(false);
                    ReaderStep { events, exit: false }
                },
            }
        },
    }
}

/// What the writer found when it polled the send queue.
#[derive(Debug)]
pub enum SendQueueOutcome {
    /// One outbound buffer to deliver.
    Received(Vec<u8>),
    /// The producer side was torn down: exit silently.
    Closed,
}

/// The writer's decision before touching the stream.
#[derive(Debug)]
pub enum WriterAction {
    /// Write all of these bytes, then flush, under the shared lock.
    Write(Vec<u8>),
    /// Stop the writer.
    Exit,
}

/// One polling turn of the writer loop: on shutdown or a closed queue the
/// writer exits; otherwise the received buffer is written in full.
pub fn writer_poll_step(shutdown: bool, item: SendQueueOutcome) -> (r: WriterAction)
    ensures
        shutdown ==> r is Exit,
        !shutdown ==> match item {
            SendQueueOutcome::Received(d) => r matches WriterAction::Write(w) && w@ == d@,
            SendQueueOutcome::Closed => r is Exit,
        },
{
    if shutdown {
        return WriterAction::Exit;
    }
    match item {
        SendQueueOutcome::Received(d) => WriterAction::Write(d),
        SendQueueOutcome::Closed => WriterAction::Exit,
    }
}

/// What the writer decided after a write attempt: the events to emit and
/// whether the writer exits.
#[derive(Debug)]
pub struct WriterStep {
    pub events: Vec<TransportEvent>,
    pub exit: bool,
}

/// The writer's decision after one write-and-flush attempt: success carries
/// on silently; failure emits exactly one error event and stops only the
/// writer.
pub fn writer_write_step(ok: bool, error_message: String) -> (r: WriterStep)
    ensures
        ok ==> !r.exit && r.events@ =~= Seq::<TransportEvent>::empty(),
        !ok ==> r.exit && r.events@ =~= seq![TransportEvent::Error(1, error_message)],
{
    if ok {
        WriterStep { events: Vec::new(), exit: false }
    } else {
        let mut events: Vec<TransportEvent> = Vec::new();
        events.push(TransportEvent::Error(1, error_message));
        assert(events@ =~= seq![TransportEvent::Error(1, error_message)]);
        WriterStep { events, exit: true }
    }
}

/// The sender-side state a connection keeps for its caller: whether a send
/// queue exists, and whether shutdown was requested.
#[derive(Debug)]
pub struct SendGuard {
    pub connected: bool,
    pub shutdown_requested: bool,
}

impl SendGuard {
    /// A fresh guard: not connected, not shut down.
    pub fn new() -> (r: Self)
        ensures
            !r.connected,
            !r.shutdown_requested,
    {
        SendGuard { connected: false, shutdown_requested: false }
    }

    /// Record that the send queue now exists.
    pub fn on_connected(&mut self)
        ensures
            final(self).connected,
            final(self).shutdown_requested == old(self).shutdown_requested,
    {
        self.connected = true;
    }

    /// Request shutdown: the cancellation flag is set and the send queue's
    /// producer side is discarded, so no later send can be admitted.
    pub fn shutdown(&mut self)
        ensures
            final(self).shutdown_requested,
            !final(self).connected,
    {
        self.shutdown_requested = true;
        self.connected = false;
    }

    /// Admit or refuse a send: allowed exactly while the send queue exists.
    pub fn send_check(&self) -> (r: Result<(), HandshakeError>)
        ensures
            self.connected <==> r is Ok,
            !self.connected ==> (r matches Err(e) && e matches HandshakeError::Connection(m)
                && m@ == "not connected"@),
    {
        if self.connected {
            Ok(())
        } else {
            Err(HandshakeError::Connection(String::from_str("not connected")))
        }
    }
}

} // verus!
