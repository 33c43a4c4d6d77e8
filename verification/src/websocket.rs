//! WebSocket adaptation of the byte-stream contract: how frames map to byte
//! reads, the buffered-message state, and request-URL construction. The
//! socket I/O itself runs outside this crate and hands frames in.

use vstd::prelude::*;
use vstd::string::StrSliceExecFns;
use crate::decimal::dec_chars;
use crate::decimal::push_digits;
use vstd::string::StringExecFns;

verus! {

// ---------------------------------------------------------------------------
// Frame classification: what one incoming frame means for a byte read.
// ---------------------------------------------------------------------------

/// The kinds of frame a WebSocket peer can deliver.
#[derive(Clone, Copy, Debug, PartialEq, Eq, Structural)]
pub enum WsMessageKind {
    Text,
    Binary,
    Ping,
    Pong,
    Close,
    /// A raw frame outside the message protocol.
    Raw,
}

/// What a read attempt does with one incoming frame.
#[derive(Clone, Copy, Debug, PartialEq, Eq, Structural)]
pub enum WsReadDecision {
    /// Text and binary frames become the current read buffer.
    Deliver,
    /// Close (or raw) frames end the stream: a zero-byte read.
    Eof,
    /// Ping and pong frames are consumed silently and the read is retried.
    Retry,
}

/// How one frame kind is handled: text and binary payloads are delivered,
/// close and raw frames signal end of stream, pings and pongs are consumed
/// with the read retried — never surfaced to the caller.
pub fn ws_read_decision(kind: WsMessageKind) -> (r: WsReadDecision)
    ensures
        (kind == WsMessageKind::Text || kind == WsMessageKind::Binary) ==> r
            == WsReadDecision::Deliver,
        (kind == WsMessageKind::Close || kind == WsMessageKind::Raw) ==> r == WsReadDecision::Eof,
        (kind == WsMessageKind::Ping || kind == WsMessageKind::Pong) ==> r
            == WsReadDecision::Retry,
{
    match kind {
        WsMessageKind::Text | WsMessageKind::Binary => WsReadDecision::Deliver,
        WsMessageKind::Close | WsMessageKind::Raw => WsReadDecision::Eof,
        WsMessageKind::Ping | WsMessageKind::Pong => WsReadDecision::Retry,
    }
}

// ---------------------------------------------------------------------------
// The buffered message a WebSocket stream hands out byte by byte.
// ---------------------------------------------------------------------------

/// The not-yet-consumed part of the last delivered message.
pub struct WsReadBuffer {
    read_buf: Vec<u8>,
    read_pos: usize,
}

impl WsReadBuffer {
    pub closed spec fn wf(&self) -> bool {
        self.read_pos <= self.read_buf@.len()
    }

    /// The bytes still to hand out.
    pub closed spec fn remaining(&self) -> Seq<u8> {
        self.read_buf@.subrange(self.read_pos as int, self.read_buf@.len() as int)
    }

    pub fn new() -> (r: Self)
        ensures
            r.wf(),
            r.remaining() == Seq::<u8>::empty(),
    {
        let r = WsReadBuffer { read_buf: Vec::new(), read_pos: 0 };
        proof {
            assert(r.remaining() =~= Seq::<u8>::empty());
        }
        r
    }

    /// Whether a new frame is needed before any byte can be handed out.
    pub fn is_drained(&self) -> (r: bool)
        requires
            self.wf(),
        ensures
            r == (self.remaining().len() == 0),
    {
        self.read_pos >= self.read_buf.len()
    }

    /// Replace the buffer with a freshly delivered message payload.
    pub fn refill(&mut self, data: Vec<u8>)
        ensures
            final(self).wf(),
            final(self).remaining() == data@,
    {
        self.read_buf = data;
        self.read_pos = 0;
        proof {
            assert(self.remaining() =~= self.read_buf@);
        }
    }

    /// Hand out up to `max` buffered bytes, consuming them.
    pub fn take(&mut self, max: usize) -> (r: Vec<u8>)
        requires
            old(self).wf(),
        ensures
            final(self).wf(),
            ({
                let rem = old(self).remaining();
                let k = if max <= rem.len() {
                    max as int
                } else {
                    rem.len() as int
                };
                &&& r@ == rem.subrange(0, k)
                &&& final(self).remaining() == rem.subrange(k, rem.len() as int)
            }),
    {
        let avail = self.read_buf.len() - self.read_pos;
        let k = if max <= avail {
            max
        } else {
            avail
        };
        let n: usize = self.read_buf.len();
        let mut r: Vec<u8> = Vec::new();
        let mut i: usize = 0;
        while i < k
            invariant
                i <= k,
                old(self) == self,
                n == self.read_buf@.len(),
                self.read_pos + k <= self.read_buf@.len(),
                r@ =~= self.read_buf@.subrange(self.read_pos as int, self.read_pos + i),
            decreases k - i,
        {
            r.push(self.read_buf[self.read_pos + i]);
            assert(r@ =~= self.read_buf@.subrange(self.read_pos as int, self.read_pos + i + 1));
            i = i + 1;
        }
        proof {
            let rem = self.remaining();
            assert(r@ =~= rem.subrange(0, k as int));
            assert(self.read_buf@.subrange(
                self.read_pos + k,
                self.read_buf@.len() as int,
            ) =~= rem.subrange(k as int, rem.len() as int));
        }
        self.read_pos = self.read_pos + k;
        r
    }
}

// ---------------------------------------------------------------------------
// Request-URL construction.
// ---------------------------------------------------------------------------

/// `s` with every leading `/` removed.
pub open spec fn trim_slashes(s: Seq<char>) -> Seq<char>
    decreases s.len(),
{
    if s.len() > 0 && s[0] == '/' {
        trim_slashes(s.drop_first())
    } else {
        s
    }
}

/// The WebSocket request URL: scheme by TLS use, then host and port, then
/// the path with its leading slashes normalized to one (or none when the
/// path is empty).
pub open spec fn spec_ws_url(tls: bool, host: Seq<char>, port: u16, path: Seq<char>) -> Seq<
    char,
> {
    let scheme: Seq<char> = if tls {
        "wss"@
    } else {
        "ws"@
    };
    let p = trim_slashes(path);
    if p.len() == 0 {
        scheme + "://"@ + host + ":"@ + dec_chars(port as int)
    } else {
        scheme + "://"@ + host + ":"@ + dec_chars(port as int) + "/"@ + p
    }
}

/// Build the WebSocket request URL.
pub fn ws_url(host: &str, port: u16, path: &str, use_tls: bool) -> (r: String)
    ensures
        r@ == spec_ws_url(use_tls, host@, port, path@),
{
    let mut s = String::from_str(if use_tls {
        "wss"
    } else {
        "ws"
    });
    s.append("://");
    s.append(host);
    s.append(":");
    push_digits(&mut s, port as u64);
    let n: usize = path.unicode_len();
    assert(path@.subrange(0, n as int) =~= path@);
    let mut j: usize = 0;
    while j < n && path.get_char(j) == '/'
        invariant
            j <= n,
            n == path@.len(),
            trim_slashes(path@) == trim_slashes(path@.subrange(j as int, n as int)),
        decreases n - j,
    {
        proof {
            assert(path@.subrange(j as int, n as int).drop_first() =~= path@.subrange(
                j + 1,
                n as int,
            ));
        }
        j = j + 1;
    }
    proof {
        if j < n {
            assert(path@.subrange(j as int, n as int)[0] == path@[j as int]);
        }
        assert(trim_slashes(path@.subrange(j as int, n as int)) == path@.subrange(
            j as int,
            n as int,
        ));
    }
    if j < n {
        s.append("/");
        s.append(path.substring_char(j, n));
        assert(s@ =~= spec_ws_url(use_tls, host@, port, path@));
    } else {
        assert(path@.subrange(j as int, n as int).len() == 0);
        assert(s@ =~= spec_ws_url(use_tls, host@, port, path@));
    }
    s
}

} // verus!
