//! Connection configuration: target domain and port, transport kind, timeout,
//! TLS and WebSocket options. Created once per connection attempt and never
//! mutated afterwards.

use vstd::prelude::*;

verus! {

/// Transport kind: plain TCP (with optional StartTLS upgrade), direct TLS,
/// or WebSocket (plain or over TLS).
#[derive(Clone, Copy, Debug, PartialEq, Eq, Structural)]
pub enum TransportKind {
    Tcp,
    TcpStartTls,
    DirectTls,
    WebSocket,
    WebSocketTls,
}

/// The fixed numeric code of each transport kind, as callers across the
/// boundary see it.
pub open spec fn kind_code(k: TransportKind) -> int {
    match k {
        TransportKind::Tcp => 0,
        TransportKind::TcpStartTls => 1,
        TransportKind::DirectTls => 2,
        TransportKind::WebSocket => 3,
        TransportKind::WebSocketTls => 4,
    }
}

impl TransportKind {
    /// The numeric code of this kind.
    pub fn code(&self) -> (r: i32)
        ensures
            r as int == kind_code(*self),
    {
        match self {
            TransportKind::Tcp => 0,
            TransportKind::TcpStartTls => 1,
            TransportKind::DirectTls => 2,
            TransportKind::WebSocket => 3,
            TransportKind::WebSocketTls => 4,
        }
    }

    /// The kind a numeric code denotes; unknown codes fall back to
    /// `TcpStartTls`, the default transport.
    pub fn from_code(code: i32) -> (r: TransportKind)
        ensures
            0 <= code <= 4 ==> kind_code(r) == code as int,
            !(0 <= code <= 4) ==> r == TransportKind::TcpStartTls,
    {
        if code == 0 {
            TransportKind::Tcp
        } else if code == 1 {
            TransportKind::TcpStartTls
        } else if code == 2 {
            TransportKind::DirectTls
        } else if code == 3 {
            TransportKind::WebSocket
        } else if code == 4 {
            TransportKind::WebSocketTls
        } else {
            TransportKind::TcpStartTls
        }
    }
}

/// Configuration of one connection attempt. `host` is the domain to resolve
/// (and the base of the SRV query when `service` is set).
#[derive(Debug)]
pub struct TransportConfig {
    /// Domain to resolve, and base of `_service._tcp.domain` when `service` is set.
    pub host: String,
    pub port: u16,
    pub kind: TransportKind,
    pub connect_timeout_ms: u32,
    /// Overrides the TLS server name; `None` uses the resolved host.
    pub tls_server_name: Option<String>,
    /// SRV service name (such as `xmpp-client`), or `None` to skip SRV discovery.
    pub service: Option<String>,
    pub use_ipv6: bool,
    /// WebSocket path; `None` means the default `/ws`.
    pub ws_path: Option<String>,
}

impl TransportConfig {
    /// The connect timeout in milliseconds, widened for duration arithmetic.
    pub fn connect_timeout(&self) -> (r: u64)
        ensures
            r == self.connect_timeout_ms as u64,
    {
        self.connect_timeout_ms as u64
    }
}

impl Default for TransportConfig {
    fn default() -> (r: Self)
        ensures
            r.host@ == Seq::<char>::empty(),
            r.port == 5222,
            r.kind == TransportKind::TcpStartTls,
            r.connect_timeout_ms == 2000,
            r.tls_server_name is None,
            r.service is None,
            !r.use_ipv6,
            r.ws_path matches Some(p) && p@ == "/ws"@,
    {
        TransportConfig {
            host: String::new(),
            port: 5222,
            kind: TransportKind::TcpStartTls,
            connect_timeout_ms: 2000,
            tls_server_name: None,
            service: None,
            use_ipv6: false,
            ws_path: Some(String::from_str("/ws")),
        }
    }
}

} // verus!
