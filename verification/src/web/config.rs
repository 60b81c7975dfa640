//! Configuration of the dashboard web server.
use vstd::prelude::*;

use crate::number::{decimal, decimal_string};

verus! {

/// What a [`WebConfig`] holds, as plain values.
pub struct WebConfigView {
    pub host: Seq<char>,
    pub port: u16,
    pub enable_cors: bool,
    pub static_path: Option<Seq<char>>,
    pub max_websocket_connections: usize,
}

impl WebConfigView {
    /// The configuration that `WebConfig::default` gives.
    pub open spec fn default_config() -> WebConfigView {
        WebConfigView {
            host: seq!['0', '.', '0', '.', '0', '.', '0'],
            port: crate::DEFAULT_WEB_PORT,
            enable_cors: true,
            static_path: Some(seq!['s', 't', 'a', 't', 'i', 'c']),
            max_websocket_connections: 100,
        }
    }

    /// This configuration with another host.
    pub open spec fn with_host(self, host: Seq<char>) -> WebConfigView {
        WebConfigView { host, ..self }
    }

    /// This configuration with another port.
    pub open spec fn with_port(self, port: u16) -> WebConfigView {
        WebConfigView { port, ..self }
    }

    /// This configuration with CORS switched on or off.
    pub open spec fn with_cors(self, enable_cors: bool) -> WebConfigView {
        WebConfigView { enable_cors, ..self }
    }

    /// This configuration with another static files path.
    pub open spec fn with_static_path(self, static_path: Option<Seq<char>>) -> WebConfigView {
        WebConfigView { static_path, ..self }
    }

    /// This configuration with another limit on WebSocket connections.
    pub open spec fn with_max_websocket_connections(self, max: usize) -> WebConfigView {
        WebConfigView { max_websocket_connections: max, ..self }
    }

    /// The address `host:port` the server binds to.
    pub open spec fn bind_address(self) -> Seq<char> {
        self.host + seq![':'] + decimal(self.port as nat)
    }
}

/// Configuration for the web server.
#[derive(Debug, Clone)]
pub struct WebConfig {
    /// Host to bind the server to
    pub host: String,
    /// Port to bind the server to
    pub port: u16,
    /// Whether to enable CORS
    pub enable_cors: bool,
    /// Path to serve static files from
    pub static_path: Option<String>,
    /// Maximum number of WebSocket connections
    pub max_websocket_connections: usize,
}

impl View for WebConfig {
    type V = WebConfigView;

    open spec fn view(&self) -> WebConfigView {
        WebConfigView {
            host: self.host@,
            port: self.port,
            enable_cors: self.enable_cors,
            static_path: match self.static_path {
                Some(p) => Some(p@),
                None => None,
            },
            max_websocket_connections: self.max_websocket_connections,
        }
    }
}

impl Default for WebConfig {
    /// Binds to `0.0.0.0` on the default port, with CORS, static files from
    /// `static` and at most 100 WebSocket connections.
    fn default() -> (c: Self)
        ensures
            c@ == WebConfigView::default_config(),
    {
        let c = WebConfig {
            host: String::from_str("0.0.0.0"),
            port: crate::DEFAULT_WEB_PORT,
            enable_cors: true,
            static_path: Some(String::from_str("static")),
            max_websocket_connections: 100,
        };
        proof {
            reveal_strlit("0.0.0.0");
            reveal_strlit("static");
            assert(c@.host =~= WebConfigView::default_config().host);
            assert(c@.static_path->0 =~= WebConfigView::default_config().static_path->0);
        }
        c
    }
}

impl WebConfig {
    /// Create a new web configuration with custom host and port, the rest as
    /// `default` has it.
    pub fn new(host: &str, port: u16) -> (c: Self)
        ensures
            c@ == WebConfigView::default_config().with_host(host@).with_port(port),
    {
        let d = WebConfig::default();
        WebConfig { host: String::from_str(host), port, ..d }
    }

    /// Set the host for the web server.
    pub fn with_host(self, host: &str) -> (c: Self)
        ensures
            c@ == self@.with_host(host@),
    {
        WebConfig { host: String::from_str(host), ..self }
    }

    /// Set the port for the web server.
    pub fn with_port(self, port: u16) -> (c: Self)
        ensures
            c@ == self@.with_port(port),
    {
        WebConfig { port, ..self }
    }

    /// Enable or disable CORS.
    pub fn with_cors(self, enable_cors: bool) -> (c: Self)
        ensures
            c@ == self@.with_cors(enable_cors),
    {
        WebConfig { enable_cors, ..self }
    }

    /// Set the static files path.
    pub fn with_static_path(self, path: Option<String>) -> (c: Self)
        ensures
            c@ == self@.with_static_path(
                match path {
                    Some(p) => Some(p@),
                    None => None,
                },
            ),
    {
        WebConfig { static_path: path, ..self }
    }

    /// Set the maximum number of WebSocket connections.
    pub fn with_max_websocket_connections(self, max: usize) -> (c: Self)
        ensures
            c@ == self@.with_max_websocket_connections(max),
    {
        WebConfig { max_websocket_connections: max, ..self }
    }

    /// Get the full bind address, `host:port`.
    pub fn bind_address(&self) -> (a: String)
        ensures
            a@ == self@.bind_address(),
    {
        let mut a = self.host.clone();
        a.append(":");
        let p = decimal_string(self.port as u64);
        a.append(p.as_str());
        proof {
            reveal_strlit(":");
        }
        a
    }
}

} // verus!

verus! {

/// Whatever else a configuration holds, setting its host and port makes it bind to
/// `host:port`, and the other settings do not change where it binds.
pub proof fn law_bind_address_of_host_and_port(c: WebConfigView, host: Seq<char>, port: u16, cors: bool, max: usize)
    ensures
        c.with_host(host).with_port(port).bind_address() == host + seq![':'] + decimal(port as nat),
        c.with_cors(cors).with_max_websocket_connections(max).bind_address() == c.bind_address(),
{
}

} // verus!
