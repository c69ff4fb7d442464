//! How a run is configured: as a server that exposes a directory, or as a
//! client that mirrors the directory of a server.

use vstd::prelude::*;
use vstd::string::StringExecFns;

verus! {

/// The port that servers listen on and clients connect to unless a
/// configuration says otherwise.
pub const DEFAULT_PORT: u16 = 5343;

/// The port that a freshly written configuration template names.
pub const TEMPLATE_PORT: u16 = 8080;

/// A server: the port to listen on and the directory to expose.
#[derive(Debug, Clone, PartialEq, Eq)]
pub struct ServerConfig {
    pub port: u16,
    pub location: String,
}

/// A client: the server to reach and the directory to mirror into.
#[derive(Debug, Clone, PartialEq, Eq)]
pub struct ClientConfig {
    pub host: String,
    pub port: u16,
    pub location: String,
}

/// The configuration of a run.
#[derive(Debug, Clone, PartialEq, Eq)]
pub enum Config {
    Server(ServerConfig),
    Client(ClientConfig),
}

/// What a `Config` holds, as mathematical sequences.
pub enum ConfigView {
    Server { port: u16, location: Seq<char> },
    Client { host: Seq<char>, port: u16, location: Seq<char> },
}

impl View for Config {
    type V = ConfigView;

    open spec fn view(&self) -> ConfigView {
        match self {
            Config::Server(s) => ConfigView::Server { port: s.port, location: s.location@ },
            Config::Client(c) => ConfigView::Client {
                host: c.host@,
                port: c.port,
                location: c.location@,
            },
        }
    }
}

impl Config {
    /// A server on `port` over the directory `location`.
    pub fn new_server(port: u16, location: String) -> (config: Self)
        ensures
            config@ == (ConfigView::Server { port, location: location@ }),
    {
        Config::Server(ServerConfig { port, location })
    }

    /// A client of `host` on `port`, mirroring into the directory `location`.
    pub fn new_client(host: String, port: u16, location: String) -> (config: Self)
        ensures
            config@ == (ConfigView::Client { host: host@, port, location: location@ }),
    {
        Config::Client(ClientConfig { host, port, location })
    }

    /// The template of a server configuration, for the user to fill in.
    pub fn create_server_config() -> (config: Self)
        ensures
            config@ == (ConfigView::Server { port: TEMPLATE_PORT, location: "/path/to/server"@ }),
    {
        Config::Server(
            ServerConfig { port: TEMPLATE_PORT, location: String::from_str("/path/to/server") },
        )
    }

    /// The template of a client configuration, for the user to fill in.
    pub fn create_client_config() -> (config: Self)
        ensures
            config@ == (ConfigView::Client {
                host: "localhost"@,
                port: TEMPLATE_PORT,
                location: "/path/to/client"@,
            }),
    {
        Config::Client(
            ClientConfig {
                host: String::from_str("localhost"),
                port: TEMPLATE_PORT,
                location: String::from_str("/path/to/client"),
            },
        )
    }
}

} // verus!
