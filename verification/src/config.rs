//! Server configuration and its defaults.
use vstd::prelude::*;

verus! {

/// The whole server configuration.
#[derive(Debug, Clone)]
pub struct ServerConfig {
    pub server: ServerSection,
    pub network: NetworkSection,
    pub motd: MotdSection,
    pub login: LoginSection,
}

#[derive(Debug, Clone)]
pub struct ServerSection {
    pub name: String,
    pub max_players: u32,
    pub default_gamemode: String,
    pub view_distance: u32,
    pub simulation_distance: u32,
}

#[derive(Debug, Clone)]
pub struct NetworkSection {
    pub bind_address: String,
    pub port: u16,
    /// Frames of at least this many bytes are compressed; negative turns
    /// compression off.
    pub compression_threshold: i32,
}

#[derive(Debug, Clone)]
pub struct MotdSection {
    pub line1: String,
    pub line2: String,
    pub favicon: Option<String>,
}

#[derive(Debug, Clone)]
pub struct LoginSection {
    pub online_mode: bool,
    pub prevent_proxy_connections: bool,
}

/// Whether `c` holds the built-in defaults.
pub open spec fn is_default_config(c: ServerConfig) -> bool {
    &&& c.server.name@ == "Pigeon Server"@
    &&& c.server.max_players == 20
    &&& c.server.default_gamemode@ == "survival"@
    &&& c.server.view_distance == 10
    &&& c.server.simulation_distance == 10
    &&& c.network.bind_address@ == "0.0.0.0"@
    &&& c.network.port == 25565
    &&& c.network.compression_threshold == 256
    &&& c.motd.line1@ == "A Pigeon Server"@
    &&& c.motd.line2@ == "Powered by PigeonMC"@
    &&& c.motd.favicon is None
    &&& c.login.online_mode
    &&& !c.login.prevent_proxy_connections
}

impl Default for ServerConfig {
    /// The built-in defaults.
    fn default() -> (c: Self)
        ensures
            is_default_config(c),
    {
        ServerConfig {
            server: ServerSection {
                name: String::from_str("Pigeon Server"),
                max_players: 20,
                default_gamemode: String::from_str("survival"),
                view_distance: 10,
                simulation_distance: 10,
            },
            network: NetworkSection {
                bind_address: String::from_str("0.0.0.0"),
                port: 25565,
                compression_threshold: 256,
            },
            motd: MotdSection {
                line1: String::from_str("A Pigeon Server"),
                line2: String::from_str("Powered by PigeonMC"),
                favicon: None,
            },
            login: LoginSection { online_mode: true, prevent_proxy_connections: false },
        }
    }
}

impl ServerConfig {
    /// The built-in defaults.
    pub fn default_config() -> (c: Self)
        ensures
            is_default_config(c),
    {
        ServerConfig::default()
    }
}

/// The configuration the server starts with: the built-in defaults.
pub fn load_default() -> (c: ServerConfig)
    ensures
        is_default_config(c),
{
    ServerConfig::default_config()
}

} // verus!
