//! Service configuration: the listening address and the notes root directory.

use vstd::prelude::*;

verus! {

/// Address the HTTP layer should bind to.
pub struct ServerConfig {
    pub host: String,
    pub port: u16,
}

/// Where the note files live.
pub struct StorageConfig {
    pub notes_dir: String,
}

/// Whole-service configuration.
pub struct Config {
    pub server: ServerConfig,
    pub storage: StorageConfig,
}

pub fn default_host() -> (r: String)
    ensures
        r@ == "127.0.0.1"@,
{
    String::from_str("127.0.0.1")
}

pub fn default_port() -> (r: u16)
    ensures
        r == 8080,
{
    8080
}

pub fn default_notes_dir() -> (r: String)
    ensures
        r@ == "./data/notes"@,
{
    String::from_str("./data/notes")
}

impl Default for Config {
    fn default() -> (r: Self)
        ensures
            r.server.host@ == "127.0.0.1"@,
            r.server.port == 8080,
            r.storage.notes_dir@ == "./data/notes"@,
    {
        Config {
            server: ServerConfig { host: default_host(), port: default_port() },
            storage: StorageConfig { notes_dir: default_notes_dir() },
        }
    }
}

} // verus!
