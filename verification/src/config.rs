//! Client configuration: data-directory layout decisions and the
//! builder-client timeouts.
//!
//! Everything here computes paths and choices from plain values; creating
//! directories and reading the file system stay with the caller.

use vstd::prelude::*;
use vstd::string::{StringExecFns, StrSliceExecFns};

verus! {

/// Default timeout, in milliseconds, for fetching a builder header.
pub const DEFAULT_GET_HEADER_TIMEOUT_MILLIS: u64 = 500;

/// Timeouts of the builder HTTP client.
#[derive(Clone, Copy, PartialEq, Eq, Structural, Debug)]
pub struct Timeouts {
    /// Timeout of the header fetch, in milliseconds.
    pub get_header_millis: u64,
}

impl Default for Timeouts {
    fn default() -> (t: Self)
        ensures
            t.get_header_millis == DEFAULT_GET_HEADER_TIMEOUT_MILLIS,
    {
        Timeouts { get_header_millis: DEFAULT_GET_HEADER_TIMEOUT_MILLIS }
    }
}

/// How the client should obtain its genesis state.
#[derive(Clone, Copy, PartialEq, Eq, Structural, Debug)]
pub enum ClientGenesis {
    /// A synthetic genesis state with the given registry and time.
    Interop { validator_count: u64, genesis_time: u64 },
    /// Resume from persisted storage.
    FromStore,
    /// Wait for the deposit contract to produce the genesis state.
    DepositContract,
}

impl Default for ClientGenesis {
    fn default() -> (g: Self)
        ensures
            g == ClientGenesis::DepositContract,
    {
        ClientGenesis::DepositContract
    }
}

/// Append one path segment to a base path with a separator.
pub fn join_path(base: &str, segment: &str) -> (r: String)
    ensures
        r@ == base@ + "/"@ + segment@,
{
    let mut r = String::from_str(base);
    r.append("/");
    r.append(segment);
    r
}

/// The core client configuration, over plain values.
pub struct Config {
    /// The data directory.
    pub data_dir: String,
    /// Directory name of the main hot database inside the data directory.
    pub db_name: String,
    /// Explicit freezer-database path, when one was supplied.
    pub freezer_db_path: Option<String>,
    /// Use synthetic eth1 values.
    pub dummy_eth1_backend: bool,
    /// Follow the eth1 chain.
    pub sync_eth1_chain: bool,
    /// Default graffiti for produced blocks.
    pub graffiti: u64,
    /// How genesis is obtained.
    pub genesis: ClientGenesis,
}

/// Directory name of the freezer database under the data directory.
pub fn default_freezer_db_dir() -> (r: String)
    ensures
        r@ == "freezer_db"@,
{
    String::from_str("freezer_db")
}

impl Default for Config {
    fn default() -> (c: Config)
        ensures
            c.db_name@ == "chain_db"@,
            c.freezer_db_path is None,
            !c.dummy_eth1_backend,
            !c.sync_eth1_chain,
            c.genesis == ClientGenesis::DepositContract,
    {
        Config::new_default()
    }
}

impl Config {
    /// A default configuration.
    pub fn new_default() -> (c: Config)
        ensures
            c.db_name@ == "chain_db"@,
            c.freezer_db_path is None,
            !c.dummy_eth1_backend,
            !c.sync_eth1_chain,
            c.genesis == ClientGenesis::DepositContract,
    {
        let data_dir = String::from_str(".lighthouse");
        let db_name = String::from_str("chain_db");
        Config {
            data_dir,
            db_name,
            freezer_db_path: None,
            dummy_eth1_backend: false,
            sync_eth1_chain: false,
            graffiti: 0,
            genesis: ClientGenesis::DepositContract,
        }
    }

    /// The data directory to use, preferring an existing legacy layout
    /// under the home directory over the modern relative path.
    ///
    /// The caller supplies what only the file system knows: the legacy
    /// candidate path (home joined with the configured directory) and
    /// whether it exists.
    pub fn get_data_dir(&self, legacy_dir: Option<String>, legacy_exists: bool) -> (r: String)
        ensures
            match legacy_dir {
                Some(legacy) => r@ == if legacy_exists && legacy@ != self.data_dir@ {
                    legacy@
                } else {
                    self.data_dir@
                },
                None => r@ == self.data_dir@,
            },
    {
        match legacy_dir {
            Some(legacy) => {
                let differs = !str_eq(legacy.as_str(), self.data_dir.as_str());
                if legacy_exists && differs {
                    legacy
                } else {
                    String::from_str(self.data_dir.as_str())
                }
            },
            None => String::from_str(self.data_dir.as_str()),
        }
    }

    /// The mathematical value of the resolved data directory, given the
    /// file-system facts.
    pub open spec fn spec_data_dir(self, legacy_dir: Option<String>, legacy_exists: bool) -> Seq<
        char,
    > {
        match legacy_dir {
            Some(legacy) => if legacy_exists && legacy@ != self.data_dir@ {
                legacy@
            } else {
                self.data_dir@
            },
            None => self.data_dir@,
        }
    }

    /// The database path under the resolved data directory: an existing
    /// legacy layout keeps its database where it already is.
    pub fn get_db_path(&self, legacy_dir: Option<String>, legacy_exists: bool) -> (r: String)
        ensures
            r@ == self.spec_data_dir(legacy_dir, legacy_exists) + "/"@ + self.db_name@,
    {
        let base = self.get_data_dir(legacy_dir, legacy_exists);
        join_path(base.as_str(), self.db_name.as_str())
    }

    /// The freezer-database path: the supplied one, or the default under
    /// the resolved data directory.
    pub fn get_freezer_db_path(&self, legacy_dir: Option<String>, legacy_exists: bool) -> (r:
        String)
        ensures
            match self.freezer_db_path {
                Some(p) => r@ == p@,
                None => r@ == self.spec_data_dir(legacy_dir, legacy_exists) + "/"@
                    + "freezer_db"@,
            },
    {
        match &self.freezer_db_path {
            Some(p) => String::from_str(p.as_str()),
            None => {
                let base = self.get_data_dir(legacy_dir, legacy_exists);
                let dir = default_freezer_db_dir();
                join_path(base.as_str(), dir.as_str())
            },
        }
    }
}

/// Whether two strings hold the same characters.
pub fn str_eq(a: &str, b: &str) -> (r: bool)
    ensures
        r == (a@ == b@),
{
    let a_len = a.unicode_len();
    let b_len = b.unicode_len();
    if a_len != b_len {
        proof {
            assert(a@ != b@);
        }
        return false;
    }
    let mut i: usize = 0;
    while i < a_len
        invariant
            a_len == a@.len(),
            b_len == b@.len(),
            a_len == b_len,
            i <= a_len,
            forall|k: int| 0 <= k < i ==> a@[k] == b@[k],
        decreases a_len - i,
    {
        if a.get_char(i) != b.get_char(i) {
            return false;
        }
        i = i + 1;
    }
    proof {
        assert(a@ =~= b@);
    }
    true
}

} // verus!
