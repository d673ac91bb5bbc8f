use vstd::prelude::*;

verus! {

/// The settings a server process starts with.
#[derive(Clone, Debug)]
pub struct AppConfig {
    pub database_url: String,
    pub port: u16,
}

/// Why the settings could not be formed.
#[derive(Clone, Copy, Debug, PartialEq, Eq, Structural)]
pub enum ConfigError {
    /// No database URL was given.
    MissingDatabaseUrl,
    /// The port is not a number from 0 to 65535.
    InvalidPort,
}

/// The port used when none is given.
pub const DEFAULT_PORT: u16 = 3000;

/// The smallest number of definitions evaluated in parallel, when no valid
/// number is configured.
pub const DEFAULT_PARALLEL_THRESHOLD: usize = 64;

/// What `str::parse::<u16>` reads from a string, if anything.
pub uninterp spec fn parsed_u16(s: Seq<char>) -> Option<u16>;

/// What `str::parse::<usize>` reads from a string, if anything.
pub uninterp spec fn parsed_usize(s: Seq<char>) -> Option<usize>;

/// What `str::to_lowercase` makes of a string.
pub uninterp spec fn lowercased(s: Seq<char>) -> Seq<char>;

/// Relies on `<u16 as FromStr>::from_str`: the decimal number the string
/// spells, or `None`.
#[verifier::external_body]
fn parse_u16(s: &str) -> (r: Option<u16>)
    ensures
        r == parsed_u16(s@),
        s@.len() == 0 ==> r is None,
{
    s.parse::<u16>().ok()
}

/// Relies on `<usize as FromStr>::from_str`: the decimal number the string
/// spells, or `None`.
#[verifier::external_body]
fn parse_usize(s: &str) -> (r: Option<usize>)
    ensures
        r == parsed_usize(s@),
        s@.len() == 0 ==> r is None,
{
    s.parse::<usize>().ok()
}

/// Relies on `str::to_lowercase`: the string in lower case.
#[verifier::external_body]
fn to_lower(s: &str) -> (r: String)
    ensures
        r@ == lowercased(s@),
{
    s.to_lowercase()
}

impl AppConfig {
    /// The settings from the raw values of a database URL and a port; the port
    /// is 3000 when not given.
    pub fn from_values(database_url: Option<String>, port: Option<String>) -> (r: Result<
        AppConfig,
        ConfigError,
    >)
        ensures
            database_url is None ==> r == Err::<AppConfig, ConfigError>(
                ConfigError::MissingDatabaseUrl,
            ),
            database_url matches Some(u) ==> match port {
                None => r == Ok::<AppConfig, ConfigError>(
                    AppConfig { database_url: u, port: DEFAULT_PORT },
                ),
                Some(p) => match parsed_u16(p@) {
                    Some(n) => r == Ok::<AppConfig, ConfigError>(
                        AppConfig { database_url: u, port: n },
                    ),
                    None => r == Err::<AppConfig, ConfigError>(ConfigError::InvalidPort),
                },
            },
    {
        let url = match database_url {
            Some(u) => u,
            None => return Err(ConfigError::MissingDatabaseUrl),
        };
        let port = match port {
            None => DEFAULT_PORT,
            Some(p) => match parse_u16(p.as_str()) {
                Some(n) => n,
                None => return Err(ConfigError::InvalidPort),
            },
        };
        Ok(AppConfig { database_url: url, port })
    }
}

/// Whether parallel evaluation is switched on by a setting's raw value: only
/// `true`, in any case.
pub fn parallel_enabled_from(value: Option<String>) -> (r: bool)
    ensures
        r == (value matches Some(v) && lowercased(v@) == "true"@),
{
    proof {
        reveal_strlit("true");
    }
    match value {
        None => false,
        Some(v) => {
            let lower = to_lower(v.as_str());
            lower == "true".to_string()
        },
    }
}

/// The parallel threshold from a setting's raw value: the number it spells,
/// else 64.
pub fn parallel_threshold_from(value: Option<String>) -> (r: usize)
    ensures
        r == match value {
            Some(v) => match parsed_usize(v@) {
                Some(n) => n,
                None => DEFAULT_PARALLEL_THRESHOLD,
            },
            None => DEFAULT_PARALLEL_THRESHOLD,
        },
{
    match value {
        None => DEFAULT_PARALLEL_THRESHOLD,
        Some(v) => match parse_usize(v.as_str()) {
            Some(n) => n,
            None => DEFAULT_PARALLEL_THRESHOLD,
        },
    }
}

} // verus!
