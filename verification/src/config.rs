//! Startup configuration: defaults and strict validation of the values that
//! the process environment supplies.
//!
//! Every value arrives as raw bytes (`None` when the variable is unset), so a
//! value that is not Unicode is held as it is and judged like any other.
use vstd::prelude::*;
use vstd::string::StrSliceExecFns;
use vstd::string::StringSliceAdditionalSpecFns;

verus! {

/// The root used when `SITEVIK_ROOT` is unset.
pub open spec fn default_root() -> Seq<u8> {
    "./dist".spec_bytes()
}

/// The socket address used when `BIND_ADDR` is unset.
pub open spec fn default_bind_addr() -> Seq<u8> {
    "0.0.0.0:8080".spec_bytes()
}

/// The message of the error for a bad `SITEVIK_ROOT`.
pub open spec fn root_error() -> Seq<char> {
    "invalid SITEVIK_ROOT"@
}

/// The message of the error for a bad `BIND_ADDR`.
pub open spec fn bind_addr_error() -> Seq<char> {
    "invalid BIND_ADDR"@
}

/// The message of the error for a bad `SITEVIK_SPA`.
pub open spec fn spa_error() -> Seq<char> {
    "invalid SITEVIK_SPA"@
}

/// What `SITEVIK_SPA` means: unset is `false`, the exact texts `true` and
/// `false` are themselves, and anything else is refused.
pub open spec fn spa_setting(value: Option<Seq<u8>>) -> Option<bool> {
    match value {
        None => Some(false),
        Some(v) => if v == "false".spec_bytes() {
            Some(false)
        } else if v == "true".spec_bytes() {
            Some(true)
        } else {
            None
        },
    }
}

/// What the configuration comes to: the root, bind address and SPA flag, or
/// the message of the first error, judging the root, then the bind address,
/// then `SITEVIK_SPA`.
pub open spec fn config_result(
    root_value: Option<Seq<u8>>,
    root_is_dir: bool,
    bind_addr: Option<SocketAddress>,
    spa_value: Option<Seq<u8>>,
) -> Result<(Seq<u8>, SocketAddress, bool), Seq<char>> {
    if !root_is_dir {
        Err(root_error())
    } else {
        match bind_addr {
            None => Err(bind_addr_error()),
            Some(addr) => match spa_setting(spa_value) {
                None => Err(spa_error()),
                Some(spa) => Ok(
                    (
                        match root_value {
                            Some(v) => v,
                            None => default_root(),
                        },
                        addr,
                        spa,
                    ),
                ),
            },
        }
    }
}

/// The bytes of an optional value.
pub open spec fn value_view(value: Option<Vec<u8>>) -> Option<Seq<u8>> {
    match value {
        Some(v) => Some(v@),
        None => None,
    }
}

/// `SITEVIK_SPA` reads strictly: unset is `false`, exactly `true` is `true`,
/// exactly `false` is `false`, and every other value, of any case or with
/// any extra byte, is refused.
pub proof fn lemma_spa_setting_is_strict(value: Seq<u8>)
    ensures
        spa_setting(None) == Some(false),
        spa_setting(Some(value)) == Some(true) <==> value == "true".spec_bytes(),
        spa_setting(Some(value)) == Some(false) <==> value == "false".spec_bytes(),
        spa_setting(Some(value)) is None <==> (value != "true".spec_bytes() && value
            != "false".spec_bytes()),
{
    reveal_strlit("true");
    reveal_strlit("false");
    vstd::utf8::is_ascii_chars_encode_utf8("true"@);
    vstd::utf8::is_ascii_chars_encode_utf8("false"@);
    assert("true".spec_bytes() != "false".spec_bytes()) by {
        assert("true".spec_bytes().len() != "false".spec_bytes().len());
    }
}

/// The defaults are `./dist` for the root and `0.0.0.0:8080` for the bind
/// address, and each error names its variable.
pub proof fn lemma_defaults_and_messages()
    ensures
        default_root() == "./dist".spec_bytes(),
        default_bind_addr() == "0.0.0.0:8080".spec_bytes(),
        root_error() == "invalid SITEVIK_ROOT"@,
        bind_addr_error() == "invalid BIND_ADDR"@,
        spa_error() == "invalid SITEVIK_SPA"@,
{
}

/// The configuration is refused for a root that is not a readable directory
/// before anything else is judged, then for an unreadable bind address, then
/// for a bad `SITEVIK_SPA`; otherwise it holds the given (or default) root,
/// the bind address, and the SPA flag, which is on only for `true`.
pub proof fn lemma_config_rules(
    root_value: Option<Seq<u8>>,
    root_is_dir: bool,
    bind_addr: Option<SocketAddress>,
    spa_value: Option<Seq<u8>>,
)
    ensures
        !root_is_dir ==> config_result(root_value, root_is_dir, bind_addr, spa_value) == Err::<
            (Seq<u8>, SocketAddress, bool),
            Seq<char>,
        >("invalid SITEVIK_ROOT"@),
        root_is_dir && bind_addr is None ==> config_result(
            root_value,
            root_is_dir,
            bind_addr,
            spa_value,
        ) == Err::<(Seq<u8>, SocketAddress, bool), Seq<char>>("invalid BIND_ADDR"@),
        root_is_dir && bind_addr is Some && spa_value is Some && spa_value->0
            != "true".spec_bytes() && spa_value->0 != "false".spec_bytes() ==> config_result(
            root_value,
            root_is_dir,
            bind_addr,
            spa_value,
        ) == Err::<(Seq<u8>, SocketAddress, bool), Seq<char>>("invalid SITEVIK_SPA"@),
        root_is_dir && bind_addr is Some && (spa_value is None || spa_value->0
            == "true".spec_bytes() || spa_value->0 == "false".spec_bytes()) ==> config_result(
            root_value,
            root_is_dir,
            bind_addr,
            spa_value,
        ) == Ok::<(Seq<u8>, SocketAddress, bool), Seq<char>>(
            (
                match root_value {
                    Some(v) => v,
                    None => "./dist".spec_bytes(),
                },
                bind_addr->0,
                spa_value == Some("true".spec_bytes()),
            ),
        ),
{
    if let Some(v) = spa_value {
        lemma_spa_setting_is_strict(v);
    }
}

/// A configuration error, carrying a short message that names the variable
/// at fault.
#[derive(Debug)]
pub struct ConfigError(String);

impl View for ConfigError {
    type V = Seq<char>;

    closed spec fn view(&self) -> Seq<char> {
        self.0@
    }
}

impl ConfigError {
    /// The message of this error.
    pub fn message(&self) -> (message: &str)
        ensures
            message@ == self@,
    {
        self.0.as_str()
    }
}

/// A socket address, held as the plain values that make it up.
#[derive(Debug, Clone, Copy, PartialEq, Eq)]
pub enum SocketAddress {
    /// An IPv4 address and a port.
    V4 { octets: [u8; 4], port: u16 },
    /// An IPv6 address, a port, its flow information and its scope id.
    V6 { segments: [u16; 8], port: u16, flowinfo: u32, scope_id: u32 },
}

/// The validated configuration of the server.
#[derive(Debug, Clone, PartialEq, Eq)]
pub struct Config {
    /// The directory that holds the site, as the bytes of its path.
    pub root: Vec<u8>,
    /// The address on which the server listens.
    pub bind_addr: SocketAddress,
    /// Whether missing extensionless routes receive the root `index.html`.
    pub spa: bool,
}

/// Whether two byte slices are equal.
fn bytes_equal(a: &[u8], b: &[u8]) -> (equal: bool)
    ensures
        equal == (a@ == b@),
{
    if a.len() != b.len() {
        return false;
    }
    let mut i: usize = 0;
    while i < a.len()
        invariant
            a@.len() == b@.len(),
            i <= a@.len(),
            forall|j: int| 0 <= j < i ==> a@[j] == b@[j],
        decreases a.len() - i,
    {
        if a[i] != b[i] {
            return false;
        }
        i += 1;
    }
    assert(a@ == b@);
    true
}

/// The site root: the value of `SITEVIK_ROOT`, or `./dist` when it is unset.
pub fn root_from_value(value: Option<Vec<u8>>) -> (root: Vec<u8>)
    ensures
        root@ == match value {
            Some(v) => v@,
            None => default_root(),
        },
{
    match value {
        Some(v) => v,
        None => "./dist".as_bytes_vec(),
    }
}

/// The text to read as the bind address: the value of `BIND_ADDR`, or
/// `0.0.0.0:8080` when it is unset.
pub fn bind_addr_from_value(value: Option<Vec<u8>>) -> (text: Vec<u8>)
    ensures
        text@ == match value {
            Some(v) => v@,
            None => default_bind_addr(),
        },
{
    match value {
        Some(v) => v,
        None => "0.0.0.0:8080".as_bytes_vec(),
    }
}

/// Reads `SITEVIK_SPA` strictly: unset means `false`, and a set value must be
/// exactly `true` or `false`.
pub fn spa_from_value(value: Option<Vec<u8>>) -> (spa: Result<bool, ConfigError>)
    ensures
        match spa_setting(
            match value {
                Some(v) => Some(v@),
                None => None,
            },
        ) {
            Some(b) => spa == Ok::<bool, ConfigError>(b),
            None => spa matches Err(e) && e@ == spa_error(),
        },
{
    match value {
        None => Ok(false),
        Some(v) => {
            if bytes_equal(v.as_slice(), "false".as_bytes()) {
                Ok(false)
            } else if bytes_equal(v.as_slice(), "true".as_bytes()) {
                Ok(true)
            } else {
                Err(ConfigError("invalid SITEVIK_SPA".to_owned()))
            }
        },
    }
}

impl Config {
    /// Validates the configuration values.
    ///
    /// `root_is_dir` tells whether the root that `root_from_value` makes of
    /// `root_value` is a readable directory; `bind_addr` is the socket address
    /// read from the text that `bind_addr_from_value` gives, or `None` when
    /// that text is not a socket address. The root is judged first, then the
    /// bind address, then `SITEVIK_SPA`.
    pub fn from_values(
        root_value: Option<Vec<u8>>,
        root_is_dir: bool,
        bind_addr: Option<SocketAddress>,
        spa_value: Option<Vec<u8>>,
    ) -> (config: Result<Config, ConfigError>)
        ensures
            !root_is_dir ==> (config matches Err(e) && e@ == root_error()),
            root_is_dir && bind_addr is None ==> (config matches Err(e) && e@ == bind_addr_error()),
            match (config, config_result(value_view(root_value), root_is_dir, bind_addr, value_view(spa_value))) {
                (Ok(c), Ok((root, addr, spa))) => c.root@ == root && c.bind_addr == addr && c.spa == spa,
                (Err(e), Err(message)) => e@ == message,
                _ => false,
            },
            root_is_dir && bind_addr is Some ==> match spa_setting(
                match spa_value {
                    Some(v) => Some(v@),
                    None => None,
                },
            ) {
                None => config matches Err(e) && e@ == spa_error(),
                Some(spa) => config matches Ok(c) && c.spa == spa && Some(c.bind_addr)
                    == bind_addr && c.root@ == match root_value {
                    Some(v) => v@,
                    None => default_root(),
                },
            },
    {
        let root = root_from_value(root_value);
        if !root_is_dir {
            return Err(ConfigError("invalid SITEVIK_ROOT".to_owned()));
        }
        let bind_addr = match bind_addr {
            Some(addr) => addr,
            None => return Err(ConfigError("invalid BIND_ADDR".to_owned())),
        };
        let spa = spa_from_value(spa_value)?;
        Ok(Config { root, bind_addr, spa })
    }
}

} // verus!
