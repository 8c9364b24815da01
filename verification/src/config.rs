use vstd::prelude::*;
use vstd::string::StrSliceExecFns;
use vstd::string::StringExecFns;

use crate::text::str_eq;

verus! {

/// How the web UI is configured: where it listens, which atuin server it
/// reads from, and how sessions behave.
pub struct Config {
    /// The address to listen on.
    pub bind: String,
    /// The atuin server to read from.
    pub atuin_server_url: String,
    /// A token that stands in for every visitor's login.
    pub token: Option<String>,
    /// How long an idle session lasts, in seconds.
    pub session_expiry: u64,
    pub log_level: String,
    /// Session cookies carry the Secure flag.
    pub secure_cookies: bool,
    /// Probe a running instance's health endpoint and exit.
    pub healthcheck: bool,
}

impl Default for Config {
    /// The configuration that applies when no option is given.
    fn default() -> (r: Self)
        ensures
            r.bind@ == "127.0.0.1:8080"@,
            r.atuin_server_url@ == "http://127.0.0.1:8888"@,
            r.token is None,
            r.session_expiry == 86400,
            r.log_level@ == "info"@,
            !r.secure_cookies,
            !r.healthcheck,
    {
        Config {
            bind: String::from_str("127.0.0.1:8080"),
            atuin_server_url: String::from_str("http://127.0.0.1:8888"),
            token: None,
            session_expiry: 86400,
            log_level: String::from_str("info"),
            secure_cookies: false,
            healthcheck: false,
        }
    }
}

/// The index of the first ':' in `s`, or its length when there is none.
pub open spec fn first_colon(s: Seq<char>) -> int
    decreases s.len(),
{
    if s.len() == 0 || s[0] == ':' {
        0
    } else {
        1 + first_colon(s.drop_first())
    }
}

/// The host part of a bind address: all before its first ':'.
pub open spec fn bind_host_spec(bind: Seq<char>) -> Seq<char> {
    bind.take(first_colon(bind))
}

proof fn lemma_first_colon_bounds(s: Seq<char>)
    ensures
        0 <= first_colon(s) <= s.len(),
        first_colon(s) < s.len() ==> s[first_colon(s)] == ':',
        forall|i: int| 0 <= i < first_colon(s) ==> s[i] != ':',
    decreases s.len(),
{
    if s.len() > 0 && s[0] != ':' {
        lemma_first_colon_bounds(s.drop_first());
        assert forall|i: int| 0 <= i < first_colon(s) implies s[i] != ':' by {
            if i > 0 {
                assert(s[i] == s.drop_first()[i - 1]);
            }
        }
    }
}

/// The host part of a bind address: all before its first ':'.
pub fn bind_host(bind: &str) -> (r: &str)
    ensures
        r@ == bind_host_spec(bind@),
{
    proof {
        lemma_first_colon_bounds(bind@);
    }
    let n = bind.unicode_len();
    let mut i: usize = 0;
    while i < n && bind.get_char(i) != ':'
        invariant
            n == bind@.len(),
            i <= first_colon(bind@),
            0 <= first_colon(bind@) <= n,
            first_colon(bind@) < n ==> bind@[first_colon(bind@)] == ':',
            forall|j: int| 0 <= j < first_colon(bind@) ==> bind@[j] != ':',
        decreases n - i,
    {
        i = i + 1;
    }
    bind.substring_char(0, i)
}

/// The bind address keeps the UI on this machine: its host part is
/// "127.0.0.1", "localhost" or "::1".
pub open spec fn is_local_bind_spec(bind: Seq<char>) -> bool {
    let host = bind_host_spec(bind);
    host == "127.0.0.1"@ || host == "localhost"@ || host == "::1"@
}

impl Config {
    /// Whether the UI listens only on this machine. With a configured token
    /// every visitor of any other address reads the account's history.
    pub fn is_local_bind(&self) -> (r: bool)
        ensures
            r == is_local_bind_spec(self.bind@),
    {
        let host = bind_host(self.bind.as_str());
        str_eq(host, "127.0.0.1") || str_eq(host, "localhost") || str_eq(host, "::1")
    }

    /// The URL that the health probe requests.
    pub fn healthcheck_url(&self) -> (r: String)
        ensures
            r@ == "http://"@ + self.bind@ + "/healthz"@,
    {
        let mut r = String::from_str("http://");
        r.append(self.bind.as_str());
        r.append("/healthz");
        r
    }
}

/// The exit code of the health probe.
pub fn healthcheck_exit_code(healthy: bool) -> (r: i32)
    ensures
        r == if healthy {
            0i32
        } else {
            1i32
        },
{
    if healthy {
        0
    } else {
        1
    }
}

} // verus!
