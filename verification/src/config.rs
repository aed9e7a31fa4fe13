//! The settings of the server. They are read once, when it starts.

use crate::text::{append_chars, chars_of, string_of};
use vstd::prelude::*;

verus! {

/// The settings of the server.
#[derive(Debug, Clone)]
pub struct Config {
    /// The directory that holds the source documents.
    pub content_dir: String,
    /// The directory that the artifacts are written to.
    pub output_dir: String,
    /// The port to listen on.
    pub port: u16,
    /// The address to bind to, in its textual form.
    pub host: String,
    /// Whether to open the browser once the server runs.
    pub open_browser: bool,
    /// How many signals the queue of one subscriber holds.
    pub broadcast_capacity: usize,
}

/// The ten digits, in rising order.
pub const DIGITS: &'static str = "0123456789";

/// The decimal numeral of `n`, without leading zeros.
pub open spec fn decimal(n: nat) -> Seq<char>
    decreases n,
{
    if n < 10 {
        seq![DIGITS@[n as int]]
    } else {
        decimal(n / 10).push(DIGITS@[(n % 10) as int])
    }
}

/// The address of the server as a browser takes it.
pub open spec fn url_of(host: Seq<char>, port: nat) -> Seq<char> {
    "http://"@ + host + ":"@ + decimal(port)
}

/// The decimal numeral of `n`.
pub fn decimal_chars(n: u16) -> (numeral: Vec<char>)
    ensures
        numeral@ == decimal(n as nat),
    decreases n,
{
    let digits = chars_of(DIGITS);
    proof {
        reveal_strlit("0123456789");
    }
    if n < 10 {
        let mut numeral: Vec<char> = Vec::new();
        numeral.push(digits[n as usize]);
        assert(numeral@ =~= seq![DIGITS@[n as int]]);
        numeral
    } else {
        let mut numeral = decimal_chars(n / 10);
        numeral.push(digits[(n % 10) as usize]);
        numeral
    }
}

impl Config {
    /// Settings with the given values.
    pub fn new(
        content_dir: String,
        output_dir: String,
        port: u16,
        host: String,
        open_browser: bool,
        broadcast_capacity: usize,
    ) -> (config: Config)
        ensures
            config.content_dir == content_dir,
            config.output_dir == output_dir,
            config.port == port,
            config.host == host,
            config.open_browser == open_browser,
            config.broadcast_capacity == broadcast_capacity,
    {
        Config { content_dir, output_dir, port, host, open_browser, broadcast_capacity }
    }

    /// The address of the server as a browser takes it.
    pub fn server_url(&self) -> (url: String)
        ensures
            url@ == url_of(self.host@, self.port as nat),
    {
        let mut url = chars_of("http://");
        append_chars(&mut url, &chars_of(self.host.as_str()));
        append_chars(&mut url, &chars_of(":"));
        append_chars(&mut url, &decimal_chars(self.port));
        string_of(&url)
    }
}

impl Default for Config {
    /// Documents in `doc`, artifacts in `_dist`, the server on port 3000
    /// of the local host, the browser opened, queues of 16 signals.
    fn default() -> (config: Config)
        ensures
            config.content_dir@ == "doc"@,
            config.output_dir@ == "_dist"@,
            config.port == 3000,
            config.host@ == "127.0.0.1"@,
            config.open_browser,
            config.broadcast_capacity == 16,
    {
        Config {
            content_dir: "doc".to_owned(),
            output_dir: "_dist".to_owned(),
            port: 3000,
            host: "127.0.0.1".to_owned(),
            open_browser: true,
            broadcast_capacity: 16,
        }
    }
}

} // verus!
