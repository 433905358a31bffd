//! What a producer is configured with: one entry per tailed application.

use vstd::prelude::*;

verus! {

/// The character of a decimal digit.
pub open spec fn digit_char(d: nat) -> char {
    if d == 0 { '0' } else if d == 1 { '1' } else if d == 2 { '2' } else if d == 3 { '3' } else if d == 4 {
        '4'
    } else if d == 5 { '5' } else if d == 6 { '6' } else if d == 7 { '7' } else if d == 8 { '8' } else { '9' }
}

/// The decimal digits of `n`, without leading zeros.
pub open spec fn digits(n: nat) -> Seq<char>
    decreases n,
{
    if n < 10 {
        seq![digit_char(n)]
    } else {
        digits(n / 10).push(digit_char(n % 10))
    }
}

/// `n` written in decimal, with a minus sign when negative.
pub open spec fn decimal(n: int) -> Seq<char> {
    if n < 0 {
        seq!['-'] + digits((-n) as nat)
    } else {
        digits(n as nat)
    }
}

fn digit_str(d: u32) -> (r: &'static str)
    requires
        d < 10,
    ensures
        r@ == seq![digit_char(d as nat)],
{
    proof {
        reveal_strlit("0");
        reveal_strlit("1");
        reveal_strlit("2");
        reveal_strlit("3");
        reveal_strlit("4");
        reveal_strlit("5");
        reveal_strlit("6");
        reveal_strlit("7");
        reveal_strlit("8");
        reveal_strlit("9");
    }
    let r = match d {
        0 => "0",
        1 => "1",
        2 => "2",
        3 => "3",
        4 => "4",
        5 => "5",
        6 => "6",
        7 => "7",
        8 => "8",
        _ => "9",
    };
    assert(r@ =~= seq![digit_char(d as nat)]);
    r
}

/// Writes `n` in decimal.
pub fn to_decimal(n: i16) -> (r: String)
    ensures
        r@ == decimal(n as int),
{
    let negative = n < 0;
    let mut m: u32 = if negative { (0 - (n as i32)) as u32 } else { n as u32 };
    let ghost whole = m as nat;
    let mut s = String::new();
    while m >= 10
        invariant
            digits(whole) == digits(m as nat) + s@,
        decreases m,
    {
        let d = m % 10;
        let piece = String::from_str(digit_str(d)).concat(s.as_str());
        assert(digits(m as nat) + s@ =~= digits((m / 10) as nat) + piece@);
        s = piece;
        m = m / 10;
    }
    s = String::from_str(digit_str(m)).concat(s.as_str());
    if negative {
        proof {
            reveal_strlit("-");
        }
        s = String::from_str("-").concat(s.as_str());
    }
    s
}

/// Where one application's log files are, and where to ship them.
pub struct LogConfiguration {
    application: String,
    log_file_dir: String,
    log_file_name_regex: String,
    server_host: String,
    server_port: i16,
    server_path: String,
    channel_buffer: usize,
}

impl LogConfiguration {
    pub closed spec fn spec_application(&self) -> Seq<char> {
        self.application@
    }

    pub closed spec fn spec_log_file_dir(&self) -> Seq<char> {
        self.log_file_dir@
    }

    pub closed spec fn spec_log_file_name_regex(&self) -> Seq<char> {
        self.log_file_name_regex@
    }

    pub closed spec fn spec_server_host(&self) -> Seq<char> {
        self.server_host@
    }

    pub closed spec fn spec_server_port(&self) -> i16 {
        self.server_port
    }

    pub closed spec fn spec_server_path(&self) -> Seq<char> {
        self.server_path@
    }

    pub closed spec fn spec_channel_buffer(&self) -> usize {
        self.channel_buffer
    }

    pub fn new(
        application: String,
        log_file_dir: String,
        log_file_name_regex: String,
        server_host: String,
        server_port: i16,
        server_path: String,
        channel_buffer: usize,
    ) -> (r: LogConfiguration)
        ensures
            r.spec_application() == application@,
            r.spec_log_file_dir() == log_file_dir@,
            r.spec_log_file_name_regex() == log_file_name_regex@,
            r.spec_server_host() == server_host@,
            r.spec_server_port() == server_port,
            r.spec_server_path() == server_path@,
            r.spec_channel_buffer() == channel_buffer,
    {
        LogConfiguration {
            application,
            log_file_dir,
            log_file_name_regex,
            server_host,
            server_port,
            server_path,
            channel_buffer,
        }
    }

    pub fn get_application(&self) -> (r: String)
        ensures
            r@ == self.spec_application(),
    {
        self.application.clone()
    }

    pub fn get_log_file_dir(&self) -> (r: String)
        ensures
            r@ == self.spec_log_file_dir(),
    {
        self.log_file_dir.clone()
    }

    pub fn get_log_file_name_regex(&self) -> (r: String)
        ensures
            r@ == self.spec_log_file_name_regex(),
    {
        self.log_file_name_regex.clone()
    }

    pub fn get_server_host(&self) -> (r: String)
        ensures
            r@ == self.spec_server_host(),
    {
        self.server_host.clone()
    }

    pub fn get_server_port(&self) -> (r: i16)
        ensures
            r == self.spec_server_port(),
    {
        self.server_port
    }

    pub fn get_server_path(&self) -> (r: String)
        ensures
            r@ == self.spec_server_path(),
    {
        self.server_path.clone()
    }

    /// The relay's host and port: `<host>:<port>`.
    pub fn server_authority(&self) -> (r: String)
        ensures
            r@ == self.spec_server_host() + ":"@ + decimal(self.spec_server_port() as int),
    {
        self.server_host.clone().concat(":").concat(to_decimal(self.server_port).as_str())
    }

    /// The relay's WebSocket address: `ws://<host>:<port>/<path>`.
    pub fn server_uri(&self) -> (r: String)
        ensures
            r@ == "ws://"@ + self.spec_server_host() + ":"@ + decimal(self.spec_server_port() as int) + "/"@
                + self.spec_server_path(),
    {
        let authority = self.server_authority();
        let r = String::from_str("ws://").concat(authority.as_str()).concat("/").concat(self.server_path.as_str());
        assert(r@ =~= "ws://"@ + self.spec_server_host() + ":"@ + decimal(self.spec_server_port() as int) + "/"@
            + self.spec_server_path());
        r
    }

    pub fn get_channel_buffer(&self) -> (r: usize)
        ensures
            r == self.spec_channel_buffer(),
    {
        self.channel_buffer
    }
}

impl Clone for LogConfiguration {
    fn clone(&self) -> (r: LogConfiguration)
        ensures
            r.spec_application() == self.spec_application(),
            r.spec_log_file_dir() == self.spec_log_file_dir(),
            r.spec_log_file_name_regex() == self.spec_log_file_name_regex(),
            r.spec_server_host() == self.spec_server_host(),
            r.spec_server_port() == self.spec_server_port(),
            r.spec_server_path() == self.spec_server_path(),
            r.spec_channel_buffer() == self.spec_channel_buffer(),
    {
        LogConfiguration {
            application: self.application.clone(),
            log_file_dir: self.log_file_dir.clone(),
            log_file_name_regex: self.log_file_name_regex.clone(),
            server_host: self.server_host.clone(),
            server_port: self.server_port,
            server_path: self.server_path.clone(),
            channel_buffer: self.channel_buffer,
        }
    }
}

/// Every application a producer tails.
pub struct ClientConfiguration {
    configurations: Vec<LogConfiguration>,
}

impl ClientConfiguration {
    pub closed spec fn spec_configurations(&self) -> Seq<LogConfiguration> {
        self.configurations@
    }

    pub fn new(configurations: Vec<LogConfiguration>) -> (r: ClientConfiguration)
        ensures
            r.spec_configurations() == configurations@,
    {
        ClientConfiguration { configurations }
    }

    pub fn get_configurations(self) -> (r: Vec<LogConfiguration>)
        ensures
            r@ == self.spec_configurations(),
    {
        self.configurations
    }
}

} // verus!
